//! Tokenization of symbol names for full-text search, and the file path at
//! the front of a qualified name. (The full-text index itself is built and
//! queried by the application, which holds the search engine.)

use vstd::prelude::*;
use crate::text::{chars_of, string_from_chars, seq_contains_seq, occurs_at, is_first_occurrence,
    lemma_first_occurrence_exists, split_nonempty, split_pieces, split_acc, Sep, piece, spec_find, find,
    slice_to_vec, seq_ascii_lower, ascii_lower, is_sep, is_ascii_upper};
use crate::parser::naming::{unicode_is_uppercase, char_is_uppercase, seq_join, views, join_strings};

verus! {

/// Every char of `s` is ASCII.
pub open spec fn all_ascii(s: Seq<char>) -> bool {
    forall|i: int| 0 <= i < s.len() ==> (#[trigger] s[i] as u32) < 128
}

/// The full Unicode lower-case mapping of a string holding a char beyond
/// ASCII (`str::to_lowercase` there).
pub uninterp spec fn non_ascii_lowercase(s: Seq<char>) -> Seq<char>;

/// The full Unicode lower-case mapping of a string: for a string of ASCII
/// chars, each letter `A`..=`Z` becomes its lower-case letter and every other
/// char stays.
pub open spec fn unicode_lowercase(s: Seq<char>) -> Seq<char> {
    if all_ascii(s) { seq_ascii_lower(s) } else { non_ascii_lowercase(s) }
}

/// Calls `str::to_lowercase`. For a string with a char beyond ASCII its
/// result is named `non_ascii_lowercase`; for an ASCII string the contract
/// states what the Unicode tables give: each letter `A`..=`Z` becomes its
/// lower-case letter and every other char stays.
#[verifier::external_body]
pub fn string_to_lowercase(s: &str) -> (r: String)
    ensures
        !all_ascii(s@) ==> r@ == non_ascii_lowercase(s@),
        all_ascii(s@) ==> r@ == seq_ascii_lower(s@),
        r@ == unicode_lowercase(s@),
{
    s.to_lowercase()
}

/// Splits `s` before each upper-case char that follows a non-empty chunk,
/// the first chunk extended at its front by `cur`.
pub open spec fn camel_acc(s: Seq<char>, cur: Seq<char>) -> Seq<Seq<char>>
    decreases s.len(),
{
    if s.len() == 0 {
        piece(cur)
    } else if unicode_is_uppercase(s[0]) && cur.len() > 0 {
        seq![cur] + camel_acc(s.drop_first(), seq![s[0]])
    } else {
        camel_acc(s.drop_first(), cur.push(s[0]))
    }
}

/// The camel-case chunks of a name: a new chunk starts at each upper-case
/// char that is not the first of the name.
pub open spec fn camel_chunks(s: Seq<char>) -> Seq<Seq<char>> {
    camel_acc(s, Seq::empty())
}

/// The chunks of each piece, in order.
pub open spec fn chunks_of_pieces(ps: Seq<Seq<char>>) -> Seq<Seq<char>>
    decreases ps.len(),
{
    if ps.len() == 0 {
        Seq::empty()
    } else {
        chunks_of_pieces(ps.drop_last()) + camel_chunks(ps.last())
    }
}

/// The search tokens of a symbol: its pieces between `:` `_` `/` `.`, cut at
/// camel-case boundaries, each lower-cased.
pub open spec fn symbol_tokens(s: Seq<char>) -> Seq<Seq<char>> {
    chunks_of_pieces(split_pieces(s, Sep::SymbolPunct)).map_values(|t: Seq<char>| unicode_lowercase(t))
}

/// The camel-case chunks of `s`.
pub fn camel_split(s: &[char]) -> (r: Vec<Vec<char>>)
    ensures
        r@.len() == camel_chunks(s@).len(),
        forall|i: int| 0 <= i < r@.len() ==> (#[trigger] r@[i])@ == camel_chunks(s@)[i],
{
    let mut out: Vec<Vec<char>> = Vec::new();
    let mut cur: Vec<char> = Vec::new();
    let mut i: usize = 0;
    let ghost done: Seq<Seq<char>> = Seq::empty();
    assert(s@.skip(0) =~= s@);
    while i < s.len()
        invariant
            i <= s@.len(),
            out@.len() == done.len(),
            forall|j: int| 0 <= j < out@.len() ==> (#[trigger] out@[j])@ == done[j],
            done + camel_acc(s@.skip(i as int), cur@) == camel_chunks(s@),
        decreases s@.len() - i,
    {
        let ch = s[i];
        proof {
            assert(s@.skip(i as int)[0] == ch);
            assert(s@.skip(i as int).drop_first() =~= s@.skip(i + 1));
        }
        if char_is_uppercase(ch) && cur.len() > 0 {
            proof {
                done = done.push(cur@);
            }
            out.push(cur);
            cur = Vec::new();
            cur.push(ch);
            proof {
                assert(cur@ =~= seq![ch]);
                assert(done + camel_acc(s@.skip(i + 1), cur@) =~= camel_chunks(s@));
            }
        } else {
            cur.push(ch);
        }
        i += 1;
    }
    if cur.len() > 0 {
        proof {
            done = done.push(cur@);
        }
        out.push(cur);
    }
    proof {
        assert(s@.skip(i as int).len() == 0);
        assert(done =~= camel_chunks(s@));
    }
    out
}

/// Tokenizes a symbol name for full-text indexing and querying: splits on
/// `_`, `::`, `/`, `.` and camel-case boundaries, lower-cases each token and
/// joins them with single spaces (`handle_tool_call` gives
/// `handle tool call`, `GraphStore` gives `graph store`).
pub fn tokenize_symbol(s: &str) -> (r: String)
    ensures
        r@ == seq_join(symbol_tokens(s@), seq![' ']),
{
    let cs = chars_of(s);
    let pieces = split_nonempty(&cs, Sep::SymbolPunct);
    let ghost ps = split_pieces(s@, Sep::SymbolPunct);
    let mut tokens: Vec<String> = Vec::new();
    let mut p: usize = 0;
    while p < pieces.len()
        invariant
            p <= pieces@.len(),
            pieces@.len() == ps.len(),
            forall|i: int| 0 <= i < pieces@.len() ==> (#[trigger] pieces@[i])@ == ps[i],
            views(tokens@) == chunks_of_pieces(ps.take(p as int)).map_values(|t: Seq<char>| unicode_lowercase(t)),
        decreases pieces@.len() - p,
    {
        let chunks = camel_split(&pieces[p]);
        let ghost base = views(tokens@);
        let ghost cc = camel_chunks(ps[p as int]);
        let mut k: usize = 0;
        while k < chunks.len()
            invariant
                k <= chunks@.len(),
                chunks@.len() == cc.len(),
                forall|i: int| 0 <= i < chunks@.len() ==> (#[trigger] chunks@[i])@ == cc[i],
                views(tokens@) == base + cc.take(k as int).map_values(|t: Seq<char>| unicode_lowercase(t)),
            decreases chunks@.len() - k,
        {
            let chunk = string_from_chars(&chunks[k]);
            let low = string_to_lowercase(chunk.as_str());
            let ghost before = views(tokens@);
            tokens.push(low);
            proof {
                assert(views(tokens@) =~= before.push(unicode_lowercase(cc[k as int])));
                assert(cc.take(k + 1).map_values(|t: Seq<char>| unicode_lowercase(t))
                    =~= cc.take(k as int).map_values(|t: Seq<char>| unicode_lowercase(t)).push(unicode_lowercase(cc[k as int])));
            }
            k += 1;
        }
        proof {
            assert(cc.take(cc.len() as int) =~= cc);
            assert(ps.take(p + 1).drop_last() =~= ps.take(p as int));
            assert(ps.take(p + 1).last() == ps[p as int]);
            assert(chunks_of_pieces(ps.take(p + 1)) == chunks_of_pieces(ps.take(p as int)) + cc);
            assert(chunks_of_pieces(ps.take(p + 1)).map_values(|t: Seq<char>| unicode_lowercase(t))
                =~= chunks_of_pieces(ps.take(p as int)).map_values(|t: Seq<char>| unicode_lowercase(t))
                + cc.map_values(|t: Seq<char>| unicode_lowercase(t)));
        }
        p += 1;
    }
    proof {
        assert(ps.take(ps.len() as int) =~= ps);
    }
    let joined = join_strings(&tokens, ' ');
    string_from_chars(&joined)
}

/// The file path at the front of a qualified name: the text before the
/// first `::`, or the whole name.
pub open spec fn spec_extract_file_path(qn: Seq<char>) -> Seq<char> {
    match spec_find(qn, seq![':', ':']) {
        Some(i) => qn.take(i),
        None => qn,
    }
}

pub fn extract_file_path(qualified_name: &str) -> (r: String)
    ensures
        r@ == spec_extract_file_path(qualified_name@),
{
    let cs = chars_of(qualified_name);
    let sep: Vec<char> = vec![':', ':'];
    proof {
        assert(sep@ =~= seq![':', ':']);
    }
    match find(&cs, &sep) {
        Some(i) => {
            let k = slice_to_vec(&cs, 0, i);
            proof {
                assert(k@ =~= qualified_name@.take(i as int));
            }
            string_from_chars(&k)
        },
        None => string_from_chars(&cs),
    }
}

/// The file path taken from a qualified name is the text before its first
/// `::`: a prefix of the name that holds no `::`, with no `::` starting
/// inside it; it is followed by `::` when the name holds one, and is the
/// whole name when it does not.
pub proof fn lemma_extract_file_path_law(qn: Seq<char>)
    ensures
        ({
            let r = spec_extract_file_path(qn);
            &&& r.len() <= qn.len()
            &&& qn.take(r.len() as int) == r
            &&& !seq_contains_seq(r, seq![':', ':'])
            &&& forall|j: int| 0 <= j < r.len() ==> !occurs_at(qn, seq![':', ':'], j)
            &&& (seq_contains_seq(qn, seq![':', ':']) ==> occurs_at(qn, seq![':', ':'], r.len() as int))
            &&& (!seq_contains_seq(qn, seq![':', ':']) ==> r == qn)
        }),
{
    let sep = seq![':', ':'];
    let r = spec_extract_file_path(qn);
    if exists|i: int| is_first_occurrence(qn, sep, i) {
        let i = choose|i: int| is_first_occurrence(qn, sep, i);
        assert(r == qn.take(i));
        assert(seq_contains_seq(qn, sep));
        if seq_contains_seq(r, sep) {
            let j = choose|j: int| occurs_at(r, sep, j);
            assert(occurs_at(qn, sep, j)) by {
                assert(qn.subrange(j, j + 2) =~= r.subrange(j, j + 2));
            }
        }
    } else {
        assert(r == qn);
        if seq_contains_seq(qn, sep) {
            let j = choose|j: int| occurs_at(qn, sep, j);
            lemma_first_occurrence_exists(qn, sep, j);
        }
        assert(qn.take(qn.len() as int) =~= qn);
        if seq_contains_seq(r, sep) {
            let j = choose|j: int| occurs_at(r, sep, j);
            lemma_first_occurrence_exists(qn, sep, j);
        }
        assert forall|j: int| 0 <= j < r.len() implies !occurs_at(qn, sep, j) by {
            if occurs_at(qn, sep, j) {
                lemma_first_occurrence_exists(qn, sep, j);
            }
        }
    }
}

// ---------------------------------------------------------------------------
// Tokenizing twice
// ---------------------------------------------------------------------------

/// What a tokenized symbol is made of: the text `tokenize_symbol` gives.
pub open spec fn spec_tokenize(s: Seq<char>) -> Seq<char> {
    seq_join(symbol_tokens(s), seq![' '])
}

/// An ASCII char that is no `:` `_` `/` `.`.
pub open spec fn piece_char(c: char) -> bool {
    (c as u32) < 128 && !is_sep(Sep::SymbolPunct, c)
}

/// A piece char that is no upper-case letter.
pub open spec fn token_char(c: char) -> bool {
    piece_char(c) && !is_ascii_upper(c)
}

pub open spec fn all_piece_chars(u: Seq<char>) -> bool {
    forall|j: int| 0 <= j < u.len() ==> piece_char(#[trigger] u[j])
}

pub open spec fn all_token_chars(u: Seq<char>) -> bool {
    forall|j: int| 0 <= j < u.len() ==> token_char(#[trigger] u[j])
}

proof fn lemma_split_chars(s: Seq<char>, cur: Seq<char>)
    requires
        all_ascii(s),
        all_piece_chars(cur),
    ensures
        forall|i: int| 0 <= i < split_acc(s, cur, Sep::SymbolPunct).len()
            ==> all_piece_chars(#[trigger] split_acc(s, cur, Sep::SymbolPunct)[i]),
    decreases s.len(),
{
    if s.len() == 0 {
        assert forall|i: int| 0 <= i < piece(cur).len() implies all_piece_chars(#[trigger] piece(cur)[i]) by {
            assert(piece(cur)[i] == cur);
        }
    } else {
        let rest = s.drop_first();
        assert(all_ascii(rest)) by {
            assert forall|i: int| 0 <= i < rest.len() implies (#[trigger] rest[i] as u32) < 128 by {
                assert(rest[i] == s[i + 1]);
            }
        }
        assert((s[0] as u32) < 128);
        if is_sep(Sep::SymbolPunct, s[0]) {
            lemma_split_chars(rest, Seq::empty());
            let a = piece(cur);
            let b = split_acc(rest, Seq::empty(), Sep::SymbolPunct);
            assert(split_acc(s, cur, Sep::SymbolPunct) == a + b);
            assert forall|i: int| 0 <= i < (a + b).len() implies all_piece_chars(#[trigger] (a + b)[i]) by {
                if i < a.len() {
                    assert(a[i] == cur);
                    assert((a + b)[i] == cur);
                } else {
                    assert((a + b)[i] == b[i - a.len()]);
                }
            }
        } else {
            let c2 = cur.push(s[0]);
            assert(all_piece_chars(c2)) by {
                assert forall|j: int| 0 <= j < c2.len() implies piece_char(#[trigger] c2[j]) by {
                    if j < cur.len() {
                        assert(c2[j] == cur[j]);
                    }
                }
            }
            lemma_split_chars(rest, c2);
            assert(split_acc(s, cur, Sep::SymbolPunct) == split_acc(rest, c2, Sep::SymbolPunct));
        }
    }
}

proof fn lemma_camel_chars(s: Seq<char>, cur: Seq<char>)
    requires
        all_piece_chars(s),
        all_piece_chars(cur),
    ensures
        forall|i: int| 0 <= i < camel_acc(s, cur).len() ==> all_piece_chars(#[trigger] camel_acc(s, cur)[i]),
    decreases s.len(),
{
    if s.len() == 0 {
        assert forall|i: int| 0 <= i < piece(cur).len() implies all_piece_chars(#[trigger] piece(cur)[i]) by {
            assert(piece(cur)[i] == cur);
        }
    } else {
        let rest = s.drop_first();
        assert(all_piece_chars(rest)) by {
            assert forall|j: int| 0 <= j < rest.len() implies piece_char(#[trigger] rest[j]) by {
                assert(rest[j] == s[j + 1]);
            }
        }
        assert(piece_char(s[0]));
        if unicode_is_uppercase(s[0]) && cur.len() > 0 {
            let one = seq![s[0]];
            assert(all_piece_chars(one)) by {
                assert forall|j: int| 0 <= j < one.len() implies piece_char(#[trigger] one[j]) by {}
            }
            lemma_camel_chars(rest, one);
            let b = camel_acc(rest, one);
            assert(camel_acc(s, cur) == seq![cur] + b);
            assert forall|i: int| 0 <= i < (seq![cur] + b).len() implies all_piece_chars(#[trigger] (seq![cur] + b)[i]) by {
                if i == 0 {
                    assert((seq![cur] + b)[i] == cur);
                } else {
                    assert((seq![cur] + b)[i] == b[i - 1]);
                }
            }
        } else {
            let c2 = cur.push(s[0]);
            assert(all_piece_chars(c2)) by {
                assert forall|j: int| 0 <= j < c2.len() implies piece_char(#[trigger] c2[j]) by {
                    if j < cur.len() {
                        assert(c2[j] == cur[j]);
                    }
                }
            }
            lemma_camel_chars(rest, c2);
            assert(camel_acc(s, cur) == camel_acc(rest, c2));
        }
    }
}

proof fn lemma_chunks_chars(ps: Seq<Seq<char>>)
    requires
        forall|i: int| 0 <= i < ps.len() ==> all_piece_chars(#[trigger] ps[i]),
    ensures
        forall|i: int| 0 <= i < chunks_of_pieces(ps).len() ==> all_piece_chars(#[trigger] chunks_of_pieces(ps)[i]),
    decreases ps.len(),
{
    if ps.len() > 0 {
        let d = ps.drop_last();
        assert forall|i: int| 0 <= i < d.len() implies all_piece_chars(#[trigger] d[i]) by {
            assert(d[i] == ps[i]);
        }
        lemma_chunks_chars(d);
        assert(all_piece_chars(ps[ps.len() - 1]));
        assert(all_piece_chars(Seq::<char>::empty()));
        lemma_camel_chars(ps.last(), Seq::empty());
        let a = chunks_of_pieces(d);
        let b = camel_chunks(ps.last());
        assert forall|i: int| 0 <= i < (a + b).len() implies all_piece_chars(#[trigger] (a + b)[i]) by {
            if i < a.len() {
                assert((a + b)[i] == a[i]);
            } else {
                assert((a + b)[i] == b[i - a.len()]);
            }
        }
    }
}

proof fn lemma_lower_token(u: Seq<char>)
    requires
        all_piece_chars(u),
    ensures
        unicode_lowercase(u) == seq_ascii_lower(u),
        all_token_chars(seq_ascii_lower(u)),
{
    assert(all_ascii(u)) by {
        assert forall|i: int| 0 <= i < u.len() implies (#[trigger] u[i] as u32) < 128 by {
            assert(piece_char(u[i]));
        }
    }
    let l = seq_ascii_lower(u);
    assert forall|j: int| 0 <= j < l.len() implies token_char(#[trigger] l[j]) by {
        assert(piece_char(u[j]));
        assert(l[j] == ascii_lower(u[j]));
        if is_ascii_upper(u[j]) {
            assert((u[j] as u32) + 32 < 128);
            assert(l[j] as u32 == (u[j] as u32) + 32);
        }
    }
}

proof fn lemma_join_chars(items: Seq<Seq<char>>)
    requires
        forall|i: int| 0 <= i < items.len() ==> all_token_chars(#[trigger] items[i]),
    ensures
        all_token_chars(seq_join(items, seq![' '])),
    decreases items.len(),
{
    if items.len() == 1 {
        assert(all_token_chars(items[0]));
    } else if items.len() > 1 {
        let d = items.drop_last();
        assert forall|i: int| 0 <= i < d.len() implies all_token_chars(#[trigger] d[i]) by {
            assert(d[i] == items[i]);
        }
        lemma_join_chars(d);
        let a = seq_join(d, seq![' ']);
        let b = items.last();
        assert(all_token_chars(items[items.len() - 1]));
        let j = a + seq![' '] + b;
        assert forall|k: int| 0 <= k < j.len() implies token_char(#[trigger] j[k]) by {
            if k < a.len() {
                assert(j[k] == a[k]);
            } else if k == a.len() {
                assert(j[k] == ' ');
            } else {
                assert(j[k] == b[k - a.len() - 1]);
            }
        }
    }
}

proof fn lemma_split_whole(u: Seq<char>, cur: Seq<char>)
    requires
        all_piece_chars(u),
    ensures
        split_acc(u, cur, Sep::SymbolPunct) == piece(cur + u),
    decreases u.len(),
{
    if u.len() == 0 {
        assert(cur + u =~= cur);
    } else {
        let rest = u.drop_first();
        assert(piece_char(u[0]));
        assert(all_piece_chars(rest)) by {
            assert forall|j: int| 0 <= j < rest.len() implies piece_char(#[trigger] rest[j]) by {
                assert(rest[j] == u[j + 1]);
            }
        }
        lemma_split_whole(rest, cur.push(u[0]));
        assert(cur.push(u[0]) + rest =~= cur + u);
    }
}

proof fn lemma_camel_whole(u: Seq<char>, cur: Seq<char>)
    requires
        all_token_chars(u),
    ensures
        camel_acc(u, cur) == piece(cur + u),
    decreases u.len(),
{
    if u.len() == 0 {
        assert(cur + u =~= cur);
    } else {
        let rest = u.drop_first();
        assert(token_char(u[0]));
        assert(!unicode_is_uppercase(u[0]));
        assert(all_token_chars(rest)) by {
            assert forall|j: int| 0 <= j < rest.len() implies token_char(#[trigger] rest[j]) by {
                assert(rest[j] == u[j + 1]);
            }
        }
        lemma_camel_whole(rest, cur.push(u[0]));
        assert(cur.push(u[0]) + rest =~= cur + u);
    }
}

/// The tokens of an ASCII symbol name hold only ASCII chars, none of them
/// `:` `_` `/` `.` or an upper-case letter (spaces join them); an empty
/// name gives no text.
pub proof fn lemma_tokenize_chars(s: Seq<char>)
    requires
        all_ascii(s),
    ensures
        all_token_chars(spec_tokenize(s)),
        spec_tokenize(Seq::empty()) == Seq::<char>::empty(),
{
    let ps = split_pieces(s, Sep::SymbolPunct);
    lemma_split_chars(s, Seq::empty());
    lemma_chunks_chars(ps);
    let cs = chunks_of_pieces(ps);
    let toks = symbol_tokens(s);
    assert forall|i: int| 0 <= i < toks.len() implies all_token_chars(#[trigger] toks[i]) by {
        lemma_lower_token(cs[i]);
        assert(toks[i] == unicode_lowercase(cs[i]));
    }
    lemma_join_chars(toks);
    assert(split_pieces(Seq::<char>::empty(), Sep::SymbolPunct) =~= Seq::<Seq<char>>::empty());
    assert(symbol_tokens(Seq::<char>::empty()) =~= Seq::<Seq<char>>::empty());
}

/// Tokenizing an ASCII symbol name a second time changes nothing: the
/// tokens are lower case, hold no `:` `_` `/` `.`, and are joined by
/// spaces, which no step splits on.
pub proof fn lemma_tokenize_idempotent(s: Seq<char>)
    requires
        all_ascii(s),
    ensures
        spec_tokenize(spec_tokenize(s)) == spec_tokenize(s),
{
    let ps = split_pieces(s, Sep::SymbolPunct);
    lemma_split_chars(s, Seq::empty());
    lemma_chunks_chars(ps);
    let cs = chunks_of_pieces(ps);
    let toks = symbol_tokens(s);
    assert forall|i: int| 0 <= i < toks.len() implies all_token_chars(#[trigger] toks[i]) by {
        lemma_lower_token(cs[i]);
        assert(toks[i] == unicode_lowercase(cs[i]));
    }
    lemma_join_chars(toks);
    let t = spec_tokenize(s);
    assert(all_piece_chars(t)) by {
        assert forall|j: int| 0 <= j < t.len() implies piece_char(#[trigger] t[j]) by {
            assert(token_char(t[j]));
        }
    }
    lemma_split_whole(t, Seq::empty());
    assert(Seq::<char>::empty() + t =~= t);
    let pt = split_pieces(t, Sep::SymbolPunct);
    assert(pt == piece(t));
    lemma_camel_whole(t, Seq::empty());
    assert(camel_chunks(t) == piece(t));
    if t.len() > 0 {
        assert(pt =~= seq![t]);
        assert(pt.drop_last() =~= Seq::<Seq<char>>::empty());
        assert(pt.last() == t);
        assert(chunks_of_pieces(pt.drop_last()) == Seq::<Seq<char>>::empty());
        assert(chunks_of_pieces(pt) == chunks_of_pieces(pt.drop_last()) + camel_chunks(pt.last()));
        assert(chunks_of_pieces(pt) =~= piece(t));
        lemma_lower_token(t);
        assert(seq_ascii_lower(t) =~= t) by {
            assert forall|j: int| 0 <= j < t.len() implies seq_ascii_lower(t)[j] == t[j] by {
                assert(token_char(t[j]));
            }
        }
        assert(symbol_tokens(t) =~= seq![t]);
    } else {
        assert(chunks_of_pieces(pt) =~= Seq::<Seq<char>>::empty());
        assert(symbol_tokens(t) =~= Seq::<Seq<char>>::empty());
    }
}

} // verus!

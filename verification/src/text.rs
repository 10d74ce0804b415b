//! Character-level string helpers shared by every module.

use vstd::prelude::*;

verus! {

broadcast use vstd::string::group_string_axioms;

/// Appends one character to a `String`.
///
/// Calls `String::push`, which std documents as appending the given char
/// to the end of the string; the contract states exactly that.
#[verifier::external_body]
pub fn push_char(s: &mut String, c: char)
    ensures
        final(s)@ == old(s)@.push(c),
{
    s.push(c);
}

/// The characters of `s`, in order.
pub fn chars_of(s: &str) -> (v: Vec<char>)
    ensures
        v@ == s@,
{
    let mut v: Vec<char> = Vec::new();
    let it = s.chars();
    for c in iter: it
        invariant
            v@ == iter.seq().take(iter.index() as int),
            iter.seq() == s@,
    {
        v.push(c);
    }
    v
}

/// A `String` holding exactly the characters of `v`.
pub fn string_from_chars(v: &[char]) -> (s: String)
    ensures
        s@ == v@,
{
    let mut s = String::new();
    let mut i: usize = 0;
    while i < v.len()
        invariant
            i <= v@.len(),
            s@ == v@.take(i as int),
        decreases v@.len() - i,
    {
        push_char(&mut s, v[i]);
        i += 1;
        assert(s@ =~= v@.take(i as int));
    }
    assert(v@.take(v@.len() as int) =~= v@);
    s
}

/// Whether `s` has no characters.
pub fn str_is_empty(s: &str) -> (r: bool)
    ensures
        r == (s@.len() == 0),
{
    chars_of(s).len() == 0
}

/// A `String` holding exactly the characters of `s`.
pub fn to_owned_string(s: &str) -> (r: String)
    ensures
        r@ == s@,
{
    let v = chars_of(s);
    string_from_chars(&v)
}

/// Whether two character sequences are equal.
pub fn chars_eq(a: &[char], b: &[char]) -> (r: bool)
    ensures
        r == (a@ == b@),
{
    if a.len() != b.len() {
        return false;
    }
    let mut i: usize = 0;
    while i < a.len()
        invariant
            a@.len() == b@.len(),
            i <= a@.len(),
            forall|k: int| 0 <= k < i ==> a@[k] == b@[k],
        decreases a@.len() - i,
    {
        if a[i] != b[i] {
            return false;
        }
        i += 1;
    }
    assert(a@ =~= b@);
    true
}

/// Whether two string slices hold the same characters.
pub fn str_eq(a: &str, b: &str) -> (r: bool)
    ensures
        r == (a@ == b@),
{
    let va = chars_of(a);
    let vb = chars_of(b);
    chars_eq(&va, &vb)
}

/// `p` is a prefix of `s`.
pub open spec fn seq_starts_with(s: Seq<char>, p: Seq<char>) -> bool {
    p.len() <= s.len() && s.take(p.len() as int) == p
}

/// `p` is a suffix of `s`.
pub open spec fn seq_ends_with(s: Seq<char>, p: Seq<char>) -> bool {
    p.len() <= s.len() && s.skip(s.len() - p.len()) == p
}

/// `p` occurs in `s` starting at position `i`.
pub open spec fn occurs_at(s: Seq<char>, p: Seq<char>, i: int) -> bool {
    0 <= i && i + p.len() <= s.len() && s.subrange(i, i + p.len()) == p
}

/// `p` occurs somewhere in `s`.
pub open spec fn seq_contains_seq(s: Seq<char>, p: Seq<char>) -> bool {
    exists|i: int| occurs_at(s, p, i)
}

/// Whether `p` occurs in `s` at position `i`.
pub fn matches_at(s: &[char], p: &[char], i: usize) -> (r: bool)
    ensures
        r == occurs_at(s@, p@, i as int),
{
    if i > s.len() || p.len() > s.len() - i {
        return false;
    }
    let mut k: usize = 0;
    while k < p.len()
        invariant
            i + p.len() <= s.len(),
            k <= p@.len(),
            forall|j: int| 0 <= j < k ==> s@[i + j] == p@[j],
        decreases p@.len() - k,
    {
        assert(i + k < s.len());
        if s[i + k] != p[k] {
            assert(s@.subrange(i as int, i + p@.len())[k as int] != p@[k as int]);
            return false;
        }
        k += 1;
    }
    assert(s@.subrange(i as int, i + p@.len()) =~= p@);
    true
}

/// Whether `p` is a prefix of `s`.
pub fn starts_with(s: &[char], p: &[char]) -> (r: bool)
    ensures
        r == seq_starts_with(s@, p@),
{
    let r = matches_at(s, p, 0);
    assert(s@.subrange(0, p@.len() as int) =~= s@.take(p@.len() as int));
    r
}

/// Whether `p` is a suffix of `s`.
pub fn ends_with(s: &[char], p: &[char]) -> (r: bool)
    ensures
        r == seq_ends_with(s@, p@),
{
    if p.len() > s.len() {
        return false;
    }
    let r = matches_at(s, p, s.len() - p.len());
    assert(s@.subrange(s@.len() - p@.len(), s@.len() as int) =~= s@.skip(s@.len() - p@.len()));
    r
}

/// The first position at or after `from` where `p` occurs in `s`.
pub fn find_from(s: &[char], p: &[char], from: usize) -> (r: Option<usize>)
    ensures
        match r {
            Some(i) => from <= i && occurs_at(s@, p@, i as int)
                && forall|j: int| from <= j < i ==> !occurs_at(s@, p@, j),
            None => forall|j: int| from <= j ==> !occurs_at(s@, p@, j),
        },
{
    if from > s.len() {
        return None;
    }
    let mut i = from;
    loop
        invariant
            from <= i <= s@.len(),
            forall|j: int| from <= j < i ==> !occurs_at(s@, p@, j),
        decreases s@.len() - i,
    {
        if matches_at(s, p, i) {
            return Some(i);
        }
        if i >= s.len() {
            return None;
        }
        i += 1;
    }
}

/// Whether `p` occurs anywhere in `s`.
pub fn contains_seq(s: &[char], p: &[char]) -> (r: bool)
    ensures
        r == seq_contains_seq(s@, p@),
{
    match find_from(s, p, 0) {
        Some(i) => true,
        None => {
            assert forall|j: int| !occurs_at(s@, p@, j) by {
                if j < 0 {}
            }
            false
        },
    }
}

/// Whether `c` occurs in `s`.
pub fn contains_char(s: &[char], c: char) -> (r: bool)
    ensures
        r == s@.contains(c),
{
    let mut i: usize = 0;
    while i < s.len()
        invariant
            i <= s@.len(),
            forall|j: int| 0 <= j < i ==> s@[j] != c,
        decreases s@.len() - i,
    {
        if s[i] == c {
            return true;
        }
        i += 1;
    }
    false
}

/// ASCII letter or digit.
pub open spec fn is_ascii_alnum(c: char) -> bool {
    ('a' <= c && c <= 'z') || ('A' <= c && c <= 'Z') || ('0' <= c && c <= '9')
}

/// ASCII letter.
pub open spec fn is_ascii_alpha(c: char) -> bool {
    ('a' <= c && c <= 'z') || ('A' <= c && c <= 'Z')
}

/// ASCII upper-case letter.
pub open spec fn is_ascii_upper(c: char) -> bool {
    'A' <= c && c <= 'Z'
}

/// ASCII digit.
pub open spec fn is_ascii_digit(c: char) -> bool {
    '0' <= c && c <= '9'
}

/// ASCII white space as `char::is_ascii_whitespace` defines it:
/// space, tab, line feed, form feed, carriage return.
pub open spec fn is_ascii_ws(c: char) -> bool {
    c == ' ' || c == '\t' || c == '\n' || c == '\x0C' || c == '\r'
}

/// Lower-cases an ASCII upper-case letter; every other char is unchanged.
pub open spec fn ascii_lower(c: char) -> char {
    if is_ascii_upper(c) {
        ((c as u32) + 32) as char
    } else {
        c
    }
}

pub fn exec_is_ascii_alnum(c: char) -> (r: bool)
    ensures
        r == is_ascii_alnum(c),
{
    ('a' <= c && c <= 'z') || ('A' <= c && c <= 'Z') || ('0' <= c && c <= '9')
}

pub fn exec_is_ascii_alpha(c: char) -> (r: bool)
    ensures
        r == is_ascii_alpha(c),
{
    ('a' <= c && c <= 'z') || ('A' <= c && c <= 'Z')
}

pub fn exec_is_ascii_upper(c: char) -> (r: bool)
    ensures
        r == is_ascii_upper(c),
{
    'A' <= c && c <= 'Z'
}

pub fn exec_is_ascii_ws(c: char) -> (r: bool)
    ensures
        r == is_ascii_ws(c),
{
    c == ' ' || c == '\t' || c == '\n' || c == '\x0C' || c == '\r'
}

pub fn exec_ascii_lower(c: char) -> (r: char)
    ensures
        r == ascii_lower(c),
{
    if 'A' <= c && c <= 'Z' {
        let b: u8 = (c as u8) + 32;
        (b as char)
    } else {
        c
    }
}

/// Each character lower-cased (ASCII letters only).
pub open spec fn seq_ascii_lower(s: Seq<char>) -> Seq<char> {
    s.map_values(|c: char| ascii_lower(c))
}

/// `i` is the first position where `p` occurs in `s`.
pub open spec fn is_first_occurrence(s: Seq<char>, p: Seq<char>, i: int) -> bool {
    occurs_at(s, p, i) && forall|j: int| 0 <= j < i ==> !occurs_at(s, p, j)
}

/// `i` is the last position where `p` occurs in `s`.
pub open spec fn is_last_occurrence(s: Seq<char>, p: Seq<char>, i: int) -> bool {
    occurs_at(s, p, i) && forall|j: int| i < j ==> !occurs_at(s, p, j)
}

/// The first position where `p` occurs in `s` (`str::find`).
pub open spec fn spec_find(s: Seq<char>, p: Seq<char>) -> Option<int> {
    if exists|i: int| is_first_occurrence(s, p, i) {
        Some(choose|i: int| is_first_occurrence(s, p, i))
    } else {
        None
    }
}

/// The last position where `p` occurs in `s` (`str::rfind`).
pub open spec fn spec_rfind(s: Seq<char>, p: Seq<char>) -> Option<int> {
    if exists|i: int| is_last_occurrence(s, p, i) {
        Some(choose|i: int| is_last_occurrence(s, p, i))
    } else {
        None
    }
}

/// Where `p` occurs at all, it has a first occurrence.
pub proof fn lemma_first_occurrence_exists(s: Seq<char>, p: Seq<char>, j: int)
    requires
        occurs_at(s, p, j),
    ensures
        exists|i: int| is_first_occurrence(s, p, i),
    decreases j,
{
    if !is_first_occurrence(s, p, j) {
        let k = choose|k: int| 0 <= k < j && occurs_at(s, p, k);
        lemma_first_occurrence_exists(s, p, k);
    }
}

/// The first position where `p` occurs in `s`.
pub fn find(s: &[char], p: &[char]) -> (r: Option<usize>)
    ensures
        match r {
            Some(i) => spec_find(s@, p@) == Some(i as int),
            None => spec_find(s@, p@) is None && forall|j: int| !occurs_at(s@, p@, j),
        },
{
    match find_from(s, p, 0) {
        Some(i) => {
            proof {
                assert(is_first_occurrence(s@, p@, i as int));
                let k = choose|k: int| is_first_occurrence(s@, p@, k);
                if k < i {
                    assert(!occurs_at(s@, p@, k));
                }
                if k > i {
                    assert(!occurs_at(s@, p@, i as int));
                }
            }
            Some(i)
        },
        None => {
            assert forall|j: int| !occurs_at(s@, p@, j) by {
                if j < 0 {}
            }
            None
        },
    }
}

/// The last position where `p` occurs in `s`.
pub fn rfind(s: &[char], p: &[char]) -> (r: Option<usize>)
    ensures
        match r {
            Some(i) => spec_rfind(s@, p@) == Some(i as int),
            None => spec_rfind(s@, p@) is None && forall|j: int| !occurs_at(s@, p@, j),
        },
{
    if p.len() > s.len() {
        return None;
    }
    let mut i: usize = s.len() - p.len();
    loop
        invariant
            i + p@.len() <= s@.len(),
            forall|j: int| i < j ==> !occurs_at(s@, p@, j),
        decreases i,
    {
        if matches_at(s, p, i) {
            proof {
                assert(is_last_occurrence(s@, p@, i as int));
                let k = choose|k: int| is_last_occurrence(s@, p@, k);
                if k < i {
                    assert(!occurs_at(s@, p@, i as int));
                }
                if k > i {
                    assert(!occurs_at(s@, p@, k));
                }
            }
            return Some(i);
        }
        if i == 0 {
            assert forall|j: int| !occurs_at(s@, p@, j) by {
                if j < 0 {}
            }
            return None;
        }
        i -= 1;
    }
}

/// Slices `s[from..to]` into a fresh vector.
pub fn slice_to_vec(s: &[char], from: usize, to: usize) -> (r: Vec<char>)
    requires
        from <= to <= s@.len(),
    ensures
        r@ == s@.subrange(from as int, to as int),
{
    let mut r: Vec<char> = Vec::new();
    let mut i = from;
    while i < to
        invariant
            from <= i <= to,
            to <= s@.len(),
            r@ == s@.subrange(from as int, i as int),
        decreases to - i,
    {
        r.push(s[i]);
        i += 1;
        assert(r@ =~= s@.subrange(from as int, i as int));
    }
    r
}

/// Whether a char has the Unicode `White_Space` property, what
/// `char::is_whitespace` answers: tab through carriage return, space, next
/// line, no-break space, Ogham space mark, the spaces U+2000 to U+200A, the
/// line and paragraph separators, narrow no-break space, medium
/// mathematical space and ideographic space.
pub open spec fn unicode_is_whitespace(c: char) -> bool {
    let u = c as u32;
    (0x09 <= u <= 0x0D) || u == 0x20 || u == 0x85 || u == 0xA0 || u == 0x1680 || (0x2000 <= u <= 0x200A)
        || u == 0x2028 || u == 0x2029 || u == 0x202F || u == 0x205F || u == 0x3000
}

/// Whether `c` is Unicode white space; for ASCII: space, tab, line feed,
/// vertical tab, form feed and carriage return, and no other.
pub fn char_is_whitespace(c: char) -> (r: bool)
    ensures
        r == unicode_is_whitespace(c),
        (c as u32) < 128 ==> (r <==> (is_ascii_ws(c) || c == '\x0B')),
{
    let u = c as u32;
    (0x09 <= u && u <= 0x0D) || u == 0x20 || u == 0x85 || u == 0xA0 || u == 0x1680 || (0x2000 <= u && u <= 0x200A)
        || u == 0x2028 || u == 0x2029 || u == 0x202F || u == 0x205F || u == 0x3000
}

/// The separator classes the tokenizers split on.
#[derive(Clone, Copy, PartialEq, Eq, Structural)]
pub enum Sep {
    /// Unicode white space (`str::split_whitespace`).
    Whitespace,
    /// `:` `_` `/` `.` (symbol-name tokenization).
    SymbolPunct,
    /// ASCII white space, backtick, `(`, `)`, `,` (file-path scanning).
    PathDelims,
    /// White space and `& * < > , ( ) [ ]` (type-annotation scanning).
    TypeDelims,
    /// `,` (attribute argument lists).
    Comma,
}

pub open spec fn is_sep(k: Sep, c: char) -> bool {
    match k {
        Sep::Whitespace => unicode_is_whitespace(c),
        Sep::SymbolPunct => c == ':' || c == '_' || c == '/' || c == '.',
        Sep::PathDelims => is_ascii_ws(c) || c == '`' || c == '(' || c == ')' || c == ',',
        Sep::TypeDelims => unicode_is_whitespace(c) || c == '&' || c == '*' || c == '<' || c == '>'
            || c == ',' || c == '(' || c == ')' || c == '[' || c == ']',
        Sep::Comma => c == ',',
    }
}

pub fn exec_is_sep(k: Sep, c: char) -> (r: bool)
    ensures
        r == is_sep(k, c),
{
    match k {
        Sep::Whitespace => char_is_whitespace(c),
        Sep::SymbolPunct => c == ':' || c == '_' || c == '/' || c == '.',
        Sep::PathDelims => exec_is_ascii_ws(c) || c == '`' || c == '(' || c == ')' || c == ',',
        Sep::TypeDelims => char_is_whitespace(c) || c == '&' || c == '*' || c == '<' || c == '>'
            || c == ',' || c == '(' || c == ')' || c == '[' || c == ']',
        Sep::Comma => c == ',',
    }
}

/// `cur` as a one-piece list when non-empty.
pub open spec fn piece(cur: Seq<char>) -> Seq<Seq<char>> {
    if cur.len() > 0 { seq![cur] } else { Seq::empty() }
}

/// The non-empty maximal runs of non-separator chars of `s`, the first one
/// extended at its front by `cur`.
pub open spec fn split_acc(s: Seq<char>, cur: Seq<char>, k: Sep) -> Seq<Seq<char>>
    decreases s.len(),
{
    if s.len() == 0 {
        piece(cur)
    } else if is_sep(k, s[0]) {
        piece(cur) + split_acc(s.drop_first(), Seq::empty(), k)
    } else {
        split_acc(s.drop_first(), cur.push(s[0]), k)
    }
}

/// The non-empty pieces of `s` between separators of class `k`.
pub open spec fn split_pieces(s: Seq<char>, k: Sep) -> Seq<Seq<char>> {
    split_acc(s, Seq::empty(), k)
}

/// Splits `s` into its non-empty pieces between separators of class `k`.
pub fn split_nonempty(s: &[char], k: Sep) -> (r: Vec<Vec<char>>)
    ensures
        r@.len() == split_pieces(s@, k).len(),
        forall|i: int| 0 <= i < r@.len() ==> (#[trigger] r@[i])@ == split_pieces(s@, k)[i],
{
    let mut out: Vec<Vec<char>> = Vec::new();
    let mut cur: Vec<char> = Vec::new();
    let mut i: usize = 0;
    let ghost done: Seq<Seq<char>> = Seq::empty();
    assert(s@.skip(0) =~= s@);
    while i < s.len()
        invariant
            i <= s@.len(),
            out@.len() == done.len(),
            forall|j: int| 0 <= j < out@.len() ==> (#[trigger] out@[j])@ == done[j],
            done + split_acc(s@.skip(i as int), cur@, k) == split_pieces(s@, k),
        decreases s@.len() - i,
    {
        let c = s[i];
        proof {
            assert(s@.skip(i as int)[0] == c);
            assert(s@.skip(i as int).drop_first() =~= s@.skip(i + 1));
        }
        if exec_is_sep(k, c) {
            if cur.len() > 0 {
                proof { done = done.push(cur@); }
                out.push(cur);
                proof {
                    assert(seq![cur@] =~= piece(cur@));
                }
            }
            cur = Vec::new();
            proof {
                assert(done + split_acc(s@.skip(i + 1), cur@, k) =~= split_pieces(s@, k)) by {
                    assert(cur@ =~= Seq::<char>::empty());
                }
            }
        } else {
            cur.push(c);
        }
        i += 1;
    }
    if cur.len() > 0 {
        proof { done = done.push(cur@); }
        out.push(cur);
    }
    proof {
        assert(s@.skip(i as int).len() == 0);
        assert(done =~= split_pieces(s@, k));
    }
    out
}

pub open spec fn trim_start_ws(s: Seq<char>) -> Seq<char>
    decreases s.len(),
{
    if s.len() > 0 && unicode_is_whitespace(s[0]) { trim_start_ws(s.drop_first()) } else { s }
}

pub open spec fn trim_end_ws(s: Seq<char>) -> Seq<char>
    decreases s.len(),
{
    if s.len() > 0 && unicode_is_whitespace(s.last()) { trim_end_ws(s.drop_last()) } else { s }
}

/// `str::trim`: leading and trailing white space removed.
pub open spec fn spec_trim(s: Seq<char>) -> Seq<char> {
    trim_end_ws(trim_start_ws(s))
}

pub fn trim(s: &str) -> (r: String)
    ensures
        r@ == spec_trim(s@),
{
    let cs = chars_of(s);
    let mut a: usize = 0;
    assert(cs@.skip(0) =~= cs@);
    while a < cs.len() && char_is_whitespace(cs[a])
        invariant
            a <= cs@.len(),
            cs@ == s@,
            trim_start_ws(s@) == trim_start_ws(cs@.skip(a as int)),
        decreases cs@.len() - a,
    {
        proof {
            assert(cs@.skip(a as int)[0] == cs@[a as int]);
            assert(cs@.skip(a as int).drop_first() =~= cs@.skip(a + 1));
        }
        a += 1;
    }
    let ghost t = cs@.skip(a as int);
    proof {
        assert(trim_start_ws(s@) == t);
        assert(t.subrange(0, t.len() as int) =~= t);
    }
    let mut b: usize = cs.len();
    while b > a && char_is_whitespace(cs[b - 1])
        invariant
            a <= b <= cs@.len(),
            t == cs@.skip(a as int),
            trim_end_ws(t) == trim_end_ws(cs@.subrange(a as int, b as int)),
        decreases b,
    {
        proof {
            assert(cs@.subrange(a as int, b as int).drop_last() =~= cs@.subrange(a as int, b - 1));
            assert(cs@.subrange(a as int, b as int).last() == cs@[b - 1]);
        }
        b -= 1;
    }
    proof {
        assert(cs@.skip(a as int) =~= cs@.subrange(a as int, cs@.len() as int));
    }
    string_from_chars(&slice_to_vec(&cs, a, b))
}

/// Whether a char beyond ASCII has the Unicode `Alphabetic` property (the
/// result of `char::is_alphabetic` there).
pub uninterp spec fn non_ascii_is_alphabetic(c: char) -> bool;

/// Whether a char has the Unicode `Alphabetic` property: for ASCII exactly
/// the letters `A`..=`Z` and `a`..=`z`.
pub open spec fn unicode_is_alphabetic(c: char) -> bool {
    if (c as u32) < 128 { is_ascii_alpha(c) } else { non_ascii_is_alphabetic(c) }
}

/// Calls `char::is_alphabetic`. Beyond ASCII its result is named
/// `non_ascii_is_alphabetic`; for ASCII the contract states what the
/// Unicode tables give: exactly the letters `A`..=`Z` and `a`..=`z`.
#[verifier::external_body]
pub fn char_is_alphabetic(c: char) -> (r: bool)
    ensures
        (c as u32) >= 128 ==> r == non_ascii_is_alphabetic(c),
        (c as u32) < 128 ==> (r <==> is_ascii_alpha(c)),
        r == unicode_is_alphabetic(c),
{
    c.is_alphabetic()
}

} // verus!

//! Terms of the sparse TF-IDF vector index: the tokenization of symbol
//! text into terms and the id of a term in the sorted vocabulary. (Weights
//! are floating point and are computed in the application.)

use vstd::prelude::*;
use crate::text::{chars_of, split_nonempty, split_pieces, Sep, string_from_chars, str_eq};
use crate::parser::naming::{seq_join, views};
use crate::search::bm25::{tokenize_symbol, symbol_tokens};

verus! {

/// The terms of `s`: its symbol tokens, split again at white space.
pub open spec fn spec_terms(s: Seq<char>) -> Seq<Seq<char>> {
    split_pieces(seq_join(symbol_tokens(s), seq![' ']), Sep::Whitespace)
}

/// Tokenizes text into vector-index terms (`handle_tool_call` gives
/// `handle`, `tool`, `call`).
pub fn tokenize_to_terms(s: &str) -> (r: Vec<String>)
    ensures
        views(r@) == spec_terms(s@),
{
    let joined = tokenize_symbol(s);
    let cs = chars_of(joined.as_str());
    let pieces = split_nonempty(&cs, Sep::Whitespace);
    let mut out: Vec<String> = Vec::new();
    let mut i: usize = 0;
    while i < pieces.len()
        invariant
            i <= pieces@.len(),
            pieces@.len() == spec_terms(s@).len(),
            forall|k: int| 0 <= k < pieces@.len() ==> (#[trigger] pieces@[k])@ == spec_terms(s@)[k],
            views(out@) == spec_terms(s@).take(i as int),
        decreases pieces@.len() - i,
    {
        let ghost before = views(out@);
        out.push(string_from_chars(&pieces[i]));
        proof {
            assert(views(out@) =~= before.push(pieces@[i as int]@));
            assert(views(out@) =~= spec_terms(s@).take(i + 1));
        }
        i += 1;
    }
    proof {
        assert(spec_terms(s@).take(pieces@.len() as int) =~= spec_terms(s@));
    }
    out
}

/// The id of `term`: its position in the vocabulary.
pub fn term_id_of(vocabulary: &Vec<String>, term: &str) -> (r: Option<u32>)
    requires
        vocabulary@.len() <= u32::MAX,
    ensures
        match r {
            Some(id) => id < vocabulary@.len() && vocabulary@[id as int]@ == term@
                && forall|j: int| 0 <= j < id ==> (#[trigger] vocabulary@[j])@ != term@,
            None => forall|j: int| 0 <= j < vocabulary@.len() ==> (#[trigger] vocabulary@[j])@ != term@,
        },
{
    let mut i: usize = 0;
    while i < vocabulary.len()
        invariant
            i <= vocabulary@.len(),
            vocabulary@.len() <= u32::MAX,
            forall|j: int| 0 <= j < i ==> (#[trigger] vocabulary@[j])@ != term@,
        decreases vocabulary@.len() - i,
    {
        if str_eq(vocabulary[i].as_str(), term) {
            return Some(i as u32);
        }
        i += 1;
    }
    None
}

} // verus!

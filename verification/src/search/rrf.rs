//! The ranked lists that reciprocal rank fusion combines. (The fusion
//! itself scores in floating point and runs in the application.)

use vstd::prelude::*;

verus! {

/// One entry of a ranked list: a key and its 1-based rank.
pub struct RankedEntry {
    pub key: String,
    pub rank: usize,
}

/// The entries of a result list of keys, ranked 1, 2, … in order.
pub fn rank_keys(keys: Vec<String>) -> (r: Vec<RankedEntry>)
    requires
        keys@.len() < usize::MAX,
    ensures
        r@.len() == keys@.len(),
        forall|i: int| 0 <= i < r@.len() ==> (#[trigger] r@[i]).key@ == keys@[i]@ && r@[i].rank == i + 1,
{
    let mut out: Vec<RankedEntry> = Vec::new();
    let mut i: usize = 0;
    while i < keys.len()
        invariant
            i <= keys@.len(),
            keys@.len() < usize::MAX,
            out@.len() == i,
            forall|k: int| 0 <= k < i ==> (#[trigger] out@[k]).key@ == keys@[k]@ && out@[k].rank == k + 1,
        decreases keys@.len() - i,
    {
        out.push(RankedEntry { key: crate::text::to_owned_string(keys[i].as_str()), rank: i + 1 });
        i += 1;
    }
    out
}

} // verus!

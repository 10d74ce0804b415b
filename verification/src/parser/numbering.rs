//! The numbering of functions, methods and call sites. The front ends that
//! number them give each a qualified name ending in `#n`, `n` taken from one
//! counter per file, so that overloads and calls at one position stay apart.
//! This module reads the number back off a name and states, over a front
//! end's output, that the numbers rise in emission order; distinct names
//! follow.

use vstd::prelude::*;
use crate::parser::naming::{decimal, digit_char};
use crate::parser::go::after_last;
use crate::parser::syntax::{Out, no_out, cat};

verus! {

/// The labels of the symbols that carry a number.
pub open spec fn numbered_label(l: Seq<char>) -> bool {
    l == "Function"@ || l == "Method"@ || l == "CallSite"@
}

/// The value of a decimal digit.
pub open spec fn digit_value(c: char) -> int {
    if c == '1' { 1 }
    else if c == '2' { 2 }
    else if c == '3' { 3 }
    else if c == '4' { 4 }
    else if c == '5' { 5 }
    else if c == '6' { 6 }
    else if c == '7' { 7 }
    else if c == '8' { 8 }
    else if c == '9' { 9 }
    else { 0 }
}

/// The value of a string of decimal digits.
pub open spec fn digits_value(s: Seq<char>) -> int
    decreases s.len(),
{
    if s.len() == 0 { 0 } else { digits_value(s.drop_last()) * 10 + digit_value(s.last()) }
}

/// The number a qualified name ends with: the digits after its last `#`.
pub open spec fn qn_number(qn: Seq<char>) -> int {
    digits_value(after_last(qn, '#'))
}

/// The numbered symbols of `out` carry numbers in `(lo, hi]`, rising in
/// emission order.
pub open spec fn numbered_in(out: Out, lo: int, hi: int) -> bool {
    &&& lo <= hi
    &&& forall|i: int| 0 <= i < out.nodes.len() && numbered_label(#[trigger] out.nodes[i].label)
            ==> lo < qn_number(out.nodes[i].qn) <= hi
    &&& forall|i: int, j: int| 0 <= i < j < out.nodes.len() && numbered_label(#[trigger] out.nodes[i].label)
            && numbered_label(#[trigger] out.nodes[j].label)
            ==> qn_number(out.nodes[i].qn) < qn_number(out.nodes[j].qn)
}

/// No symbol of `out` is numbered.
pub open spec fn plain(out: Out) -> bool {
    forall|i: int| 0 <= i < out.nodes.len() ==> !numbered_label(#[trigger] out.nodes[i].label)
}

/// No two numbered symbols of `out` share a qualified name.
pub open spec fn numbered_names_distinct(out: Out) -> bool {
    forall|i: int, j: int| 0 <= i < j < out.nodes.len() && numbered_label(#[trigger] out.nodes[i].label)
        && numbered_label(#[trigger] out.nodes[j].label)
        ==> out.nodes[i].qn != out.nodes[j].qn
}

proof fn lemma_decimal_digits(k: nat)
    ensures
        forall|i: int| 0 <= i < decimal(k).len() ==> #[trigger] decimal(k)[i] != '#',
        decimal(k).len() > 0,
        digits_value(decimal(k)) == k,
    decreases k,
{
    if k >= 10 {
        lemma_decimal_digits(k / 10);
        let d = decimal(k / 10);
        let s = d.push(digit_char((k % 10) as int));
        assert(s.drop_last() =~= d);
        assert forall|i: int| 0 <= i < s.len() implies #[trigger] s[i] != '#' by {
            if i < d.len() {
                assert(s[i] == d[i]);
            }
        }
        assert(decimal(k) == s);
        assert(s.last() == digit_char((k % 10) as int));
        assert(digit_value(digit_char((k % 10) as int)) == k % 10);
        assert(digits_value(s) == digits_value(d) * 10 + digit_value(s.last()));
        assert((k / 10) * 10 + k % 10 == k) by (nonlinear_arith);
        assert(digits_value(s) == (k / 10) * 10 + k % 10);
    } else {
        assert(digit_value(digit_char(k as int)) == k);
        assert(decimal(k).drop_last() =~= Seq::<char>::empty());
        assert(digits_value(decimal(k)) == digits_value(Seq::<char>::empty()) * 10 + digit_value(decimal(k).last()));
    }
}

proof fn lemma_after_last_suffix(a: Seq<char>, b: Seq<char>)
    requires
        a.len() > 0,
        a.last() == '#',
        forall|i: int| 0 <= i < b.len() ==> #[trigger] b[i] != '#',
    ensures
        after_last(a + b, '#') == b,
    decreases b.len(),
{
    if b.len() == 0 {
        assert(a + b =~= a);
    } else {
        let c = a + b;
        assert(c.drop_last() =~= a + b.drop_last());
        assert(c.last() == b.last());
        assert(b.last() == b[b.len() - 1]);
        lemma_after_last_suffix(a, b.drop_last());
        assert(b.drop_last().push(b.last()) =~= b);
    }
}

/// The number of `p#k` is `k`.
pub proof fn lemma_qn_number(p: Seq<char>, k: nat)
    ensures
        qn_number(p + "#"@ + decimal(k)) == k,
{
    reveal_strlit("#");
    lemma_decimal_digits(k);
    let a = p + "#"@;
    assert(a.last() == '#');
    lemma_after_last_suffix(a, decimal(k));
}

/// The labels of the other symbols are not numbered ones.
pub proof fn lemma_unnumbered_labels()
    ensures
        !numbered_label("Import"@),
        !numbered_label("Struct"@),
        !numbered_label("Trait"@),
        !numbered_label("TypeAlias"@),
        !numbered_label("Constant"@),
        !numbered_label("Enum"@),
{
    reveal_strlit("Function");
    reveal_strlit("Method");
    reveal_strlit("CallSite");
    reveal_strlit("Import");
    reveal_strlit("Struct");
    reveal_strlit("Trait");
    reveal_strlit("TypeAlias");
    reveal_strlit("Constant");
    reveal_strlit("Enum");
    assert("Import"@[0] != "Function"@[0] && "Import"@[0] != "Method"@[0] && "Import"@[0] != "CallSite"@[0]);
    assert("Struct"@[0] != "Function"@[0] && "Struct"@[0] != "Method"@[0] && "Struct"@[0] != "CallSite"@[0]);
    assert("Trait"@[0] != "Function"@[0] && "Trait"@[0] != "Method"@[0] && "Trait"@[0] != "CallSite"@[0]);
    assert("TypeAlias"@[0] != "Function"@[0] && "TypeAlias"@[0] != "Method"@[0] && "TypeAlias"@[0] != "CallSite"@[0]);
    assert("Constant"@[1] != "Function"@[1] && "Constant"@[0] != "Method"@[0] && "Constant"@[1] != "CallSite"@[1]);
    assert("Enum"@[0] != "Function"@[0] && "Enum"@[0] != "Method"@[0] && "Enum"@[0] != "CallSite"@[0]);
}

pub proof fn lemma_numbered_none(lo: int, hi: int)
    requires
        lo <= hi,
    ensures
        numbered_in(no_out(), lo, hi),
{
}

pub proof fn lemma_plain_numbered(out: Out, lo: int, hi: int)
    requires
        plain(out),
        lo <= hi,
    ensures
        numbered_in(out, lo, hi),
{
    assert forall|i: int| 0 <= i < out.nodes.len() && numbered_label(#[trigger] out.nodes[i].label)
        implies lo < qn_number(out.nodes[i].qn) <= hi by {
        assert(!numbered_label(out.nodes[i].label));
    }
}

pub proof fn lemma_plain_cat(a: Out, b: Out)
    requires
        plain(a),
        plain(b),
    ensures
        plain(cat(a, b)),
{
    assert forall|i: int| 0 <= i < cat(a, b).nodes.len() implies !numbered_label(#[trigger] cat(a, b).nodes[i].label) by {
        if i < a.nodes.len() {
            assert(cat(a, b).nodes[i] == a.nodes[i]);
        } else {
            assert(cat(a, b).nodes[i] == b.nodes[i - a.nodes.len()]);
        }
    }
}

/// Concatenation keeps the numbers rising.
pub proof fn lemma_numbered_cat(a: Out, b: Out, lo: int, mid: int, hi: int)
    requires
        numbered_in(a, lo, mid),
        numbered_in(b, mid, hi),
    ensures
        numbered_in(cat(a, b), lo, hi),
{
    let c = cat(a, b);
    let la = a.nodes.len() as int;
    assert forall|i: int| 0 <= i < c.nodes.len() && numbered_label(#[trigger] c.nodes[i].label)
        implies lo < qn_number(c.nodes[i].qn) <= hi by {
        if i < la {
            assert(c.nodes[i] == a.nodes[i]);
        } else {
            assert(c.nodes[i] == b.nodes[i - la]);
        }
    }
    assert forall|i: int, j: int| 0 <= i < j < c.nodes.len() && numbered_label(#[trigger] c.nodes[i].label)
        && numbered_label(#[trigger] c.nodes[j].label)
        implies qn_number(c.nodes[i].qn) < qn_number(c.nodes[j].qn) by {
        if j < la {
            assert(c.nodes[i] == a.nodes[i]);
            assert(c.nodes[j] == a.nodes[j]);
        } else if i >= la {
            assert(c.nodes[i] == b.nodes[i - la]);
            assert(c.nodes[j] == b.nodes[j - la]);
        } else {
            assert(c.nodes[i] == a.nodes[i]);
            assert(c.nodes[j] == b.nodes[j - la]);
        }
    }
}

/// Rising numbers give distinct names.
pub proof fn lemma_numbered_distinct(out: Out, lo: int, hi: int)
    requires
        numbered_in(out, lo, hi),
    ensures
        numbered_names_distinct(out),
{
}

} // verus!

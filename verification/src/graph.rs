//! The code graph as plain values: labelled symbol nodes and typed,
//! directed relationship edges between node ids.

use vstd::prelude::*;
use crate::text::str_eq;

verus! {

/// One node of the code graph. `qualified_name` holds a File's path.
pub struct GraphNode {
    pub label: String,
    pub id: String,
    pub name: String,
    pub qualified_name: String,
    pub start_line: Option<u64>,
    pub end_line: Option<u64>,
    pub visibility: String,
    /// Label-specific columns (`path`, `is_glob`, `callee_name`,
    /// `type_annotation`, `receiver_type`, `member_count`, `entry_kind`).
    pub props: Vec<(String, String)>,
}

/// One directed edge. `rel` names the relationship table, which by
/// convention is `{Kind}_{FromLabel}_{ToLabel}`.
pub struct GraphEdge {
    pub rel: String,
    pub from_id: String,
    pub to_id: String,
}

/// A whole code graph.
pub struct CodeGraph {
    pub nodes: Vec<GraphNode>,
    pub edges: Vec<GraphEdge>,
}

/// The value of the first property of `props` named `key`.
pub open spec fn spec_prop(props: Seq<(String, String)>, key: Seq<char>) -> Option<Seq<char>>
    decreases props.len(),
{
    if props.len() == 0 {
        None
    } else if props[0].0@ == key {
        Some(props[0].1@)
    } else {
        spec_prop(props.drop_first(), key)
    }
}

/// The value of property `key`, or the empty string when absent.
pub open spec fn spec_prop_or_empty(props: Seq<(String, String)>, key: Seq<char>) -> Seq<char> {
    match spec_prop(props, key) {
        Some(v) => v,
        None => Seq::empty(),
    }
}

/// Reads property `key` of a node.
pub fn prop_of(props: &Vec<(String, String)>, key: &str) -> (r: Option<String>)
    ensures
        match r {
            Some(v) => spec_prop(props@, key@) == Some(v@),
            None => spec_prop(props@, key@) is None,
        },
{
    let mut i: usize = 0;
    assert(props@.skip(0) =~= props@);
    while i < props.len()
        invariant
            i <= props@.len(),
            spec_prop(props@, key@) == spec_prop(props@.skip(i as int), key@),
        decreases props@.len() - i,
    {
        assert(props@.skip(i as int).drop_first() =~= props@.skip(i + 1));
        if str_eq(props[i].0.as_str(), key) {
            return Some(props[i].1.clone());
        }
        i += 1;
    }
    None
}

/// Reads property `key` of a node, empty when absent.
pub fn prop_or_empty(props: &Vec<(String, String)>, key: &str) -> (r: String)
    ensures
        r@ == spec_prop_or_empty(props@, key@),
{
    match prop_of(props, key) {
        Some(v) => v,
        None => String::new(),
    }
}

} // verus!

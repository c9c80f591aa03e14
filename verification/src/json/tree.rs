//! The mathematical model of the value tree.
use super::number::Number;
use super::value::Value;
use vstd::prelude::*;

verus! {

/// What a [`Value`] is: a finite tree whose leaves are nulls, booleans,
/// numbers and strings, and whose inner nodes are sequences and keyed maps
/// in insertion order.
pub enum Tree {
    Null,
    Bool(bool),
    Number(Number),
    Text(Seq<char>),
    Array(Seq<Tree>),
    Object(Seq<(Seq<char>, Tree)>),
}

/// The place holds a value whose tree is `tree`.
pub open spec fn holds(place: Option<Value>, tree: Tree) -> bool {
    place matches Some(value) && value@ == tree
}

/// The trees of a sequence of values, in order.
pub open spec fn trees(values: Seq<Value>) -> Seq<Tree> {
    Seq::new(values.len(), |i: int| values[i]@)
}

/// The keys and trees of a sequence of entries, in order.
pub open spec fn entries(pairs: Seq<(String, Value)>) -> Seq<(Seq<char>, Tree)> {
    Seq::new(pairs.len(), |i: int| (pairs[i].0@, pairs[i].1@))
}

/// The keys and trees of a sequence of keyed values, in order.
pub open spec fn keyed(pairs: Seq<(Seq<char>, Value)>) -> Seq<(Seq<char>, Tree)> {
    Seq::new(pairs.len(), |i: int| (pairs[i].0, pairs[i].1@))
}

/// No key occurs twice.
pub open spec fn distinct_keys(entries: Seq<(Seq<char>, Tree)>) -> bool {
    forall|i: int, j: int|
        0 <= i < j < entries.len() ==> (#[trigger] entries[i]).0 != (#[trigger] entries[j]).0
}

/// The number of nodes of a tree: one for the tree itself and those of its
/// children.
pub open spec fn nodes(tree: Tree) -> nat
    decreases tree, 1nat,
{
    match tree {
        Tree::Array(items) => 1 + forest(items),
        Tree::Object(entries) => 1 + grove(entries),
        _ => 1,
    }
}

/// The number of nodes of the trees of a sequence.
pub open spec fn forest(items: Seq<Tree>) -> nat
    decreases items, 0nat, items.len(),
{
    if items.len() == 0 {
        0
    } else {
        forest(items.drop_last()) + nodes(items.last())
    }
}

/// The number of nodes of the trees of a sequence of entries.
pub open spec fn grove(entries: Seq<(Seq<char>, Tree)>) -> nat
    decreases entries, 0nat, entries.len(),
{
    if entries.len() == 0 {
        0
    } else {
        grove(entries.drop_last()) + nodes(entries.last().1)
    }
}

} // verus!

//! Teardown of a value tree without recursion.
//!
//! A tree may be nested to any depth, so releasing it must not take one
//! call for each level. Nodes are released from a work list instead: a leaf
//! at once, a composite after its children have joined the list.
//!
//! Releasing an [`Array`] or an [`Object`] keeps the list in the composites
//! themselves: a composite joins the list by taking the list so far in the
//! place of its first child. That needs no memory and cannot fail, which is
//! what releasing a value asks for; a list in a vector of its own would
//! have to grow, and growing can fail. Every child is moved out of its
//! parent, and the parent is left empty. [`safely`] keeps a list of its own
//! and counts the nodes it releases.
use super::array::Array;
use super::object::Object;
use super::tree::{entries, forest, grove, nodes, trees, Tree};
use super::value::Value;
use vstd::prelude::*;

verus! {

/// Appending a tree adds its nodes.
proof fn lemma_forest_push(items: Seq<Tree>, tree: Tree)
    ensures
        forest(items.push(tree)) == forest(items) + nodes(tree),
{
    assert(items.push(tree).drop_last() =~= items);
}

/// The nodes of two sequences of trees add up.
proof fn lemma_forest_add(left: Seq<Tree>, right: Seq<Tree>)
    ensures
        forest(left + right) == forest(left) + forest(right),
    decreases right.len(),
{
    if right.len() == 0 {
        assert(left + right =~= left);
    } else {
        lemma_forest_add(left, right.drop_last());
        assert((left + right).drop_last() =~= left + right.drop_last());
    }
}

/// Releases `value` and everything below it, one node at a time from a work
/// list, and returns how many nodes that were (at most `usize::MAX`).
///
/// A composite that leaves the work list hands its direct children over to
/// it and is released as an empty shell, so the depth of the tree never
/// becomes a depth of calls.
pub fn safely(value: Value) -> (released: usize)
    ensures
        released == if nodes(value@) <= usize::MAX {
            nodes(value@)
        } else {
            usize::MAX as nat
        },
{
    let ghost total = nodes(value@);
    let ghost mut done: nat = 0;
    let mut released: usize = 0;
    let mut work: Vec<Value> = Vec::new();
    work.push(value);
    proof {
        assert(trees(work@) =~= Seq::<Tree>::empty().push(value@));
        lemma_forest_push(Seq::<Tree>::empty(), value@);
    }
    loop
        invariant
            done + forest(trees(work@)) == total,
            released == if done <= usize::MAX {
                done
            } else {
                usize::MAX as nat
            },
        ensures
            done == total,
        decreases forest(trees(work@)),
    {
        let ghost before = work@;
        let next = work.pop();
        match next {
            None => {
                break ;
            },
            Some(value) => {
                proof {
                    assert(trees(before).drop_last() =~= trees(work@));
                    assert(trees(before).last() == value@);
                    assert(forest(trees(before)) == forest(trees(work@)) + nodes(value@));
                    done = done + 1;
                }
                if released < usize::MAX {
                    released = released + 1;
                }
                match value {
                    Value::Array(array) => {
                        let mut children = array.into_vec();
                        proof {
                            assert(nodes(value@) == 1 + forest(trees(children@)));
                            lemma_forest_add(trees(work@), trees(children@));
                            assert(trees(work@ + children@) =~= trees(work@) + trees(children@));
                        }
                        work.append(&mut children);
                    },
                    Value::Object(object) => {
                        let mut pairs = object.into_vec();
                        assert(nodes(value@) == 1 + grove(entries(pairs@)));
                        loop
                            invariant
                                done + forest(trees(work@)) + grove(entries(pairs@)) == total,
                            ensures
                                done + forest(trees(work@)) == total,
                            decreases pairs@.len(),
                        {
                            let ghost rest = pairs@;
                            let ghost stack = work@;
                            match pairs.pop() {
                                None => {
                                    break ;
                                },
                                Some(pair) => {
                                    proof {
                                        assert(entries(rest).drop_last() =~= entries(pairs@));
                                        assert(entries(rest).last().1 == pair.1@);
                                        assert(grove(entries(rest)) == grove(entries(pairs@))
                                            + nodes(pair.1@));
                                        lemma_forest_push(trees(stack), pair.1@);
                                        assert(trees(stack.push(pair.1)) =~= trees(stack).push(
                                            pair.1@,
                                        ));
                                    }
                                    work.push(pair.1);
                                },
                            }
                        }
                    },
                    _ => {
                        assert(nodes(value@) == 1);
                    },
                }
            },
        }
    }
    released
}

/// Calls `<[T]>::get_mut` on the elements of a vector. Claimed of it: it
/// returns a reference to the element at `index`, through which that
/// element and nothing else is changed, or `None` where the vector is not
/// that long; and it neither unwinds nor opens an invariant.
///
/// Releasing an array or an object reaches its elements through this call
/// alone, since releasing may call only what is known to do neither.
#[verifier::external_body]
pub(crate) fn slot_mut<T>(items: &mut Vec<T>, index: usize) -> (slot: Option<&mut T>)
    ensures
        match slot {
            Some(item) => {
                &&& index < old(items)@.len()
                &&& *item == old(items)@[index as int]
                &&& final(items)@ == old(items)@.update(index as int, *final(item))
            },
            None => index >= old(items)@.len() && final(items)@ == old(items)@,
        },
    opens_invariants none
    no_unwind
{
    items.get_mut(index)
}

/// Calls `core::mem::take` on a vector. Claimed of it: it returns the
/// vector as it was and leaves an empty one in its place; and it neither
/// unwinds nor opens an invariant.
///
/// Releasing an array or an object empties it through this call, since
/// releasing may call only what is known to do neither.
#[verifier::external_body]
pub(crate) fn take_all<T>(items: &mut Vec<T>) -> (taken: Vec<T>)
    ensures
        taken@ == old(items)@,
        final(items)@ == Seq::<T>::empty(),
    opens_invariants none
    no_unwind
{
    core::mem::take(items)
}

/// The nodes of the trees from `from` on, up to the one at `upto`.
spec fn span(items: Seq<Tree>, from: int, upto: int) -> nat {
    forest(items.subrange(from, upto))
}

/// The same for the trees of entries.
spec fn reach(entries: Seq<(Seq<char>, Tree)>, from: int, upto: int) -> nat {
    grove(entries.subrange(from, upto))
}

/// A span grows by the nodes of the tree that joins it.
proof fn lemma_span_step(items: Seq<Tree>, from: int, upto: int)
    requires
        0 <= from <= upto < items.len(),
    ensures
        span(items, from, upto + 1) == span(items, from, upto) + nodes(items[upto]),
        span(items, from, from) == 0,
{
    assert(items.subrange(from, upto + 1).drop_last() =~= items.subrange(from, upto));
    assert(items.subrange(from, from) =~= Seq::<Tree>::empty());
}

/// The same for the trees of entries.
proof fn lemma_reach_step(entries: Seq<(Seq<char>, Tree)>, from: int, upto: int)
    requires
        0 <= from <= upto < entries.len(),
    ensures
        reach(entries, from, upto + 1) == reach(entries, from, upto) + nodes(entries[upto].1),
        reach(entries, from, from) == 0,
{
    assert(entries.subrange(from, upto + 1).drop_last() =~= entries.subrange(from, upto));
    assert(entries.subrange(from, from) =~= Seq::<(Seq<char>, Tree)>::empty());
}

/// The nodes of a sequence are those of its first tree and of the span
/// after it.
proof fn lemma_forest_first(items: Seq<Tree>)
    requires
        items.len() > 0,
    ensures
        forest(items) == nodes(items[0]) + span(items, 1, items.len() as int),
    decreases items.len(),
{
    let n = items.len() as int;
    if n == 1 {
        assert(items.subrange(1, n) =~= Seq::<Tree>::empty());
        assert(items.drop_last() =~= Seq::<Tree>::empty());
    } else {
        lemma_forest_first(items.drop_last());
        assert(items.drop_last().subrange(1, n - 1) =~= items.subrange(1, n).drop_last());
    }
}

/// The same for the trees of entries.
proof fn lemma_grove_first(entries: Seq<(Seq<char>, Tree)>)
    requires
        entries.len() > 0,
    ensures
        grove(entries) == nodes(entries[0].1) + reach(entries, 1, entries.len() as int),
    decreases entries.len(),
{
    let n = entries.len() as int;
    if n == 1 {
        assert(entries.subrange(1, n) =~= Seq::<(Seq<char>, Tree)>::empty());
        assert(entries.drop_last() =~= Seq::<(Seq<char>, Tree)>::empty());
    } else {
        lemma_grove_first(entries.drop_last());
        assert(entries.drop_last().subrange(1, n - 1) =~= entries.subrange(1, n).drop_last());
    }
}

/// Whether the tree is a composite with at least one child.
spec fn branching(tree: Tree) -> bool {
    match tree {
        Tree::Array(items) => items.len() > 0,
        Tree::Object(entries) => entries.len() > 0,
        _ => false,
    }
}

/// The first child of a composite with children.
spec fn first(tree: Tree) -> Tree {
    match tree {
        Tree::Array(items) => items[0],
        Tree::Object(entries) => entries[0].1,
        _ => tree,
    }
}

/// The composite with `link` in the place of its first child.
spec fn linked(tree: Tree, link: Tree) -> Tree {
    match tree {
        Tree::Array(items) => Tree::Array(items.update(0, link)),
        Tree::Object(entries) => Tree::Object(entries.update(0, (entries[0].0, link))),
        _ => tree,
    }
}

/// The work list after `hand` was settled: where `hand` is a composite with
/// children, it heads the list with the list so far in the place of its
/// first child, and that child is settled next; where it is not, the list
/// is as it was.
spec fn settled(hand: Tree, todo: Tree) -> Tree
    decreases hand,
{
    match hand {
        Tree::Array(items) => if items.len() > 0 {
            settled(items[0], Tree::Array(items.update(0, todo)))
        } else {
            todo
        },
        Tree::Object(entries) => if entries.len() > 0 {
            settled(entries[0].1, Tree::Object(entries.update(0, (entries[0].0, todo))))
        } else {
            todo
        },
        _ => todo,
    }
}

/// The work list after the trees of `items` were settled one after another,
/// from the first to the last.
spec fn swept(items: Seq<Tree>, todo: Tree) -> Tree
    decreases items.len(),
{
    if items.len() == 0 {
        todo
    } else {
        settled(items.last(), swept(items.drop_last(), todo))
    }
}

/// The trees of the entries, without their keys.
spec fn values(entries: Seq<(Seq<char>, Tree)>) -> Seq<Tree> {
    Seq::new(entries.len(), |i: int| entries[i].1)
}

/// The elements with nulls in the places from `from` on.
spec fn cleared(items: Seq<Tree>, from: int) -> Seq<Tree> {
    Seq::new(
        items.len(),
        |i: int|
            if i < from {
                items[i]
            } else {
                Tree::Null
            },
    )
}

/// The entries with nulls under the keys from the one at `from` on.
spec fn emptied(entries: Seq<(Seq<char>, Tree)>, from: int) -> Seq<(Seq<char>, Tree)> {
    Seq::new(
        entries.len(),
        |i: int|
            if i < from {
                entries[i]
            } else {
                (entries[i].0, Tree::Null)
            },
    )
}

/// Sweeping one tree more settles it after the others.
proof fn lemma_swept_step(items: Seq<Tree>, from: int, upto: int, todo: Tree)
    requires
        0 <= from <= upto < items.len(),
    ensures
        swept(items.subrange(from, upto + 1), todo) == settled(
            items[upto],
            swept(items.subrange(from, upto), todo),
        ),
{
    assert(items.subrange(from, upto + 1).drop_last() =~= items.subrange(from, upto));
}

/// The nodes below the first child of a composite with children.
spec fn beside(tree: Tree) -> nat {
    match tree {
        Tree::Array(items) => span(items, 1, items.len() as int),
        Tree::Object(entries) => reach(entries, 1, entries.len() as int),
        _ => 0,
    }
}

/// Puts `value` in the place of the first child of `composite`, and that
/// child in `value`; where `composite` has no child, nothing is changed.
fn exchange_first(composite: &mut Value, value: &mut Value) -> (done: bool)
    ensures
        done == branching(old(composite)@),
        done ==> final(composite)@ == linked(old(composite)@, old(value)@),
        done ==> final(value)@ == first(old(composite)@),
        done ==> branching(final(composite)@),
        done ==> nodes(old(composite)@) == 1 + nodes(final(value)@) + beside(old(composite)@),
        done ==> nodes(final(composite)@) == 1 + nodes(old(value)@) + beside(old(composite)@),
        done ==> beside(final(composite)@) == beside(old(composite)@),
        !done ==> final(composite)@ == old(composite)@ && *final(value) == *old(value),
    opens_invariants none
    no_unwind
{
    match composite {
        Value::Array(array) => {
            let ghost before = array@;
            let done = array.exchange(0, value);
            proof {
                if done {
                    lemma_forest_first(before);
                    lemma_forest_first(array@);
                    assert(array@.subrange(1, array@.len() as int) =~= before.subrange(
                        1,
                        before.len() as int,
                    ));
                }
            }
            done
        },
        Value::Object(object) => {
            let ghost before = object@;
            let done = object.exchange(0, value);
            proof {
                if done {
                    lemma_grove_first(before);
                    lemma_grove_first(object@);
                    assert(object@.subrange(1, object@.len() as int) =~= before.subrange(
                        1,
                        before.len() as int,
                    ));
                }
            }
            done
        },
        _ => false,
    }
}

/// Settles one value that left its parent: a leaf or an empty composite is
/// released at once; a composite with children joins the work list `todo`
/// by taking the list so far in the place of its first child, and that
/// child is settled next.
///
/// The work list is the chain of composites that starts at `todo` and goes
/// on in the first child of each; it ends in a value that is no composite
/// with children.
fn settle(value: Value, todo: &mut Value)
    ensures
        final(todo)@ == settled(value@, old(todo)@),
        nodes(final(todo)@) < nodes(old(todo)@) + nodes(value@),
    opens_invariants none
    no_unwind
{
    let mut hand = value;
    loop
        invariant
            settled(hand@, todo@) == settled(value@, old(todo)@),
            nodes(todo@) + nodes(hand@) == nodes(old(todo)@) + nodes(value@),
        ensures
            todo@ == settled(value@, old(todo)@),
            nodes(todo@) + nodes(hand@) == nodes(old(todo)@) + nodes(value@),
        decreases nodes(hand@),
    {
        if !exchange_first(&mut hand, todo) {
            break ;
        }
        core::mem::swap(&mut hand, todo);
    }
}

/// Settles the elements of `array` from the one at `from` on, and leaves
/// nulls in their places.
fn scan_array(array: &mut Array, from: usize, todo: &mut Value)
    requires
        from <= old(array)@.len(),
    ensures
        final(array)@ == cleared(old(array)@, from as int),
        final(todo)@ == swept(
            old(array)@.subrange(from as int, old(array)@.len() as int),
            old(todo)@,
        ),
        nodes(final(todo)@) <= nodes(old(todo)@) + span(
            old(array)@,
            from as int,
            old(array)@.len() as int,
        ),
    opens_invariants none
    no_unwind
{
    let mut next = from;
    proof {
        if from < array@.len() {
            lemma_span_step(array@, from as int, from as int);
        } else {
            assert(array@.subrange(from as int, from as int) =~= Seq::<Tree>::empty());
        }
    }
    loop
        invariant
            from <= next <= array@.len(),
            array@.len() == old(array)@.len(),
            forall|i: int| next <= i < array@.len() ==> array@[i] == old(array)@[i],
            forall|i: int| 0 <= i < from ==> array@[i] == old(array)@[i],
            forall|i: int| from <= i < next ==> array@[i] == Tree::Null,
            todo@ == swept(old(array)@.subrange(from as int, next as int), old(todo)@),
            nodes(todo@) <= nodes(old(todo)@) + span(old(array)@, from as int, next as int),
        ensures
            next == array@.len(),
            array@.len() == old(array)@.len(),
            forall|i: int| 0 <= i < from ==> array@[i] == old(array)@[i],
            forall|i: int| from <= i < next ==> array@[i] == Tree::Null,
            todo@ == swept(old(array)@.subrange(from as int, next as int), old(todo)@),
            nodes(todo@) <= nodes(old(todo)@) + span(old(array)@, from as int, next as int),
        decreases array@.len() - next,
    {
        let mut hand = Value::Null;
        if !array.exchange(next, &mut hand) {
            break ;
        }
        proof {
            lemma_span_step(old(array)@, from as int, next as int);
            lemma_swept_step(old(array)@, from as int, next as int, old(todo)@);
        }
        settle(hand, todo);
        next = next + 1;
    }
    assert(array@ =~= cleared(old(array)@, from as int));
}

/// Settles the values of `object` from the one at `from` on, and leaves
/// nulls in their places.
fn scan_object(object: &mut Object, from: usize, todo: &mut Value)
    requires
        from <= old(object)@.len(),
    ensures
        final(object)@ == emptied(old(object)@, from as int),
        final(todo)@ == swept(
            values(old(object)@).subrange(from as int, old(object)@.len() as int),
            old(todo)@,
        ),
        nodes(final(todo)@) <= nodes(old(todo)@) + reach(
            old(object)@,
            from as int,
            old(object)@.len() as int,
        ),
    opens_invariants none
    no_unwind
{
    let mut next = from;
    proof {
        if from < object@.len() {
            lemma_reach_step(object@, from as int, from as int);
        } else {
            assert(object@.subrange(from as int, from as int) =~= Seq::<
                (Seq<char>, Tree),
            >::empty());
        }
    }
    loop
        invariant
            from <= next <= object@.len(),
            object@.len() == old(object)@.len(),
            forall|i: int| next <= i < object@.len() ==> object@[i] == old(object)@[i],
            forall|i: int| 0 <= i < from ==> object@[i] == old(object)@[i],
            forall|i: int|
                from <= i < next ==> object@[i] == (old(object)@[i].0, Tree::Null),
            todo@ == swept(
                values(old(object)@).subrange(from as int, next as int),
                old(todo)@,
            ),
            nodes(todo@) <= nodes(old(todo)@) + reach(old(object)@, from as int, next as int),
        ensures
            next == object@.len(),
            object@.len() == old(object)@.len(),
            forall|i: int| 0 <= i < from ==> object@[i] == old(object)@[i],
            forall|i: int|
                from <= i < next ==> object@[i] == (old(object)@[i].0, Tree::Null),
            todo@ == swept(
                values(old(object)@).subrange(from as int, next as int),
                old(todo)@,
            ),
            nodes(todo@) <= nodes(old(todo)@) + reach(old(object)@, from as int, next as int),
        decreases object@.len() - next,
    {
        let mut hand = Value::Null;
        if !object.exchange(next, &mut hand) {
            break ;
        }
        proof {
            lemma_reach_step(old(object)@, from as int, next as int);
            lemma_swept_step(values(old(object)@), from as int, next as int, old(todo)@);
        }
        settle(hand, todo);
        next = next + 1;
    }
    assert(object@ =~= emptied(old(object)@, from as int));
}

/// Works the list `todo` off: the composite at its head leaves the list,
/// which goes on in its first child; its other children are settled, and
/// what is left of it is a shell of nulls.
fn work_off(todo: Value)
    opens_invariants none
    no_unwind
{
    let mut todo = todo;
    loop
        decreases nodes(todo@),
    {
        let mut shell = Value::Null;
        core::mem::swap(&mut shell, &mut todo);
        let ghost whole = shell@;
        if !exchange_first(&mut shell, &mut todo) {
            break ;
        }
        match &mut shell {
            Value::Array(array) => {
                assert(beside(whole) == span(array@, 1, array@.len() as int));
                scan_array(array, 1, &mut todo);
            },
            Value::Object(object) => {
                assert(beside(whole) == reach(object@, 1, object@.len() as int));
                scan_object(object, 1, &mut todo);
            },
            _ => {},
        }
    }
}

/// Releases everything below `array` and leaves it empty: its elements
/// are settled one after another, the work list is worked off, and the
/// nulls that stand in the places of the elements are taken out.
pub(crate) fn dismantle_array(array: &mut Array)
    ensures
        final(array)@ == Seq::<Tree>::empty(),
    opens_invariants none
    no_unwind
{
    let mut todo = Value::Null;
    scan_array(array, 0, &mut todo);
    work_off(todo);
    array.take_values();
}

/// Releases everything below `object` and leaves it empty: its values are
/// settled one after another, the work list is worked off, and the keys,
/// with the nulls that stand in the places of their values, are taken out.
pub(crate) fn dismantle_object(object: &mut Object)
    ensures
        final(object)@ == Seq::<(Seq<char>, Tree)>::empty(),
    opens_invariants none
    no_unwind
{
    let mut todo = Value::Null;
    scan_object(object, 0, &mut todo);
    work_off(todo);
    object.take_entries();
}

} // verus!

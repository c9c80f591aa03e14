//! The serialization protocol: a source describes its shape as one fragment,
//! and the consumer walks the fragments of its children.
//!
//! The traits say what they ask of every implementation over a few
//! functions marked `spec`, such as [`SeqIter::pending`]. An implementation
//! that is verified says what they are; any other leaves them as they are.
use crate::json::number::Float;
use std::borrow::Cow;
use vstd::prelude::*;

verus! {

/// What a source says of itself: a leaf with its content, or a composite
/// with an iterator over its children.
pub enum Fragment<'a, S, M> {
    Null,
    Bool(bool),
    Str(Cow<'a, str>),
    U64(u64),
    I64(i64),
    F64(Float),
    /// A sequence; `S` yields its elements in index order.
    Sequence(S),
    /// A keyed map; `M` yields its entries in insertion order.
    Mapping(M),
}

/// The kind of a fragment and, for a leaf, what it carries.
pub enum Shape {
    Null,
    Bool(bool),
    Str(Seq<char>),
    U64(u64),
    I64(i64),
    F64(Float),
    Sequence,
    Mapping,
}

impl<'a, S, M> Fragment<'a, S, M> {
    pub open spec fn shape(&self) -> Shape {
        match self {
            Fragment::Null => Shape::Null,
            Fragment::Bool(b) => Shape::Bool(*b),
            Fragment::Str(text) => Shape::Str(text@),
            Fragment::U64(n) => Shape::U64(*n),
            Fragment::I64(n) => Shape::I64(*n),
            Fragment::F64(n) => Shape::F64(*n),
            Fragment::Sequence(_) => Shape::Sequence,
            Fragment::Mapping(_) => Shape::Mapping,
        }
    }
}

/// A source that can describe itself.
pub trait Serialize {
    /// The iterator over the elements, where the source is a sequence.
    type Elements<'a>: SeqIter where Self: 'a;

    /// The iterator over the entries, where the source is a keyed map.
    type Entries<'a>: MapIter where Self: 'a;

    /// The shape of the fragment that `begin` returns: a function of the
    /// source alone.
    open spec fn shape(&self) -> Shape {
        arbitrary()
    }

    /// Describes the source. Nothing is changed, and no child is looked at
    /// before the consumer asks the iterator for it.
    fn begin(&self) -> (fragment: Fragment<'_, Self::Elements<'_>, Self::Entries<'_>>)
        ensures
            fragment.shape() == self.shape(),
    ;
}

/// The elements of a sequence, handed out one at a time.
pub trait SeqIter: Sized {
    /// The type of an element. Every implementation makes it a
    /// [`Serialize`]; no bound says so, since the traits of the protocol
    /// would then refer to each other in a circle.
    type Item;

    /// The elements that have not been handed out, in order.
    open spec fn pending(&self) -> Seq<Self::Item> {
        arbitrary()
    }

    /// Hands out the first pending element and leaves the others pending;
    /// `None` when none is pending.
    fn next(&mut self) -> (item: Option<&Self::Item>)
        ensures
            match item {
                Some(element) => {
                    &&& old(self).pending().len() > 0
                    &&& *element == old(self).pending()[0]
                    &&& final(self).pending() == old(self).pending().drop_first()
                },
                None => {
                    &&& old(self).pending().len() == 0
                    &&& final(self).pending() == old(self).pending()
                },
            },
    ;
}

/// The entries of a keyed map, handed out one at a time.
pub trait MapIter: Sized {
    /// The type of a value. Every implementation makes it a
    /// [`Serialize`]; no bound says so, since the traits of the protocol
    /// would then refer to each other in a circle.
    type Item;

    /// The entries that have not been handed out, in order.
    open spec fn pending(&self) -> Seq<(Seq<char>, Self::Item)> {
        arbitrary()
    }

    /// Hands out the first pending entry and leaves the others pending;
    /// `None` when none is pending.
    fn next(&mut self) -> (entry: Option<(Cow<'_, str>, &Self::Item)>)
        ensures
            match entry {
                Some((key, value)) => {
                    &&& old(self).pending().len() > 0
                    &&& key@ == old(self).pending()[0].0
                    &&& *value == old(self).pending()[0].1
                    &&& final(self).pending() == old(self).pending().drop_first()
                },
                None => {
                    &&& old(self).pending().len() == 0
                    &&& final(self).pending() == old(self).pending()
                },
            },
    ;
}

/// The iterator of a source that has no children of that kind.
pub struct Empty;

impl SeqIter for Empty {
    type Item = ();

    open spec fn pending(&self) -> Seq<()> {
        Seq::empty()
    }

    fn next(&mut self) -> (item: Option<&()>) {
        None
    }
}

impl MapIter for Empty {
    type Item = ();

    open spec fn pending(&self) -> Seq<(Seq<char>, ())> {
        Seq::empty()
    }

    fn next(&mut self) -> (entry: Option<(Cow<'_, str>, &())>) {
        None
    }
}

} // verus!

//! The deserialization protocol: a destination hands out a visitor bound to
//! an empty place, and the driver feeds one value through it.
//!
//! A place is an `Option`: `None` while it is empty, `Some` once it holds a
//! complete value. A visitor fills its place when a value is driven through
//! it with success, and leaves the place as it was when a call fails.
//!
//! The traits say what they ask of every implementation over a few
//! functions marked `spec`, such as [`Visitor::filled`]. An implementation
//! that is verified says what they are; any other leaves them as they are.
use crate::error::Error;
use crate::json::number::Float;
use crate::ser::Shape;
use vstd::prelude::*;

verus! {

/// A type that can be filled in through a visitor.
pub trait Deserialize: Sized {
    /// The visitor of this type.
    type Visitor<'a>: Visitor where Self: 'a;

    /// The visitor bound to `out`.
    fn begin<'a>(out: &'a mut Option<Self>) -> (visitor: Self::Visitor<'a>)
        ensures
            visitor.filled() == (*old(out) is Some),
    ;

    /// The content of a place that nothing was written to.
    fn default() -> (place: Option<Self>)
        default_ensures
            place is None,
    {
        None
    }
}

/// The interface through which a driver feeds one value into a place.
///
/// Every method fails unless the destination takes input of that kind, so a
/// destination implements the methods of its own shape and leaves the others
/// as they are. A driver calls one method for one value; `seq` and `map`
/// use the visitor up and hand the place on to their handle.
pub trait Visitor: Sized {
    /// The handle for the elements of a sequence.
    type Elements: SeqHandle;

    /// The handle for the entries of a keyed map.
    type Entries: MapHandle;

    /// Whether the bound place holds a value.
    open spec fn filled(&self) -> bool {
        arbitrary()
    }

    /// Whether the destination takes input of this shape. A destination
    /// takes nothing but what its visitor says here, and a call with input
    /// that it does not take fails.
    open spec fn takes(&self, shape: Shape) -> bool {
        false
    }

    fn null(&mut self) -> (done: Result<(), Error>)
        ensures
            done is Ok ==> old(self).takes(Shape::Null),
            done is Ok ==> final(self).filled(),
            done is Err ==> *final(self) == *old(self),
        default_ensures
            done is Err,
    {
        Err(Error)
    }

    fn boolean(&mut self, b: bool) -> (done: Result<(), Error>)
        ensures
            done is Ok ==> old(self).takes(Shape::Bool(b)),
            done is Ok ==> final(self).filled(),
            done is Err ==> *final(self) == *old(self),
        default_ensures
            done is Err,
    {
        Err(Error)
    }

    fn string(&mut self, s: &str) -> (done: Result<(), Error>)
        ensures
            done is Ok ==> old(self).takes(Shape::Str(s@)),
            done is Ok ==> final(self).filled(),
            done is Err ==> *final(self) == *old(self),
        default_ensures
            done is Err,
    {
        Err(Error)
    }

    fn negative(&mut self, n: i64) -> (done: Result<(), Error>)
        ensures
            done is Ok ==> old(self).takes(Shape::I64(n)),
            done is Ok ==> final(self).filled(),
            done is Err ==> *final(self) == *old(self),
        default_ensures
            done is Err,
    {
        Err(Error)
    }

    fn nonnegative(&mut self, n: u64) -> (done: Result<(), Error>)
        ensures
            done is Ok ==> old(self).takes(Shape::U64(n)),
            done is Ok ==> final(self).filled(),
            done is Err ==> *final(self) == *old(self),
        default_ensures
            done is Err,
    {
        Err(Error)
    }

    fn float(&mut self, n: Float) -> (done: Result<(), Error>)
        ensures
            done is Ok ==> old(self).takes(Shape::F64(n)),
            done is Ok ==> final(self).filled(),
            done is Err ==> *final(self) == *old(self),
        default_ensures
            done is Err,
    {
        Err(Error)
    }

    /// A handle for the elements, where the destination takes a sequence.
    /// The place is as it was, and is the handle's from now on.
    fn seq(self) -> (handle: Result<Self::Elements, Error>)
        ensures
            handle is Ok ==> self.takes(Shape::Sequence),
            handle matches Ok(elements) ==> elements.filled() == self.filled(),
        default_ensures
            handle is Err,
    {
        Err(Error)
    }

    /// A handle for the entries, where the destination takes a keyed map.
    /// The place is as it was, and is the handle's from now on.
    fn map(self) -> (handle: Result<Self::Entries, Error>)
        ensures
            handle is Ok ==> self.takes(Shape::Mapping),
            handle matches Ok(entries) ==> entries.filled() == self.filled(),
        default_ensures
            handle is Err,
    {
        Err(Error)
    }
}

/// The handle through which the elements of a sequence are fed.
pub trait SeqHandle: Sized {
    /// The type of an element. Every implementation makes it a
    /// [`Deserialize`]; no bound says so, since the traits of the protocol
    /// would then refer to each other in a circle.
    type Element;

    /// Whether the place of the sequence holds a value.
    open spec fn filled(&self) -> bool {
        arbitrary()
    }

    /// Whether the elements fed so far are as many as the destination asks
    /// for.
    open spec fn complete(&self) -> bool {
        arbitrary()
    }

    /// The elements supplied so far, in order: those whose places were
    /// filled.
    open spec fn supplied(&self) -> Seq<Self::Element> {
        arbitrary()
    }

    /// The elements of what the place of the sequence holds, in order.
    open spec fn committed(&self) -> Seq<Self::Element> {
        arbitrary()
    }

    /// A fresh place for the next element, which the driver fills through
    /// the visitor of the element's type before it asks for another. The
    /// place of the sequence is not written to.
    fn element(&mut self) -> (slot: Result<&mut Option<Self::Element>, Error>)
        ensures
            slot matches Ok(place) ==> *place is None,
            slot matches Ok(place) ==> final(self).supplied() == match *final(place) {
                Some(element) => old(self).supplied().push(element),
                None => old(self).supplied(),
            },
            slot is Err ==> *final(self) == *old(self),
            final(self).filled() == old(self).filled(),
    ;

    /// Commits the elements to the place of the sequence: on success the
    /// place holds the elements supplied, and nothing else.
    fn finish(&mut self) -> (done: Result<(), Error>)
        ensures
            done is Ok <==> old(self).complete(),
            done is Ok ==> final(self).filled(),
            done is Ok ==> final(self).committed() == old(self).supplied(),
            done is Err ==> final(self).filled() == old(self).filled(),
    ;
}

/// The handle through which the entries of a keyed map are fed.
pub trait MapHandle: Sized {
    /// The type of a value. Every implementation makes it a
    /// [`Deserialize`]; no bound says so, since the traits of the protocol
    /// would then refer to each other in a circle.
    type Value;

    /// Whether the place of the map holds a value.
    open spec fn filled(&self) -> bool {
        arbitrary()
    }

    /// Whether the destination has an entry for `key`.
    open spec fn recognizes(&self, key: Seq<char>) -> bool {
        arbitrary()
    }

    /// Whether every key that the destination asks for was fed.
    open spec fn complete(&self) -> bool {
        arbitrary()
    }

    /// The values supplied so far, under their keys: those whose places
    /// were filled, the last one where a key was fed more than once.
    open spec fn supplied(&self) -> Map<Seq<char>, Self::Value> {
        arbitrary()
    }

    /// The values of what the place of the map holds, under their keys.
    open spec fn committed(&self) -> Map<Seq<char>, Self::Value> {
        arbitrary()
    }

    /// A fresh place for the value of `key`, which the driver fills through
    /// the visitor of the value's type. A key that the destination does not
    /// recognize fails, and nothing is written for it. The place of the map
    /// is not written to.
    fn key(&mut self, k: &str) -> (slot: Result<&mut Option<Self::Value>, Error>)
        ensures
            slot is Ok <==> old(self).recognizes(k@),
            slot matches Ok(place) ==> *place is None,
            slot matches Ok(place) ==> final(self).supplied() == match *final(place) {
                Some(value) => old(self).supplied().insert(k@, value),
                None => old(self).supplied(),
            },
            slot is Err ==> *final(self) == *old(self),
            final(self).filled() == old(self).filled(),
    ;

    /// Commits the entries to the place of the map: on success the place
    /// holds the values supplied under their keys, and nothing else.
    fn finish(&mut self) -> (done: Result<(), Error>)
        ensures
            done is Ok <==> old(self).complete(),
            done is Ok ==> final(self).filled(),
            done is Ok ==> final(self).committed() == old(self).supplied(),
            done is Err ==> final(self).filled() == old(self).filled(),
    ;
}

/// The handle of a destination that takes no sequence, or no keyed map: it
/// is never handed out, and fails if it is made and used all the same.
pub struct Refused;

impl SeqHandle for Refused {
    type Element = ();

    open spec fn filled(&self) -> bool {
        false
    }

    open spec fn complete(&self) -> bool {
        false
    }

    fn element(&mut self) -> (slot: Result<&mut Option<()>, Error>)
        ensures
            slot is Err,
    {
        Err(Error)
    }

    fn finish(&mut self) -> (done: Result<(), Error>) {
        Err(Error)
    }
}

impl MapHandle for Refused {
    type Value = ();

    open spec fn filled(&self) -> bool {
        false
    }

    open spec fn recognizes(&self, key: Seq<char>) -> bool {
        false
    }

    open spec fn complete(&self) -> bool {
        false
    }

    fn key(&mut self, k: &str) -> (slot: Result<&mut Option<()>, Error>) {
        Err(Error)
    }

    fn finish(&mut self) -> (done: Result<(), Error>) {
        Err(Error)
    }
}

/// A visitor that is nothing but the place it is bound to.
pub struct Place<'a, T> {
    pub out: &'a mut Option<T>,
}

impl<'a, T> Place<'a, T> {
    /// The visitor bound to `out`: what is written through it is written to
    /// `out`.
    pub fn new(out: &'a mut Option<T>) -> (place: Place<'a, T>)
        ensures
            *place.out == *old(out),
            *final(place.out) == *final(out),
    {
        Place { out }
    }
}

} // verus!

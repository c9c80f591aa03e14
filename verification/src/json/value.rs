//! Any value of the tree.
use super::array::{Array, ArrayBuilder, ArrayIter};
use super::number::{Float, Number};
use super::object::{Object, ObjectBuilder, ObjectIter};
use super::tree::{distinct_keys, holds, keyed, trees, Tree};
use crate::de::{Place, Visitor};
use crate::error::Error;
use crate::ser::{Fragment, MapIter, SeqIter, Shape};
use std::borrow::Cow;
use vstd::prelude::*;

verus! {

/// Any value of the tree: a leaf, or a composite that owns its children.
pub enum Value {
    Null,
    Bool(bool),
    Number(Number),
    String(String),
    Array(Array),
    Object(Object),
}

impl View for Value {
    type V = Tree;

    open spec fn view(&self) -> Tree
        decreases self,
    {
        match self {
            Value::Null => Tree::Null,
            Value::Bool(b) => Tree::Bool(*b),
            Value::Number(n) => Tree::Number(*n),
            Value::String(s) => Tree::Text(s@),
            Value::Array(a) => Tree::Array(a@),
            Value::Object(o) => Tree::Object(o@),
        }
    }
}

/// Cloning copies the whole tree; the copy shares nothing with the value it
/// was made from.
impl Clone for Value {
    fn clone(&self) -> (copy: Value)
        ensures
            copy@ == self@,
        decreases self@,
    {
        match self {
            Value::Null => Value::Null,
            Value::Bool(b) => Value::Bool(*b),
            Value::Number(n) => Value::Number(*n),
            Value::String(s) => Value::String(s.clone()),
            Value::Array(array) => {
                assert(decreases_to!(self@ => self@->Array_0));
                Value::Array(array.clone())
            },
            Value::Object(object) => {
                assert(decreases_to!(self@ => self@->Object_0));
                Value::Object(object.clone())
            },
        }
    }
}

impl Default for Value {
    /// The default value is null.
    fn default() -> (value: Value)
        ensures
            value@ == Tree::Null,
    {
        Value::Null
    }
}

impl crate::ser::Serialize for Value {
    type Elements<'a> = ArrayIter<'a>;

    type Entries<'a> = ObjectIter<'a>;

    open spec fn shape(&self) -> Shape {
        match self {
            Value::Null => Shape::Null,
            Value::Bool(b) => Shape::Bool(*b),
            Value::Number(Number::U64(n)) => Shape::U64(*n),
            Value::Number(Number::I64(n)) => Shape::I64(*n),
            Value::Number(Number::F64(n)) => Shape::F64(*n),
            Value::String(s) => Shape::Str(s@),
            Value::Array(_) => Shape::Sequence,
            Value::Object(_) => Shape::Mapping,
        }
    }

    fn begin(&self) -> (fragment: Fragment<'_, ArrayIter<'_>, ObjectIter<'_>>)
        ensures
            match self {
                Value::Null => fragment is Null,
                Value::Bool(b) => fragment matches Fragment::Bool(said) && said == *b,
                Value::Number(Number::U64(n)) => fragment matches Fragment::U64(said) && said
                    == *n,
                Value::Number(Number::I64(n)) => fragment matches Fragment::I64(said) && said
                    == *n,
                Value::Number(Number::F64(n)) => fragment matches Fragment::F64(said) && said
                    == *n,
                Value::String(s) => {
                    &&& fragment matches Fragment::Str(text)
                    &&& text is Borrowed
                    &&& text@ == s@
                },
                Value::Array(array) => {
                    &&& fragment matches Fragment::Sequence(elements)
                    &&& trees(elements.pending()) == array@
                },
                Value::Object(object) => {
                    &&& fragment matches Fragment::Mapping(pairs)
                    &&& keyed(pairs.pending()) == object@
                    &&& distinct_keys(object@)
                },
            },
    {
        match self {
            Value::Null => Fragment::Null,
            Value::Bool(b) => Fragment::Bool(*b),
            Value::Number(Number::U64(n)) => Fragment::U64(*n),
            Value::Number(Number::I64(n)) => Fragment::I64(*n),
            Value::Number(Number::F64(n)) => Fragment::F64(*n),
            Value::String(s) => Fragment::Str(Cow::Borrowed(s.as_str())),
            Value::Array(array) => Fragment::Sequence(array.elements()),
            Value::Object(object) => Fragment::Mapping(object.entries()),
        }
    }
}

/// A value takes input of every kind: each call with success fills the
/// place with the value of that input.
impl<'a> Visitor for Place<'a, Value> {
    type Elements = ArrayBuilder<'a, Value>;

    type Entries = ObjectBuilder<'a, Value>;

    open spec fn filled(&self) -> bool {
        *self.out is Some
    }

    open spec fn takes(&self, shape: Shape) -> bool {
        true
    }

    fn null(&mut self) -> (done: Result<(), Error>)
        ensures
            done is Ok,
            holds(*final(self).out, Tree::Null),
            *final(final(self).out) == *final(old(self).out),
    {
        *self.out = Some(Value::Null);
        Ok(())
    }

    fn boolean(&mut self, b: bool) -> (done: Result<(), Error>)
        ensures
            done is Ok,
            holds(*final(self).out, Tree::Bool(b)),
            *final(final(self).out) == *final(old(self).out),
    {
        *self.out = Some(Value::Bool(b));
        Ok(())
    }

    fn string(&mut self, s: &str) -> (done: Result<(), Error>)
        ensures
            done is Ok,
            holds(*final(self).out, Tree::Text(s@)),
            *final(final(self).out) == *final(old(self).out),
    {
        *self.out = Some(Value::String(s.to_owned()));
        Ok(())
    }

    fn negative(&mut self, n: i64) -> (done: Result<(), Error>)
        ensures
            done is Ok,
            holds(*final(self).out, Tree::Number(Number::I64(n))),
            *final(final(self).out) == *final(old(self).out),
    {
        *self.out = Some(Value::Number(Number::I64(n)));
        Ok(())
    }

    fn nonnegative(&mut self, n: u64) -> (done: Result<(), Error>)
        ensures
            done is Ok,
            holds(*final(self).out, Tree::Number(Number::U64(n))),
            *final(final(self).out) == *final(old(self).out),
    {
        *self.out = Some(Value::Number(Number::U64(n)));
        Ok(())
    }

    fn float(&mut self, n: Float) -> (done: Result<(), Error>)
        ensures
            done is Ok,
            holds(*final(self).out, Tree::Number(Number::F64(n))),
            *final(final(self).out) == *final(old(self).out),
    {
        *self.out = Some(Value::Number(Number::F64(n)));
        Ok(())
    }

    fn seq(self) -> (handle: Result<ArrayBuilder<'a, Value>, Error>)
        ensures
            handle matches Ok(builder) && *builder.out == *old(self.out) && *final(builder.out)
                == *final(self.out) && builder.array@ == Seq::<Tree>::empty()
                && builder.element is None,
    {
        Ok(ArrayBuilder::new(self.out))
    }

    fn map(self) -> (handle: Result<ObjectBuilder<'a, Value>, Error>)
        ensures
            handle matches Ok(builder) && *builder.out == *old(self.out) && *final(builder.out)
                == *final(self.out) && builder.object@ == Seq::<(Seq<char>, Tree)>::empty()
                && builder.key is None && builder.value is None,
    {
        Ok(ObjectBuilder::new(self.out))
    }
}

impl crate::de::Deserialize for Value {
    type Visitor<'a> = Place<'a, Value>;

    fn begin<'a>(out: &'a mut Option<Value>) -> (visitor: Place<'a, Value>)
        ensures
            *visitor.out == *old(out),
            *final(visitor.out) == *final(out),
    {
        Place::new(out)
    }
}

} // verus!

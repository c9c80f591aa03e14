//! The sequence of the value tree.
use super::drop::{dismantle_array, slot_mut, take_all};
use super::tree::{holds, trees, Tree};
use super::value::Value;
use crate::de::{Place, Refused, SeqHandle, Visitor};
use crate::error::Error;
use crate::ser::{Empty, Fragment, SeqIter, Shape};
use vstd::prelude::*;
use vstd::std_specs::iter::IteratorSpec;

verus! {

/// A growable sequence of values.
pub struct Array {
    inner: Vec<Value>,
}

impl View for Array {
    type V = Seq<Tree>;

    closed spec fn view(&self) -> Seq<Tree>
        decreases self,
    {
        Seq::new(
            self.inner@.len(),
            |i: int|
                if 0 <= i < self.inner@.len() {
                    self.inner@[i]@
                } else {
                    Tree::Null
                },
        )
    }
}

impl core::ops::Deref for Array {
    type Target = Vec<Value>;

    /// The values of the array, borrowed.
    fn deref(&self) -> (values: &Vec<Value>)
        ensures
            trees(values@) == self@,
            values@ == self.items(),
    {
        assert(self@ =~= trees(self.inner@));
        &self.inner
    }
}

impl core::ops::DerefMut for Array {
    /// The values of the array, borrowed to be changed.
    fn deref_mut(&mut self) -> (values: &mut Vec<Value>)
        ensures
            trees(values@) == old(self)@,
            values@ == old(self).items(),
            trees(final(values)@) == final(self)@,
            final(values)@ == final(self).items(),
    {
        assert(self@ =~= trees(self.inner@));
        &mut self.inner
    }
}

/// Releasing an array releases everything below it without a call for each
/// level of nesting, and leaves the array empty.
impl Drop for Array {
    fn drop(&mut self)
        ensures
            final(self)@ == Seq::<Tree>::empty(),
        opens_invariants none
        no_unwind
    {
        dismantle_array(self);
    }
}

impl Default for Array {
    /// The default array has no elements.
    fn default() -> (array: Array)
        ensures
            array@ == Seq::<Tree>::empty(),
            array.items() == Seq::<Value>::empty(),
    {
        Array::new()
    }
}

impl IntoIterator for Array {
    type Item = Value;

    type IntoIter = std::vec::IntoIter<Value>;

    /// The values of the array, handed out in their order.
    fn into_iter(self) -> (values: std::vec::IntoIter<Value>)
        ensures
            trees(IteratorSpec::remaining(&values)) == self@,
            IteratorSpec::remaining(&values) == self.items(),
    {
        self.into_vec().into_iter()
    }
}

impl<'a> IntoIterator for &'a Array {
    type Item = &'a Value;

    type IntoIter = std::slice::Iter<'a, Value>;

    /// The values of the array, borrowed and handed out in their order.
    fn into_iter(self) -> (values: std::slice::Iter<'a, Value>)
        ensures
            trees(IteratorSpec::remaining(&values).unref()) == self@,
    {
        assert(self@ =~= trees(self.inner@));
        self.inner.as_slice().iter()
    }
}

impl Clone for Array {
    fn clone(&self) -> (copy: Array)
        ensures
            copy@ == self@,
        decreases self@,
    {
        let n = self.inner.len();
        let mut inner: Vec<Value> = Vec::new();
        let mut i: usize = 0;
        while i < n
            invariant
                n == self.inner@.len(),
                i <= n,
                inner@.len() == i,
                forall|k: int| 0 <= k < i ==> (#[trigger] inner@[k])@ == self.inner@[k]@,
            decreases n - i,
        {
            assert(self@[i as int] == self.inner@[i as int]@);
            assert(decreases_to!(self@ => self@[i as int]));
            let element = self.inner[i].clone();
            inner.push(element);
            i = i + 1;
        }
        let copy = Array { inner };
        assert(copy@ =~= self@);
        copy
    }

    fn clone_from(&mut self, other: &Array)
        ensures
            final(self)@ == other@,
    {
        *self = other.clone();
    }
}

impl Array {
    /// The values of the array, in their order.
    pub closed spec fn items(&self) -> Seq<Value> {
        self.inner@
    }

    /// The trees of the array are those of its values.
    pub proof fn lemma_items(self)
        ensures
            trees(self.items()) == self@,
    {
        assert(trees(self.items()) =~= self@);
    }

    /// An array without elements.
    pub fn new() -> (array: Array)
        ensures
            array@ == Seq::<Tree>::empty(),
            array.items() == Seq::<Value>::empty(),
    {
        let array = Array { inner: Vec::new() };
        assert(array@ =~= Seq::<Tree>::empty());
        array
    }

    /// The array of the given values, in their order.
    pub fn from_vec(values: Vec<Value>) -> (array: Array)
        ensures
            array@ == trees(values@),
            array.items() == values@,
    {
        let array = Array { inner: values };
        assert(array@ =~= trees(values@));
        array
    }

    /// The values of the array, in their order.
    pub fn into_vec(self) -> (values: Vec<Value>)
        ensures
            trees(values@) == self@,
            values@ == self.items(),
    {
        let mut array = self;
        array.take_values()
    }

    /// Takes all values out of the array, in their order, and leaves it
    /// empty.
    pub fn take_values(&mut self) -> (values: Vec<Value>)
        ensures
            trees(values@) == old(self)@,
            values@ == old(self).items(),
            final(self)@ == Seq::<Tree>::empty(),
            final(self).items() == Seq::<Value>::empty(),
        opens_invariants none
        no_unwind
    {
        assert(self@ =~= trees(self.inner@));
        let values = take_all(&mut self.inner);
        assert(self@ =~= Seq::<Tree>::empty());
        values
    }

    /// Puts `value` in the place of the element at `index`, and that element
    /// in `value`; where there is no such element, nothing is changed.
    pub fn exchange(&mut self, index: usize, value: &mut Value) -> (done: bool)
        ensures
            done == (index < old(self)@.len()),
            old(self)@.len() <= usize::MAX,
            done ==> final(self)@ == old(self)@.update(index as int, old(value)@),
            done ==> final(self).items() == old(self).items().update(index as int, *old(value)),
            done ==> final(value)@ == old(self)@[index as int],
            done ==> *final(value) == old(self).items()[index as int],
            !done ==> final(self)@ == old(self)@ && *final(value) == *old(value),
            !done ==> final(self).items() == old(self).items(),
        opens_invariants none
        no_unwind
    {
        assert(self@.len() == self.inner.len());
        match slot_mut(&mut self.inner, index) {
            Some(slot) => {
                core::mem::swap(slot, value);
                assert(self@ =~= old(self)@.update(index as int, old(value)@));
                true
            },
            None => {
                assert(self@ =~= old(self)@);
                false
            },
        }
    }

    /// The elements as the protocol hands them out: one at a time, none
    /// before it is asked for.
    pub fn elements(&self) -> (elements: ArrayIter<'_>)
        ensures
            trees(elements.pending()) == self@,
            elements.pending() == self.items(),
    {
        let elements = ArrayIter { items: &self.inner, next: 0 };
        assert(elements.pending() =~= self.inner@);
        assert(self@ =~= trees(self.inner@));
        elements
    }

    pub fn len(&self) -> (n: usize)
        ensures
            n == self@.len(),
    {
        self.inner.len()
    }

    pub fn is_empty(&self) -> (empty: bool)
        ensures
            empty == (self@.len() == 0),
    {
        self.inner.len() == 0
    }

    /// The element at `index`, if there is one.
    pub fn get(&self, index: usize) -> (element: Option<&Value>)
        ensures
            match element {
                Some(v) => {
                    &&& index < self@.len()
                    &&& v@ == self@[index as int]
                    &&& *v == self.items()[index as int]
                },
                None => index >= self@.len(),
            },
    {
        if index < self.inner.len() {
            Some(&self.inner[index])
        } else {
            None
        }
    }

    /// Appends `value`.
    pub fn push(&mut self, value: Value)
        ensures
            final(self)@ == old(self)@.push(value@),
            final(self).items() == old(self).items().push(value),
    {
        self.inner.push(value);
        assert(self@ =~= old(self)@.push(value@));
    }

    /// Removes the last element, if there is one.
    pub fn pop(&mut self) -> (value: Option<Value>)
        ensures
            match value {
                Some(v) => {
                    &&& old(self)@.len() > 0
                    &&& v@ == old(self)@.last()
                    &&& v == old(self).items().last()
                    &&& final(self)@ == old(self)@.drop_last()
                    &&& final(self).items() == old(self).items().drop_last()
                },
                None => {
                    &&& old(self)@.len() == 0
                    &&& final(self)@ == old(self)@
                    &&& final(self).items() == old(self).items()
                },
            },
    {
        let value = self.inner.pop();
        assert(old(self)@.len() > 0 ==> self@ =~= old(self)@.drop_last());
        assert(old(self)@.len() == 0 ==> self@ =~= old(self)@);
        value
    }
}

/// The elements of an array, from the first to the last.
pub struct ArrayIter<'a> {
    items: &'a Vec<Value>,
    next: usize,
}

impl<'a> SeqIter for ArrayIter<'a> {
    type Item = Value;

    closed spec fn pending(&self) -> Seq<Value> {
        if self.next <= self.items@.len() {
            self.items@.skip(self.next as int)
        } else {
            Seq::empty()
        }
    }

    fn next(&mut self) -> (item: Option<&Value>) {
        if self.next < self.items.len() {
            let element = &self.items[self.next];
            self.next = self.next + 1;
            assert(self.pending() =~= old(self).pending().drop_first());
            Some(element)
        } else {
            None
        }
    }
}

impl crate::ser::Serialize for Array {
    type Elements<'a> = ArrayIter<'a>;

    type Entries<'a> = Empty;

    open spec fn shape(&self) -> Shape {
        Shape::Sequence
    }

    fn begin(&self) -> (fragment: Fragment<'_, ArrayIter<'_>, Empty>)
        ensures
            fragment matches Fragment::Sequence(elements) && trees(elements.pending()) == self@,
    {
        Fragment::Sequence(self.elements())
    }
}

/// The elements that a builder has taken: those in its array, then the one
/// in its slot.
pub open spec fn gathered(array: Array, element: Option<Value>) -> Seq<Tree> {
    match element {
        Some(value) => array@.push(value@),
        None => array@,
    }
}

/// The values that a builder has taken: those in its array, then the one in
/// its slot.
pub open spec fn gathered_values(array: Array, element: Option<Value>) -> Seq<Value> {
    match element {
        Some(value) => array.items().push(value),
        None => array.items(),
    }
}

/// The handle that gathers the elements of a sequence for the place `out`.
///
/// `element` is the place of the element that is being fed; `array` holds
/// the elements before it.
pub struct ArrayBuilder<'a, T> {
    pub out: &'a mut Option<T>,
    pub array: Array,
    pub element: Option<Value>,
}

impl<'a, T> ArrayBuilder<'a, T> {
    /// A builder for `out` that has taken no element.
    pub fn new(out: &'a mut Option<T>) -> (builder: ArrayBuilder<'a, T>)
        ensures
            *builder.out == *old(out),
            *final(builder.out) == *final(out),
            builder.array@ == Seq::<Tree>::empty(),
            builder.element is None,
    {
        ArrayBuilder { out, array: Array::new(), element: None }
    }

    /// Moves the element in the slot, if there is one, to the end of the
    /// array.
    fn shift(&mut self)
        ensures
            final(self).element is None,
            final(self).array@ == gathered(old(self).array, old(self).element),
            final(self).array.items() == gathered_values(old(self).array, old(self).element),
            final(self).out == old(self).out,
    {
        if let Some(value) = self.element.take() {
            self.array.push(value);
        }
    }

    /// The array of all elements taken; the builder is left without any.
    fn take(&mut self) -> (array: Array)
        ensures
            array@ == gathered(old(self).array, old(self).element),
            array.items() == gathered_values(old(self).array, old(self).element),
            final(self).array@ == Seq::<Tree>::empty(),
            final(self).element is None,
            final(self).out == old(self).out,
    {
        self.shift();
        let mut array = Array::new();
        core::mem::swap(&mut array, &mut self.array);
        array
    }
}

impl<'a> SeqHandle for ArrayBuilder<'a, Value> {
    type Element = Value;

    open spec fn filled(&self) -> bool {
        *self.out is Some
    }

    open spec fn complete(&self) -> bool {
        true
    }

    open spec fn supplied(&self) -> Seq<Value> {
        gathered_values(self.array, self.element)
    }

    open spec fn committed(&self) -> Seq<Value> {
        match *self.out {
            Some(Value::Array(array)) => array.items(),
            _ => Seq::empty(),
        }
    }

    /// The element fed before joins the array.
    fn element(&mut self) -> (slot: Result<&mut Option<Value>, Error>)
        ensures
            slot matches Ok(place) && final(self).element == *final(place),
            final(self).array@ == gathered(old(self).array, old(self).element),
            final(self).array.items() == gathered_values(old(self).array, old(self).element),
            final(self).out == old(self).out,
    {
        self.shift();
        Ok(&mut self.element)
    }

    fn finish(&mut self) -> (done: Result<(), Error>)
        ensures
            done is Ok,
            holds(*final(self).out, Tree::Array(gathered(old(self).array, old(self).element))),
            *final(final(self).out) == *final(old(self).out),
    {
        let array = self.take();
        *self.out = Some(Value::Array(array));
        Ok(())
    }
}

impl<'a> SeqHandle for ArrayBuilder<'a, Array> {
    type Element = Value;

    open spec fn filled(&self) -> bool {
        *self.out is Some
    }

    open spec fn complete(&self) -> bool {
        true
    }

    open spec fn supplied(&self) -> Seq<Value> {
        gathered_values(self.array, self.element)
    }

    open spec fn committed(&self) -> Seq<Value> {
        match *self.out {
            Some(array) => array.items(),
            None => Seq::empty(),
        }
    }

    /// The element fed before joins the array.
    fn element(&mut self) -> (slot: Result<&mut Option<Value>, Error>)
        ensures
            slot matches Ok(place) && final(self).element == *final(place),
            final(self).array@ == gathered(old(self).array, old(self).element),
            final(self).array.items() == gathered_values(old(self).array, old(self).element),
            final(self).out == old(self).out,
    {
        self.shift();
        Ok(&mut self.element)
    }

    fn finish(&mut self) -> (done: Result<(), Error>)
        ensures
            done is Ok,
            *final(self).out matches Some(array) && array@ == gathered(
                old(self).array,
                old(self).element,
            ),
            *final(final(self).out) == *final(old(self).out),
    {
        let array = self.take();
        *self.out = Some(array);
        Ok(())
    }
}

impl<'a> Visitor for Place<'a, Array> {
    type Elements = ArrayBuilder<'a, Array>;

    type Entries = Refused;

    open spec fn filled(&self) -> bool {
        *self.out is Some
    }

    open spec fn takes(&self, shape: Shape) -> bool {
        shape is Sequence
    }

    fn seq(self) -> (handle: Result<ArrayBuilder<'a, Array>, Error>)
        ensures
            handle matches Ok(builder) && *builder.out == *old(self.out) && *final(builder.out)
                == *final(self.out) && builder.array@ == Seq::<Tree>::empty()
                && builder.element is None,
    {
        Ok(ArrayBuilder::new(self.out))
    }

    /// An array takes no keyed map: the call fails, and the place is as it
    /// was.
    fn map(self) -> (handle: Result<Refused, Error>)
        ensures
            handle is Err,
            *final(self.out) == *old(self.out),
    {
        Err(Error)
    }
}

impl crate::de::Deserialize for Array {
    type Visitor<'a> = Place<'a, Array>;

    fn begin<'a>(out: &'a mut Option<Array>) -> (visitor: Place<'a, Array>)
        ensures
            *visitor.out == *old(out),
            *final(visitor.out) == *final(out),
    {
        Place::new(out)
    }
}

} // verus!

//! Numbers of the value tree.
use crate::de::{Place, Refused, Visitor};
use crate::error::Error;
use crate::ser::{Empty, Fragment, Shape};
use vstd::prelude::*;

verus! {

/// A 64-bit binary floating point number, held as its IEEE 754 bit pattern.
#[derive(Copy, Clone, Debug, PartialEq, Eq, Structural)]
pub struct Float {
    bits: u64,
}

impl Float {
    /// The bit pattern.
    pub closed spec fn bits(self) -> u64 {
        self.bits
    }

    pub fn from_bits(bits: u64) -> (f: Float)
        ensures
            f.bits() == bits,
    {
        Float { bits }
    }

    pub fn to_bits(self) -> (bits: u64)
        ensures
            bits == self.bits(),
    {
        self.bits
    }
}

/// A number in one of three representations, fixed when it is made.
#[derive(Copy, Clone, Debug, PartialEq, Eq, Structural)]
pub enum Number {
    U64(u64),
    I64(i64),
    F64(Float),
}

impl crate::ser::Serialize for Number {
    type Elements<'a> = Empty;

    type Entries<'a> = Empty;

    open spec fn shape(&self) -> Shape {
        match *self {
            Number::U64(n) => Shape::U64(n),
            Number::I64(n) => Shape::I64(n),
            Number::F64(n) => Shape::F64(n),
        }
    }

    fn begin(&self) -> (fragment: Fragment<'_, Empty, Empty>)
        ensures
            match *self {
                Number::U64(n) => fragment matches Fragment::U64(said) && said == n,
                Number::I64(n) => fragment matches Fragment::I64(said) && said == n,
                Number::F64(n) => fragment matches Fragment::F64(said) && said == n,
            },
    {
        match self {
            Number::U64(n) => Fragment::U64(*n),
            Number::I64(n) => Fragment::I64(*n),
            Number::F64(n) => Fragment::F64(*n),
        }
    }
}

/// A number takes the three kinds of numeric input and keeps the
/// representation it is given.
impl<'a> Visitor for Place<'a, Number> {
    type Elements = Refused;

    type Entries = Refused;

    open spec fn filled(&self) -> bool {
        *self.out is Some
    }

    open spec fn takes(&self, shape: Shape) -> bool {
        shape is U64 || shape is I64 || shape is F64
    }

    fn negative(&mut self, n: i64) -> (done: Result<(), Error>)
        ensures
            done is Ok,
            *final(self).out == Some(Number::I64(n)),
            *final(final(self).out) == *final(old(self).out),
    {
        *self.out = Some(Number::I64(n));
        Ok(())
    }

    fn nonnegative(&mut self, n: u64) -> (done: Result<(), Error>)
        ensures
            done is Ok,
            *final(self).out == Some(Number::U64(n)),
            *final(final(self).out) == *final(old(self).out),
    {
        *self.out = Some(Number::U64(n));
        Ok(())
    }

    fn float(&mut self, n: Float) -> (done: Result<(), Error>)
        ensures
            done is Ok,
            *final(self).out == Some(Number::F64(n)),
            *final(final(self).out) == *final(old(self).out),
    {
        *self.out = Some(Number::F64(n));
        Ok(())
    }

    /// A number takes no sequence: the call fails, and the place is as it
    /// was.
    fn seq(self) -> (handle: Result<Refused, Error>)
        ensures
            handle is Err,
            *final(self.out) == *old(self.out),
    {
        Err(Error)
    }

    /// A number takes no keyed map: the call fails, and the place is as it
    /// was.
    fn map(self) -> (handle: Result<Refused, Error>)
        ensures
            handle is Err,
            *final(self.out) == *old(self.out),
    {
        Err(Error)
    }
}

impl crate::de::Deserialize for Number {
    type Visitor<'a> = Place<'a, Number>;

    fn begin<'a>(out: &'a mut Option<Number>) -> (visitor: Place<'a, Number>)
        ensures
            *visitor.out == *old(out),
            *final(visitor.out) == *final(out),
    {
        Place::new(out)
    }
}

} // verus!

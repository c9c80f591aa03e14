use miniserde::de::{Deserialize, MapHandle, Place, Refused, SeqHandle, Visitor};
use miniserde::error::Error;
use miniserde::json::relay::relay;
use miniserde::json::text::Piece;
use miniserde::json::{Array, Float, Number, Object, Value};
use miniserde::ser::{Empty, Fragment, MapIter, SeqIter, Serialize};
use std::cell::Cell;

fn text_of(value: &Value) -> String {
    let mut text = String::new();
    for piece in value.debug_pieces() {
        match piece {
            Piece::Text(part) => text.push_str(&part),
            Piece::Float(float) => {
                text.push_str(ryu::Buffer::new().format(f64::from_bits(float.to_bits())))
            }
        }
    }
    text
}

/// A record with two required keys.
#[derive(Debug, PartialEq)]
struct Point {
    x: u64,
    y: u64,
}

struct PointPlace<'a> {
    out: &'a mut Option<Point>,
}

struct PointFields<'a> {
    out: &'a mut Option<Point>,
    x: Option<Number>,
    y: Option<Number>,
}

impl<'a> Visitor for PointPlace<'a> {
    type Elements = Refused;
    type Entries = PointFields<'a>;

    fn map(self) -> Result<PointFields<'a>, Error> {
        Ok(PointFields { out: self.out, x: None, y: None })
    }
}

impl<'a> MapHandle for PointFields<'a> {
    type Value = Number;

    fn key(&mut self, k: &str) -> Result<&mut Option<Number>, Error> {
        match k {
            "x" => {
                self.x = None;
                Ok(&mut self.x)
            }
            "y" => {
                self.y = None;
                Ok(&mut self.y)
            }
            _ => Err(Error),
        }
    }

    fn finish(&mut self) -> Result<(), Error> {
        match (self.x, self.y) {
            (Some(Number::U64(x)), Some(Number::U64(y))) => {
                *self.out = Some(Point { x, y });
                Ok(())
            }
            _ => Err(Error),
        }
    }
}

impl Deserialize for Point {
    type Visitor<'a> = PointPlace<'a>;

    fn begin<'a>(out: &'a mut Option<Point>) -> PointPlace<'a> {
        PointPlace { out }
    }
}

#[test]
fn boolean_on_a_record_fails_and_writes_nothing() {
    let mut out: Option<Point> = None;
    let mut visitor = Deserialize::begin(&mut out);
    assert_eq!(visitor.boolean(true), Err(Error));
    assert_eq!(visitor.null(), Err(Error));
    assert_eq!(visitor.string("x"), Err(Error));
    assert_eq!(visitor.negative(-1), Err(Error));
    assert_eq!(visitor.nonnegative(1), Err(Error));
    assert_eq!(visitor.float(Float::from_bits(0)), Err(Error));
    assert_eq!(out, None);
}

#[test]
fn boolean_on_an_object_fails_and_writes_nothing() {
    let mut out: Option<Object> = None;
    let mut visitor = Deserialize::begin(&mut out);
    assert_eq!(visitor.boolean(true), Err(Error));
    assert!(out.is_none());
    assert!(Deserialize::begin(&mut out).seq().is_err());
    assert!(out.is_none());
}

#[test]
fn sequence_on_a_record_is_refused() {
    let mut out: Option<Point> = None;
    assert!(Deserialize::begin(&mut out).seq().is_err());
    assert_eq!(out, None);
    let mut refused = Refused;
    assert!(SeqHandle::element(&mut refused).is_err());
    assert_eq!(SeqHandle::finish(&mut refused), Err(Error));
    assert!(MapHandle::key(&mut refused, "k").is_err());
    assert_eq!(MapHandle::finish(&mut refused), Err(Error));
}

#[test]
fn unrecognized_key_fails_before_anything_is_written() {
    let mut out: Option<Point> = None;
    let mut fields = Deserialize::begin(&mut out).map().unwrap();
    assert!(fields.key("z").is_err());
    assert_eq!(fields.x, None);
    assert_eq!(fields.y, None);
    assert_eq!(fields.finish(), Err(Error));
    assert_eq!(out, None);
}

#[test]
fn all_required_keys_then_finish_fills_the_place() {
    let mut out: Option<Point> = None;
    let mut fields = Deserialize::begin(&mut out).map().unwrap();
    Deserialize::begin(fields.key("x").unwrap()).nonnegative(3).unwrap();
    Deserialize::begin(fields.key("y").unwrap()).nonnegative(4).unwrap();
    assert_eq!(fields.finish(), Ok(()));
    assert_eq!(out, Some(Point { x: 3, y: 4 }));
}

#[test]
fn missing_key_fails_at_finish() {
    let mut out: Option<Point> = None;
    let mut fields = Deserialize::begin(&mut out).map().unwrap();
    Deserialize::begin(fields.key("x").unwrap()).nonnegative(3).unwrap();
    assert_eq!(fields.finish(), Err(Error));
    assert_eq!(out, None);
}

#[test]
fn unfinished_handle_leaves_the_place_empty() {
    let mut out: Option<Value> = None;
    {
        let mut elements = Deserialize::begin(&mut out).seq().unwrap();
        Deserialize::begin(elements.element().unwrap()).null().unwrap();
    }
    assert!(out.is_none());
}

#[test]
fn default_place_is_empty() {
    assert!(<Value as Deserialize>::default().is_none());
    assert_eq!(<Number as Deserialize>::default(), None);
}

#[test]
fn value_takes_every_kind_of_leaf() {
    let mut out: Option<Value> = None;
    Deserialize::begin(&mut out).null().unwrap();
    assert!(matches!(out, Some(Value::Null)));
    Deserialize::begin(&mut out).boolean(true).unwrap();
    assert!(matches!(out, Some(Value::Bool(true))));
    Deserialize::begin(&mut out).string("text").unwrap();
    assert!(matches!(&out, Some(Value::String(s)) if s == "text"));
    Deserialize::begin(&mut out).negative(-5).unwrap();
    assert!(matches!(out, Some(Value::Number(Number::I64(-5)))));
    Deserialize::begin(&mut out).nonnegative(5).unwrap();
    assert!(matches!(out, Some(Value::Number(Number::U64(5)))));
    Deserialize::begin(&mut out).float(Float::from_bits(2.5f64.to_bits())).unwrap();
    match out {
        Some(Value::Number(Number::F64(f))) => assert_eq!(f64::from_bits(f.to_bits()), 2.5),
        _ => panic!("not a float"),
    }
}

#[test]
fn number_takes_numbers_only() {
    let mut out: Option<Number> = None;
    assert_eq!(Deserialize::begin(&mut out).null(), Err(Error));
    assert_eq!(Deserialize::begin(&mut out).boolean(false), Err(Error));
    assert_eq!(Deserialize::begin(&mut out).string("1"), Err(Error));
    assert!(Deserialize::begin(&mut out).seq().is_err());
    assert!(Deserialize::begin(&mut out).map().is_err());
    assert_eq!(out, None);
    Deserialize::begin(&mut out).negative(-9).unwrap();
    assert_eq!(out, Some(Number::I64(-9)));
    Deserialize::begin(&mut out).nonnegative(9).unwrap();
    assert_eq!(out, Some(Number::U64(9)));
}

#[test]
fn array_is_built_element_by_element() {
    let mut out: Option<Array> = None;
    assert_eq!(Deserialize::begin(&mut out).null(), Err(Error));
    assert!(Deserialize::begin(&mut out).map().is_err());
    let mut elements = Deserialize::begin(&mut out).seq().unwrap();
    Deserialize::begin(elements.element().unwrap()).nonnegative(1).unwrap();
    Deserialize::begin(elements.element().unwrap()).string("two").unwrap();
    assert_eq!(elements.finish(), Ok(()));
    let array = out.unwrap();
    assert_eq!(array.len(), 2);
    assert!(matches!(array.get(0), Some(Value::Number(Number::U64(1)))));
    assert!(matches!(array.get(1), Some(Value::String(s)) if s == "two"));
}

#[test]
fn object_is_built_key_by_key() {
    let mut out: Option<Object> = None;
    let mut entries = Deserialize::begin(&mut out).map().unwrap();
    Deserialize::begin(entries.key("a").unwrap()).null().unwrap();
    Deserialize::begin(entries.key("b").unwrap()).boolean(true).unwrap();
    Deserialize::begin(entries.key("a").unwrap()).boolean(false).unwrap();
    assert_eq!(entries.finish(), Ok(()));
    let object = out.unwrap();
    assert_eq!(object.len(), 2);
    assert!(matches!(object.entry(0), Some(("a", Value::Bool(false)))));
    assert!(matches!(object.entry(1), Some(("b", Value::Bool(true)))));
}

#[test]
fn key_without_a_value_is_dropped() {
    let mut out: Option<Object> = None;
    let mut entries = Deserialize::begin(&mut out).map().unwrap();
    let _ = entries.key("a").unwrap();
    Deserialize::begin(entries.key("b").unwrap()).null().unwrap();
    assert_eq!(entries.finish(), Ok(()));
    let object = out.unwrap();
    assert_eq!(object.len(), 1);
    assert!(matches!(object.entry(0), Some(("b", Value::Null))));
}

fn sample() -> Value {
    let mut inner = Array::new();
    inner.push(Value::Null);
    inner.push(Value::Bool(true));
    inner.push(Value::Array(Array::new()));
    let mut nested = Object::new();
    nested.insert("deep".to_owned(), Value::Object(Object::new()));
    let mut object = Object::new();
    object.insert("list".to_owned(), Value::Array(inner));
    object.insert("n".to_owned(), Value::Number(Number::I64(-7)));
    object.insert("u".to_owned(), Value::Number(Number::U64(7)));
    object.insert("f".to_owned(), Value::Number(Number::F64(Float::from_bits(0.1f64.to_bits()))));
    object.insert("s".to_owned(), Value::String("a \"quoted\" text".to_owned()));
    object.insert("o".to_owned(), Value::Object(nested));
    Value::Object(object)
}

#[test]
fn relay_rebuilds_an_equal_value() {
    let source = sample();
    let mut out: Option<Value> = None;
    assert_eq!(relay(&source, Place::new(&mut out)), Ok(()));
    let copy = out.unwrap();
    assert_eq!(text_of(&copy), text_of(&source));
    assert_eq!(
        text_of(&copy),
        "Object {\"list\": Array [Null, Bool(true), Array []], \"n\": Number(-7), \
         \"u\": Number(7), \"f\": Number(0.1), \"s\": String(\"a \\\"quoted\\\" text\"), \
         \"o\": Object {\"deep\": Object {}}}"
    );
}

#[test]
fn relay_rebuilds_every_leaf() {
    for source in [
        Value::Null,
        Value::Bool(false),
        Value::Number(Number::U64(u64::MAX)),
        Value::Number(Number::I64(i64::MIN)),
        Value::Number(Number::F64(Float::from_bits(f64::NAN.to_bits()))),
        Value::String(String::new()),
        Value::Array(Array::new()),
        Value::Object(Object::new()),
    ] {
        let mut out: Option<Value> = Some(Value::Bool(true));
        assert_eq!(relay(&source, Deserialize::begin(&mut out)), Ok(()));
        assert_eq!(text_of(&out.unwrap()), text_of(&source));
    }
}

#[test]
fn fragments_describe_the_leaves() {
    assert!(matches!(Value::Null.begin(), Fragment::Null));
    assert!(matches!(Value::Bool(true).begin(), Fragment::Bool(true)));
    assert!(matches!(Value::Number(Number::U64(3)).begin(), Fragment::U64(3)));
    assert!(matches!(Value::Number(Number::I64(-3)).begin(), Fragment::I64(-3)));
    assert!(matches!(Number::U64(42).begin(), Fragment::U64(42)));
    assert!(matches!(Number::I64(-42).begin(), Fragment::I64(-42)));
    match Number::F64(Float::from_bits(1.5f64.to_bits())).begin() {
        Fragment::F64(f) => assert_eq!(f64::from_bits(f.to_bits()), 1.5),
        _ => panic!("not a float"),
    }
    let text = Value::String("borrowed".to_owned());
    match text.begin() {
        Fragment::Str(std::borrow::Cow::Borrowed(s)) => assert_eq!(s, "borrowed"),
        _ => panic!("not a borrowed string"),
    }
}

#[test]
fn sequence_fragment_yields_in_index_order() {
    let mut array = Array::new();
    for n in 0..5u64 {
        array.push(Value::Number(Number::U64(n)));
    }
    let value = Value::Array(array);
    match value.begin() {
        Fragment::Sequence(mut elements) => {
            for n in 0..5u64 {
                match elements.next() {
                    Some(Value::Number(Number::U64(m))) => assert_eq!(*m, n),
                    _ => panic!("element {n}"),
                }
            }
            assert!(elements.next().is_none());
            assert!(elements.next().is_none());
        }
        _ => panic!("not a sequence"),
    }
}

#[test]
fn mapping_fragment_yields_in_insertion_order() {
    let mut object = Object::new();
    object.insert("z".to_owned(), Value::Null);
    object.insert("a".to_owned(), Value::Bool(true));
    match object.begin() {
        Fragment::Mapping(mut entries) => {
            assert!(matches!(entries.next(), Some((key, Value::Null)) if key == "z"));
            assert!(matches!(entries.next(), Some((key, Value::Bool(true))) if key == "a"));
            assert!(entries.next().is_none());
        }
        _ => panic!("not a mapping"),
    }
}

#[test]
fn empty_iterator_yields_nothing() {
    let mut empty = Empty;
    assert!(SeqIter::next(&mut empty).is_none());
    assert!(MapIter::next(&mut empty).is_none());
}

/// A source that counts how often it is asked to describe itself.
struct Counted<'c> {
    asked: &'c Cell<usize>,
}

impl<'c> Serialize for Counted<'c> {
    type Elements<'a> = Empty where Self: 'a;
    type Entries<'a> = Empty where Self: 'a;

    fn begin(&self) -> Fragment<'_, Empty, Empty> {
        self.asked.set(self.asked.get() + 1);
        Fragment::Null
    }
}

struct Row<'c> {
    items: Vec<Counted<'c>>,
}

struct RowIter<'a, 'c> {
    items: &'a [Counted<'c>],
    handed: &'a Cell<usize>,
}

impl<'a, 'c> SeqIter for RowIter<'a, 'c> {
    type Item = Counted<'c>;

    fn next(&mut self) -> Option<&Counted<'c>> {
        let (first, rest) = self.items.split_first()?;
        self.items = rest;
        self.handed.set(self.handed.get() + 1);
        Some(first)
    }
}

#[test]
fn only_requested_elements_are_handed_out() {
    let asked = Cell::new(0);
    let handed = Cell::new(0);
    let row = Row { items: (0..5).map(|_| Counted { asked: &asked }).collect() };
    {
        let mut elements = RowIter { items: &row.items, handed: &handed };
        for _ in 0..2 {
            let element = elements.next().unwrap();
            assert!(matches!(element.begin(), Fragment::Null));
        }
    }
    assert_eq!(handed.get(), 2);
    assert_eq!(asked.get(), 2);
}

#[test]
fn array_iterator_leaves_the_rest_untouched() {
    let mut array = Array::new();
    for n in 0..5u64 {
        array.push(Value::Number(Number::U64(n)));
    }
    {
        let mut elements = array.elements();
        assert!(matches!(elements.next(), Some(Value::Number(Number::U64(0)))));
        assert!(matches!(elements.next(), Some(Value::Number(Number::U64(1)))));
    }
    let mut again = array.elements();
    let mut seen = 0u64;
    while let Some(Value::Number(Number::U64(n))) = again.next() {
        assert_eq!(*n, seen);
        seen += 1;
    }
    assert_eq!(seen, 5);
}

#[test]
fn number_text_reads_back_to_an_equal_number() {
    let unsigned = Number::U64(42);
    let text = match unsigned.piece() {
        Piece::Text(text) => text,
        Piece::Float(_) => panic!("an integer has text"),
    };
    assert_eq!(text, "42");
    let mut out: Option<Number> = None;
    Deserialize::begin(&mut out).nonnegative(text.parse::<u64>().unwrap()).unwrap();
    assert_eq!(out, Some(unsigned));

    let float = Number::F64(Float::from_bits(1.5f64.to_bits()));
    let text = match float.piece() {
        Piece::Float(f) => ryu::Buffer::new().format(f64::from_bits(f.to_bits())).to_owned(),
        Piece::Text(_) => panic!("a float has no text here"),
    };
    assert_eq!(text, "1.5");
    let mut out: Option<Number> = None;
    let read = text.parse::<f64>().unwrap();
    Deserialize::begin(&mut out).float(Float::from_bits(read.to_bits())).unwrap();
    assert_eq!(out, Some(float));
}

#[test]
fn refused_handle_leaves_a_filled_place_as_it_was() {
    let mut number: Option<Number> = Some(Number::U64(7));
    assert!(Deserialize::begin(&mut number).seq().is_err());
    assert_eq!(number, Some(Number::U64(7)));
    assert!(Deserialize::begin(&mut number).map().is_err());
    assert_eq!(number, Some(Number::U64(7)));

    let mut array: Option<Array> = Some(Array::from_vec(vec![Value::Null]));
    assert!(Deserialize::begin(&mut array).map().is_err());
    assert_eq!(array.as_ref().map(|a| a.len()), Some(1));

    let mut object: Option<Object> = None;
    assert!(Deserialize::begin(&mut object).seq().is_err());
    assert!(object.is_none());
}

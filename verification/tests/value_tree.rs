use miniserde::json::drop::safely;
use miniserde::json::text::Piece;
use miniserde::json::{Array, Float, Number, Object, Value};

fn joined(pieces: &[Piece]) -> String {
    let mut text = String::new();
    for piece in pieces {
        match piece {
            Piece::Text(part) => text.push_str(part),
            Piece::Float(float) => {
                text.push_str(ryu::Buffer::new().format(f64::from_bits(float.to_bits())))
            }
        }
    }
    text
}

fn sample() -> Value {
    let mut list = Array::new();
    list.push(Value::Null);
    list.push(Value::Bool(true));
    list.push(Value::Number(Number::U64(42)));
    list.push(Value::Number(Number::F64(Float::from_bits(1.5f64.to_bits()))));
    let mut object = Object::new();
    object.insert("list".to_owned(), Value::Array(list));
    object.insert("name".to_owned(), Value::String("x\"y".to_owned()));
    object.insert("n".to_owned(), Value::Number(Number::I64(-1)));
    Value::Object(object)
}

#[test]
fn default_value_is_null() {
    assert!(matches!(Value::default(), Value::Null));
}

#[test]
fn default_composites_are_empty() {
    assert_eq!(<Array as Default>::default().len(), 0);
    assert_eq!(<Object as Default>::default().len(), 0);
}

#[test]
fn clone_from_replaces_the_content() {
    let source = Array::from_vec(vec![Value::Bool(true), Value::Null]);
    let mut target = Array::from_vec(vec![Value::Array(Array::new())]);
    target.clone_from(&source);
    assert_eq!(target.len(), 2);
    assert!(matches!(target.get(0), Some(Value::Bool(true))));
    assert!(matches!(target.get(1), Some(Value::Null)));
    assert_eq!(source.len(), 2);
}

#[test]
fn new_array_is_empty() {
    let array = Array::new();
    assert_eq!(array.len(), 0);
    assert!(array.is_empty());
    assert!(array.get(0).is_none());
}

#[test]
fn array_push_get_pop() {
    let mut array = Array::new();
    array.push(Value::Bool(false));
    array.push(Value::Number(Number::U64(7)));
    assert_eq!(array.len(), 2);
    assert!(matches!(array.get(0), Some(Value::Bool(false))));
    assert!(matches!(array.get(1), Some(Value::Number(Number::U64(7)))));
    assert!(array.get(2).is_none());
    assert!(matches!(array.pop(), Some(Value::Number(Number::U64(7)))));
    assert!(matches!(array.pop(), Some(Value::Bool(false))));
    assert!(array.pop().is_none());
}

#[test]
fn array_derefs_to_its_vector() {
    let mut array = Array::from_vec(vec![Value::Null, Value::Bool(true)]);
    assert_eq!(array.iter().count(), 2);
    assert!(matches!(array.first(), Some(Value::Null)));
    array.insert(1, Value::Number(Number::I64(-3)));
    assert_eq!(array.len(), 3);
    array[0] = Value::Bool(false);
    let values = array.into_vec();
    assert!(matches!(values[0], Value::Bool(false)));
    assert!(matches!(values[1], Value::Number(Number::I64(-3))));
    assert!(matches!(values[2], Value::Bool(true)));
}

#[test]
fn array_can_be_walked_by_value_and_by_reference() {
    let array = Array::from_vec(vec![
        Value::Number(Number::U64(1)),
        Value::Number(Number::U64(2)),
        Value::Number(Number::U64(3)),
    ]);
    let mut sum = 0;
    for value in &array {
        if let Value::Number(Number::U64(n)) = value {
            sum += n;
        }
    }
    assert_eq!(sum, 6);
    let mut seen = Vec::new();
    for value in array {
        match value {
            Value::Number(Number::U64(n)) => seen.push(n),
            _ => panic!("not a number"),
        }
    }
    assert_eq!(seen, vec![1, 2, 3]);
}

#[test]
fn object_keeps_insertion_order_and_unique_keys() {
    let mut object = Object::new();
    assert!(object.insert("b".to_owned(), Value::Null).is_none());
    assert!(object.insert("a".to_owned(), Value::Bool(true)).is_none());
    let former = object.insert("b".to_owned(), Value::Number(Number::U64(1)));
    assert!(matches!(former, Some(Value::Null)));
    assert_eq!(object.len(), 2);
    assert_eq!(object.find("b"), 0);
    assert_eq!(object.find("a"), 1);
    assert_eq!(object.find("c"), 2);
    match object.entry(0) {
        Some((key, Value::Number(Number::U64(1)))) => assert_eq!(key, "b"),
        _ => panic!("first entry"),
    }
    match object.entry(1) {
        Some((key, Value::Bool(true))) => assert_eq!(key, "a"),
        _ => panic!("second entry"),
    }
    assert!(object.entry(2).is_none());
    assert!(matches!(object.get("a"), Some(Value::Bool(true))));
    assert!(object.get("").is_none());
}

#[test]
fn clone_is_deep() {
    let source = sample();
    let mut copy = source.clone();
    if let Value::Object(object) = &mut copy {
        object.insert("n".to_owned(), Value::Null);
    }
    assert_eq!(
        joined(&source.debug_pieces()),
        "Object {\"list\": Array [Null, Bool(true), Number(42), Number(1.5)], \
         \"name\": String(\"x\\\"y\"), \"n\": Number(-1)}"
    );
    assert_eq!(
        joined(&copy.debug_pieces()),
        "Object {\"list\": Array [Null, Bool(true), Number(42), Number(1.5)], \
         \"name\": String(\"x\\\"y\"), \"n\": Null}"
    );
}

#[test]
fn debug_text_of_leaves() {
    assert_eq!(joined(&Value::Null.debug_pieces()), "Null");
    assert_eq!(joined(&Value::Bool(true).debug_pieces()), "Bool(true)");
    assert_eq!(joined(&Value::Bool(false).debug_pieces()), "Bool(false)");
    assert_eq!(joined(&Value::Number(Number::I64(-12)).debug_pieces()), "Number(-12)");
    assert_eq!(
        joined(&Value::String("tab\there".to_owned()).debug_pieces()),
        "String(\"tab\\there\")"
    );
}

#[test]
fn debug_text_of_composites() {
    assert_eq!(joined(&Array::new().debug_pieces()), "Array []");
    assert_eq!(joined(&Object::new().debug_pieces()), "Object {}");
    let mut array = Array::new();
    array.push(Value::Null);
    assert_eq!(joined(&array.debug_pieces()), "Array [Null]");
    array.push(Value::Array(Array::new()));
    assert_eq!(joined(&array.debug_pieces()), "Array [Null, Array []]");
    let mut object = Object::new();
    object.insert("k\n".to_owned(), Value::Array(array));
    assert_eq!(
        joined(&object.debug_pieces()),
        "Object {\"k\\n\": Array [Null, Array []]}"
    );
}

#[test]
fn unsigned_number_renders_as_decimal_text() {
    assert_eq!(Number::U64(42).piece(), Piece::Text("42".to_owned()));
    assert_eq!(Number::U64(0).piece(), Piece::Text("0".to_owned()));
    assert_eq!(
        Number::U64(u64::MAX).piece(),
        Piece::Text("18446744073709551615".to_owned())
    );
}

#[test]
fn signed_number_renders_as_decimal_text() {
    assert_eq!(Number::I64(-1).piece(), Piece::Text("-1".to_owned()));
    assert_eq!(Number::I64(7).piece(), Piece::Text("7".to_owned()));
    assert_eq!(
        Number::I64(i64::MIN).piece(),
        Piece::Text("-9223372036854775808".to_owned())
    );
}

#[test]
fn float_number_renders_by_its_shortest_text() {
    let number = Number::F64(Float::from_bits(1.5f64.to_bits()));
    assert_eq!(number.piece(), Piece::Float(Float::from_bits(0x3ff8_0000_0000_0000)));
    assert_eq!(joined(&[number.piece()]), "1.5");
}

#[test]
fn float_keeps_its_bits() {
    let float = Float::from_bits(0x7ff8_0000_0000_0001);
    assert_eq!(float.to_bits(), 0x7ff8_0000_0000_0001);
    assert_eq!(Float::from_bits((-0.0f64).to_bits()).to_bits(), 1u64 << 63);
}

#[test]
fn teardown_counts_every_node() {
    assert_eq!(safely(Value::Null), 1);
    assert_eq!(safely(Value::Array(Array::new())), 1);
    assert_eq!(safely(Value::Object(Object::new())), 1);
    assert_eq!(safely(sample()), 8);
}

#[test]
fn teardown_of_a_deep_chain_needs_no_deep_stack() {
    let depth = 200_000;
    let mut value = Value::Null;
    for _ in 0..depth {
        let mut array = Array::new();
        array.push(value);
        value = Value::Array(array);
    }
    assert_eq!(safely(value), depth + 1);
}

#[test]
fn teardown_of_a_wide_tree() {
    let mut array = Array::new();
    for i in 0..1000u64 {
        let mut object = Object::new();
        object.insert("i".to_owned(), Value::Number(Number::U64(i)));
        array.push(Value::Object(object));
    }
    assert_eq!(safely(Value::Array(array)), 2001);
}

#[test]
fn dropping_a_deep_chain_of_arrays_needs_no_deep_stack() {
    let mut value = Value::Null;
    for _ in 0..300_000 {
        let mut array = Array::new();
        array.push(value);
        value = Value::Array(array);
    }
    drop(value);
}

#[test]
fn dropping_a_deep_chain_of_objects_needs_no_deep_stack() {
    let mut value = Value::String("leaf".to_owned());
    for depth in 0..300_000u64 {
        let mut object = Object::new();
        object.insert("before".to_owned(), Value::Number(Number::U64(depth)));
        object.insert("child".to_owned(), value);
        object.insert("after".to_owned(), Value::Null);
        value = Value::Object(object);
    }
    drop(value);
}

#[test]
fn dropping_a_deep_chain_of_both_kinds_needs_no_deep_stack() {
    let mut value = Value::Null;
    for level in 0..300_000u64 {
        if level % 2 == 0 {
            let mut array = Array::new();
            array.push(Value::Bool(true));
            array.push(value);
            value = Value::Array(array);
        } else {
            let mut object = Object::new();
            object.insert("k".to_owned(), value);
            value = Value::Object(object);
        }
    }
    drop(value);
}

#[test]
fn dropping_a_wide_and_deep_tree() {
    let mut rows = Array::new();
    for row in 0..20_000u64 {
        let mut cells = Array::new();
        for cell in 0..5u64 {
            let mut object = Object::new();
            object.insert("cell".to_owned(), Value::Number(Number::U64(row * 5 + cell)));
            object.insert("tags".to_owned(), Value::Array(Array::from_vec(vec![
                Value::String("a".to_owned()),
                Value::Array(Array::new()),
            ])));
            cells.push(Value::Object(object));
        }
        rows.push(Value::Array(cells));
    }
    assert_eq!(rows.len(), 20_000);
    drop(rows);
}

#[test]
fn dropping_leaves_an_array_usable_until_then() {
    let mut array = Array::new();
    array.push(Value::Array(Array::from_vec(vec![Value::Null, Value::Null])));
    let mut taken = Value::Bool(true);
    assert!(array.exchange(0, &mut taken));
    assert!(matches!(array.get(0), Some(Value::Bool(true))));
    assert!(matches!(&taken, Value::Array(inner) if inner.len() == 2));
    assert!(!array.exchange(1, &mut taken));
    assert!(matches!(&taken, Value::Array(inner) if inner.len() == 2));
}

#[test]
fn object_exchange_keeps_the_key() {
    let mut object = Object::new();
    object.insert("k".to_owned(), Value::Null);
    let mut value = Value::Number(Number::I64(-2));
    assert!(object.exchange(0, &mut value));
    assert!(matches!(value, Value::Null));
    assert!(matches!(object.entry(0), Some(("k", Value::Number(Number::I64(-2))))));
    assert!(!object.exchange(1, &mut value));
    assert_eq!(object.len(), 1);
}

#[test]
fn object_remove_keeps_the_order_of_the_rest() {
    let mut object = Object::new();
    object.insert("a".to_owned(), Value::Number(Number::U64(1)));
    object.insert("b".to_owned(), Value::Number(Number::U64(2)));
    object.insert("c".to_owned(), Value::Number(Number::U64(3)));
    assert!(object.contains_key("b"));
    assert!(matches!(object.remove("b"), Some(Value::Number(Number::U64(2)))));
    assert!(!object.contains_key("b"));
    assert!(object.remove("b").is_none());
    assert_eq!(object.len(), 2);
    assert!(matches!(object.entry(0), Some(("a", Value::Number(Number::U64(1))))));
    assert!(matches!(object.entry(1), Some(("c", Value::Number(Number::U64(3))))));
    object.insert("b".to_owned(), Value::Null);
    assert!(matches!(object.entry(2), Some(("b", Value::Null))));
}

#[test]
fn object_get_mut_changes_the_value_in_place() {
    let mut object = Object::new();
    object.insert("a".to_owned(), Value::Null);
    object.insert("b".to_owned(), Value::Null);
    if let Some(value) = object.get_mut("b") {
        *value = Value::Bool(true);
    }
    assert!(object.get_mut("z").is_none());
    assert!(matches!(object.entry(0), Some(("a", Value::Null))));
    assert!(matches!(object.entry(1), Some(("b", Value::Bool(true)))));
}

#[test]
fn object_can_be_walked_by_value_and_by_reference() {
    let mut object = Object::new();
    object.insert("x".to_owned(), Value::Number(Number::U64(1)));
    object.insert("y".to_owned(), Value::Number(Number::U64(2)));
    let mut keys = Vec::new();
    for (key, _) in &object {
        keys.push(key.clone());
    }
    assert_eq!(keys, vec!["x".to_owned(), "y".to_owned()]);
    let mut sum = 0;
    for (_, value) in object {
        if let Value::Number(Number::U64(n)) = value {
            sum += n;
        }
    }
    assert_eq!(sum, 3);
}

#[test]
fn taking_the_values_leaves_the_array_empty() {
    let mut array = Array::from_vec(vec![Value::Null, Value::Bool(true)]);
    let values = array.take_values();
    assert_eq!(array.len(), 0);
    assert_eq!(values.len(), 2);
    assert!(matches!(values[0], Value::Null));
    assert!(matches!(values[1], Value::Bool(true)));
    assert!(array.take_values().is_empty());
}

#[test]
fn taking_the_entries_leaves_the_object_empty() {
    let mut object = Object::new();
    object.insert("a".to_owned(), Value::Null);
    object.insert("b".to_owned(), Value::Bool(true));
    let pairs = object.take_entries();
    assert_eq!(object.len(), 0);
    assert_eq!(pairs.len(), 2);
    assert_eq!(pairs[0].0, "a");
    assert!(matches!(pairs[1], (ref key, Value::Bool(true)) if key == "b"));
    assert!(object.insert("a".to_owned(), Value::Null).is_none());
}

//! Text of numbers and values.
//!
//! The text of a float is not made here. A rendering is therefore a sequence
//! of pieces, each a stretch of text or a float whose shortest text that
//! reads back to the same bits is still to be put in its place.
use super::array::Array;
use super::number::{Float, Number};
use super::object::Object;
use super::tree::Tree;
use super::value::Value;
use vstd::prelude::*;
use vstd::string::StringExecFns;

verus! {

/// One piece of a rendering.
#[derive(Debug, PartialEq, Eq)]
pub enum Piece {
    /// Text as it stands.
    Text(String),
    /// The place of the text of a float.
    Float(Float),
}

/// One symbol of a rendering: a character, or the place of the text of a
/// float.
pub enum Symbol {
    Char(char),
    Float(Float),
}

/// The characters of a text as symbols.
pub open spec fn plain(text: Seq<char>) -> Seq<Symbol> {
    Seq::new(
        text.len(),
        |i: int|
            if 0 <= i < text.len() {
                Symbol::Char(text[i])
            } else {
                Symbol::Char('0')
            },
    )
}

/// The symbols of one piece.
pub open spec fn symbols(piece: Piece) -> Seq<Symbol> {
    match piece {
        Piece::Text(text) => plain(text@),
        Piece::Float(float) => seq![Symbol::Float(float)],
    }
}

/// The symbols of a sequence of pieces, in order.
pub open spec fn flat(pieces: Seq<Piece>) -> Seq<Symbol>
    decreases pieces.len(),
{
    if pieces.len() == 0 {
        Seq::empty()
    } else {
        flat(pieces.drop_last()) + symbols(pieces.last())
    }
}

/// The character of one decimal digit.
pub open spec fn digit(d: nat) -> char
    recommends
        d < 10,
{
    if d == 0 {
        '0'
    } else if d == 1 {
        '1'
    } else if d == 2 {
        '2'
    } else if d == 3 {
        '3'
    } else if d == 4 {
        '4'
    } else if d == 5 {
        '5'
    } else if d == 6 {
        '6'
    } else if d == 7 {
        '7'
    } else if d == 8 {
        '8'
    } else {
        '9'
    }
}

/// The decimal digits of `n`, most significant first, without leading zeros.
pub open spec fn digits(n: nat) -> Seq<char>
    decreases n,
{
    if n < 10 {
        seq![digit(n)]
    } else {
        digits(n / 10).push(digit(n % 10))
    }
}

/// The decimal text of an integer: a minus sign where it is negative, then
/// the digits of its magnitude.
pub open spec fn decimal(n: int) -> Seq<char> {
    if n < 0 {
        seq!['-'] + digits((-n) as nat)
    } else {
        digits(n as nat)
    }
}

/// Calls `itoa::Buffer::new` and `itoa::Buffer::format` on a `u64`, which
/// writes the digits of the number from the least significant one backwards
/// into its buffer and returns the written part; zero is written as the
/// single digit `0`. Claimed of it: the text is the decimal text of `n`.
#[verifier::external_body]
fn unsigned_text(n: u64) -> (text: String)
    ensures
        text@ == decimal(n as int),
{
    itoa::Buffer::new().format(n).to_owned()
}

/// Calls `itoa::Buffer::new` and `itoa::Buffer::format` on an `i64`, which
/// writes the digits of the magnitude as for a `u64` and puts `-` before
/// them where the number is negative. Claimed of it: the text is the decimal
/// text of `n`.
#[verifier::external_body]
fn signed_text(n: i64) -> (text: String)
    ensures
        text@ == decimal(n as int),
{
    itoa::Buffer::new().format(n).to_owned()
}

/// What `str`'s `Debug` writes for a text: the text between double quotes,
/// with the characters escaped that the standard library escapes there.
pub uninterp spec fn quoted(text: Seq<char>) -> Seq<char>;

/// Calls `<str as Debug>::fmt` through `format!`. Claimed of it: what it
/// writes depends on the characters of `text` and on nothing else.
#[verifier::external_body]
fn quote(text: &str) -> (escaped: String)
    ensures
        escaped@ == quoted(text@),
{
    format!("{:?}", text)
}

/// The text of a number as `Display` gives it: the decimal text of an
/// integer, the place of the text of a float.
pub open spec fn display(number: Number) -> Seq<Symbol> {
    match number {
        Number::U64(n) => plain(decimal(n as int)),
        Number::I64(n) => plain(decimal(n as int)),
        Number::F64(f) => seq![Symbol::Float(f)],
    }
}

/// The text of a value as `Debug` gives it: the name of the variant, then
/// the content in round brackets for a leaf, the elements in square brackets
/// for an array, and the entries in curly brackets for an object.
pub open spec fn debug(tree: Tree) -> Seq<Symbol>
    decreases tree, 1nat,
{
    match tree {
        Tree::Null => plain("Null"@),
        Tree::Bool(b) => if b {
            plain("Bool(true)"@)
        } else {
            plain("Bool(false)"@)
        },
        Tree::Number(n) => plain("Number("@) + display(n) + plain(")"@),
        Tree::Text(s) => plain("String("@) + plain(quoted(s)) + plain(")"@),
        Tree::Array(items) => plain("Array ["@) + debug_items(items) + plain("]"@),
        Tree::Object(entries) => plain("Object {"@) + debug_entries(entries) + plain("}"@),
    }
}

/// The texts of the elements, with `, ` between them.
pub open spec fn debug_items(items: Seq<Tree>) -> Seq<Symbol>
    decreases items, 0nat, items.len(),
{
    if items.len() == 0 {
        Seq::empty()
    } else if items.len() == 1 {
        debug(items.last())
    } else {
        debug_items(items.drop_last()) + plain(", "@) + debug(items.last())
    }
}

/// The texts of the entries, each a quoted key, `: ` and the value, with
/// `, ` between them.
pub open spec fn debug_entries(entries: Seq<(Seq<char>, Tree)>) -> Seq<Symbol>
    decreases entries, 0nat, entries.len(),
{
    if entries.len() == 0 {
        Seq::empty()
    } else if entries.len() == 1 {
        debug_entry(entries.last())
    } else {
        debug_entries(entries.drop_last()) + plain(", "@) + debug_entry(entries.last())
    }
}

/// The text of one entry.
pub open spec fn debug_entry(entry: (Seq<char>, Tree)) -> Seq<Symbol>
    decreases entry, 2nat,
{
    plain(quoted(entry.0)) + plain(": "@) + debug(entry.1)
}

/// Appending a piece appends its symbols.
proof fn lemma_flat_push(pieces: Seq<Piece>, piece: Piece)
    ensures
        flat(pieces.push(piece)) == flat(pieces) + symbols(piece),
{
    assert(pieces.push(piece).drop_last() =~= pieces);
}

/// Appends `text` as a piece of its own.
fn push_text(out: &mut Vec<Piece>, text: &str)
    ensures
        flat(final(out)@) == flat(old(out)@) + plain(text@),
{
    let piece = Piece::Text(String::from_str(text));
    proof {
        lemma_flat_push(out@, piece);
    }
    out.push(piece);
}

/// Appends the text of `number`.
fn push_number(out: &mut Vec<Piece>, number: &Number)
    ensures
        flat(final(out)@) == flat(old(out)@) + display(*number),
{
    let piece = number.piece();
    proof {
        lemma_flat_push(out@, piece);
    }
    out.push(piece);
}

/// The text of the first `count + 1` elements is that of the first `count`,
/// a separator where there are any, and that of the next.
proof fn lemma_debug_items_step(items: Seq<Tree>, count: int)
    requires
        0 <= count < items.len(),
    ensures
        debug_items(items.take(count + 1)) == if count == 0 {
            debug(items[count])
        } else {
            debug_items(items.take(count)) + plain(", "@) + debug(items[count])
        },
{
    assert(items.take(count + 1).drop_last() =~= items.take(count));
    assert(items.take(count + 1).last() == items[count]);
}

/// The same for entries.
proof fn lemma_debug_entries_step(entries: Seq<(Seq<char>, Tree)>, count: int)
    requires
        0 <= count < entries.len(),
    ensures
        debug_entries(entries.take(count + 1)) == if count == 0 {
            debug_entry(entries[count])
        } else {
            debug_entries(entries.take(count)) + plain(", "@) + debug_entry(entries[count])
        },
{
    assert(entries.take(count + 1).drop_last() =~= entries.take(count));
    assert(entries.take(count + 1).last() == entries[count]);
}

/// Appends the texts of the elements of `array`, with `, ` between them.
fn write_items(array: &Array, out: &mut Vec<Piece>)
    ensures
        flat(final(out)@) == flat(old(out)@) + debug_items(array@),
    decreases array@, 0nat,
{
    let n = array.len();
    let mut i: usize = 0;
    assert(array@.take(0) =~= Seq::<Tree>::empty());
    assert(flat(out@) + Seq::<Symbol>::empty() =~= flat(out@));
    while i < n
        invariant
            n == array@.len(),
            i <= n,
            flat(out@) == flat(old(out)@) + debug_items(array@.take(i as int)),
        decreases n - i,
    {
        if i > 0 {
            push_text(out, ", ");
        }
        match array.get(i) {
            None => {},
            Some(item) => {
                assert(decreases_to!(array@ => array@[i as int]));
                write_value(item, out);
            },
        }
        proof {
            lemma_debug_items_step(array@, i as int);
            assert(flat(out@) =~= flat(old(out)@) + debug_items(array@.take(i + 1)));
        }
        i = i + 1;
    }
    assert(array@.take(n as int) =~= array@);
}

/// Appends the texts of the entries of `object`, with `, ` between them.
fn write_entries(object: &Object, out: &mut Vec<Piece>)
    ensures
        flat(final(out)@) == flat(old(out)@) + debug_entries(object@),
    decreases object@, 0nat,
{
    let n = object.len();
    let mut i: usize = 0;
    assert(object@.take(0) =~= Seq::<(Seq<char>, Tree)>::empty());
    assert(flat(out@) + Seq::<Symbol>::empty() =~= flat(out@));
    while i < n
        invariant
            n == object@.len(),
            i <= n,
            flat(out@) == flat(old(out)@) + debug_entries(object@.take(i as int)),
        decreases n - i,
    {
        if i > 0 {
            push_text(out, ", ");
        }
        match object.entry(i) {
            None => {},
            Some((key, value)) => {
                let name = quote(key);
                push_text(out, name.as_str());
                push_text(out, ": ");
                assert(decreases_to!(object@ => object@[i as int]));
                assert(decreases_to!(object@[i as int] => object@[i as int].1));
                write_value(value, out);
            },
        }
        proof {
            lemma_debug_entries_step(object@, i as int);
            assert(flat(out@) =~= flat(old(out)@) + debug_entries(object@.take(i + 1)));
        }
        i = i + 1;
    }
    assert(object@.take(n as int) =~= object@);
}

/// Appends the text of `value`.
fn write_value(value: &Value, out: &mut Vec<Piece>)
    ensures
        flat(final(out)@) == flat(old(out)@) + debug(value@),
    decreases value@, 1nat,
{
    match value {
        Value::Null => push_text(out, "Null"),
        Value::Bool(b) => if *b {
            push_text(out, "Bool(true)")
        } else {
            push_text(out, "Bool(false)")
        },
        Value::Number(n) => {
            push_text(out, "Number(");
            push_number(out, n);
            push_text(out, ")");
            assert(flat(out@) =~= flat(old(out)@) + debug(value@));
        },
        Value::String(s) => {
            let escaped = quote(s.as_str());
            push_text(out, "String(");
            push_text(out, escaped.as_str());
            push_text(out, ")");
            assert(flat(out@) =~= flat(old(out)@) + debug(value@));
        },
        Value::Array(array) => {
            assert(decreases_to!(value@ => value@->Array_0));
            push_text(out, "Array [");
            write_items(array, out);
            push_text(out, "]");
            assert(flat(out@) =~= flat(old(out)@) + debug(value@));
        },
        Value::Object(object) => {
            assert(decreases_to!(value@ => value@->Object_0));
            push_text(out, "Object {");
            write_entries(object, out);
            push_text(out, "}");
            assert(flat(out@) =~= flat(old(out)@) + debug(value@));
        },
    }
}

impl Number {
    /// The text of the number as `Display` gives it.
    pub fn piece(&self) -> (piece: Piece)
        ensures
            symbols(piece) == display(*self),
    {
        match self {
            Number::U64(n) => Piece::Text(unsigned_text(*n)),
            Number::I64(n) => Piece::Text(signed_text(*n)),
            Number::F64(f) => Piece::Float(*f),
        }
    }
}

impl Array {
    /// The text of the array as `Debug` gives it.
    pub fn debug_pieces(&self) -> (pieces: Vec<Piece>)
        ensures
            flat(pieces@) == debug(Tree::Array(self@)),
    {
        let mut pieces: Vec<Piece> = Vec::new();
        push_text(&mut pieces, "Array [");
        write_items(self, &mut pieces);
        push_text(&mut pieces, "]");
        assert(flat(pieces@) =~= debug(Tree::Array(self@)));
        pieces
    }
}

impl Object {
    /// The text of the object as `Debug` gives it.
    pub fn debug_pieces(&self) -> (pieces: Vec<Piece>)
        ensures
            flat(pieces@) == debug(Tree::Object(self@)),
    {
        let mut pieces: Vec<Piece> = Vec::new();
        push_text(&mut pieces, "Object {");
        write_entries(self, &mut pieces);
        push_text(&mut pieces, "}");
        assert(flat(pieces@) =~= debug(Tree::Object(self@)));
        pieces
    }
}

impl Value {
    /// The text of the value as `Debug` gives it.
    pub fn debug_pieces(&self) -> (pieces: Vec<Piece>)
        ensures
            flat(pieces@) == debug(self@),
    {
        let mut pieces: Vec<Piece> = Vec::new();
        write_value(self, &mut pieces);
        assert(flat(pieces@) =~= debug(self@));
        pieces
    }
}

} // verus!

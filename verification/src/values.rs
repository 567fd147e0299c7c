use vstd::prelude::*;
use crate::numbers::num_text;

verus! {

/// A heap object: an owned string, or a function descriptor whose
/// `address` is the code offset of its first instruction.
#[derive(Debug, Clone, PartialEq)]
pub enum Object {
    String(Vec<char>),
    Function { name: Vec<char>, address: usize, arity: usize },
}

/// A runtime value.  `Number` carries the 64-bit IEEE-754 encoding of a
/// double.  `Raw` is a sentinel for debug-only slots.
#[derive(Debug, Clone, PartialEq)]
pub enum Value {
    Number(u64),
    Nil,
    Raw,
    Bool(bool),
    Object(Object),
}

/// The mathematical model of an `Object`.
pub enum ObjectV {
    String(Seq<char>),
    Function { name: Seq<char>, address: int, arity: int },
}

/// The mathematical model of a `Value`.
pub enum ValueV {
    Number(u64),
    Nil,
    Raw,
    Bool(bool),
    Object(ObjectV),
}

impl View for Object {
    type V = ObjectV;

    open spec fn view(&self) -> ObjectV {
        match self {
            Object::String(s) => ObjectV::String(s@),
            Object::Function { name, address, arity } => ObjectV::Function {
                name: name@,
                address: *address as int,
                arity: *arity as int,
            },
        }
    }
}

impl View for Value {
    type V = ValueV;

    open spec fn view(&self) -> ValueV {
        match self {
            Value::Number(b) => ValueV::Number(*b),
            Value::Nil => ValueV::Nil,
            Value::Raw => ValueV::Raw,
            Value::Bool(b) => ValueV::Bool(*b),
            Value::Object(o) => ValueV::Object(o@),
        }
    }
}

/// Whether two character vectors hold the same text.
pub fn chars_eq(a: &Vec<char>, b: &Vec<char>) -> (r: bool)
    ensures
        r == (a@ == b@),
{
    if a.len() != b.len() {
        return false;
    }
    let mut i: usize = 0;
    while i < a.len()
        invariant
            a.len() == b.len(),
            i <= a.len(),
            forall|j: int| 0 <= j < i ==> a@[j] == b@[j],
        decreases a.len() - i,
    {
        if a[i] != b[i] {
            return false;
        }
        i += 1;
    }
    proof {
        assert(a@ =~= b@);
    }
    true
}

/// Structural equality of objects: same variant, equal payload.
pub fn object_eq(a: &Object, b: &Object) -> (r: bool)
    ensures
        r == (a@ == b@),
{
    match (a, b) {
        (Object::String(x), Object::String(y)) => chars_eq(x, y),
        (
            Object::Function { name: n1, address: a1, arity: r1 },
            Object::Function { name: n2, address: a2, arity: r2 },
        ) => *a1 == *a2 && *r1 == *r2 && chars_eq(n1, n2),
        _ => false,
    }
}

/// Structural equality of values: same variant, identical payload.
/// Numbers compare by their 64-bit encoding; the constant pool
/// deduplicates by this relation.
pub fn same_value(a: &Value, b: &Value) -> (r: bool)
    ensures
        r == (a@ == b@),
{
    match (a, b) {
        (Value::Number(x), Value::Number(y)) => *x == *y,
        (Value::Nil, Value::Nil) => true,
        (Value::Raw, Value::Raw) => true,
        (Value::Bool(x), Value::Bool(y)) => *x == *y,
        (Value::Object(x), Value::Object(y)) => object_eq(x, y),
        _ => false,
    }
}

/// The language's `==` on values: same variant and equal payload, where
/// number payloads compare as IEEE-754 doubles (the two zeroes are
/// equal, a NaN equals nothing) and everything else is structural.
pub open spec fn val_equal(a: ValueV, b: ValueV) -> bool {
    match (a, b) {
        (ValueV::Number(x), ValueV::Number(y)) => crate::numbers::num_eq(x, y),
        (ValueV::Nil, ValueV::Nil) => true,
        (ValueV::Raw, ValueV::Raw) => true,
        (ValueV::Bool(x), ValueV::Bool(y)) => x == y,
        (ValueV::Object(x), ValueV::Object(y)) => x == y,
        _ => false,
    }
}

/// The language's `==` on values, as the `Equal` instruction applies it.
pub fn value_eq(a: &Value, b: &Value) -> (r: bool)
    ensures
        r == val_equal(a@, b@),
{
    match (a, b) {
        (Value::Number(x), Value::Number(y)) => crate::numbers::eq_numbers(*x, *y),
        (Value::Nil, Value::Nil) => true,
        (Value::Raw, Value::Raw) => true,
        (Value::Bool(x), Value::Bool(y)) => *x == *y,
        (Value::Object(x), Value::Object(y)) => object_eq(x, y),
        _ => false,
    }
}

/// Duplicate a value, preserving its model.
pub fn clone_value(v: &Value) -> (r: Value)
    ensures
        r@ == v@,
{
    match v {
        Value::Number(b) => Value::Number(*b),
        Value::Nil => Value::Nil,
        Value::Raw => Value::Raw,
        Value::Bool(b) => Value::Bool(*b),
        Value::Object(Object::String(s)) => Value::Object(Object::String(s.clone())),
        Value::Object(Object::Function { name, address, arity }) => Value::Object(
            Object::Function { name: name.clone(), address: *address, arity: *arity },
        ),
    }
}

/// Lexicographic order on text, scanning from position `i`.
pub open spec fn spec_chars_lt_from(a: Seq<char>, b: Seq<char>, i: int) -> bool
    decreases a.len() - i,
{
    if i < 0 || i >= b.len() {
        false
    } else if i >= a.len() {
        true
    } else if a[i] != b[i] {
        a[i] < b[i]
    } else {
        spec_chars_lt_from(a, b, i + 1)
    }
}

/// Lexicographic order on text.
pub open spec fn spec_chars_lt(a: Seq<char>, b: Seq<char>) -> bool {
    spec_chars_lt_from(a, b, 0)
}

fn chars_lt_from(a: &Vec<char>, b: &Vec<char>, i: usize) -> (r: bool)
    ensures
        r == spec_chars_lt_from(a@, b@, i as int),
    decreases a.len() - i,
{
    if i >= b.len() {
        false
    } else if i >= a.len() {
        true
    } else if a[i] != b[i] {
        a[i] < b[i]
    } else {
        chars_lt_from(a, b, i + 1)
    }
}

/// Whether `a` orders strictly below `b` in lexicographic text order.
pub fn chars_lt(a: &Vec<char>, b: &Vec<char>) -> (r: bool)
    ensures
        r == spec_chars_lt(a@, b@),
{
    chars_lt_from(a, b, 0)
}

/// The character for a decimal digit.
pub open spec fn digit_glyph(d: int) -> char {
    if d == 0 {
        '0'
    } else if d == 1 {
        '1'
    } else if d == 2 {
        '2'
    } else if d == 3 {
        '3'
    } else if d == 4 {
        '4'
    } else if d == 5 {
        '5'
    } else if d == 6 {
        '6'
    } else if d == 7 {
        '7'
    } else if d == 8 {
        '8'
    } else {
        '9'
    }
}

/// The decimal text of a natural number.
pub open spec fn dec_digits(n: int) -> Seq<char>
    decreases n,
{
    if n < 10 {
        seq![digit_glyph(n)]
    } else {
        dec_digits(n / 10).push(digit_glyph(n % 10))
    }
}

/// Render a number in decimal.
pub fn dec_text(n: usize) -> (r: Vec<char>)
    ensures
        r@ == dec_digits(n as int),
    decreases n,
{
    let d = n % 10;
    let glyph: char = if d == 0 {
        '0'
    } else if d == 1 {
        '1'
    } else if d == 2 {
        '2'
    } else if d == 3 {
        '3'
    } else if d == 4 {
        '4'
    } else if d == 5 {
        '5'
    } else if d == 6 {
        '6'
    } else if d == 7 {
        '7'
    } else if d == 8 {
        '8'
    } else {
        '9'
    };
    if n < 10 {
        let mut out: Vec<char> = Vec::new();
        out.push(glyph);
        proof {
            assert(out@ =~= dec_digits(n as int));
        }
        out
    } else {
        let mut out = dec_text(n / 10);
        out.push(glyph);
        out
    }
}

/// The printed rendering of a value: numbers as decimal text, strings as
/// their contents, booleans and nil by name, functions by a bracketed
/// header.
pub open spec fn spec_render(v: ValueV) -> Seq<char> {
    match v {
        ValueV::Number(b) => num_text(b),
        ValueV::Nil => seq!['n', 'i', 'l'],
        ValueV::Raw => seq!['r', 'a', 'w'],
        ValueV::Bool(true) => seq!['t', 'r', 'u', 'e'],
        ValueV::Bool(false) => seq!['f', 'a', 'l', 's', 'e'],
        ValueV::Object(ObjectV::String(s)) => s,
        ValueV::Object(ObjectV::Function { name, .. }) => seq!['<', 'f', 'n', ' '] + name + seq![
            '>',
        ],
    }
}

/// Render a value for printing.
pub fn render_value(v: &Value) -> (r: Vec<char>)
    ensures
        r@ == spec_render(v@),
{
    match v {
        Value::Number(b) => crate::numbers::render_number(*b),
        Value::Nil => {
            let mut out: Vec<char> = Vec::new();
            out.push('n');
            out.push('i');
            out.push('l');
            proof {
                assert(out@ =~= spec_render(v@));
            }
            out
        },
        Value::Raw => {
            let mut out: Vec<char> = Vec::new();
            out.push('r');
            out.push('a');
            out.push('w');
            proof {
                assert(out@ =~= spec_render(v@));
            }
            out
        },
        Value::Bool(b) => {
            let mut out: Vec<char> = Vec::new();
            if *b {
                out.push('t');
                out.push('r');
                out.push('u');
                out.push('e');
            } else {
                out.push('f');
                out.push('a');
                out.push('l');
                out.push('s');
                out.push('e');
            }
            proof {
                assert(out@ =~= spec_render(v@));
            }
            out
        },
        Value::Object(Object::String(s)) => s.clone(),
        Value::Object(Object::Function { name, .. }) => {
            let mut out: Vec<char> = Vec::new();
            out.push('<');
            out.push('f');
            out.push('n');
            out.push(' ');
            let mut i: usize = 0;
            while i < name.len()
                invariant
                    i <= name.len(),
                    out@ == seq!['<', 'f', 'n', ' '] + name@.subrange(0, i as int),
                decreases name.len() - i,
            {
                out.push(name[i]);
                proof {
                    assert(out@ =~= seq!['<', 'f', 'n', ' '] + name@.subrange(0, i + 1));
                }
                i += 1;
            }
            out.push('>');
            proof {
                assert(name@.subrange(0, name@.len() as int) =~= name@);
                assert(out@ =~= spec_render(v@));
            }
            out
        },
    }
}

} // verus!

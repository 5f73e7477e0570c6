use crate::memory::Heap;
use crate::object::Obj;
use crate::scanner::ascii;
use crate::text::append;
use crate::text::append_str;
use vstd::prelude::*;

verus! {

/// The sign bit of a binary64 pattern.
pub const SIGN_BIT: u64 = 0x8000_0000_0000_0000;

/// The pattern of positive infinity: every pattern of larger magnitude is a NaN.
pub const INFINITY_BITS: u64 = 0x7ff0_0000_0000_0000;

/// A value of the language.
///
/// `Number` carries the bit pattern of an IEEE-754 binary64 value, as
/// `to_bits` gives it.
#[derive(Clone, Copy, Debug)]
pub enum Value {
    Bool(bool),
    Number(u64),
    Object(Obj),
    Nil,
}

/// The kind of a value: what the machine asks of an operand.
#[derive(Clone, Copy, PartialEq, Eq, Structural, Debug)]
pub enum Kind {
    Nil,
    Bool,
    Number,
    Object,
}

/// The kinds of the values of a stack, in their order.
pub open spec fn kinds_of(stack: Seq<Value>) -> Seq<Kind> {
    Seq::new(stack.len(), |i: int| stack[i].kind())
}

/// The pattern without its sign bit.
pub open spec fn magnitude(bits: u64) -> int {
    if bits >= SIGN_BIT {
        bits - SIGN_BIT
    } else {
        bits as int
    }
}

/// The pattern is one of the NaNs.
pub open spec fn is_nan(bits: u64) -> bool {
    magnitude(bits) > INFINITY_BITS
}

/// The place of a pattern that is no NaN in the order of the numbers: the two
/// zeros share a place, and a larger number has a larger place.
pub open spec fn ordinal(bits: u64) -> int {
    if bits >= SIGN_BIT {
        -magnitude(bits)
    } else {
        magnitude(bits)
    }
}

/// IEEE-754 equality: a NaN equals nothing, and the two zeros are equal.
pub open spec fn number_equal(a: u64, b: u64) -> bool {
    !is_nan(a) && !is_nan(b) && ordinal(a) == ordinal(b)
}

/// IEEE-754 `<`: false when either side is a NaN.
pub open spec fn number_less(a: u64, b: u64) -> bool {
    !is_nan(a) && !is_nan(b) && ordinal(a) < ordinal(b)
}

/// The pattern with its sign bit flipped.
pub open spec fn negated(bits: u64) -> u64 {
    if bits >= SIGN_BIT {
        (bits - SIGN_BIT) as u64
    } else {
        (bits + SIGN_BIT) as u64
    }
}

/// Equality of two values over a heap with the given strings: same variant
/// and same payload, numbers by IEEE-754 equality, strings by their text.
pub open spec fn values_equal(a: Value, b: Value, objects: Seq<Seq<u8>>) -> bool {
    match (a, b) {
        (Value::Nil, Value::Nil) => true,
        (Value::Bool(x), Value::Bool(y)) => x == y,
        (Value::Number(x), Value::Number(y)) => number_equal(x, y),
        (Value::Object(x), Value::Object(y)) => objects[x.handle().index as int]
            == objects[y.handle().index as int],
        _ => false,
    }
}

/// A value is falsey exactly when it is `Nil` or `Bool(false)`.
pub open spec fn falsey(val: Value) -> bool {
    val is Nil || val == Value::Bool(false)
}

fn is_nan_bits(bits: u64) -> (r: bool)
    ensures
        r == is_nan(bits),
{
    if bits >= SIGN_BIT {
        bits - SIGN_BIT > INFINITY_BITS
    } else {
        bits > INFINITY_BITS
    }
}

/// Whether two numbers, given by their bit patterns, are equal.
pub fn equal_numbers(a: u64, b: u64) -> (r: bool)
    ensures
        r == number_equal(a, b),
{
    if is_nan_bits(a) || is_nan_bits(b) {
        return false;
    }
    let zero_a = a == 0 || a == SIGN_BIT;
    let zero_b = b == 0 || b == SIGN_BIT;
    if zero_a || zero_b {
        zero_a && zero_b
    } else {
        a == b
    }
}

/// Whether the first number is less than the second, both given by their
/// bit patterns.
pub fn less_number(a: u64, b: u64) -> (r: bool)
    ensures
        r == number_less(a, b),
{
    if is_nan_bits(a) || is_nan_bits(b) {
        return false;
    }
    if a >= SIGN_BIT {
        if b >= SIGN_BIT {
            a > b
        } else {
            a > SIGN_BIT || b > 0
        }
    } else {
        b < SIGN_BIT && a < b
    }
}

/// The negation of a number, given by its bit pattern.
pub fn negate_number(bits: u64) -> (r: u64)
    ensures
        r == negated(bits),
{
    if bits >= SIGN_BIT {
        bits - SIGN_BIT
    } else {
        bits + SIGN_BIT
    }
}

pub fn is_falsey(val: Value) -> (r: bool)
    ensures
        r == falsey(val),
        r <==> (val is Nil || val == Value::Bool(false)),
{
    match val {
        Value::Nil => true,
        Value::Bool(b) => !b,
        _ => false,
    }
}

/// The text that printing a value shows: `nil`, `true` or `false`, or a
/// string as it is. There is none for a number, whose text is for the
/// host to make.
pub open spec fn value_text(value: Value, objects: Seq<Seq<u8>>) -> Option<Seq<u8>> {
    match value {
        Value::Nil => Some(ascii("nil"@)),
        Value::Bool(b) => Some(if b { ascii("true"@) } else { ascii("false"@) }),
        Value::Number(_) => None,
        Value::Object(o) => Some(objects[o.handle().index as int]),
    }
}

/// The text that printing `value` shows: see [`value_text`].
pub fn print_value(value: &Value, heap: &Heap) -> (text: Option<Vec<u8>>)
    requires
        value.valid(heap),
    ensures
        match text {
            Some(t) => value_text(*value, heap.objects()) == Some(t@),
            None => value_text(*value, heap.objects()) is None,
        },
{
    let mut text: Vec<u8> = Vec::new();
    proof {
        reveal_strlit("nil");
        reveal_strlit("true");
        reveal_strlit("false");
    }
    match value {
        Value::Bool(b) => {
            if *b {
                append_str(&mut text, "true");
            } else {
                append_str(&mut text, "false");
            }
        },
        Value::Number(_) => {
            return None;
        },
        Value::Object(Obj::LString(s)) => {
            append(&mut text, s.obj(heap).as_slice());
        },
        Value::Nil => {
            append_str(&mut text, "nil");
        },
    }
    assert(text@ =~= value_text(*value, heap.objects()).unwrap());
    Some(text)
}

impl Value {
    /// The kind of the value.
    pub open spec fn kind(self) -> Kind {
        match self {
            Value::Nil => Kind::Nil,
            Value::Bool(_) => Kind::Bool,
            Value::Number(_) => Kind::Number,
            Value::Object(_) => Kind::Object,
        }
    }

    /// The value is no object, or an object that `heap` holds.
    pub open spec fn valid(self, heap: &Heap) -> bool {
        self matches Value::Object(o) ==> heap.holds(o.handle())
    }

    /// Equality as the language defines it: see [`values_equal`].
    pub fn equals(&self, other: &Value, heap: &Heap) -> (r: bool)
        requires
            self.valid(heap),
            other.valid(heap),
        ensures
            r == values_equal(*self, *other, heap.objects()),
    {
        match (*self, *other) {
            (Value::Nil, Value::Nil) => true,
            (Value::Bool(x), Value::Bool(y)) => x == y,
            (Value::Number(x), Value::Number(y)) => equal_numbers(x, y),
            (Value::Object(Obj::LString(x)), Value::Object(Obj::LString(y))) => {
                heap.same(x, y)
            },
            _ => false,
        }
    }
}

} // verus!

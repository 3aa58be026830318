//! The value domain: numbers, and the arithmetic requests the machine makes.
use vstd::prelude::*;

verus! {

/// A number of the language, carried as the bit pattern of an IEEE-754
/// double. Two values are equal when their bit patterns are.
#[derive(Clone, Copy, PartialEq, Eq, Structural, Debug)]
pub struct Value {
    pub bits: u64,
}

/// One arithmetic operation on values, with its operands in source order:
/// for a binary operation the left operand comes first.
#[derive(Clone, Copy, PartialEq, Eq, Structural, Debug)]
pub enum Operation {
    Negate(Value),
    Add(Value, Value),
    Subtract(Value, Value),
    Multiply(Value, Value),
    Divide(Value, Value),
}

/// The arithmetic of the language as a mathematical function.
pub type Arithmetic = spec_fn(Operation) -> Value;

/// The reading of number literals as a mathematical function from the
/// literal's characters to its value.
pub type Literals = spec_fn(Seq<char>) -> Value;

/// `f` may be called on every operation.
pub open spec fn total<F: Fn(Operation) -> Value>(f: F) -> bool {
    forall|op: Operation| #[trigger] call_requires(f, (op,))
}

/// Whatever `f` returns for an operation is what `g` gives for it.
pub open spec fn computes<F: Fn(Operation) -> Value>(f: F, g: Arithmetic) -> bool {
    forall|op: Operation, r: Value| #[trigger] call_ensures(f, (op,), r) ==> r == g(op)
}

/// The characters are digits, but for a dot at index `dot` that has a
/// digit on either side; with `dot` at their end they are one or more
/// digits without a dot.
pub open spec fn number_with_dot(text: Seq<char>, dot: int) -> bool {
    &&& 0 < dot <= text.len()
    &&& dot != text.len() - 1
    &&& forall|i: int| 0 <= i < text.len() && i != dot ==> is_digit(#[trigger] text[i])
    &&& dot < text.len() ==> text[dot] == '.'
}

/// The characters form a number literal: one or more digits, optionally
/// followed by a dot and one or more digits.
pub open spec fn is_number_literal(text: Seq<char>) -> bool {
    exists|dot: int| number_with_dot(text, dot)
}

/// One of the ten ASCII digits.
pub open spec fn is_digit(c: char) -> bool {
    '0' <= c <= '9'
}

/// `f` may be called on every number literal.
pub open spec fn reads_all<F: Fn(&str) -> Value>(f: F) -> bool {
    forall|text: &str| is_number_literal(text@) ==> #[trigger] call_requires(f, (text,))
}

/// Whatever `f` returns for a literal is what `g` gives for its characters.
pub open spec fn reads<F: Fn(&str) -> Value>(f: F, g: Literals) -> bool {
    forall|text: &str, r: Value| #[trigger] call_ensures(f, (text,), r) ==> r == g(text@)
}

/// The way values are shown, as a mathematical function from a value to
/// its text.
pub type Rendering = spec_fn(Value) -> Seq<char>;

/// `f` may be called on every value.
pub open spec fn shows_all<S: Fn(Value) -> String>(f: S) -> bool {
    forall|value: Value| #[trigger] call_requires(f, (value,))
}

/// Whatever `f` returns for a value is the text that `g` gives for it.
pub open spec fn shows<S: Fn(Value) -> String>(f: S, g: Rendering) -> bool {
    forall|value: Value, r: String| #[trigger] call_ensures(f, (value,), r) ==> r@ == g(value)
}

} // verus!

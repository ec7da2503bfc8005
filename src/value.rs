use vstd::prelude::*;

use crate::format_value::{bool_text, decimal, decimal_text};
use crate::names::NameMap;

verus! {

/// What a primitive value is, as the contracts see it. A float's bits are
/// computed by the caller's `FloatArith`, so only its kind is modelled.
pub enum Value {
    Bool(bool),
    Int(int),
    Float,
}

/// The kind of an evaluation error, as the contracts see it.
pub enum ErrorKind {
    InvalidChar(char),
    EmptyExpression,
    UnmatchedOpen,
    UnmatchedClose,
    UnexpectedToken,
    CallNonSymbol,
    UnknownSymbol(Seq<char>),
    UnknownFunction(Seq<char>),
    ArgumentCount,
    InvalidArgument,
    Overflow,
}

#[derive(Debug, Clone, PartialEq, Eq)]
pub enum EvalErrorMessage {
    InvalidChar(char),
    EmptyExpression,
    UnmatchedOpen,
    UnmatchedClose,
    UnexpectedToken,
    CallNonSymbol,
    UnknownSymbol(String),
    UnknownFunction(String),
    ArgumentCount,
    InvalidArgument(String),
    Overflow,
}

impl EvalErrorMessage {
    pub open spec fn kind(&self) -> ErrorKind {
        match self {
            EvalErrorMessage::InvalidChar(c) => ErrorKind::InvalidChar(*c),
            EvalErrorMessage::EmptyExpression => ErrorKind::EmptyExpression,
            EvalErrorMessage::UnmatchedOpen => ErrorKind::UnmatchedOpen,
            EvalErrorMessage::UnmatchedClose => ErrorKind::UnmatchedClose,
            EvalErrorMessage::UnexpectedToken => ErrorKind::UnexpectedToken,
            EvalErrorMessage::CallNonSymbol => ErrorKind::CallNonSymbol,
            EvalErrorMessage::UnknownSymbol(s) => ErrorKind::UnknownSymbol(s@),
            EvalErrorMessage::UnknownFunction(s) => ErrorKind::UnknownFunction(s@),
            EvalErrorMessage::ArgumentCount => ErrorKind::ArgumentCount,
            EvalErrorMessage::InvalidArgument(_) => ErrorKind::InvalidArgument,
            EvalErrorMessage::Overflow => ErrorKind::Overflow,
        }
    }
}

/// A primitive value. A float is held as its IEEE-754 binary64 bit pattern.
#[derive(Debug, Clone, Copy, PartialEq, Eq)]
pub enum Primitive {
    Boolean(bool),
    Integer(i128),
    Float(u64),
}

impl View for Primitive {
    type V = Value;

    open spec fn view(&self) -> Value {
        match self {
            Primitive::Boolean(b) => Value::Bool(*b),
            Primitive::Integer(i) => Value::Int(*i as int),
            Primitive::Float(_) => Value::Float,
        }
    }
}

/// Double-precision arithmetic on binary64 bit patterns, supplied by the
/// caller of the evaluator.
pub trait FloatArith {
    /// The value of a decimal float literal such as `-1.5e3`.
    fn parse_decimal(&self, literal: &str) -> u64;

    /// The nearest double to an integer.
    fn from_integer(&self, i: i128) -> u64;

    fn sum(&self, a: u64, b: u64) -> u64;

    fn product(&self, a: u64, b: u64) -> u64;

    /// The fractional part: the value minus its truncation, sign kept.
    fn fract(&self, a: u64) -> u64;

    /// The shortest decimal text that reads back as the same double.
    fn to_text(&self, a: u64) -> String;

    /// Whether two doubles are equal as numbers.
    fn float_eq(&self, a: u64, b: u64) -> bool;

    /// Whether a double has no fractional part, lies in the `i128` range,
    /// and equals `i`.
    fn equals_integer(&self, a: u64, i: i128) -> bool;
}

/// The constants that an expression may name.
pub type Context = NameMap<Primitive>;

pub open spec fn fits_i128(x: int) -> bool {
    i128::MIN <= x <= i128::MAX
}

/// The outcome of an operation, with a float's bits left out.
pub open spec fn outcome(r: Result<Primitive, EvalErrorMessage>) -> Result<Value, ErrorKind> {
    match r {
        Ok(p) => Ok(p@),
        Err(m) => Err(m.kind()),
    }
}

pub open spec fn spec_not(a: Value) -> Result<Value, ErrorKind> {
    match a {
        Value::Bool(b) => Ok(Value::Bool(!b)),
        _ => Err(ErrorKind::InvalidArgument),
    }
}

pub open spec fn spec_and(a: Value, b: Value) -> Result<Value, ErrorKind> {
    match (a, b) {
        (Value::Bool(x), Value::Bool(y)) => Ok(Value::Bool(x && y)),
        _ => Err(ErrorKind::InvalidArgument),
    }
}

pub open spec fn spec_or(a: Value, b: Value) -> Result<Value, ErrorKind> {
    match (a, b) {
        (Value::Bool(x), Value::Bool(y)) => Ok(Value::Bool(x || y)),
        _ => Err(ErrorKind::InvalidArgument),
    }
}

/// Integers add exactly and fail on leaving the `i128` range; a float on
/// either side makes a float; a boolean is refused.
pub open spec fn spec_add(a: Value, b: Value) -> Result<Value, ErrorKind> {
    match (a, b) {
        (Value::Int(x), Value::Int(y)) => if fits_i128(x + y) {
            Ok(Value::Int(x + y))
        } else {
            Err(ErrorKind::Overflow)
        },
        (Value::Bool(_), _) => Err(ErrorKind::InvalidArgument),
        (_, Value::Bool(_)) => Err(ErrorKind::InvalidArgument),
        _ => Ok(Value::Float),
    }
}

/// As `spec_add`, for the product.
pub open spec fn spec_mul(a: Value, b: Value) -> Result<Value, ErrorKind> {
    match (a, b) {
        (Value::Int(x), Value::Int(y)) => if fits_i128(x * y) {
            Ok(Value::Int(x * y))
        } else {
            Err(ErrorKind::Overflow)
        },
        (Value::Bool(_), _) => Err(ErrorKind::InvalidArgument),
        (_, Value::Bool(_)) => Err(ErrorKind::InvalidArgument),
        _ => Ok(Value::Float),
    }
}

pub open spec fn spec_fract(a: Value) -> Result<Value, ErrorKind> {
    match a {
        Value::Float => Ok(Value::Float),
        _ => Err(ErrorKind::InvalidArgument),
    }
}

/// How an operand is named in a refusal, as `Debug` writes a primitive.
/// A float's text comes from the caller's arithmetic, so it is not stated.
pub open spec fn operand_text(p: Primitive) -> Seq<char> {
    match p {
        Primitive::Boolean(b) => "Boolean("@ + bool_text(b) + ")"@,
        Primitive::Integer(i) => "Integer("@ + decimal_text(i) + ")"@,
        Primitive::Float(_) => "Float"@,
    }
}

/// The message that refuses operation `op` on its operands.
pub open spec fn refusal_text(op: Seq<char>, operands: Seq<Primitive>) -> Seq<char>
    decreases operands.len(),
{
    if operands.len() == 0 {
        "Cannot ("@ + op
    } else {
        refusal_text(op, operands.drop_last()) + seq![' '] + operand_text(operands.last())
    }
}

pub open spec fn has_float(operands: Seq<Primitive>) -> bool {
    exists|k: int| 0 <= k < operands.len() && (#[trigger] operands[k]) is Float
}

/// `m` refuses `op` on `operands`, in so many words where no operand is a
/// float.
pub open spec fn refuses(m: EvalErrorMessage, op: Seq<char>, operands: Seq<Primitive>) -> bool {
    &&& m is InvalidArgument
    &&& !has_float(operands) ==> m->InvalidArgument_0@ == refusal_text(op, operands) + ")"@
}

fn operand<A: FloatArith>(p: &Primitive, arith: &A) -> (r: String)
    ensures
        !(*p is Float) ==> r@ == operand_text(*p),
{
    match p {
        Primitive::Boolean(b) => {
            let mut r = "Boolean(".to_owned();
            r.append(if *b {
                "true"
            } else {
                "false"
            });
            r.append(")");
            proof {
                reveal_strlit("true");
                reveal_strlit("false");
                assert("true"@ =~= bool_text(true));
                assert("false"@ =~= bool_text(false));
            }
            r
        },
        Primitive::Integer(i) => {
            let mut r = "Integer(".to_owned();
            let d = decimal(*i);
            r.append(d.as_str());
            r.append(")");
            r
        },
        Primitive::Float(x) => {
            let mut r = "Float(".to_owned();
            let t = arith.to_text(*x);
            r.append(t.as_str());
            r.append(")");
            r
        },
    }
}

/// "Cannot (op a b)", each operand as `Debug` writes it.
fn refusal<A: FloatArith>(op: &str, a: &Primitive, b: Option<&Primitive>, arith: &A) -> (r:
    EvalErrorMessage)
    ensures
        refuses(
            r,
            op@,
            match b {
                Some(x) => seq![*a, *x],
                None => seq![*a],
            },
        ),
{
    let ghost operands = match b {
        Some(x) => seq![*a, *x],
        None => seq![*a],
    };
    let mut msg = "Cannot (".to_owned();
    msg.append(op);
    msg.append(" ");
    let ta = operand(a, arith);
    msg.append(ta.as_str());
    proof {
        reveal_strlit(" ");
        assert(" "@ =~= seq![' ']);
        assert(seq![*a].drop_last() =~= Seq::<Primitive>::empty());
        assert(seq![*a].last() == *a);
        assert(refusal_text(op@, Seq::<Primitive>::empty()) == "Cannot ("@ + op@);
        assert(operands[0] == *a);
    }
    let ghost first = msg@;
    if let Some(x) = b {
        msg.append(" ");
        let tb = operand(x, arith);
        msg.append(tb.as_str());
        proof {
            assert(seq![*a, *x].drop_last() =~= seq![*a]);
            assert(seq![*a, *x].last() == *x);
            if !has_float(operands) {
                assert(!(operands[0] is Float));
                assert(!(operands[1] is Float));
                assert(first =~= refusal_text(op@, seq![*a]));
                assert(msg@ =~= refusal_text(op@, operands));
            }
        }
    } else {
        proof {
            if !has_float(operands) {
                assert(!(operands[0] is Float));
                assert(msg@ =~= refusal_text(op@, operands));
            }
        }
    }
    let ghost body = msg@;
    msg.append(")");
    proof {
        if !has_float(operands) {
            assert(body == refusal_text(op@, operands));
            assert(msg@ =~= refusal_text(op@, operands) + ")"@);
        }
    }
    EvalErrorMessage::InvalidArgument(msg)
}

pub open spec fn only_floats_text() -> Seq<char> {
    "Only floats have fractional parts"@
}

impl Primitive {
    /// Equality of values: of the same kind by value; an integer and a
    /// float when the float is exactly that integer; a boolean never equals
    /// a number. Where a float is involved, `arith` decides.
    pub fn equals<A: FloatArith>(&self, other: &Self, arith: &A) -> (r: bool)
        ensures
            match (*self, *other) {
                (Primitive::Boolean(a), Primitive::Boolean(b)) => r == (a == b),
                (Primitive::Integer(a), Primitive::Integer(b)) => r == (a == b),
                (Primitive::Boolean(_), _) => !r,
                (_, Primitive::Boolean(_)) => !r,
                _ => true,
            },
    {
        match (self, other) {
            (Primitive::Boolean(a), Primitive::Boolean(b)) => *a == *b,
            (Primitive::Integer(a), Primitive::Integer(b)) => *a == *b,
            (Primitive::Integer(a), Primitive::Float(b)) => arith.equals_integer(*b, *a),
            (Primitive::Float(a), Primitive::Integer(b)) => arith.equals_integer(*a, *b),
            (Primitive::Float(a), Primitive::Float(b)) => arith.float_eq(*a, *b),
            _ => false,
        }
    }

    pub fn not<A: FloatArith>(&self, arith: &A) -> (r: Result<Primitive, EvalErrorMessage>)
        ensures
            outcome(r) == spec_not(self@),
            r is Err ==> refuses(r->Err_0, "not"@, seq![*self]),
    {
        match self {
            Primitive::Boolean(a) => Ok(Primitive::Boolean(!*a)),
            _ => Err(refusal("not", self, None, arith)),
        }
    }

    pub fn and<A: FloatArith>(&self, other: &Self, arith: &A) -> (r: Result<Primitive, EvalErrorMessage>)
        ensures
            outcome(r) == spec_and(self@, other@),
            r is Err ==> refuses(r->Err_0, "and"@, seq![*self, *other]),
    {
        match (self, other) {
            (Primitive::Boolean(a), Primitive::Boolean(b)) => Ok(Primitive::Boolean(*a && *b)),
            _ => Err(refusal("and", self, Some(other), arith)),
        }
    }

    pub fn or<A: FloatArith>(&self, other: &Self, arith: &A) -> (r: Result<Primitive, EvalErrorMessage>)
        ensures
            outcome(r) == spec_or(self@, other@),
            r is Err ==> refuses(r->Err_0, "or"@, seq![*self, *other]),
    {
        match (self, other) {
            (Primitive::Boolean(a), Primitive::Boolean(b)) => Ok(Primitive::Boolean(*a || *b)),
            _ => Err(refusal("or", self, Some(other), arith)),
        }
    }

    /// The sum, where a float operand's sum has been computed as `float_sum`.
    pub fn add_given<A: FloatArith>(&self, other: &Self, float_sum: u64, arith: &A) -> (r: Result<
        Primitive,
        EvalErrorMessage,
    >)
        ensures
            outcome(r) == spec_add(self@, other@),
            spec_add(self@, other@) == Ok::<Value, ErrorKind>(Value::Float) ==> r == Ok::<
                Primitive,
                EvalErrorMessage,
            >(Primitive::Float(float_sum)),
            spec_add(self@, other@) == Err::<Value, ErrorKind>(ErrorKind::InvalidArgument) ==> refuses(
                r->Err_0,
                "add"@,
                seq![*self, *other],
            ),
    {
        match (self, other) {
            (Primitive::Integer(a), Primitive::Integer(b)) => match a.checked_add(*b) {
                Some(s) => Ok(Primitive::Integer(s)),
                None => Err(EvalErrorMessage::Overflow),
            },
            (Primitive::Boolean(_), _) | (_, Primitive::Boolean(_)) => Err(
                refusal("add", self, Some(other), arith),
            ),
            _ => Ok(Primitive::Float(float_sum)),
        }
    }

    /// Integers add exactly, failing on overflow; with a float operand the
    /// sum is a float computed by `arith`; a boolean is refused.
    pub fn add<A: FloatArith>(&self, other: &Self, arith: &A) -> (r: Result<
        Primitive,
        EvalErrorMessage,
    >)
        ensures
            outcome(r) == spec_add(self@, other@),
            spec_add(self@, other@) == Err::<Value, ErrorKind>(ErrorKind::InvalidArgument) ==> refuses(
                r->Err_0,
                "add"@,
                seq![*self, *other],
            ),
    {
        let float_sum = match (self, other) {
            (Primitive::Integer(a), Primitive::Float(b)) => arith.sum(arith.from_integer(*a), *b),
            (Primitive::Float(a), Primitive::Integer(b)) => arith.sum(*a, arith.from_integer(*b)),
            (Primitive::Float(a), Primitive::Float(b)) => arith.sum(*a, *b),
            _ => 0,
        };
        self.add_given(other, float_sum, arith)
    }

    /// The product, where a float operand's product has been computed as
    /// `float_product`.
    pub fn mul_given<A: FloatArith>(&self, other: &Self, float_product: u64, arith: &A) -> (r: Result<
        Primitive,
        EvalErrorMessage,
    >)
        ensures
            outcome(r) == spec_mul(self@, other@),
            spec_mul(self@, other@) == Ok::<Value, ErrorKind>(Value::Float) ==> r == Ok::<
                Primitive,
                EvalErrorMessage,
            >(Primitive::Float(float_product)),
            spec_mul(self@, other@) == Err::<Value, ErrorKind>(ErrorKind::InvalidArgument) ==> refuses(
                r->Err_0,
                "mul"@,
                seq![*self, *other],
            ),
    {
        match (self, other) {
            (Primitive::Integer(a), Primitive::Integer(b)) => match a.checked_mul(*b) {
                Some(s) => Ok(Primitive::Integer(s)),
                None => Err(EvalErrorMessage::Overflow),
            },
            (Primitive::Boolean(_), _) | (_, Primitive::Boolean(_)) => Err(
                refusal("mul", self, Some(other), arith),
            ),
            _ => Ok(Primitive::Float(float_product)),
        }
    }

    /// Integers multiply exactly, failing on overflow; with a float operand
    /// the product is a float computed by `arith`; a boolean is refused.
    pub fn mul<A: FloatArith>(&self, other: &Self, arith: &A) -> (r: Result<
        Primitive,
        EvalErrorMessage,
    >)
        ensures
            outcome(r) == spec_mul(self@, other@),
            spec_mul(self@, other@) == Err::<Value, ErrorKind>(ErrorKind::InvalidArgument) ==> refuses(
                r->Err_0,
                "mul"@,
                seq![*self, *other],
            ),
    {
        let float_product = match (self, other) {
            (Primitive::Integer(a), Primitive::Float(b)) => arith.product(arith.from_integer(*a), *b),
            (Primitive::Float(a), Primitive::Integer(b)) => arith.product(*a, arith.from_integer(*b)),
            (Primitive::Float(a), Primitive::Float(b)) => arith.product(*a, *b),
            _ => 0,
        };
        self.mul_given(other, float_product, arith)
    }

    /// The fractional part of a float, computed as `fractional`; anything
    /// else is refused.
    pub fn fract_given(&self, fractional: u64) -> (r: Result<Primitive, EvalErrorMessage>)
        ensures
            match *self {
                Primitive::Float(_) => r == Ok::<Primitive, EvalErrorMessage>(
                    Primitive::Float(fractional),
                ),
                _ => r is Err && r->Err_0 is InvalidArgument && r->Err_0->InvalidArgument_0@
                    == only_floats_text(),
            },
    {
        match self {
            Primitive::Float(_) => Ok(Primitive::Float(fractional)),
            _ => Err(EvalErrorMessage::InvalidArgument("Only floats have fractional parts".to_owned())),
        }
    }

    /// The fractional part of a float, computed by `arith`; anything else
    /// is refused.
    pub fn fract<A: FloatArith>(&self, arith: &A) -> (r: Result<Primitive, EvalErrorMessage>)
        ensures
            outcome(r) == spec_fract(self@),
            !(*self is Float) ==> r is Err && r->Err_0 is InvalidArgument
                && r->Err_0->InvalidArgument_0@ == only_floats_text(),
    {
        let fractional = match self {
            Primitive::Float(a) => arith.fract(*a),
            _ => 0,
        };
        self.fract_given(fractional)
    }
}

} // verus!

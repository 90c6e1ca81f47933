//! What the operators make of values.
use vstd::prelude::*;
use vstd::string::StringExecFns;
use crate::literal::Literal;
use crate::literal::Value;
use crate::number::Number;
use crate::token_type::TokenType;

verus! {

/// The operations on two numbers that round, and are therefore the host's.
#[derive(Debug, Clone, Copy, PartialEq, Eq, Structural)]
pub enum Arithmetic {
    Add,
    Subtract,
    Multiply,
    Divide,
}

/// What a binary operator makes of two values.
#[derive(Debug)]
pub enum Applied {
    /// The result.
    Value(Literal),
    /// The result is `left operation right`, computed as IEEE-754 binary64
    /// arithmetic computes it. Division by zero gives an infinity or a NaN
    /// and is no error.
    Compute { operation: Arithmetic, left: Number, right: Number },
    /// The result is `text` joined with the decimal form of `number`, the
    /// number first if `number_first`.
    Join { text: String, number: Number, number_first: bool },
    /// The operator does not apply to such operands.
    Illegal,
}

/// What an `Applied` stands for.
pub enum AppliedView {
    Value(Value),
    Compute { operation: Arithmetic, left: Number, right: Number },
    Join { text: Seq<char>, number: Number, number_first: bool },
    Illegal,
}

impl View for Applied {
    type V = AppliedView;

    open spec fn view(&self) -> AppliedView {
        match *self {
            Applied::Value(v) => AppliedView::Value(v@),
            Applied::Compute { operation, left, right } => AppliedView::Compute {
                operation,
                left,
                right,
            },
            Applied::Join { text, number, number_first } => AppliedView::Join {
                text: text@,
                number,
                number_first,
            },
            Applied::Illegal => AppliedView::Illegal,
        }
    }
}

/// Two numbers under `op`: arithmetic is the host's, comparisons are
/// decided here.
pub open spec fn on_numbers(op: TokenType, left: Number, right: Number) -> AppliedView {
    match op {
        TokenType::Minus => AppliedView::Compute { operation: Arithmetic::Subtract, left, right },
        TokenType::Slash => AppliedView::Compute { operation: Arithmetic::Divide, left, right },
        TokenType::Star => AppliedView::Compute { operation: Arithmetic::Multiply, left, right },
        TokenType::Plus => AppliedView::Compute { operation: Arithmetic::Add, left, right },
        TokenType::Greater => AppliedView::Value(Value::Bool(right.spec_less(left))),
        TokenType::GreaterEqual => AppliedView::Value(
            Value::Bool(right.spec_less(left) || right.spec_equals(left)),
        ),
        TokenType::Less => AppliedView::Value(Value::Bool(left.spec_less(right))),
        TokenType::LessEqual => AppliedView::Value(
            Value::Bool(left.spec_less(right) || left.spec_equals(right)),
        ),
        TokenType::BangEqual => AppliedView::Value(Value::Bool(!left.spec_equals(right))),
        TokenType::EqualEqual => AppliedView::Value(Value::Bool(left.spec_equals(right))),
        _ => AppliedView::Illegal,
    }
}

/// `==` and `!=` on two values of one kind, which are equal if `same`.
pub open spec fn on_equal_kinds(op: TokenType, same: bool) -> AppliedView {
    match op {
        TokenType::BangEqual => AppliedView::Value(Value::Bool(!same)),
        TokenType::EqualEqual => AppliedView::Value(Value::Bool(same)),
        _ => AppliedView::Illegal,
    }
}

/// What the binary operator `op` makes of `left` and `right`.
///
/// | operands          | operators                                      |
/// |-------------------|------------------------------------------------|
/// | number, number    | `- / * +` (a number), `> >= < <= != ==`        |
/// | string, string    | `+` (joins them), `!= ==`                      |
/// | number and string | `+` (joins their texts), in either order       |
/// | boolean, boolean  | `!= ==`                                        |
/// | nil, nil          | `==` is true, `!=` is false                    |
/// | nil, anything else| `==` is false, `!=` is true                    |
///
/// Every other combination is illegal.
pub open spec fn applied(op: TokenType, left: Value, right: Value) -> AppliedView {
    match (left, right) {
        (Value::Number(l), Value::Number(r)) => on_numbers(op, l, r),
        (Value::Number(l), Value::Text(r)) => match op {
            TokenType::Plus => AppliedView::Join { text: r, number: l, number_first: true },
            _ => AppliedView::Illegal,
        },
        (Value::Text(l), Value::Number(r)) => match op {
            TokenType::Plus => AppliedView::Join { text: l, number: r, number_first: false },
            _ => AppliedView::Illegal,
        },
        (Value::Text(l), Value::Text(r)) => match op {
            TokenType::Plus => AppliedView::Value(Value::Text(l + r)),
            _ => on_equal_kinds(op, l == r),
        },
        (Value::Bool(l), Value::Bool(r)) => on_equal_kinds(op, l == r),
        (Value::Nil, Value::Nil) => on_equal_kinds(op, true),
        (Value::Nil, _) => on_equal_kinds(op, false),
        _ => AppliedView::Illegal,
    }
}

/// What a unary operator makes of a value: `-` negates a number and turns
/// anything else into `nil`; `!` gives whether the value is falsey. No
/// other operator applies.
pub open spec fn unary_applied(op: TokenType, right: Value) -> Option<Value> {
    match op {
        TokenType::Minus => Some(
            match right {
                Value::Number(n) => Value::Number(n.spec_negate()),
                _ => Value::Nil,
            },
        ),
        TokenType::Bang => Some(Value::Bool(!right.is_truthy())),
        _ => None,
    }
}

/// Whether the left operand of `and` or `or` decides the result, so that
/// the right operand is not evaluated: a truthy one decides an `or`, a
/// falsey one an `and`.
pub open spec fn decides(op: TokenType, left: Value) -> bool {
    if op == TokenType::Or {
        left.is_truthy()
    } else {
        !left.is_truthy()
    }
}

fn numbers(op: TokenType, left: Number, right: Number) -> (r: Applied)
    ensures
        r@ == on_numbers(op, left, right),
{
    match op {
        TokenType::Minus => Applied::Compute { operation: Arithmetic::Subtract, left, right },
        TokenType::Slash => Applied::Compute { operation: Arithmetic::Divide, left, right },
        TokenType::Star => Applied::Compute { operation: Arithmetic::Multiply, left, right },
        TokenType::Plus => Applied::Compute { operation: Arithmetic::Add, left, right },
        TokenType::Greater => Applied::Value(Literal::Bool(left.greater(right))),
        TokenType::GreaterEqual => Applied::Value(Literal::Bool(left.greater_equal(right))),
        TokenType::Less => Applied::Value(Literal::Bool(left.less(right))),
        TokenType::LessEqual => Applied::Value(Literal::Bool(left.less_equal(right))),
        TokenType::BangEqual => Applied::Value(Literal::Bool(!left.equals(right))),
        TokenType::EqualEqual => Applied::Value(Literal::Bool(left.equals(right))),
        _ => Applied::Illegal,
    }
}

fn equal_kinds(op: TokenType, same: bool) -> (r: Applied)
    ensures
        r@ == on_equal_kinds(op, same),
{
    match op {
        TokenType::BangEqual => Applied::Value(Literal::Bool(!same)),
        TokenType::EqualEqual => Applied::Value(Literal::Bool(same)),
        _ => Applied::Illegal,
    }
}

/// Applies the binary operator `op` to two values.
pub fn apply_binary(op: TokenType, left: Literal, right: Literal) -> (r: Applied)
    ensures
        r@ == applied(op, left@, right@),
{
    match (left, right) {
        (Literal::Number(l), Literal::Number(r)) => numbers(op, l, r),
        (Literal::Number(l), Literal::String(r)) => match op {
            TokenType::Plus => Applied::Join { text: r, number: l, number_first: true },
            _ => Applied::Illegal,
        },
        (Literal::String(l), Literal::Number(r)) => match op {
            TokenType::Plus => Applied::Join { text: l, number: r, number_first: false },
            _ => Applied::Illegal,
        },
        (Literal::String(l), Literal::String(r)) => match op {
            TokenType::Plus => Applied::Value(Literal::String(l.concat(r.as_str()))),
            _ => equal_kinds(op, l == r),
        },
        (Literal::Bool(l), Literal::Bool(r)) => equal_kinds(op, l == r),
        (Literal::Nil, Literal::Nil) => equal_kinds(op, true),
        (Literal::Nil, _) => equal_kinds(op, false),
        _ => Applied::Illegal,
    }
}

/// Applies the unary operator `op` to a value.
pub fn apply_unary(op: TokenType, right: Literal) -> (r: Option<Literal>)
    ensures
        match unary_applied(op, right@) {
            Some(v) => r is Some && r->0@ == v,
            None => r is None,
        },
{
    match op {
        TokenType::Minus => Some(
            match right {
                Literal::Number(n) => Literal::Number(n.negate()),
                _ => Literal::Nil,
            },
        ),
        TokenType::Bang => Some(Literal::Bool(!right.is_truthy())),
        _ => None,
    }
}

/// Whether `left` decides the logical operator `op`.
pub fn short_circuits(op: TokenType, left: &Literal) -> (r: bool)
    ensures
        r == decides(op, left@),
{
    if op == TokenType::Or {
        left.is_truthy()
    } else {
        !left.is_truthy()
    }
}

/// `nil == nil` is true, and `nil` equals nothing else.
pub proof fn lemma_nil_equality(other: Value)
    ensures
        applied(TokenType::EqualEqual, Value::Nil, other) == AppliedView::Value(
            Value::Bool(other is Nil),
        ),
        applied(TokenType::BangEqual, Value::Nil, other) == AppliedView::Value(
            Value::Bool(!(other is Nil)),
        ),
{
}

/// Only `nil` and `false` are falsey: every number, every string and `true`
/// are truthy.
pub proof fn lemma_truthiness(value: Value)
    ensures
        !value.is_truthy() <==> (value == Value::Nil || value == Value::Bool(false)),
{
}

} // verus!

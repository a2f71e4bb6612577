use vstd::prelude::*;

use crate::errors::{decimal, push_decimal};
use crate::span::{chars_of, Span};

verus! {

/// An error met while evaluating one statement: its message, the span of
/// the expression at fault, and its documentation code.
#[derive(Clone, Debug)]
pub struct RawEvalError {
    pub error: String,
    pub span: Span,
    pub id: u8,
}

/// Code of an evaluation error naming a variable that has no value.
pub const MISSING_VARIABLE: u8 = 1;

/// Code of an evaluation error naming no known function.
pub const UNKNOWN_FUNCTION: u8 = 2;

/// Code of an evaluation error calling a function with the wrong number
/// of arguments.
pub const WRONG_ARGUMENT_COUNT: u8 = 3;

/// Why a result of a pass could not be handed out.
#[derive(Clone, Copy, Debug, PartialEq, Eq, Structural)]
pub enum RetrievalError {
    MissingName,
    MissingValue,
}

/// The per-point inputs that every program can read by name.
#[derive(Clone, Copy, Debug, PartialEq, Eq, Structural)]
pub enum ContextField {
    X,
    Y,
    Index,
    Count,
    Fraction,
    Pi,
    Tau,
    Time,
    ProjectionTime,
    ProjectionStartTime,
}

pub open spec fn context_field_of(name: Seq<char>) -> Option<ContextField> {
    if name == "x"@ {
        Some(ContextField::X)
    } else if name == "y"@ {
        Some(ContextField::Y)
    } else if name == "index"@ {
        Some(ContextField::Index)
    } else if name == "count"@ {
        Some(ContextField::Count)
    } else if name == "fraction"@ {
        Some(ContextField::Fraction)
    } else if name == "pi"@ {
        Some(ContextField::Pi)
    } else if name == "tau"@ {
        Some(ContextField::Tau)
    } else if name == "time"@ {
        Some(ContextField::Time)
    } else if name == "projectionTime"@ {
        Some(ContextField::ProjectionTime)
    } else if name == "projectionStartTime"@ {
        Some(ContextField::ProjectionStartTime)
    } else {
        None
    }
}

/// Whether two texts hold the same characters.
pub fn same_text(a: &str, b: &str) -> (r: bool)
    ensures
        r == (a@ == b@),
{
    let x = chars_of(a);
    let y = chars_of(b);
    if x.len() != y.len() {
        return false;
    }
    let mut i: usize = 0;
    while i < x.len()
        invariant
            x@ == a@,
            y@ == b@,
            x@.len() == y@.len(),
            i <= x@.len(),
            x@.subrange(0, i as int) == y@.subrange(0, i as int),
        decreases x@.len() - i,
    {
        if x[i] != y[i] {
            proof {
                assert(x@[i as int] == x@.subrange(0, i + 1)[i as int]);
                assert(y@[i as int] == y@.subrange(0, i + 1)[i as int]);
            }
            assert(a@ != b@) by {
                assert(a@[i as int] != b@[i as int]);
            }
            return false;
        }
        proof {
            assert(x@.subrange(0, i + 1) =~= x@.subrange(0, i as int).push(x@[i as int]));
            assert(y@.subrange(0, i + 1) =~= y@.subrange(0, i as int).push(y@[i as int]));
        }
        i = i + 1;
    }
    proof {
        assert(x@ =~= x@.subrange(0, i as int));
        assert(y@ =~= y@.subrange(0, i as int));
    }
    true
}

/// The context input that `name` reads, if any.
pub fn context_field(name: &str) -> (r: Option<ContextField>)
    ensures
        r == context_field_of(name@),
{
    if same_text(name, "x") {
        Some(ContextField::X)
    } else if same_text(name, "y") {
        Some(ContextField::Y)
    } else if same_text(name, "index") {
        Some(ContextField::Index)
    } else if same_text(name, "count") {
        Some(ContextField::Count)
    } else if same_text(name, "fraction") {
        Some(ContextField::Fraction)
    } else if same_text(name, "pi") {
        Some(ContextField::Pi)
    } else if same_text(name, "tau") {
        Some(ContextField::Tau)
    } else if same_text(name, "time") {
        Some(ContextField::Time)
    } else if same_text(name, "projectionTime") {
        Some(ContextField::ProjectionTime)
    } else if same_text(name, "projectionStartTime") {
        Some(ContextField::ProjectionStartTime)
    } else {
        None
    }
}

/// The functions that programs can call.
#[derive(Clone, Copy, Debug, PartialEq, Eq, Structural)]
pub enum Builtin {
    Sin,
    Cos,
    Tan,
    Asin,
    Acos,
    Atan,
    Atan2,
    Sqrt,
    Min,
    Max,
    Floor,
    Ceil,
    Round,
    Abs,
    Rand,
    If,
    Lerp,
}

pub open spec fn builtin_of(name: Seq<char>) -> Option<Builtin> {
    if name == "sin"@ {
        Some(Builtin::Sin)
    } else if name == "cos"@ {
        Some(Builtin::Cos)
    } else if name == "tan"@ {
        Some(Builtin::Tan)
    } else if name == "asin"@ {
        Some(Builtin::Asin)
    } else if name == "acos"@ {
        Some(Builtin::Acos)
    } else if name == "atan"@ {
        Some(Builtin::Atan)
    } else if name == "atan2"@ {
        Some(Builtin::Atan2)
    } else if name == "sqrt"@ {
        Some(Builtin::Sqrt)
    } else if name == "min"@ {
        Some(Builtin::Min)
    } else if name == "max"@ {
        Some(Builtin::Max)
    } else if name == "floor"@ {
        Some(Builtin::Floor)
    } else if name == "ceil"@ {
        Some(Builtin::Ceil)
    } else if name == "round"@ {
        Some(Builtin::Round)
    } else if name == "abs"@ {
        Some(Builtin::Abs)
    } else if name == "rand"@ {
        Some(Builtin::Rand)
    } else if name == "if"@ {
        Some(Builtin::If)
    } else if name == "lerp"@ {
        Some(Builtin::Lerp)
    } else {
        None
    }
}

impl Builtin {
    pub open spec fn spec_arity(self) -> usize {
        match self {
            Builtin::Rand => 0,
            Builtin::Atan2 | Builtin::Min | Builtin::Max => 2,
            Builtin::If | Builtin::Lerp => 3,
            _ => 1,
        }
    }

    /// How many arguments the function takes.
    pub fn arity(&self) -> (r: usize)
        ensures
            r == self.spec_arity(),
    {
        match self {
            Builtin::Rand => 0,
            Builtin::Atan2 | Builtin::Min | Builtin::Max => 2,
            Builtin::If | Builtin::Lerp => 3,
            _ => 1,
        }
    }

    /// Whether the function picks which arguments to evaluate, rather than
    /// taking all of them evaluated, left to right.
    pub fn is_lazy(&self) -> (r: bool)
        ensures
            r == (*self == Builtin::If),
    {
        match self {
            Builtin::If => true,
            _ => false,
        }
    }
}

/// The function that `name` calls, if any.
pub fn builtin(name: &str) -> (r: Option<Builtin>)
    ensures
        r == builtin_of(name@),
{
    if same_text(name, "sin") {
        Some(Builtin::Sin)
    } else if same_text(name, "cos") {
        Some(Builtin::Cos)
    } else if same_text(name, "tan") {
        Some(Builtin::Tan)
    } else if same_text(name, "asin") {
        Some(Builtin::Asin)
    } else if same_text(name, "acos") {
        Some(Builtin::Acos)
    } else if same_text(name, "atan") {
        Some(Builtin::Atan)
    } else if same_text(name, "atan2") {
        Some(Builtin::Atan2)
    } else if same_text(name, "sqrt") {
        Some(Builtin::Sqrt)
    } else if same_text(name, "min") {
        Some(Builtin::Min)
    } else if same_text(name, "max") {
        Some(Builtin::Max)
    } else if same_text(name, "floor") {
        Some(Builtin::Floor)
    } else if same_text(name, "ceil") {
        Some(Builtin::Ceil)
    } else if same_text(name, "round") {
        Some(Builtin::Round)
    } else if same_text(name, "abs") {
        Some(Builtin::Abs)
    } else if same_text(name, "rand") {
        Some(Builtin::Rand)
    } else if same_text(name, "if") {
        Some(Builtin::If)
    } else if same_text(name, "lerp") {
        Some(Builtin::Lerp)
    } else {
        None
    }
}

pub open spec fn argument_noun(n: nat) -> Seq<char> {
    if n == 1 {
        "argument"@
    } else {
        "arguments"@
    }
}

pub open spec fn arity_message(name: Seq<char>, expected: nat, actual: nat) -> Seq<char> {
    "Function '"@ + name + "' expected "@ + decimal(expected) + " "@ + argument_noun(expected) + ", but only got "@
        + decimal(actual) + " "@ + argument_noun(actual) + "."@
}

pub open spec fn unknown_function_message(name: Seq<char>) -> Seq<char> {
    "No such function '"@ + name + "'."@
}

pub open spec fn missing_variable_message(name: Seq<char>) -> Seq<char> {
    "Cannot find variable '"@ + name + "'. Are you using it too early?"@
}

fn push_noun(s: &mut String, n: usize)
    ensures
        final(s)@ == old(s)@ + argument_noun(n as nat),
{
    if n == 1 {
        s.append("argument");
    } else {
        s.append("arguments");
    }
}

/// The function that a call of `name` with `count` arguments runs, or the
/// error that the call raises at `span`.
pub fn resolve_call(name: &str, count: usize, span: Span) -> (r: Result<Builtin, RawEvalError>)
    ensures
        match builtin_of(name@) {
            None => r is Err && r->Err_0.error@ == unknown_function_message(name@) && r->Err_0.span == span
                && r->Err_0.id == UNKNOWN_FUNCTION,
            Some(f) => if f.spec_arity() == count {
                r == Ok::<Builtin, RawEvalError>(f)
            } else {
                &&& r is Err
                &&& r->Err_0.error@ == arity_message(name@, f.spec_arity() as nat, count as nat)
                &&& r->Err_0.span == span
                &&& r->Err_0.id == WRONG_ARGUMENT_COUNT
            },
        },
{
    match builtin(name) {
        None => {
            let mut s = String::from_str("No such function '");
            s.append(name);
            s.append("'.");
            Err(RawEvalError { error: s, span, id: UNKNOWN_FUNCTION })
        },
        Some(f) => {
            let expected = f.arity();
            if expected == count {
                Ok(f)
            } else {
                let mut s = String::from_str("Function '");
                s.append(name);
                s.append("' expected ");
                push_decimal(&mut s, expected);
                s.append(" ");
                push_noun(&mut s, expected);
                s.append(", but only got ");
                push_decimal(&mut s, count);
                s.append(" ");
                push_noun(&mut s, count);
                s.append(".");
                Err(RawEvalError { error: s, span, id: WRONG_ARGUMENT_COUNT })
            }
        },
    }
}

} // verus!

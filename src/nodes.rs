use vstd::prelude::*;

use crate::eval::same_text;

verus! {

#[derive(Clone, Copy, Debug, PartialEq, Eq, Structural)]
pub enum MathematicalOperator {
    Add,
    Subtract,
    Multiply,
    Divide,
    Exponent,
    Modulo,
    InvalidOperation,
}

#[derive(Clone, Copy, Debug, PartialEq, Eq, Structural)]
pub enum LogicalOperator {
    LessThan,
    GreaterThan,
    LessThanOrEqualTo,
    GreaterThanOrEqualTo,
    EqualTo,
    And,
    Or,
    Not,
}

/// An operator of the language, named by its symbol.
#[derive(Clone, Copy, Debug, PartialEq, Eq, Structural)]
pub enum Operator {
    MathematicalOperator(MathematicalOperator),
    LogicalOperator(LogicalOperator),
}

pub open spec fn operator_of(s: Seq<char>) -> Operator {
    if s == "+"@ {
        Operator::MathematicalOperator(MathematicalOperator::Add)
    } else if s == "-"@ {
        Operator::MathematicalOperator(MathematicalOperator::Subtract)
    } else if s == "*"@ {
        Operator::MathematicalOperator(MathematicalOperator::Multiply)
    } else if s == "/"@ {
        Operator::MathematicalOperator(MathematicalOperator::Divide)
    } else if s == "^"@ {
        Operator::MathematicalOperator(MathematicalOperator::Exponent)
    } else if s == "%"@ {
        Operator::MathematicalOperator(MathematicalOperator::Modulo)
    } else if s == "<"@ {
        Operator::LogicalOperator(LogicalOperator::LessThan)
    } else if s == ">"@ {
        Operator::LogicalOperator(LogicalOperator::GreaterThan)
    } else if s == "<="@ {
        Operator::LogicalOperator(LogicalOperator::LessThanOrEqualTo)
    } else if s == ">="@ {
        Operator::LogicalOperator(LogicalOperator::GreaterThanOrEqualTo)
    } else if s == "=="@ {
        Operator::LogicalOperator(LogicalOperator::EqualTo)
    } else if s == "&"@ {
        Operator::LogicalOperator(LogicalOperator::And)
    } else if s == "|"@ {
        Operator::LogicalOperator(LogicalOperator::Or)
    } else if s == "!"@ {
        Operator::LogicalOperator(LogicalOperator::Not)
    } else {
        Operator::MathematicalOperator(MathematicalOperator::InvalidOperation)
    }
}

impl Operator {
    /// The operator that `operator` spells; any other text is an invalid
    /// operation.
    pub fn match_operator(operator: &str) -> (r: Self)
        ensures
            r == operator_of(operator@),
    {
        if same_text(operator, "+") {
            Operator::MathematicalOperator(MathematicalOperator::Add)
        } else if same_text(operator, "-") {
            Operator::MathematicalOperator(MathematicalOperator::Subtract)
        } else if same_text(operator, "*") {
            Operator::MathematicalOperator(MathematicalOperator::Multiply)
        } else if same_text(operator, "/") {
            Operator::MathematicalOperator(MathematicalOperator::Divide)
        } else if same_text(operator, "^") {
            Operator::MathematicalOperator(MathematicalOperator::Exponent)
        } else if same_text(operator, "%") {
            Operator::MathematicalOperator(MathematicalOperator::Modulo)
        } else if same_text(operator, "<") {
            Operator::LogicalOperator(LogicalOperator::LessThan)
        } else if same_text(operator, ">") {
            Operator::LogicalOperator(LogicalOperator::GreaterThan)
        } else if same_text(operator, "<=") {
            Operator::LogicalOperator(LogicalOperator::LessThanOrEqualTo)
        } else if same_text(operator, ">=") {
            Operator::LogicalOperator(LogicalOperator::GreaterThanOrEqualTo)
        } else if same_text(operator, "==") {
            Operator::LogicalOperator(LogicalOperator::EqualTo)
        } else if same_text(operator, "&") {
            Operator::LogicalOperator(LogicalOperator::And)
        } else if same_text(operator, "|") {
            Operator::LogicalOperator(LogicalOperator::Or)
        } else if same_text(operator, "!") {
            Operator::LogicalOperator(LogicalOperator::Not)
        } else {
            Operator::MathematicalOperator(MathematicalOperator::InvalidOperation)
        }
    }
}

} // verus!

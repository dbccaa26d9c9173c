//! What can go wrong when reading and when evaluating.
use crate::data::{Expr, ExprView};
use crate::number::ArithOp;
use crate::printer::{render, shows, shows_all};
use crate::text::{decimal_spec, push_decimal};
use vstd::prelude::*;
use vstd::string::StringExecFns;

verus! {

/// Why a text is not one expression.
#[derive(Clone, Copy, Debug, PartialEq, Eq)]
pub enum ParseError {
    /// The text holds no token.
    UnexpectedEof,
    /// A list is opened and the text ends before it is closed.
    MissingClosingParen,
    /// A `)` stands where an expression should begin.
    UnexpectedClosingParen,
    /// Tokens follow the first complete expression.
    TrailingTokens,
}

impl ParseError {
    /// The message for this error.
    pub open spec fn message_spec(self) -> Seq<char> {
        match self {
            ParseError::UnexpectedEof => "Unexpected EOF"@,
            ParseError::MissingClosingParen => "Missing closing parenthesis."@,
            ParseError::UnexpectedClosingParen => "Unexpected closing parenthesis."@,
            ParseError::TrailingTokens => "Unexpected tokens after main expression."@,
        }
    }

    /// The message for this error.
    pub fn message(&self) -> (r: String)
        ensures
            r@ == self.message_spec(),
    {
        match self {
            ParseError::UnexpectedEof => String::from_str("Unexpected EOF"),
            ParseError::MissingClosingParen => String::from_str("Missing closing parenthesis."),
            ParseError::UnexpectedClosingParen => String::from_str(
                "Unexpected closing parenthesis.",
            ),
            ParseError::TrailingTokens => String::from_str(
                "Unexpected tokens after main expression.",
            ),
        }
    }
}

/// The built-in operators.
#[derive(Clone, Copy, Debug, PartialEq, Eq)]
pub enum Builtin {
    /// `+`, `-`, `*` and `/`.
    Arith(ArithOp),
    /// `>`.
    Greater,
    /// `concat`.
    Concat,
}

/// The name of an arithmetic operator.
pub open spec fn arith_name(op: ArithOp) -> Seq<char> {
    match op {
        ArithOp::Add => "+"@,
        ArithOp::Sub => "-"@,
        ArithOp::Mul => "*"@,
        ArithOp::Div => "/"@,
    }
}

/// The name of an arithmetic operator.
pub fn arith_symbol(op: ArithOp) -> (r: &'static str)
    ensures
        r@ == arith_name(op),
{
    match op {
        ArithOp::Add => "+",
        ArithOp::Sub => "-",
        ArithOp::Mul => "*",
        ArithOp::Div => "/",
    }
}

/// Why an expression has no value.
#[derive(Debug, PartialEq)]
pub enum EvalError {
    /// A symbol without a binding.
    UndefinedVariable(String),
    /// `define` with other than two operands.
    InvalidDefine,
    /// `define` whose first operand is not a symbol.
    InvalidDefineTarget,
    /// `lambda` with other than two operands.
    InvalidLambda,
    /// `lambda` whose first operand is not a list.
    InvalidLambdaParams,
    /// `lambda` with a parameter that is not a symbol.
    InvalidLambdaParam,
    /// `if` with other than three operands.
    InvalidIf,
    /// `if` whose condition is not a truth value.
    NonBooleanCondition,
    /// A procedure called with the wrong number of arguments.
    ArityMismatch { expected: usize, received: usize },
    /// A call whose operator is not a procedure.
    NotAFunction(Expr),
    /// A division whose divisor is zero.
    DivisionByZero,
    /// An arithmetic operator or `>` given an argument that is not a number.
    NumberExpected(Builtin),
    /// `concat` given an argument that is not a string.
    StringExpected,
    /// `-` or `/` without arguments.
    MissingOperand(ArithOp),
    /// `>` with other than two arguments.
    InvalidComparison,
    /// The evaluation nests deeper than its bound.
    DepthExceeded,
}

/// The mathematical value of an [`EvalError`].
pub ghost enum EvalErrorView {
    UndefinedVariable(Seq<char>),
    InvalidDefine,
    InvalidDefineTarget,
    InvalidLambda,
    InvalidLambdaParams,
    InvalidLambdaParam,
    InvalidIf,
    NonBooleanCondition,
    ArityMismatch { expected: nat, received: nat },
    NotAFunction(ExprView),
    DivisionByZero,
    NumberExpected(Builtin),
    StringExpected,
    MissingOperand(ArithOp),
    InvalidComparison,
    DepthExceeded,
}

impl View for EvalError {
    type V = EvalErrorView;

    open spec fn view(&self) -> EvalErrorView {
        match self {
            EvalError::UndefinedVariable(name) => EvalErrorView::UndefinedVariable(name@),
            EvalError::InvalidDefine => EvalErrorView::InvalidDefine,
            EvalError::InvalidDefineTarget => EvalErrorView::InvalidDefineTarget,
            EvalError::InvalidLambda => EvalErrorView::InvalidLambda,
            EvalError::InvalidLambdaParams => EvalErrorView::InvalidLambdaParams,
            EvalError::InvalidLambdaParam => EvalErrorView::InvalidLambdaParam,
            EvalError::InvalidIf => EvalErrorView::InvalidIf,
            EvalError::NonBooleanCondition => EvalErrorView::NonBooleanCondition,
            EvalError::ArityMismatch { expected, received } => EvalErrorView::ArityMismatch {
                expected: *expected as nat,
                received: *received as nat,
            },
            EvalError::NotAFunction(e) => EvalErrorView::NotAFunction(e@),
            EvalError::DivisionByZero => EvalErrorView::DivisionByZero,
            EvalError::NumberExpected(op) => EvalErrorView::NumberExpected(*op),
            EvalError::StringExpected => EvalErrorView::StringExpected,
            EvalError::MissingOperand(op) => EvalErrorView::MissingOperand(*op),
            EvalError::InvalidComparison => EvalErrorView::InvalidComparison,
            EvalError::DepthExceeded => EvalErrorView::DepthExceeded,
        }
    }
}

/// The message for an evaluation error, with numbers written by `sh`.
pub open spec fn eval_message(sh: spec_fn(u64) -> Seq<char>, e: EvalErrorView) -> Seq<char> {
    match e {
        EvalErrorView::UndefinedVariable(name) => "Variable '"@ + name + "' not found."@,
        EvalErrorView::InvalidDefine => "'define' requires a symbol and a value."@,
        EvalErrorView::InvalidDefineTarget => "The first argument to 'define' must be a symbol."@,
        EvalErrorView::InvalidLambda => "'lambda' requires a list of parameters and a body."@,
        EvalErrorView::InvalidLambdaParams =>
            "The first argument to 'lambda' must be a list of symbols."@,
        EvalErrorView::InvalidLambdaParam => "Lambda parameters must be symbols."@,
        EvalErrorView::InvalidIf =>
            "'if' requires a condition, a then branch, and an else branch."@,
        EvalErrorView::NonBooleanCondition => "The condition for 'if' must evaluate to a boolean."@,
        EvalErrorView::ArityMismatch { expected, received } => "Function expects "@ + decimal_spec(
            expected,
        ) + " arguments, but received "@ + decimal_spec(received) + "."@,
        EvalErrorView::NotAFunction(op) => "Not a function: "@ + render(sh, op),
        EvalErrorView::DivisionByZero => "Division by zero."@,
        EvalErrorView::NumberExpected(Builtin::Arith(op)) => "Operator '"@ + arith_name(op)
            + "' requires number arguments."@,
        EvalErrorView::NumberExpected(_) => "'>' requires number arguments."@,
        EvalErrorView::StringExpected => "'concat' requires string arguments."@,
        EvalErrorView::MissingOperand(op) => "Operator '"@ + arith_name(op)
            + "' requires at least one argument."@,
        EvalErrorView::InvalidComparison => "'>' requires two arguments."@,
        EvalErrorView::DepthExceeded => "Evaluation nests too deeply."@,
    }
}

impl EvalError {
    /// The message for this error; `show` writes the numbers in it.
    pub fn message<S: Fn(u64) -> String>(&self, show: &S) -> (r: String)
        requires
            shows_all(show),
        ensures
            forall|sh: spec_fn(u64) -> Seq<char>|
                shows(show, sh) ==> r@ == #[trigger] eval_message(sh, self@),
    {
        match self {
            EvalError::UndefinedVariable(name) => {
                let mut out = String::from_str("Variable '");
                out.append(name.as_str());
                out.append("' not found.");
                out
            },
            EvalError::InvalidDefine => String::from_str("'define' requires a symbol and a value."),
            EvalError::InvalidDefineTarget => String::from_str(
                "The first argument to 'define' must be a symbol.",
            ),
            EvalError::InvalidLambda => String::from_str(
                "'lambda' requires a list of parameters and a body.",
            ),
            EvalError::InvalidLambdaParams => String::from_str(
                "The first argument to 'lambda' must be a list of symbols.",
            ),
            EvalError::InvalidLambdaParam => String::from_str("Lambda parameters must be symbols."),
            EvalError::InvalidIf => String::from_str(
                "'if' requires a condition, a then branch, and an else branch.",
            ),
            EvalError::NonBooleanCondition => String::from_str(
                "The condition for 'if' must evaluate to a boolean.",
            ),
            EvalError::ArityMismatch { expected, received } => {
                let mut out = String::from_str("Function expects ");
                push_decimal(&mut out, *expected);
                out.append(" arguments, but received ");
                push_decimal(&mut out, *received);
                out.append(".");
                out
            },
            EvalError::NotAFunction(op) => {
                let mut out = String::from_str("Not a function: ");
                op.write(&mut out, show);
                out
            },
            EvalError::DivisionByZero => String::from_str("Division by zero."),
            EvalError::NumberExpected(Builtin::Arith(op)) => {
                let mut out = String::from_str("Operator '");
                out.append(arith_symbol(*op));
                out.append("' requires number arguments.");
                out
            },
            EvalError::NumberExpected(_) => String::from_str("'>' requires number arguments."),
            EvalError::StringExpected => String::from_str("'concat' requires string arguments."),
            EvalError::MissingOperand(op) => {
                let mut out = String::from_str("Operator '");
                out.append(arith_symbol(*op));
                out.append("' requires at least one argument.");
                out
            },
            EvalError::InvalidComparison => String::from_str("'>' requires two arguments."),
            EvalError::DepthExceeded => String::from_str("Evaluation nests too deeply."),
        }
    }
}

} // verus!

//! The syntax tree of a program.
use vstd::prelude::*;

verus! {

/// A program: its statements, in order.
#[derive(Default, Debug)]
pub struct Program {
    pub statements: Vec<Statement>,
}

impl Program {
    /// A program with no statements.
    pub fn new() -> (r: Program)
        ensures
            r.statements@.len() == 0,
    {
        Program { statements: Vec::new() }
    }
}

#[derive(Debug)]
pub enum Statement {
    LetBinding { name: String, expr: Expression },
    CreatePersistent { name: String, expr: Expression },
    SetPersistent { name: String, expr: Expression },
    MigratePersistent { name: String, expr: Expression },
    DropPersistent { name: String },
}

#[derive(Debug)]
pub enum Expression {
    Literal(LiteralValue),
    Variable(String),
    Pipeline { left: Box<Expression>, operations: Vec<PipelineOp> },
    BinaryOp { left: Box<Expression>, op: BinaryOperator, right: Box<Expression> },
    UnaryOp { op: UnaryOperator, right: Box<Expression> },
    FunctionCall { name: String, args: Vec<Expression> },
}

/// A literal value. `Float` holds the literal as written, a decimal
/// floating-point number in the syntax that std's `f64::from_str` accepts.
#[derive(Debug, Clone)]
pub enum LiteralValue {
    Int(u64),
    Float(String),
    String(String),
}

#[derive(Debug, Clone, Copy, PartialEq, Eq, Structural)]
pub enum BinaryOperator {
    Add,
    Subtract,
    Multiply,
    Divide,
    Modulus,
    LogicalOr,
    LogicalAnd,
    Equal,
    NotEqual,
    Greater,
    GreaterEqual,
    Less,
    LessEqual,
}

#[derive(Debug, Clone, Copy, PartialEq, Eq, Structural)]
pub enum UnaryOperator {
    Negate,
    LogicalNot,
}

#[derive(Debug, Clone, Copy, PartialEq, Eq, Structural)]
pub enum PipelineOp {
    Select,
    Filter,
}

#[derive(Debug, Clone)]
pub struct SelectOperation {}

pub struct FilterOperation {}

} // verus!

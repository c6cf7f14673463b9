//! Operators of expressions.

use vstd::prelude::*;

verus! {

/// Unary operators.
#[derive(Debug, Clone, Copy, PartialEq, Eq, Hash)]
pub enum UnaryOp {
    /// Negation
    Negation,
}

/// Verilog symbol of a unary operator.
pub open spec fn unary_op_symbol(op: UnaryOp) -> Seq<char> {
    match op {
        UnaryOp::Negation => "~"@,
    }
}

impl UnaryOp {
    /// Verilog symbol of the operator.
    pub fn to_string(&self) -> (r: String)
        ensures
            r@ == unary_op_symbol(*self),
    {
        match self {
            UnaryOp::Negation => String::from_str("~"),
        }
    }
}

/// Binary operators.
#[derive(Debug, Clone, Copy, PartialEq, Eq, Hash)]
pub enum BinaryOp {
    /// Addition
    Add,
    /// Subtraction
    Sub,
    /// Multiplication
    Mul,
    /// Division
    Div,
    /// Modulus
    Mod,
    /// Or (bitwise)
    Or,
    /// And (bitwise)
    And,
    /// Xor (bitwise)
    Xor,
    /// Eq (bitwise, `a ~^ b`)
    Eq,
    /// Eq (arithmetic, `a == b`)
    EqArithmetic,
    /// Ne (arithmetic, strict, `a === b`)
    NeStrict,
    /// Ne (arithmetic, `a != b`)
    NeArithmetic,
    /// Less than
    Less,
    /// Greater than
    Greater,
    /// Less than or equal
    LessEq,
    /// Greater than or equal
    GreaterEq,
    /// Shift left
    ShiftLeft,
    /// Shift right
    ShiftRight,
}

/// Verilog symbol of a binary operator.
pub open spec fn binary_op_symbol(op: BinaryOp) -> Seq<char> {
    match op {
        BinaryOp::Add => "+"@,
        BinaryOp::Sub => "-"@,
        BinaryOp::Mul => "*"@,
        BinaryOp::Div => "/"@,
        BinaryOp::Mod => "%"@,
        BinaryOp::Or => "|"@,
        BinaryOp::And => "&"@,
        BinaryOp::Xor => "^"@,
        BinaryOp::Eq => "~^"@,
        BinaryOp::EqArithmetic => "=="@,
        BinaryOp::Less => "<"@,
        BinaryOp::Greater => ">"@,
        BinaryOp::LessEq => "<="@,
        BinaryOp::GreaterEq => ">="@,
        BinaryOp::ShiftLeft => "<<"@,
        BinaryOp::ShiftRight => ">>>"@,
        BinaryOp::NeArithmetic => "!="@,
        BinaryOp::NeStrict => "!=="@,
    }
}

impl BinaryOp {
    /// Verilog symbol of the operator.
    pub fn to_string(&self) -> (r: String)
        ensures
            r@ == binary_op_symbol(*self),
    {
        let s = match self {
            BinaryOp::Add => "+",
            BinaryOp::Sub => "-",
            BinaryOp::Mul => "*",
            BinaryOp::Div => "/",
            BinaryOp::Mod => "%",
            BinaryOp::Or => "|",
            BinaryOp::And => "&",
            BinaryOp::Xor => "^",
            BinaryOp::Eq => "~^",
            BinaryOp::EqArithmetic => "==",
            BinaryOp::Less => "<",
            BinaryOp::Greater => ">",
            BinaryOp::LessEq => "<=",
            BinaryOp::GreaterEq => ">=",
            BinaryOp::ShiftLeft => "<<",
            BinaryOp::ShiftRight => ">>>",
            BinaryOp::NeArithmetic => "!=",
            BinaryOp::NeStrict => "!==",
        };
        String::from_str(s)
    }
}

} // verus!

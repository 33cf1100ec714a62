//! The tree-walking path's syntax trees, and the ghost mirrors of runtime
//! values that the contracts speak of.
use vstd::prelude::*;
use std::rc::Rc;
use crate::location::SourceLocation;
use crate::token::{Literal, TokenType};

verus! {

/// An expression. Every form carries the location of the token it began at;
/// binary and unary forms carry their operator's token kind.
#[derive(Debug, PartialEq)]
pub enum Expr {
    Binary { location: SourceLocation, left: Box<Expr>, operator: TokenType, right: Box<Expr> },
    Unary { location: SourceLocation, operator: TokenType, right: Box<Expr> },
    Call { location: SourceLocation, callee: Box<Expr>, arguments: Vec<Expr> },
    Literal { location: SourceLocation, value: Literal },
    Variable { location: SourceLocation, name: String },
    Assignment { location: SourceLocation, name: String, value: Box<Expr> },
}

impl Expr {
    /// The location the expression carries.
    pub fn location(&self) -> (r: SourceLocation)
        ensures
            r == spec_expr_location(*self),
    {
        match self {
            Expr::Binary { location, .. } => *location,
            Expr::Unary { location, .. } => *location,
            Expr::Call { location, .. } => *location,
            Expr::Literal { location, .. } => *location,
            Expr::Variable { location, .. } => *location,
            Expr::Assignment { location, .. } => *location,
        }
    }
}

/// The location an expression carries.
pub open spec fn spec_expr_location(e: Expr) -> SourceLocation {
    match e {
        Expr::Binary { location, .. } => location,
        Expr::Unary { location, .. } => location,
        Expr::Call { location, .. } => location,
        Expr::Literal { location, .. } => location,
        Expr::Variable { location, .. } => location,
        Expr::Assignment { location, .. } => location,
    }
}

/// A statement. Blocks own their statements in order; a function declaration
/// shares its body by reference so every closure made from it reuses one tree.
#[derive(Debug, PartialEq)]
pub enum Stmt {
    Expression(Expr),
    Print(Expr),
    VarDecl { name: String, location: SourceLocation, initializer: Option<Expr> },
    If { condition: Expr, then_branch: Box<Stmt>, else_branch: Option<Box<Stmt>> },
    While { condition: Expr, body: Box<Stmt> },
    Block(Vec<Stmt>),
    FunDecl { name: String, params: Vec<String>, body: Rc<Stmt> },
    Return(Expr),
}

/// Relies on std's `Rc::clone`: the clone is the same shared value.
#[verifier::external_body]
pub fn share_body(r: &Rc<Stmt>) -> (c: Rc<Stmt>)
    ensures
        c == *r,
{
    r.clone()
}

/// The ghost mirror of a runtime value: text as character sequences, numbers
/// as their encodings, and function values by their parameter names, shared
/// body and captured frame.
pub enum ValueM {
    VFun { params: Seq<Seq<char>>, body: Stmt, closure: nat },
    VStr(Seq<char>),
    VNum(u64),
    VTrue,
    VFalse,
    VNil,
}

/// What a literal or runtime value stands for.
pub open spec fn lit_view(l: Literal) -> ValueM {
    match l {
        Literal::Function { params, body, closure } => ValueM::VFun {
            params: params.deep_view(),
            body: *body,
            closure: closure as nat,
        },
        Literal::String(s) => ValueM::VStr(s@),
        Literal::Number(b) => ValueM::VNum(b),
        Literal::True => ValueM::VTrue,
        Literal::False => ValueM::VFalse,
        Literal::Nil => ValueM::VNil,
    }
}

/// What an optional binding stands for.
pub open spec fn lit_opt_view(l: Option<Literal>) -> Option<ValueM> {
    match l {
        Some(v) => Some(lit_view(v)),
        None => None,
    }
}

/// How a value prints: strings as themselves, numbers per the number module,
/// and function values as the word `function`.
pub open spec fn spec_display(v: ValueM) -> Seq<char> {
    match v {
        ValueM::VFun { .. } => "function"@,
        ValueM::VStr(s) => s,
        ValueM::VNum(b) => crate::number::spec_num_str(b),
        ValueM::VTrue => "true"@,
        ValueM::VFalse => "false"@,
        ValueM::VNil => "nil"@,
    }
}

/// Prints a value as the language prints it.
pub fn display_value(l: &Literal) -> (r: String)
    ensures
        r@ == spec_display(lit_view(*l)),
{
    match l {
        Literal::Function { .. } => <String as vstd::string::StringExecFns>::from_str("function"),
        Literal::String(s) => s.clone(),
        Literal::Number(b) => crate::number::num_str_bits(*b),
        Literal::True => <String as vstd::string::StringExecFns>::from_str("true"),
        Literal::False => <String as vstd::string::StringExecFns>::from_str("false"),
        Literal::Nil => <String as vstd::string::StringExecFns>::from_str("nil"),
    }
}

/// Language equality: values of different kinds are unequal, numbers compare
/// by IEEE equality (a NaN equals nothing), text compares by characters, and
/// a function value equals nothing.
pub open spec fn spec_lox_eq(a: ValueM, b: ValueM) -> bool {
    match (a, b) {
        (ValueM::VFun { .. }, _) => false,
        (_, ValueM::VFun { .. }) => false,
        (ValueM::VStr(x), ValueM::VStr(y)) => x == y,
        (ValueM::VNum(x), ValueM::VNum(y)) => crate::number::f64_cmp(x, y)
            == crate::number::NumCmp::Equal,
        (ValueM::VTrue, ValueM::VTrue) => true,
        (ValueM::VFalse, ValueM::VFalse) => true,
        (ValueM::VNil, ValueM::VNil) => true,
        _ => false,
    }
}

/// Decides language equality of two values.
pub fn lox_eq(a: &Literal, b: &Literal) -> (r: bool)
    ensures
        r == spec_lox_eq(lit_view(*a), lit_view(*b)),
{
    match (a, b) {
        (Literal::Function { .. }, _) => false,
        (_, Literal::Function { .. }) => false,
        (Literal::String(x), Literal::String(y)) => crate::text::str_eq(x.as_str(), y.as_str()),
        (Literal::Number(x), Literal::Number(y)) => matches!(
            crate::number::cmp_bits(*x, *y),
            crate::number::NumCmp::Equal
        ),
        (Literal::True, Literal::True) => true,
        (Literal::False, Literal::False) => true,
        (Literal::Nil, Literal::Nil) => true,
        _ => false,
    }
}

} // verus!

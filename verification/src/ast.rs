//! The abstract syntax tree the parser produces and the generator consumes.

use vstd::prelude::*;
use crate::numeric::NumLit;

verus! {

/// An optional shape annotation on a variable declaration: `<2,3>` gives
/// `shape == [2, 3]`; an absent annotation gives an empty shape.
#[derive(Debug, Clone)]
pub struct VarType {
    pub shape: Vec<usize>,
}

impl VarType {
    pub fn new() -> (r: Self)
        ensures
            r.shape@ == Seq::<usize>::empty(),
    {
        Self { shape: Vec::new() }
    }
}

impl Default for VarType {
    fn default() -> (r: Self)
        ensures
            r.shape@ == Seq::<usize>::empty(),
    {
        Self::new()
    }
}

/// A source position; the lexer does not track rows yet, so positions carry
/// the placeholder values they were created with.
#[derive(Debug, Clone)]
pub struct Location {
    pub filename: String,
    pub row: usize,
    pub col: usize,
}

impl Location {
    pub fn new(filename: &str, row: usize, col: usize) -> (r: Location)
        ensures
            r.filename@ == filename@,
            r.row == row,
            r.col == col,
    {
        Location { filename: filename.to_owned(), row, col }
    }
}

/// An expression node.  Every node owns its children outright: the tree is
/// strict, with no sharing and no cycles.
#[derive(Debug)]
pub enum Expr {
    /// A numeric literal.
    Number(NumLit),
    /// A reference to a variable by name.
    Variable(String),
    /// `var name <shape>? = value`: declares (or overwrites) a binding.
    VarDecl { name: String, var_type: VarType, value: Box<Expr> },
    /// A nested literal array; `dims` records this level's element count.
    Tensor { location: Location, values: Vec<Expr>, dims: Vec<usize> },
    /// A binary operation between two expressions.
    Binary { op: char, left: Box<Expr>, right: Box<Expr> },
    /// A call; `transpose` and `print` are ordinary call targets here and
    /// are recognized by name only during generation.
    Call { fn_name: String, args: Vec<Expr> },
    /// `return;` or `return expr;`
    Return { location: Location, expression: Option<Box<Expr>> },
    /// A function body: a sequence of statements.
    ExprList { expressions: Vec<Expr> },
}

/// A function's name and signature as written in the source.
#[derive(Debug, Clone)]
pub struct Prototype {
    pub name: String,
    pub args: Vec<String>,
    /// True for `def binary<op>` / `def unary<op>` custom operators.
    pub is_op: bool,
    /// The declared precedence of a custom binary operator, else 0.
    pub prec: usize,
    pub location: Location,
}

/// A function definition; a function without a body is declared only.
#[derive(Debug)]
pub struct Function {
    pub prototype: Prototype,
    pub body: Option<Expr>,
}

/// A parsed compilation unit.  The order of `functions` is the order the
/// source declared them in, and the generator emits them in that order.
#[derive(Debug)]
pub struct Module {
    pub functions: Vec<Function>,
}

} // verus!

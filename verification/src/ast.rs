//! The syntax tree: operators, expressions, statements and programs, each
//! with its mathematical view, and the prefix notation that renders an
//! expression as text.

use vstd::prelude::*;
use vstd::string::StringExecFns;

use crate::number::{is_number, is_number_text};

verus! {

/// A whole program: its statements in the order in which they run.
#[derive(Debug, PartialEq)]
pub struct AST {
    pub top: Vec<Stmt>,
}

/// The operators of the language.
#[derive(Debug, PartialEq, Eq, Structural, Clone, Copy)]
pub enum Operator {
    OAdd,
    OSub,
    OMul,
    ODiv,
    OLt,
    OLe,
    OGt,
    OGe,
    OEq,
    ONe,
    ONot,
    OAnd,
    OOr,
}

/// An expression. Each node owns its children. A number keeps the text it
/// was written with: it becomes a number only when it is evaluated.
#[derive(Debug, PartialEq)]
#[allow(inconsistent_fields)]
pub enum Expr {
    ENumber { value: String },
    EString { value: String },
    EBool { value: bool },
    ENil,
    EBinary { left: Box<Expr>, op: Operator, right: Box<Expr> },
    EUnary { op: Operator, right: Box<Expr> },
    EGrouping { expr: Box<Expr> },
    EVariable { name: String },
    EAssign { name: String, value: Box<Expr> },
}

/// A statement.
#[derive(Debug, PartialEq)]
pub enum Stmt {
    SPrint { expr: Expr },
    SExpression { expr: Expr },
    SVarDecl { name: String, initializer: Option<Expr> },
}

/// The mathematical value of an [`Expr`]: the same tree over sequences of
/// characters.
pub enum ExprView {
    Number(Seq<char>),
    Text(Seq<char>),
    Bool(bool),
    Nil,
    Binary(Box<ExprView>, Operator, Box<ExprView>),
    Unary(Operator, Box<ExprView>),
    Grouping(Box<ExprView>),
    Variable(Seq<char>),
    Assign(Seq<char>, Box<ExprView>),
}

/// The mathematical value of a [`Stmt`].
pub enum StmtView {
    Print(ExprView),
    Expression(ExprView),
    VarDecl(Seq<char>, Option<ExprView>),
}

/// The view of an expression, by recursion on the tree.
pub open spec fn expr_view(e: Expr) -> ExprView
    decreases e,
{
    match e {
        Expr::ENumber { value } => ExprView::Number(value@),
        Expr::EString { value } => ExprView::Text(value@),
        Expr::EBool { value } => ExprView::Bool(value),
        Expr::ENil => ExprView::Nil,
        Expr::EBinary { left, op, right } => ExprView::Binary(
            Box::new(expr_view(*left)),
            op,
            Box::new(expr_view(*right)),
        ),
        Expr::EUnary { op, right } => ExprView::Unary(op, Box::new(expr_view(*right))),
        Expr::EGrouping { expr } => ExprView::Grouping(Box::new(expr_view(*expr))),
        Expr::EVariable { name } => ExprView::Variable(name@),
        Expr::EAssign { name, value } => ExprView::Assign(name@, Box::new(expr_view(*value))),
    }
}

/// The view of a statement.
pub open spec fn stmt_view(s: Stmt) -> StmtView {
    match s {
        Stmt::SPrint { expr } => StmtView::Print(expr_view(expr)),
        Stmt::SExpression { expr } => StmtView::Expression(expr_view(expr)),
        Stmt::SVarDecl { name, initializer } => StmtView::VarDecl(
            name@,
            match initializer {
                Some(e) => Some(expr_view(e)),
                None => None,
            },
        ),
    }
}

impl View for Expr {
    type V = ExprView;

    open spec fn view(&self) -> ExprView {
        expr_view(*self)
    }
}

impl View for Stmt {
    type V = StmtView;

    open spec fn view(&self) -> StmtView {
        stmt_view(*self)
    }
}

/// The views of a list of statements.
pub open spec fn stmt_views(statements: Seq<Stmt>) -> Seq<StmtView> {
    statements.map_values(|s: Stmt| stmt_view(s))
}

impl View for AST {
    type V = Seq<StmtView>;

    open spec fn view(&self) -> Seq<StmtView> {
        stmt_views(self.top@)
    }
}

/// Every number literal in the expression has a text that stands for a
/// number.
pub open spec fn literals_ok(e: ExprView) -> bool
    decreases e,
{
    match e {
        ExprView::Number(text) => is_number_text(text),
        ExprView::Binary(left, _, right) => literals_ok(*left) && literals_ok(*right),
        ExprView::Unary(_, right) => literals_ok(*right),
        ExprView::Grouping(inner) => literals_ok(*inner),
        ExprView::Assign(_, value) => literals_ok(*value),
        _ => true,
    }
}

/// Every number literal in the statement has a text that stands for a
/// number.
pub open spec fn stmt_ok(s: StmtView) -> bool {
    match s {
        StmtView::Print(e) => literals_ok(e),
        StmtView::Expression(e) => literals_ok(e),
        StmtView::VarDecl(_, Some(e)) => literals_ok(e),
        StmtView::VarDecl(_, None) => true,
    }
}

/// Every number literal in the program has a text that stands for a number.
pub open spec fn program_ok(stmts: Seq<StmtView>) -> bool {
    forall|i: int| 0 <= i < stmts.len() ==> stmt_ok(#[trigger] stmts[i])
}

impl Expr {
    /// Whether every number literal in the expression has a text that
    /// stands for a number, as evaluation needs it.
    pub fn is_well_formed(&self) -> (r: bool)
        ensures
            r == literals_ok(self@),
        decreases self,
    {
        match self {
            Expr::ENumber { value } => is_number(value.as_str()),
            Expr::EBinary { left, op: _, right } => left.is_well_formed() && right.is_well_formed(),
            Expr::EUnary { op: _, right } => right.is_well_formed(),
            Expr::EGrouping { expr } => expr.is_well_formed(),
            Expr::EAssign { name: _, value } => value.is_well_formed(),
            _ => true,
        }
    }
}

impl Stmt {
    /// Whether every number literal in the statement has a text that
    /// stands for a number.
    pub fn is_well_formed(&self) -> (r: bool)
        ensures
            r == stmt_ok(self@),
    {
        match self {
            Stmt::SPrint { expr } => expr.is_well_formed(),
            Stmt::SExpression { expr } => expr.is_well_formed(),
            Stmt::SVarDecl { name: _, initializer } => match initializer {
                Some(e) => e.is_well_formed(),
                None => true,
            },
        }
    }
}

impl AST {
    /// Whether every number literal in the program has a text that stands
    /// for a number.
    pub fn is_well_formed(&self) -> (r: bool)
        ensures
            r == program_ok(self@),
    {
        let mut i: usize = 0;
        while i < self.top.len()
            invariant
                i <= self.top.len(),
                forall|j: int| 0 <= j < i ==> stmt_ok(#[trigger] self@[j]),
            decreases self.top.len() - i,
        {
            if !self.top[i].is_well_formed() {
                assert(!stmt_ok(self@[i as int]));
                return false;
            }
            i += 1;
        }
        true
    }
}

impl Operator {
    /// The operator as it is written in source text.
    pub open spec fn symbol(self) -> Seq<char> {
        match self {
            Operator::OAdd => "+"@,
            Operator::OSub => "-"@,
            Operator::OMul => "*"@,
            Operator::ODiv => "/"@,
            Operator::OLt => "<"@,
            Operator::OLe => "<="@,
            Operator::OGt => ">"@,
            Operator::OGe => ">="@,
            Operator::OEq => "=="@,
            Operator::ONe => "!="@,
            Operator::ONot => "!"@,
            Operator::OAnd => "&&"@,
            Operator::OOr => "||"@,
        }
    }

    /// The operator as text, for messages.
    pub fn to_string(&self) -> (r: String)
        ensures
            r@ == self.symbol(),
    {
        String::from_str(
            match self {
                Operator::OAdd => "+",
                Operator::OSub => "-",
                Operator::OMul => "*",
                Operator::ODiv => "/",
                Operator::OLt => "<",
                Operator::OLe => "<=",
                Operator::OGt => ">",
                Operator::OGe => ">=",
                Operator::OEq => "==",
                Operator::ONe => "!=",
                Operator::ONot => "!",
                Operator::OAnd => "&&",
                Operator::OOr => "||",
            },
        )
    }
}

impl Expr {
    /// A number literal with the given text.
    pub fn number(value: &str) -> (e: Expr)
        ensures
            e@ == ExprView::Number(value@),
    {
        Expr::ENumber { value: String::from_str(value) }
    }

    /// A string literal with the given contents.
    pub fn string(value: &str) -> (e: Expr)
        ensures
            e@ == ExprView::Text(value@),
    {
        Expr::EString { value: String::from_str(value) }
    }

    /// A boolean literal.
    pub fn bool(value: bool) -> (e: Expr)
        ensures
            e@ == ExprView::Bool(value),
    {
        Expr::EBool { value }
    }

    /// The literal `nil`.
    pub fn nil() -> (e: Expr)
        ensures
            e@ == ExprView::Nil,
    {
        Expr::ENil
    }

    /// A binary operation on two expressions.
    pub fn binary(left: Expr, op: Operator, right: Expr) -> (e: Expr)
        ensures
            e@ == ExprView::Binary(Box::new(left@), op, Box::new(right@)),
    {
        Expr::EBinary { left: Box::new(left), op, right: Box::new(right) }
    }

    /// A unary operation on an expression.
    pub fn unary(op: Operator, right: Expr) -> (e: Expr)
        ensures
            e@ == ExprView::Unary(op, Box::new(right@)),
    {
        Expr::EUnary { op, right: Box::new(right) }
    }

    /// An expression in parentheses.
    pub fn grouping(expr: Expr) -> (e: Expr)
        ensures
            e@ == ExprView::Grouping(Box::new(expr@)),
    {
        Expr::EGrouping { expr: Box::new(expr) }
    }

    /// A reference to the variable `name`.
    pub fn variable(name: &str) -> (e: Expr)
        ensures
            e@ == ExprView::Variable(name@),
    {
        Expr::EVariable { name: String::from_str(name) }
    }

    /// An assignment of `value` to the variable `name`.
    pub fn assign(name: &str, value: Expr) -> (e: Expr)
        ensures
            e@ == ExprView::Assign(name@, Box::new(value@)),
    {
        Expr::EAssign { name: String::from_str(name), value: Box::new(value) }
    }
}

impl Stmt {
    /// A statement that prints the value of `expr`.
    pub fn print(expr: Expr) -> (s: Stmt)
        ensures
            s@ == StmtView::Print(expr@),
    {
        Stmt::SPrint { expr }
    }

    /// A statement that evaluates `expr` and drops its value.
    pub fn expression(expr: Expr) -> (s: Stmt)
        ensures
            s@ == StmtView::Expression(expr@),
    {
        Stmt::SExpression { expr }
    }

    /// A declaration of the variable `name`, with or without an initializer.
    pub fn vardecl(name: &str, initializer: Option<Expr>) -> (s: Stmt)
        ensures
            s@ == StmtView::VarDecl(
                name@,
                match initializer {
                    Some(e) => Some(e@),
                    None => None,
                },
            ),
    {
        Stmt::SVarDecl { name: String::from_str(name), initializer }
    }
}

/// The name under which the prefix notation writes an operator. Most
/// operators keep their symbol; `<=` is written `>`, as `>` is, and the
/// logical operators are written `and` and `or`.
pub open spec fn op_text(o: Operator) -> Seq<char> {
    match o {
        Operator::OAdd => "+"@,
        Operator::OSub => "-"@,
        Operator::OMul => "*"@,
        Operator::ODiv => "/"@,
        Operator::OLt => "<"@,
        Operator::OLe => ">"@,
        Operator::OGt => ">"@,
        Operator::OGe => ">="@,
        Operator::OEq => "=="@,
        Operator::ONe => "!="@,
        Operator::OAnd => "and"@,
        Operator::OOr => "or"@,
        Operator::ONot => "!"@,
    }
}

/// The prefix notation of an expression: literals as written (strings and
/// names between double quotes), `(op left right)` for a binary operation,
/// `(op right)` without a space for a unary one, `group (..)` for
/// parentheses and `(= name value)` for an assignment.
pub open spec fn expr_text(e: ExprView) -> Seq<char>
    decreases e,
{
    match e {
        ExprView::Number(value) => value,
        ExprView::Text(value) => "\""@ + value + "\""@,
        ExprView::Bool(value) => if value {
            "true"@
        } else {
            "false"@
        },
        ExprView::Nil => "nil"@,
        ExprView::Variable(name) => "\""@ + name + "\""@,
        ExprView::Binary(left, op, right) => "("@ + op_text(op) + " "@ + expr_text(*left) + " "@
            + expr_text(*right) + ")"@,
        ExprView::Unary(op, right) => "("@ + op_text(op) + expr_text(*right) + ")"@,
        ExprView::Grouping(inner) => "group ("@ + expr_text(*inner) + ")"@,
        ExprView::Assign(name, value) => "(= \""@ + name + "\" "@ + expr_text(*value) + ")"@,
    }
}

/// The name of an operator in the prefix notation.
pub fn format_op(o: &Operator) -> (r: &'static str)
    ensures
        r@ == op_text(*o),
{
    match o {
        Operator::OAdd => "+",
        Operator::OSub => "-",
        Operator::OMul => "*",
        Operator::ODiv => "/",
        Operator::OLt => "<",
        Operator::OLe => ">",
        Operator::OGt => ">",
        Operator::OGe => ">=",
        Operator::OEq => "==",
        Operator::ONe => "!=",
        Operator::OAnd => "and",
        Operator::OOr => "or",
        Operator::ONot => "!",
    }
}

/// Writes an expression in prefix notation.
pub fn format_expr(e: &Expr) -> (r: String)
    ensures
        r@ == expr_text(e@),
    decreases e,
{
    match e {
        Expr::ENumber { value } => value.clone(),
        Expr::EString { value } => {
            let mut r = String::from_str("\"");
            r.append(value.as_str());
            r.append("\"");
            r
        },
        Expr::EBool { value } => {
            if *value {
                String::from_str("true")
            } else {
                String::from_str("false")
            }
        },
        Expr::ENil => String::from_str("nil"),
        Expr::EVariable { name } => {
            let mut r = String::from_str("\"");
            r.append(name.as_str());
            r.append("\"");
            r
        },
        Expr::EBinary { left, op, right } => {
            let l = format_expr(left);
            let rt = format_expr(right);
            let mut r = String::from_str("(");
            r.append(format_op(op));
            r.append(" ");
            r.append(l.as_str());
            r.append(" ");
            r.append(rt.as_str());
            r.append(")");
            r
        },
        Expr::EUnary { op, right } => {
            let rt = format_expr(right);
            let mut r = String::from_str("(");
            r.append(format_op(op));
            r.append(rt.as_str());
            r.append(")");
            r
        },
        Expr::EGrouping { expr } => {
            let inner = format_expr(expr);
            let mut r = String::from_str("group (");
            r.append(inner.as_str());
            r.append(")");
            r
        },
        Expr::EAssign { name, value } => {
            let v = format_expr(value);
            let mut r = String::from_str("(= \"");
            r.append(name.as_str());
            r.append("\" ");
            r.append(v.as_str());
            r.append(")");
            r
        },
    }
}

} // verus!

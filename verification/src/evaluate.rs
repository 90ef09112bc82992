//! The evaluator: runtime values, the meaning of expressions and statements
//! as mathematical functions, and the tree walk that computes them.
//!
//! The meaning of a program depends on three services on numbers (see
//! [`crate::number`]). The contracts here hold for every [`NumberModel`] that
//! describes the services in use: whatever reading, arithmetic and writing of
//! numbers the caller supplies, the evaluator computes exactly the function
//! [`eval_expr`] or [`exec_stmts`] built on them.

use vstd::prelude::*;
use vstd::string::StringExecFns;

use crate::ast::{
    literals_ok, program_ok, stmt_ok, stmt_views, Expr, ExprView, Operator, Stmt, StmtView, AST,
};
use crate::environ::{
    chain_assign, chain_declare, chain_lookup, lemma_assign_succeeds_where_found,
    lemma_assign_then_lookup, same_names, Chain, Environment,
};
use crate::number::{
    is_arithmetic, is_nan, is_zero, negated, number_eq, number_equal, number_is_zero, number_le,
    number_less, number_less_equal, number_lt, number_negate, NumberModel, Numbers,
};

verus! {

/// A runtime value. A number is held as the bits of a double.
///
/// The derived `==` compares numbers bit by bit; the language's own
/// equality, which follows the doubles, is [`LoxValue::equals`].
#[derive(Debug, PartialEq)]
pub enum LoxValue {
    LNil,
    LBoolean(bool),
    LNumber(u64),
    LString(String),
}

/// What a successful run of a program returns: nothing. What it printed is
/// collected line by line, and its bindings stay in the environment.
pub type Output = ();

/// The errors of evaluation.
#[derive(Debug, PartialEq)]
pub enum Error {
    ZeroDivision,
    UnsupportedBinOp(LoxValue, Operator, LoxValue),
    UnsupportedUnaryOp(Operator, LoxValue),
    UndefinedVariable(String),
}

/// The mathematical value of a [`LoxValue`].
pub enum ValueView {
    Nil,
    Boolean(bool),
    Number(u64),
    Text(Seq<char>),
}

/// The mathematical value of an [`Error`].
pub enum ErrorView {
    ZeroDivision,
    UnsupportedBinOp(ValueView, Operator, ValueView),
    UnsupportedUnaryOp(Operator, ValueView),
    UndefinedVariable(Seq<char>),
}

impl View for LoxValue {
    type V = ValueView;

    open spec fn view(&self) -> ValueView {
        match self {
            LoxValue::LNil => ValueView::Nil,
            LoxValue::LBoolean(b) => ValueView::Boolean(*b),
            LoxValue::LNumber(x) => ValueView::Number(*x),
            LoxValue::LString(s) => ValueView::Text(s@),
        }
    }
}

impl View for Error {
    type V = ErrorView;

    open spec fn view(&self) -> ErrorView {
        match self {
            Error::ZeroDivision => ErrorView::ZeroDivision,
            Error::UnsupportedBinOp(l, op, r) => ErrorView::UnsupportedBinOp(l@, *op, r@),
            Error::UnsupportedUnaryOp(op, v) => ErrorView::UnsupportedUnaryOp(*op, v@),
            Error::UndefinedVariable(name) => ErrorView::UndefinedVariable(name@),
        }
    }
}

/// The view of the result of evaluating an expression.
pub open spec fn value_result(r: Result<LoxValue, Error>) -> Result<ValueView, ErrorView> {
    match r {
        Ok(v) => Ok(v@),
        Err(e) => Err(e@),
    }
}

/// The view of the result of running statements.
pub open spec fn unit_result(r: Result<(), Error>) -> Result<(), ErrorView> {
    match r {
        Ok(_) => Ok(()),
        Err(e) => Err(e@),
    }
}

/// Truthiness: `nil` and `false` are falsy, every other value is truthy.
pub open spec fn truthy(v: ValueView) -> bool {
    match v {
        ValueView::Nil => false,
        ValueView::Boolean(b) => b,
        _ => true,
    }
}

/// Equality of values: values of different kinds are never equal, numbers
/// are equal as doubles are, booleans and strings where they are the same.
pub open spec fn value_eq(a: ValueView, b: ValueView) -> bool {
    match (a, b) {
        (ValueView::Nil, ValueView::Nil) => true,
        (ValueView::Boolean(x), ValueView::Boolean(y)) => x == y,
        (ValueView::Number(x), ValueView::Number(y)) => number_eq(x, y),
        (ValueView::Text(x), ValueView::Text(y)) => x == y,
        _ => false,
    }
}

/// The text that printing a value gives.
pub open spec fn value_text(m: NumberModel, v: ValueView) -> Seq<char> {
    match v {
        ValueView::Nil => "nil"@,
        ValueView::Boolean(b) => if b {
            "true"@
        } else {
            "false"@
        },
        ValueView::Number(x) => (m.show)(x),
        ValueView::Text(s) => s,
    }
}

/// A binary operator applied to two values.
///
/// `+ - * /` and the four orderings take two numbers; `/` by a zero is
/// `ZeroDivision`. `+` also joins two strings. `==` and `!=` take any two
/// values. Everything else is `UnsupportedBinOp`, the logical operators
/// included.
pub open spec fn binary_value(m: NumberModel, l: ValueView, op: Operator, r: ValueView) -> Result<
    ValueView,
    ErrorView,
> {
    match op {
        Operator::OEq => Ok(ValueView::Boolean(value_eq(l, r))),
        Operator::ONe => Ok(ValueView::Boolean(!value_eq(l, r))),
        Operator::OAnd | Operator::OOr | Operator::ONot => Err(
            ErrorView::UnsupportedBinOp(l, op, r),
        ),
        _ => match (l, r) {
            (ValueView::Number(x), ValueView::Number(y)) => match op {
                Operator::ODiv => if is_zero(y) {
                    Err(ErrorView::ZeroDivision)
                } else {
                    Ok(ValueView::Number((m.arith)(op, x, y)))
                },
                Operator::OLt => Ok(ValueView::Boolean(number_lt(x, y))),
                Operator::OLe => Ok(ValueView::Boolean(number_le(x, y))),
                Operator::OGt => Ok(ValueView::Boolean(number_lt(y, x))),
                Operator::OGe => Ok(ValueView::Boolean(number_le(y, x))),
                _ => Ok(ValueView::Number((m.arith)(op, x, y))),
            },
            (ValueView::Text(x), ValueView::Text(y)) => if op is OAdd {
                Ok(ValueView::Text(x + y))
            } else {
                Err(ErrorView::UnsupportedBinOp(l, op, r))
            },
            _ => Err(ErrorView::UnsupportedBinOp(l, op, r)),
        },
    }
}

/// A unary operator applied to a value: `-` takes a number, `!` takes any
/// value and gives the opposite of its truthiness.
pub open spec fn unary_value(op: Operator, v: ValueView) -> Result<ValueView, ErrorView> {
    match op {
        Operator::ONot => Ok(ValueView::Boolean(!truthy(v))),
        Operator::OSub => match v {
            ValueView::Number(x) => Ok(ValueView::Number(negated(x))),
            _ => Err(ErrorView::UnsupportedUnaryOp(op, v)),
        },
        _ => Err(ErrorView::UnsupportedUnaryOp(op, v)),
    }
}

/// The value of an expression and the environment that its evaluation
/// leaves. Both operands of a binary operation are evaluated, the left one
/// first; the first error ends the evaluation.
pub open spec fn eval_expr(m: NumberModel, e: ExprView, env: Chain<ValueView>) -> (
    Result<ValueView, ErrorView>,
    Chain<ValueView>,
)
    decreases e,
{
    match e {
        ExprView::Number(text) => (Ok(ValueView::Number((m.parse)(text))), env),
        ExprView::Text(s) => (Ok(ValueView::Text(s)), env),
        ExprView::Bool(b) => (Ok(ValueView::Boolean(b)), env),
        ExprView::Nil => (Ok(ValueView::Nil), env),
        ExprView::Variable(name) => match chain_lookup(env, name) {
            Some(v) => (Ok(v), env),
            None => (Err(ErrorView::UndefinedVariable(name)), env),
        },
        ExprView::Binary(left, op, right) => {
            let (l, env1) = eval_expr(m, *left, env);
            match l {
                Err(err) => (Err(err), env1),
                Ok(lv) => {
                    let (r, env2) = eval_expr(m, *right, env1);
                    match r {
                        Err(err) => (Err(err), env2),
                        Ok(rv) => (binary_value(m, lv, op, rv), env2),
                    }
                },
            }
        },
        ExprView::Unary(op, right) => {
            let (r, env1) = eval_expr(m, *right, env);
            match r {
                Err(err) => (Err(err), env1),
                Ok(v) => (unary_value(op, v), env1),
            }
        },
        ExprView::Grouping(inner) => eval_expr(m, *inner, env),
        ExprView::Assign(name, value) => {
            let (r, env1) = eval_expr(m, *value, env);
            match r {
                Err(err) => (Err(err), env1),
                Ok(v) => match chain_assign(env1, name, v) {
                    Some(env2) => (Ok(v), env2),
                    None => (Err(ErrorView::UndefinedVariable(name)), env1),
                },
            }
        },
    }
}

/// What a run has changed so far: the environment and the lines printed.
pub struct Effects {
    pub env: Chain<ValueView>,
    pub printed: Seq<Seq<char>>,
}

/// One statement: its result and what the run has changed after it.
pub open spec fn exec_stmt(m: NumberModel, s: StmtView, before: Effects) -> (
    Result<(), ErrorView>,
    Effects,
) {
    match s {
        StmtView::Print(e) => {
            let (r, env) = eval_expr(m, e, before.env);
            match r {
                Err(err) => (Err(err), Effects { env, printed: before.printed }),
                Ok(v) => (Ok(()), Effects { env, printed: before.printed.push(value_text(m, v)) }),
            }
        },
        StmtView::Expression(e) => {
            let (r, env) = eval_expr(m, e, before.env);
            match r {
                Err(err) => (Err(err), Effects { env, printed: before.printed }),
                Ok(_) => (Ok(()), Effects { env, printed: before.printed }),
            }
        },
        StmtView::VarDecl(name, None) => (
            Ok(()),
            Effects {
                env: chain_declare(before.env, name, ValueView::Nil),
                printed: before.printed,
            },
        ),
        StmtView::VarDecl(name, Some(e)) => {
            let (r, env) = eval_expr(m, e, before.env);
            match r {
                Err(err) => (Err(err), Effects { env, printed: before.printed }),
                Ok(v) => (
                    Ok(()),
                    Effects { env: chain_declare(env, name, v), printed: before.printed },
                ),
            }
        },
    }
}

/// The statements from index `from` on, in order. The first error ends the
/// run; what was declared, assigned and printed before it stands.
pub open spec fn exec_stmts(m: NumberModel, stmts: Seq<StmtView>, from: int, before: Effects) -> (
    Result<(), ErrorView>,
    Effects,
)
    decreases stmts.len() - from,
{
    if from < 0 || from >= stmts.len() {
        (Ok(()), before)
    } else {
        let (r, after) = exec_stmt(m, stmts[from], before);
        match r {
            Err(err) => (Err(err), after),
            Ok(_) => exec_stmts(m, stmts, from + 1, after),
        }
    }
}

// ----------------------------------------------------------------------
// Laws of evaluation
// ----------------------------------------------------------------------

/// The kind of a value.
pub open spec fn same_kind(a: ValueView, b: ValueView) -> bool {
    ||| a is Nil && b is Nil
    ||| a is Boolean && b is Boolean
    ||| a is Number && b is Number
    ||| a is Text && b is Text
}

/// `==` and `!=` take any two values and never fail; each is the opposite
/// of the other.
pub proof fn lemma_equality_never_fails(m: NumberModel, l: ValueView, r: ValueView)
    ensures
        binary_value(m, l, Operator::OEq, r) == Ok::<ValueView, ErrorView>(
            ValueView::Boolean(value_eq(l, r)),
        ),
        binary_value(m, l, Operator::ONe, r) == Ok::<ValueView, ErrorView>(
            ValueView::Boolean(!value_eq(l, r)),
        ),
{
}

/// Values of different kinds are never equal.
pub proof fn lemma_kinds_differ(l: ValueView, r: ValueView)
    requires
        !same_kind(l, r),
    ensures
        !value_eq(l, r),
{
}

/// Equality of values is symmetric, and reflexive on every value but a NaN.
pub proof fn lemma_equality_symmetric(l: ValueView, r: ValueView)
    ensures
        value_eq(l, r) == value_eq(r, l),
        !(l matches ValueView::Number(x) && is_nan(x)) ==> value_eq(l, l),
{
}

/// `!` takes any value and never fails.
pub proof fn lemma_not_never_fails(v: ValueView)
    ensures
        unary_value(Operator::ONot, v) == Ok::<ValueView, ErrorView>(
            ValueView::Boolean(!truthy(v)),
        ),
{
}

/// Dividing a number by a zero of either sign is `ZeroDivision`, whatever
/// the dividend.
pub proof fn lemma_zero_division(m: NumberModel, x: u64, y: u64)
    requires
        is_zero(y),
    ensures
        binary_value(m, ValueView::Number(x), Operator::ODiv, ValueView::Number(y)) == Err::<
            ValueView,
            ErrorView,
        >(ErrorView::ZeroDivision),
{
}

/// Arithmetic and the orderings take two numbers, and `+` two strings as
/// well: on any other operands they are `UnsupportedBinOp`, with the two
/// values and the operator.
pub proof fn lemma_operands_must_fit(m: NumberModel, l: ValueView, op: Operator, r: ValueView)
    requires
        !(op is OEq || op is ONe),
        !(l is Number && r is Number),
        !(op is OAdd && l is Text && r is Text),
    ensures
        binary_value(m, l, op, r) == Err::<ValueView, ErrorView>(
            ErrorView::UnsupportedBinOp(l, op, r),
        ),
{
}

/// Parentheses change nothing in the meaning of an expression.
pub proof fn lemma_grouping_is_transparent(m: NumberModel, e: ExprView, env: Chain<ValueView>)
    ensures
        eval_expr(m, ExprView::Grouping(Box::new(e)), env) == eval_expr(m, e, env),
{
}

/// A name that no scope declares cannot be read and cannot be assigned:
/// both are `UndefinedVariable`, and the assignment declares nothing.
pub proof fn lemma_undefined_variable(
    m: NumberModel,
    name: Seq<char>,
    value: ExprView,
    env: Chain<ValueView>,
)
    requires
        chain_lookup(env, name) is None,
    ensures
        eval_expr(m, ExprView::Variable(name), env) == (
            Err::<ValueView, ErrorView>(ErrorView::UndefinedVariable(name)),
            env,
        ),
        eval_expr(m, value, env).0 is Ok && chain_lookup(eval_expr(m, value, env).1, name) is None
            ==> eval_expr(m, ExprView::Assign(name, Box::new(value)), env) == (
            Err::<ValueView, ErrorView>(ErrorView::UndefinedVariable(name)),
            eval_expr(m, value, env).1,
        ),
{
    let after = eval_expr(m, value, env);
    if let Ok(v) = after.0 {
        lemma_assign_succeeds_where_found(after.1, name, v);
    }
}

/// Evaluating an expression declares nothing: the chain keeps its scopes,
/// and each scope its names.
pub proof fn lemma_eval_declares_nothing(m: NumberModel, e: ExprView, env: Chain<ValueView>)
    ensures
        same_names(eval_expr(m, e, env).1, env),
    decreases e,
{
    match e {
        ExprView::Binary(left, _, right) => {
            lemma_eval_declares_nothing(m, *left, env);
            let env1 = eval_expr(m, *left, env).1;
            if eval_expr(m, *left, env).0 is Ok {
                lemma_eval_declares_nothing(m, *right, env1);
                let env2 = eval_expr(m, *right, env1).1;
                assert forall|i: int| 0 <= i < env2.len() implies (#[trigger] env2[i]).dom()
                    == env[i].dom() by {
                    assert(env1[i].dom() == env[i].dom());
                }
            }
        },
        ExprView::Unary(_, right) => {
            lemma_eval_declares_nothing(m, *right, env);
        },
        ExprView::Grouping(inner) => {
            lemma_eval_declares_nothing(m, *inner, env);
        },
        ExprView::Assign(name, value) => {
            lemma_eval_declares_nothing(m, *value, env);
            let env1 = eval_expr(m, *value, env).1;
            if let Ok(v) = eval_expr(m, *value, env).0 {
                if chain_assign(env1, name, v) is Some {
                    lemma_assign_then_lookup(env1, name, v, name);
                    let env2 = chain_assign(env1, name, v)->0;
                    assert forall|i: int| 0 <= i < env2.len() implies (#[trigger] env2[i]).dom()
                        == env[i].dom() by {
                        assert(env1[i].dom() == env[i].dom());
                    }
                }
            }
        },
        _ => {},
    }
}

/// What a run has printed stays printed: the lines before a run are the
/// first lines after it, whether it ends in an error or not.
pub proof fn lemma_printed_lines_stand(
    m: NumberModel,
    stmts: Seq<StmtView>,
    from: int,
    before: Effects,
)
    ensures
        before.printed.is_prefix_of(exec_stmts(m, stmts, from, before).1.printed),
    decreases stmts.len() - from,
{
    if 0 <= from < stmts.len() {
        let (r, after) = exec_stmt(m, stmts[from], before);
        assert(before.printed.is_prefix_of(after.printed));
        if r is Ok {
            lemma_printed_lines_stand(m, stmts, from + 1, after);
        }
    }
}

/// The first error ends a run: the statement that fails is the last one
/// that has any effect.
pub proof fn lemma_first_error_ends_the_run(
    m: NumberModel,
    stmts: Seq<StmtView>,
    from: int,
    before: Effects,
)
    requires
        0 <= from < stmts.len(),
        exec_stmt(m, stmts[from], before).0 is Err,
    ensures
        exec_stmts(m, stmts, from, before) == exec_stmt(m, stmts[from], before),
{
}

impl Clone for LoxValue {
    fn clone(&self) -> (r: Self)
        ensures
            r@ == self@,
    {
        match self {
            LoxValue::LNil => LoxValue::LNil,
            LoxValue::LBoolean(b) => LoxValue::LBoolean(*b),
            LoxValue::LNumber(x) => LoxValue::LNumber(*x),
            LoxValue::LString(s) => LoxValue::LString(s.clone()),
        }
    }
}

impl Clone for Error {
    fn clone(&self) -> (r: Self)
        ensures
            r@ == self@,
    {
        match self {
            Error::ZeroDivision => Error::ZeroDivision,
            Error::UnsupportedBinOp(l, op, r) => Error::UnsupportedBinOp(l.clone(), *op, r.clone()),
            Error::UnsupportedUnaryOp(op, v) => Error::UnsupportedUnaryOp(*op, v.clone()),
            Error::UndefinedVariable(name) => Error::UndefinedVariable(name.clone()),
        }
    }
}

impl LoxValue {
    /// Truthiness: `nil` and `false` are falsy, every other value is truthy.
    pub fn is_truthy(&self) -> (r: bool)
        ensures
            r == truthy(self@),
    {
        match self {
            LoxValue::LNil => false,
            LoxValue::LBoolean(b) => *b,
            _ => true,
        }
    }

    /// The language's equality of two values.
    pub fn equals(&self, other: &LoxValue) -> (r: bool)
        ensures
            r == value_eq(self@, other@),
    {
        match self {
            LoxValue::LNil => match other {
                LoxValue::LNil => true,
                _ => false,
            },
            LoxValue::LBoolean(x) => match other {
                LoxValue::LBoolean(y) => *x == *y,
                _ => false,
            },
            LoxValue::LNumber(x) => match other {
                LoxValue::LNumber(y) => number_equal(*x, *y),
                _ => false,
            },
            LoxValue::LString(x) => match other {
                LoxValue::LString(y) => x.as_str().eq(y.as_str()),
                _ => false,
            },
        }
    }

    /// The text that printing the value gives; `numbers.show` writes a
    /// number.
    pub fn to_text<P: Fn(&str) -> u64, A: Fn(Operator, u64, u64) -> u64, S: Fn(u64) -> String>(
        &self,
        numbers: &Numbers<P, A, S>,
    ) -> (r: String)
        requires
            numbers.callable(),
        ensures
            forall|m: NumberModel| #[trigger] m.describes(*numbers) ==> r@ == value_text(m, self@),
            !(self is LNumber) ==> forall|m: NumberModel| r@ == value_text(m, self@),
    {
        match self {
            LoxValue::LNil => String::from_str("nil"),
            LoxValue::LBoolean(b) => {
                if *b {
                    String::from_str("true")
                } else {
                    String::from_str("false")
                }
            },
            LoxValue::LNumber(x) => (numbers.show)(*x),
            LoxValue::LString(s) => s.clone(),
        }
    }
}

/// Applies a binary operator to two values. `numbers.arith` is called for
/// `+ - * /` on two numbers, and for nothing else.
pub fn binary_operation<
    P: Fn(&str) -> u64,
    A: Fn(Operator, u64, u64) -> u64,
    S: Fn(u64) -> String,
>(
    left: LoxValue,
    op: Operator,
    right: LoxValue,
    numbers: &Numbers<P, A, S>,
) -> (res: Result<LoxValue, Error>)
    requires
        numbers.callable(),
    ensures
        forall|m: NumberModel| #[trigger]
            m.describes(*numbers) ==> value_result(res) == binary_value(m, left@, op, right@),
        !(is_arithmetic(op) && left is LNumber && right is LNumber) ==> forall|m: NumberModel|
            value_result(res) == binary_value(m, left@, op, right@),
{
    match op {
        Operator::OEq => Ok(LoxValue::LBoolean(left.equals(&right))),
        Operator::ONe => Ok(LoxValue::LBoolean(!left.equals(&right))),
        Operator::OAnd | Operator::OOr | Operator::ONot => Err(
            Error::UnsupportedBinOp(left, op, right),
        ),
        _ => match (left, right) {
            (LoxValue::LNumber(x), LoxValue::LNumber(y)) => match op {
                Operator::ODiv => {
                    if number_is_zero(y) {
                        Err(Error::ZeroDivision)
                    } else {
                        Ok(LoxValue::LNumber((numbers.arith)(op, x, y)))
                    }
                },
                Operator::OLt => Ok(LoxValue::LBoolean(number_less(x, y))),
                Operator::OLe => Ok(LoxValue::LBoolean(number_less_equal(x, y))),
                Operator::OGt => Ok(LoxValue::LBoolean(number_less(y, x))),
                Operator::OGe => Ok(LoxValue::LBoolean(number_less_equal(y, x))),
                _ => Ok(LoxValue::LNumber((numbers.arith)(op, x, y))),
            },
            (LoxValue::LString(x), LoxValue::LString(y)) => {
                if let Operator::OAdd = op {
                    let mut s = x;
                    s.append(y.as_str());
                    Ok(LoxValue::LString(s))
                } else {
                    Err(Error::UnsupportedBinOp(LoxValue::LString(x), op, LoxValue::LString(y)))
                }
            },
            (l, r) => Err(Error::UnsupportedBinOp(l, op, r)),
        },
    }
}

/// Applies a unary operator to a value.
pub fn unary_operation(op: Operator, value: LoxValue) -> (res: Result<LoxValue, Error>)
    ensures
        value_result(res) == unary_value(op, value@),
{
    match op {
        Operator::ONot => Ok(LoxValue::LBoolean(!value.is_truthy())),
        Operator::OSub => match value {
            LoxValue::LNumber(x) => Ok(LoxValue::LNumber(number_negate(x))),
            v => Err(Error::UnsupportedUnaryOp(op, v)),
        },
        _ => Err(Error::UnsupportedUnaryOp(op, value)),
    }
}

/// Evaluates an expression against an environment.
pub fn evaluate_expression<
    P: Fn(&str) -> u64,
    A: Fn(Operator, u64, u64) -> u64,
    S: Fn(u64) -> String,
>(expr: &Expr, environ: &mut Environment<LoxValue>, numbers: &Numbers<P, A, S>) -> (res: Result<
    LoxValue,
    Error,
>)
    requires
        old(environ).wf(),
        numbers.callable(),
        literals_ok(expr@),
    ensures
        final(environ).wf(),
        same_names(final(environ)@, old(environ)@),
        forall|m: NumberModel| #[trigger]
            m.describes(*numbers) ==> (value_result(res), final(environ)@) == eval_expr(
                m,
                expr@,
                old(environ)@,
            ),
    decreases expr,
{
    match expr {
        Expr::ENumber { value } => Ok(LoxValue::LNumber((numbers.parse)(value.as_str()))),
        Expr::EString { value } => Ok(LoxValue::LString(value.clone())),
        Expr::EBool { value } => Ok(LoxValue::LBoolean(*value)),
        Expr::ENil => Ok(LoxValue::LNil),
        Expr::EVariable { name } => {
            match environ.lookup(name.as_str()) {
                Some(v) => Ok(v.clone()),
                None => Err(Error::UndefinedVariable(name.clone())),
            }
        },
        Expr::EBinary { left, op, right } => {
            let lv = match evaluate_expression(left, environ, numbers) {
                Ok(v) => v,
                Err(e) => {
                    return Err(e);
                },
            };
            let rv = match evaluate_expression(right, environ, numbers) {
                Ok(v) => v,
                Err(e) => {
                    return Err(e);
                },
            };
            binary_operation(lv, *op, rv, numbers)
        },
        Expr::EUnary { op, right } => {
            let rv = match evaluate_expression(right, environ, numbers) {
                Ok(v) => v,
                Err(e) => {
                    return Err(e);
                },
            };
            unary_operation(*op, rv)
        },
        Expr::EGrouping { expr } => evaluate_expression(expr, environ, numbers),
        Expr::EAssign { name, value } => {
            let v = match evaluate_expression(value, environ, numbers) {
                Ok(v) => v,
                Err(e) => {
                    return Err(e);
                },
            };
            let ghost before = environ@;
            match environ.assign(name.as_str(), v.clone()) {
                Ok(_) => {
                    proof {
                        lemma_assign_then_lookup(before, name@, v@, name@);
                    }
                    Ok(v)
                },
                Err(_) => Err(Error::UndefinedVariable(name.clone())),
            }
        },
    }
}

/// The texts of a list of printed lines.
pub open spec fn lines(printed: Seq<String>) -> Seq<Seq<char>> {
    printed.map_values(|s: String| s@)
}

/// Executes one statement: a `print` appends the text of its value to
/// `output`, a declaration binds its name in the current scope (to `nil`
/// without an initializer), an expression statement drops its value.
pub fn execute_statement<
    P: Fn(&str) -> u64,
    A: Fn(Operator, u64, u64) -> u64,
    S: Fn(u64) -> String,
>(
    stmt: &Stmt,
    environ: &mut Environment<LoxValue>,
    numbers: &Numbers<P, A, S>,
    output: &mut Vec<String>,
) -> (res: Result<(), Error>)
    requires
        old(environ).wf(),
        numbers.callable(),
        stmt_ok(stmt@),
    ensures
        final(environ).wf(),
        final(environ)@.len() == old(environ)@.len(),
        old(output)@.is_prefix_of(final(output)@),
        forall|m: NumberModel| #[trigger]
            m.describes(*numbers) ==> (
                unit_result(res),
                Effects { env: final(environ)@, printed: lines(final(output)@) },
            ) == exec_stmt(
                m,
                stmt@,
                Effects { env: old(environ)@, printed: lines(old(output)@) },
            ),
{
    match stmt {
        Stmt::SPrint { expr } => {
            let value = match evaluate_expression(expr, environ, numbers) {
                Ok(v) => v,
                Err(e) => {
                    return Err(e);
                },
            };
            let line = value.to_text(numbers);
            output.push(line);
            assert(lines(output@) =~= lines(old(output)@).push(line@));
            Ok(())
        },
        Stmt::SExpression { expr } => {
            match evaluate_expression(expr, environ, numbers) {
                Ok(_) => Ok(()),
                Err(e) => Err(e),
            }
        },
        Stmt::SVarDecl { name, initializer } => {
            let value = match initializer {
                Some(e) => match evaluate_expression(e, environ, numbers) {
                    Ok(v) => v,
                    Err(e) => {
                        return Err(e);
                    },
                },
                None => LoxValue::LNil,
            };
            proof {
                environ.lemma_depth();
            }
            environ.declare(name.as_str(), value);
            Ok(())
        },
    }
}

/// Executes statements in order and stops at the first error.
pub fn execute_statements<
    P: Fn(&str) -> u64,
    A: Fn(Operator, u64, u64) -> u64,
    S: Fn(u64) -> String,
>(
    statements: &Vec<Stmt>,
    environ: &mut Environment<LoxValue>,
    numbers: &Numbers<P, A, S>,
    output: &mut Vec<String>,
) -> (res: Result<(), Error>)
    requires
        old(environ).wf(),
        numbers.callable(),
        program_ok(stmt_views(statements@)),
    ensures
        final(environ).wf(),
        final(environ)@.len() == old(environ)@.len(),
        old(output)@.is_prefix_of(final(output)@),
        forall|m: NumberModel| #[trigger]
            m.describes(*numbers) ==> (
                unit_result(res),
                Effects { env: final(environ)@, printed: lines(final(output)@) },
            ) == exec_stmts(
                m,
                stmt_views(statements@),
                0,
                Effects { env: old(environ)@, printed: lines(old(output)@) },
            ),
{
    let ghost program = stmt_views(statements@);
    let ghost start = Effects { env: environ@, printed: lines(output@) };
    let mut i: usize = 0;
    while i < statements.len()
        invariant
            i <= statements.len(),
            environ.wf(),
            numbers.callable(),
            program == stmt_views(statements@),
            program_ok(program),
            environ@.len() == old(environ)@.len(),
            old(output)@.is_prefix_of(output@),
            start == (Effects { env: old(environ)@, printed: lines(old(output)@) }),
            forall|m: NumberModel| #[trigger]
                m.describes(*numbers) ==> exec_stmts(m, program, 0, start) == exec_stmts(
                    m,
                    program,
                    i as int,
                    Effects { env: environ@, printed: lines(output@) },
                ),
        decreases statements.len() - i,
    {
        assert(stmt_ok(program[i as int]));
        match execute_statement(&statements[i], environ, numbers, output) {
            Ok(_) => {},
            Err(e) => {
                return Err(e);
            },
        }
        i += 1;
    }
    Ok(())
}

/// Runs a program in a fresh environment, appending what it prints to
/// `output`.
pub fn evaluate<P: Fn(&str) -> u64, A: Fn(Operator, u64, u64) -> u64, S: Fn(u64) -> String>(
    ast: AST,
    numbers: &Numbers<P, A, S>,
    output: &mut Vec<String>,
) -> (res: Result<Output, Error>)
    requires
        numbers.callable(),
        program_ok(ast@),
    ensures
        old(output)@.is_prefix_of(final(output)@),
        forall|m: NumberModel| #[trigger]
            m.describes(*numbers) ==> {
                let (r, after) = exec_stmts(
                    m,
                    ast@,
                    0,
                    Effects { env: seq![Map::empty()], printed: lines(old(output)@) },
                );
                unit_result(res) == r && lines(final(output)@) == after.printed
            },
{
    let mut environ: Environment<LoxValue> = Environment::new(None);
    execute_statements(&ast.top, &mut environ, numbers, output)
}

/// An interpreter session: the top-level scope, which lasts from one
/// program to the next, the services on numbers, and every line printed so
/// far.
pub struct Interpreter<P, A, S> {
    top_level: Environment<LoxValue>,
    numbers: Numbers<P, A, S>,
    printed: Vec<String>,
}

impl<P: Fn(&str) -> u64, A: Fn(Operator, u64, u64) -> u64, S: Fn(u64) -> String> Interpreter<
    P,
    A,
    S,
> {
    /// The session's invariant.
    pub closed spec fn wf(&self) -> bool {
        self.top_level.wf() && self.numbers.callable()
    }

    /// The services on numbers that the session uses.
    pub closed spec fn services(&self) -> Numbers<P, A, S> {
        self.numbers
    }

    /// The bindings of the session.
    pub closed spec fn bindings(&self) -> Chain<ValueView> {
        self.top_level@
    }

    /// The lines printed since the session began.
    pub closed spec fn output(&self) -> Seq<Seq<char>> {
        lines(self.printed@)
    }

    /// A new session with one empty scope and nothing printed.
    pub fn new(numbers: Numbers<P, A, S>) -> (interpreter: Self)
        requires
            numbers.callable(),
        ensures
            interpreter.wf(),
            interpreter.services() == numbers,
            interpreter.bindings() == seq![Map::<Seq<char>, ValueView>::empty()],
            interpreter.output() == Seq::<Seq<char>>::empty(),
    {
        let interpreter = Interpreter {
            top_level: Environment::new(None),
            numbers,
            printed: Vec::new(),
        };
        assert(lines(interpreter.printed@) =~= Seq::<Seq<char>>::empty());
        interpreter
    }

    /// Runs a program in the session: its statements in order, up to the
    /// first error. Bindings and printed lines of earlier programs stay, and
    /// so does what this program did before an error.
    pub fn evaluate(&mut self, ast: AST) -> (res: Result<Output, Error>)
        requires
            old(self).wf(),
            program_ok(ast@),
        ensures
            final(self).wf(),
            final(self).services() == old(self).services(),
            final(self).bindings().len() == old(self).bindings().len(),
            old(self).output().is_prefix_of(final(self).output()),
            forall|m: NumberModel| #[trigger]
                m.describes(old(self).services()) ==> (
                    unit_result(res),
                    Effects { env: final(self).bindings(), printed: final(self).output() },
                ) == exec_stmts(
                    m,
                    ast@,
                    0,
                    Effects { env: old(self).bindings(), printed: old(self).output() },
                ),
    {
        execute_statements(&ast.top, &mut self.top_level, &self.numbers, &mut self.printed)
    }

    /// The value bound to `name` in the session.
    pub fn lookup(&self, name: &str) -> (r: Option<&LoxValue>)
        requires
            self.wf(),
        ensures
            match r {
                Some(v) => chain_lookup(self.bindings(), name@) == Some(v@),
                None => chain_lookup(self.bindings(), name@) is None,
            },
    {
        self.top_level.lookup(name)
    }

    /// The lines printed since the session began.
    pub fn printed(&self) -> (r: &Vec<String>)
        ensures
            lines(r@) == self.output(),
    {
        &self.printed
    }
}

} // verus!

//! The parser: from tokens to statements, by recursive descent with one
//! token of lookahead.
//!
//! The grammar, from the lowest precedence to the highest:
//!
//! ```text
//! program      := declaration* EOF
//! declaration  := "var" IDENT ("=" expression)? ";"  | statement
//! statement    := "print" expression ";"  | expression ";"
//! expression   := assignment
//! assignment   := equality ("=" assignment)?
//! equality     := comparison (("==" | "!=") comparison)?
//! comparison   := addition (("<" | "<=" | ">" | ">=") addition)?
//! addition     := unary (("+" | "-") unary)?
//! unary        := ("-" | "!") expression | primary
//! primary      := NUMBER | STRING | "true" | "false" | "nil"
//!               | "(" expression ")" | IDENT
//! ```
//!
//! A binary operator is taken at most once at its level. The grammar is
//! written down as the spec functions [`expression`] to [`primary`] and
//! [`declaration`] to [`statements`]: each gives, for a token list and a
//! position in it, the tree that starts there together with the number of
//! tokens it spans, or the one syntax error that ends the parse. The
//! executable parser is proved to return exactly that.

use vstd::prelude::*;
use vstd::string::StringExecFns;

use crate::ast::{
    literals_ok, program_ok, stmt_ok, stmt_views, Expr, ExprView, Operator, Stmt, StmtView, AST,
};
use crate::text::{chars_of, debug_text, quoted, text_of};
use crate::tokenize::{quoted_lexeme, token_views, well_formed, Token, TokenType, TokenView, Tokens};

verus! {

/// The error of the parser: the first place where the tokens do not fit the
/// grammar, with the line of the token found there and a message that names
/// what was expected and quotes the lexeme that was found.
#[derive(Debug, PartialEq)]
pub enum Error {
    SyntaxError { line: usize, msg: String },
}

/// The mathematical value of an [`Error`].
pub struct SyntaxErrorView {
    pub line: usize,
    pub msg: Seq<char>,
}

impl View for Error {
    type V = SyntaxErrorView;

    open spec fn view(&self) -> SyntaxErrorView {
        match self {
            Error::SyntaxError { line, msg } => SyntaxErrorView { line: *line, msg: msg@ },
        }
    }
}

/// The levels of binary operators, from the loosest to the tightest.
#[derive(Debug, PartialEq, Eq, Structural, Clone, Copy)]
pub enum Level {
    Equality,
    Comparison,
    Addition,
}

/// The result of parsing one construct: its value and the number of tokens
/// that it spans, or the syntax error.
pub type Parsed<T> = Result<(T, nat), SyntaxErrorView>;

// ----------------------------------------------------------------------
// The grammar
// ----------------------------------------------------------------------

/// Whether the parse has reached the end of the input at position `n`. The
/// end-of-input token is never consumed.
pub open spec fn at_end(tokens: Seq<TokenView>, n: nat) -> bool {
    n >= tokens.len() || tokens[n as int].toktype is TEof
}

/// Whether the token at position `n` is of the kind `toktype`.
pub open spec fn next_is(tokens: Seq<TokenView>, n: nat, toktype: TokenType) -> bool {
    !at_end(tokens, n) && tokens[n as int].toktype == toktype
}

/// The syntax error at the token at position `n`.
pub open spec fn syntax_error(tokens: Seq<TokenView>, n: nat, msg: Seq<char>) -> SyntaxErrorView {
    SyntaxErrorView {
        line: tokens[n as int].line,
        msg: msg + " at "@ + debug_text(tokens[n as int].lexeme),
    }
}

/// The operator that a token stands for.
pub open spec fn token_operator(toktype: TokenType) -> Option<Operator> {
    match toktype {
        TokenType::TPlus => Some(Operator::OAdd),
        TokenType::TMinus => Some(Operator::OSub),
        TokenType::TStar => Some(Operator::OMul),
        TokenType::TSlash => Some(Operator::ODiv),
        TokenType::TLess => Some(Operator::OLt),
        TokenType::TLessEqual => Some(Operator::OLe),
        TokenType::TGreater => Some(Operator::OGt),
        TokenType::TGreaterEqual => Some(Operator::OGe),
        TokenType::TEqualEqual => Some(Operator::OEq),
        TokenType::TBangEqual => Some(Operator::ONe),
        TokenType::TAnd => Some(Operator::OAnd),
        TokenType::TOr => Some(Operator::OOr),
        TokenType::TBang => Some(Operator::ONot),
        _ => None,
    }
}

/// Whether a token is a binary operator of a level.
pub open spec fn level_has(level: Level, toktype: TokenType) -> bool {
    match level {
        Level::Equality => toktype is TEqualEqual || toktype is TBangEqual,
        Level::Comparison => toktype is TLess || toktype is TLessEqual || toktype is TGreater
            || toktype is TGreaterEqual,
        Level::Addition => toktype is TPlus || toktype is TMinus,
    }
}

/// The place of a level in the descent: a construct calls only constructs
/// of a lower place without consuming a token first.
pub open spec fn place(level: Level) -> nat {
    match level {
        Level::Equality => 6,
        Level::Comparison => 4,
        Level::Addition => 2,
    }
}

/// `expression := assignment`
pub open spec fn expression(tokens: Seq<TokenView>, n: nat) -> Parsed<ExprView>
    decreases tokens.len() - n, 9nat,
{
    assignment(tokens, n)
}

/// `assignment := equality ("=" assignment)?`
///
/// The left side is parsed as an equality first, then the right side; only
/// then is the left side held to be a variable. Where it is not, the error
/// is reported at the `=`.
pub open spec fn assignment(tokens: Seq<TokenView>, n: nat) -> Parsed<ExprView>
    decreases tokens.len() - n, 8nat,
{
    match binary(tokens, n, Level::Equality) {
        Err(e) => Err(e),
        Ok((target, k)) => if next_is(tokens, n + k, TokenType::TEqual) {
            match assignment(tokens, n + k + 1) {
                Err(e) => Err(e),
                Ok((value, k2)) => match target {
                    ExprView::Variable(name) => Ok(
                        (ExprView::Assign(name, Box::new(value)), k + 1 + k2),
                    ),
                    _ => Err(syntax_error(tokens, n + k, "Invalid assignment target"@)),
                },
            }
        } else {
            Ok((target, k))
        },
    }
}

/// One level of binary operators: an operand of the next tighter level,
/// then at most one operator of this level with a second operand.
pub open spec fn binary(tokens: Seq<TokenView>, n: nat, level: Level) -> Parsed<ExprView>
    decreases tokens.len() - n, place(level) + 1,
{
    match operand(tokens, n, level) {
        Err(e) => Err(e),
        Ok((left, k)) => if !at_end(tokens, n + k) && level_has(
            level,
            tokens[(n + k) as int].toktype,
        ) {
            match operand(tokens, n + k + 1, level) {
                Err(e) => Err(e),
                Ok((right, k2)) => Ok(
                    (
                        ExprView::Binary(
                            Box::new(left),
                            token_operator(tokens[(n + k) as int].toktype)->0,
                            Box::new(right),
                        ),
                        k + 1 + k2,
                    ),
                ),
            }
        } else {
            Ok((left, k))
        },
    }
}

/// The operand of a level: the next tighter level, a unary expression at
/// the tightest.
pub open spec fn operand(tokens: Seq<TokenView>, n: nat, level: Level) -> Parsed<ExprView>
    decreases tokens.len() - n, place(level),
{
    match level {
        Level::Equality => binary(tokens, n, Level::Comparison),
        Level::Comparison => binary(tokens, n, Level::Addition),
        Level::Addition => unary(tokens, n),
    }
}

/// `unary := ("-" | "!") expression | primary`
pub open spec fn unary(tokens: Seq<TokenView>, n: nat) -> Parsed<ExprView>
    decreases tokens.len() - n, 1nat,
{
    if next_is(tokens, n, TokenType::TMinus) || next_is(tokens, n, TokenType::TBang) {
        match expression(tokens, n + 1) {
            Err(e) => Err(e),
            Ok((right, k)) => Ok(
                (
                    ExprView::Unary(token_operator(tokens[n as int].toktype)->0, Box::new(right)),
                    1 + k,
                ),
            ),
        }
    } else {
        primary(tokens, n)
    }
}

/// `primary := NUMBER | STRING | "true" | "false" | "nil" | "(" expression ")" | IDENT`
///
/// A number keeps its lexeme; a string is its lexeme without the two
/// quotes.
pub open spec fn primary(tokens: Seq<TokenView>, n: nat) -> Parsed<ExprView>
    decreases tokens.len() - n, 0nat,
{
    let lexeme = tokens[n as int].lexeme;
    if next_is(tokens, n, TokenType::TNumber) {
        Ok((ExprView::Number(lexeme), 1))
    } else if next_is(tokens, n, TokenType::TString) {
        Ok((ExprView::Text(lexeme.subrange(1, lexeme.len() - 1)), 1))
    } else if next_is(tokens, n, TokenType::TNil) {
        Ok((ExprView::Nil, 1))
    } else if next_is(tokens, n, TokenType::TTrue) {
        Ok((ExprView::Bool(true), 1))
    } else if next_is(tokens, n, TokenType::TFalse) {
        Ok((ExprView::Bool(false), 1))
    } else if next_is(tokens, n, TokenType::TLeftParen) {
        match expression(tokens, n + 1) {
            Err(e) => Err(e),
            Ok((inner, k)) => if next_is(tokens, n + 1 + k, TokenType::TRightParen) {
                Ok((ExprView::Grouping(Box::new(inner)), k + 2))
            } else {
                Err(syntax_error(tokens, n + 1 + k, "Expect ')' after expression."@))
            },
        }
    } else if next_is(tokens, n, TokenType::TIdentifier) {
        Ok((ExprView::Variable(lexeme), 1))
    } else {
        Err(syntax_error(tokens, n, "Expected primary"@))
    }
}

/// An expression and the semicolon that ends its statement.
pub open spec fn terminated(tokens: Seq<TokenView>, n: nat, msg: Seq<char>) -> Parsed<ExprView> {
    match expression(tokens, n) {
        Err(e) => Err(e),
        Ok((e, k)) => if next_is(tokens, n + k, TokenType::TSemicolon) {
            Ok((e, k + 1))
        } else {
            Err(syntax_error(tokens, n + k, msg))
        },
    }
}

/// The rest of a declaration, after `var`: `IDENT ("=" expression)? ";"`
pub open spec fn var_declaration(tokens: Seq<TokenView>, n: nat) -> Parsed<StmtView> {
    if !next_is(tokens, n, TokenType::TIdentifier) {
        Err(syntax_error(tokens, n, "Expect variable name"@))
    } else {
        let name = tokens[n as int].lexeme;
        if next_is(tokens, n + 1, TokenType::TEqual) {
            match terminated(tokens, n + 2, "Expect ';' after variable declaration"@) {
                Err(e) => Err(e),
                Ok((e, k)) => Ok((StmtView::VarDecl(name, Some(e)), k + 2)),
            }
        } else if next_is(tokens, n + 1, TokenType::TSemicolon) {
            Ok((StmtView::VarDecl(name, None), 2))
        } else {
            Err(syntax_error(tokens, n + 1, "Expect ';' after variable declaration"@))
        }
    }
}

/// `statement := "print" expression ";" | expression ";"`
pub open spec fn statement(tokens: Seq<TokenView>, n: nat) -> Parsed<StmtView> {
    if next_is(tokens, n, TokenType::TPrint) {
        match terminated(tokens, n + 1, "Expect ';' after value"@) {
            Err(e) => Err(e),
            Ok((e, k)) => Ok((StmtView::Print(e), k + 1)),
        }
    } else {
        match terminated(tokens, n, "Expect ';' after value"@) {
            Err(e) => Err(e),
            Ok((e, k)) => Ok((StmtView::Expression(e), k)),
        }
    }
}

/// `declaration := "var" IDENT ("=" expression)? ";" | statement`
pub open spec fn declaration(tokens: Seq<TokenView>, n: nat) -> Parsed<StmtView> {
    if next_is(tokens, n, TokenType::TVar) {
        match var_declaration(tokens, n + 1) {
            Err(e) => Err(e),
            Ok((s, k)) => Ok((s, k + 1)),
        }
    } else {
        statement(tokens, n)
    }
}

/// Whether a result, where it is a success, spans at least one token and
/// ends inside the token list.
pub open spec fn spans<T>(tokens: Seq<TokenView>, n: nat, r: Parsed<T>) -> bool {
    r matches Ok((_, k)) ==> 1 <= k && n + k <= tokens.len()
}

proof fn lemma_primary_spans(tokens: Seq<TokenView>, n: nat)
    ensures
        spans(tokens, n, primary(tokens, n)),
    decreases tokens.len() - n, 0nat,
{
    if next_is(tokens, n, TokenType::TLeftParen) {
        lemma_expression_spans(tokens, n + 1);
    }
}

proof fn lemma_unary_spans(tokens: Seq<TokenView>, n: nat)
    ensures
        spans(tokens, n, unary(tokens, n)),
    decreases tokens.len() - n, 1nat,
{
    if next_is(tokens, n, TokenType::TMinus) || next_is(tokens, n, TokenType::TBang) {
        lemma_expression_spans(tokens, n + 1);
    } else {
        lemma_primary_spans(tokens, n);
    }
}

proof fn lemma_operand_spans(tokens: Seq<TokenView>, n: nat, level: Level)
    ensures
        spans(tokens, n, operand(tokens, n, level)),
    decreases tokens.len() - n, place(level),
{
    match level {
        Level::Equality => lemma_binary_spans(tokens, n, Level::Comparison),
        Level::Comparison => lemma_binary_spans(tokens, n, Level::Addition),
        Level::Addition => lemma_unary_spans(tokens, n),
    }
}

proof fn lemma_binary_spans(tokens: Seq<TokenView>, n: nat, level: Level)
    ensures
        spans(tokens, n, binary(tokens, n, level)),
    decreases tokens.len() - n, place(level) + 1,
{
    lemma_operand_spans(tokens, n, level);
    if let Ok((_, k)) = operand(tokens, n, level) {
        if !at_end(tokens, n + k) {
            lemma_operand_spans(tokens, n + k + 1, level);
        }
    }
}

proof fn lemma_assignment_spans(tokens: Seq<TokenView>, n: nat)
    ensures
        spans(tokens, n, assignment(tokens, n)),
    decreases tokens.len() - n, 8nat,
{
    lemma_binary_spans(tokens, n, Level::Equality);
    if let Ok((_, k)) = binary(tokens, n, Level::Equality) {
        if next_is(tokens, n + k, TokenType::TEqual) {
            lemma_assignment_spans(tokens, n + k + 1);
        }
    }
}

/// An expression that parses spans at least one token and ends inside the
/// token list.
pub proof fn lemma_expression_spans(tokens: Seq<TokenView>, n: nat)
    ensures
        spans(tokens, n, expression(tokens, n)),
    decreases tokens.len() - n, 9nat,
{
    lemma_assignment_spans(tokens, n);
}

/// A declaration that parses spans at least one token and ends inside the
/// token list.
pub proof fn lemma_declaration_spans(tokens: Seq<TokenView>, n: nat)
    ensures
        spans(tokens, n, declaration(tokens, n)),
{
    lemma_expression_spans(tokens, n);
    lemma_expression_spans(tokens, n + 1);
    lemma_expression_spans(tokens, n + 3);
}

/// `program := declaration* EOF`: the declarations from position `n` up to
/// the end of the input, or the first syntax error.
pub open spec fn statements(tokens: Seq<TokenView>, n: nat) -> Result<
    Seq<StmtView>,
    SyntaxErrorView,
>
    decreases tokens.len() - n,
{
    if at_end(tokens, n) {
        Ok(Seq::empty())
    } else {
        match declaration(tokens, n) {
            Err(e) => Err(e),
            Ok((first, k)) => {
                proof {
                    lemma_declaration_spans(tokens, n);
                }
                match statements(tokens, n + k) {
                    Err(e) => Err(e),
                    Ok(rest) => Ok(seq![first] + rest),
                }
            },
        }
    }
}

/// The program that a token list holds.
pub open spec fn program(tokens: Seq<TokenView>) -> Result<Seq<StmtView>, SyntaxErrorView> {
    statements(tokens, 0)
}

/// Whether the expression of a result, where it is a success, holds only
/// number literals whose text stands for a number.
pub open spec fn sound(r: Parsed<ExprView>) -> bool {
    r matches Ok((e, _)) ==> literals_ok(e)
}

proof fn lemma_primary_sound(tokens: Seq<TokenView>, n: nat)
    requires
        well_formed(tokens),
    ensures
        sound(primary(tokens, n)),
    decreases tokens.len() - n, 0nat,
{
    if next_is(tokens, n, TokenType::TLeftParen) {
        lemma_expression_sound(tokens, n + 1);
    }
}

proof fn lemma_unary_sound(tokens: Seq<TokenView>, n: nat)
    requires
        well_formed(tokens),
    ensures
        sound(unary(tokens, n)),
    decreases tokens.len() - n, 1nat,
{
    if next_is(tokens, n, TokenType::TMinus) || next_is(tokens, n, TokenType::TBang) {
        lemma_expression_sound(tokens, n + 1);
    } else {
        lemma_primary_sound(tokens, n);
    }
}

proof fn lemma_operand_sound(tokens: Seq<TokenView>, n: nat, level: Level)
    requires
        well_formed(tokens),
    ensures
        sound(operand(tokens, n, level)),
    decreases tokens.len() - n, place(level),
{
    match level {
        Level::Equality => lemma_binary_sound(tokens, n, Level::Comparison),
        Level::Comparison => lemma_binary_sound(tokens, n, Level::Addition),
        Level::Addition => lemma_unary_sound(tokens, n),
    }
}

proof fn lemma_binary_sound(tokens: Seq<TokenView>, n: nat, level: Level)
    requires
        well_formed(tokens),
    ensures
        sound(binary(tokens, n, level)),
    decreases tokens.len() - n, place(level) + 1,
{
    lemma_operand_sound(tokens, n, level);
    if let Ok((_, k)) = operand(tokens, n, level) {
        if !at_end(tokens, n + k) {
            lemma_operand_sound(tokens, n + k + 1, level);
        }
    }
}

proof fn lemma_assignment_sound(tokens: Seq<TokenView>, n: nat)
    requires
        well_formed(tokens),
    ensures
        sound(assignment(tokens, n)),
    decreases tokens.len() - n, 8nat,
{
    lemma_binary_sound(tokens, n, Level::Equality);
    if let Ok((_, k)) = binary(tokens, n, Level::Equality) {
        if next_is(tokens, n + k, TokenType::TEqual) {
            lemma_assignment_sound(tokens, n + k + 1);
        }
    }
}

/// Every number literal of an expression parsed from a well-formed token
/// list has a text that stands for a number.
pub proof fn lemma_expression_sound(tokens: Seq<TokenView>, n: nat)
    requires
        well_formed(tokens),
    ensures
        sound(expression(tokens, n)),
    decreases tokens.len() - n, 9nat,
{
    lemma_assignment_sound(tokens, n);
}

/// Every number literal of a program parsed from a well-formed token list
/// has a text that stands for a number: such a program can be evaluated.
pub proof fn lemma_program_sound(tokens: Seq<TokenView>, n: nat)
    requires
        well_formed(tokens),
    ensures
        statements(tokens, n) matches Ok(p) ==> program_ok(p),
    decreases tokens.len() - n,
{
    if !at_end(tokens, n) {
        lemma_declaration_spans(tokens, n);
        lemma_expression_sound(tokens, n);
        lemma_expression_sound(tokens, n + 1);
        lemma_expression_sound(tokens, n + 3);
        if let Ok((first, k)) = declaration(tokens, n) {
            assert(stmt_ok(first));
            lemma_program_sound(tokens, n + k);
            if let Ok(rest) = statements(tokens, n + k) {
                let p = seq![first] + rest;
                assert forall|i: int| 0 <= i < p.len() implies stmt_ok(#[trigger] p[i]) by {
                    if i > 0 {
                        assert(p[i] == rest[i - 1]);
                    }
                }
            }
        }
    }
}

/// An assignment to a name parses, whatever the name: the statement
/// `IDENT = NUMBER ;` is the assignment of the number to the identifier.
pub proof fn lemma_assignment_to_a_name_parses(tokens: Seq<TokenView>)
    requires
        tokens.len() == 5,
        tokens[0].toktype is TIdentifier,
        tokens[1].toktype is TEqual,
        tokens[2].toktype is TNumber,
        tokens[3].toktype is TSemicolon,
        tokens[4].toktype is TEof,
    ensures
        program(tokens) == Ok::<Seq<StmtView>, SyntaxErrorView>(
            seq![
                StmtView::Expression(
                    ExprView::Assign(
                        tokens[0].lexeme,
                        Box::new(ExprView::Number(tokens[2].lexeme)),
                    ),
                ),
            ],
        ),
{
    let name = ExprView::Variable(tokens[0].lexeme);
    let two = ExprView::Number(tokens[2].lexeme);
    assert(primary(tokens, 0) == Ok::<(ExprView, nat), SyntaxErrorView>((name, 1)));
    assert(unary(tokens, 0) == primary(tokens, 0));
    assert(operand(tokens, 0, Level::Addition) == unary(tokens, 0));
    assert(binary(tokens, 0, Level::Addition) == operand(tokens, 0, Level::Addition));
    assert(operand(tokens, 0, Level::Comparison) == binary(tokens, 0, Level::Addition));
    assert(binary(tokens, 0, Level::Comparison) == operand(tokens, 0, Level::Comparison));
    assert(operand(tokens, 0, Level::Equality) == binary(tokens, 0, Level::Comparison));
    assert(binary(tokens, 0, Level::Equality) == operand(tokens, 0, Level::Equality));
    assert(primary(tokens, 2) == Ok::<(ExprView, nat), SyntaxErrorView>((two, 1)));
    assert(unary(tokens, 2) == primary(tokens, 2));
    assert(operand(tokens, 2, Level::Addition) == unary(tokens, 2));
    assert(binary(tokens, 2, Level::Addition) == operand(tokens, 2, Level::Addition));
    assert(operand(tokens, 2, Level::Comparison) == binary(tokens, 2, Level::Addition));
    assert(binary(tokens, 2, Level::Comparison) == operand(tokens, 2, Level::Comparison));
    assert(operand(tokens, 2, Level::Equality) == binary(tokens, 2, Level::Comparison));
    assert(binary(tokens, 2, Level::Equality) == operand(tokens, 2, Level::Equality));
    assert(assignment(tokens, 2) == binary(tokens, 2, Level::Equality));
    let whole = ExprView::Assign(tokens[0].lexeme, Box::new(two));
    assert(assignment(tokens, 0) == Ok::<(ExprView, nat), SyntaxErrorView>((whole, 3)));
    assert(expression(tokens, 0) == assignment(tokens, 0));
    assert(declaration(tokens, 0) == Ok::<(StmtView, nat), SyntaxErrorView>(
        (StmtView::Expression(whole), 4),
    ));
    assert(statements(tokens, 4) == Ok::<Seq<StmtView>, SyntaxErrorView>(Seq::empty()));
    assert(seq![StmtView::Expression(whole)] + Seq::<StmtView>::empty() =~= seq![
        StmtView::Expression(whole),
    ]);
}

/// An assignment is never the whole of an operand or of a level of binary
/// operators: it can stand there only inside parentheses or behind a unary
/// operator.
proof fn lemma_operand_is_no_assignment(tokens: Seq<TokenView>, n: nat, level: Level)
    ensures
        operand(tokens, n, level) matches Ok((e, _)) ==> !(e is Assign),
        binary(tokens, n, level) matches Ok((e, _)) ==> !(e is Assign),
    decreases place(level),
{
    match level {
        Level::Equality => lemma_operand_is_no_assignment(tokens, n, Level::Comparison),
        Level::Comparison => lemma_operand_is_no_assignment(tokens, n, Level::Addition),
        Level::Addition => {
            assert(primary(tokens, n) matches Ok((e, _)) ==> !(e is Assign));
            assert(unary(tokens, n) matches Ok((e, _)) ==> !(e is Assign));
        },
    }
    assert(operand(tokens, n, level) matches Ok((e, _)) ==> !(e is Assign));
}

/// Only a variable can be assigned to. Every assignment that parses has a
/// variable on the left of its `=`; and where the left side is anything
/// else and the right side parses, the result is the error "Invalid
/// assignment target" at the `=`.
pub proof fn lemma_assignment_target(tokens: Seq<TokenView>, n: nat)
    ensures
        assignment(tokens, n) matches Ok((ExprView::Assign(name, _), _)) ==> (binary(
            tokens,
            n,
            Level::Equality,
        ) matches Ok((target, k)) && target == ExprView::Variable(name) && next_is(
            tokens,
            n + k,
            TokenType::TEqual,
        )),
        binary(tokens, n, Level::Equality) matches Ok((target, k)) ==> (next_is(
            tokens,
            n + k,
            TokenType::TEqual,
        ) && !(target is Variable) && assignment(tokens, n + k + 1) is Ok ==> assignment(tokens, n)
            == Err::<(ExprView, nat), SyntaxErrorView>(
            syntax_error(tokens, n + k, "Invalid assignment target"@),
        )),
{
    lemma_operand_is_no_assignment(tokens, n, Level::Equality);
}

// ----------------------------------------------------------------------
// The parser
// ----------------------------------------------------------------------

/// Whether `whole` is what parsing gives where the statements `done` come
/// first and `rest` is what parsing gives behind them.
pub open spec fn follows(
    whole: Result<Seq<StmtView>, SyntaxErrorView>,
    done: Seq<StmtView>,
    rest: Result<Seq<StmtView>, SyntaxErrorView>,
) -> bool {
    match rest {
        Ok(tail) => whole == Ok::<Seq<StmtView>, SyntaxErrorView>(done + tail),
        Err(e) => whole == Err::<Seq<StmtView>, SyntaxErrorView>(e),
    }
}

/// Whether the result of parsing an expression is the one that the grammar
/// gives, with the cursor moved over the tokens that the expression spans.
pub open spec fn yields(
    res: Result<Expr, Error>,
    expected: Parsed<ExprView>,
    before: nat,
    after: nat,
) -> bool {
    match expected {
        Ok((e, k)) => res matches Ok(x) && x@ == e && after == before + k,
        Err(err) => res matches Err(x) && x@ == err,
    }
}

/// The same for a statement.
pub open spec fn yields_stmt(
    res: Result<Stmt, Error>,
    expected: Parsed<StmtView>,
    before: nat,
    after: nat,
) -> bool {
    match expected {
        Ok((s, k)) => res matches Ok(x) && x@ == s && after == before + k,
        Err(err) => res matches Err(x) && x@ == err,
    }
}

impl Operator {
    /// The operator that a token stands for. The token is an operator.
    pub fn from(tok: &Token) -> (op: Operator)
        requires
            token_operator(tok.toktype) is Some,
        ensures
            token_operator(tok.toktype) == Some(op),
    {
        match tok.toktype {
            TokenType::TPlus => Operator::OAdd,
            TokenType::TMinus => Operator::OSub,
            TokenType::TStar => Operator::OMul,
            TokenType::TSlash => Operator::ODiv,
            TokenType::TLess => Operator::OLt,
            TokenType::TLessEqual => Operator::OLe,
            TokenType::TGreater => Operator::OGt,
            TokenType::TGreaterEqual => Operator::OGe,
            TokenType::TEqualEqual => Operator::OEq,
            TokenType::TBangEqual => Operator::ONe,
            TokenType::TAnd => Operator::OAnd,
            TokenType::TOr => Operator::OOr,
            _ => Operator::ONot,
        }
    }
}

/// Whether a token is a binary operator of a level.
pub fn is_operator_of(level: Level, toktype: TokenType) -> (r: bool)
    ensures
        r == level_has(level, toktype),
        r ==> token_operator(toktype) is Some,
{
    match level {
        Level::Equality => toktype == TokenType::TEqualEqual || toktype == TokenType::TBangEqual,
        Level::Comparison => toktype == TokenType::TLess || toktype == TokenType::TLessEqual
            || toktype == TokenType::TGreater || toktype == TokenType::TGreaterEqual,
        Level::Addition => toktype == TokenType::TPlus || toktype == TokenType::TMinus,
    }
}

/// A cursor over a token list: the tokens before position `n` have been
/// consumed.
pub struct Parser {
    tokens: Vec<Token>,
    n: usize,
}

impl Parser {
    /// The tokens that the parser reads.
    pub closed spec fn stream(&self) -> Seq<TokenView> {
        token_views(self.tokens@)
    }

    /// The position of the next token.
    pub closed spec fn position(&self) -> nat {
        self.n as nat
    }

    /// The token list is well formed and the cursor is on one of its
    /// tokens.
    pub closed spec fn wf(&self) -> bool {
        well_formed(self.stream()) && self.n < self.tokens.len()
    }

    /// A parser at the start of a token list.
    pub fn new(tokens: Tokens) -> (parser: Parser)
        requires
            well_formed(tokens@),
        ensures
            parser.wf(),
            parser.stream() == tokens@,
            parser.position() == 0,
    {
        Parser { tokens: tokens.tokens, n: 0 }
    }

    /// Consumes the next token where it is of the given kind.
    fn accept(&mut self, toktype: TokenType) -> (r: bool)
        requires
            old(self).wf(),
        ensures
            final(self).wf(),
            final(self).tokens == old(self).tokens,
            r == next_is(old(self).stream(), old(self).position(), toktype),
            final(self).n == if r {
                old(self).n + 1
            } else {
                old(self).n as int
            },
    {
        if !self.at_end() && self.tokens[self.n].toktype == toktype {
            assert(!(self.stream()[self.n as int].toktype is TEof));
            self.n += 1;
            true
        } else {
            false
        }
    }

    /// Consumes the next token where it is a binary operator of the level.
    fn accept_operator(&mut self, level: Level) -> (r: bool)
        requires
            old(self).wf(),
        ensures
            final(self).wf(),
            final(self).tokens == old(self).tokens,
            r == (!at_end(old(self).stream(), old(self).position()) && level_has(
                level,
                old(self).stream()[old(self).n as int].toktype,
            )),
            final(self).n == if r {
                old(self).n + 1
            } else {
                old(self).n as int
            },
    {
        if !self.at_end() && is_operator_of(level, self.tokens[self.n].toktype) {
            assert(!(self.stream()[self.n as int].toktype is TEof));
            self.n += 1;
            true
        } else {
            false
        }
    }

    /// Requires the next token to be of the given kind, and consumes it.
    fn consume(&mut self, toktype: TokenType, msg: &str) -> (r: Result<(), Error>)
        requires
            old(self).wf(),
        ensures
            final(self).wf(),
            final(self).tokens == old(self).tokens,
            if next_is(old(self).stream(), old(self).position(), toktype) {
                r is Ok && final(self).n == old(self).n + 1
            } else {
                r matches Err(e) && e@ == syntax_error(
                    old(self).stream(),
                    old(self).position(),
                    msg@,
                ) && final(self).n == old(self).n
            },
    {
        if !self.accept(toktype) {
            Err(self.syntax_error(msg))
        } else {
            Ok(())
        }
    }

    /// The syntax error at the next token.
    fn syntax_error(&self, msg: &str) -> (e: Error)
        requires
            self.wf(),
        ensures
            e@ == syntax_error(self.stream(), self.position(), msg@),
    {
        self.syntax_error_at(self.n, msg)
    }

    /// The syntax error at the token at index `at`.
    fn syntax_error_at(&self, at: usize, msg: &str) -> (e: Error)
        requires
            at < self.tokens.len(),
        ensures
            e@ == syntax_error(self.stream(), at as nat, msg@),
    {
        let mut text = String::from_str(msg);
        text.append(" at ");
        let found = quoted(self.tokens[at].lexeme.as_str());
        text.append(found.as_str());
        Error::SyntaxError { line: self.tokens[at].line, msg: text }
    }

    /// The token consumed last.
    fn last_token(&self) -> (t: &Token)
        requires
            1 <= self.n <= self.tokens.len(),
        ensures
            *t == self.tokens[self.n - 1],
    {
        &self.tokens[self.n - 1]
    }

    /// The lexeme of the token consumed last.
    fn last_lexeme(&self) -> (lexeme: &String)
        requires
            1 <= self.n <= self.tokens.len(),
        ensures
            *lexeme == self.tokens[self.n - 1].lexeme,
    {
        &self.tokens[self.n - 1].lexeme
    }

    fn at_end(&self) -> (r: bool)
        ensures
            r == at_end(self.stream(), self.position()),
    {
        self.n >= self.tokens.len() || self.tokens[self.n].toktype == TokenType::TEof
    }

    /// Parses a whole program.
    fn parse_top(&mut self) -> (res: Result<AST, Error>)
        requires
            old(self).wf(),
        ensures
            match statements(old(self).stream(), old(self).position()) {
                Ok(p) => res matches Ok(ast) && ast@ == p && program_ok(ast@),
                Err(e) => res matches Err(x) && x@ == e,
            },
    {
        match self.parse_statements() {
            Ok(top) => Ok(AST { top }),
            Err(e) => Err(e),
        }
    }

    /// Parses declarations up to the end of the input.
    fn parse_statements(&mut self) -> (res: Result<Vec<Stmt>, Error>)
        requires
            old(self).wf(),
        ensures
            final(self).wf(),
            final(self).stream() == old(self).stream(),
            match statements(old(self).stream(), old(self).position()) {
                Ok(p) => res matches Ok(v) && stmt_views(v@) == p && program_ok(p),
                Err(e) => res matches Err(x) && x@ == e,
            },
    {
        let mut list: Vec<Stmt> = Vec::new();
        let ghost stream = self.stream();
        let ghost start = self.position();
        proof {
            if let Ok(all) = statements(stream, start) {
                assert(stmt_views(list@) + all =~= all);
            }
        }
        while !self.at_end()
            invariant
                self.wf(),
                self.stream() == stream,
                stream == old(self).stream(),
                start == old(self).position(),
                program_ok(stmt_views(list@)),
                follows(
                    statements(stream, start),
                    stmt_views(list@),
                    statements(stream, self.position()),
                ),
            decreases self.stream().len() - self.position(),
        {
            let ghost done = stmt_views(list@);
            let ghost n = self.position();
            proof {
                lemma_declaration_spans(stream, n);
            }
            match self.parse_declaration() {
                Ok(stmt) => {
                    list.push(stmt);
                    proof {
                        let now = stmt_views(list@);
                        assert(now =~= done.push(stmt@));
                        if let Ok(rest) = statements(stream, self.position()) {
                            assert(now + rest =~= done + (seq![stmt@] + rest));
                        }
                    }
                },
                Err(e) => {
                    return Err(e);
                },
            }
        }
        proof {
            assert(stmt_views(list@) + Seq::<StmtView>::empty() =~= stmt_views(list@));
        }
        Ok(list)
    }

    /// Parses the rest of a declaration, after `var`.
    fn parse_var_declaration(&mut self) -> (res: Result<Stmt, Error>)
        requires
            old(self).wf(),
        ensures
            final(self).wf(),
            final(self).stream() == old(self).stream(),
            yields_stmt(
                res,
                var_declaration(old(self).stream(), old(self).position()),
                old(self).position(),
                final(self).position(),
            ),
            res matches Ok(s) ==> stmt_ok(s@),
    {
        match self.consume(TokenType::TIdentifier, "Expect variable name") {
            Ok(_) => {},
            Err(e) => {
                return Err(e);
            },
        }
        let name = self.last_lexeme().clone();
        let mut initializer = None;
        if self.accept(TokenType::TEqual) {
            match self.parse_expression() {
                Ok(e) => {
                    initializer = Some(e);
                },
                Err(e) => {
                    return Err(e);
                },
            }
        }
        match self.consume(TokenType::TSemicolon, "Expect ';' after variable declaration") {
            Ok(_) => {},
            Err(e) => {
                return Err(e);
            },
        }
        Ok(Stmt::vardecl(name.as_str(), initializer))
    }

    /// Parses a declaration or a statement.
    fn parse_declaration(&mut self) -> (res: Result<Stmt, Error>)
        requires
            old(self).wf(),
        ensures
            final(self).wf(),
            final(self).stream() == old(self).stream(),
            yields_stmt(
                res,
                declaration(old(self).stream(), old(self).position()),
                old(self).position(),
                final(self).position(),
            ),
            res matches Ok(s) ==> stmt_ok(s@),
    {
        if self.accept(TokenType::TVar) {
            self.parse_var_declaration()
        } else {
            self.parse_statement()
        }
    }

    /// Parses a statement.
    fn parse_statement(&mut self) -> (res: Result<Stmt, Error>)
        requires
            old(self).wf(),
        ensures
            final(self).wf(),
            final(self).stream() == old(self).stream(),
            yields_stmt(
                res,
                statement(old(self).stream(), old(self).position()),
                old(self).position(),
                final(self).position(),
            ),
            res matches Ok(s) ==> stmt_ok(s@),
    {
        if self.accept(TokenType::TPrint) {
            self.parse_print_statement()
        } else {
            self.parse_expression_statement()
        }
    }

    /// Parses the rest of a print statement, after `print`.
    fn parse_print_statement(&mut self) -> (res: Result<Stmt, Error>)
        requires
            old(self).wf(),
        ensures
            final(self).wf(),
            final(self).stream() == old(self).stream(),
            match terminated(old(self).stream(), old(self).position(), "Expect ';' after value"@) {
                Ok((e, k)) => res matches Ok(x) && x@ == StmtView::Print(e) && final(
                    self
                ).position() == old(self).position() + k,
                Err(err) => res matches Err(x) && x@ == err,
            },
            res matches Ok(s) ==> stmt_ok(s@),
    {
        let value = match self.parse_expression() {
            Ok(e) => e,
            Err(e) => {
                return Err(e);
            },
        };
        match self.consume(TokenType::TSemicolon, "Expect ';' after value") {
            Ok(_) => {},
            Err(e) => {
                return Err(e);
            },
        }
        Ok(Stmt::print(value))
    }

    /// Parses an expression statement.
    fn parse_expression_statement(&mut self) -> (res: Result<Stmt, Error>)
        requires
            old(self).wf(),
        ensures
            final(self).wf(),
            final(self).stream() == old(self).stream(),
            match terminated(old(self).stream(), old(self).position(), "Expect ';' after value"@) {
                Ok((e, k)) => res matches Ok(x) && x@ == StmtView::Expression(e) && final(
                    self
                ).position() == old(self).position() + k,
                Err(err) => res matches Err(x) && x@ == err,
            },
            res matches Ok(s) ==> stmt_ok(s@),
    {
        let value = match self.parse_expression() {
            Ok(e) => e,
            Err(e) => {
                return Err(e);
            },
        };
        match self.consume(TokenType::TSemicolon, "Expect ';' after value") {
            Ok(_) => {},
            Err(e) => {
                return Err(e);
            },
        }
        Ok(Stmt::expression(value))
    }

    /// Parses an expression.
    pub fn parse_expression(&mut self) -> (res: Result<Expr, Error>)
        requires
            old(self).wf(),
        ensures
            final(self).wf(),
            final(self).stream() == old(self).stream(),
            yields(
                res,
                expression(old(self).stream(), old(self).position()),
                old(self).position(),
                final(self).position(),
            ),
            res matches Ok(e) ==> literals_ok(e@),
        decreases old(self).stream().len() - old(self).position(), 9nat,
    {
        self.parse_assignment()
    }

    /// Parses an assignment, or the equality that stands alone.
    pub fn parse_assignment(&mut self) -> (res: Result<Expr, Error>)
        requires
            old(self).wf(),
        ensures
            final(self).wf(),
            final(self).stream() == old(self).stream(),
            yields(
                res,
                assignment(old(self).stream(), old(self).position()),
                old(self).position(),
                final(self).position(),
            ),
            res matches Ok(e) ==> literals_ok(e@),
        decreases old(self).stream().len() - old(self).position(), 8nat,
    {
        let expr = match self.parse_binary(Level::Equality) {
            Ok(e) => e,
            Err(e) => {
                return Err(e);
            },
        };
        if self.accept(TokenType::TEqual) {
            let equals = self.n - 1;
            let value = match self.parse_assignment() {
                Ok(e) => e,
                Err(e) => {
                    return Err(e);
                },
            };
            match expr {
                Expr::EVariable { name } => Ok(Expr::assign(name.as_str(), value)),
                _ => Err(self.syntax_error_at(equals, "Invalid assignment target")),
            }
        } else {
            Ok(expr)
        }
    }

    /// Parses one level of binary operators.
    pub fn parse_binary(&mut self, level: Level) -> (res: Result<Expr, Error>)
        requires
            old(self).wf(),
        ensures
            final(self).wf(),
            final(self).stream() == old(self).stream(),
            yields(
                res,
                binary(old(self).stream(), old(self).position(), level),
                old(self).position(),
                final(self).position(),
            ),
            res matches Ok(e) ==> literals_ok(e@),
        decreases old(self).stream().len() - old(self).position(), place(level) + 1,
    {
        let left = match self.parse_operand(level) {
            Ok(e) => e,
            Err(e) => {
                return Err(e);
            },
        };
        if self.accept_operator(level) {
            let op = Operator::from(self.last_token());
            let right = match self.parse_operand(level) {
                Ok(e) => e,
                Err(e) => {
                    return Err(e);
                },
            };
            Ok(Expr::binary(left, op, right))
        } else {
            Ok(left)
        }
    }

    /// Parses an operand of a level.
    fn parse_operand(&mut self, level: Level) -> (res: Result<Expr, Error>)
        requires
            old(self).wf(),
        ensures
            final(self).wf(),
            final(self).stream() == old(self).stream(),
            yields(
                res,
                operand(old(self).stream(), old(self).position(), level),
                old(self).position(),
                final(self).position(),
            ),
            res matches Ok(e) ==> literals_ok(e@),
        decreases old(self).stream().len() - old(self).position(), place(level),
    {
        match level {
            Level::Equality => self.parse_binary(Level::Comparison),
            Level::Comparison => self.parse_binary(Level::Addition),
            Level::Addition => self.parse_unary(),
        }
    }

    /// Parses a unary expression.
    fn parse_unary(&mut self) -> (res: Result<Expr, Error>)
        requires
            old(self).wf(),
        ensures
            final(self).wf(),
            final(self).stream() == old(self).stream(),
            yields(
                res,
                unary(old(self).stream(), old(self).position()),
                old(self).position(),
                final(self).position(),
            ),
            res matches Ok(e) ==> literals_ok(e@),
        decreases old(self).stream().len() - old(self).position(), 1nat,
    {
        if self.accept(TokenType::TMinus) || self.accept(TokenType::TBang) {
            let op = Operator::from(self.last_token());
            match self.parse_expression() {
                Ok(right) => Ok(Expr::unary(op, right)),
                Err(e) => Err(e),
            }
        } else {
            self.parse_primary()
        }
    }

    /// Parses a literal, a name or an expression in parentheses.
    fn parse_primary(&mut self) -> (res: Result<Expr, Error>)
        requires
            old(self).wf(),
        ensures
            final(self).wf(),
            final(self).stream() == old(self).stream(),
            yields(
                res,
                primary(old(self).stream(), old(self).position()),
                old(self).position(),
                final(self).position(),
            ),
            res matches Ok(e) ==> literals_ok(e@),
        decreases old(self).stream().len() - old(self).position(), 0nat,
    {
        if self.accept(TokenType::TNumber) {
            Ok(Expr::number(self.last_lexeme().as_str()))
        } else if self.accept(TokenType::TString) {
            let chars = chars_of(self.last_lexeme().as_str());
            assert(quoted_lexeme(self.stream()[self.n - 1].lexeme));
            let value = text_of(&chars, 1, chars.len() - 1);
            Ok(Expr::string(value.as_str()))
        } else if self.accept(TokenType::TNil) {
            Ok(Expr::nil())
        } else if self.accept(TokenType::TTrue) {
            Ok(Expr::bool(true))
        } else if self.accept(TokenType::TFalse) {
            Ok(Expr::bool(false))
        } else if self.accept(TokenType::TLeftParen) {
            let expr = match self.parse_expression() {
                Ok(e) => e,
                Err(e) => {
                    return Err(e);
                },
            };
            match self.consume(TokenType::TRightParen, "Expect ')' after expression.") {
                Ok(_) => {},
                Err(e) => {
                    return Err(e);
                },
            }
            Ok(Expr::grouping(expr))
        } else if self.accept(TokenType::TIdentifier) {
            Ok(Expr::variable(self.last_lexeme().as_str()))
        } else {
            Err(self.syntax_error("Expected primary"))
        }
    }
}

/// Parses a token list into a program: every statement up to the end of
/// the input, or the first syntax error.
pub fn parse(tokens: Tokens) -> (res: Result<AST, Error>)
    requires
        well_formed(tokens@),
    ensures
        match program(tokens@) {
            Ok(p) => res matches Ok(ast) && ast@ == p && program_ok(ast@),
            Err(e) => res matches Err(x) && x@ == e,
        },
{
    let mut parser = Parser::new(tokens);
    parser.parse_top()
}

} // verus!

//! The scanner: from source text to tokens.
//!
//! The scanner reads the characters from left to right. At each position it
//! takes the longest lexeme that starts there, emits a token, an error or
//! nothing, and moves on; it never stops at an error. [`scan_step`] says what
//! one step does, [`scan_from`] what all of them give, and the executable
//! scanner is proved to compute exactly that.

use vstd::prelude::*;
use vstd::string::StringExecFns;

use crate::number::{all_digits, is_number, is_number_text};
use crate::reader::Source;
use crate::text::{chars_of, text_of, unicode_alphabetic, unicode_alphanumeric};

verus! {

/// The kinds of tokens.
#[derive(Debug, PartialEq, Eq, Structural, Clone, Copy)]
pub enum TokenType {
    // Single-character tokens
    TLeftParen,
    TRightParen,
    TLeftBrace,
    TRightBrace,
    TComma,
    TDot,
    TMinus,
    TPlus,
    TSemicolon,
    TSlash,
    TStar,
    // One or two character tokens
    TBang,
    TBangEqual,
    TEqual,
    TEqualEqual,
    TGreater,
    TGreaterEqual,
    TLess,
    TLessEqual,
    // Literals
    TIdentifier,
    TString,
    TNumber,
    // Keywords
    TAnd,
    TClass,
    TElse,
    TFalse,
    TFun,
    TFor,
    TIf,
    TNil,
    TOr,
    TPrint,
    TReturn,
    TSuper,
    TThis,
    TTrue,
    TVar,
    TWhile,
    // End of input
    TEof,
}

/// What a literal token stands for: the contents of a string, or the text
/// of a number, kept as it was written.
#[derive(Debug, PartialEq)]
pub enum Literal {
    Str(String),
    Num(String),
    Absent,
}

/// A token: its kind, the source text it was scanned from, its literal and
/// the line on which it ends.
#[derive(Debug, PartialEq)]
pub struct Token {
    pub toktype: TokenType,
    pub lexeme: String,
    pub literal: Literal,
    pub line: usize,
}

/// The tokens of a source text.
#[derive(Debug)]
pub struct Tokens {
    pub tokens: Vec<Token>,
}

/// A lexical error.
#[derive(Debug, PartialEq, Eq, Structural, Clone, Copy)]
pub enum ScanError {
    UnexpectedCharacter { line: usize, ch: char },
    UnterminatedString { line: usize },
}

/// All the lexical errors of a source text, in the order of the text. There
/// is at least one.
#[derive(Debug)]
pub struct Error(Vec<ScanError>);

/// The mathematical value of a [`Literal`].
pub enum LiteralView {
    Str(Seq<char>),
    Num(Seq<char>),
    Absent,
}

/// The mathematical value of a [`Token`].
pub struct TokenView {
    pub toktype: TokenType,
    pub lexeme: Seq<char>,
    pub literal: LiteralView,
    pub line: usize,
}

impl View for Literal {
    type V = LiteralView;

    open spec fn view(&self) -> LiteralView {
        match self {
            Literal::Str(s) => LiteralView::Str(s@),
            Literal::Num(s) => LiteralView::Num(s@),
            Literal::Absent => LiteralView::Absent,
        }
    }
}

impl View for Token {
    type V = TokenView;

    open spec fn view(&self) -> TokenView {
        TokenView {
            toktype: self.toktype,
            lexeme: self.lexeme@,
            literal: self.literal@,
            line: self.line,
        }
    }
}

/// The views of a list of tokens.
pub open spec fn token_views(tokens: Seq<Token>) -> Seq<TokenView> {
    tokens.map_values(|t: Token| t@)
}

impl View for Tokens {
    type V = Seq<TokenView>;

    open spec fn view(&self) -> Seq<TokenView> {
        token_views(self.tokens@)
    }
}

impl View for Error {
    type V = Seq<ScanError>;

    closed spec fn view(&self) -> Seq<ScanError> {
        self.0@
    }
}

impl Token {
    /// A token with the given parts.
    pub fn new(toktype: TokenType, lexeme: &str, literal: Literal, line: usize) -> (token: Token)
        ensures
            token@ == (TokenView { toktype, lexeme: lexeme@, literal: literal@, line }),
    {
        Token { toktype, lexeme: String::from_str(lexeme), literal, line }
    }
}

impl Tokens {
    /// Whether the token list is well formed, as every token list of the
    /// scanner is.
    pub fn is_well_formed(&self) -> (r: bool)
        ensures
            r == well_formed(self@),
    {
        let n = self.tokens.len();
        if n == 0 {
            return false;
        }
        if self.tokens[n - 1].toktype != TokenType::TEof {
            return false;
        }
        let mut i: usize = 0;
        while i < n
            invariant
                i <= n == self.tokens.len(),
                self@.len() == n,
                self@.last().toktype is TEof,
                forall|j: int| 0 <= j < i && j < n - 1 ==> !((#[trigger] self@[j]).toktype is TEof),
                forall|j: int|
                    0 <= j < i && (#[trigger] self@[j]).toktype is TString ==> quoted_lexeme(
                        self@[j].lexeme,
                    ),
                forall|j: int|
                    0 <= j < i && (#[trigger] self@[j]).toktype is TNumber ==> is_number_text(
                        self@[j].lexeme,
                    ),
            decreases n - i,
        {
            let token = &self.tokens[i];
            assert(token@ == self@[i as int]);
            if i < n - 1 && token.toktype == TokenType::TEof {
                return false;
            }
            if token.toktype == TokenType::TString {
                let chars = chars_of(token.lexeme.as_str());
                if chars.len() < 2 || chars[0] != '"' || chars[chars.len() - 1] != '"' {
                    return false;
                }
            }
            if token.toktype == TokenType::TNumber && !is_number(token.lexeme.as_str()) {
                return false;
            }
            i += 1;
        }
        true
    }
}

impl Error {
    /// The errors, in the order of the text.
    pub fn errors(&self) -> (r: &Vec<ScanError>)
        ensures
            r@ == self@,
    {
        &self.0
    }

    /// An iterator over the errors, in the order of the text.
    pub fn iter(&self) -> (r: std::slice::Iter<'_, ScanError>)
        ensures
            vstd::std_specs::slice::into_iter_elts(r) == self@,
    {
        self.0.iter()
    }
}

// ----------------------------------------------------------------------
// The lexical grammar
// ----------------------------------------------------------------------

/// The classes of characters of which the scanner takes maximal runs.
#[derive(Debug, PartialEq, Eq, Structural, Clone, Copy)]
pub enum CharClass {
    /// A decimal digit.
    Digit,
    /// A character that may go on an identifier.
    Word,
    /// Any character but a newline: the rest of a comment.
    InComment,
    /// Any character but a double quote: the inside of a string.
    InString,
    /// A space, a tab or a carriage return.
    Blank,
}

/// Whether `c` is one of `0` to `9`.
pub open spec fn is_digit(c: char) -> bool {
    '0' <= c <= '9'
}

/// Whether an identifier may start with `c`.
pub open spec fn starts_identifier(c: char) -> bool {
    unicode_alphabetic(c) || c == '_'
}

/// Whether `c` belongs to a class.
pub open spec fn in_class(class: CharClass, c: char) -> bool {
    match class {
        CharClass::Digit => is_digit(c),
        CharClass::Word => unicode_alphanumeric(c) || c == '_',
        CharClass::InComment => c != '\n',
        CharClass::InString => c != '"',
        CharClass::Blank => c == ' ' || c == '\r' || c == '\t',
    }
}

/// Where the maximal run of characters of a class that starts at `from`
/// ends: the first index at or after `from` whose character is not in the
/// class, or the length of the text.
pub open spec fn run_end(s: Seq<char>, from: int, class: CharClass) -> int
    decreases s.len() - from,
{
    if 0 <= from < s.len() && in_class(class, s[from]) {
        run_end(s, from + 1, class)
    } else {
        from
    }
}

/// The line counter after a newline. It stays where it is once it has
/// reached the largest `usize`, which takes a text too long for memory.
pub open spec fn next_line(line: usize) -> usize {
    if line < usize::MAX {
        (line + 1) as usize
    } else {
        line
    }
}

/// The line counter after the characters `s[from..to]`, each newline among
/// them counted.
pub open spec fn line_after(s: Seq<char>, from: int, to: int, line: usize) -> usize
    decreases to - from,
{
    if from >= to {
        line
    } else {
        line_after(
            s,
            from + 1,
            to,
            if s[from] == '\n' {
                next_line(line)
            } else {
                line
            },
        )
    }
}

/// The token of a character that is a token by itself.
pub open spec fn simple_symbol(c: char) -> Option<TokenType> {
    if c == '(' {
        Some(TokenType::TLeftParen)
    } else if c == ')' {
        Some(TokenType::TRightParen)
    } else if c == '{' {
        Some(TokenType::TLeftBrace)
    } else if c == '}' {
        Some(TokenType::TRightBrace)
    } else if c == ',' {
        Some(TokenType::TComma)
    } else if c == '.' {
        Some(TokenType::TDot)
    } else if c == '-' {
        Some(TokenType::TMinus)
    } else if c == '+' {
        Some(TokenType::TPlus)
    } else if c == ';' {
        Some(TokenType::TSemicolon)
    } else if c == '*' {
        Some(TokenType::TStar)
    } else {
        None
    }
}

/// The two operators that start with `c`, where `c` is one of `! = < >`:
/// the one that is `c` alone, and the one that is `c` with a `=` behind it.
pub open spec fn compare_pair(c: char) -> Option<(TokenType, TokenType)> {
    if c == '!' {
        Some((TokenType::TBang, TokenType::TBangEqual))
    } else if c == '=' {
        Some((TokenType::TEqual, TokenType::TEqualEqual))
    } else if c == '<' {
        Some((TokenType::TLess, TokenType::TLessEqual))
    } else if c == '>' {
        Some((TokenType::TGreater, TokenType::TGreaterEqual))
    } else {
        None
    }
}

/// The operator that starts at `start` with one of `! = < >`, and where it
/// ends: the two-character operator where a `=` follows, else the
/// one-character one.
pub open spec fn compare_symbol(s: Seq<char>, start: int) -> Option<(TokenType, int)> {
    match compare_pair(s[start]) {
        Some((alone, with_equal)) => if start + 1 < s.len() && s[start + 1] == '=' {
            Some((with_equal, start + 2))
        } else {
            Some((alone, start + 1))
        },
        None => None,
    }
}

/// Where the number that starts at `start` ends: after the digits, or, where
/// a dot and at least one digit follow them, after the digits behind the
/// dot. A dot that no digit follows is not part of the number.
pub open spec fn number_end(s: Seq<char>, start: int) -> int {
    let whole = run_end(s, start, CharClass::Digit);
    if whole + 1 < s.len() && s[whole] == '.' && is_digit(s[whole + 1]) {
        run_end(s, whole + 1, CharClass::Digit)
    } else {
        whole
    }
}

/// Where the identifier or keyword that starts at `start` ends.
pub open spec fn identifier_end(s: Seq<char>, start: int) -> int {
    run_end(s, start + 1, CharClass::Word)
}

/// The kind of the token with lexeme `word`: the keyword of that spelling,
/// or an identifier.
pub open spec fn word_type(word: Seq<char>) -> TokenType {
    if word == "and"@ {
        TokenType::TAnd
    } else if word == "class"@ {
        TokenType::TClass
    } else if word == "else"@ {
        TokenType::TElse
    } else if word == "false"@ {
        TokenType::TFalse
    } else if word == "for"@ {
        TokenType::TFor
    } else if word == "fun"@ {
        TokenType::TFun
    } else if word == "if"@ {
        TokenType::TIf
    } else if word == "nil"@ {
        TokenType::TNil
    } else if word == "or"@ {
        TokenType::TOr
    } else if word == "print"@ {
        TokenType::TPrint
    } else if word == "return"@ {
        TokenType::TReturn
    } else if word == "super"@ {
        TokenType::TSuper
    } else if word == "this"@ {
        TokenType::TThis
    } else if word == "true"@ {
        TokenType::TTrue
    } else if word == "var"@ {
        TokenType::TVar
    } else if word == "while"@ {
        TokenType::TWhile
    } else {
        TokenType::TIdentifier
    }
}

/// What one step of the scanner yields: where the next step starts, the
/// line counter, and the token or the error of this step, if any.
pub struct Step {
    pub next: int,
    pub line: usize,
    pub token: Option<TokenView>,
    pub error: Option<ScanError>,
}

/// A step that emits a token without a literal for `s[start..end]`.
pub open spec fn emit(s: Seq<char>, start: int, end: int, toktype: TokenType, line: usize) -> Step {
    Step {
        next: end,
        line,
        token: Some(
            TokenView {
                toktype,
                lexeme: s.subrange(start, end),
                literal: LiteralView::Absent,
                line,
            },
        ),
        error: None,
    }
}

/// A step that emits nothing.
pub open spec fn skip(end: int, line: usize) -> Step {
    Step { next: end, line, token: None, error: None }
}

/// The step at a double quote. The string runs up to the next double quote,
/// newlines included, and its token carries the line on which it ends.
/// Where no double quote follows, the step yields one error and no token,
/// and the rest of the text is used up.
pub open spec fn string_step(s: Seq<char>, start: int, line: usize) -> Step {
    let close = run_end(s, start + 1, CharClass::InString);
    let line_then = line_after(s, start + 1, close, line);
    if close >= s.len() {
        Step {
            next: s.len() as int,
            line: line_then,
            token: None,
            error: Some(ScanError::UnterminatedString { line: line_then }),
        }
    } else {
        Step {
            next: close + 1,
            line: line_then,
            token: Some(
                TokenView {
                    toktype: TokenType::TString,
                    lexeme: s.subrange(start, close + 1),
                    literal: LiteralView::Str(s.subrange(start + 1, close)),
                    line: line_then,
                },
            ),
            error: None,
        }
    }
}

/// The step of the scanner at `start`, a position inside the text.
pub open spec fn scan_step(s: Seq<char>, start: int, line: usize) -> Step
    recommends
        0 <= start < s.len(),
{
    let c = s[start];
    if let Some(toktype) = simple_symbol(c) {
        emit(s, start, start + 1, toktype, line)
    } else if let Some((toktype, end)) = compare_symbol(s, start) {
        emit(s, start, end, toktype, line)
    } else if c == '/' {
        if start + 1 < s.len() && s[start + 1] == '/' {
            // a comment runs up to the end of the line
            skip(run_end(s, start + 2, CharClass::InComment), line)
        } else {
            emit(s, start, start + 1, TokenType::TSlash, line)
        }
    } else if in_class(CharClass::Blank, c) {
        // blanks are skipped, as many as there are
        skip(run_end(s, start, CharClass::Blank), line)
    } else if c == '\n' {
        skip(start + 1, next_line(line))
    } else if c == '"' {
        string_step(s, start, line)
    } else if is_digit(c) {
        let end = number_end(s, start);
        Step {
            next: end,
            line,
            token: Some(
                TokenView {
                    toktype: TokenType::TNumber,
                    lexeme: s.subrange(start, end),
                    literal: LiteralView::Num(s.subrange(start, end)),
                    line,
                },
            ),
            error: None,
        }
    } else if starts_identifier(c) {
        let end = identifier_end(s, start);
        emit(s, start, end, word_type(s.subrange(start, end)), line)
    } else {
        Step {
            next: start + 1,
            line,
            token: None,
            error: Some(ScanError::UnexpectedCharacter { line, ch: c }),
        }
    }
}

/// The sequence of the value in an option: one item or none.
pub open spec fn item<T>(o: Option<T>) -> Seq<T> {
    match o {
        Some(t) => seq![t],
        None => Seq::empty(),
    }
}

/// The token that ends every token list.
pub open spec fn eof_token(line: usize) -> TokenView {
    TokenView {
        toktype: TokenType::TEof,
        lexeme: Seq::empty(),
        literal: LiteralView::Absent,
        line,
    }
}

/// The outcome of a scan: the tokens, the errors, and the line counter at
/// the end of the text.
pub struct Scan {
    pub tokens: Seq<TokenView>,
    pub errors: Seq<ScanError>,
    pub line: usize,
}

/// A maximal run ends at or after its start and inside the text, holds
/// characters of its class only, and stops only at a character that is
/// not in the class or at the end of the text.
pub proof fn lemma_run_end(s: Seq<char>, from: int, class: CharClass)
    requires
        0 <= from <= s.len(),
    ensures
        from <= run_end(s, from, class) <= s.len(),
        forall|i: int| from <= i < run_end(s, from, class) ==> in_class(class, #[trigger] s[i]),
        run_end(s, from, class) < s.len() ==> !in_class(class, s[run_end(s, from, class)]),
    decreases s.len() - from,
{
    if from < s.len() && in_class(class, s[from]) {
        lemma_run_end(s, from + 1, class);
    }
}

/// Every step moves forward and stays inside the text.
pub proof fn lemma_step_advances(s: Seq<char>, start: int, line: usize)
    requires
        0 <= start < s.len(),
    ensures
        start < scan_step(s, start, line).next <= s.len(),
{
    lemma_run_end(s, start + 1, CharClass::InString);
    lemma_run_end(s, start + 1, CharClass::Word);
    lemma_run_end(s, start, CharClass::Digit);
    let whole = run_end(s, start, CharClass::Digit);
    if whole + 1 <= s.len() {
        lemma_run_end(s, whole + 1, CharClass::Digit);
    }
    if start + 2 <= s.len() {
        lemma_run_end(s, start + 2, CharClass::InComment);
    }
    lemma_run_end(s, start + 1, CharClass::Blank);
}

/// The scan of the text from `start` on, with the line counter at `line`:
/// the tokens and errors of the steps in order, then the end-of-input token
/// with the line that the counter has reached.
pub open spec fn scan_from(s: Seq<char>, start: int, line: usize) -> Scan
    decreases s.len() - start,
{
    if start < 0 || start >= s.len() {
        Scan { tokens: seq![eof_token(line)], errors: Seq::empty(), line }
    } else {
        let step = scan_step(s, start, line);
        proof {
            lemma_step_advances(s, start, line);
        }
        let rest = scan_from(s, step.next, step.line);
        Scan {
            tokens: item(step.token) + rest.tokens,
            errors: item(step.error) + rest.errors,
            line: rest.line,
        }
    }
}

/// The scan of a whole text. Lines are counted from one.
pub open spec fn scan_text(s: Seq<char>) -> Scan {
    scan_from(s, 0, 1)
}

/// What every token list of the scanner has: the end-of-input token at its
/// end and nowhere else, a lexeme between two double quotes for each string,
/// and for each number a lexeme that stands for a number.
pub open spec fn well_formed(tokens: Seq<TokenView>) -> bool {
    &&& tokens.len() > 0
    &&& tokens.last().toktype is TEof
    &&& forall|i: int|
        0 <= i < tokens.len() - 1 ==> !((#[trigger] tokens[i]).toktype is TEof)
    &&& forall|i: int|
        0 <= i < tokens.len() && (#[trigger] tokens[i]).toktype is TString ==> quoted_lexeme(
            tokens[i].lexeme,
        )
    &&& forall|i: int|
        0 <= i < tokens.len() && (#[trigger] tokens[i]).toktype is TNumber ==> is_number_text(
            tokens[i].lexeme,
        )
}

/// Whether a lexeme begins and ends with a double quote of its own.
pub open spec fn quoted_lexeme(lexeme: Seq<char>) -> bool {
    lexeme.len() >= 2 && lexeme[0] == '"' && lexeme.last() == '"'
}

/// The token of a step is never the end-of-input token. Its lexeme is the
/// very text that the step takes, and its line is the line on which that
/// text ends. The lexeme of a string token stands between double quotes,
/// and the lexeme of a number token stands for a number.
pub proof fn lemma_step_token(s: Seq<char>, start: int, line: usize)
    requires
        0 <= start < s.len(),
    ensures
        scan_step(s, start, line).token matches Some(t) ==> {
            &&& !(t.toktype is TEof)
            &&& t.lexeme == s.subrange(start, scan_step(s, start, line).next)
            &&& t.line == scan_step(s, start, line).line
            &&& t.toktype is TString ==> quoted_lexeme(t.lexeme)
            &&& t.toktype is TNumber ==> is_number_text(t.lexeme)
        },
        !(scan_step(s, start, line).token is Some && scan_step(s, start, line).error is Some),
{
    lemma_step_advances(s, start, line);
    lemma_run_end(s, start + 1, CharClass::InString);
    if is_digit(s[start]) {
        let whole = run_end(s, start, CharClass::Digit);
        lemma_run_end(s, start, CharClass::Digit);
        let end = number_end(s, start);
        let lexeme = s.subrange(start, end);
        if whole + 1 < s.len() && s[whole] == '.' && is_digit(s[whole + 1]) {
            lemma_run_end(s, whole + 1, CharClass::Digit);
            assert(run_end(s, whole + 1, CharClass::Digit) == run_end(
                s,
                whole + 2,
                CharClass::Digit,
            ));
            lemma_run_end(s, whole + 2, CharClass::Digit);
            assert(all_digits(lexeme, whole + 1 - start, lexeme.len() as int)) by {
                assert forall|i: int| whole + 1 - start <= i < lexeme.len() implies '0'
                    <= #[trigger] lexeme[i] <= '9' by {
                    assert(in_class(CharClass::Digit, s[start + i]));
                }
            }
        }
        assert(all_digits(lexeme, 0, whole - start)) by {
            assert forall|i: int| 0 <= i < whole - start implies '0' <= #[trigger] lexeme[i]
                <= '9' by {
                assert(in_class(CharClass::Digit, s[start + i]));
            }
        }
    }
}

/// Every scan gives a well-formed token list, whatever the text: its last
/// token is the end-of-input token, which carries the line that the counter
/// has reached at the end of the text, and no other token is one.
pub proof fn lemma_scan_well_formed(s: Seq<char>, start: int, line: usize)
    ensures
        well_formed(scan_from(s, start, line).tokens),
        scan_from(s, start, line).tokens.last() == eof_token(scan_from(s, start, line).line),
    decreases s.len() - start,
{
    if start < 0 || start >= s.len() {
    } else {
        let step = scan_step(s, start, line);
        lemma_step_advances(s, start, line);
        lemma_step_token(s, start, line);
        lemma_scan_well_formed(s, step.next, step.line);
        let rest = scan_from(s, step.next, step.line).tokens;
        let all = scan_from(s, start, line).tokens;
        let k = item(step.token).len() as int;
        assert(all =~= item(step.token) + rest);
        assert forall|i: int| 0 <= i < all.len() implies (#[trigger] all[i]) == (if i < k {
            step.token->0
        } else {
            rest[i - k]
        }) by {}
    }
}

/// Whether a lexeme holds a dot.
pub open spec fn has_dot(lexeme: Seq<char>) -> bool {
    exists|i: int| 0 <= i < lexeme.len() && lexeme[i] == '.'
}

/// Maximal munch. A step takes the longest lexeme that starts at its
/// position: where `=` follows one of `! = < >`, the token is the
/// two-character operator; a number ends only where no digit follows, nor,
/// as long as it has no fraction yet, a dot with a digit behind it; an
/// identifier or a keyword ends only where no character follows that may go
/// on it.
pub proof fn lemma_maximal_munch(s: Seq<char>, start: int, line: usize)
    requires
        0 <= start < s.len(),
    ensures
        compare_symbol(s, start) is Some && start + 1 < s.len() && s[start + 1] == '=' ==> {
            &&& scan_step(s, start, line).next == start + 2
            &&& scan_step(s, start, line).token matches Some(t)
            &&& (t.toktype is TBangEqual || t.toktype is TEqualEqual || t.toktype is TLessEqual
                || t.toktype is TGreaterEqual)
        },
        scan_step(s, start, line).token matches Some(t) ==> (t.toktype is TNumber ==> {
            let end = scan_step(s, start, line).next;
            &&& end < s.len() ==> !is_digit(s[end])
            &&& end + 1 < s.len() && s[end] == '.' && !has_dot(t.lexeme) ==> !is_digit(s[end + 1])
        }),
        scan_step(s, start, line).token matches Some(t) ==> (word_type(t.lexeme) == t.toktype ==> {
            let end = scan_step(s, start, line).next;
            end < s.len() ==> !in_class(CharClass::Word, s[end])
        }),
{
    let step = scan_step(s, start, line);
    lemma_step_advances(s, start, line);
    lemma_run_end(s, start, CharClass::Digit);
    let whole = run_end(s, start, CharClass::Digit);
    if whole + 1 <= s.len() {
        lemma_run_end(s, whole + 1, CharClass::Digit);
    }
    lemma_run_end(s, start + 1, CharClass::Word);
    lemma_run_end(s, start + 1, CharClass::InString);
    if let Some(t) = step.token {
        if t.toktype is TNumber && step.next != whole {
            assert(t.lexeme[whole - start] == '.');
        }
    }
}

/// The number of newlines among the characters `s[from..to]`.
pub open spec fn newlines(s: Seq<char>, from: int, to: int) -> nat
    decreases to - from,
{
    if from >= to {
        0
    } else if s[from] == '\n' {
        1 + newlines(s, from + 1, to)
    } else {
        newlines(s, from + 1, to)
    }
}

/// The line counter goes up by one for each newline, as far as a `usize`
/// goes.
pub proof fn lemma_lines_are_counted(s: Seq<char>, from: int, to: int, line: usize)
    ensures
        line_after(s, from, to, line) == if line + newlines(s, from, to) <= usize::MAX {
            line + newlines(s, from, to)
        } else {
            usize::MAX as int
        },
    decreases to - from,
{
    if from < to {
        lemma_lines_are_counted(
            s,
            from + 1,
            to,
            if s[from] == '\n' {
                next_line(line)
            } else {
                line
            },
        );
    }
}

/// Characters without a newline leave the line counter where it is.
proof fn lemma_line_stays(s: Seq<char>, from: int, to: int, line: usize)
    requires
        forall|i: int| from <= i < to ==> s[i] != '\n',
    ensures
        line_after(s, from, to, line) == line,
    decreases to - from,
{
    if from < to {
        lemma_line_stays(s, from + 1, to, line);
    }
}

/// Counting the newlines of a stretch is counting those of its first part,
/// then those of the rest.
proof fn lemma_line_splits(s: Seq<char>, from: int, mid: int, to: int, line: usize)
    requires
        from <= mid <= to,
    ensures
        line_after(s, from, to, line) == line_after(s, mid, to, line_after(s, from, mid, line)),
    decreases mid - from,
{
    if from < mid {
        lemma_line_splits(
            s,
            from + 1,
            mid,
            to,
            if s[from] == '\n' {
                next_line(line)
            } else {
                line
            },
        );
    }
}

/// A step counts the newlines of the characters that it takes, provided
/// that a newline does not go on an identifier.
proof fn lemma_step_counts_lines(s: Seq<char>, start: int, line: usize)
    requires
        0 <= start < s.len(),
        !in_class(CharClass::Word, '\n'),
    ensures
        scan_step(s, start, line).line == line_after(
            s,
            start,
            scan_step(s, start, line).next,
            line,
        ),
{
    let step = scan_step(s, start, line);
    let c = s[start];
    lemma_step_advances(s, start, line);
    if simple_symbol(c) is Some {
        lemma_line_stays(s, start, step.next, line);
    } else if compare_symbol(s, start) is Some {
        lemma_line_stays(s, start, step.next, line);
    } else if c == '/' {
        if start + 1 < s.len() && s[start + 1] == '/' {
            lemma_run_end(s, start + 2, CharClass::InComment);
            assert forall|i: int| start <= i < step.next implies s[i] != '\n' by {
                if i >= start + 2 {
                    assert(in_class(CharClass::InComment, s[i]));
                }
            }
        }
        lemma_line_stays(s, start, step.next, line);
    } else if in_class(CharClass::Blank, c) {
        lemma_run_end(s, start, CharClass::Blank);
        assert forall|i: int| start <= i < step.next implies s[i] != '\n' by {
            assert(in_class(CharClass::Blank, s[i]));
        }
        lemma_line_stays(s, start, step.next, line);
    } else if c == '\n' {
        assert(line_after(s, start + 1, start + 1, next_line(line)) == next_line(line));
    } else if c == '"' {
        let close = run_end(s, start + 1, CharClass::InString);
        lemma_run_end(s, start + 1, CharClass::InString);
        lemma_line_splits(s, start + 1, close, step.next, line);
        lemma_line_stays(s, close, step.next, line_after(s, start + 1, close, line));
    } else if is_digit(c) {
        let whole = run_end(s, start, CharClass::Digit);
        lemma_run_end(s, start, CharClass::Digit);
        if whole + 1 <= s.len() {
            lemma_run_end(s, whole + 1, CharClass::Digit);
        }
        assert forall|i: int| start <= i < step.next implies s[i] != '\n' by {
            if i < whole {
                assert(in_class(CharClass::Digit, s[i]));
            } else if i > whole {
                assert(in_class(CharClass::Digit, s[i]));
            }
        }
        lemma_line_stays(s, start, step.next, line);
    } else if starts_identifier(c) {
        lemma_run_end(s, start + 1, CharClass::Word);
        assert forall|i: int| start <= i < step.next implies s[i] != '\n' by {
            if i > start {
                assert(in_class(CharClass::Word, s[i]));
            }
        }
        lemma_line_stays(s, start, step.next, line);
    } else {
        lemma_line_stays(s, start, step.next, line);
    }
}

/// The line of the end-of-input token is the line of the end of the text:
/// the line at the start and one more for each newline behind it, wherever
/// the newline stands (between tokens, in a string, behind a comment). The
/// one condition is that a newline does not go on an identifier, which this
/// library does not assume of the standard library's tables.
pub proof fn lemma_final_line(s: Seq<char>, start: int, line: usize)
    requires
        0 <= start <= s.len(),
    ensures
        !in_class(CharClass::Word, '\n') ==> scan_from(s, start, line).line == line_after(
            s,
            start,
            s.len() as int,
            line,
        ),
    decreases s.len() - start,
{
    if start < s.len() && !in_class(CharClass::Word, '\n') {
        let step = scan_step(s, start, line);
        lemma_step_advances(s, start, line);
        lemma_step_counts_lines(s, start, line);
        lemma_final_line(s, step.next, step.line);
        lemma_line_splits(s, start, step.next, s.len() as int, line);
    }
}

// ----------------------------------------------------------------------
// The recognizers
// ----------------------------------------------------------------------

/// Whether `c` belongs to a class.
pub fn belongs(class: CharClass, c: char) -> (r: bool)
    ensures
        r == in_class(class, c),
{
    match class {
        CharClass::Digit => '0' <= c && c <= '9',
        CharClass::Word => c.is_alphanumeric() || c == '_',
        CharClass::InComment => c != '\n',
        CharClass::InString => c != '"',
        CharClass::Blank => c == ' ' || c == '\r' || c == '\t',
    }
}

/// The end of the maximal run of characters of a class that starts at
/// `from`.
pub fn scan_run(chars: &Vec<char>, from: usize, class: CharClass) -> (end: usize)
    requires
        from <= chars.len(),
    ensures
        end == run_end(chars@, from as int, class),
        from <= end <= chars.len(),
{
    let mut i: usize = from;
    while i < chars.len() && belongs(class, chars[i])
        invariant
            from <= i <= chars.len(),
            run_end(chars@, i as int, class) == run_end(chars@, from as int, class),
        decreases chars.len() - i,
    {
        i += 1;
    }
    i
}

/// Whether the character at index `at` is `ch`. Past the end of the text
/// there is no character.
pub fn peek(chars: &Vec<char>, at: usize, ch: char) -> (r: bool)
    ensures
        r == (at < chars.len() && chars@[at as int] == ch),
{
    at < chars.len() && chars[at] == ch
}

/// The token of a character that is a token by itself.
pub fn scan_simple_symbol(c: char) -> (r: Option<TokenType>)
    ensures
        r == simple_symbol(c),
{
    if c == '(' {
        Some(TokenType::TLeftParen)
    } else if c == ')' {
        Some(TokenType::TRightParen)
    } else if c == '{' {
        Some(TokenType::TLeftBrace)
    } else if c == '}' {
        Some(TokenType::TRightBrace)
    } else if c == ',' {
        Some(TokenType::TComma)
    } else if c == '.' {
        Some(TokenType::TDot)
    } else if c == '-' {
        Some(TokenType::TMinus)
    } else if c == '+' {
        Some(TokenType::TPlus)
    } else if c == ';' {
        Some(TokenType::TSemicolon)
    } else if c == '*' {
        Some(TokenType::TStar)
    } else {
        None
    }
}

/// The operator that starts at `start` with one of `! = < >`, with its end:
/// the longer operator wherever a `=` follows.
pub fn scan_compare_symbol(chars: &Vec<char>, start: usize) -> (r: Option<(TokenType, usize)>)
    requires
        start < chars.len(),
    ensures
        match r {
            Some((toktype, end)) => compare_symbol(chars@, start as int) == Some(
                (toktype, end as int),
            ),
            None => compare_symbol(chars@, start as int) is None,
        },
{
    let c = chars[start];
    let (alone, with_equal) = if c == '!' {
        (TokenType::TBang, TokenType::TBangEqual)
    } else if c == '=' {
        (TokenType::TEqual, TokenType::TEqualEqual)
    } else if c == '<' {
        (TokenType::TLess, TokenType::TLessEqual)
    } else if c == '>' {
        (TokenType::TGreater, TokenType::TGreaterEqual)
    } else {
        return None;
    };
    if peek(chars, start + 1, '=') {
        Some((with_equal, start + 2))
    } else {
        Some((alone, start + 1))
    }
}

/// The end of the number that starts at `start`.
pub fn scan_number(chars: &Vec<char>, start: usize) -> (end: usize)
    requires
        start <= chars.len(),
    ensures
        end == number_end(chars@, start as int),
        start <= end <= chars.len(),
{
    let whole = scan_run(chars, start, CharClass::Digit);
    if peek(chars, whole, '.') && whole + 1 < chars.len() && belongs(
        CharClass::Digit,
        chars[whole + 1],
    ) {
        scan_run(chars, whole + 1, CharClass::Digit)
    } else {
        whole
    }
}

/// The end of the identifier or keyword that starts at `start`.
pub fn scan_identifier(chars: &Vec<char>, start: usize) -> (end: usize)
    requires
        start < chars.len(),
    ensures
        end == identifier_end(chars@, start as int),
        start < end <= chars.len(),
{
    scan_run(chars, start + 1, CharClass::Word)
}

/// The end of the blanks that start at `start`.
pub fn ignore_whitespace(chars: &Vec<char>, start: usize) -> (end: usize)
    requires
        start <= chars.len(),
    ensures
        end == run_end(chars@, start as int, CharClass::Blank),
        start <= end <= chars.len(),
{
    scan_run(chars, start, CharClass::Blank)
}

/// The index of the double quote that closes the string opened at `start`,
/// or the length of the text where none does.
pub fn scan_string(chars: &Vec<char>, start: usize) -> (close: usize)
    requires
        start < chars.len(),
    ensures
        close == run_end(chars@, start + 1, CharClass::InString),
        start < close <= chars.len(),
{
    scan_run(chars, start + 1, CharClass::InString)
}

/// The line counter after the characters `chars[from..to]`.
pub fn count_lines(chars: &Vec<char>, from: usize, to: usize, line: usize) -> (r: usize)
    requires
        from <= to <= chars.len(),
    ensures
        r == line_after(chars@, from as int, to as int, line),
{
    let mut i: usize = from;
    let mut r: usize = line;
    while i < to
        invariant
            from <= i <= to <= chars.len(),
            line_after(chars@, i as int, to as int, r) == line_after(
                chars@,
                from as int,
                to as int,
                line,
            ),
        decreases to - i,
    {
        if chars[i] == '\n' && r < usize::MAX {
            r += 1;
        }
        i += 1;
    }
    r
}

/// The kind of the token with lexeme `word`.
pub fn keyword(word: &str) -> (r: TokenType)
    ensures
        r == word_type(word@),
{
    if word.eq("and") {
        TokenType::TAnd
    } else if word.eq("class") {
        TokenType::TClass
    } else if word.eq("else") {
        TokenType::TElse
    } else if word.eq("false") {
        TokenType::TFalse
    } else if word.eq("for") {
        TokenType::TFor
    } else if word.eq("fun") {
        TokenType::TFun
    } else if word.eq("if") {
        TokenType::TIf
    } else if word.eq("nil") {
        TokenType::TNil
    } else if word.eq("or") {
        TokenType::TOr
    } else if word.eq("print") {
        TokenType::TPrint
    } else if word.eq("return") {
        TokenType::TReturn
    } else if word.eq("super") {
        TokenType::TSuper
    } else if word.eq("this") {
        TokenType::TThis
    } else if word.eq("true") {
        TokenType::TTrue
    } else if word.eq("var") {
        TokenType::TVar
    } else if word.eq("while") {
        TokenType::TWhile
    } else {
        TokenType::TIdentifier
    }
}

// ----------------------------------------------------------------------
// The scanner
// ----------------------------------------------------------------------

/// The state of a scan: the text, the tokens and errors found so far, the
/// start of the lexeme at hand, the position of the next character, and
/// the line counter.
pub struct Scanner {
    source: Vec<char>,
    tokens: Vec<Token>,
    start: usize,
    current: usize,
    line: usize,
    errors: Vec<ScanError>,
}

impl Scanner {
    /// The two cursors are in order and inside the text.
    pub closed spec fn wf(&self) -> bool {
        self.start <= self.current <= self.source.len()
    }

    /// What the scan gives in the end: what it has found so far, then
    /// what the rest of the text holds.
    pub closed spec fn outcome(&self) -> Scan {
        let rest = scan_from(self.source@, self.current as int, self.line);
        Scan {
            tokens: token_views(self.tokens@) + rest.tokens,
            errors: self.errors@ + rest.errors,
            line: rest.line,
        }
    }

    /// The state after a step made from the state `before`.
    spec fn follows(&self, before: Scanner, step: Step) -> bool {
        &&& self.source == before.source
        &&& self.start == before.start
        &&& self.current == step.next
        &&& self.line == step.line
        &&& token_views(self.tokens@) == token_views(before.tokens@) + item(step.token)
        &&& self.errors@ == before.errors@ + item(step.error)
    }

    /// A scanner at the start of `source`, on line one.
    pub fn new(source: &str) -> (scanner: Scanner)
        ensures
            scanner.wf(),
            scanner.outcome() == scan_text(source@),
    {
        let scanner = Scanner {
            source: chars_of(source),
            tokens: Vec::new(),
            start: 0,
            current: 0,
            line: 1,
            errors: Vec::new(),
        };
        assert(token_views(scanner.tokens@) + scan_text(source@).tokens =~= scan_text(
            source@,
        ).tokens);
        assert(scanner.errors@ + scan_text(source@).errors =~= scan_text(source@).errors);
        scanner
    }

    fn error(&mut self, err: ScanError)
        ensures
            final(self).source == old(self).source,
            final(self).tokens == old(self).tokens,
            final(self).start == old(self).start,
            final(self).current == old(self).current,
            final(self).line == old(self).line,
            final(self).errors@ == old(self).errors@.push(err),
    {
        self.errors.push(err);
    }

    fn is_at_end(&self) -> (r: bool)
        ensures
            r == (self.current >= self.source.len()),
    {
        self.current >= self.source.len()
    }

    fn advance(&mut self) -> (c: char)
        requires
            old(self).current < old(self).source.len(),
        ensures
            c == old(self).source[old(self).current as int],
            final(self).current == old(self).current + 1,
            final(self).source == old(self).source,
            final(self).tokens == old(self).tokens,
            final(self).start == old(self).start,
            final(self).line == old(self).line,
            final(self).errors == old(self).errors,
    {
        let c = self.source[self.current];
        self.current += 1;
        c
    }

    fn matches(&mut self, expected: char) -> (r: bool)
        ensures
            r == (old(self).current < old(self).source.len() && old(self).source[old(
                self,
            ).current as int] == expected),
            final(self).current == if r {
                old(self).current + 1
            } else {
                old(self).current as int
            },
            final(self).source == old(self).source,
            final(self).tokens == old(self).tokens,
            final(self).start == old(self).start,
            final(self).line == old(self).line,
            final(self).errors == old(self).errors,
    {
        if self.is_at_end() {
            return false;
        }
        if self.source[self.current] != expected {
            return false;
        }
        self.current += 1;
        true
    }

    fn lexeme(&self) -> (r: String)
        requires
            self.wf(),
        ensures
            r@ == self.source@.subrange(self.start as int, self.current as int),
    {
        text_of(&self.source, self.start, self.current)
    }

    fn add_token(&mut self, toktype: TokenType)
        requires
            old(self).wf(),
        ensures
            final(self).follows(
                *old(self),
                emit(
                    old(self).source@,
                    old(self).start as int,
                    old(self).current as int,
                    toktype,
                    old(self).line,
                ),
            ),
    {
        self.add_token_with_literal(toktype, Literal::Absent);
    }

    fn add_token_with_literal(&mut self, toktype: TokenType, literal: Literal)
        requires
            old(self).wf(),
        ensures
            final(self).follows(
                *old(self),
                Step {
                    next: old(self).current as int,
                    line: old(self).line,
                    token: Some(
                        TokenView {
                            toktype,
                            lexeme: old(self).source@.subrange(
                                old(self).start as int,
                                old(self).current as int,
                            ),
                            literal: literal@,
                            line: old(self).line,
                        },
                    ),
                    error: None,
                },
            ),
    {
        let token = Token { toktype, lexeme: self.lexeme(), literal, line: self.line };
        self.tokens.push(token);
        assert(token_views(self.tokens@) =~= token_views(old(self).tokens@) + seq![token@]);
        assert(self.errors@ =~= old(self).errors@ + Seq::<ScanError>::empty());
    }

    /// Counts a newline.
    fn newline(&mut self)
        ensures
            final(self).line == next_line(old(self).line),
            final(self).source == old(self).source,
            final(self).tokens == old(self).tokens,
            final(self).start == old(self).start,
            final(self).current == old(self).current,
            final(self).errors == old(self).errors,
    {
        if self.line < usize::MAX {
            self.line += 1;
        }
    }

    /// One step: scans the lexeme that starts at the current position.
    fn scan_token(&mut self)
        requires
            old(self).wf(),
            old(self).start == old(self).current,
            old(self).current < old(self).source.len(),
        ensures
            final(self).wf(),
            final(self).follows(
                *old(self),
                scan_step(old(self).source@, old(self).current as int, old(self).line),
            ),
    {
        let c = self.advance();
        proof {
            lemma_step_advances(self.source@, self.start as int, self.line);
        }
        if let Some(toktype) = scan_simple_symbol(c) {
            self.add_token(toktype);
        } else if let Some((toktype, end)) = scan_compare_symbol(&self.source, self.start) {
            self.current = end;
            self.add_token(toktype);
        } else if c == '/' {
            if self.matches('/') {
                // a comment runs up to the end of the line
                self.current = scan_run(&self.source, self.current, CharClass::InComment);
                assert(token_views(self.tokens@) =~= token_views(old(self).tokens@) + Seq::<
                    TokenView,
                >::empty());
                assert(self.errors@ =~= old(self).errors@ + Seq::<ScanError>::empty());
            } else {
                self.add_token(TokenType::TSlash);
            }
        } else if belongs(CharClass::Blank, c) {
            self.current = ignore_whitespace(&self.source, self.start);
            assert(token_views(self.tokens@) =~= token_views(old(self).tokens@) + Seq::<
                TokenView,
            >::empty());
            assert(self.errors@ =~= old(self).errors@ + Seq::<ScanError>::empty());
        } else if c == '\n' {
            self.newline();
            assert(token_views(self.tokens@) =~= token_views(old(self).tokens@) + Seq::<
                TokenView,
            >::empty());
            assert(self.errors@ =~= old(self).errors@ + Seq::<ScanError>::empty());
        } else if c == '"' {
            self.string();
        } else if belongs(CharClass::Digit, c) {
            self.number();
        } else if c.is_alphabetic() || c == '_' {
            self.identifier();
        } else {
            self.error(ScanError::UnexpectedCharacter { line: self.line, ch: c });
            assert(token_views(self.tokens@) =~= token_views(old(self).tokens@) + Seq::<
                TokenView,
            >::empty());
            assert(self.errors@ =~= old(self).errors@ + seq![
                ScanError::UnexpectedCharacter { line: self.line, ch: c },
            ]);
        }
    }

    /// Scans a string, the opening quote of which has been taken.
    fn string(&mut self)
        requires
            old(self).wf(),
            old(self).current == old(self).start + 1,
        ensures
            final(self).wf(),
            final(self).follows(
                *old(self),
                string_step(old(self).source@, old(self).start as int, old(self).line),
            ),
    {
        let close = scan_string(&self.source, self.start);
        self.line = count_lines(&self.source, self.current, close, self.line);
        self.current = close;
        if self.is_at_end() {
            self.error(ScanError::UnterminatedString { line: self.line });
            assert(token_views(self.tokens@) =~= token_views(old(self).tokens@) + Seq::<
                TokenView,
            >::empty());
            assert(self.errors@ =~= old(self).errors@ + seq![
                ScanError::UnterminatedString { line: self.line },
            ]);
        } else {
            self.advance();
            let value = text_of(&self.source, self.start + 1, self.current - 1);
            self.add_token_with_literal(TokenType::TString, Literal::Str(value));
        }
    }

    /// Scans a number, the first digit of which has been taken.
    fn number(&mut self)
        requires
            old(self).wf(),
            old(self).current == old(self).start + 1,
        ensures
            final(self).wf(),
            final(self).follows(
                *old(self),
                Step {
                    next: number_end(old(self).source@, old(self).start as int),
                    line: old(self).line,
                    token: Some(
                        TokenView {
                            toktype: TokenType::TNumber,
                            lexeme: old(self).source@.subrange(
                                old(self).start as int,
                                number_end(old(self).source@, old(self).start as int),
                            ),
                            literal: LiteralView::Num(
                                old(self).source@.subrange(
                                    old(self).start as int,
                                    number_end(old(self).source@, old(self).start as int),
                                ),
                            ),
                            line: old(self).line,
                        },
                    ),
                    error: None,
                },
            ),
    {
        self.current = scan_number(&self.source, self.start);
        let text = self.lexeme();
        self.add_token_with_literal(TokenType::TNumber, Literal::Num(text));
    }

    /// Scans an identifier or a keyword, the first character of which has
    /// been taken.
    fn identifier(&mut self)
        requires
            old(self).wf(),
            old(self).current == old(self).start + 1,
        ensures
            final(self).wf(),
            final(self).follows(
                *old(self),
                emit(
                    old(self).source@,
                    old(self).start as int,
                    identifier_end(old(self).source@, old(self).start as int),
                    word_type(
                        old(self).source@.subrange(
                            old(self).start as int,
                            identifier_end(old(self).source@, old(self).start as int),
                        ),
                    ),
                    old(self).line,
                ),
            ),
    {
        self.current = scan_identifier(&self.source, self.start);
        let word = self.lexeme();
        let toktype = keyword(word.as_str());
        self.add_token(toktype);
    }

    /// Scans to the end of the text and appends the end-of-input token.
    fn run(&mut self)
        requires
            old(self).wf(),
        ensures
            token_views(final(self).tokens@) == old(self).outcome().tokens,
            final(self).errors@ == old(self).outcome().errors,
            final(self).line == old(self).outcome().line,
    {
        while !self.is_at_end()
            invariant
                self.wf(),
                self.outcome() == old(self).outcome(),
            decreases self.source.len() - self.current,
        {
            self.start = self.current;
            let ghost before = *self;
            proof {
                lemma_step_advances(self.source@, self.current as int, self.line);
            }
            self.scan_token();
            assert(self.outcome().tokens =~= before.outcome().tokens);
            assert(self.outcome().errors =~= before.outcome().errors);
        }
        let eof = Token {
            toktype: TokenType::TEof,
            lexeme: String::new(),
            literal: Literal::Absent,
            line: self.line,
        };
        let ghost before = *self;
        self.tokens.push(eof);
        assert(token_views(self.tokens@) =~= before.outcome().tokens);
        assert(self.errors@ =~= before.outcome().errors);
    }

    /// Scans the whole text. The result is the token list where the text
    /// has no lexical error, else all its errors.
    pub fn scan_tokens(self) -> (r: Result<Tokens, Error>)
        requires
            self.wf(),
        ensures
            match r {
                Ok(tokens) => tokens@ == self.outcome().tokens && self.outcome().errors.len() == 0,
                Err(errors) => errors@ == self.outcome().errors && errors@.len() > 0,
            },
    {
        let mut scanner = self;
        scanner.run();
        if scanner.errors.len() == 0 {
            Ok(Tokens { tokens: scanner.tokens })
        } else {
            Err(Error(scanner.errors))
        }
    }
}

/// Scans a text: all its tokens, the end-of-input token last, and all its
/// lexical errors. A text with errors still gives every token around them.
pub fn scan(source: &str) -> (r: (Vec<Token>, Vec<ScanError>))
    ensures
        token_views(r.0@) == scan_text(source@).tokens,
        r.1@ == scan_text(source@).errors,
        well_formed(token_views(r.0@)),
        token_views(r.0@).last() == eof_token(scan_text(source@).line),
{
    let mut scanner = Scanner::new(source);
    scanner.run();
    proof {
        lemma_scan_well_formed(source@, 0, 1);
    }
    (scanner.tokens, scanner.errors)
}

/// Scans a source: its tokens where it has no lexical error, else all its
/// errors.
pub fn tokenize(source: Source) -> (r: Result<Tokens, Error>)
    ensures
        match r {
            Ok(tokens) => tokens@ == scan_text(source@).tokens && scan_text(source@).errors.len()
                == 0 && well_formed(tokens@),
            Err(errors) => errors@ == scan_text(source@).errors && errors@.len() > 0,
        },
{
    proof {
        lemma_scan_well_formed(source@, 0, 1);
    }
    Scanner::new(source.contents.as_str()).scan_tokens()
}

} // verus!

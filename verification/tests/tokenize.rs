use lox::reader::Source;
use lox::tokenize::TokenType::{
    TAnd, TBang, TBangEqual, TClass, TComma, TDot, TElse, TEof, TEqual, TEqualEqual, TFalse, TFor,
    TFun, TGreater, TGreaterEqual, TIdentifier, TIf, TLeftBrace, TLeftParen, TLess, TLessEqual,
    TMinus, TNil, TNumber, TOr, TPlus, TPrint, TReturn, TRightBrace, TRightParen, TSemicolon,
    TSlash, TStar, TString, TSuper, TThis, TTrue, TVar, TWhile,
};
use lox::tokenize::{scan, tokenize, Literal, ScanError, Scanner, Token, TokenType, Tokens};

fn kinds(tokens: &Vec<Token>) -> Vec<TokenType> {
    tokens.iter().map(|t| t.toktype).collect()
}

fn triples(source: &str) -> Vec<(TokenType, String, usize)> {
    let (tokens, errors) = scan(source);
    assert!(errors.is_empty());
    tokens.into_iter().map(|t| (t.toktype, t.lexeme, t.line)).collect()
}

fn triple(toktype: TokenType, lexeme: &str, line: usize) -> (TokenType, String, usize) {
    (toktype, lexeme.to_string(), line)
}

#[test]
fn tokenize_its_alive() {
    assert_eq!(true, true);
}

#[test]
fn tokenize_single_character() {
    let scanner = Scanner::new("(){},.-+;*");
    let tokens = scanner.scan_tokens();
    assert_eq!(
        tokens.unwrap().tokens,
        vec![
            Token::new(TLeftParen, "(", Literal::Absent, 1),
            Token::new(TRightParen, ")", Literal::Absent, 1),
            Token::new(TLeftBrace, "{", Literal::Absent, 1),
            Token::new(TRightBrace, "}", Literal::Absent, 1),
            Token::new(TComma, ",", Literal::Absent, 1),
            Token::new(TDot, ".", Literal::Absent, 1),
            Token::new(TMinus, "-", Literal::Absent, 1),
            Token::new(TPlus, "+", Literal::Absent, 1),
            Token::new(TSemicolon, ";", Literal::Absent, 1),
            Token::new(TStar, "*", Literal::Absent, 1),
            Token::new(TEof, "", Literal::Absent, 1),
        ]
    );
}

#[test]
fn two_characters() {
    let scanner = Scanner::new("!  !=    < <=  > >= ==    =");
    let tokens = scanner.scan_tokens();
    assert_eq!(
        tokens.unwrap().tokens,
        vec![
            Token::new(TBang, "!", Literal::Absent, 1),
            Token::new(TBangEqual, "!=", Literal::Absent, 1),
            Token::new(TLess, "<", Literal::Absent, 1),
            Token::new(TLessEqual, "<=", Literal::Absent, 1),
            Token::new(TGreater, ">", Literal::Absent, 1),
            Token::new(TGreaterEqual, ">=", Literal::Absent, 1),
            Token::new(TEqualEqual, "==", Literal::Absent, 1),
            Token::new(TEqual, "=", Literal::Absent, 1),
            Token::new(TEof, "", Literal::Absent, 1),
        ]
    );
}

#[test]
fn tokenize_strings() {
    let scanner = Scanner::new("\"hello\" \"world\"");
    let tokens = scanner.scan_tokens();
    assert_eq!(
        tokens.unwrap().tokens,
        vec![
            Token::new(TString, "\"hello\"", Literal::Str("hello".to_string()), 1),
            Token::new(TString, "\"world\"", Literal::Str("world".to_string()), 1),
            Token::new(TEof, "", Literal::Absent, 1),
        ]
    );
}

#[test]
fn tokenize_numbers() {
    let scanner = Scanner::new("12345 123.45");
    let tokens = scanner.scan_tokens().unwrap().tokens;
    assert_eq!(
        tokens,
        vec![
            Token::new(TNumber, "12345", Literal::Num("12345".to_string()), 1),
            Token::new(TNumber, "123.45", Literal::Num("123.45".to_string()), 1),
            Token::new(TEof, "", Literal::Absent, 1),
        ]
    );
    // the literal's text reads as the number that was written
    let values: Vec<f64> = tokens
        .iter()
        .filter_map(|t| match &t.literal {
            Literal::Num(text) => Some(text.parse::<f64>().unwrap()),
            _ => None,
        })
        .collect();
    assert_eq!(values, vec![12345.0, 123.45]);
}

#[test]
fn tokenize_identifiers() {
    let scanner = Scanner::new("abc def123 ab_cd");
    let tokens = scanner.scan_tokens();
    assert_eq!(
        tokens.unwrap().tokens,
        vec![
            Token::new(TIdentifier, "abc", Literal::Absent, 1),
            Token::new(TIdentifier, "def123", Literal::Absent, 1),
            Token::new(TIdentifier, "ab_cd", Literal::Absent, 1),
            Token::new(TEof, "", Literal::Absent, 1),
        ]
    );
}

#[test]
fn tokenize_keywords() {
    let scanner = Scanner::new(
        "and class else false for fun if nil or print return super this true var while",
    );
    let tokens = scanner.scan_tokens();
    assert_eq!(
        tokens.unwrap().tokens,
        vec![
            Token::new(TAnd, "and", Literal::Absent, 1),
            Token::new(TClass, "class", Literal::Absent, 1),
            Token::new(TElse, "else", Literal::Absent, 1),
            Token::new(TFalse, "false", Literal::Absent, 1),
            Token::new(TFor, "for", Literal::Absent, 1),
            Token::new(TFun, "fun", Literal::Absent, 1),
            Token::new(TIf, "if", Literal::Absent, 1),
            Token::new(TNil, "nil", Literal::Absent, 1),
            Token::new(TOr, "or", Literal::Absent, 1),
            Token::new(TPrint, "print", Literal::Absent, 1),
            Token::new(TReturn, "return", Literal::Absent, 1),
            Token::new(TSuper, "super", Literal::Absent, 1),
            Token::new(TThis, "this", Literal::Absent, 1),
            Token::new(TTrue, "true", Literal::Absent, 1),
            Token::new(TVar, "var", Literal::Absent, 1),
            Token::new(TWhile, "while", Literal::Absent, 1),
            Token::new(TEof, "", Literal::Absent, 1),
        ]
    );
}

#[test]
fn tokenize2_its_alive() {
    assert_eq!(true, true);
}

#[test]
fn tokenize2_single_character() {
    assert_eq!(
        triples("(){},.-+;*"),
        vec![
            triple(TLeftParen, "(", 1),
            triple(TRightParen, ")", 1),
            triple(TLeftBrace, "{", 1),
            triple(TRightBrace, "}", 1),
            triple(TComma, ",", 1),
            triple(TDot, ".", 1),
            triple(TMinus, "-", 1),
            triple(TPlus, "+", 1),
            triple(TSemicolon, ";", 1),
            triple(TStar, "*", 1),
            triple(TEof, "", 1),
        ]
    )
}

#[test]
fn two_character() {
    assert_eq!(
        triples("! != < <= > >= == ="),
        vec![
            triple(TBang, "!", 1),
            triple(TBangEqual, "!=", 1),
            triple(TLess, "<", 1),
            triple(TLessEqual, "<=", 1),
            triple(TGreater, ">", 1),
            triple(TGreaterEqual, ">=", 1),
            triple(TEqualEqual, "==", 1),
            triple(TEqual, "=", 1),
            triple(TEof, "", 1),
        ]
    )
}

#[test]
fn tokenize2_strings() {
    assert_eq!(
        triples("\"hello\" \"world\""),
        vec![
            triple(TString, "\"hello\"", 1),
            triple(TString, "\"world\"", 1),
            triple(TEof, "", 1),
        ]
    )
}

#[test]
fn tokenize2_numbers() {
    assert_eq!(
        triples("12345 123.45"),
        vec![triple(TNumber, "12345", 1), triple(TNumber, "123.45", 1), triple(TEof, "", 1)]
    )
}

#[test]
fn tokenize2_identifiers() {
    assert_eq!(
        triples("abc def123 ab_cd"),
        vec![
            triple(TIdentifier, "abc", 1),
            triple(TIdentifier, "def123", 1),
            triple(TIdentifier, "ab_cd", 1),
            triple(TEof, "", 1),
        ]
    )
}

#[test]
fn tokenize2_keywords() {
    assert_eq!(
        triples("and class else false for fun if nil or print return super this true var while"),
        vec![
            triple(TAnd, "and", 1),
            triple(TClass, "class", 1),
            triple(TElse, "else", 1),
            triple(TFalse, "false", 1),
            triple(TFor, "for", 1),
            triple(TFun, "fun", 1),
            triple(TIf, "if", 1),
            triple(TNil, "nil", 1),
            triple(TOr, "or", 1),
            triple(TPrint, "print", 1),
            triple(TReturn, "return", 1),
            triple(TSuper, "super", 1),
            triple(TThis, "this", 1),
            triple(TTrue, "true", 1),
            triple(TVar, "var", 1),
            triple(TWhile, "while", 1),
            triple(TEof, "", 1),
        ]
    )
}

#[test]
fn empty_source_is_one_eof() {
    let (tokens, errors) = scan("");
    assert!(errors.is_empty());
    assert_eq!(tokens, vec![Token::new(TEof, "", Literal::Absent, 1)]);
}

#[test]
fn last_token_is_eof_with_final_line() {
    for (source, line) in [
        ("", 1),
        ("a", 1),
        ("a\n", 2),
        ("a\nb\n\nc", 4),
        ("\"x\ny\"", 2),
        ("// only a comment\n// another", 2),
        ("$\n$\n\"open", 3),
        ("\"open\n\n", 3),
    ] {
        let (tokens, _) = scan(source);
        let last = tokens.last().unwrap();
        assert_eq!(last.toktype, TEof, "{:?}", source);
        assert_eq!(last.lexeme, "", "{:?}", source);
        assert_eq!(last.literal, Literal::Absent, "{:?}", source);
        assert_eq!(last.line, line, "{:?}", source);
        let eofs = tokens.iter().filter(|t| t.toktype == TEof).count();
        assert_eq!(eofs, 1, "{:?}", source);
    }
}

#[test]
fn unterminated_string_is_one_error_and_no_token() {
    let (tokens, errors) = scan("\"unterminated");
    assert_eq!(errors, vec![ScanError::UnterminatedString { line: 1 }]);
    assert_eq!(tokens, vec![Token::new(TEof, "", Literal::Absent, 1)]);
}

#[test]
fn unterminated_string_reports_the_line_where_the_text_ends() {
    let (tokens, errors) = scan("var a;\n\"one\ntwo\nthree");
    assert_eq!(errors, vec![ScanError::UnterminatedString { line: 4 }]);
    assert_eq!(kinds(&tokens), vec![TVar, TIdentifier, TSemicolon, TEof]);
    assert_eq!(tokens.last().unwrap().line, 4);
}

#[test]
fn unexpected_character_does_not_stop_the_scan() {
    let (tokens, errors) = scan("abc $ def");
    assert_eq!(errors, vec![ScanError::UnexpectedCharacter { line: 1, ch: '$' }]);
    assert_eq!(
        tokens,
        vec![
            Token::new(TIdentifier, "abc", Literal::Absent, 1),
            Token::new(TIdentifier, "def", Literal::Absent, 1),
            Token::new(TEof, "", Literal::Absent, 1),
        ]
    );
}

#[test]
fn errors_are_batched_in_text_order() {
    let (tokens, errors) = scan("@ 1\n# 2\n^ \"open");
    assert_eq!(
        errors,
        vec![
            ScanError::UnexpectedCharacter { line: 1, ch: '@' },
            ScanError::UnexpectedCharacter { line: 2, ch: '#' },
            ScanError::UnexpectedCharacter { line: 3, ch: '^' },
            ScanError::UnterminatedString { line: 3 },
        ]
    );
    assert_eq!(kinds(&tokens), vec![TNumber, TNumber, TEof]);
}

#[test]
fn tokenize_fails_with_every_error() {
    let result = tokenize(Source::from("a $ b # c"));
    let errors = result.unwrap_err();
    assert_eq!(
        errors.errors(),
        &vec![
            ScanError::UnexpectedCharacter { line: 1, ch: '$' },
            ScanError::UnexpectedCharacter { line: 1, ch: '#' },
        ]
    );
}

#[test]
fn tokenize_succeeds_without_errors() {
    let tokens: Tokens = tokenize(Source::from("print 1;")).unwrap();
    assert_eq!(kinds(&tokens.tokens), vec![TPrint, TNumber, TSemicolon, TEof]);
    assert!(tokens.is_well_formed());
}

#[test]
fn less_or_equal_is_one_token() {
    let (tokens, errors) = scan("<=");
    assert!(errors.is_empty());
    assert_eq!(
        tokens,
        vec![
            Token::new(TLessEqual, "<=", Literal::Absent, 1),
            Token::new(TEof, "", Literal::Absent, 1),
        ]
    );
}

#[test]
fn operators_take_the_longest_match() {
    assert_eq!(
        triples("<==>=!==")
            .into_iter()
            .map(|t| t.0)
            .collect::<Vec<TokenType>>(),
        vec![TLessEqual, TEqual, TGreaterEqual, TBangEqual, TEqual, TEof]
    );
    assert_eq!(
        triples("===").into_iter().map(|t| t.0).collect::<Vec<TokenType>>(),
        vec![TEqualEqual, TEqual, TEof]
    );
}

#[test]
fn slash_and_comment() {
    assert_eq!(
        triples("1 / 2 // the rest / is \"ignored\"\n3"),
        vec![
            triple(TNumber, "1", 1),
            triple(TSlash, "/", 1),
            triple(TNumber, "2", 1),
            triple(TNumber, "3", 2),
            triple(TEof, "", 2),
        ]
    );
    assert_eq!(triples("// to the end"), vec![triple(TEof, "", 1)]);
    assert_eq!(triples("/"), vec![triple(TSlash, "/", 1), triple(TEof, "", 1)]);
}

#[test]
fn whitespace_is_skipped_and_newlines_are_counted() {
    assert_eq!(
        triples(" \t\r\n a \r\n\n b"),
        vec![triple(TIdentifier, "a", 2), triple(TIdentifier, "b", 4), triple(TEof, "", 4)]
    );
}

#[test]
fn string_keeps_newlines_and_carries_its_last_line() {
    let (tokens, errors) = scan("\"one\ntwo\" x");
    assert!(errors.is_empty());
    assert_eq!(
        tokens,
        vec![
            Token::new(TString, "\"one\ntwo\"", Literal::Str("one\ntwo".to_string()), 2),
            Token::new(TIdentifier, "x", Literal::Absent, 2),
            Token::new(TEof, "", Literal::Absent, 2),
        ]
    );
}

#[test]
fn empty_string_literal() {
    let (tokens, errors) = scan("\"\"");
    assert!(errors.is_empty());
    assert_eq!(
        tokens,
        vec![
            Token::new(TString, "\"\"", Literal::Str(String::new()), 1),
            Token::new(TEof, "", Literal::Absent, 1),
        ]
    );
}

#[test]
fn trailing_dot_is_not_part_of_a_number() {
    assert_eq!(
        triples("123."),
        vec![triple(TNumber, "123", 1), triple(TDot, ".", 1), triple(TEof, "", 1)]
    );
    assert_eq!(
        triples("1.x"),
        vec![
            triple(TNumber, "1", 1),
            triple(TDot, ".", 1),
            triple(TIdentifier, "x", 1),
            triple(TEof, "", 1),
        ]
    );
    assert_eq!(
        triples("1.2.3"),
        vec![
            triple(TNumber, "1.2", 1),
            triple(TDot, ".", 1),
            triple(TNumber, "3", 1),
            triple(TEof, "", 1),
        ]
    );
    assert_eq!(
        triples(".5"),
        vec![triple(TDot, ".", 1), triple(TNumber, "5", 1), triple(TEof, "", 1)]
    );
}

#[test]
fn identifiers_may_start_with_an_underscore() {
    assert_eq!(
        triples("_a _ __x1"),
        vec![
            triple(TIdentifier, "_a", 1),
            triple(TIdentifier, "_", 1),
            triple(TIdentifier, "__x1", 1),
            triple(TEof, "", 1),
        ]
    );
}

#[test]
fn identifiers_follow_unicode_letters_and_digits() {
    // letters beyond ASCII start and continue an identifier,
    // digits beyond ASCII continue one but do not start a number
    assert_eq!(
        triples("été x٣ 京都"),
        vec![
            triple(TIdentifier, "été", 1),
            triple(TIdentifier, "x٣", 1),
            triple(TIdentifier, "京都", 1),
            triple(TEof, "", 1),
        ]
    );
    let (tokens, errors) = scan("٣");
    assert_eq!(errors, vec![ScanError::UnexpectedCharacter { line: 1, ch: '٣' }]);
    assert_eq!(kinds(&tokens), vec![TEof]);
    // a symbol that is no letter ends an identifier
    assert_eq!(
        triples("a-b"),
        vec![
            triple(TIdentifier, "a", 1),
            triple(TMinus, "-", 1),
            triple(TIdentifier, "b", 1),
            triple(TEof, "", 1),
        ]
    );
}

#[test]
fn keywords_are_matched_on_the_whole_lexeme() {
    assert_eq!(
        triples("or orchid and_ And var1"),
        vec![
            triple(TOr, "or", 1),
            triple(TIdentifier, "orchid", 1),
            triple(TIdentifier, "and_", 1),
            triple(TIdentifier, "And", 1),
            triple(TIdentifier, "var1", 1),
            triple(TEof, "", 1),
        ]
    );
}

#[test]
fn hand_made_token_lists_are_checked() {
    let good = Tokens {
        tokens: vec![
            Token::new(TString, "\"a\"", Literal::Str("a".to_string()), 1),
            Token::new(TNumber, "1.5", Literal::Num("1.5".to_string()), 1),
            Token::new(TEof, "", Literal::Absent, 1),
        ],
    };
    assert!(good.is_well_formed());
    let empty = Tokens { tokens: vec![] };
    assert!(!empty.is_well_formed());
    let no_eof = Tokens { tokens: vec![Token::new(TNumber, "1", Literal::Absent, 1)] };
    assert!(!no_eof.is_well_formed());
    let two_eofs = Tokens {
        tokens: vec![
            Token::new(TEof, "", Literal::Absent, 1),
            Token::new(TEof, "", Literal::Absent, 1),
        ],
    };
    assert!(!two_eofs.is_well_formed());
    let bare_string = Tokens {
        tokens: vec![
            Token::new(TString, "a", Literal::Absent, 1),
            Token::new(TEof, "", Literal::Absent, 1),
        ],
    };
    assert!(!bare_string.is_well_formed());
    let one_quote = Tokens {
        tokens: vec![
            Token::new(TString, "\"", Literal::Absent, 1),
            Token::new(TEof, "", Literal::Absent, 1),
        ],
    };
    assert!(!one_quote.is_well_formed());
    for text in ["", "1.", ".5", "1e5", "1.2.3", "-1", "abc", "1 "] {
        let bad_number = Tokens {
            tokens: vec![
                Token::new(TNumber, text, Literal::Absent, 1),
                Token::new(TEof, "", Literal::Absent, 1),
            ],
        };
        assert!(!bad_number.is_well_formed(), "{:?}", text);
    }
}

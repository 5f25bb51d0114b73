use monkey::lexer::tokens::{lookup_ident, Token};
use monkey::lexer::{is_digit, is_letter, is_whitespace, ByteClass, Lexer};
use monkey::text::{push_decimal, push_signed_decimal, same_text};

fn tokens_of(input: &str) -> Vec<Token> {
    let mut lexer = Lexer::new(input);
    let mut tokens = Vec::new();
    loop {
        let token = lexer.next_token();
        if token == Token::EOF {
            return tokens;
        }
        tokens.push(token);
    }
}

fn ident(location: usize, raw: &str) -> Token {
    Token::Ident { location, raw: raw.to_string() }
}

#[test]
fn punctuation_and_assignment() {
    let mut lexer = Lexer::new("=+(){},;");
    assert_eq!(lexer.next_token(), Token::Assign { location: 0 });
    assert_eq!(lexer.next_token(), Token::Plus { location: 1 });
    assert_eq!(lexer.next_token(), Token::LeftParen { location: 2 });
    assert_eq!(lexer.next_token(), Token::RightParen { location: 3 });
    assert_eq!(lexer.next_token(), Token::LeftBrace { location: 4 });
    assert_eq!(lexer.next_token(), Token::RightBrace { location: 5 });
    assert_eq!(lexer.next_token(), Token::Comma { location: 6 });
    assert_eq!(lexer.next_token(), Token::Semicolon { location: 7 });
    assert_eq!(lexer.next_token(), Token::EOF);
}

#[test]
fn single_character_operators() {
    assert_eq!(
        tokens_of("+-*/!<>"),
        vec![
            Token::Plus { location: 0 },
            Token::Minus { location: 1 },
            Token::Multiply { location: 2 },
            Token::Divide { location: 3 },
            Token::Negation { location: 4 },
            Token::LessThan { location: 5 },
            Token::GreaterThan { location: 6 },
        ]
    );
}

#[test]
fn two_character_operators_carry_the_offset_of_their_first_character() {
    assert_eq!(
        tokens_of("== != = ! =! !=="),
        vec![
            Token::Equals { location: 0 },
            Token::NotEquals { location: 3 },
            Token::Assign { location: 6 },
            Token::Negation { location: 8 },
            Token::Assign { location: 10 },
            Token::Negation { location: 11 },
            Token::NotEquals { location: 13 },
            Token::Assign { location: 15 },
        ]
    );
    assert_eq!(
        tokens_of("==="),
        vec![Token::Equals { location: 0 }, Token::Assign { location: 2 }]
    );
}

#[test]
fn keywords_take_precedence_over_identifiers() {
    assert_eq!(tokens_of("let"), vec![Token::Let { location: 0 }]);
    assert_eq!(
        tokens_of("fn let true false if else return"),
        vec![
            Token::Function { location: 0 },
            Token::Let { location: 3 },
            Token::True { location: 7 },
            Token::False { location: 12 },
            Token::If { location: 18 },
            Token::Else { location: 21 },
            Token::Return { location: 26 },
        ]
    );
}

#[test]
fn identifiers_span_their_full_text() {
    for text in ["_ignored", "add10", "apple_bottom", "jeans_3_boots"] {
        assert_eq!(tokens_of(text), vec![ident(0, text)]);
    }
}

#[test]
fn keyword_match_is_exact_and_case_sensitive() {
    assert_eq!(
        tokens_of("Let lets letx _let iff FN"),
        vec![
            ident(0, "Let"),
            ident(4, "lets"),
            ident(9, "letx"),
            ident(14, "_let"),
            ident(19, "iff"),
            ident(23, "FN"),
        ]
    );
}

#[test]
fn integers_are_runs_of_digits() {
    assert_eq!(
        tokens_of("5 10 838383 007 0"),
        vec![
            Token::Int { location: 0, value: 5 },
            Token::Int { location: 2, value: 10 },
            Token::Int { location: 5, value: 838383 },
            Token::Int { location: 12, value: 7 },
            Token::Int { location: 16, value: 0 },
        ]
    );
    assert_eq!(tokens_of("12ab"), vec![Token::Int { location: 0, value: 12 }, ident(2, "ab")]);
}

#[test]
fn largest_integer_fits_and_the_next_one_is_illegal() {
    assert_eq!(
        tokens_of("9223372036854775807"),
        vec![Token::Int { location: 0, value: i64::MAX }]
    );
    assert_eq!(
        tokens_of(" 9223372036854775808;"),
        vec![
            Token::Illegal { location: 1, raw: "9223372036854775808".to_string() },
            Token::Semicolon { location: 20 },
        ]
    );
    assert_eq!(
        tokens_of("99999999999999999999999999"),
        vec![Token::Illegal { location: 0, raw: "99999999999999999999999999".to_string() }]
    );
}

#[test]
fn unrecognized_bytes_become_illegal_tokens_one_for_each_byte() {
    assert_eq!(
        tokens_of("@ #x"),
        vec![
            Token::Illegal { location: 0, raw: "@".to_string() },
            Token::Illegal { location: 2, raw: "#".to_string() },
            ident(3, "x"),
        ]
    );
    // U+00E9 is the two bytes C3 A9 in the source.
    assert_eq!(
        tokens_of("\u{e9}"),
        vec![
            Token::Illegal { location: 0, raw: "\u{c3}".to_string() },
            Token::Illegal { location: 1, raw: "\u{a9}".to_string() },
        ]
    );
}

#[test]
fn whitespace_carries_no_token() {
    assert_eq!(
        tokens_of(" \tlet\r\nx \n"),
        vec![Token::Let { location: 2 }, ident(7, "x")]
    );
    assert_eq!(tokens_of(""), vec![]);
    assert_eq!(tokens_of(" \t\r\n"), vec![]);
}

#[test]
fn eof_is_yielded_again_and_again() {
    for input in ["", "  ", "x", "x  "] {
        let mut lexer = Lexer::new(input);
        while lexer.next_token() != Token::EOF {}
        for _ in 0..5 {
            assert_eq!(lexer.next_token(), Token::EOF);
        }
    }
}

#[test]
fn a_small_program() {
    let input = "let five = 5;\nlet add = fn(x, y) {\n  x + y;\n};\nif (5 < 10) { return true; } else { return false; }\n10 == 10; 10 != 9;";
    let tokens = tokens_of(input);
    assert_eq!(tokens.len(), 46);
    assert_eq!(tokens[0], Token::Let { location: 0 });
    assert_eq!(tokens[1], ident(4, "five"));
    assert_eq!(tokens[2], Token::Assign { location: 9 });
    assert_eq!(tokens[3], Token::Int { location: 11, value: 5 });
    assert_eq!(tokens[4], Token::Semicolon { location: 12 });
    assert_eq!(tokens[8], Token::Function { location: 24 });
    assert_eq!(tokens[21], Token::If { location: 47 });
    assert_eq!(tokens[32], Token::Else { location: 76 });
    assert_eq!(tokens[39], Token::Equals { location: 102 });
    assert_eq!(tokens[43], Token::NotEquals { location: 112 });
    assert_eq!(tokens[45], Token::Semicolon { location: 116 });
}

/// The bytes of a token as the source holds them.
fn span(token: &Token) -> Vec<u8> {
    match token {
        Token::Illegal { raw, .. } => raw.chars().map(|c| c as u32 as u8).collect(),
        Token::Ident { raw, .. } => raw.as_bytes().to_vec(),
        Token::Int { .. } => panic!("spans of integers are taken from the source"),
        Token::Equals { .. } => b"==".to_vec(),
        Token::NotEquals { .. } => b"!=".to_vec(),
        Token::Assign { .. } => b"=".to_vec(),
        Token::Plus { .. } => b"+".to_vec(),
        Token::Minus { .. } => b"-".to_vec(),
        Token::Multiply { .. } => b"*".to_vec(),
        Token::Divide { .. } => b"/".to_vec(),
        Token::Negation { .. } => b"!".to_vec(),
        Token::LessThan { .. } => b"<".to_vec(),
        Token::GreaterThan { .. } => b">".to_vec(),
        Token::Comma { .. } => b",".to_vec(),
        Token::Semicolon { .. } => b";".to_vec(),
        Token::LeftParen { .. } => b"(".to_vec(),
        Token::RightParen { .. } => b")".to_vec(),
        Token::LeftBrace { .. } => b"{".to_vec(),
        Token::RightBrace { .. } => b"}".to_vec(),
        Token::Function { .. } => b"fn".to_vec(),
        Token::Let { .. } => b"let".to_vec(),
        Token::True { .. } => b"true".to_vec(),
        Token::False { .. } => b"false".to_vec(),
        Token::If { .. } => b"if".to_vec(),
        Token::Else { .. } => b"else".to_vec(),
        Token::Return { .. } => b"return".to_vec(),
        Token::EOF => Vec::new(),
    }
}

#[test]
fn spans_put_together_are_the_source_without_whitespace() {
    let input = "let x=5 ;\n\tif(a!=b){return !true;}  @ \u{e9} == fn_1 _";
    let rebuilt: Vec<u8> = tokens_of(input)
        .iter()
        .flat_map(|token| match token {
            Token::Int { value, .. } => value.to_string().into_bytes(),
            other => span(other),
        })
        .collect();
    let visible: Vec<u8> = input
        .bytes()
        .filter(|b| !matches!(b, b' ' | b'\t' | b'\n' | b'\r'))
        .collect();
    assert_eq!(rebuilt, visible);
}

#[test]
fn locations_are_offsets_of_first_bytes() {
    let input = "  let  foo = 42 ;";
    let tokens = tokens_of(input);
    assert_eq!(
        tokens,
        vec![
            Token::Let { location: 2 },
            ident(7, "foo"),
            Token::Assign { location: 11 },
            Token::Int { location: 13, value: 42 },
            Token::Semicolon { location: 16 },
        ]
    );
}

#[test]
fn lookup_ident_knows_the_seven_keywords() {
    assert_eq!(lookup_ident(&ident(3, "fn")), Some(Token::Function { location: 3 }));
    assert_eq!(lookup_ident(&ident(0, "let")), Some(Token::Let { location: 0 }));
    assert_eq!(lookup_ident(&ident(1, "true")), Some(Token::True { location: 1 }));
    assert_eq!(lookup_ident(&ident(2, "false")), Some(Token::False { location: 2 }));
    assert_eq!(lookup_ident(&ident(4, "if")), Some(Token::If { location: 4 }));
    assert_eq!(lookup_ident(&ident(5, "else")), Some(Token::Else { location: 5 }));
    assert_eq!(lookup_ident(&ident(6, "return")), Some(Token::Return { location: 6 }));
}

#[test]
fn lookup_ident_answers_nothing_for_other_tokens() {
    assert_eq!(lookup_ident(&ident(0, "foobar")), None);
    assert_eq!(lookup_ident(&ident(0, "LET")), None);
    assert_eq!(lookup_ident(&ident(0, "")), None);
    assert_eq!(lookup_ident(&ident(0, "le")), None);
    assert_eq!(lookup_ident(&Token::Illegal { location: 0, raw: "let".to_string() }), None);
    assert_eq!(lookup_ident(&Token::Let { location: 0 }), None);
    assert_eq!(lookup_ident(&Token::EOF), None);
}

#[test]
fn tokens_are_described_by_name_and_fields() {
    assert_eq!(Token::EOF.describe(), "EOF");
    assert_eq!(Token::Assign { location: 7 }.describe(), "Assign { location: 7 }");
    assert_eq!(Token::Return { location: 120 }.describe(), "Return { location: 120 }");
    assert_eq!(ident(4, "x").describe(), "Ident { location: 4, raw: \"x\" }");
    assert_eq!(
        Token::Illegal { location: 0, raw: "@".to_string() }.describe(),
        "Illegal { location: 0, raw: \"@\" }"
    );
    assert_eq!(
        Token::Int { location: 6, value: 5 }.describe(),
        "Int { location: 6, value: 5 }"
    );
    // The raw text stands between the quotes as it is, unescaped.
    assert_eq!(
        Token::Illegal { location: 3, raw: "\"".to_string() }.describe(),
        "Illegal { location: 3, raw: \"\"\" }"
    );
    assert_eq!(
        Token::Illegal { location: 0, raw: "\\".to_string() }.describe(),
        "Illegal { location: 0, raw: \"\\\" }"
    );
    assert_eq!(
        Token::Int { location: 0, value: i64::MIN }.describe(),
        "Int { location: 0, value: -9223372036854775808 }"
    );
}

#[test]
fn cloned_token_equals_the_token() {
    for token in [
        Token::EOF,
        ident(9, "name"),
        Token::Int { location: 1, value: -3 },
        Token::Illegal { location: 2, raw: "?".to_string() },
        Token::LeftBrace { location: 5 },
    ] {
        assert_eq!(token.clone(), token);
    }
}

#[test]
fn decimal_numerals() {
    let mut text = String::from("n=");
    push_decimal(&mut text, 0);
    text.push(',');
    push_decimal(&mut text, 9);
    text.push(',');
    push_decimal(&mut text, 10);
    text.push(',');
    push_decimal(&mut text, u64::MAX);
    assert_eq!(text, "n=0,9,10,18446744073709551615");

    let mut text = String::new();
    push_signed_decimal(&mut text, -1);
    push_signed_decimal(&mut text, 0);
    push_signed_decimal(&mut text, i64::MAX);
    assert_eq!(text, "-109223372036854775807");
}

#[test]
fn same_text_compares_characters() {
    assert!(same_text("let", "let"));
    assert!(same_text("", ""));
    assert!(!same_text("let", "lets"));
    assert!(!same_text("let", "leT"));
    assert!(!same_text("", "x"));
}

#[test]
fn byte_classes() {
    for b in [b' ', b'\t', b'\n', b'\r'] {
        assert!(is_whitespace(b));
        assert!(ByteClass::Whitespace.holds(b));
        assert!(!ByteClass::Word.holds(b));
    }
    assert!(!is_whitespace(0x0b));
    for b in [b'a', b'z', b'A', b'Z', b'_'] {
        assert!(is_letter(b));
        assert!(ByteClass::Word.holds(b));
        assert!(!ByteClass::Digit.holds(b));
    }
    for b in [b'0', b'9'] {
        assert!(is_digit(b));
        assert!(!is_letter(b));
        assert!(ByteClass::Word.holds(b));
        assert!(ByteClass::Digit.holds(b));
    }
    for b in [b'@', b'[', b'`', b'{', b'/', b':', 0x80u8] {
        assert!(!is_letter(b) && !is_digit(b) && !is_whitespace(b));
    }
}

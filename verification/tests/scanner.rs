use rox::scanner::scanner::{is_alphanumeric, ScanError, Scanner};
use rox::scanner::token::{Token, TokenType};

fn kinds(src: &str) -> Vec<TokenType> {
    let mut scanner = Scanner::new(src);
    scanner
        .scan()
        .expect("should scan")
        .iter()
        .map(|t| t.token_type)
        .collect()
}

fn scan_error(src: &str) -> ScanError {
    let mut scanner = Scanner::new(src);
    match scanner.scan() {
        Ok(_) => panic!("should not scan"),
        Err(e) => e,
    }
}

#[test]
fn simple_scan() {
    let mut scanner = Scanner::new("this is a simple scan");
    let tokens = scanner.scan().expect("This should be a valid scan");
    assert_eq!(tokens.len(), 6);
    assert_eq!(tokens[0].token_type, TokenType::This);
    assert_eq!(tokens[1].token_type, TokenType::Identifier);
    assert_eq!(tokens[1].lexeme, Some("is"));
    assert_eq!(tokens[4].lexeme, Some("scan"));
    assert_eq!(tokens[5].token_type, TokenType::EOF);
}

#[test]
fn scan_empty_src() {
    let mut scanner = Scanner::new("");
    let token = scanner
        .scan_token()
        .expect("Should emit at least one token");
    assert_eq!(token.token_type, TokenType::EOF);
}

#[test]
fn unknown_character() {
    let mut scanner = Scanner::new("#");
    match scanner.scan_token() {
        Err(_) => {}
        _ => panic!("# is not a valid char"),
    }
}

#[test]
fn scan_reserved_keywords() {
    let mut scanner = Scanner::new("and class else");
    let token = scanner.scan_token().unwrap();
    assert_eq!(token.token_type, TokenType::And);
    let token = scanner.scan_token().unwrap();
    assert_eq!(token.token_type, TokenType::Class);
    let token = scanner.scan_token().unwrap();
    assert_eq!(token.token_type, TokenType::Else);
}

#[test]
fn scan_identifier() {
    let mut scanner = Scanner::new("Hello");
    let token = scanner.scan_token().unwrap();
    assert_eq!(token.token_type, TokenType::Identifier);
    assert_eq!(
        token.lexeme.expect("identifier should have a lexeme"),
        "Hello"
    );
}

#[test]
fn scan_number() {
    let mut scanner = Scanner::new("1337");
    let token = scanner.scan_token().unwrap();
    assert_eq!(token.token_type, TokenType::Number);
    assert_eq!(
        token.lexeme.expect("identifier should have a lexeme"),
        "1337"
    );
}

#[test]
fn scan_decimal_number() {
    let mut scanner = Scanner::new("1337.42");
    let token = scanner.scan_token().unwrap();
    assert_eq!(token.token_type, TokenType::Number);
    assert_eq!(
        token.lexeme.expect("identifier should have a lexeme"),
        "1337.42"
    );
}

#[test]
fn scan_whitespaces() {
    let mut scanner = Scanner::new("      \t\r\n");
    let token = scanner.scan_token().unwrap();
    assert_eq!(token.token_type, TokenType::EOF);
}

#[test]
fn scan_whitespaces_and_comment() {
    let mut scanner = Scanner::new("      \t\r\n// this is a comment and should be ignored\n// this should also be a comment even though afterwards we simply get EOF");
    let token = scanner.scan_token().unwrap();
    assert_eq!(token.token_type, TokenType::EOF);
    assert_eq!(token.line, 3);
}

#[test]
fn scan_all_keywords() {
    let src = "and class else false for fun if nil or print return super this true var while";
    assert_eq!(
        kinds(src),
        vec![
            TokenType::And,
            TokenType::Class,
            TokenType::Else,
            TokenType::False,
            TokenType::For,
            TokenType::Fun,
            TokenType::If,
            TokenType::Nil,
            TokenType::Or,
            TokenType::Print,
            TokenType::Return,
            TokenType::Super,
            TokenType::This,
            TokenType::True,
            TokenType::Var,
            TokenType::While,
            TokenType::EOF,
        ]
    );
}

#[test]
fn keywords_match_exactly() {
    assert_eq!(
        kinds("And classes _if forx"),
        vec![
            TokenType::Identifier,
            TokenType::Identifier,
            TokenType::Identifier,
            TokenType::Identifier,
            TokenType::EOF,
        ]
    );
}

#[test]
fn scan_punctuation() {
    assert_eq!(
        kinds("(){},.-+;/*"),
        vec![
            TokenType::LeftParen,
            TokenType::RightParen,
            TokenType::LeftBrace,
            TokenType::RightBrace,
            TokenType::Comma,
            TokenType::Dot,
            TokenType::Minus,
            TokenType::Plus,
            TokenType::Semicolon,
            TokenType::Slash,
            TokenType::Star,
            TokenType::EOF,
        ]
    );
}

#[test]
fn scan_comparisons() {
    assert_eq!(
        kinds("! != = == > >= < <="),
        vec![
            TokenType::Bang,
            TokenType::BangEqual,
            TokenType::Equal,
            TokenType::EqualEqual,
            TokenType::Greater,
            TokenType::GreaterEqual,
            TokenType::Less,
            TokenType::LessEqual,
            TokenType::EOF,
        ]
    );
    let mut scanner = Scanner::new("<=");
    let token = scanner.scan_token().unwrap();
    assert_eq!(token.lexeme, Some("<="));
    let mut scanner = Scanner::new("<");
    let token = scanner.scan_token().unwrap();
    assert_eq!(token.lexeme, Some("<"));
}

#[test]
fn scan_string_with_quotes() {
    let mut scanner = Scanner::new("\"hello\" + \"!\";");
    let tokens = scanner.scan().unwrap();
    assert_eq!(tokens.len(), 5);
    assert_eq!(tokens[0].token_type, TokenType::StringLiteral);
    assert_eq!(tokens[0].lexeme, Some("\"hello\""));
    assert_eq!(tokens[1].token_type, TokenType::Plus);
    assert_eq!(tokens[2].lexeme, Some("\"!\""));
    assert_eq!(tokens[3].token_type, TokenType::Semicolon);
    assert_eq!(tokens[4].token_type, TokenType::EOF);
}

#[test]
fn scan_string_over_lines() {
    let mut scanner = Scanner::new("\"a\nb\nc\" x");
    let tokens = scanner.scan().unwrap();
    assert_eq!(tokens[0].lexeme, Some("\"a\nb\nc\""));
    assert_eq!(tokens[0].line, 3);
    assert_eq!(tokens[1].line, 3);
}

#[test]
fn scan_string_with_wide_characters() {
    let mut scanner = Scanner::new("\"héllo wörld ✓\" after");
    let tokens = scanner.scan().unwrap();
    assert_eq!(tokens[0].lexeme, Some("\"héllo wörld ✓\""));
    assert_eq!(tokens[1].lexeme, Some("after"));
}

#[test]
fn unterminated_string() {
    let e = scan_error("x = \"never closed\n");
    assert!(e.unterminated);
    assert_eq!(e.line, 2);
    assert_eq!(e.lexeme, "\"never closed\n");
    assert_eq!(
        e.to_string(),
        "scanning error in line 2 at \"never closed\n: unterminated string"
    );
}

#[test]
fn unknown_character_message() {
    let e = scan_error("a\n  #");
    assert!(!e.unterminated);
    assert_eq!(e.line, 2);
    assert_eq!(e.lexeme, "#");
    assert_eq!(e.to_string(), "scanning error in line 2 at #");
}

#[test]
fn unknown_wide_character() {
    let e = scan_error("é");
    assert_eq!(e.lexeme, "é");
    assert_eq!(e.to_string(), "scanning error in line 1 at é");
    let e = scan_error("✓x");
    assert_eq!(e.lexeme, "✓");
}

#[test]
fn number_takes_a_point_only_before_a_digit() {
    let mut scanner = Scanner::new("12.x 7. 3.14.15");
    let tokens = scanner.scan().unwrap();
    let texts: Vec<Option<&str>> = tokens.iter().map(|t| t.lexeme).collect();
    assert_eq!(
        texts,
        vec![
            Some("12"),
            Some("."),
            Some("x"),
            Some("7"),
            Some("."),
            Some("3.14"),
            Some("."),
            Some("15"),
            None
        ]
    );
}

#[test]
fn slash_alone_is_a_token() {
    assert_eq!(
        kinds("a / b // c / d\n/ e"),
        vec![
            TokenType::Identifier,
            TokenType::Slash,
            TokenType::Identifier,
            TokenType::Slash,
            TokenType::Identifier,
            TokenType::EOF,
        ]
    );
}

#[test]
fn comment_at_end_without_line_feed() {
    let mut scanner = Scanner::new("x // tail");
    let tokens = scanner.scan().unwrap();
    assert_eq!(tokens.len(), 2);
    assert_eq!(tokens[1].token_type, TokenType::EOF);
    assert_eq!(tokens[1].line, 1);
}

fn find_all<'a>(src: &'a str, tokens: &Vec<Token<'a>>) {
    // every lexeme is found in the source, each behind the one before it
    let mut pos = 0;
    for t in tokens.iter() {
        if let Some(l) = t.lexeme {
            let start = pos + src[pos..].find(l).expect("lexeme should be in the source");
            let end = start + l.len();
            assert_eq!(&src[start..end], l);
            pos = end;
        } else {
            assert_eq!(t.token_type, TokenType::EOF);
        }
    }
}

#[test]
fn lexemes_are_slices_of_the_source() {
    let src = "var x = (2+3)*4; // c\nprint \"s\" >= nil;\nfun f(a,b){return a.b(1);}";
    let mut scanner = Scanner::new(src);
    let tokens = scanner.scan().unwrap();
    find_all(src, &tokens);
}

#[test]
fn one_end_of_input_and_it_is_last() {
    for src in ["", "   ", "a b c", "1 + 2 * 3;", "// only a comment", "x\n\ny"] {
        let ks = kinds(src);
        assert_eq!(*ks.last().unwrap(), TokenType::EOF);
        assert_eq!(ks.iter().filter(|k| **k == TokenType::EOF).count(), 1);
    }
}

#[test]
fn lines_never_go_down() {
    let src = "a\nb // c\n\n\"x\ny\" z\n\n\nw";
    let mut scanner = Scanner::new(src);
    let tokens = scanner.scan().unwrap();
    let lines: Vec<usize> = tokens.iter().map(|t| t.line).collect();
    assert_eq!(lines, vec![1, 2, 5, 5, 8, 8]);
    for w in lines.windows(2) {
        assert!(w[0] <= w[1]);
    }
}

#[test]
fn blank_space_stops_at_the_first_token_byte() {
    let mut scanner = Scanner::new(" \t\r\n // c\n  / x");
    let token = scanner.scan_token().unwrap();
    assert_eq!(token.token_type, TokenType::Slash);
    assert_eq!(token.line, 3);
    let token = scanner.scan_token().unwrap();
    assert_eq!(token.lexeme, Some("x"));
}

#[test]
fn scanning_goes_on_after_end_of_input() {
    let mut scanner = Scanner::new("x");
    assert_eq!(scanner.scan_token().unwrap().token_type, TokenType::Identifier);
    assert_eq!(scanner.scan_token().unwrap().token_type, TokenType::EOF);
    assert_eq!(scanner.scan_token().unwrap().token_type, TokenType::EOF);
}

#[test]
fn word_bytes() {
    assert!(is_alphanumeric(b'a'));
    assert!(is_alphanumeric(b'Z'));
    assert!(is_alphanumeric(b'0'));
    assert!(is_alphanumeric(b'_'));
    assert!(!is_alphanumeric(b'-'));
    assert!(!is_alphanumeric(0xc3));
}

#[test]
fn token_display_forms() {
    assert_eq!(TokenType::LeftParen.to_string(), "(");
    assert_eq!(TokenType::BangEqual.to_string(), "!=");
    assert_eq!(TokenType::Identifier.to_string(), "IDENT");
    assert_eq!(TokenType::StringLiteral.to_string(), "LITERAL");
    assert_eq!(TokenType::Number.to_string(), "NUMBER");
    assert_eq!(TokenType::While.to_string(), "WHILE");
    assert_eq!(TokenType::EOF.to_string(), "EOF");
    assert_eq!(TokenType::Error.as_str(), "ERROR");
}

#[test]
fn token_new_keeps_its_parts() {
    let t = Token::new(TokenType::Identifier, 7, Some("abc"));
    assert_eq!(t.token_type, TokenType::Identifier);
    assert_eq!(t.line, 7);
    assert_eq!(t.lexeme, Some("abc"));
    assert_eq!(t.text(), "abc");
    let e = Token::end_marker();
    assert_eq!(e.token_type, TokenType::EOF);
    assert_eq!(e.line, 0);
    assert_eq!(e.text(), "");
}

use rox::scanner::{Scanner, Token, TokenKind, ScanErrorKind, ScannerError};

fn scan_all(src: &str) -> Vec<Result<Token, ScannerError>> {
    let mut s = Scanner::new(src.as_bytes().to_vec());
    s.lex()
}

fn scan_kinds(src: &str) -> Vec<TokenKind> {
    scan_all(src)
        .into_iter()
        .map(|r| r.expect("expected a token, got a scan error").kind)
        .collect()
}

#[test]
fn single_character_tokens() {
    assert_eq!(
        scan_kinds("( ) { } [ ] , . ; + - * / %"),
        vec![
            TokenKind::LeftParenthesis,
            TokenKind::RightParenthesis,
            TokenKind::LeftBrace,
            TokenKind::RightBrace,
            TokenKind::LeftBracket,
            TokenKind::RightBracket,
            TokenKind::Comma,
            TokenKind::Dot,
            TokenKind::Semicolon,
            TokenKind::Plus,
            TokenKind::Minus,
            TokenKind::Star,
            TokenKind::Slash,
            TokenKind::Modulo,
        ]
    );
}

#[test]
fn one_byte_lookahead_operators() {
    assert_eq!(
        scan_kinds("< <= > >= ! != = =="),
        vec![
            TokenKind::Less,
            TokenKind::LessEqual,
            TokenKind::Greater,
            TokenKind::GreaterEqual,
            TokenKind::Bang,
            TokenKind::BangEqual,
            TokenKind::Equal,
            TokenKind::EqualEqual,
        ]
    );
}

#[test]
fn number_literals_carry_their_bits() {
    let toks = scan_all("1.25 3 0.5");
    let values: Vec<f64> = toks
        .into_iter()
        .map(|r| f64::from_bits(r.unwrap().num))
        .collect();
    assert_eq!(values, vec![1.25, 3.0, 0.5]);
}

#[test]
fn trailing_dot_is_not_part_of_the_number() {
    // "3." scans as the number 3 followed by a dot token.
    let toks = scan_all("3.");
    assert_eq!(toks.len(), 2);
    let first = toks[0].as_ref().unwrap();
    assert_eq!(first.kind, TokenKind::NumberLiteral);
    assert_eq!(f64::from_bits(first.num), 3.0);
    assert_eq!(toks[1].as_ref().unwrap().kind, TokenKind::Dot);
}

#[test]
fn keywords_and_identifiers() {
    assert_eq!(
        scan_kinds("and class else false for fun if nil or print return super this true var while"),
        vec![
            TokenKind::And,
            TokenKind::Class,
            TokenKind::Else,
            TokenKind::False,
            TokenKind::For,
            TokenKind::Fun,
            TokenKind::If,
            TokenKind::Nil,
            TokenKind::Or,
            TokenKind::Print,
            TokenKind::Return,
            TokenKind::Super,
            TokenKind::This,
            TokenKind::True,
            TokenKind::Var,
            TokenKind::While,
        ]
    );
    let toks = scan_all("truthy _x and1");
    let words: Vec<(TokenKind, Vec<u8>)> =
        toks.into_iter().map(|r| r.map(|t| (t.kind, t.text)).unwrap()).collect();
    assert_eq!(
        words,
        vec![
            (TokenKind::Identifier, b"truthy".to_vec()),
            (TokenKind::Identifier, b"_x".to_vec()),
            (TokenKind::Identifier, b"and1".to_vec()),
        ]
    );
}

#[test]
fn string_literal_contents_and_lines() {
    let toks = scan_all("\"hello\nworld\" 7");
    let first = toks[0].as_ref().unwrap();
    assert_eq!(first.kind, TokenKind::StringLiteral);
    assert_eq!(first.text, b"hello\nworld".to_vec());
    // The embedded newline was counted: the string token ends on line 2.
    assert_eq!(first.line, 2);
    assert_eq!(toks[1].as_ref().unwrap().line, 2);
}

#[test]
fn unterminated_string_is_a_recoverable_error() {
    let mut s = Scanner::new(b"\"oops".to_vec());
    let r = s.next().unwrap();
    let e = r.unwrap_err();
    assert_eq!(e.kind, ScanErrorKind::UnterminatedString);
    assert_eq!(e.message(), "Unterminated string literal");
    // The scanner itself is still usable afterwards.
    assert!(s.next().is_none());
}

#[test]
fn line_comments_are_skipped() {
    let toks = scan_all("1 // the rest is noise + 2\n3");
    let nums: Vec<(f64, usize)> = toks
        .into_iter()
        .map(|r| r.unwrap())
        .map(|t| (f64::from_bits(t.num), t.line))
        .collect();
    assert_eq!(nums, vec![(1.0, 1), (3.0, 2)]);
}

#[test]
fn block_comments_nest() {
    assert_eq!(
        scan_kinds("1 /* a /* nested */ comment */ + 2"),
        vec![TokenKind::NumberLiteral, TokenKind::Plus, TokenKind::NumberLiteral]
    );
}

#[test]
fn unterminated_block_comment_reports_its_line() {
    let mut s = Scanner::new(b"1 /* no\nend".to_vec());
    assert!(s.next().unwrap().is_ok());
    let e = s.next().unwrap().unwrap_err();
    assert_eq!(e.kind, ScanErrorKind::UnterminatedComment);
    assert_eq!(e.line, 2);
}

#[test]
fn unrecognized_character() {
    let mut s = Scanner::new(b"@ 5".to_vec());
    let e = s.next().unwrap().unwrap_err();
    assert_eq!(e.kind, ScanErrorKind::UnrecognizedCharacter);
    assert_eq!(e.message(), "Unrecognized character");
    // Scanning continues after the bad byte.
    let t = s.next().unwrap().unwrap();
    assert_eq!(t.kind, TokenKind::NumberLiteral);
}

#[test]
fn token_lines_are_monotone() {
    let toks = scan_all("1 +\n2 *\n\n3");
    let lines: Vec<usize> = toks.into_iter().map(|r| r.unwrap().line).collect();
    assert_eq!(lines, vec![1, 1, 2, 2, 4]);
}

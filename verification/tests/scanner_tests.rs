use caurora::scanner::Scanner;
use caurora::token::TokenType;

fn kinds_of(src: &str) -> Vec<TokenType> {
    let mut scanner = Scanner::new(src.chars().collect());
    let mut kinds = Vec::new();
    loop {
        let t = scanner.scan_token();
        let kind = t.tokentype;
        kinds.push(kind);
        if kind == TokenType::Eof {
            return kinds;
        }
    }
}

#[test]
fn single_character_tokens() {
    assert_eq!(
        kinds_of("(){},.-+;*/"),
        vec![
            TokenType::LeftParen,
            TokenType::RightParen,
            TokenType::LeftBrace,
            TokenType::RightBrace,
            TokenType::Comma,
            TokenType::Dot,
            TokenType::Minus,
            TokenType::Plus,
            TokenType::SemiColon,
            TokenType::Star,
            TokenType::Slash,
            TokenType::Eof,
        ]
    );
}

#[test]
fn two_character_operators_peek_ahead() {
    assert_eq!(
        kinds_of("! != = == < <= > >="),
        vec![
            TokenType::Bang,
            TokenType::WhiteSpace,
            TokenType::BangEqual,
            TokenType::WhiteSpace,
            TokenType::Equal,
            TokenType::WhiteSpace,
            TokenType::EqualEqual,
            TokenType::WhiteSpace,
            TokenType::Less,
            TokenType::WhiteSpace,
            TokenType::LessEqual,
            TokenType::WhiteSpace,
            TokenType::Greater,
            TokenType::WhiteSpace,
            TokenType::GreaterEqual,
            TokenType::Eof,
        ]
    );
}

#[test]
fn keywords_and_identifiers() {
    assert_eq!(
        kinds_of("and class else false for function if nil or print return super this true var while whilex"),
        vec![
            TokenType::And,
            TokenType::WhiteSpace,
            TokenType::Class,
            TokenType::WhiteSpace,
            TokenType::Else,
            TokenType::WhiteSpace,
            TokenType::False,
            TokenType::WhiteSpace,
            TokenType::For,
            TokenType::WhiteSpace,
            TokenType::Fun,
            TokenType::WhiteSpace,
            TokenType::If,
            TokenType::WhiteSpace,
            TokenType::Nil,
            TokenType::WhiteSpace,
            TokenType::Or,
            TokenType::WhiteSpace,
            TokenType::Print,
            TokenType::WhiteSpace,
            TokenType::Return,
            TokenType::WhiteSpace,
            TokenType::Super,
            TokenType::WhiteSpace,
            TokenType::This,
            TokenType::WhiteSpace,
            TokenType::True,
            TokenType::WhiteSpace,
            TokenType::Var,
            TokenType::WhiteSpace,
            TokenType::While,
            TokenType::WhiteSpace,
            TokenType::Identifier,
            TokenType::Eof,
        ]
    );
}

#[test]
fn comment_token_spans_to_line_end() {
    let mut scanner = Scanner::new("// note\nx".chars().collect());
    let comment = scanner.scan_token();
    assert_eq!(comment.tokentype, TokenType::WhiteSpace);
    assert_eq!(comment.start, 0);
    assert_eq!(comment.length, 7);
    let newline = scanner.scan_token();
    assert_eq!(newline.tokentype, TokenType::NewLine);
    assert_eq!(newline.line, 1);
    let ident = scanner.scan_token();
    assert_eq!(ident.tokentype, TokenType::Identifier);
}

#[test]
fn string_token_spans_the_quotes() {
    let mut scanner = Scanner::new("\"hi\" 1".chars().collect());
    let string = scanner.scan_token();
    assert_eq!(string.tokentype, TokenType::String);
    assert_eq!(string.start, 0);
    assert_eq!(string.length, 4);
}

#[test]
fn unterminated_string_is_an_error_token() {
    let mut scanner = Scanner::new("\"hi".chars().collect());
    let t = scanner.scan_token();
    assert_eq!(t.tokentype, TokenType::Error);
}

#[test]
fn number_token_takes_fraction_but_not_trailing_dot() {
    let mut scanner = Scanner::new("12.5.".chars().collect());
    let number = scanner.scan_token();
    assert_eq!(number.tokentype, TokenType::Number);
    assert_eq!(number.length, 4);
    let dot = scanner.scan_token();
    assert_eq!(dot.tokentype, TokenType::Dot);
}

#[test]
fn newline_advances_the_line_counter() {
    let mut scanner = Scanner::new("\n\nx".chars().collect());
    assert_eq!(scanner.scan_token().line, 1);
    assert_eq!(scanner.scan_token().line, 2);
    let x = scanner.scan_token();
    assert_eq!(x.line, 2);
}

#[test]
fn end_of_source_yields_eof_repeatedly() {
    let mut scanner = Scanner::new("".chars().collect());
    assert_eq!(scanner.scan_token().tokentype, TokenType::Eof);
    assert_eq!(scanner.scan_token().tokentype, TokenType::Eof);
}

#[test]
fn unexpected_character_is_an_error_token() {
    let mut scanner = Scanner::new("#".chars().collect());
    assert_eq!(scanner.scan_token().tokentype, TokenType::Error);
    assert!(!scanner.error_msg.is_empty());
}

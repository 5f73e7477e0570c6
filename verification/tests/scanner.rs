use rlox::scanner::is_alpha;
use rlox::scanner::is_digit;
use rlox::scanner::Scanner;
use rlox::scanner::Token;
use rlox::scanner::TokenType;

fn scan_all(source: &str) -> Vec<Token> {
    let source = source.to_string();
    assert!(Scanner::accepts(&source));
    let mut scanner = Scanner::new(&source);
    let mut tokens = Vec::new();
    loop {
        let token = scanner.scan();
        tokens.push(token);
        if token.token_type == TokenType::EOF {
            return tokens;
        }
        assert!(tokens.len() <= source.len() + 1);
    }
}

fn kinds(source: &str) -> Vec<TokenType> {
    scan_all(source).iter().map(|t| t.token_type).collect()
}

#[test]
fn empty_source_is_one_eof() {
    let tokens = scan_all("");
    assert_eq!(tokens, vec![Token { token_type: TokenType::EOF, start: 0, length: 0, line: 1 }]);
}

#[test]
fn eof_is_handed_out_again_and_again() {
    let source = "1".to_string();
    let mut scanner = Scanner::new(&source);
    assert_eq!(scanner.scan().token_type, TokenType::Number);
    assert_eq!(scanner.scan().token_type, TokenType::EOF);
    assert_eq!(scanner.scan().token_type, TokenType::EOF);
    assert_eq!(scanner.scan(), Token { token_type: TokenType::EOF, start: 1, length: 0, line: 1 });
}

#[test]
fn single_character_tokens() {
    assert_eq!(
        kinds("(){},.-+;/*"),
        vec![
            TokenType::LeftParen,
            TokenType::RightParen,
            TokenType::LeftBrace,
            TokenType::RightBrace,
            TokenType::Comma,
            TokenType::Dot,
            TokenType::Minus,
            TokenType::Plus,
            TokenType::Semicolon,
            TokenType::Slash,
            TokenType::Star,
            TokenType::EOF,
        ]
    );
}

#[test]
fn one_or_two_character_operators() {
    assert_eq!(
        kinds("! != = == > >= < <="),
        vec![
            TokenType::Bang,
            TokenType::BangEqual,
            TokenType::Equal,
            TokenType::EqualEqual,
            TokenType::Greater,
            TokenType::GreaterEqual,
            TokenType::Less,
            TokenType::LessEqual,
            TokenType::EOF,
        ]
    );
}

#[test]
fn operator_at_the_end_of_the_source_stands_alone() {
    assert_eq!(kinds("!"), vec![TokenType::Bang, TokenType::EOF]);
    assert_eq!(kinds("<"), vec![TokenType::Less, TokenType::EOF]);
    assert_eq!(kinds("==="), vec![TokenType::EqualEqual, TokenType::Equal, TokenType::EOF]);
}

#[test]
fn every_keyword_is_recognised() {
    assert_eq!(
        kinds("and class else false for fun if nil or print return super this true var while"),
        vec![
            TokenType::And,
            TokenType::Class,
            TokenType::Else,
            TokenType::False,
            TokenType::For,
            TokenType::Fun,
            TokenType::If,
            TokenType::Nil,
            TokenType::Or,
            TokenType::Print,
            TokenType::Return,
            TokenType::Super,
            TokenType::This,
            TokenType::True,
            TokenType::Var,
            TokenType::While,
            TokenType::EOF,
        ]
    );
}

#[test]
fn a_keyword_with_more_behind_it_is_an_identifier() {
    assert_eq!(kinds("andx"), vec![TokenType::Identifier, TokenType::EOF]);
    assert_eq!(kinds("an"), vec![TokenType::Identifier, TokenType::EOF]);
    assert_eq!(kinds("f"), vec![TokenType::Identifier, TokenType::EOF]);
    assert_eq!(kinds("t"), vec![TokenType::Identifier, TokenType::EOF]);
    assert_eq!(kinds("fa"), vec![TokenType::Identifier, TokenType::EOF]);
    assert_eq!(kinds("fort"), vec![TokenType::Identifier, TokenType::EOF]);
    assert_eq!(kinds("thus"), vec![TokenType::Identifier, TokenType::EOF]);
    assert_eq!(kinds("tru"), vec![TokenType::Identifier, TokenType::EOF]);
    assert_eq!(kinds("nil_"), vec![TokenType::Identifier, TokenType::EOF]);
    assert_eq!(kinds("While"), vec![TokenType::Identifier, TokenType::EOF]);
    assert_eq!(kinds("_if"), vec![TokenType::Identifier, TokenType::EOF]);
    assert_eq!(kinds("x1"), vec![TokenType::Identifier, TokenType::EOF]);
}

#[test]
fn identifier_covers_letters_digits_and_underscores() {
    let tokens = scan_all("  ab_9Z+");
    assert_eq!(
        tokens[0],
        Token { token_type: TokenType::Identifier, start: 2, length: 5, line: 1 }
    );
    assert_eq!(tokens[1], Token { token_type: TokenType::Plus, start: 7, length: 1, line: 1 });
}

#[test]
fn numbers_with_and_without_fraction() {
    let tokens = scan_all("12 3.25");
    assert_eq!(tokens[0], Token { token_type: TokenType::Number, start: 0, length: 2, line: 1 });
    assert_eq!(tokens[1], Token { token_type: TokenType::Number, start: 3, length: 4, line: 1 });
    assert_eq!(tokens[2].token_type, TokenType::EOF);
}

#[test]
fn a_point_without_a_digit_behind_it_is_no_fraction() {
    assert_eq!(kinds("1."), vec![TokenType::Number, TokenType::Dot, TokenType::EOF]);
    assert_eq!(kinds("1.x"), vec![TokenType::Number, TokenType::Dot, TokenType::Identifier, TokenType::EOF]);
    assert_eq!(kinds(".5"), vec![TokenType::Dot, TokenType::Number, TokenType::EOF]);
    assert_eq!(
        kinds("1.2.3"),
        vec![TokenType::Number, TokenType::Dot, TokenType::Number, TokenType::EOF]
    );
    assert_eq!(kinds("-1"), vec![TokenType::Minus, TokenType::Number, TokenType::EOF]);
}

#[test]
fn string_token_covers_both_quotes() {
    let tokens = scan_all("\"ab\" \"\"");
    assert_eq!(tokens[0], Token { token_type: TokenType::String, start: 0, length: 4, line: 1 });
    assert_eq!(tokens[1], Token { token_type: TokenType::String, start: 5, length: 2, line: 1 });
}

#[test]
fn string_over_several_lines_counts_them() {
    let tokens = scan_all("\"a\nb\n\" 1");
    assert_eq!(tokens[0], Token { token_type: TokenType::String, start: 0, length: 6, line: 3 });
    assert_eq!(tokens[1], Token { token_type: TokenType::Number, start: 7, length: 1, line: 3 });
}

#[test]
fn unterminated_string_is_an_error_token() {
    let tokens = scan_all("1 \"abc\nd");
    assert_eq!(tokens[0].token_type, TokenType::Number);
    assert_eq!(tokens[1], Token { token_type: TokenType::Error, start: 0, length: 0, line: 2 });
    assert_eq!(tokens[2].token_type, TokenType::EOF);
    assert_eq!(tokens.len(), 3);
}

#[test]
fn unknown_byte_is_an_error_token() {
    let tokens = scan_all("1 @ 2");
    assert_eq!(
        tokens.iter().map(|t| t.token_type).collect::<Vec<_>>(),
        vec![TokenType::Number, TokenType::Error, TokenType::Number, TokenType::EOF]
    );
    assert_eq!(tokens[1], Token { token_type: TokenType::Error, start: 0, length: 0, line: 1 });
}

#[test]
fn bytes_beyond_ascii_are_error_tokens_outside_strings() {
    // One error token for each of the two bytes of the letter.
    assert_eq!(
        kinds("\u{e9}"),
        vec![TokenType::Error, TokenType::Error, TokenType::EOF]
    );
    assert_eq!(kinds("\"\u{e9}\""), vec![TokenType::String, TokenType::EOF]);
}

#[test]
fn all_consecutive_blanks_are_skipped() {
    let tokens = scan_all(" \t\r  \t 7");
    assert_eq!(tokens[0], Token { token_type: TokenType::Number, start: 7, length: 1, line: 1 });
}

#[test]
fn newlines_advance_the_line() {
    let tokens = scan_all("1\n\n 2\n");
    assert_eq!(tokens[0].line, 1);
    assert_eq!(tokens[1], Token { token_type: TokenType::Number, start: 4, length: 1, line: 3 });
    assert_eq!(tokens[2], Token { token_type: TokenType::EOF, start: 6, length: 0, line: 4 });
}

#[test]
fn comment_runs_to_the_end_of_the_line() {
    let tokens = scan_all("1 // two 2\n3 // last");
    assert_eq!(
        tokens.iter().map(|t| t.token_type).collect::<Vec<_>>(),
        vec![TokenType::Number, TokenType::Number, TokenType::EOF]
    );
    assert_eq!(tokens[1], Token { token_type: TokenType::Number, start: 11, length: 1, line: 2 });
    assert_eq!(tokens[2].line, 2);
}

#[test]
fn a_single_slash_is_a_token() {
    assert_eq!(kinds("/"), vec![TokenType::Slash, TokenType::EOF]);
    assert_eq!(kinds("1 / 2"), vec![TokenType::Number, TokenType::Slash, TokenType::Number, TokenType::EOF]);
    assert_eq!(kinds("/ /"), vec![TokenType::Slash, TokenType::Slash, TokenType::EOF]);
}

#[test]
fn lexeme_is_the_text_of_the_token() {
    let source = "  foo \"bar\"".to_string();
    let mut scanner = Scanner::new(&source);
    let word = scanner.scan();
    let string = scanner.scan();
    assert_eq!(scanner.get_lexeme(&word), b"foo");
    assert_eq!(scanner.get_lexeme(&string), b"\"bar\"");
}

#[test]
fn character_classes_are_ascii_only() {
    for c in 0..=255u8 {
        assert_eq!(is_digit(c), (b'0'..=b'9').contains(&c));
        assert_eq!(is_alpha(c), c.is_ascii_alphabetic() || c == b'_');
    }
}

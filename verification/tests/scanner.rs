use rslox::scanner::Scanner;
use rslox::scanner::Token;
use rslox::scanner::TokenType;

fn tokens(source: &str) -> Vec<(TokenType, String, usize)> {
    let mut scanner = Scanner::new(source.to_string());
    let mut all = Vec::new();
    loop {
        let token = scanner.scan_token();
        let kind = token.token_type();
        all.push((kind, token.text().to_string(), token.line()));
        if kind == TokenType::Eof {
            return all;
        }
    }
}

fn kinds(source: &str) -> Vec<TokenType> {
    tokens(source).into_iter().map(|t| t.0).collect()
}

fn tok(kind: TokenType, text: &str, line: usize) -> (TokenType, String, usize) {
    (kind, text.to_string(), line)
}

fn eof(line: usize) -> (TokenType, String, usize) {
    tok(TokenType::Eof, "", line)
}

#[test]
fn empty_source_is_eof() {
    assert_eq!(tokens(""), vec![tok(TokenType::Eof, "", 1)]);
}

#[test]
fn eof_is_scanned_again_and_again() {
    let mut scanner = Scanner::new("1".to_string());
    assert_eq!(scanner.scan_token().token_type(), TokenType::Number);
    for _ in 0..3 {
        let token = scanner.scan_token();
        assert_eq!(token.token_type(), TokenType::Eof);
        assert_eq!(token.text(), "");
        assert_eq!(token.line(), 1);
    }
}

#[test]
fn single_character_tokens() {
    assert_eq!(
        tokens("(){};,.-+/*"),
        vec![
            tok(TokenType::LeftParen, "(", 1),
            tok(TokenType::RightParen, ")", 1),
            tok(TokenType::LeftBrace, "{", 1),
            tok(TokenType::RightBrace, "}", 1),
            tok(TokenType::Semicolon, ";", 1),
            tok(TokenType::Comma, ",", 1),
            tok(TokenType::Dot, ".", 1),
            tok(TokenType::Minus, "-", 1),
            tok(TokenType::Plus, "+", 1),
            tok(TokenType::Slash, "/", 1),
            tok(TokenType::Star, "*", 1),
            tok(TokenType::Eof, "", 1),
        ]
    );
}

#[test]
fn one_or_two_character_tokens() {
    assert_eq!(
        tokens("! != = == < <= > >="),
        vec![
            tok(TokenType::Bang, "!", 1),
            tok(TokenType::BangEqual, "!=", 1),
            tok(TokenType::Equal, "=", 1),
            tok(TokenType::EqualEqual, "==", 1),
            tok(TokenType::Less, "<", 1),
            tok(TokenType::LessEqual, "<=", 1),
            tok(TokenType::Greater, ">", 1),
            tok(TokenType::GreaterEqual, ">=", 1),
            tok(TokenType::Eof, "", 1),
        ]
    );
}

#[test]
fn an_operator_at_the_end_is_not_joined() {
    assert_eq!(kinds("!"), vec![TokenType::Bang, TokenType::Eof]);
    assert_eq!(kinds("==="), vec![TokenType::EqualEqual, TokenType::Equal, TokenType::Eof]);
}

#[test]
fn numbers() {
    assert_eq!(
        tokens("1 23 4.5 007.250"),
        vec![
            tok(TokenType::Number, "1", 1),
            tok(TokenType::Number, "23", 1),
            tok(TokenType::Number, "4.5", 1),
            tok(TokenType::Number, "007.250", 1),
            tok(TokenType::Eof, "", 1),
        ]
    );
}

#[test]
fn a_dot_needs_a_digit_on_either_side_to_belong_to_a_number() {
    assert_eq!(
        tokens("12."),
        vec![tok(TokenType::Number, "12", 1), tok(TokenType::Dot, ".", 1), eof(1)]
    );
    assert_eq!(
        tokens(".5"),
        vec![tok(TokenType::Dot, ".", 1), tok(TokenType::Number, "5", 1), eof(1)]
    );
    assert_eq!(
        tokens("1.2.3"),
        vec![
            tok(TokenType::Number, "1.2", 1),
            tok(TokenType::Dot, ".", 1),
            tok(TokenType::Number, "3", 1),
            tok(TokenType::Eof, "", 1),
        ]
    );
}

#[test]
fn keywords() {
    assert_eq!(
        kinds("and class else false for fun if nil or print return super this true var while"),
        vec![
            TokenType::And,
            TokenType::Class,
            TokenType::Else,
            TokenType::False,
            TokenType::For,
            TokenType::Fun,
            TokenType::If,
            TokenType::Nil,
            TokenType::Or,
            TokenType::Print,
            TokenType::Return,
            TokenType::Super,
            TokenType::This,
            TokenType::True,
            TokenType::Var,
            TokenType::While,
            TokenType::Eof,
        ]
    );
}

#[test]
fn words_that_are_no_keywords_are_identifiers() {
    for word in [
        "a", "an", "andy", "c", "clas", "classes", "f", "fa", "fals", "fo", "fu", "fort", "funny",
        "i", "iff", "n", "ni", "nile", "o", "orb", "p", "printer", "r", "returns", "s", "supe",
        "t", "th", "tr", "thi", "tru", "thus", "trues", "v", "va", "vars", "w", "whil", "whiles",
        "x", "And", "x1", "a1b2", "tea", "e", "el", "elsewhere",
    ] {
        assert_eq!(tokens(word), vec![tok(TokenType::Identifier, word, 1), eof(1)]);
    }
}

#[test]
fn letters_of_any_script_make_identifiers() {
    assert_eq!(
        tokens("été 京"),
        vec![
            tok(TokenType::Identifier, "été", 1),
            tok(TokenType::Identifier, "京", 1),
            tok(TokenType::Eof, "", 1),
        ]
    );
}

#[test]
fn a_word_cannot_start_with_a_digit() {
    assert_eq!(
        tokens("1a"),
        vec![
            tok(TokenType::Number, "1", 1),
            tok(TokenType::Identifier, "a", 1),
            tok(TokenType::Eof, "", 1),
        ]
    );
}

#[test]
fn strings() {
    assert_eq!(
        tokens("\"abc\" \"\""),
        vec![
            tok(TokenType::String, "\"abc\"", 1),
            tok(TokenType::String, "\"\"", 1),
            tok(TokenType::Eof, "", 1),
        ]
    );
}

#[test]
fn a_string_over_several_lines_is_on_the_line_it_began_on() {
    assert_eq!(
        tokens("\"a\nb\n\" 1"),
        vec![tok(TokenType::String, "\"a\nb\n\"", 1), tok(TokenType::Number, "1", 3), eof(3)]
    );
}

#[test]
fn unterminated_string() {
    assert_eq!(
        tokens("1 \"abc"),
        vec![
            tok(TokenType::Number, "1", 1),
            tok(TokenType::Error, "Unterminated string.", 1),
            tok(TokenType::Eof, "", 1),
        ]
    );
}

#[test]
fn unterminated_string_over_lines() {
    assert_eq!(
        tokens("\n\"abc\n\n"),
        vec![tok(TokenType::Error, "Unterminated string.", 2), tok(TokenType::Eof, "", 4)]
    );
}

#[test]
fn unexpected_character() {
    assert_eq!(
        tokens("1 @ 2"),
        vec![
            tok(TokenType::Number, "1", 1),
            tok(TokenType::Error, "Unexpected character", 1),
            tok(TokenType::Number, "2", 1),
            tok(TokenType::Eof, "", 1),
        ]
    );
    assert_eq!(kinds("_"), vec![TokenType::Error, TokenType::Eof]);
    assert_eq!(kinds("#"), vec![TokenType::Error, TokenType::Eof]);
}

#[test]
fn an_error_token_is_a_diagnostic() {
    let mut scanner = Scanner::new("$".to_string());
    match scanner.scan_token() {
        Token::Error { message, line } => {
            assert_eq!(message, "Unexpected character");
            assert_eq!(line, 1);
        }
        Token::Scanned { .. } => panic!("an error token was expected"),
    }
}

#[test]
fn a_scanned_token_holds_its_text() {
    let mut scanner = Scanner::new("  12.5".to_string());
    match scanner.scan_token() {
        Token::Scanned { token_type, token, line } => {
            assert_eq!(token_type, TokenType::Number);
            assert_eq!(token, "12.5");
            assert_eq!(line, 1);
        }
        Token::Error { .. } => panic!("a number was expected"),
    }
}

#[test]
fn blanks_are_passed_over() {
    assert_eq!(
        tokens(" \t\r1\t \r2 "),
        vec![tok(TokenType::Number, "1", 1), tok(TokenType::Number, "2", 1), eof(1)]
    );
}

#[test]
fn line_feeds_count_lines() {
    assert_eq!(
        tokens("1\n2\n\n3\n"),
        vec![
            tok(TokenType::Number, "1", 1),
            tok(TokenType::Number, "2", 2),
            tok(TokenType::Number, "3", 4),
            tok(TokenType::Eof, "", 5),
        ]
    );
}

#[test]
fn comments_run_to_the_end_of_the_line() {
    assert_eq!(
        tokens("1 // one + 1\n// nothing\n2 // two"),
        vec![tok(TokenType::Number, "1", 1), tok(TokenType::Number, "2", 3), eof(3)]
    );
}

#[test]
fn a_single_slash_is_a_token() {
    assert_eq!(
        tokens("16 / 4 /2"),
        vec![
            tok(TokenType::Number, "16", 1),
            tok(TokenType::Slash, "/", 1),
            tok(TokenType::Number, "4", 1),
            tok(TokenType::Slash, "/", 1),
            tok(TokenType::Number, "2", 1),
            tok(TokenType::Eof, "", 1),
        ]
    );
}

#[test]
fn a_slash_at_the_end_is_a_token() {
    assert_eq!(kinds("/"), vec![TokenType::Slash, TokenType::Eof]);
}

#[test]
fn token_clone_keeps_the_token() {
    let mut scanner = Scanner::new("while".to_string());
    let token = scanner.scan_token();
    let copy = token.clone();
    assert_eq!(copy.token_type(), TokenType::While);
    assert_eq!(copy.text(), "while");
    assert_eq!(copy.line(), token.line());
}

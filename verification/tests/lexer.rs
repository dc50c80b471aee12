use scheme::lexer::LexError;
use scheme::lexer::Lexer;
use scheme::lexer::StringLexer;
use scheme::lexer::Token;

#[test]
fn lexer_read_lpar() {
    let mut lexer = StringLexer::new("(".to_string());
    let token = lexer.next().ok().unwrap();
    assert_eq!(token, Token::LPAR(1, 1));
}

#[test]
fn lexer_read_rpar() {
    let mut lexer = StringLexer::new(")".to_string());
    let token = lexer.next().ok().unwrap();
    assert_eq!(token, Token::RPAR(1, 1));
}

#[test]
fn lexer_read_string() {
    let mut lexer = StringLexer::new("\"\\\"Hello\\\", world!\\\n\"".to_string());
    let token = lexer.next().ok().unwrap();
    assert_eq!(token, Token::STRING("\"Hello\", world!\n".to_string(), 1, 1));
}

#[test]
fn lexer_read_comment() {
    let mut lexer = StringLexer::new("; this is some code that does some stuff".to_string());
    let token = lexer.next().ok().unwrap();
    assert_eq!(token, Token::COMMENT("; this is some code that does some stuff".to_string(), 1, 1));
}

#[test]
fn read_ident() {
    let mut lexer = StringLexer::new("an-!@$%^&*-+=~?.ident-can-have-all-these-chars".to_string());
    let token = lexer.next().ok().unwrap();
    assert_eq!(token, Token::IDENT("an-!@$%^&*-+=~?.ident-can-have-all-these-chars".to_string(), 1, 1));
}

#[test]
fn read_integer() {
    let mut lexer = StringLexer::new("12345".to_string());
    let token = lexer.next().ok().unwrap();
    assert_eq!(token, Token::INTEGER("12345".to_string(), 1, 1));
}

#[test]
fn read_negative_integer() {
    let mut lexer = StringLexer::new("-12345".to_string());
    let token = lexer.next().ok().unwrap();
    assert_eq!(token, Token::INTEGER("-12345".to_string(), 1, 1));
}

#[test]
fn read_invalid_integer() {
    let mut lexer = StringLexer::new("12f345".to_string());
    let token = lexer.next().err().unwrap();
    assert_eq!(token, LexError::INTEGER("12f".to_string(), 1, 1));
}

#[test]
fn read_float_dot() {
    let mut lexer = StringLexer::new("12345.".to_string());
    let token = lexer.next().ok().unwrap();
    assert_eq!(token, Token::FLOAT("12345.".to_string(), 1, 1));
}

#[test]
fn read_float_dot_zero() {
    let mut lexer = StringLexer::new("12345.0".to_string());
    let token = lexer.next().ok().unwrap();
    assert_eq!(token, Token::FLOAT("12345.0".to_string(), 1, 1));
}

#[test]
fn read_float_dot_digits() {
    let mut lexer = StringLexer::new(".12345".to_string());
    let token = lexer.next().ok().unwrap();
    assert_eq!(token, Token::FLOAT(".12345".to_string(), 1, 1));
}

#[test]
fn read_float_digits_dot_digits() {
    let mut lexer = StringLexer::new("12345.12345".to_string());
    let token = lexer.next().ok().unwrap();
    assert_eq!(token, Token::FLOAT("12345.12345".to_string(), 1, 1));
}

#[test]
fn read_float_dot_digits_trailing_zero() {
    let mut lexer = StringLexer::new("12345.123450".to_string());
    let token = lexer.next().ok().unwrap();
    assert_eq!(token, Token::FLOAT("12345.123450".to_string(), 1, 1));
}

#[test]
fn read_float_negative_dot_digits() {
    let mut lexer = StringLexer::new("-.12345".to_string());
    let token = lexer.next().ok().unwrap();
    assert_eq!(token, Token::FLOAT("-.12345".to_string(), 1, 1));
}

#[test]
fn read_negative_float_dot_digits() {
    let mut lexer = StringLexer::new("-12345.12345".to_string());
    let token = lexer.next().ok().unwrap();
    assert_eq!(token, Token::FLOAT("-12345.12345".to_string(), 1, 1));
}

#[test]
fn read_invalid_float_whole() {
    let mut lexer = StringLexer::new("12f345.12345".to_string());
    let token = lexer.next().err().unwrap();
    assert_eq!(token, LexError::INTEGER("12f".to_string(), 1, 1));
}

#[test]
fn read_invalid_float_fractional() {
    let mut lexer = StringLexer::new("12345.12f345".to_string());
    let token = lexer.next().err().unwrap();
    assert_eq!(token, LexError::FLOAT("12345.12f".to_string(), 1, 1));
}

#[test]
fn lexer_read_all() {
    let mut lexer = StringLexer::new("\
        ; hello, this is a comment \n\
        (\"this is a \\\"string\\\" with some escape chars\") \n\
        (   ) ; this is a comment after something on a line \n\
        (               ( \"s p a c e\" ) ; space \n\
        12345 is-a-number so_is -78.910 \n\
        ".to_string());

    let expected = vec![
        Token::COMMENT("; hello, this is a comment".to_string(), 1, 1),
        Token::LPAR(2, 1),
        Token::STRING("this is a \"string\" with some escape chars".to_string(), 2, 2),
        Token::RPAR(2, 47),
        Token::LPAR(3, 1),
        Token::RPAR(3, 5),
        Token::COMMENT("; this is a comment after something on a line".to_string(), 3, 7),
        Token::LPAR(4, 1),
        Token::LPAR(4, 17),
        Token::STRING("s p a c e".to_string(), 4, 19),
        Token::RPAR(4, 31),
        Token::COMMENT("; space".to_string(), 4, 33),
        Token::INTEGER("12345".to_string(), 5, 1),
        Token::IDENT("is-a-number".to_string(), 5, 7),
        Token::IDENT("so_is".to_string(), 5, 19),
        Token::FLOAT("-78.910".to_string(), 5, 25)
    ];

    let mut tokens = vec![];
    while let Ok(token) = lexer.next() {
        tokens.push(token)
    }

    assert_eq!(tokens, expected)
}

#[test]
fn error_invalid() {
    let mut lexer = StringLexer::new("(    # )".to_string());
    lexer.next().ok().unwrap();
    assert_eq!(lexer.next().err().unwrap(), LexError::INVALID('#', 1, 6));
}

#[test]
fn error_end_empty() {
    let mut lexer = StringLexer::new("".to_string());
    assert_eq!(lexer.next().err().unwrap(), LexError::END(1, 1));
}

#[test]
fn error_end_nonempty() {
    let mut lexer = StringLexer::new(")".to_string());
    lexer.next().ok().unwrap();
    assert_eq!(lexer.next().err().unwrap(), LexError::END(1, 2));
}

#[test]
fn error_unterminated() {
    let mut lexer = StringLexer::new("\"This is an unterminated string ()".to_string());
    assert_eq!(lexer.next().err().unwrap(), LexError::UNTERMINATED("This is an unterminated string ()".to_string(), 1, 1));
}

#[test]
fn error_ident() {
    let invalid = vec!['[', ']', '{', '}', '(', ')', '|', '\\', '/', '\'', '\"', '#', ','];
    let ident_pre = "an-ident-cannot-have-";
    let ident_suf = "-as-a-char";

    for i in invalid {
        let mut ident = String::new();
        ident = ident + &ident_pre;
        ident.push(i);
        ident = ident + &ident_suf;

        let mut lexer = StringLexer::new(ident);
        assert_eq!(lexer.next().err().unwrap(), LexError::IDENT(ident_pre.to_string(), 1, 1));
    }
}

#[test]
fn error_unterminated_multiline() {
    let mut lexer = StringLexer::new("\n \n \"This is an \\\n unterminated string ()".to_string());
    assert_eq!(lexer.next().err().unwrap(), LexError::UNTERMINATED("This is an \n unterminated string ()".to_string(), 3, 2));
}

use scheme::lexer::text::trim_text;
use scheme::lexer::LexError;
use scheme::lexer::Lexer;
use scheme::lexer::StringLexer;
use scheme::lexer::Token;
use scheme::parser::Parser;

fn lexer(text: &str) -> StringLexer {
    StringLexer::new(text.to_string())
}

fn position(lexer: &StringLexer) -> (u32, u32) {
    (lexer.line(), lexer.chr())
}

#[test]
fn whitespace_only_ends_behind_the_whitespace() {
    let mut spaces = lexer("    ");
    assert_eq!(spaces.next(), Err(LexError::END(1, 5)));
    assert_eq!(spaces.peek(), None);

    let mut tabs = lexer(" \t \t");
    assert_eq!(tabs.next(), Err(LexError::END(1, 5)));
}

#[test]
fn whitespace_with_newlines_ends_on_a_later_line() {
    let mut one = lexer("\n");
    assert_eq!(one.next(), Err(LexError::END(2, 1)));

    let mut more = lexer("  \n\n   ");
    assert_eq!(more.next(), Err(LexError::END(3, 4)));
}

#[test]
fn end_is_reported_again_and_again() {
    let mut empty = lexer("");
    assert_eq!(empty.next(), Err(LexError::END(1, 1)));
    assert_eq!(empty.next(), Err(LexError::END(1, 1)));
    assert_eq!(position(&empty), (1, 1));
}

#[test]
fn token_starts_where_the_whitespace_ends() {
    let mut text = lexer("\n\n   (");
    assert_eq!(text.next(), Ok(Token::LPAR(3, 4)));
    assert_eq!(position(&text), (3, 5));
}

#[test]
fn peek_twice_gives_the_same() {
    let text = lexer("xy");
    let first = text.peek();
    let second = text.peek();
    assert_eq!(first, Some('x'));
    assert_eq!(first, second);
    assert_eq!(position(&text), (1, 1));
}

#[test]
fn get_at_the_end_changes_nothing() {
    let mut text = lexer("a");
    assert_eq!(text.get(), Some('a'));
    assert_eq!(position(&text), (1, 2));
    assert_eq!(text.get(), None);
    assert_eq!(text.peek(), None);
    assert_eq!(position(&text), (1, 2));
}

#[test]
fn count_follows_the_newline_rule() {
    let mut text = lexer("");
    text.set_line(7);
    text.set_chr(9);
    text.count('x');
    assert_eq!(position(&text), (7, 10));
    text.count('\n');
    assert_eq!(position(&text), (8, 1));
    text.count(' ');
    assert_eq!(position(&text), (8, 2));
}

#[test]
fn consume_whitespace_stops_at_the_token() {
    let mut text = lexer(" \n\t x ");
    text.consume_whitespace();
    assert_eq!(text.peek(), Some('x'));
    assert_eq!(position(&text), (2, 3));
    text.consume_whitespace();
    assert_eq!(text.peek(), Some('x'));
    assert_eq!(position(&text), (2, 3));
}

#[test]
fn parentheses_read_one_character() {
    let mut text = lexer("()x");
    assert_eq!(text.lpar(), Ok(Token::LPAR(1, 1)));
    assert_eq!(text.rpar(), Ok(Token::RPAR(1, 2)));
    assert_eq!(text.peek(), Some('x'));
    let mut empty = lexer("");
    assert_eq!(empty.lpar(), Ok(Token::LPAR(1, 1)));
    assert_eq!(position(&empty), (1, 1));
}

#[test]
fn comment_is_trimmed_and_ends_with_its_line() {
    let mut text = lexer(";   spaced out  \t\n(");
    assert_eq!(text.next(), Ok(Token::COMMENT(";   spaced out".to_string(), 1, 1)));
    assert_eq!(position(&text), (2, 1));
    assert_eq!(text.next(), Ok(Token::LPAR(2, 1)));
}

#[test]
fn comment_at_the_end_of_the_input() {
    let mut text = lexer("  ; last words");
    assert_eq!(text.next(), Ok(Token::COMMENT("; last words".to_string(), 1, 3)));
    assert_eq!(text.next(), Err(LexError::END(1, 15)));
}

#[test]
fn comment_scanner_trims_both_ends() {
    let mut text = lexer("  both  \nrest");
    assert_eq!(text.comment(), Ok(Token::COMMENT("both".to_string(), 1, 1)));
    assert_eq!(text.peek(), Some('r'));
}

#[test]
fn string_escapes_take_the_next_character() {
    let mut text = lexer("\"a\\\\b\\\"c\\nd\" x");
    assert_eq!(text.next(), Ok(Token::STRING("a\\b\"cnd".to_string(), 1, 1)));
    assert_eq!(position(&text), (1, 13));
    assert_eq!(text.next(), Ok(Token::IDENT("x".to_string(), 1, 14)));
}

#[test]
fn string_may_be_empty() {
    let mut text = lexer("\"\"");
    assert_eq!(text.next(), Ok(Token::STRING("".to_string(), 1, 1)));
    assert_eq!(text.next(), Err(LexError::END(1, 3)));
}

#[test]
fn string_does_not_span_a_raw_newline() {
    let mut text = lexer("\"open\nnext\"");
    assert_eq!(text.next(), Err(LexError::UNTERMINATED("open".to_string(), 1, 1)));
    assert_eq!(position(&text), (2, 1));
    assert_eq!(text.peek(), Some('n'));
}

#[test]
fn string_ending_in_a_backslash_is_unterminated() {
    let mut text = lexer("\"abc\\");
    assert_eq!(text.next(), Err(LexError::UNTERMINATED("abc".to_string(), 1, 1)));
    assert_eq!(text.peek(), None);
}

#[test]
fn string_scanner_takes_any_first_character() {
    let mut text = lexer("xab\"c");
    assert_eq!(text.string(), Ok(Token::STRING("ab".to_string(), 1, 1)));
    assert_eq!(text.peek(), Some('c'));
    let mut empty = lexer("");
    assert_eq!(empty.string(), Err(LexError::UNTERMINATED("".to_string(), 1, 1)));
}

#[test]
fn number_reads_its_terminator() {
    let mut text = lexer("42 7");
    assert_eq!(text.next(), Ok(Token::INTEGER("42".to_string(), 1, 1)));
    assert_eq!(position(&text), (1, 4));
    assert_eq!(text.next(), Ok(Token::INTEGER("7".to_string(), 1, 4)));
    assert_eq!(text.next(), Err(LexError::END(1, 5)));
}

#[test]
fn number_ended_by_a_newline() {
    let mut text = lexer("3.5\n(");
    assert_eq!(text.next(), Ok(Token::FLOAT("3.5".to_string(), 1, 1)));
    assert_eq!(position(&text), (2, 1));
    assert_eq!(text.next(), Ok(Token::LPAR(2, 1)));
}

#[test]
fn number_with_a_second_dot_is_an_invalid_float() {
    let mut text = lexer("1.2.3");
    assert_eq!(text.next(), Err(LexError::FLOAT("1.2.".to_string(), 1, 1)));
    assert_eq!(text.peek(), Some('3'));
    let mut dots = lexer("..");
    assert_eq!(dots.next(), Err(LexError::FLOAT("..".to_string(), 1, 1)));
}

#[test]
fn number_followed_by_a_parenthesis_is_invalid() {
    let mut text = lexer("12)");
    assert_eq!(text.next(), Err(LexError::INTEGER("12)".to_string(), 1, 1)));
    assert_eq!(text.next(), Err(LexError::END(1, 4)));
}

#[test]
fn number_sign_only_at_the_front() {
    let mut alone = lexer("-");
    assert_eq!(alone.next(), Ok(Token::INTEGER("-".to_string(), 1, 1)));
    let mut twice = lexer("--1");
    assert_eq!(twice.next(), Err(LexError::INTEGER("--".to_string(), 1, 1)));
    let mut inside = lexer("1-2");
    assert_eq!(inside.next(), Err(LexError::INTEGER("1-".to_string(), 1, 1)));
    let mut float = lexer("-1.5-");
    assert_eq!(float.next(), Err(LexError::FLOAT("-1.5-".to_string(), 1, 1)));
}

#[test]
fn number_scanner_on_a_blank() {
    let mut text = lexer(" 1");
    assert_eq!(text.number(), Ok(Token::INTEGER("".to_string(), 1, 1)));
    assert_eq!(text.peek(), Some('1'));
    let mut empty = lexer("");
    assert_eq!(empty.number(), Ok(Token::INTEGER("".to_string(), 1, 1)));
}

#[test]
fn ident_ends_at_whitespace() {
    let mut text = lexer("abc def\nghi");
    assert_eq!(text.next(), Ok(Token::IDENT("abc".to_string(), 1, 1)));
    assert_eq!(text.next(), Ok(Token::IDENT("def".to_string(), 1, 5)));
    assert_eq!(text.next(), Ok(Token::IDENT("ghi".to_string(), 2, 1)));
    assert_eq!(text.next(), Err(LexError::END(2, 4)));
}

#[test]
fn ident_may_hold_digits_and_punctuation() {
    let mut text = lexer("a1.b-c+d ");
    assert_eq!(text.next(), Ok(Token::IDENT("a1.b-c+d".to_string(), 1, 1)));
}

#[test]
fn ident_error_reads_the_bad_character() {
    let mut text = lexer("ab(cd");
    assert_eq!(text.next(), Err(LexError::IDENT("ab".to_string(), 1, 1)));
    assert_eq!(text.peek(), Some('c'));
    assert_eq!(position(&text), (1, 4));
}

#[test]
fn ident_starting_with_a_bracket_is_empty_and_invalid() {
    let mut open = lexer("[a");
    assert_eq!(open.next(), Err(LexError::IDENT("".to_string(), 1, 1)));
    let mut close = lexer("]");
    assert_eq!(close.next(), Err(LexError::IDENT("".to_string(), 1, 1)));
    let mut backslash = lexer("\\a");
    assert_eq!(backslash.next(), Err(LexError::IDENT("".to_string(), 1, 1)));
}

#[test]
fn ident_start_range_has_symbols_between_the_letters() {
    let mut caret = lexer("^_` ");
    assert_eq!(caret.next(), Ok(Token::IDENT("^_`".to_string(), 1, 1)));
    let mut upper = lexer("Az");
    assert_eq!(upper.next(), Ok(Token::IDENT("Az".to_string(), 1, 1)));
}

#[test]
fn invalid_character_is_left_in_place() {
    let mut text = lexer("  {x");
    assert_eq!(text.next(), Err(LexError::INVALID('{', 1, 3)));
    assert_eq!(text.peek(), Some('{'));
    assert_eq!(position(&text), (1, 3));
    assert_eq!(text.next(), Err(LexError::INVALID('{', 1, 3)));
}

#[test]
fn invalid_characters_outside_the_token_starts() {
    for c in ['!', '#', '$', '\'', '+', '/', ':', '@', '{', '|', '}', '~'] {
        let mut text = lexer(&c.to_string());
        assert_eq!(text.next(), Err(LexError::INVALID(c, 1, 1)));
    }
}

#[test]
fn read_token_does_not_skip_whitespace() {
    let mut text = lexer(" (");
    assert_eq!(text.read_token(), Err(LexError::INVALID(' ', 1, 1)));
    let mut empty = lexer("");
    assert_eq!(empty.read_token(), Err(LexError::END(1, 1)));
}

#[test]
fn first_lines_of_a_program() {
    let mut text = lexer(
        "; hello, this is a comment\n(\"this is a \\\"string\\\" with some escape chars\")\n(   ) ; trailing comment\n",
    );
    assert_eq!(text.next(), Ok(Token::COMMENT("; hello, this is a comment".to_string(), 1, 1)));
    assert_eq!(text.next(), Ok(Token::LPAR(2, 1)));
    assert_eq!(
        text.next(),
        Ok(Token::STRING("this is a \"string\" with some escape chars".to_string(), 2, 2))
    );
    assert_eq!(text.next(), Ok(Token::RPAR(2, 47)));
    assert_eq!(text.next(), Ok(Token::LPAR(3, 1)));
    assert_eq!(text.next(), Ok(Token::RPAR(3, 5)));
    assert_eq!(text.next(), Ok(Token::COMMENT("; trailing comment".to_string(), 3, 7)));
    assert_eq!(text.next(), Err(LexError::END(4, 1)));
}

#[test]
fn text_beyond_ascii_is_read_byte_by_byte() {
    let mut text = lexer("\u{e9}");
    assert_eq!(text.get(), Some('\u{c3}'));
    assert_eq!(text.get(), Some('\u{a9}'));
    assert_eq!(text.get(), None);
    assert_eq!(position(&text), (1, 3));
}

#[test]
fn trim_text_drops_surrounding_whitespace() {
    assert_eq!(trim_text(&"  a b \n".to_string()), "a b".to_string());
    assert_eq!(trim_text(&"\t\n ".to_string()), "".to_string());
    assert_eq!(trim_text(&"kept".to_string()), "kept".to_string());
    assert_eq!(trim_text(&"\u{a0}x\u{2003}".to_string()), "x".to_string());
}

#[test]
fn number_helpers_pick_the_variant() {
    assert_eq!(Token::number("1".to_string(), false, 2, 3), Token::INTEGER("1".to_string(), 2, 3));
    assert_eq!(Token::number("1.".to_string(), true, 2, 3), Token::FLOAT("1.".to_string(), 2, 3));
    assert_eq!(
        LexError::number("1x".to_string(), false, 4, 5),
        LexError::INTEGER("1x".to_string(), 4, 5)
    );
    assert_eq!(
        LexError::number("1.x".to_string(), true, 4, 5),
        LexError::FLOAT("1.x".to_string(), 4, 5)
    );
}

#[test]
fn parser_hands_out_its_lexer() {
    let mut parser = Parser::new(lexer("()\n"));
    assert_eq!(parser.get_lexer().get(), Some('('));
    assert_eq!(parser.get_lexer().next(), Ok(Token::RPAR(1, 2)));
    assert_eq!(parser.get_lexer().get(), Some('\n'));
    assert_eq!(parser.get_lexer().get(), None);
    parser.get_lexer().set_line(9);
    assert_eq!(parser.get_lexer().line(), 9);
}

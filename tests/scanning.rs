use wolff::input_stream::InputStream;
use wolff::lexer::{is_id, is_keyword, is_punctuation, is_whitespace, tokenize, TokenType};
use wolff::number::Number;

fn chars(s: &str) -> Vec<char> {
    s.chars().collect()
}

fn text(v: &[char]) -> String {
    v.iter().collect()
}

fn kinds(src: &str) -> Vec<TokenType> {
    match tokenize(&src.to_string()) {
        Ok(tokens) => tokens.into_iter().map(|t| t.token_type).collect(),
        Err(errors) => panic!("unexpected lexical errors: {}", errors.len()),
    }
}

fn error_messages(src: &str) -> Vec<String> {
    match tokenize(&src.to_string()) {
        Ok(_) => panic!("expected lexical errors"),
        Err(errors) => errors.iter().map(|e| text(&e.message)).collect(),
    }
}

#[test]
fn unterminated_string_discards_every_token() {
    let messages = error_messages("\"abc");
    assert_eq!(messages, vec!["Invalid string termination at 0:4".to_string()]);
}

#[test]
fn every_lexical_error_is_reported() {
    let messages = error_messages("1 @ 2 $");
    assert_eq!(messages, vec!["Invalid character at 0:2".to_string(), "Invalid character at 0:6".to_string()]);
}

#[test]
fn invalid_operator_run_is_an_error() {
    let messages = error_messages("1 +- 2");
    assert_eq!(messages, vec!["Invalid operator at 0:4".to_string()]);
}

#[test]
fn oversized_numeral_is_an_error() {
    let messages = error_messages("99999999999999999999");
    assert_eq!(messages, vec!["Number out of range at 0:20".to_string()]);
}

#[test]
fn lexical_error_carries_its_line() {
    match tokenize(&"print 1;\nprint $;".to_string()) {
        Ok(_) => panic!("expected an error"),
        Err(errors) => {
            assert_eq!(errors.len(), 1);
            assert_eq!(errors[0].line, 1);
            assert_eq!(errors[0].col, 6);
            assert_eq!(text(&errors[0].line_as_string), "print $;");
        }
    }
}

#[test]
fn two_character_operators() {
    assert_eq!(
        kinds("a == b != c >= d <= e ! f = g"),
        vec![
            TokenType::Identifier(chars("a")),
            TokenType::EqualEqual,
            TokenType::Identifier(chars("b")),
            TokenType::BangEqual,
            TokenType::Identifier(chars("c")),
            TokenType::GreaterEqual,
            TokenType::Identifier(chars("d")),
            TokenType::LessEqual,
            TokenType::Identifier(chars("e")),
            TokenType::Bang,
            TokenType::Identifier(chars("f")),
            TokenType::Equal,
            TokenType::Identifier(chars("g")),
            TokenType::EOF,
        ]
    );
}

#[test]
fn numeral_takes_one_point() {
    let tokens = tokenize(&"1.5.2".to_string()).ok().unwrap();
    assert_eq!(tokens[0].token_type, TokenType::Number(Number::from_parts(3, 2).unwrap()));
    assert_eq!(text(&tokens[0].lexeme), "1.5");
    assert_eq!(tokens[1].token_type, TokenType::Dot);
    assert_eq!(tokens[2].token_type, TokenType::Number(Number::from_integer(2)));
}

#[test]
fn comments_and_escapes() {
    assert_eq!(
        kinds("# a comment\n\"a\\\"b\" # another"),
        vec![TokenType::String(chars("a\"b")), TokenType::EOF]
    );
}

#[test]
fn identifiers_take_letters_emoji_and_marks() {
    assert_eq!(
        kinds("_x λ abc? 😀y"),
        vec![
            TokenType::Identifier(chars("_x")),
            TokenType::Keyword(chars("λ")),
            TokenType::Identifier(chars("abc?")),
            TokenType::Identifier(chars("😀y")),
            TokenType::EOF,
        ]
    );
}

#[test]
fn tokens_record_the_position_after_them() {
    let tokens = tokenize(&"ab\n  cd".to_string()).ok().unwrap();
    assert_eq!((tokens[0].line, tokens[0].col), (0, 2));
    assert_eq!((tokens[1].line, tokens[1].col), (1, 4));
}

#[test]
fn character_classes() {
    assert!(is_whitespace(' '));
    assert!(is_whitespace('\n'));
    assert!(is_whitespace('\u{3000}'));
    assert!(!is_whitespace('a'));
    assert!(is_id('a'));
    assert!(is_id('7'));
    assert!(is_id('!'));
    assert!(!is_id('+'));
    assert!(is_punctuation('+'));
    assert!(is_punctuation('|'));
    assert!(!is_punctuation('a'));
    assert!(is_keyword(&chars("while")));
    assert!(!is_keyword(&chars("whilst")));
}

#[test]
fn input_stream_tracks_lines() {
    let mut stream = InputStream::new(&"ab\ncd\r\nef".to_string());
    assert_eq!(stream.peek(), 'a');
    assert_eq!(text(&stream.get_current_line()), "ab");
    stream.next();
    stream.next();
    assert_eq!(stream.next(), '\n');
    assert_eq!((stream.line(), stream.col()), (1, 0));
    assert_eq!(text(&stream.get_current_line()), "cd");
    stream.next();
    assert_eq!(stream.col(), 1);
    while !stream.eof() {
        stream.next();
    }
    assert_eq!(stream.line(), 2);
    assert_eq!(text(&stream.get_current_line()), "ef");
}

#[test]
fn error_reports_as_text() {
    match tokenize(&"1 $".to_string()) {
        Ok(_) => panic!("expected an error"),
        Err(errors) => assert_eq!(text(&errors[0].to_text()), "0:2    1 $\nInvalid character at 0:2"),
    }
}

#[test]
fn token_type_names_and_default() {
    assert_eq!(TokenType::default(), TokenType::EOF);
    assert_eq!(text(&TokenType::GreaterEqual.name()), "GreaterEqual");
    assert_eq!(text(&TokenType::Keyword(chars("if")).name()), "Keyword");
}

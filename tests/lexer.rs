use wolff::input_stream::InputStream;
use wolff::lexer::{Token, TokenStream, TokenType};
use wolff::number::Number;

fn chars(s: &str) -> Vec<char> {
    s.chars().collect()
}

fn text(v: &[char]) -> String {
    v.iter().collect()
}

fn num(n: i64) -> TokenType {
    TokenType::Number(Number::from_integer(n))
}

// Lexes the whole input, stopping at the first error.
fn run_lexer(input: &String) -> Result<Vec<Token>, String> {
    let mut input_stream = InputStream::new(input);
    let mut lexer = TokenStream::new(&mut input_stream);

    let mut tokens = Vec::new();
    while !lexer.eof() {
        match lexer.next() {
            Ok(new_token) => tokens.push(new_token),
            Err(e) => {
                return Err(format!("Lexer error: {}", text(&e.message)));
            }
        }
    }

    Ok(tokens)
}

#[test]
fn test_tokenizer_simple_input() {
    let input = "1 + 2".to_string();

    let result_of_lexer = run_lexer(&input);
    match result_of_lexer {
        Ok(tokens) => {
            assert_eq!(tokens.len(), 4);

            assert_eq!(tokens[0].token_type, num(1));
            assert_eq!(tokens[1].token_type, TokenType::Plus);
            assert_eq!(tokens[2].token_type, num(2));
            assert_eq!(tokens[3].token_type, TokenType::EOF);
        }
        Err(e) => panic!("Unexpected error: {}", e),
    }
}

#[test]
fn test_lexer_with_invalid_input() {
    let input = "1 + @".to_string();
    let result = run_lexer(&input);

    match result {
        Ok(_) => panic!("Expected an error, but got tokens"),
        Err(e) => assert!(e.contains("Lexer error")),
    }
}

#[test]
fn test_tokenizer_multiple_operators() {
    let input = "3 * (4 - 2) / 7".to_string();

    let result = run_lexer(&input);
    match result {
        Ok(tokens) => {
            assert_eq!(tokens.len(), 10);

            assert_eq!(tokens[0].token_type, num(3));
            assert_eq!(tokens[1].token_type, TokenType::Star);
            assert_eq!(tokens[2].token_type, TokenType::LeftParen);
            assert_eq!(tokens[3].token_type, num(4));
            assert_eq!(tokens[4].token_type, TokenType::Minus);
            assert_eq!(tokens[5].token_type, num(2));
            assert_eq!(tokens[6].token_type, TokenType::RightParen);
            assert_eq!(tokens[7].token_type, TokenType::Slash);
            assert_eq!(tokens[8].token_type, num(7));
            assert_eq!(tokens[9].token_type, TokenType::EOF);
        }
        Err(e) => panic!("Unexpected error: {}", e),
    }
}

#[test]
fn test_tokenizer_keywords() {
    let input = "if else while for".to_string();

    let result = run_lexer(&input);
    match result {
        Ok(tokens) => {
            assert_eq!(tokens.len(), 5);

            assert_eq!(tokens[0].token_type, TokenType::Keyword(chars("if")));
            assert_eq!(tokens[1].token_type, TokenType::Keyword(chars("else")));
            assert_eq!(tokens[2].token_type, TokenType::Keyword(chars("while")));
            assert_eq!(tokens[3].token_type, TokenType::Keyword(chars("for")));
            assert_eq!(tokens[4].token_type, TokenType::EOF);
        }
        Err(e) => panic!("Unexpected error: {}", e),
    }
}

#[test]
fn test_tokenizer_strings() {
    let input = "\"hello\" + \"world\"".to_string();

    let result = run_lexer(&input);
    match result {
        Ok(tokens) => {
            assert_eq!(tokens.len(), 4);

            assert_eq!(tokens[0].token_type, TokenType::String(chars("hello")));
            assert_eq!(tokens[1].token_type, TokenType::Plus);
            assert_eq!(tokens[2].token_type, TokenType::String(chars("world")));
            assert_eq!(tokens[3].token_type, TokenType::EOF);
        }
        Err(e) => panic!("Unexpected error: {}", e),
    }
}

#[test]
fn test_lexer_empty_input() {
    let input = "".to_string();

    let result = run_lexer(&input);
    match result {
        Ok(tokens) => {
            assert_eq!(tokens.len(), 1);
            assert_eq!(tokens[0].token_type, TokenType::EOF);
        }
        Err(e) => panic!("Unexpected error: {}", e),
    }
}

#[test]
fn test_lexer_unterminated_string() {
    let input = "\"hello".to_string();

    let result = run_lexer(&input);
    match result {
        Ok(_) => panic!("Expected an error, but got tokens"),
        Err(e) => assert!(e.contains("Lexer error")),
    }
}

#[test]
fn test_lexer_handles_whitespace() {
    let input = "  12   +   3   ".to_string();

    let result = run_lexer(&input);
    match result {
        Ok(tokens) => {
            assert_eq!(tokens.len(), 4);

            assert_eq!(tokens[0].token_type, num(12));
            assert_eq!(tokens[1].token_type, TokenType::Plus);
            assert_eq!(tokens[2].token_type, num(3));
            assert_eq!(tokens[3].token_type, TokenType::EOF);
        }
        Err(e) => panic!("Unexpected error: {}", e),
    }
}

#[test]
fn test_lexer_invalid_character_in_expression() {
    let input = "5 + 3 $".to_string();

    let result = run_lexer(&input);
    match result {
        Ok(_) => panic!("Expected an error, but got tokens"),
        Err(e) => assert!(e.contains("Lexer error")),
    }
}

#[test]
fn test_lexer_nested_parentheses() {
    let input = "( ( 1 + 2 ) * 3 )".to_string();

    let result = run_lexer(&input);
    match result {
        Ok(tokens) => {
            assert_eq!(tokens.len(), 10);

            assert_eq!(tokens[0].token_type, TokenType::LeftParen);
            assert_eq!(tokens[1].token_type, TokenType::LeftParen);
            assert_eq!(tokens[2].token_type, num(1));
            assert_eq!(tokens[3].token_type, TokenType::Plus);
            assert_eq!(tokens[4].token_type, num(2));
            assert_eq!(tokens[5].token_type, TokenType::RightParen);
            assert_eq!(tokens[6].token_type, TokenType::Star);
            assert_eq!(tokens[7].token_type, num(3));
            assert_eq!(tokens[8].token_type, TokenType::RightParen);
            assert_eq!(tokens[9].token_type, TokenType::EOF);
        }
        Err(e) => panic!("Unexpected error: {}", e),
    }
}

#[test]
fn test_lexer_large_numbers() {
    let input = "1234567890 + 9876543210".to_string();

    let result = run_lexer(&input);
    match result {
        Ok(tokens) => {
            assert_eq!(tokens.len(), 4);

            assert_eq!(tokens[0].token_type, num(1234567890));
            assert_eq!(tokens[1].token_type, TokenType::Plus);
            assert_eq!(tokens[2].token_type, num(9876543210));
            assert_eq!(tokens[3].token_type, TokenType::EOF);
        }
        Err(e) => panic!("Unexpected error: {}", e),
    }
}

use rlox::compiler::{compile, ErrorSite};
use rlox::scanner::{scan_tokens, TokenType};
use rlox::value::Value;

fn numbers_of(tokens: &Vec<rlox::scanner::Token>) -> Vec<Value> {
    tokens
        .iter()
        .map(|t| {
            if t.ttype == TokenType::Number {
                Value::Number(t.lexeme.parse::<f64>().unwrap().to_bits())
            } else {
                Value::Number(0)
            }
        })
        .collect()
}

fn errors(source: &str) -> Vec<(i32, ErrorSite, String)> {
    let tokens = scan_tokens(source);
    let numbers = numbers_of(&tokens);
    match compile(&tokens, &numbers) {
        Ok(_) => Vec::new(),
        Err(d) => d.into_iter().map(|d| (d.line, d.site, d.message)).collect(),
    }
}

#[test]
fn unrecognized_character_gives_one_diagnostic_with_its_line() {
    assert_eq!(
        errors("\n\n$"),
        vec![(3, ErrorSite::Lexical, "Unexpected Character".to_string())]
    );
    assert_eq!(
        errors("$ $ $"),
        vec![(1, ErrorSite::Lexical, "Unexpected Character".to_string())]
    );
}

#[test]
fn missing_operand_is_reported_at_end() {
    assert_eq!(
        errors("1 +"),
        vec![(1, ErrorSite::AtEnd, "Expect expression.".to_string())]
    );
}

#[test]
fn unclosed_group_is_reported() {
    assert_eq!(
        errors("(1"),
        vec![(1, ErrorSite::AtEnd, "Expect ')' after expression.".to_string())]
    );
}

#[test]
fn trailing_tokens_are_reported() {
    assert_eq!(
        errors("1 2"),
        vec![(1, ErrorSite::At(2), "Expect End Of Expression".to_string())]
    );
}

#[test]
fn valid_expressions_compile() {
    assert!(errors("1").is_empty());
    assert!(errors("-(1 + 2) * 3 / 4 - 5").is_empty());
}

use rlox::scanner::{
    advance, check_keyword, error_token, identifier, identifier_type, init_scanner, is_alpha,
    is_at_end, is_digit, make_token, match_token, number, peek, peek_next, scan_token, scan_tokens,
    skip_whitespace, string, TokenType,
};

fn kinds(source: &str) -> Vec<TokenType> {
    scan_tokens(source).iter().map(|t| t.ttype).collect()
}

#[test]
fn character_classes() {
    assert!(is_alpha('a') && is_alpha('Z') && is_alpha('_'));
    assert!(!is_alpha('1') && !is_alpha('$'));
    assert!(is_digit('0') && is_digit('9'));
    assert!(!is_digit('a'));
}

#[test]
fn punctuation_and_operators() {
    assert_eq!(
        kinds("(){};,.-+/* ! != = == < <= > >="),
        vec![
            TokenType::LeftParen,
            TokenType::RightParen,
            TokenType::LeftBrace,
            TokenType::RightBrace,
            TokenType::Semicolon,
            TokenType::Comma,
            TokenType::Dot,
            TokenType::Minus,
            TokenType::Plus,
            TokenType::Slash,
            TokenType::Star,
            TokenType::Bang,
            TokenType::BangEqual,
            TokenType::Equal,
            TokenType::EqualEqual,
            TokenType::Less,
            TokenType::LessEqual,
            TokenType::Greater,
            TokenType::GreaterEqual,
            TokenType::EOF,
        ]
    );
}

#[test]
fn keywords_and_identifiers() {
    assert_eq!(
        kinds("and class else false for fun if nil or print return super this true var while"),
        vec![
            TokenType::And,
            TokenType::Class,
            TokenType::Else,
            TokenType::False,
            TokenType::For,
            TokenType::Fun,
            TokenType::If,
            TokenType::Nil,
            TokenType::Or,
            TokenType::Print,
            TokenType::Return,
            TokenType::Super,
            TokenType::This,
            TokenType::True,
            TokenType::Var,
            TokenType::While,
            TokenType::EOF,
        ]
    );
    assert_eq!(
        kinds("a f t andy fo thus _x9"),
        vec![TokenType::Identifier; 7].into_iter().chain(vec![TokenType::EOF]).collect::<Vec<_>>()
    );
}

#[test]
fn numbers_and_lexemes() {
    let tokens = scan_tokens("12 3.25 7.");
    assert_eq!(tokens[0].ttype, TokenType::Number);
    assert_eq!(tokens[0].lexeme, "12");
    assert_eq!(tokens[1].lexeme, "3.25");
    assert_eq!(tokens[1].start, 3);
    assert_eq!(tokens[1].length, 4);
    assert_eq!(tokens[2].lexeme, "7");
    assert_eq!(tokens[3].ttype, TokenType::Dot);
    assert_eq!(tokens[4].ttype, TokenType::EOF);
}

#[test]
fn lines_comments_and_strings() {
    let tokens = scan_tokens("1 // note\n\"a\nb\" 2");
    assert_eq!(tokens[0].line, 1);
    assert_eq!(tokens[1].ttype, TokenType::String);
    assert_eq!(tokens[1].lexeme, "\"a\nb\"");
    assert_eq!(tokens[1].line, 3);
    assert_eq!(tokens[2].lexeme, "2");
    assert_eq!(tokens[2].line, 3);
    assert_eq!(tokens[3].ttype, TokenType::EOF);
}

#[test]
fn unexpected_character_is_an_error_token() {
    let tokens = scan_tokens("\n $");
    assert_eq!(tokens[0].ttype, TokenType::Error);
    assert_eq!(tokens[0].lexeme, "Unexpected Character");
    assert_eq!(tokens[0].line, 2);
    assert_eq!(tokens[0].length, 20);
    assert_eq!(tokens[1].ttype, TokenType::EOF);
}

#[test]
fn unterminated_string_is_an_error_token() {
    let tokens = scan_tokens("\"abc\n");
    assert_eq!(tokens[0].ttype, TokenType::Error);
    assert_eq!(tokens[0].lexeme, "Unterminated String");
    assert_eq!(tokens[0].line, 2);
    assert_eq!(tokens.len(), 2);
}

#[test]
fn empty_source_and_nul_end_the_text() {
    assert_eq!(kinds(""), vec![TokenType::EOF]);
    assert_eq!(kinds("1\u{0}2"), vec![TokenType::Number, TokenType::EOF]);
}

#[test]
fn cursor_primitives() {
    let mut s = init_scanner("ab");
    assert!(!is_at_end(&s));
    assert_eq!(peek(&s), 'a');
    assert_eq!(peek_next(&s), 'b');
    assert_eq!(advance(&mut s), 'a');
    assert_eq!(peek(&s), 'b');
    assert_eq!(peek_next(&s), '\0');
    assert!(!match_token(&mut s, 'x'));
    assert!(match_token(&mut s, 'b'));
    assert!(is_at_end(&s));
    assert_eq!(peek(&s), '\0');
    let t = make_token(&s, TokenType::Identifier);
    assert_eq!(t.lexeme, "ab");
    assert_eq!(t.length, 2);
    let e = error_token(&s, "oops");
    assert_eq!(e.ttype, TokenType::Error);
    assert_eq!(e.lexeme, "oops");
    assert_eq!(e.length, 4);
}

#[test]
fn skip_whitespace_counts_newlines() {
    let mut s = init_scanner("  \n\t// c\n\r x");
    skip_whitespace(&mut s);
    assert_eq!(peek(&s), 'x');
    let t = scan_token(&mut s);
    assert_eq!(t.line, 3);
    assert_eq!(t.start, 11);
}

#[test]
fn word_helpers() {
    let mut s = init_scanner("while1 ");
    advance(&mut s);
    let t = identifier(&mut s);
    assert_eq!(t.ttype, TokenType::Identifier);
    assert_eq!(t.lexeme, "while1");

    let mut s = init_scanner("super");
    for _ in 0..5 {
        advance(&mut s);
    }
    assert_eq!(identifier_type(&s), TokenType::Super);
    assert_eq!(check_keyword(&s, 1, 4, "uper", TokenType::Super), TokenType::Super);
    assert_eq!(check_keyword(&s, 1, 4, "upex", TokenType::Super), TokenType::Identifier);
    assert_eq!(check_keyword(&s, 1, 3, "upe", TokenType::Super), TokenType::Identifier);

    let mut s = init_scanner("4.5.6");
    advance(&mut s);
    let t = number(&mut s);
    assert_eq!(t.lexeme, "4.5");

    let mut s = init_scanner("\"hi\" rest");
    advance(&mut s);
    let t = string(&mut s);
    assert_eq!(t.ttype, TokenType::String);
    assert_eq!(t.lexeme, "\"hi\"");
}

#[test]
fn single_letter_keyword_prefix_at_end() {
    assert_eq!(kinds("a"), vec![TokenType::Identifier, TokenType::EOF]);
    assert_eq!(kinds("f"), vec![TokenType::Identifier, TokenType::EOF]);
}

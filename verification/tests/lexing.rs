use lambda_calculus::text::same_text;
use lambda_calculus::tokens::{tokenize, whitespace, Token};

fn name(text: &str) -> Token {
    Token::Var(text.to_string())
}

#[test]
fn tokenize_empty_text_gives_no_token() {
    assert_eq!(tokenize(""), vec![]);
    assert_eq!(tokenize("  \t \n"), vec![]);
}

#[test]
fn tokenize_single_characters() {
    assert_eq!(
        tokenize("().\\"),
        vec![Token::LParen, Token::RParen, Token::Dot, Token::Lambda]
    );
}

#[test]
fn tokenize_identifier_is_one_token() {
    assert_eq!(tokenize("xy12"), vec![name("xy12")]);
    assert_eq!(tokenize("a=b"), vec![name("a=b")]);
    assert_eq!(tokenize("="), vec![name("=")]);
}

#[test]
fn tokenize_identifier_ends_at_reserved_characters() {
    assert_eq!(tokenize("ab(cd"), vec![name("ab"), Token::LParen, name("cd")]);
    assert_eq!(tokenize("ab)cd"), vec![name("ab"), Token::RParen, name("cd")]);
    assert_eq!(tokenize("ab.cd"), vec![name("ab"), Token::Dot, name("cd")]);
    assert_eq!(tokenize("ab\\cd"), vec![name("ab"), Token::Lambda, name("cd")]);
    assert_eq!(tokenize("ab:cd"), vec![name("ab"), name("cd")]);
    assert_eq!(tokenize("ab cd"), vec![name("ab"), name("cd")]);
    assert_eq!(tokenize("ab\u{a0}cd"), vec![name("ab"), name("cd")]);
}

#[test]
fn tokenize_definition_marker() {
    assert_eq!(tokenize(":="), vec![Token::Define]);
    assert_eq!(
        tokenize("id := \\x.x"),
        vec![
            name("id"),
            Token::Define,
            Token::Lambda,
            name("x"),
            Token::Dot,
            name("x")
        ]
    );
    assert_eq!(tokenize("a:=b"), vec![name("a"), Token::Define, name("b")]);
}

#[test]
fn tokenize_lone_colon_is_dropped() {
    assert_eq!(tokenize(":"), vec![]);
    assert_eq!(tokenize("a : b"), vec![name("a"), name("b")]);
    assert_eq!(tokenize("::="), vec![Token::Define]);
    assert_eq!(tokenize(": ="), vec![name("=")]);
}

#[test]
fn tokenize_keeps_stray_parentheses() {
    assert_eq!(
        tokenize(")a(("),
        vec![Token::RParen, name("a"), Token::LParen, Token::LParen]
    );
}

#[test]
fn tokenize_a_whole_line() {
    assert_eq!(
        tokenize("(\\f x.f (f x)) succ"),
        vec![
            Token::LParen,
            Token::Lambda,
            name("f"),
            name("x"),
            Token::Dot,
            name("f"),
            Token::LParen,
            name("f"),
            name("x"),
            Token::RParen,
            Token::RParen,
            name("succ"),
        ]
    );
}

#[test]
fn tokenize_identifier_of_other_scripts() {
    assert_eq!(tokenize("λ 越x"), vec![name("λ"), name("越x")]);
}

#[test]
fn whitespace_is_the_unicode_property() {
    let mut code: u32 = 0;
    while code <= 0x10FFFF {
        if let Some(c) = char::from_u32(code) {
            assert_eq!(whitespace(c), c.is_whitespace(), "U+{:04X}", code);
        }
        code += 1;
    }
}

#[test]
fn token_clone_is_equal() {
    for token in tokenize("( ) \\ . abc :=") {
        assert_eq!(token.clone(), token);
    }
}

#[test]
fn same_text_compares_characters() {
    assert!(same_text("", ""));
    assert!(same_text("abc", "abc"));
    assert!(same_text("λx", "λx"));
    assert!(!same_text("abc", "abd"));
    assert!(!same_text("abc", "ab"));
    assert!(!same_text("ab", "abc"));
    assert!(!same_text("", "a"));
}

#[test]
fn whitespace_examples() {
    assert!(whitespace(' '));
    assert!(whitespace('\t'));
    assert!(whitespace('\n'));
    assert!(whitespace('\u{a0}'));
    assert!(whitespace('\u{3000}'));
    assert!(!whitespace('a'));
    assert!(!whitespace('('));
    assert!(!whitespace('\u{200b}'));
}

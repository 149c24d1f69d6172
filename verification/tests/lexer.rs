use trove::lex::Lexer;
use trove::lex::Token;

fn lexed(source: &str) -> Vec<Token> {
    let mut lexer = Lexer::new();
    assert!(lexer.try_lex(Box::new(String::from(source))));
    *lexer.tokens
}

#[test]
fn lex_punctuation() {
    assert_eq!(
        lexed("+-*/{}()[],:;="),
        vec![
            Token::PLUS,
            Token::MINUS,
            Token::STAR,
            Token::DIV,
            Token::LCURLY,
            Token::RCURLY,
            Token::LPAREN,
            Token::RPAREN,
            Token::LBRACKET,
            Token::RBRACKET,
            Token::COMMA,
            Token::COLON,
            Token::SEMICOLON,
            Token::EQUAL,
        ]
    );
}

#[test]
fn lex_declaration() {
    assert_eq!(
        lexed("x i32 = 42"),
        vec![
            Token::IDENTIFIER(String::from("x")),
            Token::I32,
            Token::EQUAL,
            Token::NUMBER(String::from("42")),
        ]
    );
}

#[test]
fn lex_u32_and_double_quoted_string() {
    assert_eq!(
        lexed("name u32 = \"hi there\""),
        vec![
            Token::IDENTIFIER(String::from("name")),
            Token::U32,
            Token::EQUAL,
            Token::STRING(String::from("hi there")),
        ]
    );
}

#[test]
fn lex_single_quoted_string() {
    assert_eq!(lexed("'abc'"), vec![Token::STRING(String::from("abc"))]);
}

#[test]
fn lex_unterminated_string_runs_to_the_end() {
    let mut lexer = Lexer::new();
    assert!(lexer.try_lex(Box::new(String::from("\"abc"))));
    assert_eq!(*lexer.tokens, vec![Token::STRING(String::from("abc"))]);
    assert_eq!(lexer.current, 5);
}

#[test]
fn lex_drops_a_leading_i_or_u_that_starts_no_keyword() {
    assert_eq!(
        lexed("ifx uvw y"),
        vec![
            Token::IDENTIFIER(String::from("fx")),
            Token::IDENTIFIER(String::from("vw")),
            Token::IDENTIFIER(String::from("y")),
        ]
    );
}

#[test]
fn lex_digits_then_letters() {
    assert_eq!(
        lexed("12ab\t\r\n7"),
        vec![
            Token::NUMBER(String::from("12")),
            Token::IDENTIFIER(String::from("ab")),
            Token::NUMBER(String::from("7")),
        ]
    );
}

#[test]
fn lex_empty_and_blank_programs() {
    assert_eq!(lexed(""), vec![]);
    assert_eq!(lexed(" \n\t\r "), vec![]);
}

#[test]
fn lex_appends_to_earlier_tokens() {
    let mut lexer = Lexer::new();
    lexer.lex(Box::new(String::from("a")));
    lexer.current = 0;
    lexer.lex(Box::new(String::from("b")));
    assert_eq!(
        *lexer.tokens,
        vec![Token::IDENTIFIER(String::from("a")), Token::IDENTIFIER(String::from("b"))]
    );
}

#[test]
fn lex_rejects_a_character_that_starts_no_token() {
    let mut lexer = Lexer::new();
    assert!(!lexer.try_lex(Box::new(String::from("x ? y"))));
}

#[test]
fn lex_rejects_i_or_u_near_the_end() {
    let mut lexer = Lexer::new();
    assert!(!lexer.try_lex(Box::new(String::from("x u"))));
    let mut lexer = Lexer::new();
    assert!(!lexer.try_lex(Box::new(String::from("i3"))));
}

#[test]
fn token_text_is_payload_or_name() {
    assert_eq!(Token::PLUS.text(), "PLUS");
    assert_eq!(Token::RET.text(), "RET");
    assert_eq!(Token::IDENTIFIER(String::from("abc")).text(), "abc");
    assert_eq!(Token::NUMBER(String::from("17")).text(), "17");
}

#[test]
fn token_copied_and_same() {
    let t = Token::STRING(String::from("s"));
    let c = t.copied();
    assert_eq!(c, t);
    assert!(t.same(&c));
    assert!(!t.same(&Token::STRING(String::from("z"))));
    assert!(Token::COMMA.same(&Token::COMMA));
    assert!(!Token::COMMA.same(&Token::COLON));
}

#[test]
fn lex_with_given_letters() {
    let mut lexer = Lexer::new();
    assert!(lexer.try_lex_with_letters(Box::new(String::from("ab+c")), &vec![true, true, false, true]));
    assert_eq!(
        *lexer.tokens,
        vec![Token::IDENTIFIER(String::from("ab")), Token::PLUS, Token::IDENTIFIER(String::from("c"))]
    );
    let mut lexer = Lexer::new();
    assert!(lexer.try_lex_with_letters(Box::new(String::from("x#y")), &vec![true, true, true]));
    assert_eq!(*lexer.tokens, vec![Token::IDENTIFIER(String::from("x#y"))]);
    let mut lexer = Lexer::new();
    assert!(!lexer.try_lex_with_letters(Box::new(String::from("ab")), &vec![true, false]));
}

#[test]
fn lex_letters_are_unicode_alphabetic() {
    assert_eq!(
        lexed("héllo ß"),
        vec![Token::IDENTIFIER(String::from("héllo")), Token::IDENTIFIER(String::from("ß"))]
    );
}

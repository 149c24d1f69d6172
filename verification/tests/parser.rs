use trove::lex::Lexer;
use trove::lex::Token;
use trove::parse::LeftUnary;
use trove::parse::Number;
use trove::parse::ParsedAST;
use trove::parse::Parser;
use trove::typecheck::Mutability;
use trove::typecheck::Primative;

fn tokens_of(source: &str) -> Box<Vec<Token>> {
    let mut lexer = Lexer::new();
    assert!(lexer.try_lex(Box::new(String::from(source))));
    lexer.tokens
}

fn parsed(tokens: Vec<Token>) -> Option<Box<ParsedAST>> {
    let tokens = Box::new(tokens);
    let mut parser = Parser::new(&tokens);
    parser.try_parse()
}

fn ident(s: &str) -> Token {
    Token::IDENTIFIER(String::from(s))
}

#[test]
fn parse_block_with_declaration() {
    let tokens = tokens_of("{ x i32 = 42 }");
    let mut parser = Parser::new(&tokens);
    let ast = parser.parse();
    match *ast {
        ParsedAST::PROGRAM(program) => {
            assert_eq!(program.body.len(), 1);
            match &program.body[0] {
                ParsedAST::BLOCK(block) => {
                    assert!(block.new_scope);
                    assert_eq!(block.body.len(), 1);
                    match &block.body[0] {
                        ParsedAST::STMT(stmt) => match &**stmt {
                            ParsedAST::DECL(decl) => {
                                assert_eq!(decl.identifier, ident("x"));
                                assert_eq!(decl.typ.mutability, Mutability::CONSTANT);
                                assert_eq!(decl.typ.primative, Primative::I32);
                                assert!(!decl.typ.reference);
                                assert!(!decl.requires_infering);
                                assert!(matches!(
                                    decl.value.as_deref(),
                                    Some(ParsedAST::NUMBER(Number::INTEGER(42)))
                                ));
                            },
                            other => panic!("not a declaration: {:?}", other),
                        },
                        other => panic!("not a statement: {:?}", other),
                    }
                },
                other => panic!("not a block: {:?}", other),
            }
        },
        other => panic!("not a program: {:?}", other),
    }
}

#[test]
fn parse_sum_is_right_nested() {
    let ast = parsed(*tokens_of("{ 1 + 2 - 3 }")).unwrap();
    let ParsedAST::PROGRAM(program) = *ast else { panic!() };
    let ParsedAST::BLOCK(block) = &program.body[0] else { panic!() };
    let ParsedAST::STMT(stmt) = &block.body[0] else { panic!() };
    let ParsedAST::BINARY(outer) = &**stmt else { panic!() };
    assert_eq!(outer.op, Token::PLUS);
    assert!(matches!(*outer.left, ParsedAST::NUMBER(Number::INTEGER(1))));
    let ParsedAST::BINARY(inner) = &*outer.right else { panic!() };
    assert_eq!(inner.op, Token::MINUS);
    assert!(matches!(*inner.left, ParsedAST::NUMBER(Number::INTEGER(2))));
    assert!(matches!(*inner.right, ParsedAST::NUMBER(Number::INTEGER(3))));
}

#[test]
fn parse_call_with_arguments() {
    let ast = parsed(vec![
        Token::LCURLY,
        ident("println"),
        Token::LPAREN,
        Token::NUMBER(String::from("1")),
        Token::COMMA,
        Token::STRING(String::from("s")),
        Token::RPAREN,
        Token::RCURLY,
    ])
    .unwrap();
    let ParsedAST::PROGRAM(program) = *ast else { panic!() };
    let ParsedAST::BLOCK(block) = &program.body[0] else { panic!() };
    let ParsedAST::STMT(stmt) = &block.body[0] else { panic!() };
    let ParsedAST::CALL(call) = &**stmt else { panic!() };
    assert!(matches!(&*call.callee, ParsedAST::IDENTIFIER(name) if name == "println"));
    assert_eq!(call.args.len(), 2);
    assert!(matches!(call.args[0], ParsedAST::NUMBER(Number::INTEGER(1))));
    assert!(matches!(&call.args[1], ParsedAST::STRING(s) if s == "s"));
}

#[test]
fn parse_take_reference() {
    let ast = parsed(vec![Token::LCURLY, Token::AT, ident("x"), Token::RCURLY]).unwrap();
    let ParsedAST::PROGRAM(program) = *ast else { panic!() };
    let ParsedAST::BLOCK(block) = &program.body[0] else { panic!() };
    let ParsedAST::STMT(stmt) = &block.body[0] else { panic!() };
    let ParsedAST::LEFT_UNARY(LeftUnary::TAKE_REFERENCE(r)) = &**stmt else { panic!() };
    assert!(matches!(&*r.rhs, ParsedAST::IDENTIFIER(name) if name == "x"));
    assert_eq!(r.rhs_type.primative, Primative::INCOMPLETE);
    assert!(!r.is_heap_alloc);
}

#[test]
fn parse_true_and_false_as_numbers() {
    let ast = parsed(vec![Token::LCURLY, Token::TRUE, Token::FALSE, Token::RCURLY]).unwrap();
    let ParsedAST::PROGRAM(program) = *ast else { panic!() };
    let ParsedAST::BLOCK(block) = &program.body[0] else { panic!() };
    assert_eq!(block.body.len(), 2);
    let ParsedAST::STMT(first) = &block.body[0] else { panic!() };
    let ParsedAST::STMT(second) = &block.body[1] else { panic!() };
    assert!(matches!(**first, ParsedAST::NUMBER(Number::INTEGER(1))));
    assert!(matches!(**second, ParsedAST::NUMBER(Number::INTEGER(0))));
}

#[test]
fn parse_inferred_declaration() {
    let ast = parsed(*tokens_of("{ y u32 = 7 }")).unwrap();
    let ParsedAST::PROGRAM(program) = *ast else { panic!() };
    let ParsedAST::BLOCK(block) = &program.body[0] else { panic!() };
    let ParsedAST::STMT(stmt) = &block.body[0] else { panic!() };
    let ParsedAST::DECL(decl) = &**stmt else { panic!() };
    assert_eq!(decl.typ.primative, Primative::U32);
    let ast = parsed(vec![
        Token::LCURLY,
        ident("z"),
        Token::VAR,
        Token::EQUAL,
        Token::NUMBER(String::from("3")),
        Token::RCURLY,
    ])
    .unwrap();
    let ParsedAST::PROGRAM(program) = *ast else { panic!() };
    let ParsedAST::BLOCK(block) = &program.body[0] else { panic!() };
    let ParsedAST::STMT(stmt) = &block.body[0] else { panic!() };
    let ParsedAST::DECL(decl) = &**stmt else { panic!() };
    assert_eq!(decl.typ.primative, Primative::INCOMPLETE);
    assert!(decl.requires_infering);
}

#[test]
fn parse_empty_program() {
    let ast = parsed(vec![]).unwrap();
    assert!(matches!(*ast, ParsedAST::PROGRAM(ref p) if p.body.is_empty()));
}

#[test]
fn parse_rejects_expression_at_the_last_token() {
    assert!(parsed(*tokens_of("x i32 = 42")).is_none());
}

#[test]
fn parse_rejects_unclosed_block() {
    assert!(parsed(vec![Token::LCURLY, ident("x")]).is_none());
}

#[test]
fn parse_numeral_past_u64_kept_as_text() {
    let ast = parsed(vec![
        Token::LCURLY,
        Token::NUMBER(String::from("18446744073709551616")),
        Token::NUMBER(String::from("18446744073709551615")),
        Token::RCURLY,
    ])
    .unwrap();
    let ParsedAST::PROGRAM(program) = *ast else { panic!() };
    let ParsedAST::BLOCK(block) = &program.body[0] else { panic!() };
    let ParsedAST::STMT(first) = &block.body[0] else { panic!() };
    let ParsedAST::STMT(second) = &block.body[1] else { panic!() };
    assert!(matches!(&**first, ParsedAST::NUMBER(Number::FLOAT(s)) if s == "18446744073709551616"));
    assert!(matches!(**second, ParsedAST::NUMBER(Number::INTEGER(u64::MAX))));
}

#[test]
fn parse_float_numerals_kept_as_text() {
    for text in ["1.5", "-2e10", "inf", "NaN", ".5", "3.", "1E+3"] {
        let ast = parsed(vec![Token::LCURLY, Token::NUMBER(String::from(text)), Token::RCURLY]).unwrap();
        let ParsedAST::PROGRAM(program) = *ast else { panic!() };
        let ParsedAST::BLOCK(block) = &program.body[0] else { panic!() };
        let ParsedAST::STMT(stmt) = &block.body[0] else { panic!() };
        assert!(matches!(&**stmt, ParsedAST::NUMBER(Number::FLOAT(s)) if s == text));
    }
}

#[test]
fn parse_rejects_number_token_that_is_no_numeral() {
    for text in ["", "abc", ".", "1e", "1.2.3", " 1", "+", "e5", "1_0"] {
        assert!(parsed(vec![Token::LCURLY, Token::NUMBER(String::from(text)), Token::RCURLY]).is_none());
    }
}

#[test]
fn parse_rejects_a_token_that_starts_no_expression() {
    assert!(parsed(vec![Token::LCURLY, Token::SEMICOLON, Token::RCURLY]).is_none());
}

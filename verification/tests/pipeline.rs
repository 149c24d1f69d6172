use trove::analyser::Analyser;
use trove::generator::CGenerator;
use trove::generator::Generator;
use trove::generator::PRELUDE;
use trove::lex::Lexer;
use trove::lex::Token;
use trove::parse::Binary;
use trove::parse::Block;
use trove::parse::Call;
use trove::parse::Decl;
use trove::parse::Directive;
use trove::parse::Fn as FnNode;
use trove::parse::For;
use trove::parse::If;
use trove::parse::LeftUnary;
use trove::parse::Number;
use trove::parse::ParsedAST;
use trove::parse::Parser;
use trove::parse::Program;
use trove::parse::StructTypesList;
use trove::parse::TakeReference;
use trove::typecheck::Dependent;
use trove::typecheck::Fn as FnType;
use trove::typecheck::Mutability;
use trove::typecheck::Primative;
use trove::typecheck::Type;
use trove::typecheck::TypeChecker;

fn ty(mutability: Mutability, primative: Primative, reference: bool) -> Type {
    Type { mutability, primative, reference }
}

fn program(body: Vec<ParsedAST>) -> Box<ParsedAST> {
    Box::new(ParsedAST::PROGRAM(Program { body }))
}

fn stmt(x: ParsedAST) -> ParsedAST {
    ParsedAST::STMT(Box::new(x))
}

fn ident(s: &str) -> ParsedAST {
    ParsedAST::IDENTIFIER(String::from(s))
}

fn num(n: u64) -> ParsedAST {
    ParsedAST::NUMBER(Number::INTEGER(n))
}

fn reference(rhs: ParsedAST, rhs_type: Type, is_heap_alloc: bool) -> ParsedAST {
    ParsedAST::LEFT_UNARY(LeftUnary::TAKE_REFERENCE(TakeReference {
        rhs: Box::new(rhs),
        rhs_type,
        is_heap_alloc,
    }))
}

fn generated(ast: &Box<ParsedAST>) -> Option<String> {
    let mut generator = CGenerator::new(ast);
    generator.try_generate()
}

#[test]
fn prelude_text() {
    assert!(PRELUDE.starts_with("\n        #include <cstdio>\n        #include <cstdlib>\n"));
    assert!(PRELUDE.contains("void println(int x){\n            printf(\"%d\\n\", x);\n        } \n"));
    assert!(PRELUDE.ends_with("printf(\"%s\\n\", arg);\n        }\n        "));
}

#[test]
fn compile_block_with_declaration() {
    let mut lexer = Lexer::new();
    lexer.lex(Box::new(String::from("{ x i32 = 42 }")));
    let mut parser = Parser::new(&lexer.tokens);
    let ast = parser.parse();
    let mut checker = TypeChecker::new();
    let checked = checker.type_check(ast);
    let mut analyser = Analyser {};
    let analysed = analyser.analyse(checked);
    let mut generator = CGenerator::new(&analysed);
    let code = generator.generate();
    assert_eq!(code, format!("{}{{const int x=42;\n}}", PRELUDE));
}

#[test]
fn generate_keeps_all_statements_of_the_first_block() {
    let ast = program(vec![stmt(num(1))]);
    let mut generator = CGenerator::new(&ast);
    let code = generator.generate();
    assert_eq!(code, format!("{}1;\n", PRELUDE));
    assert_eq!(generator.blocks.len(), 1);
    assert_eq!(generator.blocks[0].statements, vec![String::new(), String::from(PRELUDE), String::from("1;\n")]);
    assert_eq!(generator.blocks[0].index, 2);
}

#[test]
fn type_check_infers_declared_type() {
    let ast = program(vec![stmt(ParsedAST::DECL(Decl {
        identifier: Token::IDENTIFIER(String::from("x")),
        typ: ty(Mutability::MUTABLE, Primative::INCOMPLETE, false),
        requires_infering: true,
        value: Some(Box::new(num(5))),
    }))]);
    let mut checker = TypeChecker::new();
    let checked = checker.try_type_check(ast).unwrap();
    let ParsedAST::PROGRAM(p) = *checked else { panic!() };
    let ParsedAST::STMT(s) = &p.body[0] else { panic!() };
    let ParsedAST::DECL(d) = &**s else { panic!() };
    assert_eq!(d.typ, ty(Mutability::MUTABLE, Primative::I32, false));
}

#[test]
fn type_check_records_reference_type() {
    let ast = program(vec![
        stmt(ParsedAST::DECL(Decl {
            identifier: Token::IDENTIFIER(String::from("x")),
            typ: ty(Mutability::CONSTANT, Primative::U32, false),
            requires_infering: false,
            value: Some(Box::new(num(5))),
        })),
        stmt(reference(ident("x"), ty(Mutability::CONSTANT, Primative::INCOMPLETE, false), false)),
    ]);
    let mut checker = TypeChecker::new();
    let checked = checker.try_type_check(ast).unwrap();
    let ParsedAST::PROGRAM(p) = *checked else { panic!() };
    let ParsedAST::STMT(s) = &p.body[1] else { panic!() };
    let ParsedAST::LEFT_UNARY(LeftUnary::TAKE_REFERENCE(r)) = &**s else { panic!() };
    assert_eq!(r.rhs_type, ty(Mutability::CONSTANT, Primative::U32, false));
}

#[test]
fn type_check_rejects_undeclared_name() {
    let mut checker = TypeChecker::new();
    assert!(checker.try_type_check(program(vec![stmt(ident("y"))])).is_none());
}

#[test]
fn type_check_accepts_println_call() {
    let ast = program(vec![stmt(ParsedAST::CALL(Call {
        callee: Box::new(ident("println")),
        args: vec![num(1)],
    }))]);
    let mut checker = TypeChecker::new();
    assert!(checker.try_type_check(ast).is_some());
}

#[test]
fn analyse_moves_top_level_references_to_the_heap() {
    let ast = program(vec![
        stmt(reference(ident("x"), ty(Mutability::CONSTANT, Primative::I32, false), false)),
        stmt(ParsedAST::BINARY(Binary {
            left: Box::new(reference(ident("y"), ty(Mutability::CONSTANT, Primative::I32, false), false)),
            op: Token::PLUS,
            right: Box::new(num(1)),
        })),
    ]);
    let mut analyser = Analyser {};
    let out = analyser.analyse(ast);
    let ParsedAST::PROGRAM(p) = *out else { panic!() };
    let ParsedAST::STMT(first) = &p.body[0] else { panic!() };
    let ParsedAST::LEFT_UNARY(LeftUnary::TAKE_REFERENCE(r)) = &**first else { panic!() };
    assert!(r.is_heap_alloc);
    let ParsedAST::STMT(second) = &p.body[1] else { panic!() };
    let ParsedAST::BINARY(b) = &**second else { panic!() };
    let ParsedAST::LEFT_UNARY(LeftUnary::TAKE_REFERENCE(inner)) = &*b.left else { panic!() };
    assert!(!inner.is_heap_alloc);
}

#[test]
fn analyse_twice_changes_nothing_more() {
    let make = || {
        program(vec![stmt(reference(ident("x"), ty(Mutability::CONSTANT, Primative::I32, false), false))])
    };
    let mut analyser = Analyser {};
    let once = analyser.analyse(make());
    let first = analyser.analyse(make());
    let twice = analyser.analyse(first);
    assert_eq!(generated(&once), generated(&twice));
}

#[test]
fn generate_heap_reference() {
    let ast = program(vec![stmt(reference(ident("x"), ty(Mutability::CONSTANT, Primative::I32, false), true))]);
    assert_eq!(
        generated(&ast).unwrap(),
        format!("{}int* tmp = (int*) malloc(sizeof(4));\n*tmp = x;tmp;\n", PRELUDE)
    );
}

#[test]
fn generate_struct_heap_reference_size() {
    let ast = program(vec![stmt(reference(
        ident("p"),
        ty(Mutability::MUTABLE, Primative::STRUCT(String::from("Point")), false),
        true,
    ))]);
    assert_eq!(
        generated(&ast).unwrap(),
        format!("{}Point* tmp = (Point*) malloc(sizeof(12));\n*tmp = p;tmp;\n", PRELUDE)
    );
}

#[test]
fn generate_plain_and_dereferenced_references() {
    let ast = program(vec![
        stmt(reference(ident("x"), ty(Mutability::CONSTANT, Primative::I32, false), false)),
        stmt(reference(ident("r"), ty(Mutability::CONSTANT, Primative::I32, true), true)),
    ]);
    assert_eq!(generated(&ast).unwrap(), format!("{}&x;\n*r;\n", PRELUDE));
}

#[test]
fn generate_heap_reference_of_unsized_type_fails() {
    let ast = program(vec![stmt(reference(ident("s"), ty(Mutability::CONSTANT, Primative::STRING, false), true))]);
    assert_eq!(generated(&ast), None);
}

#[test]
fn generate_function() {
    let typ = ty(
        Mutability::CONSTANT,
        Primative::FN(FnType { anonymous_name: String::from("main"), args: vec![], return_type: None }),
        false,
    );
    let body = ParsedAST::BLOCK(Block {
        body: vec![stmt(ParsedAST::CALL(Call {
            callee: Box::new(ident("println")),
            args: vec![ParsedAST::STRING(String::from("hi"))],
        }))],
        new_scope: false,
    });
    let ast = program(vec![ParsedAST::FN(FnNode { typ, params: vec![], body: Box::new(body) })]);
    assert_eq!(
        generated(&ast).unwrap(),
        format!("{}void main(){{println(\"hi\");\n}}", PRELUDE)
    );
}

#[test]
fn generate_function_with_parameters_and_return_type() {
    let typ = ty(
        Mutability::CONSTANT,
        Primative::FN(FnType {
            anonymous_name: String::from("add"),
            args: vec![],
            return_type: Some(Box::new(ty(Mutability::MUTABLE, Primative::I32, false))),
        }),
        false,
    );
    let param = |name: &str| Decl {
        identifier: Token::IDENTIFIER(String::from(name)),
        typ: ty(Mutability::CONSTANT, Primative::I32, false),
        requires_infering: false,
        value: None,
    };
    let body = ParsedAST::RET(Some(Box::new(ParsedAST::BINARY(Binary {
        left: Box::new(ident("a")),
        op: Token::PLUS,
        right: Box::new(ident("b")),
    }))));
    let ast = program(vec![ParsedAST::FN(FnNode {
        typ,
        params: vec![param("a"), param("b")],
        body: Box::new(body),
    })]);
    assert_eq!(
        generated(&ast).unwrap(),
        format!("{}int add(const int a, const int b){{return a+b;\n}}", PRELUDE)
    );
}

#[test]
fn generate_if_else() {
    let ast = program(vec![ParsedAST::IF(If {
        condition: Box::new(ident("c")),
        body: Box::new(stmt(num(1))),
        else_body: Some(Box::new(stmt(num(2)))),
    })]);
    assert_eq!(generated(&ast).unwrap(), format!("{}if(c)1;\n else 2;\n", PRELUDE));
}

#[test]
fn generate_struct_fields_and_group() {
    let field = Decl {
        identifier: Token::IDENTIFIER(String::from("a")),
        typ: ty(Mutability::MUTABLE, Primative::U32, false),
        requires_infering: false,
        value: None,
    };
    let ast = program(vec![
        ParsedAST::STRUCT_TYPES_LIST(StructTypesList { types: vec![field] }),
        stmt(ParsedAST::GROUP(trove::parse::Group { expression: Box::new(num(3)) })),
    ]);
    assert_eq!(generated(&ast).unwrap(), format!("{}{{unsigned int a;\n}}(3);\n", PRELUDE));
}

#[test]
fn generate_reference_typed_declaration() {
    let ast = program(vec![stmt(ParsedAST::DECL(Decl {
        identifier: Token::IDENTIFIER(String::from("s")),
        typ: ty(Mutability::CONSTANT, Primative::STRING, true),
        requires_infering: false,
        value: Some(Box::new(ParsedAST::STRING(String::from("x")))),
    }))]);
    assert_eq!(generated(&ast).unwrap(), format!("{}const char** s=\"x\";\n", PRELUDE));
}

#[test]
fn generate_directives() {
    let assembly = program(vec![ParsedAST::DIRECTIVE(Directive {
        value: Token::IDENTIFIER(String::from("asm")),
        args: vec![ParsedAST::STRING(String::from("nop"))],
        body: None,
    })]);
    assert_eq!(generated(&assembly).unwrap(), format!("{}asm(\"nop\")", PRELUDE));
    let inline = program(vec![ParsedAST::DIRECTIVE(Directive {
        value: Token::IDENTIFIER(String::from("inline")),
        args: vec![],
        body: None,
    })]);
    assert_eq!(generated(&inline).unwrap(), format!("{}inline ", PRELUDE));
    let other = program(vec![ParsedAST::DIRECTIVE(Directive {
        value: Token::IDENTIFIER(String::from("other")),
        args: vec![],
        body: None,
    })]);
    assert_eq!(generated(&other).unwrap(), String::from(PRELUDE));
}

#[test]
fn generate_rejects_bad_directives() {
    let not_named = program(vec![ParsedAST::DIRECTIVE(Directive { value: Token::PLUS, args: vec![], body: None })]);
    assert_eq!(generated(&not_named), None);
    let assembly_without_string = program(vec![ParsedAST::DIRECTIVE(Directive {
        value: Token::IDENTIFIER(String::from("asm")),
        args: vec![num(1)],
        body: None,
    })]);
    assert_eq!(generated(&assembly_without_string), None);
}

#[test]
fn generate_rejects_unknown_operator_and_for() {
    let bad_op = program(vec![stmt(ParsedAST::BINARY(Binary {
        left: Box::new(num(1)),
        op: Token::EQUAL,
        right: Box::new(num(2)),
    }))]);
    assert_eq!(generated(&bad_op), None);
    let for_loop = program(vec![ParsedAST::FOR(For { body: Box::new(stmt(num(1))) })]);
    assert_eq!(generated(&for_loop), None);
}

#[test]
fn generate_rejects_block_typed_declaration() {
    let ast = program(vec![stmt(ParsedAST::DECL(Decl {
        identifier: Token::IDENTIFIER(String::from("b")),
        typ: ty(Mutability::CONSTANT, Primative::BLOCK, false),
        requires_infering: false,
        value: None,
    }))]);
    assert_eq!(generated(&ast), None);
}

#[test]
fn generate_needs_a_first_block() {
    let ast = program(vec![]);
    let mut generator = CGenerator::new(&ast);
    generator.blocks.clear();
    assert_eq!(generator.try_generate(), None);
}

#[test]
fn generate_writes_every_block() {
    let ast = program(vec![stmt(num(1))]);
    let mut generator = CGenerator::new(&ast);
    generator.blocks.push(trove::generator::CodeBlock {
        statements: vec![String::from("//a"), String::from("//b")],
        index: 0,
    });
    assert_eq!(generator.try_generate().unwrap(), format!("{}1;\n//a//b", PRELUDE));
}

#[test]
fn big_numeral_is_a_float_kept_as_text() {
    let ast = program(vec![stmt(ParsedAST::DECL(Decl {
        identifier: Token::IDENTIFIER(String::from("f")),
        typ: ty(Mutability::CONSTANT, Primative::INCOMPLETE, false),
        requires_infering: true,
        value: Some(Box::new(ParsedAST::NUMBER(Number::FLOAT(String::from("99999999999999999999"))))),
    }))]);
    let mut checker = TypeChecker::new();
    let checked = checker.try_type_check(ast).unwrap();
    {
        let ParsedAST::PROGRAM(p) = &*checked else { panic!() };
        let ParsedAST::STMT(s) = &p.body[0] else { panic!() };
        let ParsedAST::DECL(d) = &**s else { panic!() };
        assert_eq!(d.typ, ty(Mutability::CONSTANT, Primative::F32, false));
    }
    assert_eq!(
        generated(&checked).unwrap(),
        format!("{}const float f=99999999999999999999;\n", PRELUDE)
    );
}

#[test]
fn function_type_with_dependent_argument_is_dependent() {
    let dependent_arg = ty(
        Mutability::CONSTANT,
        Primative::DEPENDENT(Dependent { anonymous_name: String::from("T") }),
        false,
    );
    let f = ty(
        Mutability::CONSTANT,
        Primative::FN(FnType { anonymous_name: String::from("f"), args: vec![dependent_arg], return_type: None }),
        false,
    );
    assert!(f.is_dependent());
    let g = ty(
        Mutability::CONSTANT,
        Primative::FN(FnType {
            anonymous_name: String::from("g"),
            args: vec![ty(Mutability::CONSTANT, Primative::I32, false)],
            return_type: Some(Box::new(ty(Mutability::CONSTANT, Primative::I32, false))),
        }),
        false,
    );
    assert!(!g.is_dependent());
}

#[test]
fn generation_keeps_earlier_statements_in_order() {
    let ast = program(vec![stmt(num(1))]);
    let mut generator = CGenerator::new(&ast);
    generator.blocks[0] = trove::generator::CodeBlock {
        statements: vec![String::from("x"), String::from("y")],
        index: 0,
    };
    let code = generator.try_generate().unwrap();
    assert_eq!(
        generator.blocks[0].statements,
        vec![String::from("x"), String::from(PRELUDE), String::from("1;\n"), String::from("y")]
    );
    assert_eq!(code, format!("x{}1;\ny", PRELUDE));
}

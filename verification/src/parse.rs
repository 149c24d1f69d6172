//! The parser: the syntax tree of a trove program, its view, and the
//! recursive-descent parser that builds it from tokens.
use vstd::prelude::*;
use crate::lex::Token;
use crate::lex::tokens_view;
use crate::text::all_digits;
use crate::text::decimal_value;
use crate::typecheck::Fn as FnType;
use crate::typecheck::FnV;
use crate::typecheck::Primative;
use crate::lex::lemma_tokens_view_push;
use crate::text::float_syntax;
use crate::text::is_float_numeral;
use crate::text::parse_decimal;
use crate::text::string_of;
use crate::typecheck::Mutability;
use crate::typecheck::PrimativeV;
use crate::typecheck::Type;
use crate::typecheck::TypeType;
use crate::typecheck::TypeV;
use crate::typecheck::plain_type;

verus! {

#[derive(Debug)]
pub struct Program {
    pub body: Vec<ParsedAST>,
}

/// A block; `new_scope` says whether it opens a scope of its own (the parser's
/// blocks do).
#[derive(Debug)]
pub struct Block {
    pub body: Vec<ParsedAST>,
    pub new_scope: bool,
}

#[derive(Debug)]
pub struct StructTypesList {
    pub types: Vec<Decl>,
}

#[derive(Debug)]
pub struct Decl {
    pub identifier: Token,
    pub typ: Type,
    pub requires_infering: bool,
    pub value: Option<Box<ParsedAST>>,
}

#[derive(Debug)]
pub struct Assign {
    pub lhs: Box<ParsedAST>,
    pub rhs: Box<ParsedAST>,
}

#[derive(Debug)]
pub struct If {
    pub condition: Box<ParsedAST>,
    pub body: Box<ParsedAST>,
    pub else_body: Option<Box<ParsedAST>>,
}

#[derive(Debug)]
pub struct For {
    pub body: Box<ParsedAST>,
}

#[derive(Debug)]
pub struct Identifier {
    pub token: Token,
}

/// `@rhs`; `is_heap_alloc` says whether the referenced value is moved to the heap.
#[derive(Debug)]
pub struct TakeReference {
    pub rhs: Box<ParsedAST>,
    pub rhs_type: Type,
    pub is_heap_alloc: bool,
}

#[allow(non_camel_case_types)]
#[derive(Debug)]
pub enum LeftUnary {
    TAKE_REFERENCE(TakeReference),
}

#[derive(Debug)]
pub struct Binary {
    pub left: Box<ParsedAST>,
    pub op: Token,
    pub right: Box<ParsedAST>,
}

#[derive(Debug)]
pub struct LhsAccess {
    pub left: Box<ParsedAST>,
    pub right: Box<ParsedAST>,
}

#[derive(Debug)]
pub struct Group {
    pub expression: Box<ParsedAST>,
}

#[derive(Debug)]
pub struct Call {
    pub callee: Box<ParsedAST>,
    pub args: Vec<ParsedAST>,
}

#[derive(Debug)]
pub struct Fn {
    pub typ: Type,
    pub params: Vec<Decl>,
    pub body: Box<ParsedAST>,
}

#[derive(Debug)]
pub struct Directive {
    pub value: Token,
    pub args: Vec<ParsedAST>,
    pub body: Option<Box<ParsedAST>>,
}

/// A number literal: an integer, or another float numeral (such as `1.5`, or
/// digits too many for a `u64`) kept as its text.
#[derive(Debug)]
pub enum Number {
    INTEGER(u64),
    FLOAT(String),
}

#[allow(non_camel_case_types)]
#[derive(Debug)]
pub enum ParsedAST {
    PROGRAM(Program),
    STMT(Box<ParsedAST>),
    BLOCK(Block),
    IF(If),
    FOR(For),
    RET(Option<Box<ParsedAST>>),
    DECL(Decl),
    ASSIGN(Assign),
    IDENTIFIER(String),
    STRING(String),
    FN(Fn),
    NUMBER(Number),
    LEFT_UNARY(LeftUnary),
    BINARY(Binary),
    GROUP(Group),
    CALL(Call),
    STRUCT_TYPES_LIST(StructTypesList),
    LHS_ACCESS(LhsAccess),
    DIRECTIVE(Directive),
}

/// The view of a `Number`.
pub enum NumberV {
    INTEGER(u64),
    FLOAT(Seq<char>),
}

/// The view of a `Decl`.
pub struct DeclV {
    pub identifier: Token,
    pub typ: TypeV,
    pub requires_infering: bool,
    pub value: Option<Box<AstV>>,
}

/// The view of a function literal.
pub struct FnNodeV {
    pub typ: TypeV,
    pub params: Seq<DeclV>,
    pub body: Box<AstV>,
}

/// The view of a `ParsedAST`: strings as character sequences, vectors as
/// sequences, tokens by their view; each node's fields are laid out in the
/// variant.
#[allow(non_camel_case_types)]
pub enum AstV {
    PROGRAM(Seq<AstV>),
    STMT(Box<AstV>),
    BLOCK(Seq<AstV>, bool),
    IF(Box<AstV>, Box<AstV>, Option<Box<AstV>>),
    FOR(Box<AstV>),
    RET(Option<Box<AstV>>),
    DECL(DeclV),
    ASSIGN(Box<AstV>, Box<AstV>),
    IDENTIFIER(Seq<char>),
    STRING(Seq<char>),
    FN(FnNodeV),
    NUMBER(NumberV),
    TAKE_REFERENCE(Box<AstV>, TypeV, bool),
    BINARY(Box<AstV>, Token, Box<AstV>),
    GROUP(Box<AstV>),
    CALL(Box<AstV>, Seq<AstV>),
    STRUCT_TYPES_LIST(Seq<DeclV>),
    LHS_ACCESS(Box<AstV>, Box<AstV>),
    DIRECTIVE(Token, Seq<AstV>, Option<Box<AstV>>),
}

/// The views of a sequence of trees.
pub open spec fn asts_view(s: Seq<ParsedAST>) -> Seq<AstV>
    decreases s,
{
    Seq::new(
        s.len(),
        |i: int|
            if 0 <= i < s.len() {
                s[i].view_ast()
            } else {
                arbitrary()
            },
    )
}

/// The views of a sequence of declarations.
pub open spec fn decls_view(s: Seq<Decl>) -> Seq<DeclV>
    decreases s,
{
    Seq::new(
        s.len(),
        |i: int|
            if 0 <= i < s.len() {
                s[i].view_decl()
            } else {
                arbitrary()
            },
    )
}

impl Decl {
    pub open spec fn view_decl(&self) -> DeclV
        decreases self,
    {
        DeclV {
            identifier: self.identifier@,
            typ: self.typ@,
            requires_infering: self.requires_infering,
            value: match &self.value {
                Some(b) => Some(Box::new(b.view_ast())),
                None => None,
            },
        }
    }
}

impl ParsedAST {
    pub open spec fn view_ast(&self) -> AstV
        decreases self,
    {
        match self {
            ParsedAST::PROGRAM(p) => AstV::PROGRAM(asts_view(p.body@)),
            ParsedAST::STMT(s) => AstV::STMT(Box::new(s.view_ast())),
            ParsedAST::BLOCK(b) => AstV::BLOCK(asts_view(b.body@), b.new_scope),
            ParsedAST::IF(i) => AstV::IF(
                Box::new(i.condition.view_ast()),
                Box::new(i.body.view_ast()),
                match &i.else_body {
                    Some(b) => Some(Box::new(b.view_ast())),
                    None => None,
                },
            ),
            ParsedAST::FOR(f) => AstV::FOR(Box::new(f.body.view_ast())),
            ParsedAST::RET(r) => AstV::RET(
                match r {
                    Some(b) => Some(Box::new(b.view_ast())),
                    None => None,
                },
            ),
            ParsedAST::DECL(d) => AstV::DECL(
                DeclV {
                    identifier: d.identifier@,
                    typ: d.typ@,
                    requires_infering: d.requires_infering,
                    value: match &d.value {
                        Some(b) => Some(Box::new(b.view_ast())),
                        None => None,
                    },
                },
            ),
            ParsedAST::ASSIGN(a) => AstV::ASSIGN(
                Box::new(a.lhs.view_ast()),
                Box::new(a.rhs.view_ast()),
            ),
            ParsedAST::IDENTIFIER(s) => AstV::IDENTIFIER(s@),
            ParsedAST::STRING(s) => AstV::STRING(s@),
            ParsedAST::FN(f) => AstV::FN(
                FnNodeV {
                    typ: f.typ@,
                    params: decls_view(f.params@),
                    body: Box::new(f.body.view_ast()),
                },
            ),
            ParsedAST::NUMBER(n) => AstV::NUMBER(
                match n {
                    Number::INTEGER(v) => NumberV::INTEGER(*v),
                    Number::FLOAT(s) => NumberV::FLOAT(s@),
                },
            ),
            ParsedAST::LEFT_UNARY(LeftUnary::TAKE_REFERENCE(t)) => AstV::TAKE_REFERENCE(
                Box::new(t.rhs.view_ast()),
                t.rhs_type@,
                t.is_heap_alloc,
            ),
            ParsedAST::BINARY(b) => AstV::BINARY(
                Box::new(b.left.view_ast()),
                b.op@,
                Box::new(b.right.view_ast()),
            ),
            ParsedAST::GROUP(g) => AstV::GROUP(Box::new(g.expression.view_ast())),
            ParsedAST::CALL(c) => AstV::CALL(Box::new(c.callee.view_ast()), asts_view(c.args@)),
            ParsedAST::STRUCT_TYPES_LIST(s) => AstV::STRUCT_TYPES_LIST(decls_view(s.types@)),
            ParsedAST::LHS_ACCESS(l) => AstV::LHS_ACCESS(
                Box::new(l.left.view_ast()),
                Box::new(l.right.view_ast()),
            ),
            ParsedAST::DIRECTIVE(d) => AstV::DIRECTIVE(
                d.value@,
                asts_view(d.args@),
                match &d.body {
                    Some(b) => Some(Box::new(b.view_ast())),
                    None => None,
                },
            ),
        }
    }
}

impl View for ParsedAST {
    type V = AstV;

    open spec fn view(&self) -> AstV {
        self.view_ast()
    }
}

impl View for Decl {
    type V = DeclV;

    open spec fn view(&self) -> DeclV {
        self.view_decl()
    }
}

/// The views of trees and declarations, element by element.
pub broadcast proof fn lemma_asts_view(s: Seq<ParsedAST>)
    ensures
        #[trigger] asts_view(s).len() == s.len(),
        forall|i: int| 0 <= i < s.len() ==> #[trigger] asts_view(s)[i] == s[i].view_ast(),
{
}

pub broadcast proof fn lemma_decls_view(s: Seq<Decl>)
    ensures
        #[trigger] decls_view(s).len() == s.len(),
        forall|i: int| 0 <= i < s.len() ==> #[trigger] decls_view(s)[i] == s[i].view_decl(),
{
}

/// Pushing a tree pushes its view.
pub broadcast proof fn lemma_asts_view_push(s: Seq<ParsedAST>, x: ParsedAST)
    ensures
        #[trigger] asts_view(s.push(x)) == asts_view(s).push(x.view_ast()),
{
    lemma_asts_view(s);
    lemma_asts_view(s.push(x));
    assert(asts_view(s.push(x)) =~= asts_view(s).push(x.view_ast()));
}

/// Pushing a declaration pushes its view.
pub broadcast proof fn lemma_decls_view_push(s: Seq<Decl>, x: Decl)
    ensures
        #[trigger] decls_view(s.push(x)) == decls_view(s).push(x.view_decl()),
{
    lemma_decls_view(s);
    lemma_decls_view(s.push(x));
    assert(decls_view(s.push(x)) =~= decls_view(s).push(x.view_decl()));
}

/// The number of nodes of a tree (declarations included, types not counted).
pub open spec fn ast_size(a: AstV) -> nat
    decreases a,
{
    1 + match a {
        AstV::PROGRAM(b) => list_size(b),
        AstV::BLOCK(b, _) => list_size(b),
        AstV::STMT(x) => ast_size(*x),
        AstV::FOR(x) => ast_size(*x),
        AstV::GROUP(x) => ast_size(*x),
        AstV::IF(c, b, e) => ast_size(*c) + ast_size(*b) + match e {
            Some(x) => ast_size(*x),
            None => 0,
        },
        AstV::RET(o) => match o {
            Some(x) => ast_size(*x),
            None => 0,
        },
        AstV::DECL(d) => decl_size(d),
        AstV::ASSIGN(l, r) => ast_size(*l) + ast_size(*r),
        AstV::BINARY(l, _, r) => ast_size(*l) + ast_size(*r),
        AstV::LHS_ACCESS(l, r) => ast_size(*l) + ast_size(*r),
        AstV::FN(f) => decls_size(f.params) + ast_size(*f.body),
        AstV::TAKE_REFERENCE(r, _, _) => ast_size(*r),
        AstV::CALL(c, args) => ast_size(*c) + list_size(args),
        AstV::STRUCT_TYPES_LIST(ds) => decls_size(ds),
        AstV::DIRECTIVE(_, args, body) => list_size(args) + match body {
            Some(x) => ast_size(*x),
            None => 0,
        },
        _ => 0,
    }
}

/// The sizes of the trees, each counted one more.
pub open spec fn list_size(s: Seq<AstV>) -> nat
    decreases s,
{
    if s.len() == 0 {
        0
    } else {
        1 + ast_size(s[0]) + list_size(s.subrange(1, s.len() as int))
    }
}

pub open spec fn decl_size(d: DeclV) -> nat
    decreases d,
{
    1 + match d.value {
        Some(x) => ast_size(*x),
        None => 0,
    }
}

/// The sizes of the declarations, each counted one more.
pub open spec fn decls_size(s: Seq<DeclV>) -> nat
    decreases s,
{
    if s.len() == 0 {
        0
    } else {
        1 + decl_size(s[0]) + decls_size(s.subrange(1, s.len() as int))
    }
}

// ---------------------------------------------------------------------------
// The grammar, as the parser reads it. Each function takes the viewed tokens
// and a position, and gives the tree parsed there with the position after it,
// or `None` where the parser fails (reads past the last token, or meets a
// token that no rule accepts).
// ---------------------------------------------------------------------------

/// The token at `c`, if there is one.
pub open spec fn peek(t: Seq<Token>, c: int) -> Option<Token> {
    if 0 <= c < t.len() {
        Some(t[c])
    } else {
        None
    }
}

/// A parse that went forward from `c` and stayed within the tokens.
pub open spec fn moved(t: Seq<Token>, c: int, c1: int) -> bool {
    0 <= c < c1 <= t.len()
}

/// `r` with `x` in front of the sequence it holds.
pub open spec fn cons<A>(x: A, r: Option<(Seq<A>, int)>) -> Option<(Seq<A>, int)> {
    match r {
        Some((rest, e)) => Some((seq![x] + rest, e)),
        None => None,
    }
}

/// The type of the name given to anonymous functions and types.
pub open spec fn anon() -> Seq<char> {
    seq!['a', 'n', 'o', 'n']
}

/// A function type with no arguments.
pub open spec fn fn_type(
    mutability: Mutability,
    reference: bool,
    return_type: Option<Box<TypeV>>,
) -> TypeV {
    TypeV {
        mutability,
        primative: PrimativeV::FN(FnV { anonymous_name: anon(), args: seq![], return_type }),
        reference,
    }
}

/// A numeral that denotes a `u64`.
pub open spec fn numeral(s: Seq<char>) -> bool {
    s.len() > 0 && all_digits(s) && decimal_value(s) <= u64::MAX
}

/// Skips to the next `)`; its position.
pub open spec fn skip_to_rparen(t: Seq<Token>, c: int) -> Option<int>
    decreases t.len() - c,
{
    match peek(t, c) {
        None => None,
        Some(Token::RPAREN) => Some(c),
        Some(_) => skip_to_rparen(t, c + 1),
    }
}

/// A type: an optional `const`/`mut`, an optional `pub`/`priv`, an optional `@`
/// (a reference), then the type's name.
pub open spec fn p_type(t: Seq<Token>, c: int) -> Option<(TypeV, int)> {
    match peek(t, c) {
        None => None,
        Some(first) => {
            let mutability = if first == Token::MUT {
                Mutability::MUTABLE
            } else {
                Mutability::CONSTANT
            };
            let c1 = if first == Token::MUT || first == Token::CONST {
                c + 1
            } else {
                c
            };
            match peek(t, c1) {
                None => None,
                Some(x) => {
                    let c2 = if x == Token::PUB || x == Token::PRIV {
                        c1 + 1
                    } else {
                        c1
                    };
                    match peek(t, c2) {
                        None => None,
                        Some(y) => if y == Token::AT {
                            p_named_type(t, c2 + 1, mutability, true)
                        } else {
                            p_named_type(t, c2, mutability, false)
                        },
                    }
                },
            }
        },
    }
}

/// The name part of a type, at `c`.
pub open spec fn p_named_type(t: Seq<Token>, c: int, mutability: Mutability, reference: bool) -> Option<
    (TypeV, int),
> {
    match peek(t, c) {
        None => None,
        Some(Token::VAR) => Some((TypeV { mutability, primative: PrimativeV::INCOMPLETE, reference }, c + 1)),
        Some(Token::U32) => Some((TypeV { mutability, primative: PrimativeV::U32, reference }, c + 1)),
        Some(Token::I32) => Some((TypeV { mutability, primative: PrimativeV::I32, reference }, c + 1)),
        Some(Token::F32) => Some((TypeV { mutability, primative: PrimativeV::F32, reference }, c + 1)),
        Some(Token::BOOL) => Some((TypeV { mutability, primative: PrimativeV::BOOL, reference }, c + 1)),
        Some(Token::FN) => {
            let f = fn_type(mutability, reference, None);
            match peek(t, c + 1) {
                None => None,
                Some(Token::LPAREN) => match skip_to_rparen(t, c + 2) {
                    Some(e) => Some((f, e + 1)),
                    None => None,
                },
                Some(_) => Some((f, c + 1)),
            }
        },
        Some(Token::TYPE) => Some(
            (TypeV { mutability, primative: PrimativeV::TYPE(anon()), reference }, c + 1),
        ),
        Some(Token::IDENTIFIER(s)) => Some(
            (TypeV { mutability, primative: PrimativeV::STRUCT(s@), reference }, c + 1),
        ),
        Some(_) => Some((TypeV { mutability, primative: PrimativeV::INCOMPLETE, reference }, c)),
    }
}

/// A statement: a block, an `if`, a `ret`, or an expression.
pub open spec fn p_statement(t: Seq<Token>, c: int) -> Option<(AstV, int)>
    decreases t.len() - c, 12int,
{
    match peek(t, c) {
        None => None,
        Some(Token::LCURLY) => p_block(t, c),
        Some(Token::IF) => p_if(t, c),
        Some(Token::RET) => p_ret(t, c),
        Some(_) => match p_expression(t, c) {
            Some((e, c1)) => Some((AstV::STMT(Box::new(e)), c1)),
            None => None,
        },
    }
}

pub open spec fn p_expression(t: Seq<Token>, c: int) -> Option<(AstV, int)>
    decreases t.len() - c, 11int,
{
    match peek(t, c) {
        None => None,
        Some(_) => p_comparison(t, c),
    }
}

pub open spec fn p_comparison(t: Seq<Token>, c: int) -> Option<(AstV, int)>
    decreases t.len() - c, 10int,
{
    p_decl_or_assign(t, c)
}

/// A declaration `name type`, `name type = value`, `name type {fields}` or
/// `name fn ...`; anything else is an assignment or an expression.
pub open spec fn p_decl_or_assign(t: Seq<Token>, c: int) -> Option<(AstV, int)>
    decreases t.len() - c, 9int,
{
    match peek(t, c) {
        None => None,
        Some(first) => if c + 1 >= t.len() {
            p_assign(t, c)
        } else {
            let second = t[c + 1];
            match first {
                Token::IDENTIFIER(_) => match second {
                    Token::TYPE => match p_type(t, c + 1) {
                        None => None,
                        Some((typ, c2)) => match peek(t, c2) {
                            None => None,
                            Some(Token::LCURLY) => if !moved(t, c, c2) {
                                None
                            } else {
                                match p_struct_types_list(t, c2) {
                                    Some((v, c3)) => Some(
                                        (
                                            AstV::DECL(
                                                DeclV {
                                                    identifier: first,
                                                    typ,
                                                    requires_infering: false,
                                                    value: Some(Box::new(v)),
                                                },
                                            ),
                                            c3,
                                        ),
                                    ),
                                    None => None,
                                }
                            },
                            Some(_) => Some(
                                (
                                    AstV::DECL(
                                        DeclV {
                                            identifier: first,
                                            typ,
                                            requires_infering: false,
                                            value: None,
                                        },
                                    ),
                                    c2,
                                ),
                            ),
                        },
                    },
                    Token::FN => match p_function(t, c + 1) {
                        Some((f, c2)) => Some(
                            (
                                AstV::DECL(
                                    DeclV {
                                        identifier: first,
                                        typ: plain_type(Mutability::CONSTANT, PrimativeV::INCOMPLETE),
                                        requires_infering: true,
                                        value: Some(Box::new(f)),
                                    },
                                ),
                                c2,
                            ),
                        ),
                        None => None,
                    },
                    Token::AT | Token::VAR | Token::MUT | Token::CONST | Token::PUB | Token::PRIV
                    | Token::U32 | Token::I32 | Token::F32 | Token::BOOL | Token::IDENTIFIER(_) => {
                        match p_type(t, c + 1) {
                            None => None,
                            Some((typ, c2)) => {
                                let infer = typ.primative is INCOMPLETE;
                                match peek(t, c2) {
                                    None => None,
                                    Some(Token::EQUAL) => if !moved(t, c, c2) {
                                        None
                                    } else {
                                        match p_expression(t, c2 + 1) {
                                            Some((v, c3)) => Some(
                                                (
                                                    AstV::DECL(
                                                        DeclV {
                                                            identifier: first,
                                                            typ,
                                                            requires_infering: infer,
                                                            value: Some(Box::new(v)),
                                                        },
                                                    ),
                                                    c3,
                                                ),
                                            ),
                                            None => None,
                                        }
                                    },
                                    Some(_) => Some(
                                        (
                                            AstV::DECL(
                                                DeclV {
                                                    identifier: first,
                                                    typ,
                                                    requires_infering: infer,
                                                    value: None,
                                                },
                                            ),
                                            c2,
                                        ),
                                    ),
                                }
                            },
                        }
                    },
                    _ => p_assign(t, c),
                },
                _ => p_assign(t, c),
            }
        },
    }
}

/// `lhs = rhs`, or just `lhs`.
pub open spec fn p_assign(t: Seq<Token>, c: int) -> Option<(AstV, int)>
    decreases t.len() - c, 8int,
{
    match p_plus_or_minus(t, c) {
        None => None,
        Some((hp, c1)) => if !moved(t, c, c1) {
            None
        } else {
            match peek(t, c1) {
                None => None,
                Some(Token::EQUAL) => match p_plus_or_minus(t, c1 + 1) {
                    Some((rhs, c2)) => Some((AstV::ASSIGN(Box::new(hp), Box::new(rhs)), c2)),
                    None => None,
                },
                Some(_) => Some((hp, c1)),
            }
        },
    }
}

/// A product followed by `+` or `-` and an expression (to the right), or just
/// the product.
pub open spec fn p_plus_or_minus(t: Seq<Token>, c: int) -> Option<(AstV, int)>
    decreases t.len() - c, 7int,
{
    match p_mul_or_div(t, c) {
        None => None,
        Some((hp, c1)) => if !moved(t, c, c1) {
            None
        } else if c1 < t.len() && (t[c1] == Token::PLUS || t[c1] == Token::MINUS) {
            match p_expression(t, c1 + 1) {
                Some((r, c2)) => Some((AstV::BINARY(Box::new(hp), t[c1], Box::new(r)), c2)),
                None => None,
            }
        } else {
            Some((hp, c1))
        },
    }
}

/// A unary expression followed by `*` or `/` and an expression, or just the
/// unary expression.
pub open spec fn p_mul_or_div(t: Seq<Token>, c: int) -> Option<(AstV, int)>
    decreases t.len() - c, 6int,
{
    match p_unary(t, c) {
        None => None,
        Some((hp, c1)) => if !moved(t, c, c1) {
            None
        } else if c1 < t.len() && (t[c1] == Token::STAR || t[c1] == Token::DIV) {
            match p_expression(t, c1 + 1) {
                Some((r, c2)) => Some((AstV::BINARY(Box::new(hp), t[c1], Box::new(r)), c2)),
                None => None,
            }
        } else {
            Some((hp, c1))
        },
    }
}

/// `@call` (taking a reference), or a call.
pub open spec fn p_unary(t: Seq<Token>, c: int) -> Option<(AstV, int)>
    decreases t.len() - c, 5int,
{
    match peek(t, c) {
        None => None,
        Some(Token::AT) => match p_call(t, c + 1) {
            Some((rhs, c1)) => Some(
                (
                    AstV::TAKE_REFERENCE(
                        Box::new(rhs),
                        plain_type(Mutability::CONSTANT, PrimativeV::INCOMPLETE),
                        false,
                    ),
                    c1,
                ),
            ),
            None => None,
        },
        Some(_) => p_call(t, c),
    }
}

/// A struct access; when it ends in an identifier and is followed by `(` and
/// at least one more token, a call with the arguments up to `)`.
pub open spec fn p_call(t: Seq<Token>, c: int) -> Option<(AstV, int)>
    decreases t.len() - c, 4int,
{
    match p_struct_access(t, c) {
        None => None,
        Some((hp, c1)) => if !moved(t, c, c1) {
            None
        } else if c1 < t.len() && t[c1 - 1] is IDENTIFIER && c1 + 1 < t.len() && t[c1]
            == Token::LPAREN {
            match p_args(t, c1 + 1) {
                Some((args, c2)) => Some((AstV::CALL(Box::new(hp), args), c2)),
                None => None,
            }
        } else {
            Some((hp, c1))
        },
    }
}

/// Expressions up to `)`, each followed by one separating token unless it is
/// the `)`; the position after the `)`.
pub open spec fn p_args(t: Seq<Token>, c: int) -> Option<(Seq<AstV>, int)>
    decreases t.len() - c, 13int,
{
    match peek(t, c) {
        None => None,
        Some(Token::RPAREN) => Some((seq![], c + 1)),
        Some(_) => match p_expression(t, c) {
            None => None,
            Some((e, c1)) => if !moved(t, c, c1) {
                None
            } else {
                match peek(t, c1) {
                    None => None,
                    Some(Token::RPAREN) => cons(e, p_args(t, c1)),
                    Some(_) => cons(e, p_args(t, c1 + 1)),
                }
            },
        },
    }
}

/// `left.right`, or a single expression.
pub open spec fn p_struct_access(t: Seq<Token>, c: int) -> Option<(AstV, int)>
    decreases t.len() - c, 3int,
{
    match p_single(t, c) {
        None => None,
        Some((hp, c1)) => if !moved(t, c, c1) {
            None
        } else {
            match peek(t, c1) {
                None => None,
                Some(Token::DOT) => match p_expression(t, c1 + 1) {
                    Some((r, c2)) => Some((AstV::LHS_ACCESS(Box::new(hp), Box::new(r)), c2)),
                    None => None,
                },
                Some(_) => Some((hp, c1)),
            }
        },
    }
}

/// A directive `#name` or `#name(args)`, `true`, `false`, an identifier, a
/// string, a number (an integer where the digits fit a `u64`; otherwise, where
/// the text is a float numeral (see `float_syntax`), kept as its text; other
/// number tokens are refused), a group `(e)` or a block.
pub open spec fn p_single(t: Seq<Token>, c: int) -> Option<(AstV, int)>
    decreases t.len() - c, 2int,
{
    match peek(t, c) {
        None => None,
        Some(Token::HASH) => p_directive(t, c),
        Some(Token::TRUE) => Some((AstV::NUMBER(NumberV::INTEGER(1)), c + 1)),
        Some(Token::FALSE) => Some((AstV::NUMBER(NumberV::INTEGER(0)), c + 1)),
        Some(Token::IDENTIFIER(s)) => Some((AstV::IDENTIFIER(s@), c + 1)),
        Some(Token::STRING(s)) => Some((AstV::STRING(s@), c + 1)),
        Some(Token::NUMBER(s)) => if numeral(s@) {
            Some((AstV::NUMBER(NumberV::INTEGER(decimal_value(s@) as u64)), c + 1))
        } else if float_syntax(s@) {
            Some((AstV::NUMBER(NumberV::FLOAT(s@)), c + 1))
        } else {
            None
        },
        Some(Token::LPAREN) => match p_expression(t, c + 1) {
            Some((e, c1)) => if moved(t, c, c1) && c1 < t.len() {
                Some((AstV::GROUP(Box::new(e)), c1 + 1))
            } else {
                None
            },
            None => None,
        },
        Some(Token::LCURLY) => p_block(t, c),
        Some(_) => None,
    }
}

/// A directive: a token (the `#`), the directive's name token, and optional
/// arguments in parentheses.
pub open spec fn p_directive(t: Seq<Token>, c: int) -> Option<(AstV, int)>
    decreases t.len() - c, 0int,
{
    if c < 0 || c + 1 >= t.len() {
        None
    } else {
        let value = t[c + 1];
        match peek(t, c + 2) {
            None => None,
            Some(Token::LPAREN) => match p_args(t, c + 3) {
                Some((args, c3)) => Some((AstV::DIRECTIVE(value, args, None), c3)),
                None => None,
            },
            Some(_) => Some((AstV::DIRECTIVE(value, seq![], None), c + 2)),
        }
    }
}

/// A block: a token (the `{`) and statements up to `}`.
pub open spec fn p_block(t: Seq<Token>, c: int) -> Option<(AstV, int)>
    decreases t.len() - c, 1int,
{
    if 0 <= c < t.len() {
        match p_stmts(t, c + 1) {
            Some((body, c1)) => Some((AstV::BLOCK(body, true), c1)),
            None => None,
        }
    } else {
        None
    }
}

/// Statements up to `}`; the position after it.
pub open spec fn p_stmts(t: Seq<Token>, c: int) -> Option<(Seq<AstV>, int)>
    decreases t.len() - c, 13int,
{
    if c < 0 || c >= t.len() {
        None
    } else if t[c] == Token::RCURLY {
        Some((seq![], c + 1))
    } else {
        match p_statement(t, c) {
            None => None,
            Some((s, c1)) => if !moved(t, c, c1) {
                None
            } else {
                cons(s, p_stmts(t, c1))
            },
        }
    }
}

/// `if cond stmt`, with an optional `else stmt`.
pub open spec fn p_if(t: Seq<Token>, c: int) -> Option<(AstV, int)>
    decreases t.len() - c, 1int,
{
    if 0 <= c < t.len() {
        match p_expression(t, c + 1) {
            None => None,
            Some((cond, c1)) => if !moved(t, c, c1) {
                None
            } else {
                match p_statement(t, c1) {
                    None => None,
                    Some((body, c2)) => if !moved(t, c1, c2) {
                        None
                    } else if c2 < t.len() && t[c2] == Token::ELSE {
                        match p_statement(t, c2 + 1) {
                            Some((e, c3)) => Some(
                                (
                                    AstV::IF(Box::new(cond), Box::new(body), Some(Box::new(e))),
                                    c3,
                                ),
                            ),
                            None => None,
                        }
                    } else {
                        Some((AstV::IF(Box::new(cond), Box::new(body), None), c2))
                    },
                }
            },
        }
    } else {
        None
    }
}

/// `ret`, with no value.
pub open spec fn p_ret(t: Seq<Token>, c: int) -> Option<(AstV, int)> {
    if 0 <= c < t.len() {
        Some((AstV::RET(None), c + 1))
    } else {
        None
    }
}

/// A token (the `{`) and declarations up to `}`.
pub open spec fn p_struct_types_list(t: Seq<Token>, c: int) -> Option<(AstV, int)>
    decreases t.len() - c, 0int,
{
    if 0 <= c < t.len() {
        match p_decls(t, c + 1) {
            Some((ds, c1)) => Some((AstV::STRUCT_TYPES_LIST(ds), c1)),
            None => None,
        }
    } else {
        None
    }
}

/// Declarations up to `}`; the position after it.
pub open spec fn p_decls(t: Seq<Token>, c: int) -> Option<(Seq<DeclV>, int)>
    decreases t.len() - c, 13int,
{
    if c < 0 || c >= t.len() {
        None
    } else if t[c] == Token::RCURLY {
        Some((seq![], c + 1))
    } else {
        match p_decl_or_assign(t, c) {
            Some((AstV::DECL(d), c1)) => if !moved(t, c, c1) {
                None
            } else {
                cons(d, p_decls(t, c1))
            },
            _ => None,
        }
    }
}

/// A token (the `fn`), optional parameters in parentheses, a return type and
/// a body statement.
pub open spec fn p_function(t: Seq<Token>, c: int) -> Option<(AstV, int)>
    decreases t.len() - c, 1int,
{
    if 0 <= c < t.len() {
        match peek(t, c + 1) {
            None => None,
            Some(Token::LPAREN) => match p_params(t, c + 2) {
                Some((ps, c2)) => if moved(t, c, c2) {
                    p_function_rest(t, c, ps, c2)
                } else {
                    None
                },
                None => None,
            },
            Some(_) => p_function_rest(t, c, seq![], c + 1),
        }
    } else {
        None
    }
}

/// The return type and body of a function whose parameters end before `c2`.
pub open spec fn p_function_rest(t: Seq<Token>, c: int, ps: Seq<DeclV>, c2: int) -> Option<
    (AstV, int),
>
    decreases t.len() - c, 0int,
{
    match p_type(t, c2) {
        None => None,
        Some((rt, c3)) => if !moved(t, c, c3) {
            None
        } else {
            let ret = TypeV { mutability: Mutability::MUTABLE, ..rt };
            match p_statement(t, c3) {
                Some((body, c4)) => Some(
                    (
                        AstV::FN(
                            FnNodeV {
                                typ: fn_type(Mutability::CONSTANT, false, Some(Box::new(ret))),
                                params: ps,
                                body: Box::new(body),
                            },
                        ),
                        c4,
                    ),
                ),
                None => None,
            }
        },
    }
}

/// Parameter declarations up to `)`, each followed by one separating token
/// unless it is the `)`; the position after the `)`.
pub open spec fn p_params(t: Seq<Token>, c: int) -> Option<(Seq<DeclV>, int)>
    decreases t.len() - c, 13int,
{
    match peek(t, c) {
        None => None,
        Some(Token::RPAREN) => Some((seq![], c + 1)),
        Some(_) => match p_decl_or_assign(t, c) {
            Some((AstV::DECL(d), c1)) => if !moved(t, c, c1) {
                None
            } else {
                match peek(t, c1) {
                    None => None,
                    Some(Token::RPAREN) => cons(d, p_params(t, c1)),
                    Some(_) => cons(d, p_params(t, c1 + 1)),
                }
            },
            _ => None,
        },
    }
}

/// Statements up to the last token.
pub open spec fn p_program_body(t: Seq<Token>, c: int) -> Option<Seq<AstV>>
    decreases t.len() - c,
{
    if c < 0 {
        None
    } else if c >= t.len() {
        Some(seq![])
    } else {
        match p_statement(t, c) {
            None => None,
            Some((s, c1)) => if !moved(t, c, c1) {
                None
            } else {
                match p_program_body(t, c1) {
                    Some(rest) => Some(seq![s] + rest),
                    None => None,
                }
            },
        }
    }
}

/// The program that the tokens `t` make, if the parser accepts them.
pub open spec fn p_program(t: Seq<Token>) -> Option<AstV> {
    match p_program_body(t, 0) {
        Some(body) => Some(AstV::PROGRAM(body)),
        None => None,
    }
}

/// `acc` in front of the sequence that `r` holds.
pub open spec fn prefix<A>(acc: Seq<A>, r: Option<(Seq<A>, int)>) -> Option<(Seq<A>, int)> {
    match r {
        Some((rest, e)) => Some((acc + rest, e)),
        None => None,
    }
}

proof fn lemma_prefix_cons<A>(acc: Seq<A>, x: A, r: Option<(Seq<A>, int)>)
    ensures
        prefix(acc, cons(x, r)) == prefix(acc.push(x), r),
{
    if let Some((rest, e)) = r {
        assert(acc + (seq![x] + rest) =~= acc.push(x) + rest);
    }
}

proof fn lemma_prefix_empty<A>(acc: Seq<A>, e: int)
    ensures
        prefix(acc, Some((Seq::<A>::empty(), e))) == Some((acc, e)),
{
    assert(acc + Seq::<A>::empty() =~= acc);
}

/// `r` is what the grammar function gives (`s`), as an executable tree.
pub open spec fn parsed(r: Option<(ParsedAST, usize)>, s: Option<(AstV, int)>) -> bool {
    match r {
        Some((a, c)) => s == Some((a@, c as int)),
        None => s is None,
    }
}

/// The parser's state: the tokens it reads.
pub struct Parser<'a> {
    pub tokens: &'a Box<Vec<Token>>,
}

impl<'a> Parser<'a> {
    /// The views of the tokens.
    pub open spec fn toks(&self) -> Seq<Token> {
        tokens_view(self.tokens@)
    }

    /// A parse from `c` that went forward and stayed within the tokens.
    pub open spec fn advanced(&self, c: usize, r: Option<(ParsedAST, usize)>) -> bool {
        r matches Some((_, c1)) ==> moved(self.toks(), c as int, c1 as int)
    }

    /// A parser of `tokens`.
    pub fn new(tokens: &'a Box<Vec<Token>>) -> (r: Parser<'a>)
        ensures
            r.tokens == tokens,
    {
        Parser { tokens }
    }

    /// Parses the whole token sequence as a program.
    pub fn parse(&mut self) -> (r: Box<ParsedAST>)
        requires
            p_program(old(self).toks()) is Some,
        ensures
            final(self).tokens == old(self).tokens,
            r@ == p_program(old(self).toks()).unwrap(),
    {
        let r = self.try_parse();
        r.unwrap()
    }

    /// Parses the whole token sequence as a program, where the parser accepts
    /// it (see `p_program`); `None` where it does not.
    pub fn try_parse(&mut self) -> (r: Option<Box<ParsedAST>>)
        ensures
            final(self).tokens == old(self).tokens,
            match r {
                Some(a) => p_program(old(self).toks()) == Some(a@),
                None => p_program(old(self).toks()) is None,
            },
    {
        match self.parse_program() {
            Some(a) => Some(Box::new(a)),
            None => None,
        }
    }

    fn parse_program(&self) -> (r: Option<ParsedAST>)
        ensures
            match r {
                Some(a) => p_program(self.toks()) == Some(a@),
                None => p_program(self.toks()) is None,
            },
    {
        broadcast use lemma_asts_view_push;

        let ghost t = self.toks();
        let mut current: usize = 0;
        let mut body: Vec<ParsedAST> = Vec::new();
        while !self.end(&current)
            invariant
                t == self.toks(),
                current <= t.len(),
                p_program_body(t, 0) == match p_program_body(t, current as int) {
                    Some(rest) => Some(asts_view(body@) + rest),
                    None => None,
                },
            decreases t.len() - current,
        {
            match self.statement(current) {
                None => return None,
                Some((s, c1)) => {
                    proof {
                        let x = p_program_body(t, c1 as int);
                        if let Some(rest) = x {
                            assert(asts_view(body@) + (seq![s@] + rest) =~= asts_view(
                                body@,
                            ).push(s@) + rest);
                        }
                    }
                    body.push(s);
                    current = c1;
                },
            }
        }
        assert(asts_view(body@) + Seq::<AstV>::empty() =~= asts_view(body@));
        Some(ParsedAST::PROGRAM(Program { body }))
    }

    fn parse_type(&self, current: usize) -> (r: Option<(Type, usize)>)
        ensures
            match r {
                Some((ty, c)) => p_type(self.toks(), current as int) == Some((ty@, c as int))
                    && current <= c <= self.toks().len(),
                None => p_type(self.toks(), current as int) is None,
            },
    {
        let ghost t = self.toks();
        let mut current = current;
        let mut mutability = Mutability::CONSTANT;
        if self.end(&current) {
            return None;
        }
        match self.peek(&current) {
            Token::CONST => {
                self.consume(&mut current);
                mutability = Mutability::CONSTANT;
            },
            Token::MUT => {
                self.consume(&mut current);
                mutability = Mutability::MUTABLE;
            },
            _ => {},
        }
        if self.end(&current) {
            return None;
        }
        match self.peek(&current) {
            Token::PUB => {
                self.consume(&mut current);
            },
            Token::PRIV => {
                self.consume(&mut current);
            },
            _ => {},
        }
        if self.end(&current) {
            return None;
        }
        let mut reference = false;
        match self.peek(&current) {
            Token::AT => {
                self.consume(&mut current);
                reference = true;
            },
            _ => {},
        }
        self.named_type(current, mutability, reference)
    }

    fn named_type(&self, start: usize, mutability: Mutability, reference: bool) -> (r: Option<
        (Type, usize),
    >)
        ensures
            match r {
                Some((ty, c)) => p_named_type(self.toks(), start as int, mutability, reference)
                    == Some((ty@, c as int)) && start <= c <= self.toks().len(),
                None => p_named_type(self.toks(), start as int, mutability, reference) is None,
            },
    {
        let ghost t = self.toks();
        let mut current = start;
        if self.end(&current) {
            return None;
        }
        proof {
            reveal_strlit("anon");
        }
        match self.peek(&current) {
            Token::VAR => {
                self.consume(&mut current);
                Some((Type { reference, mutability, primative: Primative::INCOMPLETE }, current))
            },
            Token::U32 => {
                self.consume(&mut current);
                Some((Type { reference, mutability, primative: Primative::U32 }, current))
            },
            Token::I32 => {
                self.consume(&mut current);
                Some((Type { reference, mutability, primative: Primative::I32 }, current))
            },
            Token::F32 => {
                self.consume(&mut current);
                Some((Type { reference, mutability, primative: Primative::F32 }, current))
            },
            Token::BOOL => {
                self.consume(&mut current);
                Some((Type { reference, mutability, primative: Primative::BOOL }, current))
            },
            Token::FN => {
                let ghost c0 = current;
                self.consume(&mut current);
                if self.end(&current) {
                    assert(peek(t, c0 + 1) is None);
                    return None;
                }
                if self.expecting(Token::LPAREN, &current) {
                    self.consume(&mut current);
                    let ghost from = current;
                    let ghost whole = p_named_type(t, c0 as int, mutability, reference);
                    assert(whole == match skip_to_rparen(t, from as int) {
                        Some(e) => Some((fn_type(mutability, reference, None), e + 1)),
                        None => None,
                    });
                    loop
                        invariant
                            t == self.toks(),
                            c0 == start,
                            whole == p_named_type(t, c0 as int, mutability, reference),
                            whole == match skip_to_rparen(t, from as int) {
                                Some(e) => Some((fn_type(mutability, reference, None), e + 1)),
                                None => None,
                            },
                            t.len() <= usize::MAX,
                            from <= current <= t.len(),
                            skip_to_rparen(t, from as int) == skip_to_rparen(t, current as int),
                        ensures
                            current < t.len(),
                            t.len() <= usize::MAX,
                            skip_to_rparen(t, from as int) == Some(current as int),
                        decreases t.len() - current,
                    {
                        if self.end(&current) {
                            assert(skip_to_rparen(t, current as int) is None);
                            return None;
                        }
                        if self.expecting(Token::RPAREN, &current) {
                            break;
                        }
                        self.consume(&mut current);
                    }
                    self.consume(&mut current);
                }
                let name = string_of("anon");
                assert(name@ =~= anon());
                let f = FnType { args: Vec::new(), anonymous_name: name, return_type: None };
                assert(crate::typecheck::types_view(f.args@) =~= Seq::<TypeV>::empty());
                let r = Type { reference, mutability, primative: Primative::FN(f) };
                assert(r@ == fn_type(mutability, reference, None));
                Some((r, current))
            },
            Token::TYPE => {
                self.consume(&mut current);
                let name = string_of("anon");
                assert(name@ =~= anon());
                Some(
                    (
                        Type {
                            reference,
                            mutability,
                            primative: Primative::TYPE(TypeType { anonymous_name: name }),
                        },
                        current,
                    ),
                )
            },
            Token::IDENTIFIER(identifier) => {
                let name = identifier.clone();
                self.consume(&mut current);
                Some((Type { reference, mutability, primative: Primative::STRUCT(name) }, current))
            },
            _ => Some((Type { reference, mutability, primative: Primative::INCOMPLETE }, current)),
        }
    }

    fn statement(&self, current: usize) -> (r: Option<(ParsedAST, usize)>)
        ensures
            parsed(r, p_statement(self.toks(), current as int)),
            self.advanced(current, r),
        decreases self.toks().len() - current, 12int,
    {
        if self.end(&current) {
            return None;
        }
        match self.peek(&current) {
            Token::LCURLY => self.block(current),
            Token::IF => self.if_stmt(current),
            Token::RET => self.ret(current),
            _ => match self.expression(current) {
                Some((e, c1)) => Some((ParsedAST::STMT(Box::new(e)), c1)),
                None => None,
            },
        }
    }

    fn expression(&self, current: usize) -> (r: Option<(ParsedAST, usize)>)
        ensures
            parsed(r, p_expression(self.toks(), current as int)),
            self.advanced(current, r),
        decreases self.toks().len() - current, 11int,
    {
        if self.end(&current) {
            return None;
        }
        self.comparison(current)
    }

    fn comparison(&self, current: usize) -> (r: Option<(ParsedAST, usize)>)
        ensures
            parsed(r, p_comparison(self.toks(), current as int)),
            self.advanced(current, r),
        decreases self.toks().len() - current, 10int,
    {
        self.decl_or_assign(current)
    }

    #[verifier::rlimit(60)]
    fn decl_or_assign(&self, current: usize) -> (r: Option<(ParsedAST, usize)>)
        ensures
            parsed(r, p_decl_or_assign(self.toks(), current as int)),
            self.advanced(current, r),
        decreases self.toks().len() - current, 9int,
    {
        let ghost t = self.toks();
        if self.end(&current) {
            return None;
        }
        let first = self.peek(&current);
        if self.end_ahead(&current, 1) {
            return self.assign(current);
        }
        let second = self.peek_ahead(&current, 1);
        match first {
            Token::IDENTIFIER(_) => match second {
                Token::TYPE => {
                    let identifier = first.copied();
                    match self.parse_type(current + 1) {
                        None => None,
                        Some((typ, c2)) => {
                            if self.end(&c2) {
                                return None;
                            }
                            match self.peek(&c2) {
                                Token::LCURLY => match self.struct_types_list(c2) {
                                    Some((v, c3)) => Some(
                                        (
                                            ParsedAST::DECL(
                                                Decl {
                                                    identifier,
                                                    typ,
                                                    requires_infering: false,
                                                    value: Some(Box::new(v)),
                                                },
                                            ),
                                            c3,
                                        ),
                                    ),
                                    None => None,
                                },
                                _ => Some(
                                    (
                                        ParsedAST::DECL(
                                            Decl { identifier, typ, requires_infering: false, value: None },
                                        ),
                                        c2,
                                    ),
                                ),
                            }
                        },
                    }
                },
                Token::FN => {
                    let identifier = first.copied();
                    let typ = Type {
                        mutability: Mutability::CONSTANT,
                        primative: Primative::INCOMPLETE,
                        reference: false,
                    };
                    match self.function(current + 1) {
                        Some((f, c2)) => Some(
                            (
                                ParsedAST::DECL(
                                    Decl {
                                        identifier,
                                        typ,
                                        requires_infering: true,
                                        value: Some(Box::new(f)),
                                    },
                                ),
                                c2,
                            ),
                        ),
                        None => None,
                    }
                },
                Token::AT | Token::VAR | Token::MUT | Token::CONST | Token::PUB | Token::PRIV
                | Token::U32 | Token::I32 | Token::F32 | Token::BOOL | Token::IDENTIFIER(_) => {
                    let identifier = first.copied();
                    match self.parse_type(current + 1) {
                        None => None,
                        Some((typ, c2)) => {
                            let requires_infering = match typ.primative {
                                Primative::INCOMPLETE => true,
                                _ => false,
                            };
                            if self.end(&c2) {
                                return None;
                            }
                            match self.peek(&c2) {
                                Token::EQUAL => match self.expression(c2 + 1) {
                                    Some((v, c3)) => Some(
                                        (
                                            ParsedAST::DECL(
                                                Decl {
                                                    identifier,
                                                    typ,
                                                    requires_infering,
                                                    value: Some(Box::new(v)),
                                                },
                                            ),
                                            c3,
                                        ),
                                    ),
                                    None => None,
                                },
                                _ => Some(
                                    (
                                        ParsedAST::DECL(
                                            Decl { identifier, typ, requires_infering, value: None },
                                        ),
                                        c2,
                                    ),
                                ),
                            }
                        },
                    }
                },
                _ => self.assign(current),
            },
            _ => self.assign(current),
        }
    }

    fn assign(&self, current: usize) -> (r: Option<(ParsedAST, usize)>)
        ensures
            parsed(r, p_assign(self.toks(), current as int)),
            self.advanced(current, r),
        decreases self.toks().len() - current, 8int,
    {
        match self.plus_or_minus(current) {
            None => None,
            Some((higher_precedence, c1)) => {
                if self.end(&c1) {
                    return None;
                }
                if self.expecting(Token::EQUAL, &c1) {
                    match self.plus_or_minus(c1 + 1) {
                        Some((rhs, c2)) => Some(
                            (
                                ParsedAST::ASSIGN(
                                    Assign { lhs: Box::new(higher_precedence), rhs: Box::new(rhs) },
                                ),
                                c2,
                            ),
                        ),
                        None => None,
                    }
                } else {
                    Some((higher_precedence, c1))
                }
            },
        }
    }

    fn plus_or_minus(&self, current: usize) -> (r: Option<(ParsedAST, usize)>)
        ensures
            parsed(r, p_plus_or_minus(self.toks(), current as int)),
            self.advanced(current, r),
        decreases self.toks().len() - current, 7int,
    {
        match self.mul_or_div(current) {
            None => None,
            Some((higher_precedence, c1)) => {
                if !self.end(&c1) {
                    match self.peek(&c1) {
                        Token::PLUS | Token::MINUS => {
                            let op = self.peek(&c1).copied();
                            match self.expression(c1 + 1) {
                                Some((right, c2)) => Some(
                                    (
                                        ParsedAST::BINARY(
                                            Binary {
                                                left: Box::new(higher_precedence),
                                                op,
                                                right: Box::new(right),
                                            },
                                        ),
                                        c2,
                                    ),
                                ),
                                None => None,
                            }
                        },
                        _ => Some((higher_precedence, c1)),
                    }
                } else {
                    Some((higher_precedence, c1))
                }
            },
        }
    }

    fn mul_or_div(&self, current: usize) -> (r: Option<(ParsedAST, usize)>)
        ensures
            parsed(r, p_mul_or_div(self.toks(), current as int)),
            self.advanced(current, r),
        decreases self.toks().len() - current, 6int,
    {
        match self.unary(current) {
            None => None,
            Some((higher_precedence, c1)) => {
                if !self.end(&c1) {
                    match self.peek(&c1) {
                        Token::STAR | Token::DIV => {
                            let op = self.peek(&c1).copied();
                            match self.expression(c1 + 1) {
                                Some((right, c2)) => Some(
                                    (
                                        ParsedAST::BINARY(
                                            Binary {
                                                left: Box::new(higher_precedence),
                                                op,
                                                right: Box::new(right),
                                            },
                                        ),
                                        c2,
                                    ),
                                ),
                                None => None,
                            }
                        },
                        _ => Some((higher_precedence, c1)),
                    }
                } else {
                    Some((higher_precedence, c1))
                }
            },
        }
    }

    fn unary(&self, current: usize) -> (r: Option<(ParsedAST, usize)>)
        ensures
            parsed(r, p_unary(self.toks(), current as int)),
            self.advanced(current, r),
        decreases self.toks().len() - current, 5int,
    {
        if self.end(&current) {
            return None;
        }
        if self.expecting(Token::AT, &current) {
            match self.call(current + 1) {
                Some((rhs, c1)) => {
                    let rhs_type = Type {
                        mutability: Mutability::CONSTANT,
                        primative: Primative::INCOMPLETE,
                        reference: false,
                    };
                    Some(
                        (
                            ParsedAST::LEFT_UNARY(
                                LeftUnary::TAKE_REFERENCE(
                                    TakeReference { rhs: Box::new(rhs), rhs_type, is_heap_alloc: false },
                                ),
                            ),
                            c1,
                        ),
                    )
                },
                None => None,
            }
        } else {
            self.call(current)
        }
    }

    #[verifier::rlimit(60)]
    fn call(&self, current: usize) -> (r: Option<(ParsedAST, usize)>)
        ensures
            parsed(r, p_call(self.toks(), current as int)),
            self.advanced(current, r),
        decreases self.toks().len() - current, 4int,
    {
        match self.struct_access(current) {
            None => None,
            Some((higher_presedence, c1)) => {
                if !self.end(&c1) {
                    match self.peek_ahead(&c1, -1) {
                        Token::IDENTIFIER(_) => {
                            if !self.end_ahead(&c1, 1) {
                                match self.peek(&c1) {
                                    Token::LPAREN => match self.args(c1 + 1, current) {
                                        Some((args, c2)) => Some(
                                            (
                                                ParsedAST::CALL(
                                                    Call { callee: Box::new(higher_presedence), args },
                                                ),
                                                c2,
                                            ),
                                        ),
                                        None => None,
                                    },
                                    _ => Some((higher_presedence, c1)),
                                }
                            } else {
                                Some((higher_presedence, c1))
                            }
                        },
                        _ => Some((higher_presedence, c1)),
                    }
                } else {
                    Some((higher_presedence, c1))
                }
            },
        }
    }

    /// The arguments from `current` up to `)` (see `p_args`), for a caller
    /// at `outer`.
    fn args(&self, current: usize, outer: usize) -> (r: Option<(Vec<ParsedAST>, usize)>)
        requires
            outer < current <= self.toks().len(),
            self.toks().len() <= usize::MAX,
        ensures
            match r {
                Some((v, c)) => p_args(self.toks(), current as int) == Some(
                    (asts_view(v@), c as int),
                ) && current < c <= self.toks().len(),
                None => p_args(self.toks(), current as int) is None,
            },
        decreases self.toks().len() - outer, 0int,
    {
        broadcast use lemma_asts_view_push;

        let ghost t = self.toks();
        let mut c: usize = current;
        let mut args: Vec<ParsedAST> = Vec::new();
        loop
            invariant
                t == self.toks(),
                t.len() <= usize::MAX,
                outer < current <= c <= t.len(),
                p_args(t, current as int) == prefix(asts_view(args@), p_args(t, c as int)),
            ensures
                c < t.len(),
                t.len() <= usize::MAX,
                t[c as int] == Token::RPAREN,
                p_args(t, current as int) == prefix(asts_view(args@), p_args(t, c as int)),
            decreases t.len() - c,
        {
            if self.end(&c) {
                return None;
            }
            if self.expecting(Token::RPAREN, &c) {
                break;
            }
            match self.expression(c) {
                None => return None,
                Some((e, c2)) => {
                    if self.end(&c2) {
                        return None;
                    }
                    let next = if !self.expecting(Token::RPAREN, &c2) {
                        c2 + 1
                    } else {
                        c2
                    };
                    proof {
                        lemma_prefix_cons(asts_view(args@), e@, p_args(t, next as int));
                    }
                    args.push(e);
                    c = next;
                },
            }
        }
        proof {
            lemma_prefix_empty(asts_view(args@), c + 1);
        }
        Some((args, c + 1))
    }

    #[verifier::rlimit(60)]
    fn struct_access(&self, current: usize) -> (r: Option<(ParsedAST, usize)>)
        ensures
            parsed(r, p_struct_access(self.toks(), current as int)),
            self.advanced(current, r),
        decreases self.toks().len() - current, 3int,
    {
        match self.single(current) {
            None => None,
            Some((higher_precedence, c1)) => {
                if self.end(&c1) {
                    return None;
                }
                match self.peek(&c1) {
                    Token::DOT => match self.expression(c1 + 1) {
                        Some((rhs, c2)) => Some(
                            (
                                ParsedAST::LHS_ACCESS(
                                    LhsAccess { left: Box::new(higher_precedence), right: Box::new(rhs) },
                                ),
                                c2,
                            ),
                        ),
                        None => None,
                    },
                    _ => Some((higher_precedence, c1)),
                }
            },
        }
    }

    #[verifier::rlimit(60)]
    fn single(&self, current: usize) -> (r: Option<(ParsedAST, usize)>)
        ensures
            parsed(r, p_single(self.toks(), current as int)),
            self.advanced(current, r),
        decreases self.toks().len() - current, 2int,
    {
        if self.end(&current) {
            return None;
        }
        match self.peek(&current) {
            Token::HASH => self.directive(current),
            Token::TRUE => Some((ParsedAST::NUMBER(Number::INTEGER(1)), current + 1)),
            Token::FALSE => Some((ParsedAST::NUMBER(Number::INTEGER(0)), current + 1)),
            Token::IDENTIFIER(identifier) => Some(
                (ParsedAST::IDENTIFIER(identifier.clone()), current + 1),
            ),
            Token::STRING(string) => Some((ParsedAST::STRING(string.clone()), current + 1)),
            Token::NUMBER(number) => match parse_decimal(number) {
                Some(num) => Some((ParsedAST::NUMBER(Number::INTEGER(num)), current + 1)),
                None => if is_float_numeral(number) {
                    Some((ParsedAST::NUMBER(Number::FLOAT(number.clone())), current + 1))
                } else {
                    None
                },
            },
            Token::LPAREN => match self.expression(current + 1) {
                Some((expression, c1)) => {
                    if self.end(&c1) {
                        return None;
                    }
                    Some((ParsedAST::GROUP(Group { expression: Box::new(expression) }), c1 + 1))
                },
                None => None,
            },
            Token::LCURLY => self.block(current),
            _ => None,
        }
    }

    #[verifier::rlimit(60)]
    fn directive(&self, current: usize) -> (r: Option<(ParsedAST, usize)>)
        ensures
            parsed(r, p_directive(self.toks(), current as int)),
            self.advanced(current, r),
        decreases self.toks().len() - current, 1int,
    {
        if self.end_ahead(&current, 1) {
            return None;
        }
        let value = self.peek_ahead(&current, 1).copied();
        let c2 = current + 2;
        if self.end(&c2) {
            return None;
        }
        if self.expecting(Token::LPAREN, &c2) {
            match self.args(c2 + 1, current) {
                Some((args, c3)) => Some(
                    (ParsedAST::DIRECTIVE(Directive { value, args, body: None }), c3),
                ),
                None => None,
            }
        } else {
            let args: Vec<ParsedAST> = Vec::new();
            assert(asts_view(args@) =~= Seq::<AstV>::empty());
            Some((ParsedAST::DIRECTIVE(Directive { value, args, body: None }), c2))
        }
    }

    /// The token at `current`.
    fn peek(&self, current: &usize) -> (r: &Token)
        requires
            *current < self.tokens@.len(),
        ensures
            *r == self.tokens@[*current as int],
            r@ == self.toks()[*current as int],
    {
        &self.tokens[*current]
    }

    /// The token `amount` places after `current`.
    fn peek_ahead(&self, current: &usize, amount: i32) -> (r: &Token)
        requires
            0 <= *current + amount < self.tokens@.len(),
            self.tokens@.len() <= usize::MAX,
        ensures
            *r == self.tokens@[*current + amount],
            r@ == self.toks()[*current + amount],
    {
        let index: usize = if amount >= 0 {
            *current + (amount as usize)
        } else {
            *current - ((0 - (amount as i64)) as usize)
        };
        &self.tokens[index]
    }

    /// Whether `current` is past the last token.
    fn end(&self, current: &usize) -> (r: bool)
        ensures
            r == (*current >= self.toks().len()),
            self.toks().len() == self.tokens@.len() <= usize::MAX,
    {
        *current >= self.tokens.len()
    }

    /// Whether the position `amount` places after `current` is past the last token.
    fn end_ahead(&self, current: &usize, amount: i32) -> (r: bool)
        requires
            amount >= 0,
        ensures
            r == (*current + amount >= self.toks().len()),
            self.toks().len() == self.tokens@.len() <= usize::MAX,
    {
        let remaining: usize = self.tokens.len() - (if *current < self.tokens.len() { *current } else { self.tokens.len() });
        *current >= self.tokens.len() || (amount as usize) >= remaining
    }

    /// Whether the token at `current` is `token`.
    fn expecting(&self, token: Token, current: &usize) -> (r: bool)
        requires
            *current < self.tokens@.len(),
        ensures
            r == (token@ == self.toks()[*current as int]),
    {
        let next = self.peek(current);
        token.same(next)
    }

    /// The token at `current`, moving past it.
    fn consume(&self, current: &mut usize) -> (r: &Token)
        requires
            *old(current) < self.tokens@.len(),
            self.tokens@.len() <= usize::MAX,
        ensures
            *final(current) == *old(current) + 1,
            *r == self.tokens@[*old(current) as int],
            r@ == self.toks()[*old(current) as int],
    {
        let t = &self.tokens[*current];
        *current = *current + 1;
        t
    }

    fn block(&self, current: usize) -> (r: Option<(ParsedAST, usize)>)
        ensures
            parsed(r, p_block(self.toks(), current as int)),
            self.advanced(current, r),
        decreases self.toks().len() - current, 1int,
    {
        broadcast use lemma_asts_view_push;

        let ghost t = self.toks();
        if self.end(&current) {
            return None;
        }
        let mut c: usize = current + 1;
        let mut body: Vec<ParsedAST> = Vec::new();
        loop
            invariant
                t == self.toks(),
                current < c <= t.len(),
                p_stmts(t, current + 1) == prefix(asts_view(body@), p_stmts(t, c as int)),
            ensures
                c < t.len(),
                t[c as int] == Token::RCURLY,
                p_stmts(t, current + 1) == prefix(asts_view(body@), p_stmts(t, c as int)),
            decreases t.len() - c,
        {
            if self.end(&c) {
                return None;
            }
            if self.expecting(Token::RCURLY, &c) {
                break;
            }
            match self.statement(c) {
                None => return None,
                Some((s, c2)) => {
                    proof {
                        lemma_prefix_cons(asts_view(body@), s@, p_stmts(t, c2 as int));
                    }
                    body.push(s);
                    c = c2;
                },
            }
        }
        proof {
            lemma_prefix_empty(asts_view(body@), c + 1);
        }
        Some((ParsedAST::BLOCK(Block { body, new_scope: true }), c + 1))
    }

    fn if_stmt(&self, current: usize) -> (r: Option<(ParsedAST, usize)>)
        ensures
            parsed(r, p_if(self.toks(), current as int)),
            self.advanced(current, r),
        decreases self.toks().len() - current, 1int,
    {
        if self.end(&current) {
            return None;
        }
        match self.expression(current + 1) {
            None => None,
            Some((condition, c1)) => match self.statement(c1) {
                None => None,
                Some((body, c2)) => {
                    if !self.end(&c2) && self.expecting(Token::ELSE, &c2) {
                        match self.statement(c2 + 1) {
                            Some((else_body, c3)) => Some(
                                (
                                    ParsedAST::IF(
                                        If {
                                            condition: Box::new(condition),
                                            body: Box::new(body),
                                            else_body: Some(Box::new(else_body)),
                                        },
                                    ),
                                    c3,
                                ),
                            ),
                            None => None,
                        }
                    } else {
                        Some(
                            (
                                ParsedAST::IF(
                                    If {
                                        condition: Box::new(condition),
                                        body: Box::new(body),
                                        else_body: None,
                                    },
                                ),
                                c2,
                            ),
                        )
                    }
                },
            },
        }
    }

    fn ret(&self, current: usize) -> (r: Option<(ParsedAST, usize)>)
        ensures
            parsed(r, p_ret(self.toks(), current as int)),
            self.advanced(current, r),
    {
        if self.end(&current) {
            return None;
        }
        Some((ParsedAST::RET(None), current + 1))
    }

    fn struct_types_list(&self, current: usize) -> (r: Option<(ParsedAST, usize)>)
        ensures
            parsed(r, p_struct_types_list(self.toks(), current as int)),
            self.advanced(current, r),
        decreases self.toks().len() - current, 0int,
    {
        broadcast use lemma_decls_view_push;

        let ghost t = self.toks();
        if self.end(&current) {
            return None;
        }
        let mut c: usize = current + 1;
        let mut types: Vec<Decl> = Vec::new();
        loop
            invariant
                t == self.toks(),
                current < c <= t.len(),
                p_decls(t, current + 1) == prefix(decls_view(types@), p_decls(t, c as int)),
            ensures
                c < t.len(),
                t[c as int] == Token::RCURLY,
                p_decls(t, current + 1) == prefix(decls_view(types@), p_decls(t, c as int)),
            decreases t.len() - c,
        {
            if self.end(&c) {
                return None;
            }
            if self.expecting(Token::RCURLY, &c) {
                break;
            }
            match self.decl_or_assign(c) {
                Some((ParsedAST::DECL(decl), c2)) => {
                    proof {
                        lemma_prefix_cons(decls_view(types@), decl@, p_decls(t, c2 as int));
                    }
                    types.push(decl);
                    c = c2;
                },
                _ => return None,
            }
        }
        proof {
            lemma_prefix_empty(decls_view(types@), c + 1);
        }
        Some((ParsedAST::STRUCT_TYPES_LIST(StructTypesList { types }), c + 1))
    }

    fn function(&self, current: usize) -> (r: Option<(ParsedAST, usize)>)
        ensures
            parsed(r, p_function(self.toks(), current as int)),
            self.advanced(current, r),
        decreases self.toks().len() - current, 1int,
    {
        if self.end(&current) {
            return None;
        }
        let c1: usize = current + 1;
        if self.end(&c1) {
            return None;
        }
        if self.expecting(Token::LPAREN, &c1) {
            match self.params(c1 + 1, current) {
                Some((params, c2)) => self.function_rest(current, params, c2),
                None => None,
            }
        } else {
            let params: Vec<Decl> = Vec::new();
            assert(decls_view(params@) =~= Seq::<DeclV>::empty());
            self.function_rest(current, params, c1)
        }
    }

    /// The return type and body of a function at `current` whose parameters
    /// `params` end before `c`.
    fn function_rest(&self, current: usize, params: Vec<Decl>, c: usize) -> (r: Option<
        (ParsedAST, usize),
    >)
        requires
            current < c <= self.toks().len(),
        ensures
            parsed(r, p_function_rest(self.toks(), current as int, decls_view(params@), c as int)),
            self.advanced(current, r),
        decreases self.toks().len() - current, 0int,
    {
        match self.parse_type(c) {
            None => None,
            Some((return_typ, c3)) => {
                let mut return_typ = return_typ;
                let ghost rt = return_typ@;
                return_typ.mutability = Mutability::MUTABLE;
                let ghost ret = return_typ@;
                assert(ret == TypeV { mutability: Mutability::MUTABLE, ..rt });
                let return_type = Some(Box::new(return_typ));
                match self.statement(c3) {
                    Some((body, c4)) => {
                        proof {
                            reveal_strlit("anon");
                        }
                        let name = string_of("anon");
                        assert(name@ =~= anon());
                        let f = FnType { anonymous_name: name, args: Vec::new(), return_type };
                        assert(crate::typecheck::types_view(f.args@) =~= Seq::<TypeV>::empty());
                        let typ = Type {
                            mutability: Mutability::CONSTANT,
                            primative: Primative::FN(f),
                            reference: false,
                        };
                        assert(typ@ == fn_type(Mutability::CONSTANT, false, Some(Box::new(ret))));
                        let node = ParsedAST::FN(Fn { params, typ, body: Box::new(body) });
                        assert(node@ == AstV::FN(FnNodeV {
                            typ: fn_type(Mutability::CONSTANT, false, Some(Box::new(ret))),
                            params: decls_view(params@),
                            body: Box::new(body@),
                        }));
                        Some((node, c4))
                    },
                    None => None,
                }
            },
        }
    }

    /// The parameters from `current` up to `)` (see `p_params`), for a
    /// function at `outer`.
    fn params(&self, current: usize, outer: usize) -> (r: Option<(Vec<Decl>, usize)>)
        requires
            outer < current <= self.toks().len(),
            self.toks().len() <= usize::MAX,
        ensures
            match r {
                Some((v, c)) => p_params(self.toks(), current as int) == Some(
                    (decls_view(v@), c as int),
                ) && current < c <= self.toks().len(),
                None => p_params(self.toks(), current as int) is None,
            },
        decreases self.toks().len() - outer, 0int,
    {
        broadcast use lemma_decls_view_push;

        let ghost t = self.toks();
        let mut c: usize = current;
        let mut params: Vec<Decl> = Vec::new();
        loop
            invariant
                t == self.toks(),
                t.len() <= usize::MAX,
                outer < current <= c <= t.len(),
                p_params(t, current as int) == prefix(decls_view(params@), p_params(t, c as int)),
            ensures
                c < t.len(),
                t.len() <= usize::MAX,
                t[c as int] == Token::RPAREN,
                p_params(t, current as int) == prefix(decls_view(params@), p_params(t, c as int)),
            decreases t.len() - c,
        {
            if self.end(&c) {
                return None;
            }
            if self.expecting(Token::RPAREN, &c) {
                break;
            }
            match self.decl_or_assign(c) {
                Some((ParsedAST::DECL(d), c2)) => {
                    if self.end(&c2) {
                        return None;
                    }
                    let next = if !self.expecting(Token::RPAREN, &c2) {
                        c2 + 1
                    } else {
                        c2
                    };
                    proof {
                        lemma_prefix_cons(decls_view(params@), d@, p_params(t, next as int));
                    }
                    params.push(d);
                    c = next;
                },
                _ => return None,
            }
        }
        proof {
            lemma_prefix_empty(decls_view(params@), c + 1);
        }
        Some((params, c + 1))
    }
}

/// An assignment `lhs = rhs`: where the expression at `c` ends at an `=`, with
/// another expression after it, the assignment's left side is the tree parsed
/// from the tokens before the `=` and its right side the tree parsed from the
/// tokens after it.
pub proof fn lemma_assign_sides(t: Seq<Token>, c: int, lhs: AstV, c1: int, rhs: AstV, c2: int)
    requires
        p_plus_or_minus(t, c) == Some((lhs, c1)),
        0 <= c < c1 < t.len(),
        t[c1] == Token::EQUAL,
        p_plus_or_minus(t, c1 + 1) == Some((rhs, c2)),
    ensures
        p_assign(t, c) == Some((AstV::ASSIGN(Box::new(lhs), Box::new(rhs)), c2)),
{
}

/// A sum or difference `l + r` / `l - r`: where the product at `c` is
/// followed by `+` or `-`, the tree is that operator applied to the product
/// (on the left) and the expression after the operator (on the right).
pub proof fn lemma_sum_sides(t: Seq<Token>, c: int, lhs: AstV, c1: int, rhs: AstV, c2: int)
    requires
        p_mul_or_div(t, c) == Some((lhs, c1)),
        0 <= c < c1 < t.len(),
        t[c1] == Token::PLUS || t[c1] == Token::MINUS,
        p_expression(t, c1 + 1) == Some((rhs, c2)),
    ensures
        p_plus_or_minus(t, c) == Some((AstV::BINARY(Box::new(lhs), t[c1], Box::new(rhs)), c2)),
{
}

/// A product or quotient `l * r` / `l / r`: where the unary expression at `c`
/// is followed by `*` or `/`, the tree is that operator applied to it (on the
/// left) and the expression after the operator (on the right).
pub proof fn lemma_product_sides(t: Seq<Token>, c: int, lhs: AstV, c1: int, rhs: AstV, c2: int)
    requires
        p_unary(t, c) == Some((lhs, c1)),
        0 <= c < c1 < t.len(),
        t[c1] == Token::STAR || t[c1] == Token::DIV,
        p_expression(t, c1 + 1) == Some((rhs, c2)),
    ensures
        p_mul_or_div(t, c) == Some((AstV::BINARY(Box::new(lhs), t[c1], Box::new(rhs)), c2)),
{
}

/// A name, a string or a number in range is read as the tree holding its text
/// or value, and the parser moves past that one token.
pub proof fn lemma_single_token(t: Seq<Token>, c: int)
    requires
        0 <= c < t.len(),
    ensures
        t[c] matches Token::IDENTIFIER(x) ==> p_single(t, c) == Some((AstV::IDENTIFIER(x@), c + 1)),
        t[c] matches Token::STRING(x) ==> p_single(t, c) == Some((AstV::STRING(x@), c + 1)),
        t[c] matches Token::NUMBER(x) ==> (x@.len() > 0 && all_digits(x@) && decimal_value(x@)
            <= u64::MAX ==> p_single(t, c) == Some(
            (AstV::NUMBER(NumberV::INTEGER(decimal_value(x@) as u64)), c + 1),
        )),
        t[c] == Token::TRUE ==> p_single(t, c) == Some((AstV::NUMBER(NumberV::INTEGER(1)), c + 1)),
        t[c] == Token::FALSE ==> p_single(t, c) == Some((AstV::NUMBER(NumberV::INTEGER(0)), c + 1)),
{
}

/// `@e` is a reference to the call expression after the `@`, of a type still
/// to be found and not moved to the heap.
pub proof fn lemma_reference_operand(t: Seq<Token>, c: int)
    requires
        0 <= c < t.len(),
        t[c] == Token::AT,
    ensures
        p_unary(t, c) == match p_call(t, c + 1) {
            Some((e, c1)) => Some(
                (
                    AstV::TAKE_REFERENCE(
                        Box::new(e),
                        TypeV { mutability: Mutability::CONSTANT, primative: PrimativeV::INCOMPLETE, reference: false },
                        false,
                    ),
                    c1,
                ),
            ),
            None => None,
        },
{
}

} // verus!

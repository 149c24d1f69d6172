//! Code generation: C++ text from a syntax tree, written statement by
//! statement into code blocks.
use vstd::prelude::*;
use vstd::string::StringExecFns;
use crate::lex::Token;
use crate::lex::lemma_token_text_view;
use crate::lex::token_text;
use crate::parse::Assign;
use crate::parse::AstV;
use crate::parse::Binary;
use crate::parse::Block;
use crate::parse::Call;
use crate::parse::Group;
use crate::parse::If;
use crate::parse::LhsAccess;
use crate::parse::Program;
use crate::parse::StructTypesList;
use crate::parse::Decl;
use crate::parse::DeclV;
use crate::parse::Directive;
use crate::parse::Fn as FnNode;
use crate::parse::FnNodeV;
use crate::parse::LeftUnary;
use crate::parse::NumberV;
use crate::parse::Number;
use crate::parse::ParsedAST;
use crate::parse::asts_view;
use crate::parse::ast_size;
use crate::parse::decl_size;
use crate::parse::decls_size;
use crate::parse::decls_view;
use crate::parse::lemma_asts_view;
use crate::parse::lemma_decls_view;
use crate::parse::list_size;
use crate::text::decimal_string;
use crate::text::decimal_text;
use crate::text::lemma_canon;
use crate::text::string_equal;
use crate::text::string_of;
use crate::typecheck::Mutability;
use crate::typecheck::Primative;
use crate::typecheck::PrimativeV;
use crate::typecheck::Type;
use crate::typecheck::TypeV;
use crate::typecheck::size_of_type;
use crate::typecheck::sized;

verus! {

/// Statements of generated code and the position of the current one.
#[derive(Debug)]
pub struct CodeBlock {
    pub statements: Vec<String>,
    pub index: usize,
}

/// The view of a `CodeBlock`: the statements' texts and the current position.
pub struct CodeBlockV {
    pub statements: Seq<Seq<char>>,
    pub index: int,
}

impl View for CodeBlock {
    type V = CodeBlockV;

    open spec fn view(&self) -> CodeBlockV {
        CodeBlockV { statements: strings_view(self.statements@), index: self.index as int }
    }
}

/// The texts of a sequence of strings.
pub open spec fn strings_view(s: Seq<String>) -> Seq<Seq<char>> {
    s.map_values(|x: String| x@)
}

/// The block with a new, empty statement after the current one, which
/// becomes the current one.
pub open spec fn stmt_added(b: CodeBlockV) -> CodeBlockV {
    CodeBlockV { statements: b.statements.insert(b.index + 1, Seq::empty()), index: b.index + 1 }
}

/// The block with `s` inserted as a statement at `offset` from the current
/// position, which is kept.
pub open spec fn inserted_at(b: CodeBlockV, offset: int, s: Seq<char>) -> CodeBlockV {
    CodeBlockV { statements: b.statements.insert(b.index + offset, s), index: b.index }
}

/// The block with `s` appended to the statement at position `pos`.
pub open spec fn appended_to(b: CodeBlockV, pos: int, s: Seq<char>) -> CodeBlockV {
    CodeBlockV { statements: b.statements.update(pos, b.statements[pos] + s), index: b.index }
}

impl CodeBlock {
    /// The current position stands on a statement.
    pub open spec fn wf(&self) -> bool {
        self.index < self.statements.len()
    }

    proof fn lemma_insert(s: Seq<String>, i: int, x: String)
        requires
            0 <= i <= s.len(),
        ensures
            strings_view(s.insert(i, x)) == strings_view(s).insert(i, x@),
    {
        assert(strings_view(s.insert(i, x)) =~= strings_view(s).insert(i, x@));
    }

    proof fn lemma_update(s: Seq<String>, i: int, x: String)
        requires
            0 <= i < s.len(),
        ensures
            strings_view(s.update(i, x)) == strings_view(s).update(i, x@),
    {
        assert(strings_view(s.update(i, x)) =~= strings_view(s).update(i, x@));
    }

    /// Starts a new, empty statement after the current one and makes it current.
    pub fn new_stmt(&mut self)
        requires
            old(self).wf(),
        ensures
            final(self)@ == stmt_added(old(self)@),
            final(self).wf(),
    {
        let i = self.index + 1;
        self.index = i;
        let empty = String::new();
        proof {
            Self::lemma_insert(old(self).statements@, i as int, empty);
        }
        self.statements.insert(i, empty);
    }

    /// Starts a new, empty statement at `offset` from the current position and
    /// makes it current; the statements from there on move one place on.
    /// (The position is computed as an `i32`.)
    pub fn new_stmt_at(&mut self, offset: i32)
        requires
            0 <= old(self).index + offset <= old(self).statements.len(),
            old(self).index <= i32::MAX,
            old(self).index + offset <= i32::MAX,
        ensures
            final(self)@ == (CodeBlockV {
                statements: old(self)@.statements.insert(old(self).index + offset, Seq::empty()),
                index: old(self).index + offset,
            }),
            final(self).wf(),
    {
        let i = (self.index as i32 + offset) as usize;
        self.index = i;
        let empty = String::new();
        proof {
            Self::lemma_insert(old(self).statements@, i as int, empty);
        }
        self.statements.insert(i, empty);
    }

    /// Inserts `statement` at the current position (see `set_at`).
    pub fn set_current(&mut self, statement: String)
        requires
            old(self).index <= old(self).statements.len(),
            old(self).index <= i32::MAX,
        ensures
            final(self)@ == inserted_at(old(self)@, 0, statement@),
            old(self).wf() ==> final(self).wf(),
    {
        self.set_at(0, statement);
    }

    /// Inserts `statement` before all others; the current position is kept.
    pub fn set_at_beginning(&mut self, statement: String)
        requires
            old(self).index <= i32::MAX,
        ensures
            final(self)@ == inserted_at(old(self)@, -old(self).index, statement@),
            final(self)@.statements == old(self)@.statements.insert(0, statement@),
            old(self).wf() ==> final(self).wf(),
    {
        let offset: i32 = -(self.index as i32);
        self.set_at(offset, statement)
    }

    /// Inserts `statement` at `offset` from the current position; the current
    /// position is kept (as a number). (The position is computed as an `i32`.)
    pub fn set_at(&mut self, offset: i32, statement: String)
        requires
            0 <= old(self).index + offset <= old(self).statements.len(),
            old(self).index <= i32::MAX,
            old(self).index + offset <= i32::MAX,
        ensures
            final(self)@ == inserted_at(old(self)@, offset as int, statement@),
            old(self).wf() ==> final(self).wf(),
    {
        let i = (self.index as i32 + offset) as usize;
        proof {
            Self::lemma_insert(self.statements@, i as int, statement);
        }
        self.statements.insert(i, statement);
    }

    /// Appends `code` to the current statement.
    pub fn append_current(&mut self, code: String)
        requires
            old(self).wf(),
        ensures
            final(self)@ == appended_to(old(self)@, old(self).index as int, code@),
            final(self).wf(),
    {
        let i = self.index;
        self.append_to(i, code);
    }

    /// Appends `code` to the first statement.
    pub fn append_at_beginning(&mut self, code: String)
        requires
            old(self).statements.len() > 0,
        ensures
            final(self)@ == appended_to(old(self)@, 0, code@),
            old(self).wf() ==> final(self).wf(),
    {
        self.append_to(0, code);
    }

    /// Appends `code` to the statement at `offset` from the current position.
    /// (The position is computed as an `i32`.)
    pub fn append_at(&mut self, offset: i32, code: String)
        requires
            0 <= old(self).index + offset < old(self).statements.len(),
            old(self).index <= i32::MAX,
            old(self).index + offset <= i32::MAX,
        ensures
            final(self)@ == appended_to(old(self)@, old(self).index + offset, code@),
            old(self).wf() ==> final(self).wf(),
    {
        let i = (self.index as i32 + offset) as usize;
        self.append_to(i, code);
    }

    fn append_to(&mut self, i: usize, code: String)
        requires
            i < old(self).statements.len(),
        ensures
            final(self)@ == appended_to(old(self)@, i as int, code@),
            final(self).statements.len() == old(self).statements.len(),
            final(self).index == old(self).index,
    {
        let mut new_string = self.statements[i].clone();
        new_string.append(code.as_str());
        proof {
            Self::lemma_update(self.statements@, i as int, new_string);
        }
        self.statements.set(i, new_string);
    }
}

/// The text every generated program starts with: the headers and the
/// `println` overloads that generated code calls.
pub const PRELUDE: &'static str = "
        #include <cstdio>
        #include <cstdlib>
        
        void println(int* x){
            printf(\"ptr='%s'\\n\", (void*)x);
        } 

        void println(int x){
            printf(\"%d\\n\", x);
        } 
        
        void println(float x){
            printf(\"%f\\n\", x);
        } 

        void println(const char* arg){
            printf(\"%s\\n\", arg);
        }
        ";

/// Appends `s` to the current statement; fails where there is no current
/// statement (or where an earlier step failed).
pub open spec fn app(b: Option<CodeBlockV>, s: Seq<char>) -> Option<CodeBlockV> {
    match b {
        Some(c) => if 0 <= c.index < c.statements.len() {
            Some(appended_to(c, c.index, s))
        } else {
            None
        },
        None => None,
    }
}

/// Starts a new statement after the current one (see `stmt_added`).
pub open spec fn stmt(b: Option<CodeBlockV>) -> Option<CodeBlockV> {
    match b {
        Some(c) => if 0 <= c.index < c.statements.len() {
            Some(stmt_added(c))
        } else {
            None
        },
        None => None,
    }
}

/// Starts a new statement at the current position; the current one moves one
/// place on. (Positions past `i32::MAX` are out of reach of `new_stmt_at`.)
pub open spec fn stmt_here(b: Option<CodeBlockV>) -> Option<CodeBlockV> {
    match b {
        Some(c) => if 0 <= c.index <= c.statements.len() && c.index <= i32::MAX {
            Some(inserted_at(c, 0, Seq::empty()))
        } else {
            None
        },
        None => None,
    }
}

/// Moves the current position one statement on.
pub open spec fn advanced(b: Option<CodeBlockV>) -> Option<CodeBlockV> {
    match b {
        Some(c) => Some(CodeBlockV { index: c.index + 1, ..c }),
        None => None,
    }
}

/// The code for a type: a constant function type as `void name() `, a constant
/// struct declaration's type as `struct name`, the mutable ones as nothing, and
/// the others as `const ` (where constant), the C++ type and `*` (where a
/// reference). Block and dependent types have no code.
pub open spec fn gen_type(t: TypeV, b: Option<CodeBlockV>) -> Option<CodeBlockV> {
    match t.primative {
        PrimativeV::FN(f) => if t.mutability == Mutability::CONSTANT {
            app(b, "void "@ + f.anonymous_name + "() "@)
        } else {
            b
        },
        PrimativeV::TYPE(name) => if t.mutability == Mutability::CONSTANT {
            app(b, "struct "@ + name)
        } else {
            b
        },
        _ => {
            let b1 = if t.mutability == Mutability::CONSTANT {
                app(b, "const "@)
            } else {
                b
            };
            let b2 = match t.primative {
                PrimativeV::U32 => app(b1, "unsigned int"@),
                PrimativeV::I32 => app(b1, "int"@),
                PrimativeV::F32 => app(b1, "float"@),
                PrimativeV::BOOL => app(b1, "unsigned int"@),
                PrimativeV::STRING => app(b1, "char*"@),
                PrimativeV::STRUCT(name) => app(b1, name),
                PrimativeV::INCOMPLETE => app(b1, "void"@),
                _ => None,
            };
            if t.reference {
                app(b2, "*"@)
            } else {
                b2
            }
        },
    }
}

/// The code for a directive `#name(args)`: `inline ` for `inline`, the string
/// argument inside `asm("...")` for `asm` (which needs one), nothing for other
/// names; a directive must be named by an identifier.
pub open spec fn gen_directive(tok: Token, args: Seq<AstV>, b: Option<CodeBlockV>) -> Option<
    CodeBlockV,
> {
    match tok {
        Token::IDENTIFIER(id) => if id@ == "inline"@ {
            app(b, "inline "@)
        } else if id@ == "asm"@ {
            if args.len() > 0 {
                match args[0] {
                    AstV::STRING(s) => app(b, "asm(\""@ + s + "\")"@),
                    _ => None,
                }
            } else {
                None
            }
        } else {
            b
        },
        _ => None,
    }
}

/// The code for a tree, written into the block `b` (`None` where the
/// generator has no code for it).
pub open spec fn gen(a: AstV, b: Option<CodeBlockV>) -> Option<CodeBlockV>
    decreases ast_size(a),
{
    if b is None {
        None
    } else {
        match a {
            AstV::DIRECTIVE(tok, args, _) => gen_directive(tok, args, b),
            AstV::PROGRAM(body) => gen_list(body, b),
            AstV::FN(f) => match f.typ.primative {
                PrimativeV::FN(ft) => {
                    let b1 = stmt(b);
                    let b2 = match ft.return_type {
                        Some(rt) => gen_type(*rt, b1),
                        None => app(b1, "void"@),
                    };
                    let b3 = gen_params(f.params, app(b2, " "@ + ft.anonymous_name + "("@));
                    let b4 = gen(*f.body, stmt(app(b3, "){"@)));
                    app(stmt(b4), "}"@)
                },
                _ => None,
            },
            AstV::STMT(x) => app(gen(*x, stmt(b)), ";\n"@),
            AstV::BLOCK(body, new_scope) => if new_scope {
                app(stmt(gen_list(body, app(stmt(b), "{"@))), "}"@)
            } else {
                gen_list(body, b)
            },
            AstV::IF(c, body, e) => {
                let b1 = gen(*body, app(gen(*c, app(b, "if("@)), ")"@));
                match e {
                    Some(x) => gen(*x, app(b1, " else "@)),
                    None => b1,
                }
            },
            AstV::RET(o) => {
                let b1 = app(stmt(b), "return "@);
                app(
                    match o {
                        Some(x) => gen(*x, b1),
                        None => b1,
                    },
                    ";\n"@,
                )
            },
            AstV::DECL(d) => gen_decl(d, b),
            AstV::ASSIGN(l, r) => gen(*r, app(gen(*l, b), "="@)),
            AstV::TAKE_REFERENCE(rhs, t, heap) => if t.reference {
                gen(*rhs, app(b, "*"@))
            } else if heap {
                let lhs = TypeV { mutability: Mutability::MUTABLE, ..t };
                let b1 = app(gen_type(lhs, stmt_here(b)), "* tmp = ("@);
                let b2 = gen_type(lhs, b1);
                let b3 = if sized(t) {
                    app(b2, "*) malloc(sizeof("@ + decimal_text(size_of_type(t)) + "));\n"@)
                } else {
                    None
                };
                let b4 = app(gen(*rhs, app(stmt(b3), "*tmp = "@)), ";"@);
                app(advanced(b4), "tmp"@)
            } else {
                gen(*rhs, app(b, "&"@))
            },
            AstV::BINARY(l, op, r) => {
                let b1 = gen(*l, b);
                let b2 = match op {
                    Token::PLUS => app(b1, "+"@),
                    Token::MINUS => app(b1, "-"@),
                    Token::STAR => app(b1, "*"@),
                    Token::DIV => app(b1, "/"@),
                    _ => None,
                };
                gen(*r, b2)
            },
            AstV::IDENTIFIER(s) => app(b, s),
            AstV::STRING(s) => app(b, "\""@ + s + "\""@),
            AstV::GROUP(x) => app(gen(*x, app(b, "("@)), ")"@),
            AstV::CALL(c, args) => app(gen_args(args, app(gen(*c, b), "("@)), ")"@),
            AstV::NUMBER(n) => match n {
                NumberV::INTEGER(v) => app(b, decimal_text(v as nat)),
                NumberV::FLOAT(s) => app(b, s),
            },
            AstV::STRUCT_TYPES_LIST(ds) => app(gen_fields(ds, app(b, "{"@)), "}"@),
            AstV::LHS_ACCESS(l, r) => gen(*r, app(gen(*l, b), "."@)),
            AstV::FOR(_) => None,
        }
    }
}

/// The code for the trees one after the other.
pub open spec fn gen_list(s: Seq<AstV>, b: Option<CodeBlockV>) -> Option<CodeBlockV>
    decreases list_size(s),
{
    if b is None {
        None
    } else if s.len() == 0 {
        b
    } else {
        gen_list(s.subrange(1, s.len() as int), gen(s[0], b))
    }
}

/// The code for the trees, separated by `, `.
pub open spec fn gen_args(s: Seq<AstV>, b: Option<CodeBlockV>) -> Option<CodeBlockV>
    decreases list_size(s),
{
    if b is None {
        None
    } else if s.len() == 0 {
        b
    } else if s.len() == 1 {
        gen(s[0], b)
    } else {
        gen_args(s.subrange(1, s.len() as int), app(gen(s[0], b), ", "@))
    }
}

/// The code for a declaration: a function's value alone; a struct
/// declaration's type and value; otherwise the type, a space, the name and,
/// where there is one, `=` and the value.
pub open spec fn gen_decl(d: DeclV, b: Option<CodeBlockV>) -> Option<CodeBlockV>
    decreases decl_size(d),
{
    match d.typ.primative {
        PrimativeV::FN(_) => match d.value {
            Some(v) => gen(*v, b),
            None => b,
        },
        PrimativeV::TYPE(_) => {
            let b1 = gen_type(d.typ, b);
            match d.value {
                Some(v) => gen(*v, b1),
                None => b1,
            }
        },
        _ => {
            let b1 = app(gen_type(d.typ, b), " "@ + token_text(d.identifier));
            match d.value {
                Some(v) => gen(*v, app(b1, "="@)),
                None => b1,
            }
        },
    }
}

/// The code for declarations, separated by `, `.
pub open spec fn gen_params(s: Seq<DeclV>, b: Option<CodeBlockV>) -> Option<CodeBlockV>
    decreases decls_size(s),
{
    if b is None {
        None
    } else if s.len() == 0 {
        b
    } else if s.len() == 1 {
        gen_decl(s[0], b)
    } else {
        gen_params(s.subrange(1, s.len() as int), app(gen_decl(s[0], b), ", "@))
    }
}

/// The code for declarations, each followed by `;` and a line break.
pub open spec fn gen_fields(s: Seq<DeclV>, b: Option<CodeBlockV>) -> Option<CodeBlockV>
    decreases decls_size(s),
{
    if b is None {
        None
    } else if s.len() == 0 {
        b
    } else {
        gen_fields(s.subrange(1, s.len() as int), app(gen_decl(s[0], b), ";\n"@))
    }
}

/// Generation keeps a failure.
pub broadcast proof fn lemma_gen_none(a: AstV)
    ensures
        #[trigger] gen(a, None) is None,
{
}

/// Generation of a sequence keeps a failure.
pub broadcast proof fn lemma_gen_list_none(s: Seq<AstV>)
    ensures
        #[trigger] gen_list(s, None) is None,
        #[trigger] gen_args(s, None) is None,
{
}

/// Generation of declarations keeps a failure.
pub broadcast proof fn lemma_gen_decls_none(s: Seq<DeclV>)
    ensures
        #[trigger] gen_params(s, None) is None,
        #[trigger] gen_fields(s, None) is None,
{
}

/// Generation of a declaration keeps a failure.
pub broadcast proof fn lemma_gen_decl_none(d: DeclV)
    ensures
        #[trigger] gen_decl(d, None) is None,
{
    if let Some(v) = d.value {
        lemma_gen_none(*v);
    }
}

pub broadcast group group_gen_none {
    lemma_gen_none,
    lemma_gen_list_none,
    lemma_gen_decls_none,
    lemma_gen_decl_none,
}

/// What generation makes of the block `b` for the tree `a`: a new statement
/// holding the prelude, then the tree's code.
pub open spec fn generation(a: AstV, b: CodeBlockV) -> Option<CodeBlockV> {
    gen(a, app(stmt(Some(b)), PRELUDE@))
}

/// The statements' texts one after the other.
pub open spec fn statements_text(s: Seq<Seq<char>>) -> Seq<char>
    decreases s.len(),
{
    if s.len() == 0 {
        Seq::empty()
    } else {
        statements_text(s.drop_last()) + s.last()
    }
}

/// The views of code blocks.
pub open spec fn blocks_view(s: Seq<CodeBlock>) -> Seq<CodeBlockV> {
    s.map_values(|c: CodeBlock| c@)
}

/// The blocks' statements one after the other.
pub open spec fn blocks_text(s: Seq<CodeBlockV>) -> Seq<char>
    decreases s.len(),
{
    if s.len() == 0 {
        Seq::empty()
    } else {
        blocks_text(s.drop_last()) + statements_text(s.last().statements)
    }
}

// ---------------------------------------------------------------------------
// Generation only adds code: it appends to statements and inserts new ones,
// and never removes, reorders or shortens a statement.
// ---------------------------------------------------------------------------

/// `x` is the start of `y`.
pub open spec fn starts(x: Seq<char>, y: Seq<char>) -> bool {
    x.len() <= y.len() && forall|i: int| 0 <= i < x.len() ==> x[i] == y[i]
}

/// `f` places each statement of `b` at a statement of `b1` that starts with it,
/// in the same order.
pub open spec fn placed(b: CodeBlockV, b1: CodeBlockV, f: spec_fn(int) -> int) -> bool {
    &&& forall|k: int, m: int|
        0 <= k < m < b.statements.len() ==> #[trigger] f(k) < #[trigger] f(m)
    &&& forall|k: int|
        0 <= k < b.statements.len() ==> 0 <= #[trigger] f(k) < b1.statements.len() && starts(
            b.statements[k],
            b1.statements[f(k)],
        )
}

/// `b1` is `b` with code added: each statement of `b`, in order, starts a
/// statement of `b1`, and `b1` may hold new statements between them.
pub open spec fn grown(b: CodeBlockV, b1: CodeBlockV) -> bool {
    exists|f: spec_fn(int) -> int| placed(b, b1, f)
}

/// Where `r` is a block, it is `b` with code added.
pub open spec fn grows_from(b: CodeBlockV, r: Option<CodeBlockV>) -> bool {
    r is Some ==> grown(b, r.unwrap())
}

proof fn lemma_grown_refl(b: CodeBlockV)
    ensures
        grown(b, b),
{
    let f = |k: int| k;
    assert(placed(b, b, f));
}

proof fn lemma_grown_trans(a: CodeBlockV, b: CodeBlockV, c: CodeBlockV)
    requires
        grown(a, b),
        grown(b, c),
    ensures
        grown(a, c),
{
    let f = choose|f: spec_fn(int) -> int| placed(a, b, f);
    let g = choose|g: spec_fn(int) -> int| placed(b, c, g);
    let h = |k: int| g(f(k));
    assert forall|k: int, m: int| 0 <= k < m < a.statements.len() implies #[trigger] h(k) < #[trigger] h(m) by {
        assert(f(k) < f(m));
        assert(0 <= f(m) < b.statements.len());
        assert(0 <= f(k) < b.statements.len());
        assert(g(f(k)) < g(f(m)));
    }
    assert forall|k: int| 0 <= k < a.statements.len() implies 0 <= #[trigger] h(k) < c.statements.len()
        && starts(a.statements[k], c.statements[h(k)]) by {
        assert(0 <= f(k) < b.statements.len());
        assert(0 <= g(f(k)) < c.statements.len());
        assert(starts(a.statements[k], b.statements[f(k)]));
        assert(starts(b.statements[f(k)], c.statements[g(f(k))]));
    }
    assert(placed(a, c, h));
}

/// Appending to the current statement only adds code.
proof fn lemma_app_grows(b0: CodeBlockV, r: Option<CodeBlockV>, s: Seq<char>)
    requires
        grows_from(b0, r),
    ensures
        grows_from(b0, app(r, s)),
{
    if let Some(c) = app(r, s) {
        let b = r.unwrap();
        let f = |k: int| k;
        assert forall|k: int| 0 <= k < b.statements.len() implies 0 <= #[trigger] f(k)
            < c.statements.len() && starts(b.statements[k], c.statements[f(k)]) by {
            if k == b.index {
                assert(c.statements[k] == b.statements[k] + s);
            }
        }
        assert(placed(b, c, f));
        lemma_grown_trans(b0, b, c);
    }
}

/// Inserting a statement at position `at` only adds code.
proof fn lemma_insert_grows(b: CodeBlockV, c: CodeBlockV, at: int)
    requires
        0 <= at <= b.statements.len(),
        c.statements == b.statements.insert(at, Seq::<char>::empty()),
    ensures
        grown(b, c),
{
    let f = |k: int|
        if k < at {
            k
        } else {
            k + 1
        };
    assert forall|k: int| 0 <= k < b.statements.len() implies 0 <= #[trigger] f(k)
        < c.statements.len() && starts(b.statements[k], c.statements[f(k)]) by {
        assert(c.statements[f(k)] == b.statements[k]);
    }
    assert(placed(b, c, f));
}

/// Starting a new statement only adds code.
proof fn lemma_stmt_grows(b0: CodeBlockV, r: Option<CodeBlockV>)
    requires
        grows_from(b0, r),
    ensures
        grows_from(b0, stmt(r)),
        grows_from(b0, stmt_here(r)),
        grows_from(b0, advanced(r)),
{
    if let Some(b) = r {
        if let Some(c) = stmt(r) {
            lemma_insert_grows(b, c, b.index + 1);
            lemma_grown_trans(b0, b, c);
        }
        if let Some(c) = stmt_here(r) {
            lemma_insert_grows(b, c, b.index);
            lemma_grown_trans(b0, b, c);
        }
        let c = advanced(r).unwrap();
        let f = |k: int| k;
        assert(placed(b, c, f));
        lemma_grown_trans(b0, b, c);
    }
}

proof fn lemma_gen_type_grows(b0: CodeBlockV, t: TypeV, r: Option<CodeBlockV>)
    requires
        grows_from(b0, r),
    ensures
        grows_from(b0, gen_type(t, r)),
{
    match t.primative {
        PrimativeV::FN(f) => lemma_app_grows(b0, r, "void "@ + f.anonymous_name + "() "@),
        PrimativeV::TYPE(name) => lemma_app_grows(b0, r, "struct "@ + name),
        _ => {
            lemma_app_grows(b0, r, "const "@);
            let r1 = if t.mutability == Mutability::CONSTANT {
                app(r, "const "@)
            } else {
                r
            };
            lemma_app_grows(b0, r1, "unsigned int"@);
            lemma_app_grows(b0, r1, "int"@);
            lemma_app_grows(b0, r1, "float"@);
            lemma_app_grows(b0, r1, "char*"@);
            lemma_app_grows(b0, r1, "void"@);
            if let PrimativeV::STRUCT(name) = t.primative {
                lemma_app_grows(b0, r1, name);
            }
            let r2 = match t.primative {
                PrimativeV::U32 => app(r1, "unsigned int"@),
                PrimativeV::I32 => app(r1, "int"@),
                PrimativeV::F32 => app(r1, "float"@),
                PrimativeV::BOOL => app(r1, "unsigned int"@),
                PrimativeV::STRING => app(r1, "char*"@),
                PrimativeV::STRUCT(name) => app(r1, name),
                PrimativeV::INCOMPLETE => app(r1, "void"@),
                _ => None,
            };
            lemma_app_grows(b0, r2, "*"@);
        },
    }
}

/// Generation only adds code to the block: every statement the block held is
/// kept, in order, and may only be extended at its end, and new statements
/// may be inserted between them.
pub proof fn lemma_gen_only_adds(a: AstV, b: CodeBlockV)
    ensures
        gen(a, Some(b)) matches Some(b1) ==> grown(b, b1),
{
    lemma_grown_refl(b);
    lemma_gen_grows(a, b, Some(b));
}

proof fn lemma_gen_grows(a: AstV, b0: CodeBlockV, r: Option<CodeBlockV>)
    requires
        grows_from(b0, r),
    ensures
        grows_from(b0, gen(a, r)),
    decreases ast_size(a),
{
    if r is Some {
        match a {
            AstV::DIRECTIVE(tok, args, _) => {
                lemma_app_grows(b0, r, "inline "@);
                if args.len() > 0 {
                    if let AstV::STRING(s) = args[0] {
                        lemma_app_grows(b0, r, "asm(\""@ + s + "\")"@);
                    }
                }
            },
            AstV::PROGRAM(body) => lemma_gen_list_grows(body, b0, r),
            AstV::FN(f) => {
                if let PrimativeV::FN(ft) = f.typ.primative {
                    lemma_stmt_grows(b0, r);
                    let b1 = stmt(r);
                    lemma_app_grows(b0, b1, "void"@);
                    if let Some(rt) = ft.return_type {
                        lemma_gen_type_grows(b0, *rt, b1);
                    }
                    let b2 = match ft.return_type {
                        Some(rt) => gen_type(*rt, b1),
                        None => app(b1, "void"@),
                    };
                    lemma_app_grows(b0, b2, " "@ + ft.anonymous_name + "("@);
                    let b2a = app(b2, " "@ + ft.anonymous_name + "("@);
                    lemma_gen_params_grows(f.params, b0, b2a);
                    let b3 = gen_params(f.params, b2a);
                    lemma_app_grows(b0, b3, "){"@);
                    lemma_stmt_grows(b0, app(b3, "){"@));
                    lemma_gen_grows(*f.body, b0, stmt(app(b3, "){"@)));
                    let b4 = gen(*f.body, stmt(app(b3, "){"@)));
                    lemma_stmt_grows(b0, b4);
                    lemma_app_grows(b0, stmt(b4), "}"@);
                }
            },
            AstV::STMT(x) => {
                lemma_stmt_grows(b0, r);
                lemma_gen_grows(*x, b0, stmt(r));
                lemma_app_grows(b0, gen(*x, stmt(r)), ";\n"@);
            },
            AstV::BLOCK(body, new_scope) => {
                if new_scope {
                    lemma_stmt_grows(b0, r);
                    lemma_app_grows(b0, stmt(r), "{"@);
                    lemma_gen_list_grows(body, b0, app(stmt(r), "{"@));
                    let b1 = gen_list(body, app(stmt(r), "{"@));
                    lemma_stmt_grows(b0, b1);
                    lemma_app_grows(b0, stmt(b1), "}"@);
                } else {
                    lemma_gen_list_grows(body, b0, r);
                }
            },
            AstV::IF(c, body, e) => {
                lemma_app_grows(b0, r, "if("@);
                lemma_gen_grows(*c, b0, app(r, "if("@));
                let b1 = gen(*c, app(r, "if("@));
                lemma_app_grows(b0, b1, ")"@);
                lemma_gen_grows(*body, b0, app(b1, ")"@));
                let b2 = gen(*body, app(b1, ")"@));
                if let Some(x) = e {
                    lemma_app_grows(b0, b2, " else "@);
                    lemma_gen_grows(*x, b0, app(b2, " else "@));
                }
            },
            AstV::RET(o) => {
                lemma_stmt_grows(b0, r);
                lemma_app_grows(b0, stmt(r), "return "@);
                let b1 = app(stmt(r), "return "@);
                if let Some(x) = o {
                    lemma_gen_grows(*x, b0, b1);
                }
                let b2 = match o {
                    Some(x) => gen(*x, b1),
                    None => b1,
                };
                lemma_app_grows(b0, b2, ";\n"@);
            },
            AstV::DECL(d) => lemma_gen_decl_grows(d, b0, r),
            AstV::ASSIGN(l, rr) => {
                lemma_gen_grows(*l, b0, r);
                lemma_app_grows(b0, gen(*l, r), "="@);
                lemma_gen_grows(*rr, b0, app(gen(*l, r), "="@));
            },
            AstV::TAKE_REFERENCE(rhs, t, heap) => {
                if t.reference {
                    lemma_app_grows(b0, r, "*"@);
                    lemma_gen_grows(*rhs, b0, app(r, "*"@));
                } else if heap {
                    let lhs = TypeV { mutability: Mutability::MUTABLE, ..t };
                    lemma_stmt_grows(b0, r);
                    lemma_gen_type_grows(b0, lhs, stmt_here(r));
                    lemma_app_grows(b0, gen_type(lhs, stmt_here(r)), "* tmp = ("@);
                    let b1 = app(gen_type(lhs, stmt_here(r)), "* tmp = ("@);
                    lemma_gen_type_grows(b0, lhs, b1);
                    let b2 = gen_type(lhs, b1);
                    lemma_app_grows(
                        b0,
                        b2,
                        "*) malloc(sizeof("@ + decimal_text(size_of_type(t)) + "));\n"@,
                    );
                    let b3 = if sized(t) {
                        app(b2, "*) malloc(sizeof("@ + decimal_text(size_of_type(t)) + "));\n"@)
                    } else {
                        None
                    };
                    lemma_stmt_grows(b0, b3);
                    lemma_app_grows(b0, stmt(b3), "*tmp = "@);
                    lemma_gen_grows(*rhs, b0, app(stmt(b3), "*tmp = "@));
                    let b4a = gen(*rhs, app(stmt(b3), "*tmp = "@));
                    lemma_app_grows(b0, b4a, ";"@);
                    let b4 = app(b4a, ";"@);
                    lemma_stmt_grows(b0, b4);
                    lemma_app_grows(b0, advanced(b4), "tmp"@);
                } else {
                    lemma_app_grows(b0, r, "&"@);
                    lemma_gen_grows(*rhs, b0, app(r, "&"@));
                }
            },
            AstV::BINARY(l, op, rr) => {
                lemma_gen_grows(*l, b0, r);
                let b1 = gen(*l, r);
                lemma_app_grows(b0, b1, "+"@);
                lemma_app_grows(b0, b1, "-"@);
                lemma_app_grows(b0, b1, "*"@);
                lemma_app_grows(b0, b1, "/"@);
                let b2 = match op {
                    Token::PLUS => app(b1, "+"@),
                    Token::MINUS => app(b1, "-"@),
                    Token::STAR => app(b1, "*"@),
                    Token::DIV => app(b1, "/"@),
                    _ => None,
                };
                lemma_gen_grows(*rr, b0, b2);
            },
            AstV::IDENTIFIER(s) => lemma_app_grows(b0, r, s),
            AstV::STRING(s) => lemma_app_grows(b0, r, "\""@ + s + "\""@),
            AstV::GROUP(x) => {
                lemma_app_grows(b0, r, "("@);
                lemma_gen_grows(*x, b0, app(r, "("@));
                lemma_app_grows(b0, gen(*x, app(r, "("@)), ")"@);
            },
            AstV::CALL(c, args) => {
                lemma_gen_grows(*c, b0, r);
                lemma_app_grows(b0, gen(*c, r), "("@);
                lemma_gen_args_grows(args, b0, app(gen(*c, r), "("@));
                lemma_app_grows(b0, gen_args(args, app(gen(*c, r), "("@)), ")"@);
            },
            AstV::NUMBER(n) => match n {
                NumberV::INTEGER(v) => lemma_app_grows(b0, r, decimal_text(v as nat)),
                NumberV::FLOAT(s) => lemma_app_grows(b0, r, s),
            },
            AstV::STRUCT_TYPES_LIST(ds) => {
                lemma_app_grows(b0, r, "{"@);
                lemma_gen_fields_grows(ds, b0, app(r, "{"@));
                lemma_app_grows(b0, gen_fields(ds, app(r, "{"@)), "}"@);
            },
            AstV::LHS_ACCESS(l, rr) => {
                lemma_gen_grows(*l, b0, r);
                lemma_app_grows(b0, gen(*l, r), "."@);
                lemma_gen_grows(*rr, b0, app(gen(*l, r), "."@));
            },
            AstV::FOR(_) => {},
        }
    }
}

proof fn lemma_gen_list_grows(s: Seq<AstV>, b0: CodeBlockV, r: Option<CodeBlockV>)
    requires
        grows_from(b0, r),
    ensures
        grows_from(b0, gen_list(s, r)),
    decreases list_size(s),
{
    if r is Some && s.len() > 0 {
        lemma_gen_grows(s[0], b0, r);
        lemma_gen_list_grows(s.subrange(1, s.len() as int), b0, gen(s[0], r));
    }
}

proof fn lemma_gen_args_grows(s: Seq<AstV>, b0: CodeBlockV, r: Option<CodeBlockV>)
    requires
        grows_from(b0, r),
    ensures
        grows_from(b0, gen_args(s, r)),
    decreases list_size(s),
{
    if r is Some && s.len() > 0 {
        lemma_gen_grows(s[0], b0, r);
        if s.len() > 1 {
            lemma_app_grows(b0, gen(s[0], r), ", "@);
            lemma_gen_args_grows(s.subrange(1, s.len() as int), b0, app(gen(s[0], r), ", "@));
        }
    }
}

proof fn lemma_gen_decl_grows(d: DeclV, b0: CodeBlockV, r: Option<CodeBlockV>)
    requires
        grows_from(b0, r),
    ensures
        grows_from(b0, gen_decl(d, r)),
    decreases decl_size(d),
{
    match d.typ.primative {
        PrimativeV::FN(_) => {
            if let Some(v) = d.value {
                lemma_gen_grows(*v, b0, r);
            }
        },
        PrimativeV::TYPE(_) => {
            lemma_gen_type_grows(b0, d.typ, r);
            if let Some(v) = d.value {
                lemma_gen_grows(*v, b0, gen_type(d.typ, r));
            }
        },
        _ => {
            lemma_gen_type_grows(b0, d.typ, r);
            lemma_app_grows(b0, gen_type(d.typ, r), " "@ + token_text(d.identifier));
            let b1 = app(gen_type(d.typ, r), " "@ + token_text(d.identifier));
            if let Some(v) = d.value {
                lemma_app_grows(b0, b1, "="@);
                lemma_gen_grows(*v, b0, app(b1, "="@));
            }
        },
    }
}

proof fn lemma_gen_params_grows(s: Seq<DeclV>, b0: CodeBlockV, r: Option<CodeBlockV>)
    requires
        grows_from(b0, r),
    ensures
        grows_from(b0, gen_params(s, r)),
    decreases decls_size(s),
{
    if r is Some && s.len() > 0 {
        lemma_gen_decl_grows(s[0], b0, r);
        if s.len() > 1 {
            lemma_app_grows(b0, gen_decl(s[0], r), ", "@);
            lemma_gen_params_grows(s.subrange(1, s.len() as int), b0, app(gen_decl(s[0], r), ", "@));
        }
    }
}

proof fn lemma_gen_fields_grows(s: Seq<DeclV>, b0: CodeBlockV, r: Option<CodeBlockV>)
    requires
        grows_from(b0, r),
    ensures
        grows_from(b0, gen_fields(s, r)),
    decreases decls_size(s),
{
    if r is Some && s.len() > 0 {
        lemma_gen_decl_grows(s[0], b0, r);
        lemma_app_grows(b0, gen_decl(s[0], r), ";\n"@);
        lemma_gen_fields_grows(s.subrange(1, s.len() as int), b0, app(gen_decl(s[0], r), ";\n"@));
    }
}

/// The C++ operator for an arithmetic token.
pub open spec fn operator_text(op: Token) -> Option<Seq<char>> {
    if op == Token::PLUS {
        Some(seq!['+'])
    } else if op == Token::MINUS {
        Some(seq!['-'])
    } else if op == Token::STAR {
        Some(seq!['*'])
    } else if op == Token::DIV {
        Some(seq!['/'])
    } else {
        None
    }
}

/// The code for `l op r` is the code for `l`, then the C++ operator for `op`,
/// then the code for `r`; there is none for a token that is no arithmetic
/// operator.
pub proof fn lemma_gen_binary(l: AstV, op: Token, r: AstV, b: Option<CodeBlockV>)
    ensures
        gen(AstV::BINARY(Box::new(l), op, Box::new(r)), b) == match operator_text(op) {
            Some(o) => gen(r, app(gen(l, b), o)),
            None => None,
        },
{
    reveal_strlit("+");
    reveal_strlit("-");
    reveal_strlit("*");
    reveal_strlit("/");
    lemma_gen_none(r);
    assert("+"@ =~= seq!['+']);
    assert("-"@ =~= seq!['-']);
    assert("*"@ =~= seq!['*']);
    assert("/"@ =~= seq!['/']);
}

/// For two names, the code for `x op y` appends `x`, the operator and `y` to
/// the current statement.
pub proof fn lemma_gen_binary_names(x: Seq<char>, op: Token, y: Seq<char>, b: CodeBlockV)
    requires
        0 <= b.index < b.statements.len(),
        operator_text(op) is Some,
    ensures
        gen(
            AstV::BINARY(Box::new(AstV::IDENTIFIER(x)), op, Box::new(AstV::IDENTIFIER(y))),
            Some(b),
        ) == Some(appended_to(b, b.index, x + operator_text(op).unwrap() + y)),
{
    lemma_gen_binary(AstV::IDENTIFIER(x), op, AstV::IDENTIFIER(y), Some(b));
    let o = operator_text(op).unwrap();
    let s0 = b.statements[b.index];
    assert(s0 + x + o + y =~= s0 + (x + o + y));
    let b3 = appended_to(appended_to(appended_to(b, b.index, x), b.index, o), b.index, y);
    assert(b3.statements =~= appended_to(b, b.index, x + o + y).statements);
}


/// The code for `l = r` is the code for `l`, then `=`, then the code for `r`.
pub proof fn lemma_gen_assign(l: AstV, r: AstV, b: Option<CodeBlockV>)
    ensures
        gen(AstV::ASSIGN(Box::new(l), Box::new(r)), b) == gen(r, app(gen(l, b), seq!['='])),
{
    reveal_strlit("=");
    assert("="@ =~= seq!['=']);
    lemma_gen_none(r);
}

/// The code for `l.r` is the code for `l`, then `.`, then the code for `r`.
pub proof fn lemma_gen_access(l: AstV, r: AstV, b: Option<CodeBlockV>)
    ensures
        gen(AstV::LHS_ACCESS(Box::new(l), Box::new(r)), b) == gen(r, app(gen(l, b), seq!['.'])),
{
    reveal_strlit(".");
    assert("."@ =~= seq!['.']);
    lemma_gen_none(r);
}

/// The code for `(x)` is the code for `x` in parentheses.
pub proof fn lemma_gen_group(x: AstV, b: Option<CodeBlockV>)
    ensures
        gen(AstV::GROUP(Box::new(x)), b) == app(gen(x, app(b, seq!['('])), seq![')']),
{
    reveal_strlit("(");
    reveal_strlit(")");
    assert("("@ =~= seq!['(']);
    assert(")"@ =~= seq![')']);
    lemma_gen_none(x);
}

/// A statement starts a new line of code: the code for `x`, written into a
/// new statement after the current one, followed by `;` and a line break.
pub proof fn lemma_gen_stmt(x: AstV, b: Option<CodeBlockV>)
    ensures
        gen(AstV::STMT(Box::new(x)), b) == app(gen(x, stmt(b)), seq![';', '\n']),
{
    reveal_strlit(";\n");
    assert(";\n"@ =~= seq![';', '\n']);
    lemma_gen_none(x);
}

/// A name is written as itself, a string between double quotes, and an
/// integer as its decimal numeral, appended to the current statement.
pub proof fn lemma_gen_leaves(x: Seq<char>, v: u64, b: Option<CodeBlockV>)
    ensures
        gen(AstV::IDENTIFIER(x), b) == app(b, x),
        gen(AstV::STRING(x), b) == app(b, seq!['"'] + x + seq!['"']),
        gen(AstV::NUMBER(NumberV::INTEGER(v)), b) == app(b, decimal_text(v as nat)),
{
    reveal_strlit("\"");
    assert("\""@ =~= seq!['"']);
}

/// A reference that is not moved to the heap is written as `&` and its
/// operand; a reference to a reference type as `*` and its operand.
pub proof fn lemma_gen_plain_reference(e: AstV, t: TypeV, heap: bool, b: Option<CodeBlockV>)
    ensures
        t.reference ==> gen(AstV::TAKE_REFERENCE(Box::new(e), t, heap), b) == gen(
            e,
            app(b, seq!['*']),
        ),
        !t.reference && !heap ==> gen(AstV::TAKE_REFERENCE(Box::new(e), t, heap), b) == gen(
            e,
            app(b, seq!['&']),
        ),
{
    reveal_strlit("*");
    reveal_strlit("&");
    assert("*"@ =~= seq!['*']);
    assert("&"@ =~= seq!['&']);
    lemma_gen_none(e);
}

/// Something that writes out a program's text.
pub trait Generator {
    /// Whether generation succeeds from this state.
    spec fn can_generate(&self) -> bool;

    /// The text that generation gives from this state.
    spec fn generated(&self) -> Seq<char>;

    /// Writes out the program's text.
    fn generate(&mut self) -> (r: String)
        requires
            old(self).can_generate(),
        ensures
            r@ == old(self).generated(),
    ;
}

/// Whether the type's size is known (see `sized`).
fn is_sized(t: &Type) -> (r: bool)
    ensures
        r == sized(t@),
{
    match &t.primative {
        Primative::U32 | Primative::I32 | Primative::F32 | Primative::STRUCT(_) => true,
        _ => false,
    }
}

/// Generates C++ code for a syntax tree into its first code block.
pub struct CGenerator<'a> {
    pub ast: &'a Box<ParsedAST>,
    pub blocks: Vec<CodeBlock>,
}

impl<'a> CGenerator<'a> {
    /// A generator for `ast` with one code block holding one empty statement.
    pub fn new(ast: &'a Box<ParsedAST>) -> (r: CGenerator<'a>)
        ensures
            r.ast == ast,
            blocks_view(r.blocks@) == seq![CodeBlockV { statements: seq![Seq::<char>::empty()], index: 0 }],
            r.blocks@[0].wf(),
    {
        let mut statements: Vec<String> = Vec::new();
        statements.push(String::new());
        let mut blocks: Vec<CodeBlock> = Vec::new();
        blocks.push(CodeBlock { statements, index: 0 });
        let r = CGenerator { ast, blocks };
        proof {
            assert(strings_view(r.blocks@[0].statements@) =~= seq![Seq::<char>::empty()]);
            assert(blocks_view(r.blocks@) =~= seq![
                CodeBlockV { statements: seq![Seq::<char>::empty()], index: 0 },
            ]);
        }
        r
    }

    /// Generates the code, where generation succeeds (see `Generator`); `None`
    /// where it does not.
    pub fn try_generate(&mut self) -> (r: Option<String>)
        ensures
            r is Some <==> old(self).can_generate(),
            r matches Some(s) ==> s@ == old(self).generated(),
            final(self).ast == old(self).ast,
            r is Some ==> blocks_view(final(self).blocks@) == blocks_view(old(self).blocks@).update(
                0,
                generation(old(self).ast@, old(self).blocks@[0]@).unwrap(),
            ),
    {
        if self.blocks.len() == 0 {
            return None;
        }
        if self.blocks[0].index >= self.blocks[0].statements.len() {
            return None;
        }
        let ghost old_blocks = self.blocks@;
        let mut block = self.blocks.remove(0);
        block.new_stmt();
        block.append_current(string_of(PRELUDE));
        let ast: &ParsedAST = &**self.ast;
        let ok = self.generate_ast(&mut block, ast);
        self.blocks.insert(0, block);
        proof {
            assert(self.blocks@ =~= old_blocks.update(0, block));
            assert(blocks_view(self.blocks@) =~= blocks_view(old_blocks).update(0, block@));
        }
        if !ok {
            return None;
        }
        Some(self.text())
    }

    /// The statements of all blocks, one after the other.
    fn text(&self) -> (r: String)
        ensures
            r@ == blocks_text(blocks_view(self.blocks@)),
    {
        let ghost bv = blocks_view(self.blocks@);
        let mut code = String::new();
        let mut i: usize = 0;
        proof {
            assert(bv.take(0) =~= Seq::<CodeBlockV>::empty());
        }
        while i < self.blocks.len()
            invariant
                bv == blocks_view(self.blocks@),
                i <= self.blocks.len(),
                code@ == blocks_text(bv.take(i as int)),
            decreases self.blocks.len() - i,
        {
            let b = &self.blocks[i];
            let ghost sv = strings_view(b.statements@);
            let ghost before = code@;
            let mut j: usize = 0;
            proof {
                assert(sv.take(0) =~= Seq::<Seq<char>>::empty());
                assert(before + Seq::<char>::empty() =~= before);
            }
            while j < b.statements.len()
                invariant
                    sv == strings_view(b.statements@),
                    j <= b.statements.len(),
                    code@ == before + statements_text(sv.take(j as int)),
                decreases b.statements.len() - j,
            {
                code.append(b.statements[j].as_str());
                proof {
                    assert(sv.take(j + 1).drop_last() =~= sv.take(j as int));
                    assert(before + statements_text(sv.take(j as int)) + sv[j as int] =~= before
                        + (statements_text(sv.take(j as int)) + sv[j as int]));
                }
                j = j + 1;
            }
            proof {
                assert(sv.take(j as int) =~= sv);
                assert(bv.take(i + 1).drop_last() =~= bv.take(i as int));
                assert(bv.take(i + 1).last() == b@);
            }
            i = i + 1;
        }
        proof {
            assert(bv.take(i as int) =~= bv);
        }
        code
    }
}

impl<'a> Generator for CGenerator<'a> {
    /// There is a first block, its position stands on a statement, and
    /// generation succeeds from it.
    open spec fn can_generate(&self) -> bool {
        &&& self.blocks@.len() > 0
        &&& self.blocks@[0].wf()
        &&& generation(self.ast@, self.blocks@[0]@) is Some
    }

    /// The statements of all blocks, the first as generation leaves it.
    open spec fn generated(&self) -> Seq<char> {
        blocks_text(
            blocks_view(self.blocks@).update(0, generation(self.ast@, self.blocks@[0]@).unwrap()),
        )
    }

    /// The first block is left as generation makes it; the others, and the
    /// tree, are kept.
    fn generate(&mut self) -> (r: String)
        ensures
            final(self).ast == old(self).ast,
            blocks_view(final(self).blocks@) == blocks_view(old(self).blocks@).update(
                0,
                generation(old(self).ast@, old(self).blocks@[0]@).unwrap(),
            ),
    {
        let r = self.try_generate();
        r.unwrap()
    }
}

impl<'a> CGenerator<'a> {
    fn generate_ast(&self, block: &mut CodeBlock, ast: &ParsedAST) -> (ok: bool)
        requires
            old(block).wf(),
        ensures
            ok == gen(ast@, Some(old(block)@)) is Some,
            ok ==> gen(ast@, Some(old(block)@)) == Some(final(block)@) && final(block).wf(),
        decreases ast_size(ast@), 1int,
    {
        broadcast use group_gen_none;

        match ast {
            ParsedAST::DIRECTIVE(directive) => self.generate_directive(block, directive),
            ParsedAST::PROGRAM(program) => self.generate_program(block, program),
            ParsedAST::FN(function) => self.generate_function(block, function),
            ParsedAST::STMT(stmt) => {
                block.new_stmt();
                if !self.generate_ast(block, stmt) {
                    return false;
                }
                block.append_current(string_of(";\n"));
                true
            },
            ParsedAST::BLOCK(b) => self.generate_block(block, b),
            ParsedAST::IF(iff) => self.generate_if(block, iff),
            ParsedAST::RET(ret) => {
                block.new_stmt();
                block.append_current(string_of("return "));
                match ret {
                    Some(value) => {
                        if !self.generate_ast(block, value) {
                            return false;
                        }
                    },
                    None => {},
                }
                block.append_current(string_of(";\n"));
                true
            },
            ParsedAST::DECL(decl) => self.generate_decl(block, decl),
            ParsedAST::ASSIGN(assign) => self.generate_assign(block, assign),
            ParsedAST::LEFT_UNARY(left_unary) => self.generate_left_unary(block, left_unary),
            ParsedAST::BINARY(binary) => self.generate_binary(block, binary),
            ParsedAST::IDENTIFIER(identifier) => {
                block.append_current(identifier.clone());
                true
            },
            ParsedAST::STRING(string) => {
                let mut t = string_of("\"");
                t.append(string.as_str());
                t.append("\"");
                block.append_current(t);
                true
            },
            ParsedAST::GROUP(group) => self.generate_group(block, group),
            ParsedAST::CALL(call) => self.generate_call(block, call),
            ParsedAST::NUMBER(number) => {
                match number {
                    Number::INTEGER(num) => block.append_current(decimal_string(*num)),
                    Number::FLOAT(num) => block.append_current(num.clone()),
                }
                true
            },
            ParsedAST::STRUCT_TYPES_LIST(list) => self.generate_struct_types_list(block, list),
            ParsedAST::LHS_ACCESS(lhs_access) => self.generate_lhs_access(block, lhs_access),
            ParsedAST::FOR(_) => false,
        }
    }

    fn generate_program(&self, block: &mut CodeBlock, program: &Program) -> (ok: bool)
        requires
            old(block).wf(),
        ensures
            ok == gen(ParsedAST::PROGRAM(*program)@, Some(old(block)@)) is Some,
            ok ==> gen(ParsedAST::PROGRAM(*program)@, Some(old(block)@)) == Some(final(block)@)
                && final(block).wf(),
        decreases ast_size(ParsedAST::PROGRAM(*program)@), 0int,
    {
        broadcast use group_gen_none;

        proof {
            assert(asts_view(program.body@).subrange(0, program.body@.len() as int) =~= asts_view(
                program.body@,
            ));
        }
        self.generate_list(block, &program.body, 0)
    }

    fn generate_block(&self, block: &mut CodeBlock, b: &Block) -> (ok: bool)
        requires
            old(block).wf(),
        ensures
            ok == gen(ParsedAST::BLOCK(*b)@, Some(old(block)@)) is Some,
            ok ==> gen(ParsedAST::BLOCK(*b)@, Some(old(block)@)) == Some(final(block)@)
                && final(block).wf(),
        decreases ast_size(ParsedAST::BLOCK(*b)@), 0int,
    {
        broadcast use group_gen_none;

        proof {
            assert(asts_view(b.body@).subrange(0, b.body@.len() as int) =~= asts_view(b.body@));
        }
        if b.new_scope {
            block.new_stmt();
            block.append_current(string_of("{"));
        }
        if !self.generate_list(block, &b.body, 0) {
            return false;
        }
        if b.new_scope {
            block.new_stmt();
            block.append_current(string_of("}"));
        }
        true
    }

    fn generate_if(&self, block: &mut CodeBlock, iff: &If) -> (ok: bool)
        requires
            old(block).wf(),
        ensures
            ok == gen(ParsedAST::IF(*iff)@, Some(old(block)@)) is Some,
            ok ==> gen(ParsedAST::IF(*iff)@, Some(old(block)@)) == Some(final(block)@)
                && final(block).wf(),
        decreases ast_size(ParsedAST::IF(*iff)@), 0int,
    {
        broadcast use group_gen_none;

        let ghost b1 = gen(iff.body@, app(gen(iff.condition@, app(Some(block@), "if("@)), ")"@));
        assert(gen(ParsedAST::IF(*iff)@, Some(block@)) == match &iff.else_body {
            Some(e) => gen(e@, app(b1, " else "@)),
            None => b1,
        });
        block.append_current(string_of("if("));
        if !self.generate_ast(block, &iff.condition) {
            return false;
        }
        block.append_current(string_of(")"));
        if !self.generate_ast(block, &iff.body) {
            return false;
        }
        match &iff.else_body {
            Some(else_body) => {
                block.append_current(string_of(" else "));
                self.generate_ast(block, else_body)
            },
            None => true,
        }
    }

    fn generate_assign(&self, block: &mut CodeBlock, assign: &Assign) -> (ok: bool)
        requires
            old(block).wf(),
        ensures
            ok == gen(ParsedAST::ASSIGN(*assign)@, Some(old(block)@)) is Some,
            ok ==> gen(ParsedAST::ASSIGN(*assign)@, Some(old(block)@)) == Some(final(block)@)
                && final(block).wf(),
        decreases ast_size(ParsedAST::ASSIGN(*assign)@), 0int,
    {
        broadcast use group_gen_none;

        assert(gen(ParsedAST::ASSIGN(*assign)@, Some(block@)) == gen(
            assign.rhs@,
            app(gen(assign.lhs@, Some(block@)), "="@),
        ));
        if !self.generate_ast(block, &assign.lhs) {
            return false;
        }
        block.append_current(string_of("="));
        self.generate_ast(block, &assign.rhs)
    }

    fn generate_binary(&self, block: &mut CodeBlock, binary: &Binary) -> (ok: bool)
        requires
            old(block).wf(),
        ensures
            ok == gen(ParsedAST::BINARY(*binary)@, Some(old(block)@)) is Some,
            ok ==> gen(ParsedAST::BINARY(*binary)@, Some(old(block)@)) == Some(final(block)@)
                && final(block).wf(),
        decreases ast_size(ParsedAST::BINARY(*binary)@), 0int,
    {
        broadcast use group_gen_none;

        assert(gen(ParsedAST::BINARY(*binary)@, Some(block@)) == gen(
            binary.right@,
            match binary.op@ {
                Token::PLUS => app(gen(binary.left@, Some(block@)), "+"@),
                Token::MINUS => app(gen(binary.left@, Some(block@)), "-"@),
                Token::STAR => app(gen(binary.left@, Some(block@)), "*"@),
                Token::DIV => app(gen(binary.left@, Some(block@)), "/"@),
                _ => None,
            },
        ));
        if !self.generate_ast(block, &binary.left) {
            return false;
        }
        match binary.op {
            Token::PLUS => block.append_current(string_of("+")),
            Token::MINUS => block.append_current(string_of("-")),
            Token::STAR => block.append_current(string_of("*")),
            Token::DIV => block.append_current(string_of("/")),
            _ => {
                return false;
            },
        }
        self.generate_ast(block, &binary.right)
    }

    fn generate_group(&self, block: &mut CodeBlock, group: &Group) -> (ok: bool)
        requires
            old(block).wf(),
        ensures
            ok == gen(ParsedAST::GROUP(*group)@, Some(old(block)@)) is Some,
            ok ==> gen(ParsedAST::GROUP(*group)@, Some(old(block)@)) == Some(final(block)@)
                && final(block).wf(),
        decreases ast_size(ParsedAST::GROUP(*group)@), 0int,
    {
        broadcast use group_gen_none;

        block.append_current(string_of("("));
        if !self.generate_ast(block, &group.expression) {
            return false;
        }
        block.append_current(string_of(")"));
        true
    }

    fn generate_call(&self, block: &mut CodeBlock, call: &Call) -> (ok: bool)
        requires
            old(block).wf(),
        ensures
            ok == gen(ParsedAST::CALL(*call)@, Some(old(block)@)) is Some,
            ok ==> gen(ParsedAST::CALL(*call)@, Some(old(block)@)) == Some(final(block)@)
                && final(block).wf(),
        decreases ast_size(ParsedAST::CALL(*call)@), 0int,
    {
        broadcast use group_gen_none;

        assert(gen(ParsedAST::CALL(*call)@, Some(block@)) == app(
            gen_args(asts_view(call.args@), app(gen(call.callee@, Some(block@)), "("@)),
            ")"@,
        ));
        if !self.generate_ast(block, &call.callee) {
            return false;
        }
        block.append_current(string_of("("));
        proof {
            assert(asts_view(call.args@).subrange(0, call.args@.len() as int) =~= asts_view(
                call.args@,
            ));
        }
        if !self.generate_args(block, &call.args, 0) {
            return false;
        }
        block.append_current(string_of(")"));
        true
    }

    fn generate_struct_types_list(&self, block: &mut CodeBlock, list: &StructTypesList) -> (ok:
        bool)
        requires
            old(block).wf(),
        ensures
            ok == gen(ParsedAST::STRUCT_TYPES_LIST(*list)@, Some(old(block)@)) is Some,
            ok ==> gen(ParsedAST::STRUCT_TYPES_LIST(*list)@, Some(old(block)@)) == Some(
                final(block)@,
            ) && final(block).wf(),
        decreases ast_size(ParsedAST::STRUCT_TYPES_LIST(*list)@), 0int,
    {
        broadcast use group_gen_none;

        block.append_current(string_of("{"));
        proof {
            assert(decls_view(list.types@).subrange(0, list.types@.len() as int) =~= decls_view(
                list.types@,
            ));
        }
        if !self.generate_fields(block, &list.types, 0) {
            return false;
        }
        block.append_current(string_of("}"));
        true
    }

    fn generate_lhs_access(&self, block: &mut CodeBlock, lhs_access: &LhsAccess) -> (ok: bool)
        requires
            old(block).wf(),
        ensures
            ok == gen(ParsedAST::LHS_ACCESS(*lhs_access)@, Some(old(block)@)) is Some,
            ok ==> gen(ParsedAST::LHS_ACCESS(*lhs_access)@, Some(old(block)@)) == Some(
                final(block)@,
            ) && final(block).wf(),
        decreases ast_size(ParsedAST::LHS_ACCESS(*lhs_access)@), 0int,
    {
        broadcast use group_gen_none;

        assert(gen(ParsedAST::LHS_ACCESS(*lhs_access)@, Some(block@)) == gen(
            lhs_access.right@,
            app(gen(lhs_access.left@, Some(block@)), "."@),
        ));
        if !self.generate_ast(block, &lhs_access.left) {
            return false;
        }
        block.append_current(string_of("."));
        self.generate_ast(block, &lhs_access.right)
    }

    fn generate_type(&self, block: &mut CodeBlock, typ: &Type) -> (ok: bool)
        requires
            old(block).wf(),
        ensures
            ok == gen_type(typ@, Some(old(block)@)) is Some,
            ok ==> gen_type(typ@, Some(old(block)@)) == Some(final(block)@) && final(block).wf(),
    {
        broadcast use group_gen_none;

        match &typ.primative {
            Primative::FN(func) => {
                if typ.mutability == Mutability::CONSTANT {
                    let mut t = string_of("void ");
                    t.append(func.anonymous_name.as_str());
                    t.append("() ");
                    block.append_current(t);
                }
                true
            },
            Primative::TYPE(type_type) => {
                if typ.mutability == Mutability::CONSTANT {
                    let mut t = string_of("struct ");
                    t.append(type_type.anonymous_name.as_str());
                    block.append_current(t);
                }
                true
            },
            _ => {
                if typ.mutability == Mutability::CONSTANT {
                    block.append_current(string_of("const "));
                }
                let word = match &typ.primative {
                    Primative::U32 => string_of("unsigned int"),
                    Primative::I32 => string_of("int"),
                    Primative::F32 => string_of("float"),
                    Primative::BOOL => string_of("unsigned int"),
                    Primative::STRING => string_of("char*"),
                    Primative::STRUCT(identifier) => identifier.clone(),
                    Primative::INCOMPLETE => string_of("void"),
                    _ => {
                        return false;
                    },
                };
                block.append_current(word);
                if typ.reference {
                    block.append_current(string_of("*"));
                }
                true
            },
        }
    }

    fn generate_directive(&self, block: &mut CodeBlock, directive: &Directive) -> (ok: bool)
        requires
            old(block).wf(),
        ensures
            ok == gen_directive(directive.value@, asts_view(directive.args@), Some(old(block)@)) is Some,
            ok ==> gen_directive(directive.value@, asts_view(directive.args@), Some(old(block)@))
                == Some(final(block)@) && final(block).wf(),
    {
        broadcast use group_gen_none;

        match &directive.value {
            Token::IDENTIFIER(identifier) => {
                proof {
                    lemma_canon(*identifier);
                    lemma_asts_view(directive.args@);
                }
                if string_equal(identifier, &string_of("inline")) {
                    block.append_current(string_of("inline "));
                    true
                } else if string_equal(identifier, &string_of("asm")) {
                    if directive.args.len() > 0 {
                        match &directive.args[0] {
                            ParsedAST::STRING(s) => {
                                let mut t = string_of("asm(\"");
                                t.append(s.as_str());
                                t.append("\")");
                                block.append_current(t);
                                true
                            },
                            _ => false,
                        }
                    } else {
                        false
                    }
                } else {
                    true
                }
            },
            _ => false,
        }
    }

    fn generate_list(&self, block: &mut CodeBlock, s: &Vec<ParsedAST>, i: usize) -> (ok: bool)
        requires
            old(block).wf(),
            i <= s.len(),
        ensures
            ok == gen_list(asts_view(s@).subrange(i as int, s@.len() as int), Some(old(block)@)) is Some,
            ok ==> gen_list(asts_view(s@).subrange(i as int, s@.len() as int), Some(old(block)@))
                == Some(final(block)@) && final(block).wf(),
        decreases list_size(asts_view(s@).subrange(i as int, s@.len() as int)), 1int,
    {
        broadcast use group_gen_none;

        let ghost t = asts_view(s@).subrange(i as int, s@.len() as int);
        proof {
            lemma_asts_view(s@);
        }
        if i == s.len() {
            assert(t.len() == 0);
            return true;
        }
        proof {
            assert(t[0] == s@[i as int]@);
            assert(t.subrange(1, t.len() as int) =~= asts_view(s@).subrange(i + 1, s@.len() as int));
        }
        let ghost b0 = block@;
        assert(gen_list(t, Some(b0)) == gen_list(t.subrange(1, t.len() as int), gen(t[0], Some(b0))));
        if !self.generate_ast(block, &s[i]) {
            return false;
        }
        self.generate_list(block, s, i + 1)
    }

    fn generate_args(&self, block: &mut CodeBlock, s: &Vec<ParsedAST>, i: usize) -> (ok: bool)
        requires
            old(block).wf(),
            i <= s.len(),
        ensures
            ok == gen_args(asts_view(s@).subrange(i as int, s@.len() as int), Some(old(block)@)) is Some,
            ok ==> gen_args(asts_view(s@).subrange(i as int, s@.len() as int), Some(old(block)@))
                == Some(final(block)@) && final(block).wf(),
        decreases list_size(asts_view(s@).subrange(i as int, s@.len() as int)), 1int,
    {
        broadcast use group_gen_none;

        let ghost t = asts_view(s@).subrange(i as int, s@.len() as int);
        proof {
            lemma_asts_view(s@);
        }
        if i == s.len() {
            assert(t.len() == 0);
            return true;
        }
        proof {
            assert(t[0] == s@[i as int]@);
            assert(t.subrange(1, t.len() as int) =~= asts_view(s@).subrange(i + 1, s@.len() as int));
        }
        let ghost b0 = block@;
        assert(gen_args(t, Some(b0)) == if t.len() == 1 {
            gen(t[0], Some(b0))
        } else {
            gen_args(t.subrange(1, t.len() as int), app(gen(t[0], Some(b0)), ", "@))
        });
        if !self.generate_ast(block, &s[i]) {
            return false;
        }
        if i + 1 == s.len() {
            return true;
        }
        block.append_current(string_of(", "));
        self.generate_args(block, s, i + 1)
    }

    fn generate_decl(&self, block: &mut CodeBlock, decl: &Decl) -> (ok: bool)
        requires
            old(block).wf(),
        ensures
            ok == gen_decl(decl@, Some(old(block)@)) is Some,
            ok ==> gen_decl(decl@, Some(old(block)@)) == Some(final(block)@) && final(block).wf(),
        decreases decl_size(decl@), 1int,
    {
        broadcast use group_gen_none;

        match &decl.typ.primative {
            Primative::FN(_) => match &decl.value {
                Some(value) => self.generate_ast(block, value),
                None => true,
            },
            Primative::TYPE(_) => {
                if !self.generate_type(block, &decl.typ) {
                    return false;
                }
                match &decl.value {
                    Some(value) => self.generate_ast(block, value),
                    None => true,
                }
            },
            _ => {
                if !self.generate_type(block, &decl.typ) {
                    return false;
                }
                let mut t = string_of(" ");
                let name = decl.identifier.text();
                proof {
                    lemma_token_text_view(decl.identifier);
                }
                t.append(name.as_str());
                block.append_current(t);
                match &decl.value {
                    Some(value) => {
                        block.append_current(string_of("="));
                        self.generate_ast(block, value)
                    },
                    None => true,
                }
            },
        }
    }

    fn generate_params(&self, block: &mut CodeBlock, s: &Vec<Decl>, i: usize) -> (ok: bool)
        requires
            old(block).wf(),
            i <= s.len(),
        ensures
            ok == gen_params(decls_view(s@).subrange(i as int, s@.len() as int), Some(old(block)@)) is Some,
            ok ==> gen_params(decls_view(s@).subrange(i as int, s@.len() as int), Some(old(block)@))
                == Some(final(block)@) && final(block).wf(),
        decreases decls_size(decls_view(s@).subrange(i as int, s@.len() as int)), 1int,
    {
        broadcast use group_gen_none;

        let ghost t = decls_view(s@).subrange(i as int, s@.len() as int);
        proof {
            lemma_decls_view(s@);
        }
        if i == s.len() {
            assert(t.len() == 0);
            return true;
        }
        proof {
            assert(t[0] == s@[i as int]@);
            assert(t.subrange(1, t.len() as int) =~= decls_view(s@).subrange(i + 1, s@.len() as int));
        }
        let ghost b0 = block@;
        assert(gen_params(t, Some(b0)) == if t.len() == 1 {
            gen_decl(t[0], Some(b0))
        } else {
            gen_params(t.subrange(1, t.len() as int), app(gen_decl(t[0], Some(b0)), ", "@))
        });
        if !self.generate_decl(block, &s[i]) {
            return false;
        }
        if i + 1 == s.len() {
            return true;
        }
        block.append_current(string_of(", "));
        self.generate_params(block, s, i + 1)
    }

    fn generate_fields(&self, block: &mut CodeBlock, s: &Vec<Decl>, i: usize) -> (ok: bool)
        requires
            old(block).wf(),
            i <= s.len(),
        ensures
            ok == gen_fields(decls_view(s@).subrange(i as int, s@.len() as int), Some(old(block)@)) is Some,
            ok ==> gen_fields(decls_view(s@).subrange(i as int, s@.len() as int), Some(old(block)@))
                == Some(final(block)@) && final(block).wf(),
        decreases decls_size(decls_view(s@).subrange(i as int, s@.len() as int)), 1int,
    {
        broadcast use group_gen_none;

        let ghost t = decls_view(s@).subrange(i as int, s@.len() as int);
        proof {
            lemma_decls_view(s@);
        }
        if i == s.len() {
            assert(t.len() == 0);
            return true;
        }
        proof {
            assert(t[0] == s@[i as int]@);
            assert(t.subrange(1, t.len() as int) =~= decls_view(s@).subrange(i + 1, s@.len() as int));
        }
        let ghost b0 = block@;
        assert(gen_fields(t, Some(b0)) == gen_fields(
            t.subrange(1, t.len() as int),
            app(gen_decl(t[0], Some(b0)), ";\n"@),
        ));
        if !self.generate_decl(block, &s[i]) {
            return false;
        }
        block.append_current(string_of(";\n"));
        self.generate_fields(block, s, i + 1)
    }

    fn generate_function(&self, block: &mut CodeBlock, function: &FnNode) -> (ok: bool)
        requires
            old(block).wf(),
        ensures
            ok == gen(ParsedAST::FN(*function)@, Some(old(block)@)) is Some,
            ok ==> gen(ParsedAST::FN(*function)@, Some(old(block)@)) == Some(final(block)@)
                && final(block).wf(),
        decreases ast_size(ParsedAST::FN(*function)@), 0int,
    {
        broadcast use group_gen_none;

        match &function.typ.primative {
            Primative::FN(func) => {
                proof {
                    let fv = ParsedAST::FN(*function)@;
                    assert(fv == AstV::FN(
                        FnNodeV {
                            typ: function.typ@,
                            params: decls_view(function.params@),
                            body: Box::new(function.body@),
                        },
                    ));
                    let ftv = function.typ@.primative->FN_0;
                    assert(ftv.anonymous_name == func.anonymous_name@);
                    assert(ftv.return_type == match &func.return_type {
                        Some(t) => Some(Box::new(t@)),
                        None => None,
                    });
                    let b1 = stmt(Some(block@));
                    let b2 = match ftv.return_type {
                        Some(rt) => gen_type(*rt, b1),
                        None => app(b1, "void"@),
                    };
                    let b3 = gen_params(
                        decls_view(function.params@),
                        app(b2, " "@ + ftv.anonymous_name + "("@),
                    );
                    let b4 = gen(function.body@, stmt(app(b3, "){"@)));
                    assert(gen(fv, Some(block@)) == app(stmt(b4), "}"@));
                }
                block.new_stmt();
                match &func.return_type {
                    Some(return_type) => {
                        if !self.generate_type(block, return_type) {
                            return false;
                        }
                    },
                    None => block.append_current(string_of("void")),
                }
                let mut t = string_of(" ");
                t.append(func.anonymous_name.as_str());
                t.append("(");
                block.append_current(t);
                proof {
                    assert(decls_view(function.params@).subrange(0, function.params@.len() as int)
                        =~= decls_view(function.params@));
                }
                if !self.generate_params(block, &function.params, 0) {
                    return false;
                }
                block.append_current(string_of("){"));
                block.new_stmt();
                if !self.generate_ast(block, &function.body) {
                    return false;
                }
                block.new_stmt();
                block.append_current(string_of("}"));
                true
            },
            _ => false,
        }
    }

    fn generate_left_unary(&self, block: &mut CodeBlock, left_unary: &LeftUnary) -> (ok: bool)
        requires
            old(block).wf(),
        ensures
            ok == gen(ParsedAST::LEFT_UNARY(*left_unary)@, Some(old(block)@)) is Some,
            ok ==> gen(ParsedAST::LEFT_UNARY(*left_unary)@, Some(old(block)@)) == Some(final(block)@)
                && final(block).wf(),
        decreases ast_size(ParsedAST::LEFT_UNARY(*left_unary)@), 0int,
    {
        broadcast use group_gen_none;

        match left_unary {
            LeftUnary::TAKE_REFERENCE(take_reference) => {
                proof {
                    let a = ParsedAST::LEFT_UNARY(*left_unary)@;
                    let rhs = take_reference.rhs@;
                    let t = take_reference.rhs_type@;
                    assert(a == AstV::TAKE_REFERENCE(Box::new(rhs), t, take_reference.is_heap_alloc));
                    let b = Some(block@);
                    let lhs = TypeV { mutability: Mutability::MUTABLE, ..t };
                    let b1 = app(gen_type(lhs, stmt_here(b)), "* tmp = ("@);
                    let b2 = gen_type(lhs, b1);
                    let b3 = if sized(t) {
                        app(b2, "*) malloc(sizeof("@ + decimal_text(size_of_type(t)) + "));\n"@)
                    } else {
                        None
                    };
                    let b4 = app(gen(rhs, app(stmt(b3), "*tmp = "@)), ";"@);
                    assert(gen(a, b) == if t.reference {
                        gen(rhs, app(b, "*"@))
                    } else if take_reference.is_heap_alloc {
                        app(advanced(b4), "tmp"@)
                    } else {
                        gen(rhs, app(b, "&"@))
                    });
                }
                if take_reference.rhs_type.reference {
                    block.append_current(string_of("*"));
                    self.generate_ast(block, &take_reference.rhs)
                } else if take_reference.is_heap_alloc {
                    if block.index > 2147483647 {
                        return false;
                    }
                    block.new_stmt_at(0);
                    let mut lhs_type = take_reference.rhs_type.copied();
                    lhs_type.mutability = Mutability::MUTABLE;
                    if !self.generate_type(block, &lhs_type) {
                        return false;
                    }
                    block.append_current(string_of("* tmp = ("));
                    if !self.generate_type(block, &lhs_type) {
                        return false;
                    }
                    if !is_sized(&take_reference.rhs_type) {
                        return false;
                    }
                    let size = take_reference.rhs_type.size_in_bytes();
                    let mut t = string_of("*) malloc(sizeof(");
                    let n = decimal_string(size as u64);
                    t.append(n.as_str());
                    t.append("));\n");
                    block.append_current(t);
                    block.new_stmt();
                    block.append_current(string_of("*tmp = "));
                    if !self.generate_ast(block, &take_reference.rhs) {
                        return false;
                    }
                    block.append_current(string_of(";"));
                    block.index = block.index + 1;
                    if block.index >= block.statements.len() {
                        return false;
                    }
                    block.append_current(string_of("tmp"));
                    true
                } else {
                    block.append_current(string_of("&"));
                    self.generate_ast(block, &take_reference.rhs)
                }
            },
        }
    }
}

} // verus!

//! Escape analysis: decides which referenced values move to the heap.
use vstd::prelude::*;
use crate::parse::asts_view;
use crate::parse::ast_size;
use crate::parse::decl_size;
use crate::parse::lemma_asts_view;
use crate::parse::list_size;
use crate::parse::AstV;
use crate::parse::Block;
use crate::parse::Decl;
use crate::parse::DeclV;
use crate::parse::FnNodeV;
use crate::parse::LeftUnary;
use crate::parse::ParsedAST;
use crate::parse::Program;
use crate::parse::TakeReference;
use crate::parse::Fn as ParsedFn;

verus! {

/// The size from which a referenced value is moved to the heap.
pub const HEAP_ALLOC_THRESHOLD: usize = 4;

/// The size the analysis assumes for a referenced value.
pub const ASSUMED_REFERENCE_SIZE: usize = 9;

/// Whether a referenced value of the assumed size moves to the heap.
pub open spec fn heap_allocates() -> bool {
    ASSUMED_REFERENCE_SIZE >= HEAP_ALLOC_THRESHOLD
}

/// The tree after the analysis: each reference `@x` that stands in a
/// program, a block, a statement, a declaration's value, a function's body or
/// a `ret` value (directly, or through these) is marked as moved to the heap.
/// Other nodes, and what stands below a reference, are kept as they are.
pub open spec fn analysed(a: AstV) -> AstV
    decreases ast_size(a),
{
    match a {
        AstV::PROGRAM(b) => AstV::PROGRAM(analysed_list(b)),
        AstV::BLOCK(b, ns) => AstV::BLOCK(analysed_list(b), ns),
        AstV::STMT(x) => AstV::STMT(Box::new(analysed(*x))),
        AstV::DECL(d) => AstV::DECL(analysed_decl(d)),
        AstV::FN(f) => AstV::FN(FnNodeV { body: Box::new(analysed(*f.body)), ..f }),
        AstV::RET(Some(x)) => AstV::RET(Some(Box::new(analysed(*x)))),
        AstV::TAKE_REFERENCE(r, t, heap) => AstV::TAKE_REFERENCE(r, t, heap || heap_allocates()),
        _ => a,
    }
}

/// The trees after the analysis.
pub open spec fn analysed_list(s: Seq<AstV>) -> Seq<AstV>
    decreases list_size(s),
{
    if s.len() == 0 {
        s
    } else {
        seq![analysed(s[0])] + analysed_list(s.subrange(1, s.len() as int))
    }
}

/// A declaration after the analysis: its value analysed.
pub open spec fn analysed_decl(d: DeclV) -> DeclV
    decreases decl_size(d),
{
    match d.value {
        Some(v) => DeclV { value: Some(Box::new(analysed(*v))), ..d },
        None => d,
    }
}

struct AnalysisContext {
    scope: u32,
}

/// The escape analysis.
pub struct Analyser {}

impl Analyser {
    /// Analyses a tree (see `analysed`).
    pub fn analyse(&mut self, tmp: Box<ParsedAST>) -> (r: Box<ParsedAST>)
        ensures
            r@ == analysed(tmp@),
    {
        let mut analysis_context = AnalysisContext { scope: 0 };
        Box::new(self.analyse_ast(&mut analysis_context, *tmp))
    }

    fn analyse_ast(&mut self, analysis_context: &mut AnalysisContext, ast: ParsedAST) -> (r:
        ParsedAST)
        ensures
            r@ == analysed(ast@),
        decreases ast_size(ast@), 1int,
    {
        match ast {
            ParsedAST::PROGRAM(program) => ParsedAST::PROGRAM(
                Program { body: self.analyse_list(analysis_context, program.body) },
            ),
            ParsedAST::BLOCK(block) => ParsedAST::BLOCK(
                Block {
                    body: self.analyse_list(analysis_context, block.body),
                    new_scope: block.new_scope,
                },
            ),
            ParsedAST::STMT(stmt) => ParsedAST::STMT(
                Box::new(self.analyse_ast(analysis_context, *stmt)),
            ),
            ParsedAST::DECL(decl) => ParsedAST::DECL(self.analyse_decl(analysis_context, decl)),
            ParsedAST::FN(func) => ParsedAST::FN(self.analyse_func(analysis_context, func)),
            ParsedAST::RET(ret) => ParsedAST::RET(
                match ret {
                    Some(val) => Some(Box::new(self.analyse_ast(analysis_context, *val))),
                    None => None,
                },
            ),
            ParsedAST::LEFT_UNARY(left_unary) => self.analyse_left_unary(
                analysis_context,
                left_unary,
            ),
            other => other,
        }
    }

    fn analyse_list(&mut self, analysis_context: &mut AnalysisContext, body: Vec<ParsedAST>) -> (r:
        Vec<ParsedAST>)
        ensures
            asts_view(r@) == analysed_list(asts_view(body@)),
        decreases list_size(asts_view(body@)), 1int,
    {
        proof {
            lemma_asts_view(body@);
        }
        if body.len() == 0 {
            assert(asts_view(body@) =~= Seq::<AstV>::empty());
            return body;
        }
        let mut rest = body;
        let first = rest.remove(0);
        proof {
            lemma_asts_view(rest@);
            assert(asts_view(rest@) =~= asts_view(body@).subrange(1, body@.len() as int));
        }
        let x = self.analyse_ast(analysis_context, first);
        let mut out = self.analyse_list(analysis_context, rest);
        let ghost tail = out@;
        out.insert(0, x);
        proof {
            lemma_asts_view(out@);
            lemma_asts_view(tail);
            assert(asts_view(out@) =~= seq![x@] + asts_view(tail));
        }
        out
    }

    fn analyse_decl(&mut self, analysis_context: &mut AnalysisContext, decl: Decl) -> (r: Decl)
        ensures
            r@ == analysed_decl(decl@),
        decreases decl_size(decl@), 1int,
    {
        let Decl { identifier, typ, requires_infering, value } = decl;
        let value = match value {
            Some(val) => Some(Box::new(self.analyse_ast(analysis_context, *val))),
            None => None,
        };
        Decl { identifier, typ, requires_infering, value }
    }

    fn analyse_func(&mut self, analysis_context: &mut AnalysisContext, func: ParsedFn) -> (r:
        ParsedFn)
        ensures
            ParsedAST::FN(r)@ == analysed(ParsedAST::FN(func)@),
        decreases ast_size(ParsedAST::FN(func)@), 0int,
    {
        let ParsedFn { typ, params, body } = func;
        ParsedFn { typ, params, body: Box::new(self.analyse_ast(analysis_context, *body)) }
    }

    fn analyse_left_unary(&mut self, analysis_context: &mut AnalysisContext, left_unary: LeftUnary) -> (r:
        ParsedAST)
        ensures
            r@ == analysed(ParsedAST::LEFT_UNARY(left_unary)@),
    {
        match left_unary {
            LeftUnary::TAKE_REFERENCE(value) => {
                let TakeReference { rhs, rhs_type, is_heap_alloc } = value;
                let rhs_type_size: usize = ASSUMED_REFERENCE_SIZE;
                let is_heap_alloc = if rhs_type_size >= HEAP_ALLOC_THRESHOLD {
                    true
                } else {
                    is_heap_alloc
                };
                ParsedAST::LEFT_UNARY(
                    LeftUnary::TAKE_REFERENCE(TakeReference { rhs, rhs_type, is_heap_alloc }),
                )
            },
        }
    }
}

/// Analysing an analysed tree changes nothing.
pub proof fn lemma_analysed_idempotent(a: AstV)
    ensures
        analysed(analysed(a)) == analysed(a),
    decreases ast_size(a), 1int,
{
    match a {
        AstV::PROGRAM(b) => {
            lemma_analysed_list_idempotent(b);
        },
        AstV::BLOCK(b, ns) => {
            lemma_analysed_list_idempotent(b);
        },
        AstV::STMT(x) => {
            lemma_analysed_idempotent(*x);
            assert(analysed(a) == AstV::STMT(Box::new(analysed(*x))));
        },
        AstV::DECL(d) => {
            match d.value {
                Some(v) => {
                    assert(ast_size(a) == 1 + decl_size(d));
                    assert(decl_size(d) == 1 + ast_size(*v));
                    lemma_analysed_idempotent(*v);
                    let d1 = analysed_decl(d);
                    assert(d1 == DeclV { value: Some(Box::new(analysed(*v))), ..d });
                    assert(analysed_decl(d1) == DeclV {
                        value: Some(Box::new(analysed(analysed(*v)))),
                        ..d1
                    });
                    assert(analysed_decl(d1) == d1);
                },
                None => {},
            }
        },
        AstV::FN(f) => {
            lemma_analysed_idempotent(*f.body);
            let f1 = FnNodeV { body: Box::new(analysed(*f.body)), ..f };
            assert(analysed(a) == AstV::FN(f1));
            assert(analysed(AstV::FN(f1)) == AstV::FN(
                FnNodeV { body: Box::new(analysed(*f1.body)), ..f1 },
            ));
        },
        AstV::RET(o) => {
            match o {
                Some(x) => {
                    lemma_analysed_idempotent(*x);
                    assert(analysed(a) == AstV::RET(Some(Box::new(analysed(*x)))));
                },
                None => {},
            }
        },
        _ => {},
    }
}

proof fn lemma_analysed_list_idempotent(s: Seq<AstV>)
    ensures
        analysed_list(analysed_list(s)) == analysed_list(s),
    decreases list_size(s), 1int,
{
    if s.len() > 0 {
        lemma_analysed_idempotent(s[0]);
        lemma_analysed_list_idempotent(s.subrange(1, s.len() as int));
        let t = analysed_list(s);
        lemma_analysed_list_size(s);
        assert(t[0] == analysed(s[0]));
        assert(t.subrange(1, t.len() as int) =~= analysed_list(s.subrange(1, s.len() as int)));
    }
}

/// The analysis keeps the size of a tree.
pub proof fn lemma_analysed_size(a: AstV)
    ensures
        ast_size(analysed(a)) == ast_size(a),
    decreases ast_size(a), 0int,
{
    match a {
        AstV::PROGRAM(b) => {
            lemma_analysed_list_size(b);
        },
        AstV::BLOCK(b, ns) => {
            lemma_analysed_list_size(b);
        },
        AstV::STMT(x) => {
            lemma_analysed_size(*x);
            assert(analysed(a) == AstV::STMT(Box::new(analysed(*x))));
        },
        AstV::DECL(d) => {
            match d.value {
                Some(v) => {
                    assert(ast_size(a) == 1 + decl_size(d));
                    assert(decl_size(d) == 1 + ast_size(*v));
                    lemma_analysed_size(*v);
                    let d1 = analysed_decl(d);
                    assert(d1 == DeclV { value: Some(Box::new(analysed(*v))), ..d });
                    assert(decl_size(d1) == 1 + ast_size(analysed(*v)));
                    assert(analysed(a) == AstV::DECL(d1));
                },
                None => {},
            }
        },
        AstV::FN(f) => {
            lemma_analysed_size(*f.body);
            let f1 = FnNodeV { body: Box::new(analysed(*f.body)), ..f };
            assert(analysed(a) == AstV::FN(f1));
        },
        AstV::RET(o) => {
            match o {
                Some(x) => {
                    lemma_analysed_size(*x);
                    assert(analysed(a) == AstV::RET(Some(Box::new(analysed(*x)))));
                },
                None => {},
            }
        },
        _ => {},
    }
}

proof fn lemma_analysed_list_size(s: Seq<AstV>)
    ensures
        list_size(analysed_list(s)) == list_size(s),
        analysed_list(s).len() == s.len(),
    decreases list_size(s), 0int,
{
    if s.len() > 0 {
        lemma_analysed_size(s[0]);
        lemma_analysed_list_size(s.subrange(1, s.len() as int));
        let t = analysed_list(s);
        assert(t[0] == analysed(s[0]));
        assert(t.subrange(1, t.len() as int) =~= analysed_list(s.subrange(1, s.len() as int)));
    }
}

/// Every reference `@x` that stands in a program, a block, a statement, a
/// declaration's value, a function's body or a `ret` value (at any depth
/// through these) is marked as moved to the heap.
pub open spec fn references_on_heap(a: AstV) -> bool
    decreases ast_size(a),
{
    match a {
        AstV::PROGRAM(b) => all_references_on_heap(b),
        AstV::BLOCK(b, _) => all_references_on_heap(b),
        AstV::STMT(x) => references_on_heap(*x),
        AstV::DECL(d) => match d.value {
            Some(v) => {
                proof {
                    assert(decl_size(d) == 1 + ast_size(*v));
                }
                references_on_heap(*v)
            },
            None => true,
        },
        AstV::FN(f) => references_on_heap(*f.body),
        AstV::RET(Some(x)) => references_on_heap(*x),
        AstV::TAKE_REFERENCE(_, _, heap) => heap,
        _ => true,
    }
}

/// `references_on_heap` holds of each of the trees.
pub open spec fn all_references_on_heap(s: Seq<AstV>) -> bool
    decreases list_size(s),
{
    s.len() == 0 || (references_on_heap(s[0]) && all_references_on_heap(
        s.subrange(1, s.len() as int),
    ))
}

/// After the analysis, every reference in a program, block, statement,
/// declaration value, function body or `ret` value, at any depth through
/// these, is moved to the heap.
pub proof fn lemma_analysed_moves_references(a: AstV)
    ensures
        references_on_heap(analysed(a)),
    decreases ast_size(a), 1int,
{
    match a {
        AstV::PROGRAM(b) => lemma_analysed_list_moves_references(b),
        AstV::BLOCK(b, ns) => lemma_analysed_list_moves_references(b),
        AstV::STMT(x) => {
            lemma_analysed_moves_references(*x);
            assert(analysed(a) == AstV::STMT(Box::new(analysed(*x))));
        },
        AstV::DECL(d) => {
            match d.value {
                Some(v) => {
                    assert(ast_size(a) == 1 + decl_size(d));
                    assert(decl_size(d) == 1 + ast_size(*v));
                    lemma_analysed_moves_references(*v);
                    let d1 = analysed_decl(d);
                    assert(d1 == DeclV { value: Some(Box::new(analysed(*v))), ..d });
                    assert(analysed(a) == AstV::DECL(d1));
                },
                None => {},
            }
        },
        AstV::FN(f) => {
            lemma_analysed_moves_references(*f.body);
            assert(analysed(a) == AstV::FN(FnNodeV { body: Box::new(analysed(*f.body)), ..f }));
        },
        AstV::RET(o) => {
            if let Some(x) = o {
                lemma_analysed_moves_references(*x);
                assert(analysed(a) == AstV::RET(Some(Box::new(analysed(*x)))));
            }
        },
        _ => {},
    }
}

proof fn lemma_analysed_list_moves_references(s: Seq<AstV>)
    ensures
        all_references_on_heap(analysed_list(s)),
    decreases list_size(s), 1int,
{
    if s.len() > 0 {
        lemma_analysed_moves_references(s[0]);
        lemma_analysed_list_moves_references(s.subrange(1, s.len() as int));
        let t = analysed_list(s);
        lemma_analysed_list_size(s);
        assert(t[0] == analysed(s[0]));
        assert(t.subrange(1, t.len() as int) =~= analysed_list(s.subrange(1, s.len() as int)));
    }
}

} // verus!

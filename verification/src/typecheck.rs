//! Types and type checking: the types of trove values with their views, the
//! scoped symbol table, and the type checker that infers declarations' types.
use vstd::prelude::*;
use vstd::pervasive::VecAdditionalExecFns;
use crate::lex::token_text;
use crate::parse::ast_size;
use crate::parse::asts_view;
use crate::parse::decl_size;
use crate::parse::decls_size;
use crate::parse::decls_view;
use crate::parse::list_size;
use crate::parse::lemma_asts_view;
use crate::parse::lemma_decls_view;
use crate::parse::Assign;
use crate::parse::AstV;
use crate::parse::Binary;
use crate::parse::Block;
use crate::parse::Call;
use crate::parse::Decl;
use crate::parse::DeclV;
use crate::parse::Directive;
use crate::parse::FnNodeV;
use crate::parse::For;
use crate::parse::If;
use crate::parse::LeftUnary;
use crate::parse::Number;
use crate::parse::NumberV;
use crate::parse::ParsedAST;
use crate::parse::Program;
use crate::parse::TakeReference;
use crate::parse::Fn as ParsedFn;
use crate::text::eq_ignore_ascii_case;
use crate::text::string_eq_ignore_ascii_case;
use crate::text::string_equal;

verus! {

/// The type of a function.
#[derive(Debug, PartialEq, Eq)]
pub struct Fn {
    pub anonymous_name: String,
    pub args: Vec<Type>,
    pub return_type: Option<Box<Type>>,
}

/// The type of a type (a struct declaration).
#[derive(Debug, PartialEq, Eq)]
pub struct TypeType {
    pub anonymous_name: String,
}

/// A type that depends on a value.
#[derive(Debug, PartialEq, Eq)]
pub struct Dependent {
    pub anonymous_name: String,
}

#[derive(Debug, PartialEq, Eq)]
pub enum Primative {
    INCOMPLETE,
    U32,
    I32,
    F32,
    BOOL,
    STRING,
    FN(Fn),
    BLOCK,
    TYPE(TypeType),
    STRUCT(String),
    DEPENDENT(Dependent),
}

#[derive(Debug, Clone, Copy, PartialEq, Eq, Structural)]
pub enum Mutability {
    MUTABLE,
    CONSTANT,
}

#[derive(Debug, PartialEq, Eq)]
pub struct Type {
    pub mutability: Mutability,
    pub primative: Primative,
    pub reference: bool,
}

/// The view of a function type: names as character sequences, argument
/// types as a sequence.
pub struct FnV {
    pub anonymous_name: Seq<char>,
    pub args: Seq<TypeV>,
    pub return_type: Option<Box<TypeV>>,
}

/// The view of a `Primative`.
pub enum PrimativeV {
    INCOMPLETE,
    U32,
    I32,
    F32,
    BOOL,
    STRING,
    FN(FnV),
    BLOCK,
    TYPE(Seq<char>),
    STRUCT(Seq<char>),
    DEPENDENT(Seq<char>),
}

/// The view of a `Type`.
pub struct TypeV {
    pub mutability: Mutability,
    pub primative: PrimativeV,
    pub reference: bool,
}

/// The views of a sequence of types.
pub open spec fn types_view(s: Seq<Type>) -> Seq<TypeV>
    decreases s,
{
    Seq::new(
        s.len(),
        |i: int|
            if 0 <= i < s.len() {
                s[i].view_type()
            } else {
                arbitrary()
            },
    )
}

/// The views of a sequence of types, element by element.
pub broadcast proof fn lemma_types_view(s: Seq<Type>)
    ensures
        #[trigger] types_view(s).len() == s.len(),
        forall|i: int| 0 <= i < s.len() ==> #[trigger] types_view(s)[i] == s[i].view_type(),
{
}

impl Type {
    pub open spec fn view_type(&self) -> TypeV
        decreases self,
    {
        TypeV {
            mutability: self.mutability,
            primative: match &self.primative {
                Primative::INCOMPLETE => PrimativeV::INCOMPLETE,
                Primative::U32 => PrimativeV::U32,
                Primative::I32 => PrimativeV::I32,
                Primative::F32 => PrimativeV::F32,
                Primative::BOOL => PrimativeV::BOOL,
                Primative::STRING => PrimativeV::STRING,
                Primative::FN(f) => PrimativeV::FN(
                    FnV {
                        anonymous_name: f.anonymous_name@,
                        args: types_view(f.args@),
                        return_type: match &f.return_type {
                            Some(t) => Some(Box::new(t.view_type())),
                            None => None,
                        },
                    },
                ),
                Primative::BLOCK => PrimativeV::BLOCK,
                Primative::TYPE(t) => PrimativeV::TYPE(t.anonymous_name@),
                Primative::STRUCT(s) => PrimativeV::STRUCT(s@),
                Primative::DEPENDENT(d) => PrimativeV::DEPENDENT(d.anonymous_name@),
            },
            reference: self.reference,
        }
    }
}

impl View for Type {
    type V = TypeV;

    open spec fn view(&self) -> TypeV {
        self.view_type()
    }
}

/// The type `primative` with the given mutability and no reference.
pub open spec fn plain_type(mutability: Mutability, primative: PrimativeV) -> TypeV {
    TypeV { mutability, primative, reference: false }
}

/// Whether a type depends on a value: a dependent type, or a function type
/// whose return type or one of whose argument types does.
pub open spec fn dependent(t: TypeV) -> bool
    decreases t,
{
    match t.primative {
        PrimativeV::FN(f) => (match f.return_type {
            Some(r) => dependent(*r),
            None => false,
        }) || any_dependent(f.args),
        PrimativeV::DEPENDENT(_) => true,
        _ => false,
    }
}

/// Whether one of the types depends on a value.
pub open spec fn any_dependent(s: Seq<TypeV>) -> bool
    decreases s,
{
    if s.len() == 0 {
        false
    } else {
        dependent(s[0]) || any_dependent(s.subrange(1, s.len() as int))
    }
}

/// The types whose size is known.
pub open spec fn sized(t: TypeV) -> bool {
    match t.primative {
        PrimativeV::U32 | PrimativeV::I32 | PrimativeV::F32 | PrimativeV::STRUCT(_) => true,
        _ => false,
    }
}

/// The size in bytes of a sized type (a struct counts as 12 bytes).
pub open spec fn size_of_type(t: TypeV) -> nat {
    match t.primative {
        PrimativeV::STRUCT(_) => 12,
        _ => 4,
    }
}

impl Type {
    /// Whether this type depends on a value (see `dependent`).
    pub fn is_dependent(&self) -> (r: bool)
        ensures
            r == dependent(self@),
        decreases self,
    {
        match &self.primative {
            Primative::FN(f) => {
                let mut is_dependent = false;
                match &f.return_type {
                    Some(rt) => {
                        if rt.is_dependent() {
                            is_dependent = true;
                        }
                    },
                    None => {},
                }
                let ghost from_return = is_dependent;
                proof {
                    assert(types_view(f.args@).subrange(0, 0) =~= Seq::<TypeV>::empty());
                }
                let mut i: usize = 0;
                while i < f.args.len()
                    invariant
                        i <= f.args@.len(),
                        self.primative is FN && self.primative->FN_0 == *f,
                        from_return == match f.return_type {
                            Some(rt) => dependent(rt@),
                            None => false,
                        },
                        is_dependent == (from_return || any_dependent(
                            types_view(f.args@).subrange(0, i as int),
                        )),
                    decreases f.args@.len() - i,
                {
                    proof {
                        lemma_any_dependent_push(types_view(f.args@), i as int);
                    }
                    let a = &f.args[i];
                    proof {
                        lemma_arg_decreases(self, i as int);
                    }
                    if a.is_dependent() {
                        is_dependent = true;
                    }
                    i = i + 1;
                }
                assert(types_view(f.args@).subrange(0, i as int) =~= types_view(f.args@));
                is_dependent
            },
            Primative::DEPENDENT(_) => true,
            _ => false,
        }
    }

    /// The size of this type in bytes.
    pub fn size_in_bytes(&self) -> (r: usize)
        requires
            sized(self@),
        ensures
            r == size_of_type(self@),
    {
        match &self.primative {
            Primative::STRUCT(_) => 12,
            _ => 4,
        }
    }

    /// Whether a reference of this type's primative can stand for a value of
    /// `other`'s: the same primative, `self` not a reference and `other` one.
    fn can_be_autocast(&self, other: Type) -> (r: bool)
        ensures
            r == (self@.primative == other@.primative && !self.reference && other.reference),
    {
        if primative_equal(&self.primative, &other.primative) && (!self.reference
            && other.reference) {
            return true;
        }
        false
    }

    /// Whether the two types have the same primative.
    pub fn shallow_equal(&self, other: Type) -> (r: bool)
        ensures
            r == (self@.primative == other@.primative),
    {
        if primative_equal(&self.primative, &other.primative) {
            return true
        }
        false
    }

    /// A copy of this type.
    pub fn copied(&self) -> (r: Type)
        ensures
            r@ == self@,
        decreases self,
    {
        let primative = match &self.primative {
            Primative::INCOMPLETE => Primative::INCOMPLETE,
            Primative::U32 => Primative::U32,
            Primative::I32 => Primative::I32,
            Primative::F32 => Primative::F32,
            Primative::BOOL => Primative::BOOL,
            Primative::STRING => Primative::STRING,
            Primative::FN(f) => {
                let mut args: Vec<Type> = Vec::new();
                let mut i: usize = 0;
                while i < f.args.len()
                    invariant
                        i <= f.args@.len(),
                        self.primative is FN && self.primative->FN_0 == *f,
                        args@.len() == i,
                        forall|j: int|
                            0 <= j < i ==> #[trigger] args@[j].view_type() == f.args@[j].view_type(),
                    decreases f.args@.len() - i,
                {
                    let a = &f.args[i];
                    proof {
                        lemma_arg_decreases(self, i as int);
                    }
                    args.push(a.copied());
                    i = i + 1;
                }
                proof {
                    lemma_types_view(args@);
                    lemma_types_view(f.args@);
                }
                assert(types_view(args@) =~= types_view(f.args@));
                let return_type = match &f.return_type {
                    Some(t) => Some(Box::new(t.copied())),
                    None => None,
                };
                Primative::FN(Fn { anonymous_name: f.anonymous_name.clone(), args, return_type })
            },
            Primative::BLOCK => Primative::BLOCK,
            Primative::TYPE(t) => Primative::TYPE(
                TypeType { anonymous_name: t.anonymous_name.clone() },
            ),
            Primative::STRUCT(s) => Primative::STRUCT(s.clone()),
            Primative::DEPENDENT(d) => Primative::DEPENDENT(
                Dependent { anonymous_name: d.anonymous_name.clone() },
            ),
        };
        Type { mutability: self.mutability, primative, reference: self.reference }
    }
}

proof fn lemma_prim_arg_decreases(p: &Primative, i: int)
    requires
        p is FN,
        0 <= i < p->FN_0.args@.len(),
    ensures
        decreases_to!(p => p->FN_0.args@[i]),
{
    let f = p->FN_0;
    assert(decreases_to!(p => f));
    assert(decreases_to!(f => f.args));
    assert(decreases_to!(f.args => f.args@));
    assert(decreases_to!(f.args@ => f.args@[i]));
}

proof fn lemma_arg_decreases(t: &Type, i: int)
    requires
        t.primative is FN,
        0 <= i < t.primative->FN_0.args@.len(),
    ensures
        decreases_to!(t => t.primative->FN_0.args@[i]),
{
    assert(decreases_to!(t => t.primative));
    lemma_prim_arg_decreases(&t.primative, i);
}

proof fn lemma_any_dependent_push(s: Seq<TypeV>, i: int)
    requires
        0 <= i < s.len(),
    ensures
        any_dependent(s.subrange(0, i + 1)) == (any_dependent(s.subrange(0, i)) || dependent(
            s[i],
        )),
    decreases i,
{
    if i == 0 {
        assert(s.subrange(0, 1).subrange(1, 1) =~= Seq::<TypeV>::empty());
        assert(s.subrange(0, 1)[0] == s[0]);
        assert(s.subrange(0, 0).len() == 0);
        assert(!any_dependent(s.subrange(0, 1).subrange(1, 1)));
        assert(!any_dependent(s.subrange(0, 0)));
    } else {
        let t = s.subrange(1, s.len() as int);
        lemma_any_dependent_push(t, i - 1);
        assert(t[i - 1] == s[i]);
        assert(s.subrange(0, i + 1)[0] == s[0]);
        assert(s.subrange(0, i)[0] == s[0]);
        assert(s.subrange(0, i + 1).subrange(1, i + 1) =~= s.subrange(1, s.len() as int).subrange(
            0,
            i,
        ));
        assert(s.subrange(0, i).subrange(1, i) =~= s.subrange(1, s.len() as int).subrange(0, i - 1));
    }
}

/// A type with the given primative, constant and not a reference.
pub fn constant_type(primative: Primative) -> (r: Type)
    ensures
        r@ == plain_type(Mutability::CONSTANT, primative@),
{
    Type { mutability: Mutability::CONSTANT, primative, reference: false }
}

impl View for Primative {
    type V = PrimativeV;

    open spec fn view(&self) -> PrimativeV {
        Type { mutability: Mutability::CONSTANT, primative: *self, reference: false }@.primative
    }
}

/// Whether two primatives are equal (their views are).
pub fn primative_equal(a: &Primative, b: &Primative) -> (r: bool)
    ensures
        r == (a@ == b@),
    decreases a,
{
    match (a, b) {
        (Primative::INCOMPLETE, Primative::INCOMPLETE) => true,
        (Primative::U32, Primative::U32) => true,
        (Primative::I32, Primative::I32) => true,
        (Primative::F32, Primative::F32) => true,
        (Primative::BOOL, Primative::BOOL) => true,
        (Primative::STRING, Primative::STRING) => true,
        (Primative::BLOCK, Primative::BLOCK) => true,
        (Primative::TYPE(x), Primative::TYPE(y)) => string_equal(
            &x.anonymous_name,
            &y.anonymous_name,
        ),
        (Primative::STRUCT(x), Primative::STRUCT(y)) => string_equal(x, y),
        (Primative::DEPENDENT(x), Primative::DEPENDENT(y)) => string_equal(
            &x.anonymous_name,
            &y.anonymous_name,
        ),
        (Primative::FN(f), Primative::FN(g)) => {
            if !string_equal(&f.anonymous_name, &g.anonymous_name) {
                return false;
            }
            let same_return = match (&f.return_type, &g.return_type) {
                (Some(x), Some(y)) => type_equal(x, y),
                (None, None) => true,
                _ => false,
            };
            if !same_return {
                return false;
            }
            if f.args.len() != g.args.len() {
                assert(types_view(f.args@).len() != types_view(g.args@).len());
                return false;
            }
            let mut i: usize = 0;
            while i < f.args.len()
                invariant
                    i <= f.args@.len(),
                    a is FN && a->FN_0 == *f,
                    b is FN && b->FN_0 == *g,
                    f.args@.len() == g.args@.len(),
                    forall|j: int|
                        0 <= j < i ==> #[trigger] f.args@[j].view_type() == g.args@[j].view_type(),
                decreases f.args@.len() - i,
            {
                let x = &f.args[i];
                proof {
                    lemma_prim_arg_decreases(a, i as int);
                }
                proof {
                    lemma_types_view(g.args@);
                    lemma_types_view(f.args@);
                }
                if !type_equal(x, &g.args[i]) {
                    assert(types_view(f.args@)[i as int] != types_view(g.args@)[i as int]);
                    return false;
                }
                i = i + 1;
            }
            proof {
                lemma_types_view(g.args@);
                lemma_types_view(f.args@);
            }
            assert(types_view(f.args@) =~= types_view(g.args@));
            true
        },
        _ => false,
    }
}

/// Whether two types are equal (their views are).
pub fn type_equal(a: &Type, b: &Type) -> (r: bool)
    ensures
        r == (a@ == b@),
    decreases a,
{
    a.mutability == b.mutability && a.reference == b.reference && primative_equal(
        &a.primative,
        &b.primative,
    )
}

// ---------------------------------------------------------------------------
// The symbol table.
// ---------------------------------------------------------------------------

/// The map that a list of entries describes: each key to the item of its last
/// entry.
pub open spec fn entries_map<T>(l: Seq<(String, T)>) -> Map<Seq<char>, T>
    decreases l.len(),
{
    if l.len() == 0 {
        Map::empty()
    } else {
        entries_map(l.drop_last()).insert(l.last().0@, l.last().1)
    }
}

/// No key occurs twice among the entries.
pub open spec fn keys_unique<T>(l: Seq<(String, T)>) -> bool {
    forall|i: int, j: int| 0 <= i < j < l.len() ==> l[i].0@ != l[j].0@
}

proof fn lemma_entries_map_lookup<T>(l: Seq<(String, T)>, i: int)
    requires
        keys_unique(l),
        0 <= i < l.len(),
    ensures
        entries_map(l).contains_key(l[i].0@),
        entries_map(l)[l[i].0@] == l[i].1,
    decreases l.len(),
{
    if i < l.len() - 1 {
        lemma_entries_map_lookup(l.drop_last(), i);
    }
}

proof fn lemma_entries_map_absent<T>(l: Seq<(String, T)>, k: Seq<char>)
    requires
        forall|i: int| 0 <= i < l.len() ==> l[i].0@ != k,
    ensures
        !entries_map(l).contains_key(k),
    decreases l.len(),
{
    if l.len() > 0 {
        lemma_entries_map_absent(l.drop_last(), k);
    }
}

proof fn lemma_entries_map_update<T>(l: Seq<(String, T)>, i: int, e: (String, T))
    requires
        keys_unique(l),
        0 <= i < l.len(),
        e.0@ == l[i].0@,
    ensures
        entries_map(l.update(i, e)) == entries_map(l).insert(e.0@, e.1),
        keys_unique(l.update(i, e)),
    decreases l.len(),
{
    let u = l.update(i, e);
    if i == l.len() - 1 {
        assert(u.drop_last() =~= l.drop_last());
        lemma_entries_map_absent(l.drop_last(), e.0@);
        assert(entries_map(l.drop_last()).insert(e.0@, e.1) =~= entries_map(l.drop_last()).insert(
            e.0@,
            l[i].1,
        ).insert(e.0@, e.1));
    } else {
        lemma_entries_map_update(l.drop_last(), i, e);
        assert(u.drop_last() =~= l.drop_last().update(i, e));
        assert(l.last().0@ != e.0@);
        assert(entries_map(u) =~= entries_map(l).insert(e.0@, e.1));
    }
}

/// A stack of scopes, each mapping names to items.
#[derive(Debug)]
pub struct SymTable<T> {
    scope: usize,
    symbols: Vec<Vec<(String, T)>>,
}

impl<T> SymTable<T> {
    /// The innermost scope is `scope`, and no scope holds a name twice.
    pub closed spec fn wf(&self) -> bool {
        &&& self.scope + 1 == self.symbols@.len()
        &&& forall|i: int| 0 <= i < self.symbols@.len() ==> keys_unique(#[trigger] self.symbols@[i]@)
    }

    /// The scopes, outermost first.
    pub closed spec fn scopes(&self) -> Seq<Map<Seq<char>, T>> {
        Seq::new(self.symbols@.len(), |i: int| entries_map(self.symbols@[i]@))
    }

    /// The index of the innermost scope.
    pub closed spec fn scope_index(&self) -> nat {
        self.scope as nat
    }

    /// The innermost scope.
    pub open spec fn current(&self) -> Map<Seq<char>, T> {
        self.scopes()[self.scope_index() as int]
    }

    /// A well-formed table has one scope more than the index of its innermost
    /// scope: the innermost scope is the last one.
    pub proof fn lemma_scopes_len(&self)
        requires
            self.wf(),
        ensures
            self.scopes().len() == self.scope_index() + 1,
    {
    }

    /// A table with one empty scope.
    pub fn new() -> (r: Self)
        ensures
            r.wf(),
            r.scopes().len() == r.scope_index() + 1,
            r.scopes() == seq![Map::<Seq<char>, T>::empty()],
            r.scope_index() == 0,
    {
        let mut symbols: Vec<Vec<(String, T)>> = Vec::new();
        symbols.push(Vec::new());
        let r = SymTable { scope: 0, symbols };
        assert(r.scopes() =~= seq![Map::<Seq<char>, T>::empty()]);
        r
    }

    /// Maps `key` to `item` in the innermost scope.
    pub fn add(&mut self, key: String, item: T)
        requires
            old(self).wf(),
        ensures
            final(self).wf(),
            final(self).scopes().len() == final(self).scope_index() + 1,
            final(self).scope_index() == old(self).scope_index(),
            final(self).scopes() == old(self).scopes().update(
                old(self).scope_index() as int,
                old(self).current().insert(key@, item),
            ),
    {
        let mut inner: Vec<(String, T)> = Vec::new();
        self.symbols.set_and_swap(self.scope, &mut inner);
        let ghost l = inner@;
        assert(keys_unique(l));
        let mut i: usize = 0;
        let mut found = false;
        while i < inner.len()
            invariant_except_break
                inner@ == l,
                i <= l.len(),
                !found,
                forall|j: int| 0 <= j < i ==> l[j].0@ != key@,
            ensures
                inner@ == l,
                i <= l.len(),
                found ==> i < l.len() && l[i as int].0@ == key@,
                !found ==> forall|j: int| 0 <= j < l.len() ==> l[j].0@ != key@,
            decreases l.len() - i,
        {
            if string_equal(&inner[i].0, &key) {
                found = true;
                break;
            }
            i = i + 1;
        }
        if found {
            proof {
                lemma_entries_map_update(l, i as int, (key, item));
            }
            inner.set(i, (key, item));
        } else {
            proof {
                lemma_entries_map_absent(l, key@);
                assert(l.push((key, item)).drop_last() =~= l);
            }
            inner.push((key, item));
            assert(keys_unique(inner@));
        }
        let ghost updated = inner@;
        self.symbols.set_and_swap(self.scope, &mut inner);
        proof {
            assert(self.symbols@[self.scope as int]@ == updated);
            assert(keys_unique(updated));
            assert(self.scopes() =~= old(self).scopes().update(
                old(self).scope_index() as int,
                old(self).current().insert(key@, item),
            ));
        }
    }

    /// The item that `key` maps to in the innermost scope.
    pub fn get(&self, key: String) -> (r: Option<&T>)
        requires
            self.wf(),
        ensures
            match r {
                Some(x) => self.current().contains_key(key@) && *x == self.current()[key@],
                None => !self.current().contains_key(key@),
            },
    {
        let inner = &self.symbols[self.scope];
        let ghost l = inner@;
        assert(keys_unique(l));
        assert(self.current() == entries_map(l));
        let mut i: usize = 0;
        while i < inner.len()
            invariant
                inner@ == l,
                keys_unique(l),
                self.current() == entries_map(l),
                i <= l.len(),
                forall|j: int| 0 <= j < i ==> l[j].0@ != key@,
            decreases l.len() - i,
        {
            if string_equal(&inner[i].0, &key) {
                proof {
                    lemma_entries_map_lookup(l, i as int);
                }
                return Some(&inner[i].1);
            }
            i = i + 1;
        }
        proof {
            lemma_entries_map_absent(l, key@);
        }
        None
    }

    /// Opens a new, empty, innermost scope.
    pub fn new_scope(&mut self)
        requires
            old(self).wf(),
        ensures
            final(self).wf(),
            final(self).scopes().len() == final(self).scope_index() + 1,
            final(self).scope_index() == old(self).scope_index() + 1,
            final(self).scopes() == old(self).scopes().push(Map::empty()),
    {
        let n: usize = self.symbols.len();
        assert(self.scope < n);
        self.scope = self.scope + 1;
        self.symbols.push(Vec::new());
        assert(self.scopes() =~= old(self).scopes().push(Map::empty()));
    }

    /// Closes the innermost scope.
    pub fn leave_scope(&mut self)
        requires
            old(self).wf(),
            old(self).scope_index() > 0,
        ensures
            final(self).wf(),
            final(self).scopes().len() == final(self).scope_index() + 1,
            final(self).scope_index() == old(self).scope_index() - 1,
            final(self).scopes() == old(self).scopes().drop_last(),
    {
        self.scope = self.scope - 1;
        self.symbols.pop();
        assert(self.scopes() =~= old(self).scopes().drop_last());
    }
}

/// What `add` makes of a table's scopes: the innermost scope maps `key` to
/// `item`.
pub open spec fn scopes_after_add<T>(t: SymTable<T>, key: Seq<char>, item: T) -> Seq<
    Map<Seq<char>, T>,
> {
    t.scopes().update(t.scope_index() as int, t.current().insert(key, item))
}

/// After `add(key, item)`, `get(key)` finds `item`, and every other name is
/// found as before: `u` is the table `add` leaves (its scopes and innermost
/// index as `add` ensures).
pub proof fn lemma_get_after_add<T>(t: SymTable<T>, u: SymTable<T>, key: Seq<char>, item: T, other: Seq<char>)
    requires
        t.wf(),
        u.wf(),
        u.scope_index() == t.scope_index(),
        u.scopes() == scopes_after_add(t, key, item),
    ensures
        u.current().contains_key(key),
        u.current()[key] == item,
        other != key ==> (u.current().contains_key(other) == t.current().contains_key(other)),
        other != key && t.current().contains_key(other) ==> u.current()[other] == t.current()[other],
        forall|i: int| 0 <= i < t.scopes().len() && i != t.scope_index() ==> #[trigger] u.scopes()[i] == t.scopes()[i],
{
}

/// `add` changes only the innermost scope: the outer scopes are kept. `u` is
/// the table `add(key, item)` leaves of `t`.
pub proof fn lemma_add_keeps_outer_scopes<T>(t: SymTable<T>, u: SymTable<T>, key: Seq<char>, item: T)
    requires
        t.wf(),
        u.scope_index() == t.scope_index(),
        u.scopes() == scopes_after_add(t, key, item),
    ensures
        u.scopes().len() == t.scopes().len(),
        u.scopes().drop_last() == t.scopes().drop_last(),
{
    t.lemma_scopes_len();
    assert(u.scopes().drop_last() =~= t.scopes().drop_last());
}

/// Leaving a scope opened after `t` gives back `t`'s scopes, whatever was
/// added to the opened scope meanwhile: `u` is a table that `new_scope`
/// opened on `t`, followed by any number of `add`s (which keep the scopes
/// below the innermost one, see `lemma_add_keeps_outer_scopes`), and `v` the
/// table `leave_scope` leaves of `u`.
pub proof fn lemma_leave_undoes_new_scope<T>(t: SymTable<T>, u: SymTable<T>, v: SymTable<T>)
    requires
        t.wf(),
        u.scope_index() == t.scope_index() + 1,
        u.scopes().drop_last() == t.scopes(),
        v.scope_index() == u.scope_index() - 1,
        v.scopes() == u.scopes().drop_last(),
    ensures
        v.scopes() == t.scopes(),
        v.scope_index() == t.scope_index(),
        v.current() == t.current(),
{
}

/// `new_scope` on `t` gives a table whose scopes below the innermost one are
/// `t`'s, as `lemma_leave_undoes_new_scope` asks.
pub proof fn lemma_new_scope_keeps_outer_scopes<T>(t: SymTable<T>, u: SymTable<T>)
    requires
        u.scopes() == t.scopes().push(Map::empty()),
    ensures
        u.scopes().drop_last() == t.scopes(),
{
    assert(t.scopes().push(Map::empty()).drop_last() =~= t.scopes());
}

/// A scope just opened holds no name, so `get` finds nothing in it, whatever
/// the outer scopes hold.
pub proof fn lemma_new_scope_is_empty<T>(t: SymTable<T>, u: SymTable<T>, key: Seq<char>)
    requires
        t.wf(),
        u.scope_index() == t.scope_index() + 1,
        u.scopes() == t.scopes().push(Map::empty()),
    ensures
        !u.current().contains_key(key),
{
    assert(t.scopes().len() == t.scope_index() + 1);
}

// ---------------------------------------------------------------------------
// Type checking. The checker walks the tree in order, keeping the types of
// the declared names in the innermost scope of its symbol table: it infers
// the types of declarations that ask for it, names function and struct types
// after their declarations, and records each reference's operand type. The
// functions below give, for the names' types before a tree, the types after
// it, the checked tree and the tree's type; `None` where the checker fails
// (a name that is not declared, an operand without a type, a function
// whose type is not a function type).
// ---------------------------------------------------------------------------

/// The types of the declared names.
pub type Env = Map<Seq<char>, TypeV>;

/// `t` named `name` where it is a function or struct type.
pub open spec fn renamed(t: TypeV, name: Seq<char>) -> TypeV {
    match t.primative {
        PrimativeV::FN(f) => TypeV { primative: PrimativeV::FN(FnV { anonymous_name: name, ..f }), ..t },
        PrimativeV::TYPE(_) => TypeV { primative: PrimativeV::TYPE(name), ..t },
        _ => t,
    }
}

/// The result type of a function type.
pub open spec fn return_of(f: FnV) -> Option<TypeV> {
    match f.return_type {
        Some(r) => Some(*r),
        None => None,
    }
}

/// Type checks a tree.
pub open spec fn tc_ast(m: Env, a: AstV) -> Option<(Env, AstV, Option<TypeV>)>
    decreases ast_size(a),
{
    match a {
        AstV::STMT(x) => match tc_ast(m, *x) {
            Some((m1, x1, t)) => Some((m1, AstV::STMT(Box::new(x1)), t)),
            None => None,
        },
        AstV::PROGRAM(b) => match tc_list(m, b) {
            Some((m1, b1)) => Some((m1, AstV::PROGRAM(b1), None)),
            None => None,
        },
        AstV::BLOCK(b, ns) => match tc_list(m, b) {
            Some((m1, b1)) => Some((m1, AstV::BLOCK(b1, ns), None)),
            None => None,
        },
        AstV::IF(c, b, e) => match tc_ast(m, *c) {
            None => None,
            Some((m1, c1, _)) => match tc_ast(m1, *b) {
                None => None,
                Some((m2, b1, _)) => match e {
                    Some(x) => match tc_ast(m2, *x) {
                        Some((m3, x1, _)) => Some(
                            (m3, AstV::IF(Box::new(c1), Box::new(b1), Some(Box::new(x1))), None),
                        ),
                        None => None,
                    },
                    None => Some((m2, AstV::IF(Box::new(c1), Box::new(b1), None), None)),
                },
            },
        },
        AstV::FOR(x) => match tc_ast(m, *x) {
            Some((m1, x1, _)) => Some((m1, AstV::FOR(Box::new(x1)), None)),
            None => None,
        },
        AstV::RET(o) => match o {
            Some(x) => match tc_ast(m, *x) {
                Some((m1, x1, t)) => Some((m1, AstV::RET(Some(Box::new(x1))), t)),
                None => None,
            },
            None => Some((m, a, None)),
        },
        AstV::DECL(d) => match tc_decl(m, d) {
            Some((m1, d1)) => Some((m1, AstV::DECL(d1), None)),
            None => None,
        },
        AstV::ASSIGN(l, r) => match tc_ast(m, *l) {
            None => None,
            Some((m1, l1, tl)) => match tc_ast(m1, *r) {
                None => None,
                Some((m2, r1, tr)) => if tl is Some && tr is Some {
                    Some((m2, AstV::ASSIGN(Box::new(l1), Box::new(r1)), None))
                } else {
                    None
                },
            },
        },
        AstV::FN(f) => match tc_decls(m, f.params) {
            None => None,
            Some((m1, ps)) => match tc_ast(m1, *f.body) {
                None => None,
                Some((m2, b1, _)) => match f.typ.primative {
                    PrimativeV::FN(pf) => Some(
                        (m2, AstV::FN(FnNodeV { typ: f.typ, params: ps, body: Box::new(b1) }), return_of(pf)),
                    ),
                    _ => None,
                },
            },
        },
        AstV::NUMBER(NumberV::INTEGER(_)) => Some(
            (m, a, Some(plain_type(Mutability::CONSTANT, PrimativeV::I32))),
        ),
        AstV::NUMBER(NumberV::FLOAT(_)) => Some(
            (m, a, Some(plain_type(Mutability::CONSTANT, PrimativeV::F32))),
        ),
        AstV::IDENTIFIER(name) => if m.contains_key(name) {
            Some((m, a, Some(m[name])))
        } else {
            None
        },
        AstV::STRING(_) => Some((m, a, Some(plain_type(Mutability::CONSTANT, PrimativeV::STRING)))),
        AstV::TAKE_REFERENCE(x, _, heap) => match tc_ast(m, *x) {
            Some((m1, x1, Some(t))) => Some(
                (m1, AstV::TAKE_REFERENCE(Box::new(x1), t, heap), Some(TypeV { reference: true, ..t })),
            ),
            _ => None,
        },
        AstV::BINARY(l, op, r) => match tc_ast(m, *r) {
            None => None,
            Some((m1, r1, _)) => match tc_ast(m1, *l) {
                Some((m2, l1, Some(t))) => Some(
                    (m2, AstV::BINARY(Box::new(l1), op, Box::new(r1)), Some(t)),
                ),
                _ => None,
            },
        },
        AstV::CALL(callee, args) => match tc_list(m, args) {
            None => None,
            Some((m1, args1)) => {
                let c = AstV::CALL(callee, args1);
                match *callee {
                    AstV::IDENTIFIER(name) => if eq_ignore_ascii_case(name, "println"@) {
                        Some((m1, c, None))
                    } else if m1.contains_key(name) {
                        match m1[name].primative {
                            PrimativeV::FN(f) => Some((m1, c, return_of(f))),
                            _ => Some((m1, c, None)),
                        }
                    } else {
                        None
                    },
                    _ => Some((m1, c, None)),
                }
            },
        },
        _ => Some((m, a, None)),
    }
}

/// Type checks trees in order.
pub open spec fn tc_list(m: Env, s: Seq<AstV>) -> Option<(Env, Seq<AstV>)>
    decreases list_size(s),
{
    if s.len() == 0 {
        Some((m, s))
    } else {
        match tc_ast(m, s[0]) {
            None => None,
            Some((m1, x, _)) => match tc_list(m1, s.subrange(1, s.len() as int)) {
                Some((m2, rest)) => Some((m2, seq![x] + rest)),
                None => None,
            },
        }
    }
}

/// Type checks a declaration and records its type under its name.
pub open spec fn tc_decl(m: Env, d: DeclV) -> Option<(Env, DeclV)>
    decreases decl_size(d),
{
    let name = token_text(d.identifier);
    let checked = match d.value {
        None => Some((m, d)),
        Some(v) => match *v {
            AstV::FN(f) => match f.typ.primative {
                PrimativeV::FN(pf) => {
                    let ftyp = TypeV {
                        primative: PrimativeV::FN(FnV { anonymous_name: name, ..pf }),
                        ..f.typ
                    };
                    match tc_decls(m, f.params) {
                        None => None,
                        Some((m1, ps)) => match tc_ast(m1, *f.body) {
                            None => None,
                            Some((m2, b1, _)) => Some(
                                (
                                    m2,
                                    DeclV {
                                        typ: ftyp,
                                        value: Some(
                                            Box::new(
                                                AstV::FN(
                                                    FnNodeV { typ: ftyp, params: ps, body: Box::new(b1) },
                                                ),
                                            ),
                                        ),
                                        ..d
                                    },
                                ),
                            ),
                        },
                    }
                },
                _ => None,
            },
            _ => match tc_ast(m, *v) {
                None => None,
                Some((m1, v1, vt)) => {
                    let typ = if d.requires_infering {
                        match vt {
                            Some(t) => Some(
                                TypeV { primative: t.primative, reference: t.reference, ..d.typ },
                            ),
                            None => None,
                        }
                    } else {
                        Some(d.typ)
                    };
                    if typ is None || ast_size(v1) != ast_size(*v) {
                        None
                    } else {
                        match tc_ast(m1, v1) {
                            Some((m2, v2, _)) => Some(
                                (m2, DeclV { typ: typ.unwrap(), value: Some(Box::new(v2)), ..d }),
                            ),
                            None => None,
                        }
                    }
                },
            },
        },
    };
    match checked {
        Some((m1, d1)) => {
            let t = renamed(d1.typ, name);
            Some((m1.insert(name, t), DeclV { typ: t, ..d1 }))
        },
        None => None,
    }
}

/// Type checks declarations in order.
pub open spec fn tc_decls(m: Env, s: Seq<DeclV>) -> Option<(Env, Seq<DeclV>)>
    decreases decls_size(s),
{
    if s.len() == 0 {
        Some((m, s))
    } else {
        match tc_decl(m, s[0]) {
            None => None,
            Some((m1, d)) => match tc_decls(m1, s.subrange(1, s.len() as int)) {
                Some((m2, rest)) => Some((m2, seq![d] + rest)),
                None => None,
            },
        }
    }
}

/// The view of an optional type.
pub open spec fn opt_type(t: Option<Type>) -> Option<TypeV> {
    match t {
        Some(x) => Some(x@),
        None => None,
    }
}

/// `r` is what the checking function gives (`s`), with `m` the types after it.
pub open spec fn checked(r: Option<(ParsedAST, Option<Type>)>, s: Option<(Env, AstV, Option<TypeV>)>, m: Env) -> bool {
    match r {
        Some((a, t)) => s == Some((m, a@, opt_type(t))),
        None => s is None,
    }
}

proof fn lemma_env_insert(tab: Map<Seq<char>, Type>, k: Seq<char>, t: Type)
    ensures
        tab.insert(k, t).map_values(|x: Type| x@) == tab.map_values(|x: Type| x@).insert(k, t@),
{
    assert(tab.insert(k, t).map_values(|x: Type| x@) =~= tab.map_values(|x: Type| x@).insert(k, t@));
}

proof fn lemma_env_lookup(tab: Map<Seq<char>, Type>, k: Seq<char>)
    ensures
        tab.map_values(|x: Type| x@).contains_key(k) == tab.contains_key(k),
        tab.contains_key(k) ==> tab.map_values(|x: Type| x@)[k] == tab[k]@,
{
}

/// The type checker's state: the types of the declared names.
pub struct TypeChecker {
    pub sym_table: SymTable<Type>,
}

impl TypeChecker {
    pub open spec fn wf(&self) -> bool {
        self.sym_table.wf()
    }

    /// The types of the names declared so far (those of the innermost scope).
    pub open spec fn env(&self) -> Env {
        self.sym_table.current().map_values(|t: Type| t@)
    }

    /// `self`'s symbol table has the innermost scope index and the scopes
    /// below the innermost one of `before`'s: checking declares names in the
    /// innermost scope only.
    pub open spec fn keeps_outer_scopes(&self, before: TypeChecker) -> bool {
        &&& self.sym_table.scope_index() == before.sym_table.scope_index()
        &&& self.sym_table.scopes().len() == before.sym_table.scopes().len()
        &&& self.sym_table.scopes().drop_last() == before.sym_table.scopes().drop_last()
    }

    /// A checker that knows no names.
    pub fn new() -> (r: TypeChecker)
        ensures
            r.wf(),
            r.env() == Map::<Seq<char>, TypeV>::empty(),
            r.sym_table.scopes() == seq![Map::<Seq<char>, Type>::empty()],
            r.sym_table.scope_index() == 0,
    {
        let r = TypeChecker { sym_table: SymTable::new() };
        assert(r.env() =~= Map::<Seq<char>, TypeV>::empty());
        r
    }

    /// Type checks a tree (see `tc_ast`).
    pub fn type_check(&mut self, tmp: Box<ParsedAST>) -> (r: Box<ParsedAST>)
        requires
            old(self).wf(),
            tc_ast(old(self).env(), tmp@) is Some,
        ensures
            final(self).wf(),
            final(self).keeps_outer_scopes(*old(self)),
            tc_ast(old(self).env(), tmp@) == Some((final(self).env(), r@, tc_ast(old(self).env(), tmp@).unwrap().2)),
    {
        let r = self.try_type_check(tmp);
        r.unwrap()
    }

    /// Type checks a tree where the checker accepts it (see `tc_ast`); `None`
    /// where it does not, with the names declared until then recorded.
    pub fn try_type_check(&mut self, tmp: Box<ParsedAST>) -> (r: Option<Box<ParsedAST>>)
        requires
            old(self).wf(),
        ensures
            final(self).wf(),
            final(self).keeps_outer_scopes(*old(self)),
            match r {
                Some(a) => tc_ast(old(self).env(), tmp@) is Some && tc_ast(old(self).env(), tmp@).unwrap().0 == final(self).env()
                    && tc_ast(old(self).env(), tmp@).unwrap().1 == a@,
                None => tc_ast(old(self).env(), tmp@) is None,
            },
    {
        match self.type_check_ast(*tmp) {
            Some((a, _)) => Some(Box::new(a)),
            None => None,
        }
    }

    fn type_check_ast(&mut self, ast: ParsedAST) -> (r: Option<(ParsedAST, Option<Type>)>)
        requires
            old(self).wf(),
        ensures
            final(self).wf(),
            final(self).keeps_outer_scopes(*old(self)),
            checked(r, tc_ast(old(self).env(), ast@), final(self).env()),
            r matches Some((a, _)) ==> ast_size(a@) == ast_size(ast@),
        decreases ast_size(ast@), 1int,
    {
        match ast {
            ParsedAST::DIRECTIVE(directive) => Some((ParsedAST::DIRECTIVE(directive), None)),
            ParsedAST::STMT(stmt) => match self.type_check_ast(*stmt) {
                Some((s1, t)) => Some((ParsedAST::STMT(Box::new(s1)), t)),
                None => None,
            },
            ParsedAST::PROGRAM(program) => match self.type_check_list(program.body) {
                Some(body) => Some((ParsedAST::PROGRAM(Program { body }), None)),
                None => None,
            },
            ParsedAST::BLOCK(block) => match self.type_check_list(block.body) {
                Some(body) => Some((ParsedAST::BLOCK(Block { body, new_scope: block.new_scope }), None)),
                None => None,
            },
            ParsedAST::IF(iff) => self.type_check_if(iff),
            ParsedAST::FOR(forr) => match self.type_check_ast(*forr.body) {
                Some((b1, _)) => Some((ParsedAST::FOR(For { body: Box::new(b1) }), None)),
                None => None,
            },
            ParsedAST::RET(ret) => match ret {
                Some(val) => match self.type_check_ast(*val) {
                    Some((v1, t)) => Some((ParsedAST::RET(Some(Box::new(v1))), t)),
                    None => None,
                },
                None => Some((ParsedAST::RET(None), None)),
            },
            ParsedAST::DECL(decl) => match self.type_check_decl(decl) {
                Some(d1) => Some((ParsedAST::DECL(d1), None)),
                None => None,
            },
            ParsedAST::ASSIGN(assign) => self.type_check_assign(assign),
            ParsedAST::FN(func) => match self.type_check_func(func) {
                Some((f1, t)) => Some((ParsedAST::FN(f1), t)),
                None => None,
            },
            ParsedAST::NUMBER(num) => {
                let t = self.type_check_num(&num);
                Some((ParsedAST::NUMBER(num), Some(t)))
            },
            ParsedAST::IDENTIFIER(identifier) => match self.type_check_identifier(&identifier) {
                Some(t) => Some((ParsedAST::IDENTIFIER(identifier), Some(t))),
                None => None,
            },
            ParsedAST::STRING(string) => {
                let t = self.type_check_string(&string);
                Some((ParsedAST::STRING(string), Some(t)))
            },
            ParsedAST::LEFT_UNARY(left_unary) => self.type_check_left_unary(left_unary),
            ParsedAST::BINARY(binary) => self.type_check_binary(binary),
            ParsedAST::CALL(call) => self.type_check_call(call),
            other => Some((other, None)),
        }
    }

    /// Type checks the trees in order.
    fn type_check_list(&mut self, body: Vec<ParsedAST>) -> (r: Option<Vec<ParsedAST>>)
        requires
            old(self).wf(),
        ensures
            final(self).wf(),
            final(self).keeps_outer_scopes(*old(self)),
            match r {
                Some(v) => tc_list(old(self).env(), asts_view(body@)) == Some((final(self).env(), asts_view(v@)))
                    && list_size(asts_view(v@)) == list_size(asts_view(body@)),
                None => tc_list(old(self).env(), asts_view(body@)) is None,
            },
        decreases list_size(asts_view(body@)), 1int,
    {
        proof {
            lemma_asts_view(body@);
        }
        if body.len() == 0 {
            assert(asts_view(body@) =~= Seq::<AstV>::empty());
            return Some(body);
        }
        let mut rest = body;
        let first = rest.remove(0);
        proof {
            lemma_asts_view(rest@);
            assert(asts_view(rest@) =~= asts_view(body@).subrange(1, body@.len() as int));
        }
        match self.type_check_ast(first) {
            None => None,
            Some((x, _)) => match self.type_check_list(rest) {
                None => None,
                Some(mut out) => {
                    let ghost tail = out@;
                    out.insert(0, x);
                    proof {
                        lemma_asts_view(out@);
                        lemma_asts_view(tail);
                        assert(asts_view(out@) =~= seq![x@] + asts_view(tail));
                        assert(asts_view(out@).subrange(1, out@.len() as int) =~= asts_view(tail));
                    }
                    Some(out)
                },
            },
        }
    }

    /// Type checks the declarations in order.
    fn type_check_params(&mut self, params: Vec<Decl>) -> (r: Option<Vec<Decl>>)
        requires
            old(self).wf(),
        ensures
            final(self).wf(),
            final(self).keeps_outer_scopes(*old(self)),
            match r {
                Some(v) => tc_decls(old(self).env(), decls_view(params@)) == Some((final(self).env(), decls_view(v@)))
                    && decls_size(decls_view(v@)) == decls_size(decls_view(params@)),
                None => tc_decls(old(self).env(), decls_view(params@)) is None,
            },
        decreases decls_size(decls_view(params@)), 1int,
    {
        proof {
            lemma_decls_view(params@);
        }
        if params.len() == 0 {
            assert(decls_view(params@) =~= Seq::<DeclV>::empty());
            return Some(params);
        }
        let mut rest = params;
        let first = rest.remove(0);
        proof {
            lemma_decls_view(rest@);
            assert(decls_view(rest@) =~= decls_view(params@).subrange(1, params@.len() as int));
        }
        match self.type_check_decl(first) {
            None => None,
            Some(d) => match self.type_check_params(rest) {
                None => None,
                Some(mut out) => {
                    let ghost tail = out@;
                    out.insert(0, d);
                    proof {
                        lemma_decls_view(out@);
                        lemma_decls_view(tail);
                        assert(decls_view(out@) =~= seq![d@] + decls_view(tail));
                        assert(decls_view(out@).subrange(1, out@.len() as int) =~= decls_view(tail));
                    }
                    Some(out)
                },
            },
        }
    }

    fn type_check_if(&mut self, iff: If) -> (r: Option<(ParsedAST, Option<Type>)>)
        requires
            old(self).wf(),
        ensures
            final(self).wf(),
            final(self).keeps_outer_scopes(*old(self)),
            checked(r, tc_ast(old(self).env(), ParsedAST::IF(iff)@), final(self).env()),
            r matches Some((a, _)) ==> ast_size(a@) == ast_size(ParsedAST::IF(iff)@),
        decreases ast_size(ParsedAST::IF(iff)@), 0int,
    {
        let If { condition, body, else_body } = iff;
        match self.type_check_ast(*condition) {
            None => None,
            Some((c1, _)) => match self.type_check_ast(*body) {
                None => None,
                Some((b1, _)) => match else_body {
                    Some(e) => match self.type_check_ast(*e) {
                        Some((e1, _)) => Some(
                            (
                                ParsedAST::IF(
                                    If {
                                        condition: Box::new(c1),
                                        body: Box::new(b1),
                                        else_body: Some(Box::new(e1)),
                                    },
                                ),
                                None,
                            ),
                        ),
                        None => None,
                    },
                    None => Some(
                        (
                            ParsedAST::IF(
                                If { condition: Box::new(c1), body: Box::new(b1), else_body: None },
                            ),
                            None,
                        ),
                    ),
                },
            },
        }
    }

    fn type_check_assign(&mut self, assign: Assign) -> (r: Option<(ParsedAST, Option<Type>)>)
        requires
            old(self).wf(),
        ensures
            final(self).wf(),
            final(self).keeps_outer_scopes(*old(self)),
            checked(r, tc_ast(old(self).env(), ParsedAST::ASSIGN(assign)@), final(self).env()),
            r matches Some((a, _)) ==> ast_size(a@) == ast_size(ParsedAST::ASSIGN(assign)@),
        decreases ast_size(ParsedAST::ASSIGN(assign)@), 0int,
    {
        let Assign { lhs, rhs } = assign;
        match self.type_check_ast(*lhs) {
            None => None,
            Some((l1, lhs_type)) => match self.type_check_ast(*rhs) {
                None => None,
                Some((r1, rhs_type)) => match (lhs_type, rhs_type) {
                    (Some(lt), Some(rt)) => {
                        if !lt.shallow_equal(rt) {
                            // the checker allows operands of different types
                        }
                        Some((ParsedAST::ASSIGN(Assign { lhs: Box::new(l1), rhs: Box::new(r1) }), None))
                    },
                    _ => None,
                },
            },
        }
    }

    fn type_check_decl(&mut self, decl: Decl) -> (r: Option<Decl>)
        requires
            old(self).wf(),
        ensures
            final(self).wf(),
            final(self).keeps_outer_scopes(*old(self)),
            match r {
                Some(d) => tc_decl(old(self).env(), decl@) == Some((final(self).env(), d@))
                    && decl_size(d@) == decl_size(decl@),
                None => tc_decl(old(self).env(), decl@) is None,
            },
        decreases decl_size(decl@), 1int,
    {
        let ghost m0 = self.env();
        let ghost dv = decl@;
        let Decl { identifier, typ, requires_infering, value } = decl;
        let name = identifier.text();
        proof {
            crate::lex::lemma_token_text_view(identifier);
        }
        let (typ1, value1) = match value {
            None => (typ, None),
            Some(val) => match *val {
                ParsedAST::FN(func) => {
                    let ParsedFn { typ: ftyp, params, body } = func;
                    let Type { mutability, primative, reference } = ftyp;
                    match primative {
                        Primative::FN(pf) => {
                            let pf2 = Fn {
                                anonymous_name: name.clone(),
                                args: pf.args,
                                return_type: pf.return_type,
                            };
                            let ftyp2 = Type { mutability, primative: Primative::FN(pf2), reference };
                            let dtyp = ftyp2.copied();
                            match self.type_check_params(params) {
                                None => return None,
                                Some(ps) => match self.type_check_ast(*body) {
                                    None => return None,
                                    Some((b1, _)) => (
                                        dtyp,
                                        Some(Box::new(ParsedAST::FN(ParsedFn { typ: ftyp2, params: ps, body: Box::new(b1) }))),
                                    ),
                                },
                            }
                        },
                        _ => return None,
                    }
                },
                other => match self.type_check_ast(other) {
                    None => return None,
                    Some((v1, value_type)) => {
                        let typ1 = if requires_infering {
                            match value_type {
                                Some(t) => Type {
                                    mutability: typ.mutability,
                                    primative: t.primative,
                                    reference: t.reference,
                                },
                                None => return None,
                            }
                        } else {
                            typ
                        };
                        match self.type_check_ast(v1) {
                            None => return None,
                            Some((v2, _)) => (typ1, Some(Box::new(v2))),
                        }
                    },
                },
            },
        };
        let Type { mutability, primative, reference } = typ1;
        let primative2 = match primative {
            Primative::FN(f) => Primative::FN(
                Fn { anonymous_name: name.clone(), args: f.args, return_type: f.return_type },
            ),
            Primative::TYPE(_) => Primative::TYPE(TypeType { anonymous_name: name.clone() }),
            other => other,
        };
        let typ2 = Type { mutability, primative: primative2, reference };
        let ghost before = self.sym_table;
        let typ3 = typ2.copied();
        self.sym_table.add(name, typ3);
        proof {
            lemma_add_keeps_outer_scopes(before, self.sym_table, name@, typ3);
            lemma_env_insert(old(self).sym_table.current(), token_text(dv.identifier), typ2);
        }
        Some(Decl { identifier, typ: typ2, requires_infering, value: value1 })
    }

    fn type_check_func(&mut self, func: ParsedFn) -> (r: Option<(ParsedFn, Option<Type>)>)
        requires
            old(self).wf(),
        ensures
            final(self).wf(),
            final(self).keeps_outer_scopes(*old(self)),
            checked(
                match r {
                    Some((f, t)) => Some((ParsedAST::FN(f), t)),
                    None => None,
                },
                tc_ast(old(self).env(), ParsedAST::FN(func)@),
                final(self).env(),
            ),
            r matches Some((f, _)) ==> ast_size(ParsedAST::FN(f)@) == ast_size(ParsedAST::FN(func)@),
        decreases ast_size(ParsedAST::FN(func)@), 0int,
    {
        let ParsedFn { typ, params, body } = func;
        match self.type_check_params(params) {
            None => None,
            Some(ps) => match self.type_check_ast(*body) {
                None => None,
                Some((b1, _)) => {
                    let t = match &typ.primative {
                        Primative::FN(f) => match &f.return_type {
                            Some(return_type) => Some(return_type.copied()),
                            None => None,
                        },
                        _ => return None,
                    };
                    Some((ParsedFn { typ, params: ps, body: Box::new(b1) }, t))
                },
            },
        }
    }

    fn type_check_num(&self, num: &Number) -> (r: Type)
        ensures
            r@ == match num {
                Number::INTEGER(_) => plain_type(Mutability::CONSTANT, PrimativeV::I32),
                Number::FLOAT(_) => plain_type(Mutability::CONSTANT, PrimativeV::F32),
            },
    {
        match num {
            Number::INTEGER(_) => Type {
                mutability: Mutability::CONSTANT,
                primative: Primative::I32,
                reference: false,
            },
            Number::FLOAT(_) => Type {
                mutability: Mutability::CONSTANT,
                primative: Primative::F32,
                reference: false,
            },
        }
    }

    fn type_check_identifier(&self, identifier: &String) -> (r: Option<Type>)
        requires
            self.wf(),
        ensures
            match r {
                Some(t) => self.env().contains_key(identifier@) && t@ == self.env()[identifier@],
                None => !self.env().contains_key(identifier@),
            },
    {
        match self.sym_table.get(identifier.clone()) {
            Some(t) => Some(t.copied()),
            None => None,
        }
    }

    fn type_check_string(&self, s: &String) -> (r: Type)
        ensures
            r@ == plain_type(Mutability::CONSTANT, PrimativeV::STRING),
    {
        Type { mutability: Mutability::CONSTANT, primative: Primative::STRING, reference: false }
    }

    fn type_check_left_unary(&mut self, left_unary: LeftUnary) -> (r: Option<(ParsedAST, Option<Type>)>)
        requires
            old(self).wf(),
        ensures
            final(self).wf(),
            final(self).keeps_outer_scopes(*old(self)),
            checked(r, tc_ast(old(self).env(), ParsedAST::LEFT_UNARY(left_unary)@), final(self).env()),
            r matches Some((a, _)) ==> ast_size(a@) == ast_size(ParsedAST::LEFT_UNARY(left_unary)@),
        decreases ast_size(ParsedAST::LEFT_UNARY(left_unary)@), 0int,
    {
        match left_unary {
            LeftUnary::TAKE_REFERENCE(take_reference) => {
                let TakeReference { rhs, rhs_type: _, is_heap_alloc } = take_reference;
                match self.type_check_ast(*rhs) {
                    Some((rhs1, Some(rhs_type))) => {
                        let mut cloned = rhs_type.copied();
                        cloned.reference = true;
                        Some(
                            (
                                ParsedAST::LEFT_UNARY(
                                    LeftUnary::TAKE_REFERENCE(
                                        TakeReference { rhs: Box::new(rhs1), rhs_type, is_heap_alloc },
                                    ),
                                ),
                                Some(cloned),
                            ),
                        )
                    },
                    _ => None,
                }
            },
        }
    }

    fn type_check_call(&mut self, call: Call) -> (r: Option<(ParsedAST, Option<Type>)>)
        requires
            old(self).wf(),
        ensures
            final(self).wf(),
            final(self).keeps_outer_scopes(*old(self)),
            checked(r, tc_ast(old(self).env(), ParsedAST::CALL(call)@), final(self).env()),
            r matches Some((a, _)) ==> ast_size(a@) == ast_size(ParsedAST::CALL(call)@),
        decreases ast_size(ParsedAST::CALL(call)@), 0int,
    {
        let ghost whole = ParsedAST::CALL(call)@;
        let ghost m0 = self.env();
        let Call { callee, args } = call;
        let args1 = match self.type_check_list(args) {
            Some(a) => a,
            None => return None,
        };
        let ghost m1 = self.env();
        assert(tc_list(m0, asts_view(args@)) == Some((m1, asts_view(args1@))));
        assert(whole == AstV::CALL(Box::new(callee@), asts_view(args@)));
        let t = match &*callee {
            ParsedAST::IDENTIFIER(identifier) => {
                if !string_eq_ignore_ascii_case(identifier, "println") {
                    proof {
                        lemma_env_lookup(self.sym_table.current(), identifier@);
                    }
                    match self.sym_table.get(identifier.clone()) {
                        Some(typ) => match &typ.primative {
                            Primative::FN(func) => match &func.return_type {
                                Some(return_type) => Some(return_type.copied()),
                                None => None,
                            },
                            _ => None,
                        },
                        None => {
                            assert(!m1.contains_key(identifier@));
                            assert(callee@ == AstV::IDENTIFIER(identifier@));
                            assert(tc_ast(m0, whole) is None);
                            return None;
                        },
                    }
                } else {
                    None
                }
            },
            _ => None,
        };
        Some((ParsedAST::CALL(Call { callee, args: args1 }), t))
    }

    fn type_check_binary(&mut self, binary: Binary) -> (r: Option<(ParsedAST, Option<Type>)>)
        requires
            old(self).wf(),
        ensures
            final(self).wf(),
            final(self).keeps_outer_scopes(*old(self)),
            checked(r, tc_ast(old(self).env(), ParsedAST::BINARY(binary)@), final(self).env()),
            r matches Some((a, _)) ==> ast_size(a@) == ast_size(ParsedAST::BINARY(binary)@),
        decreases ast_size(ParsedAST::BINARY(binary)@), 0int,
    {
        let Binary { left, op, right } = binary;
        match self.type_check_ast(*right) {
            None => None,
            Some((r1, _)) => match self.type_check_ast(*left) {
                Some((l1, Some(typ))) => Some(
                    (ParsedAST::BINARY(Binary { left: Box::new(l1), op, right: Box::new(r1) }), Some(typ)),
                ),
                _ => None,
            },
        }
    }
}

/// Type checking keeps the size of a tree: it fills in types and names, and
/// adds or drops no node.
#[verifier::spinoff_prover]
#[verifier::rlimit(60)]
pub proof fn lemma_tc_keeps_size(m: Env, a: AstV)
    ensures
        tc_ast(m, a) matches Some((_, a1, _)) ==> ast_size(a1) == ast_size(a),
    decreases ast_size(a), 1int,
{
    match a {
        AstV::STMT(x) => lemma_tc_keeps_size(m, *x),
        AstV::PROGRAM(b) => lemma_tc_list_keeps_size(m, b),
        AstV::BLOCK(b, _) => lemma_tc_list_keeps_size(m, b),
        AstV::IF(c, b, e) => {
            lemma_tc_keeps_size(m, *c);
            if let Some((m1, _, _)) = tc_ast(m, *c) {
                lemma_tc_keeps_size(m1, *b);
                if let Some((m2, _, _)) = tc_ast(m1, *b) {
                    if let Some(x) = e {
                        lemma_tc_keeps_size(m2, *x);
                    }
                }
            }
        },
        AstV::FOR(x) => lemma_tc_keeps_size(m, *x),
        AstV::RET(o) => {
            if let Some(x) = o {
                lemma_tc_keeps_size(m, *x);
            }
        },
        AstV::DECL(d) => lemma_tc_decl_keeps_size(m, d),
        AstV::ASSIGN(l, r) => {
            lemma_tc_keeps_size(m, *l);
            if let Some((m1, _, _)) = tc_ast(m, *l) {
                lemma_tc_keeps_size(m1, *r);
            }
        },
        AstV::FN(f) => {
            lemma_tc_decls_keeps_size(m, f.params);
            if let Some((m1, ps)) = tc_decls(m, f.params) {
                lemma_tc_keeps_size(m1, *f.body);
            }
        },
        AstV::TAKE_REFERENCE(x, _, _) => lemma_tc_keeps_size(m, *x),
        AstV::BINARY(l, _, r) => {
            lemma_tc_keeps_size(m, *r);
            if let Some((m1, _, _)) = tc_ast(m, *r) {
                lemma_tc_keeps_size(m1, *l);
            }
        },
        AstV::CALL(_, args) => lemma_tc_list_keeps_size(m, args),
        _ => {},
    }
}

/// Type checking keeps the sizes of a sequence of trees.
pub proof fn lemma_tc_list_keeps_size(m: Env, s: Seq<AstV>)
    ensures
        tc_list(m, s) matches Some((_, s1)) ==> list_size(s1) == list_size(s) && s1.len() == s.len(),
    decreases list_size(s), 1int,
{
    if s.len() > 0 {
        lemma_tc_keeps_size(m, s[0]);
        if let Some((m1, x, _)) = tc_ast(m, s[0]) {
            let rest = s.subrange(1, s.len() as int);
            lemma_tc_list_keeps_size(m1, rest);
            if let Some((m2, r1)) = tc_list(m1, rest) {
                let s1 = seq![x] + r1;
                assert(s1[0] == x);
                assert(s1.subrange(1, s1.len() as int) =~= r1);
            }
        }
    }
}

/// Type checking keeps the size of a declaration.
pub proof fn lemma_tc_decl_keeps_size(m: Env, d: DeclV)
    ensures
        tc_decl(m, d) matches Some((_, d1)) ==> decl_size(d1) == decl_size(d),
    decreases decl_size(d), 1int,
{
    if let Some(v) = d.value {
        match *v {
            AstV::FN(f) => {
                lemma_tc_decls_keeps_size(m, f.params);
                if let Some((m1, ps)) = tc_decls(m, f.params) {
                    lemma_tc_keeps_size(m1, *f.body);
                }
            },
            _ => {
                lemma_tc_keeps_size(m, *v);
                if let Some((m1, v1, _)) = tc_ast(m, *v) {
                    if ast_size(v1) == ast_size(*v) {
                        lemma_tc_keeps_size(m1, v1);
                    }
                }
            },
        }
    }
}

/// Type checking keeps the sizes of a sequence of declarations.
pub proof fn lemma_tc_decls_keeps_size(m: Env, s: Seq<DeclV>)
    ensures
        tc_decls(m, s) matches Some((_, s1)) ==> decls_size(s1) == decls_size(s) && s1.len() == s.len(),
    decreases decls_size(s), 1int,
{
    if s.len() > 0 {
        lemma_tc_decl_keeps_size(m, s[0]);
        if let Some((m1, d)) = tc_decl(m, s[0]) {
            let rest = s.subrange(1, s.len() as int);
            lemma_tc_decls_keeps_size(m1, rest);
            if let Some((m2, r1)) = tc_decls(m1, rest) {
                let s1 = seq![d] + r1;
                assert(s1[0] == d);
                assert(s1.subrange(1, s1.len() as int) =~= r1);
            }
        }
    }
}

/// Type checking `@e` gives the type of `e` made a reference, and records the
/// type of `e` in the reference node; it fails exactly where `e` fails or has
/// no type.
pub proof fn lemma_tc_reference(m: Env, e: AstV, t0: TypeV, heap: bool)
    ensures
        tc_ast(m, AstV::TAKE_REFERENCE(Box::new(e), t0, heap)) is Some <==> (tc_ast(m, e) is Some
            && tc_ast(m, e).unwrap().2 is Some),
        tc_ast(m, e) matches Some((m1, e1, Some(t))) ==> ({
            &&& tc_ast(m, AstV::TAKE_REFERENCE(Box::new(e), t0, heap)).unwrap().2 == Some(
                TypeV { mutability: t.mutability, primative: t.primative, reference: true },
            )
            &&& tc_ast(m, AstV::TAKE_REFERENCE(Box::new(e), t0, heap)).unwrap().1
                == AstV::TAKE_REFERENCE(Box::new(e1), t, heap)
            &&& tc_ast(m, AstV::TAKE_REFERENCE(Box::new(e), t0, heap)).unwrap().0 == m1
        }),
{
}

/// The type that type checking gives to a reference `@e` is always a
/// reference type.
pub proof fn lemma_tc_reference_is_reference(m: Env, e: AstV, t0: TypeV, heap: bool)
    ensures
        tc_ast(m, AstV::TAKE_REFERENCE(Box::new(e), t0, heap)) matches Some((_, _, t)) ==> (t is Some
            && t.unwrap().reference),
{
}

/// A name has the type recorded for it, and a name that is not declared
/// fails; an integer literal is an `i32`, another number an `f32`, a string a
/// `string`, all constant and not references.
pub proof fn lemma_tc_leaves(m: Env, n: Seq<char>, v: u64)
    ensures
        tc_ast(m, AstV::IDENTIFIER(n)) is Some <==> m.contains_key(n),
        m.contains_key(n) ==> tc_ast(m, AstV::IDENTIFIER(n)).unwrap().2 == Some(m[n]),
        tc_ast(m, AstV::NUMBER(NumberV::INTEGER(v))).unwrap().2 == Some(
            TypeV { mutability: Mutability::CONSTANT, primative: PrimativeV::I32, reference: false },
        ),
        tc_ast(m, AstV::NUMBER(NumberV::FLOAT(n))).unwrap().2 == Some(
            TypeV { mutability: Mutability::CONSTANT, primative: PrimativeV::F32, reference: false },
        ),
        tc_ast(m, AstV::STRING(n)).unwrap().2 == Some(
            TypeV { mutability: Mutability::CONSTANT, primative: PrimativeV::STRING, reference: false },
        ),
{
}

/// A checked declaration records its name with the type it was given: after
/// it, the name has that type, and every other name keeps its type.
pub proof fn lemma_tc_decl_records(m: Env, d: DeclV, other: Seq<char>)
    ensures
        tc_decl(m, d) matches Some((m1, d1)) ==> ({
            &&& m1.contains_key(token_text(d.identifier))
            &&& m1[token_text(d.identifier)] == d1.typ
            &&& d1.identifier == d.identifier
        }),
{
}

/// A declaration that asks for its type to be inferred takes its value's
/// type: whether it is a reference, and its primative (named after the
/// declaration where it is a function or struct declaration type); it keeps
/// its declared mutability.
pub proof fn lemma_tc_decl_infers(m: Env, d: DeclV)
    requires
        d.requires_infering,
        d.value is Some,
        !(*d.value.unwrap() is FN),
    ensures
        tc_decl(m, d) matches Some((_, d1)) ==> (tc_ast(m, *d.value.unwrap()) matches Some((_, _, Some(t)))
            && d1.typ == renamed(
            TypeV { mutability: d.typ.mutability, primative: t.primative, reference: t.reference },
            token_text(d.identifier),
        )),
{
}

} // verus!

//! The type resolver: gives every expression of a program a type, keeps a
//! table of the variables in scope, and turns the syntax tree into a typed tree.
use vstd::prelude::*;
use crate::ast::{Type, Expression, ExprV, lemma_expr_model_seq};
use crate::typed_ast::{
    ResolvedType, RType, TypedExpression, TExpr, model_params, lemma_texpr_model_seq, debug_text,
    push_debug,
};
use crate::text::{owned, string_of};
use crate::display::push_lit;

verus! {

/// An entry of the symbol table: a variable's name and type.
pub type Entry = (Seq<char>, RType);

/// The mathematical state of a resolver: the symbol table in insertion order
/// and, for each open scope from the outermost, the names declared in it.
pub struct ResolverModel {
    pub table: Seq<Entry>,
    pub scopes: Seq<Seq<Seq<char>>>,
}

/// The index of the first entry named `k`, looking from index `i` on.
pub open spec fn position_from(t: Seq<Entry>, k: Seq<char>, i: int) -> Option<int>
    decreases t.len() - i,
{
    if i < 0 || i >= t.len() {
        None
    } else if t[i].0 == k {
        Some(i)
    } else {
        position_from(t, k, i + 1)
    }
}

/// The index of the entry named `k`, if there is one.
pub open spec fn position(t: Seq<Entry>, k: Seq<char>) -> Option<int> {
    position_from(t, k, 0)
}

/// The type that the table gives the name `k`.
pub open spec fn lookup(t: Seq<Entry>, k: Seq<char>) -> Option<RType> {
    match position(t, k) {
        Some(i) => Some(t[i].1),
        None => None,
    }
}

/// The table with `k` bound to `v`: an existing entry is overwritten in place,
/// a new one is appended.
pub open spec fn insert(t: Seq<Entry>, k: Seq<char>, v: RType) -> Seq<Entry> {
    match position(t, k) {
        Some(i) => t.update(i, (k, v)),
        None => t.push((k, v)),
    }
}

/// The table without the entry named `k`.
pub open spec fn remove(t: Seq<Entry>, k: Seq<char>) -> Seq<Entry> {
    match position(t, k) {
        Some(i) => t.remove(i),
        None => t,
    }
}

/// The table without the entries named `ks[i]`, `ks[i + 1]`, ... (removed in
/// that order).
pub open spec fn remove_all_from(t: Seq<Entry>, ks: Seq<Seq<char>>, i: int) -> Seq<Entry>
    decreases ks.len() - i,
{
    if i < 0 || i >= ks.len() {
        t
    } else {
        remove_all_from(remove(t, ks[i]), ks, i + 1)
    }
}

impl ResolverModel {
    /// A resolver with an empty table and one (outermost) scope.
    pub open spec fn initial() -> ResolverModel {
        ResolverModel { table: Seq::empty(), scopes: seq![Seq::empty()] }
    }

    /// Declares `k` with type `v` in the innermost scope.
    pub open spec fn set_var(self, k: Seq<char>, v: RType) -> ResolverModel {
        ResolverModel {
            table: insert(self.table, k, v),
            scopes: if self.scopes.len() == 0 {
                seq![seq![k]]
            } else {
                self.scopes.update(self.scopes.len() - 1, self.scopes.last().push(k))
            },
        }
    }

    /// Opens a scope.
    pub open spec fn incr(self) -> ResolverModel {
        ResolverModel { table: self.table, scopes: self.scopes.push(Seq::empty()) }
    }

    /// Closes the innermost scope: every name declared in it leaves the table.
    pub open spec fn decr(self) -> ResolverModel {
        if self.scopes.len() == 0 {
            self
        } else {
            ResolverModel {
                table: remove_all_from(self.table, self.scopes.last(), 0),
                scopes: self.scopes.drop_last(),
            }
        }
    }

    /// Declares the parameters `ps[i]`, `ps[i + 1]`, ... in order.
    pub open spec fn set_all(self, ps: Seq<(Seq<char>, RType)>) -> ResolverModel
        decreases ps.len(),
    {
        if ps.len() == 0 {
            self
        } else {
            self.set_var(ps[0].0, ps[0].1).set_all(ps.drop_first())
        }
    }
}

/// The resolver: a symbol table of the variables in scope and, for each open
/// scope, the names declared in it.
pub struct TypeResolver {
    symbol_table: Vec<(String, ResolvedType)>,
    locals: Vec<Vec<String>>,
}

pub open spec fn model_names(v: Seq<String>) -> Seq<Seq<char>> {
    Seq::new(v.len(), |i: int| v[i]@)
}

impl View for TypeResolver {
    type V = ResolverModel;

    closed spec fn view(&self) -> ResolverModel {
        ResolverModel {
            table: Seq::new(
                self.symbol_table@.len(),
                |i: int| (self.symbol_table@[i].0@, self.symbol_table@[i].1@),
            ),
            scopes: Seq::new(self.locals@.len(), |i: int| model_names(self.locals@[i]@)),
        }
    }
}

impl TypeResolver {
    /// No two entries of the symbol table have the same name.
    #[verifier::type_invariant]
    spec fn names_distinct(self) -> bool {
        distinct_names(self@.table)
    }
}

impl TypeResolver {
    /// A resolver with an empty symbol table, at the outermost scope.
    pub fn new() -> (r: Self)
        ensures
            r@ == ResolverModel::initial(),
    {
        let mut locals: Vec<Vec<String>> = Vec::new();
        locals.push(Vec::new());
        let r = TypeResolver { symbol_table: Vec::new(), locals };
        assert(r@.table =~= Seq::<Entry>::empty());
        assert(r@.scopes[0] =~= Seq::<Seq<char>>::empty());
        assert(r@.scopes =~= ResolverModel::initial().scopes);
        r
    }

    /// The index of the entry named `name`.
    fn find(&self, name: &String) -> (r: Option<usize>)
        ensures
            match r {
                Some(i) => position(self@.table, name@) == Some(i as int) && i < self.symbol_table@.len(),
                None => position(self@.table, name@) is None,
            },
    {
        let ghost t = self@.table;
        let mut i: usize = 0;
        while i < self.symbol_table.len()
            invariant
                i <= self.symbol_table@.len(),
                t == self@.table,
                t.len() == self.symbol_table@.len(),
                position_from(t, name@, 0) == position_from(t, name@, i as int),
            decreases self.symbol_table@.len() - i,
        {
            if self.symbol_table[i].0 == *name {
                assert(t[i as int].0 == name@);
                return Some(i);
            }
            assert(position_from(t, name@, i as int) == position_from(t, name@, i as int + 1));
            i = i + 1;
        }
        None
    }

    /// Declares `name` with type `ty` in the innermost scope.
    pub fn set_variable(&mut self, name: &str, ty: ResolvedType)
        ensures
            final(self)@ == old(self)@.set_var(name@, ty@),
    {
        proof {
            use_type_invariant(&*self);
        }
        let name = &owned(name);
        let ghost old_model = self@;
        let found = self.find(name);
        let mut table: Vec<(String, ResolvedType)> = Vec::new();
        std::mem::swap(&mut table, &mut self.symbol_table);
        let ghost t = Seq::new(table@.len(), |i: int| (table@[i].0@, table@[i].1@));
        assert(t =~= old_model.table);
        match found {
            Some(i) => {
                table.set(i, (name.clone(), ty));
            },
            None => {
                table.push((name.clone(), ty));
            },
        }
        let ghost t2 = Seq::new(table@.len(), |i: int| (table@[i].0@, table@[i].1@));
        assert(t2 =~= insert(old_model.table, name@, ty@));
        proof {
            lemma_insert_distinct(old_model.table, name@, ty@);
        }
        let mut locals: Vec<Vec<String>> = Vec::new();
        std::mem::swap(&mut locals, &mut self.locals);
        let n = locals.len();
        if n == 0 {
            let mut scope: Vec<String> = Vec::new();
            scope.push(name.clone());
            locals.push(scope);
        } else {
            let mut scope = locals.pop().unwrap();
            scope.push(name.clone());
            locals.push(scope);
        }
        self.symbol_table = table;
        self.locals = locals;
        assert(self@.table =~= insert(old_model.table, name@, ty@));
        if n == 0 {
            assert(self@.scopes[0] =~= seq![name@]);
        } else {
            assert(self@.scopes[n - 1] =~= old_model.scopes.last().push(name@));
        }
        assert(self@.scopes =~= old_model.set_var(name@, ty@).scopes);
    }

    /// The type of the variable `name`, if it is in scope.
    pub fn get_variable(&self, name: &str) -> (r: Option<&ResolvedType>)
        ensures
            match r {
                Some(t) => lookup(self@.table, name@) == Some(t@),
                None => lookup(self@.table, name@) is None,
            },
    {
        let key = owned(name);
        match self.find(&key) {
            Some(i) => Some(&self.symbol_table[i].1),
            None => None,
        }
    }

    /// Opens a scope.
    pub fn incr_depth(&mut self)
        ensures
            final(self)@ == old(self)@.incr(),
    {
        proof {
            use_type_invariant(&*self);
        }
        let ghost old_model = self@;
        let mut locals: Vec<Vec<String>> = Vec::new();
        std::mem::swap(&mut locals, &mut self.locals);
        locals.push(Vec::new());
        self.locals = locals;
        assert(self@.table =~= old_model.table);
        assert(self@.scopes.last() =~= Seq::<Seq<char>>::empty());
        assert(self@.scopes =~= old_model.incr().scopes);
    }

    /// Removes the entry named `name`, if there is one.
    fn remove_variable(&mut self, name: &String)
        ensures
            final(self)@.table == remove(old(self)@.table, name@),
            final(self)@.scopes == old(self)@.scopes,
    {
        proof {
            use_type_invariant(&*self);
        }
        let ghost old_model = self@;
        match self.find(name) {
            Some(i) => {
                let mut table: Vec<(String, ResolvedType)> = Vec::new();
                std::mem::swap(&mut table, &mut self.symbol_table);
                table.remove(i);
                proof {
                    lemma_remove_distinct(old_model.table, name@);
                }
                let ghost t2 = Seq::new(table@.len(), |k: int| (table@[k].0@, table@[k].1@));
                assert(t2 =~= remove(old_model.table, name@));
                self.symbol_table = table;
                assert(self@.table =~= remove(old_model.table, name@));
                assert(self@.scopes =~= old_model.scopes);
            },
            None => {},
        }
    }

    /// Closes the innermost scope, forgetting every name declared in it:
    /// exactly those names become unbound, and every other name keeps its
    /// type.
    pub fn decr_depth(&mut self)
        ensures
            final(self)@ == old(self)@.decr(),
            old(self)@.scopes.len() > 0 ==> final(self)@.scopes.len() == old(self)@.scopes.len() - 1,
            forall|n: Seq<char>|
                #![trigger lookup(final(self)@.table, n)]
                lookup(final(self)@.table, n) == if old(self)@.scopes.len() > 0
                    && old(self)@.scopes.last().contains(n) {
                    None
                } else {
                    lookup(old(self)@.table, n)
                },
    {
        proof {
            use_type_invariant(&*self);
        }
        let ghost old_model = self@;
        assert forall|n: Seq<char>|
            #![trigger lookup(old_model.decr().table, n)]
            lookup(old_model.decr().table, n) == if old_model.scopes.len() > 0
                && old_model.scopes.last().contains(n) {
                None
            } else {
                lookup(old_model.table, n)
            } by {
            if old_model.scopes.len() > 0 {
                law_scope_forgets_all_declarations(old_model, n);
            }
        }
        if self.locals.len() == 0 {
            return;
        }
        let mut locals: Vec<Vec<String>> = Vec::new();
        std::mem::swap(&mut locals, &mut self.locals);
        let vars = locals.pop().unwrap();
        self.locals = locals;
        assert(self@.scopes =~= old_model.scopes.drop_last());
        let ghost ks = model_names(vars@);
        assert(ks =~= old_model.scopes.last());
        let mut i: usize = 0;
        while i < vars.len()
            invariant
                i <= vars@.len(),
                ks == model_names(vars@),
                self@.scopes == old_model.scopes.drop_last(),
                remove_all_from(old_model.table, ks, 0) == remove_all_from(self@.table, ks, i as int),
            decreases vars@.len() - i,
        {
            let ghost before = self@.table;
            self.remove_variable(&vars[i]);
            assert(ks[i as int] == vars@[i as int]@);
            assert(remove_all_from(before, ks, i as int) == remove_all_from(self@.table, ks, i as int + 1));
            i = i + 1;
        }
        assert(self@ == old_model.decr());
    }
}

/// Why the resolver refused a program.
#[derive(Debug)]
pub enum TypeError {
    /// A function's parameter list holds something other than a parameter.
    ExpectedFuncArg,
    /// A name is used that no declaration in scope binds.
    UndefinedVariable(String),
    /// `name = value` where `value`'s type differs from the variable's:
    /// the name, the variable's type, the value's type.
    ReassignMismatch(String, ResolvedType, ResolvedType),
    /// `let name: declared = value` where the types differ: the name, the
    /// declared type, the value's type.
    DeclarationMismatch(String, ResolvedType, ResolvedType),
    /// An `if` condition that is not boolean, with its type.
    IfConditionNotBool(ResolvedType),
    /// A `while` condition that is not boolean, with its type.
    WhileConditionNotBool(ResolvedType),
    /// A list literal without elements.
    EmptyList,
    /// A list element whose type differs from the first element's: the
    /// first element's type, the element's type.
    ListElementMismatch(ResolvedType, ResolvedType),
    /// Indexing into something that is not a list, with its type.
    IndexNonList(ResolvedType),
    /// An index that is not an `i32`, with its type.
    IndexNotI32(ResolvedType),
    /// Storing into a list a value of another type: the value's type, the
    /// element type.
    AssignElementMismatch(ResolvedType, ResolvedType),
    /// `len` of something that is not a list, with its type.
    LenNonList(ResolvedType),
    /// A node that the resolver does not handle (`nil`, a parameter outside
    /// a function header, `break`); found by [`program_supported`] before
    /// resolution proper.
    Unsupported,
}

/// The model of a [`TypeError`].
pub enum TypeErr {
    ExpectedFuncArg,
    UndefinedVariable(Seq<char>),
    ReassignMismatch(Seq<char>, RType, RType),
    DeclarationMismatch(Seq<char>, RType, RType),
    IfConditionNotBool(RType),
    WhileConditionNotBool(RType),
    EmptyList,
    ListElementMismatch(RType, RType),
    IndexNonList(RType),
    IndexNotI32(RType),
    AssignElementMismatch(RType, RType),
    LenNonList(RType),
    Unsupported,
}

impl View for TypeError {
    type V = TypeErr;

    open spec fn view(&self) -> TypeErr {
        match self {
            TypeError::ExpectedFuncArg => TypeErr::ExpectedFuncArg,
            TypeError::UndefinedVariable(n) => TypeErr::UndefinedVariable(n@),
            TypeError::ReassignMismatch(n, a, b) => TypeErr::ReassignMismatch(n@, a@, b@),
            TypeError::DeclarationMismatch(n, a, b) => TypeErr::DeclarationMismatch(n@, a@, b@),
            TypeError::IfConditionNotBool(t) => TypeErr::IfConditionNotBool(t@),
            TypeError::WhileConditionNotBool(t) => TypeErr::WhileConditionNotBool(t@),
            TypeError::EmptyList => TypeErr::EmptyList,
            TypeError::ListElementMismatch(a, b) => TypeErr::ListElementMismatch(a@, b@),
            TypeError::IndexNonList(t) => TypeErr::IndexNonList(t@),
            TypeError::IndexNotI32(t) => TypeErr::IndexNotI32(t@),
            TypeError::AssignElementMismatch(a, b) => TypeErr::AssignElementMismatch(a@, b@),
            TypeError::LenNonList(t) => TypeErr::LenNonList(t@),
            TypeError::Unsupported => TypeErr::Unsupported,
        }
    }
}

/// The message that goes with an error; types are written as `{:?}`
/// writes them.
pub open spec fn error_text(e: TypeErr) -> Seq<char> {
    match e {
        TypeErr::ExpectedFuncArg => "Expected FuncArg in function arguments"@,
        TypeErr::UndefinedVariable(n) => "Undefined variable: "@ + n,
        TypeErr::ReassignMismatch(n, a, b) => "Cannot reassign variable '"@ + n + "' of type "@
            + debug_text(a) + " to value of type "@ + debug_text(b),
        TypeErr::DeclarationMismatch(n, a, b) => "Type mismatch for variable '"@ + n
            + "': declared as "@ + debug_text(a) + ", but value is "@ + debug_text(b),
        TypeErr::IfConditionNotBool(t) => "If condition must be boolean, got "@ + debug_text(t),
        TypeErr::WhileConditionNotBool(t) => "While condition must be boolean, got "@ + debug_text(t),
        TypeErr::EmptyList => "Empty lists are not yet supported"@,
        TypeErr::ListElementMismatch(a, b) => "List elements must all have the same type. Expected "@
            + debug_text(a) + ", got "@ + debug_text(b),
        TypeErr::IndexNonList(t) => "Cannot index into non-list type "@ + debug_text(t),
        TypeErr::IndexNotI32(t) => "List index must be i32, got "@ + debug_text(t),
        TypeErr::AssignElementMismatch(a, b) => "Cannot assign value of type "@ + debug_text(a)
            + " to list of type "@ + debug_text(b),
        TypeErr::LenNonList(t) => "len() requires a list argument, got "@ + debug_text(t),
        TypeErr::Unsupported => "Unsupported expression"@,
    }
}

impl TypeError {
    /// The error's message.
    pub fn message(&self) -> (r: String)
        ensures
            r@ == error_text(self@),
    {
        let mut out: Vec<char> = Vec::new();
        match self {
            TypeError::ExpectedFuncArg => push_lit(&mut out, "Expected FuncArg in function arguments"),
            TypeError::UndefinedVariable(n) => {
                push_lit(&mut out, "Undefined variable: ");
                push_lit(&mut out, n.as_str());
            },
            TypeError::ReassignMismatch(n, a, b) => {
                push_lit(&mut out, "Cannot reassign variable '");
                push_lit(&mut out, n.as_str());
                push_lit(&mut out, "' of type ");
                push_debug(&mut out, a);
                push_lit(&mut out, " to value of type ");
                push_debug(&mut out, b);
            },
            TypeError::DeclarationMismatch(n, a, b) => {
                push_lit(&mut out, "Type mismatch for variable '");
                push_lit(&mut out, n.as_str());
                push_lit(&mut out, "': declared as ");
                push_debug(&mut out, a);
                push_lit(&mut out, ", but value is ");
                push_debug(&mut out, b);
            },
            TypeError::IfConditionNotBool(t) => {
                push_lit(&mut out, "If condition must be boolean, got ");
                push_debug(&mut out, t);
            },
            TypeError::WhileConditionNotBool(t) => {
                push_lit(&mut out, "While condition must be boolean, got ");
                push_debug(&mut out, t);
            },
            TypeError::EmptyList => push_lit(&mut out, "Empty lists are not yet supported"),
            TypeError::ListElementMismatch(a, b) => {
                push_lit(&mut out, "List elements must all have the same type. Expected ");
                push_debug(&mut out, a);
                push_lit(&mut out, ", got ");
                push_debug(&mut out, b);
            },
            TypeError::IndexNonList(t) => {
                push_lit(&mut out, "Cannot index into non-list type ");
                push_debug(&mut out, t);
            },
            TypeError::IndexNotI32(t) => {
                push_lit(&mut out, "List index must be i32, got ");
                push_debug(&mut out, t);
            },
            TypeError::AssignElementMismatch(a, b) => {
                push_lit(&mut out, "Cannot assign value of type ");
                push_debug(&mut out, a);
                push_lit(&mut out, " to list of type ");
                push_debug(&mut out, b);
            },
            TypeError::LenNonList(t) => {
                push_lit(&mut out, "len() requires a list argument, got ");
                push_debug(&mut out, t);
            },
            TypeError::Unsupported => push_lit(&mut out, "Unsupported expression"),
        }
        string_of(&out)
    }
}

/// The resolved type of an annotation: no annotation resolves to `Void`.
pub open spec fn resolve_type_spec(t: Type) -> RType
    decreases t,
{
    match t {
        Type::Unspecified => RType::Void,
        Type::i32 => RType::I32,
        Type::i64 => RType::I64,
        Type::String => RType::Str,
        Type::Bool => RType::Bool,
        Type::List(inner) => RType::List(Box::new(resolve_type_spec(*inner))),
    }
}

pub open spec fn is_comparison(op: Seq<char>) -> bool {
    op == seq!['=', '='] || op == seq!['!', '='] || op == seq!['<'] || op == seq!['<', '=']
        || op == seq!['>'] || op == seq!['>', '=']
}

pub open spec fn is_arithmetic(op: Seq<char>) -> bool {
    op == seq!['+'] || op == seq!['-'] || op == seq!['*'] || op == seq!['/']
}

/// The type of `l op r` given the operands' types: comparisons are boolean;
/// arithmetic on two `i32` is `i32`, on `i64` (either side) is `i64`;
/// anything else keeps the operation in the type.
pub open spec fn binary_type(op: Seq<char>, l: RType, r: RType) -> RType {
    if is_comparison(op) {
        RType::Bool
    } else if is_arithmetic(op) && l == RType::I32 && r == RType::I32 {
        RType::I32
    } else if is_arithmetic(op) && (l == RType::I32 || l == RType::I64) && (r == RType::I32
        || r == RType::I64) {
        RType::I64
    } else {
        RType::Binary(Box::new(l), op, Box::new(r))
    }
}

pub open spec fn is_param(e: ExprV) -> bool {
    e is FuncArg
}

/// A parameter's name and resolved type.
pub open spec fn param_of(e: ExprV) -> (Seq<char>, RType) {
    match e {
        ExprV::FuncArg(n, t) => (n, resolve_type_spec(t)),
        _ => (Seq::empty(), RType::Void),
    }
}

/// The parameters of a function header, when every entry is a parameter.
pub open spec fn params_of(args: Seq<ExprV>) -> Option<Seq<(Seq<char>, RType)>> {
    if forall|i: int| 0 <= i < args.len() ==> #[trigger] is_param(args[i]) {
        Some(Seq::new(args.len(), |i: int| param_of(args[i])))
    } else {
        None
    }
}

pub type Resolved = Result<(TExpr, RType), TypeErr>;

/// What resolving `e` in state `m` gives: the state afterwards and the typed
/// node with its type, or the error. On an error the state is the one in
/// which the failing step left it.
pub open spec fn resolve(m: ResolverModel, e: ExprV) -> (ResolverModel, Resolved)
    decreases e, 0int,
{
    match e {
        ExprV::Number(n) => (m, Ok((TExpr::Number32(n), RType::I32))),
        ExprV::Number64(n) => (m, Ok((TExpr::Number64(n), RType::I64))),
        ExprV::Str(s) => (m, Ok((TExpr::Str(s), RType::Str))),
        ExprV::Bool(b) => (m, Ok((TExpr::Bool(b), RType::Bool))),
        ExprV::Binary(l, op, r) => {
            let (m1, rl) = resolve(m, *l);
            match rl {
                Err(x) => (m1, Err(x)),
                Ok((tl, lt)) => {
                    let (m2, rr) = resolve(m1, *r);
                    match rr {
                        Err(x) => (m2, Err(x)),
                        Ok((tr, rt)) => (
                            m2,
                            Ok((TExpr::Binary(Box::new(tl), op, Box::new(tr)), binary_type(op, lt, rt))),
                        ),
                    }
                },
            }
        },
        ExprV::FuncStmt(name, args, ret, body) => match params_of(args) {
            None => (m, Err(TypeErr::ExpectedFuncArg)),
            Some(ps) => {
                let (m1, rb) = resolve(m.incr().set_all(ps), *body);
                match rb {
                    Err(x) => (m1, Err(x)),
                    Ok((tb, _)) => (
                        m1.decr(),
                        Ok(
                            (
                                TExpr::FuncStmt(name, ps, resolve_type_spec(ret), Box::new(tb)),
                                RType::Function(
                                    Seq::new(ps.len(), |i: int| ps[i].1),
                                    Box::new(resolve_type_spec(ret)),
                                ),
                            ),
                        ),
                    ),
                }
            },
        },
        ExprV::BlockStmt(stmts) => {
            let (m1, r) = resolve_seq(m.incr(), stmts, 0, Seq::empty(), RType::Void);
            match r {
                Err(x) => (m1, Err(x)),
                Ok((ts, last)) => (m1.decr(), Ok((TExpr::BlockStmt(ts), last))),
            }
        },
        ExprV::Variable(n) => match lookup(m.table, n) {
            None => (m, Err(TypeErr::UndefinedVariable(n))),
            Some(t) => (m, Ok((TExpr::Variable(n), t))),
        },
        ExprV::Print(v) => {
            let (m1, r) = resolve(m, *v);
            match r {
                Err(x) => (m1, Err(x)),
                Ok((tv, _)) => (m1, Ok((TExpr::Print(Box::new(tv)), RType::Void))),
            }
        },
        ExprV::ReturnStmt(v) => {
            let (m1, r) = resolve(m, *v);
            match r {
                Err(x) => (m1, Err(x)),
                Ok((tv, vt)) => (m1, Ok((TExpr::ReturnStmt(Box::new(tv)), vt))),
            }
        },
        ExprV::CallStmt(name, args) => {
            let (m1, r) = resolve_seq(m, args, 0, Seq::empty(), RType::Void);
            match r {
                Err(x) => (m1, Err(x)),
                Ok((targs, _)) => (
                    m1,
                    Ok((TExpr::CallStmt(Box::new(TExpr::Variable(name)), targs), RType::Void)),
                ),
            }
        },
        ExprV::LetStmt(name, t, v) => {
            let (m1, r) = resolve(m, *v);
            match r {
                Err(x) => (m1, Err(x)),
                Ok((tv, vt)) => match lookup(m1.table, name) {
                    Some(existing) => if existing != vt {
                        (m1, Err(TypeErr::ReassignMismatch(name, existing, vt)))
                    } else {
                        (m1, Ok((TExpr::AssignStmt(name, Box::new(tv)), RType::Void)))
                    },
                    None => {
                        let declared = resolve_type_spec(t);
                        if declared != RType::Void && declared != vt {
                            (m1, Err(TypeErr::DeclarationMismatch(name, declared, vt)))
                        } else {
                            let fin = if declared == RType::Void { vt } else { declared };
                            (
                                m1.set_var(name, fin),
                                Ok((TExpr::LetStmt(name, Some(fin), Box::new(tv)), fin)),
                            )
                        }
                    },
                },
            }
        },
        ExprV::IfStmt(c, th, el) => {
            let (m1, rc) = resolve(m, *c);
            match rc {
                Err(x) => (m1, Err(x)),
                Ok((tc, ct)) => if ct != RType::Bool {
                    (m1, Err(TypeErr::IfConditionNotBool(ct)))
                } else {
                    let (m2, rt) = resolve(m1, *th);
                    match rt {
                        Err(x) => (m2, Err(x)),
                        Ok((tt, _)) => match el {
                            None => (
                                m2,
                                Ok((TExpr::IfStmt(Box::new(tc), Box::new(tt), None), RType::Void)),
                            ),
                            Some(eb) => {
                                let (m3, re) = resolve(m2, *eb);
                                match re {
                                    Err(x) => (m3, Err(x)),
                                    Ok((te, _)) => (
                                        m3,
                                        Ok(
                                            (
                                                TExpr::IfStmt(
                                                    Box::new(tc),
                                                    Box::new(tt),
                                                    Some(Box::new(te)),
                                                ),
                                                RType::Void,
                                            ),
                                        ),
                                    ),
                                }
                            },
                        },
                    }
                },
            }
        },
        ExprV::WhileStmt(c, b) => {
            let (m1, rc) = resolve(m, *c);
            match rc {
                Err(x) => (m1, Err(x)),
                Ok((tc, ct)) => if ct != RType::Bool {
                    (m1, Err(TypeErr::WhileConditionNotBool(ct)))
                } else {
                    let (m2, rb) = resolve(m1, *b);
                    match rb {
                        Err(x) => (m2, Err(x)),
                        Ok((tb, _)) => (
                            m2,
                            Ok((TExpr::WhileStmt(Box::new(tc), Box::new(tb)), RType::Void)),
                        ),
                    }
                },
            }
        },
        ExprV::ForStmt(n, start, end, step, b) => {
            let (m1, rb) = resolve(m.incr().set_var(n, RType::I32), *b);
            match rb {
                Err(x) => (m1, Err(x)),
                Ok((tb, _)) => (
                    m1.decr(),
                    Ok((TExpr::ForStmt(n, start, end, step, Box::new(tb)), RType::Void)),
                ),
            }
        },
        ExprV::Grouping(inner) => {
            let (m1, r) = resolve(m, *inner);
            match r {
                Err(x) => (m1, Err(x)),
                Ok((ti, it)) => (m1, Ok((TExpr::Grouping(Box::new(ti)), it))),
            }
        },
        ExprV::List(elems) => if elems.len() == 0 {
            (m, Err(TypeErr::EmptyList))
        } else {
            let (m1, r0) = resolve(m, elems[0]);
            match r0 {
                Err(x) => (m1, Err(x)),
                Ok((t0, et)) => {
                    let (m2, r) = resolve_list(m1, elems, 1, seq![t0], et);
                    match r {
                        Err(x) => (m2, Err(x)),
                        Ok(ts) => (m2, Ok((TExpr::List(ts, et), RType::List(Box::new(et))))),
                    }
                },
            }
        },
        ExprV::ListIndex(l, i) => {
            let (m1, rl) = resolve(m, *l);
            match rl {
                Err(x) => (m1, Err(x)),
                Ok((tl, lt)) => match lt {
                    RType::List(inner) => {
                        let (m2, ri) = resolve(m1, *i);
                        match ri {
                            Err(x) => (m2, Err(x)),
                            Ok((ti, it)) => if it != RType::I32 {
                                (m2, Err(TypeErr::IndexNotI32(it)))
                            } else {
                                (m2, Ok((TExpr::ListIndex(Box::new(tl), Box::new(ti)), *inner)))
                            },
                        }
                    },
                    _ => (m1, Err(TypeErr::IndexNonList(lt))),
                },
            }
        },
        ExprV::ListAssign(n, i, v) => match lookup(m.table, n) {
            None => (m, Err(TypeErr::UndefinedVariable(n))),
            Some(lt) => match lt {
                RType::List(inner) => {
                    let (m1, ri) = resolve(m, *i);
                    match ri {
                        Err(x) => (m1, Err(x)),
                        Ok((ti, it)) => if it != RType::I32 {
                            (m1, Err(TypeErr::IndexNotI32(it)))
                        } else {
                            let (m2, rv) = resolve(m1, *v);
                            match rv {
                                Err(x) => (m2, Err(x)),
                                Ok((tv, vt)) => if vt != *inner {
                                    (m2, Err(TypeErr::AssignElementMismatch(vt, *inner)))
                                } else {
                                    (
                                        m2,
                                        Ok(
                                            (
                                                TExpr::ListAssign(n, Box::new(ti), Box::new(tv)),
                                                RType::Void,
                                            ),
                                        ),
                                    )
                                },
                            }
                        },
                    }
                },
                _ => (m, Err(TypeErr::IndexNonList(lt))),
            },
        },
        ExprV::Len(v) => {
            let (m1, r) = resolve(m, *v);
            match r {
                Err(x) => (m1, Err(x)),
                Ok((tv, vt)) => match vt {
                    RType::List(_) => (m1, Ok((TExpr::Len(Box::new(tv)), RType::I32))),
                    _ => (m1, Err(TypeErr::LenNonList(vt))),
                },
            }
        },
        ExprV::Nil => (m, Err(TypeErr::Unsupported)),
        ExprV::FuncArg(_, _) => (m, Err(TypeErr::Unsupported)),
        ExprV::BreakStmt => (m, Err(TypeErr::Unsupported)),
    }
}

/// Resolves `s[i]`, `s[i + 1]`, ... in order, appending the typed nodes to
/// `acc`; the type is that of the last node resolved (`last` if none is).
pub open spec fn resolve_seq(
    m: ResolverModel,
    s: Seq<ExprV>,
    i: int,
    acc: Seq<TExpr>,
    last: RType,
) -> (ResolverModel, Result<(Seq<TExpr>, RType), TypeErr>)
    decreases s, s.len() - i,
{
    if i < 0 || i >= s.len() {
        (m, Ok((acc, last)))
    } else {
        let (m1, r) = resolve(m, s[i]);
        match r {
            Err(x) => (m1, Err(x)),
            Ok((t, ty)) => resolve_seq(m1, s, i + 1, acc.push(t), ty),
        }
    }
}

/// Resolves the list elements `s[i]`, ... in order, each of which must have
/// type `et`.
pub open spec fn resolve_list(
    m: ResolverModel,
    s: Seq<ExprV>,
    i: int,
    acc: Seq<TExpr>,
    et: RType,
) -> (ResolverModel, Result<Seq<TExpr>, TypeErr>)
    decreases s, s.len() - i,
{
    if i < 0 || i >= s.len() {
        (m, Ok(acc))
    } else {
        let (m1, r) = resolve(m, s[i]);
        match r {
            Err(x) => (m1, Err(x)),
            Ok((t, ty)) => if ty != et {
                (m1, Err(TypeErr::ListElementMismatch(et, ty)))
            } else {
                resolve_list(m1, s, i + 1, acc.push(t), et)
            },
        }
    }
}

pub open spec fn result_model(r: Result<(TypedExpression, ResolvedType), TypeError>) -> Resolved {
    match r {
        Ok((te, t)) => Ok((te@, t@)),
        Err(e) => Err(e@),
    }
}

pub open spec fn seq_result_model(r: Result<(Vec<TypedExpression>, ResolvedType), TypeError>) -> Result<
    (Seq<TExpr>, RType),
    TypeErr,
> {
    match r {
        Ok((ts, t)) => Ok((TypedExpression::model_seq(ts@), t@)),
        Err(e) => Err(e@),
    }
}

pub open spec fn list_result_model(r: Result<Vec<TypedExpression>, TypeError>) -> Result<Seq<TExpr>, TypeErr> {
    match r {
        Ok(ts) => Ok(TypedExpression::model_seq(ts@)),
        Err(e) => Err(e@),
    }
}

/// Appending to a sequence of nodes appends to its model.
proof fn lemma_texpr_push(s: Seq<TypedExpression>, t: TypedExpression)
    ensures
        TypedExpression::model_seq(s.push(t)) == TypedExpression::model_seq(s).push(t@),
{
    assert(s.push(t).subrange(0, s.len() as int) == s);
}

/// Whether `op` is the operator spelled `lit`.
fn op_is(op: &String, lit: &str) -> (r: bool)
    ensures
        r == (op@ == lit@),
{
    crate::text::str_eq(op.as_str(), lit)
}

impl TypeResolver {
    /// The resolved type of an annotation.
    fn resolve_type(&self, ty: &Type) -> (r: ResolvedType)
        ensures
            r@ == resolve_type_spec(*ty),
        decreases ty,
    {
        match ty {
            Type::Unspecified => ResolvedType::Void,
            Type::i32 => ResolvedType::I32,
            Type::i64 => ResolvedType::I64,
            Type::String => ResolvedType::String,
            Type::Bool => ResolvedType::Bool,
            Type::List(inner) => ResolvedType::List(Box::new(self.resolve_type(inner))),
        }
    }

    /// The type of `l op r`.
    fn binary_result_type(op: &String, l: ResolvedType, r: ResolvedType) -> (t: ResolvedType)
        ensures
            t@ == binary_type(op@, l@, r@),
    {
        proof {
            reveal_strlit("==");
            reveal_strlit("!=");
            reveal_strlit("<");
            reveal_strlit("<=");
            reveal_strlit(">");
            reveal_strlit(">=");
            reveal_strlit("+");
            reveal_strlit("-");
            reveal_strlit("*");
            reveal_strlit("/");
            assert("=="@ =~= seq!['=', '=']);
            assert("!="@ =~= seq!['!', '=']);
            assert("<"@ =~= seq!['<']);
            assert("<="@ =~= seq!['<', '=']);
            assert(">"@ =~= seq!['>']);
            assert(">="@ =~= seq!['>', '=']);
            assert("+"@ =~= seq!['+']);
            assert("-"@ =~= seq!['-']);
            assert("*"@ =~= seq!['*']);
            assert("/"@ =~= seq!['/']);
        }
        let cmp_op = op_is(op, "==") || op_is(op, "!=") || op_is(op, "<") || op_is(op, "<=")
            || op_is(op, ">") || op_is(op, ">=");
        if cmp_op {
            return ResolvedType::Bool;
        }
        let arith = op_is(op, "+") || op_is(op, "-") || op_is(op, "*") || op_is(op, "/");
        if arith {
            match (&l, &r) {
                (ResolvedType::I32, ResolvedType::I32) => return ResolvedType::I32,
                (ResolvedType::I64, ResolvedType::I64) => return ResolvedType::I64,
                (ResolvedType::I32, ResolvedType::I64) => return ResolvedType::I64,
                (ResolvedType::I64, ResolvedType::I32) => return ResolvedType::I64,
                _ => {},
            }
        }
        ResolvedType::Binary(Box::new(l), op.clone(), Box::new(r))
    }

    /// Declares the parameters `ps` in order.
    fn set_params(&mut self, ps: &Vec<(String, ResolvedType)>)
        ensures
            final(self)@ == old(self)@.set_all(model_params(ps@)),
    {
        let ghost p = model_params(ps@);
        assert(p.skip(0) =~= p);
        let mut i: usize = 0;
        while i < ps.len()
            invariant
                i <= ps@.len(),
                p == model_params(ps@),
                old(self)@.set_all(p) == self@.set_all(p.skip(i as int)),
            decreases ps@.len() - i,
        {
            let ghost before = self@;
            let ty = ps[i].1.copy();
            self.set_variable(&ps[i].0, ty);
            assert(p.skip(i as int).drop_first() == p.skip(i as int + 1));
            assert(p.skip(i as int)[0] == p[i as int]);
            i = i + 1;
        }
        assert(p.skip(ps@.len() as int) == Seq::<(Seq<char>, RType)>::empty());
    }

    /// Resolves the nodes `stmts` in order.
    fn resolve_sequence(&mut self, stmts: &Vec<Expression>) -> (r: Result<
        (Vec<TypedExpression>, ResolvedType),
        TypeError,
    >)
        ensures
            ({
                let (m, sr) = resolve_seq(
                    old(self)@,
                    Expression::model_seq(stmts@),
                    0,
                    Seq::empty(),
                    RType::Void,
                );
                final(self)@ == m && seq_result_model(r) == sr
            }),
        decreases stmts@, 0nat,
    {
        proof {
            lemma_expr_model_seq(stmts@);
        }
        let ghost s = Expression::model_seq(stmts@);
        let mut acc: Vec<TypedExpression> = Vec::new();
        let mut last = ResolvedType::Void;
        let mut i: usize = 0;
        assert(TypedExpression::model_seq(acc@) == Seq::<TExpr>::empty());
        while i < stmts.len()
            invariant
                i <= stmts@.len(),
                s == Expression::model_seq(stmts@),
                s.len() == stmts@.len(),
                forall|k: int| 0 <= k < stmts@.len() ==> #[trigger] s[k] == stmts@[k].model(),
                resolve_seq(old(self)@, s, 0, Seq::empty(), RType::Void) == resolve_seq(
                    self@,
                    s,
                    i as int,
                    TypedExpression::model_seq(acc@),
                    last@,
                ),
            decreases stmts@.len() - i,
        {
            assert(decreases_to!(stmts@ => stmts@[i as int]));
            let r = self.resolve_node(&stmts[i]);
            match r {
                Err(e) => {
                    return Err(e);
                },
                Ok((t, ty)) => {
                    proof {
                        lemma_texpr_push(acc@, t);
                    }
                    acc.push(t);
                    last = ty;
                },
            }
            i = i + 1;
        }
        Ok((acc, last))
    }

    /// Resolves the list elements `elems[1]`, ... in order, each of which
    /// must have type `et`; `first` is the typed first element.
    fn resolve_elements(&mut self, elems: &Vec<Expression>, first: TypedExpression, et: &ResolvedType) -> (r: Result<
        Vec<TypedExpression>,
        TypeError,
    >)
        requires
            elems@.len() >= 1,
        ensures
            ({
                let (m, sr) = resolve_list(
                    old(self)@,
                    Expression::model_seq(elems@),
                    1,
                    seq![first@],
                    et@,
                );
                final(self)@ == m && list_result_model(r) == sr
            }),
        decreases elems@, 0nat,
    {
        proof {
            lemma_expr_model_seq(elems@);
        }
        let ghost s = Expression::model_seq(elems@);
        let mut acc: Vec<TypedExpression> = Vec::new();
        proof {
            lemma_texpr_push(acc@, first);
        }
        acc.push(first);
        assert(TypedExpression::model_seq(Seq::<TypedExpression>::empty()) == Seq::<TExpr>::empty());
        assert(acc@ == Seq::<TypedExpression>::empty().push(first));
        let mut i: usize = 1;
        while i < elems.len()
            invariant
                1 <= i <= elems@.len(),
                s == Expression::model_seq(elems@),
                s.len() == elems@.len(),
                forall|k: int| 0 <= k < elems@.len() ==> #[trigger] s[k] == elems@[k].model(),
                resolve_list(old(self)@, s, 1, seq![first@], et@) == resolve_list(
                    self@,
                    s,
                    i as int,
                    TypedExpression::model_seq(acc@),
                    et@,
                ),
            decreases elems@.len() - i,
        {
            assert(decreases_to!(elems@ => elems@[i as int]));
            let r = self.resolve_node(&elems[i]);
            match r {
                Err(e) => {
                    return Err(e);
                },
                Ok((t, ty)) => {
                    if !ty.same(et) {
                        return Err(TypeError::ListElementMismatch(et.copy(), ty));
                    }
                    proof {
                        lemma_texpr_push(acc@, t);
                    }
                    acc.push(t);
                },
            }
            i = i + 1;
        }
        Ok(acc)
    }
}

impl TypeResolver {
    /// Resolves one node: gives it a type, records declarations in the symbol
    /// table, and returns the typed node with its type. The node must not lead
    /// resolution to a node that the resolver does not handle (`nil`, `break`,
    /// a parameter outside a function header).
    pub fn resolve_expression(&mut self, expr: &Expression) -> (r: Result<
        (TypedExpression, ResolvedType),
        TypeError,
    >)
        requires
            resolve(old(self)@, expr@).1 != Err::<(TExpr, RType), TypeErr>(TypeErr::Unsupported),
        ensures
            (final(self)@, result_model(r)) == resolve(old(self)@, expr@),
    {
        self.resolve_node(expr)
    }

    /// Resolves one node; reaching a node that the resolver does not handle
    /// gives `Unsupported`.
    pub(crate) fn resolve_node(&mut self, expr: &Expression) -> (r: Result<
        (TypedExpression, ResolvedType),
        TypeError,
    >)
        ensures
            (final(self)@, result_model(r)) == resolve(old(self)@, expr@),
        decreases expr, 1nat,
    {
        match expr {
            Expression::Number(val) => Ok((TypedExpression::Number32 { value: *val }, ResolvedType::I32)),
            Expression::Number64(val) => Ok((TypedExpression::Number64 { value: *val }, ResolvedType::I64)),
            Expression::String(val) => {
                let r = Ok((TypedExpression::String { value: val.clone() }, ResolvedType::String));
                r
            },
            Expression::Bool(val) => Ok((TypedExpression::Bool { value: *val }, ResolvedType::Bool)),
            Expression::Binary(..) => self.resolve_binary(expr),
            Expression::FuncStmt(..) => self.resolve_function(expr),
            Expression::BlockStmt(statements) => {
                self.incr_depth();
                let (typed_statements, last_type) = self.resolve_sequence(statements)?;
                self.decr_depth();
                let r = Ok((TypedExpression::BlockStmt { statements: typed_statements }, last_type));
                r
            },
            Expression::Variable(name) => {
                let r = match self.get_variable(name) {
                    Some(t) => Ok((TypedExpression::Variable { name: name.clone() }, t.copy())),
                    None => Err(TypeError::UndefinedVariable(name.clone())),
                };
                r
            },
            Expression::Print(value) => {
                let (typed_value, _) = self.resolve_node(value)?;
                let r = Ok((TypedExpression::Print { value: Box::new(typed_value) }, ResolvedType::Void));
                r
            },
            Expression::ReturnStmt(value) => {
                let (typed_value, value_ty) = self.resolve_node(value)?;
                let r = Ok((TypedExpression::ReturnStmt { value: Box::new(typed_value) }, value_ty));
                r
            },
            Expression::CallStmt(name, args) => {
                let (typed_args, _) = self.resolve_sequence(args)?;
                let callee = TypedExpression::Variable { name: name.clone() };
                assert(callee@ == TExpr::Variable(name@));
                let ghost sr = resolve_seq(old(self)@, Expression::model_seq(args@), 0, Seq::empty(), RType::Void);
                assert(sr.0 == self@);
                assert(sr.1 is Ok);
                assert(expr@ == ExprV::CallStmt(name@, Expression::model_seq(args@)));
                let r = Ok(
                    (
                        TypedExpression::CallStmt {
                            callee: Box::new(TypedExpression::Variable { name: name.clone() }),
                            args: typed_args,
                        },
                        ResolvedType::Void,
                    ),
                );
                r
            },
            Expression::LetStmt(..) => self.resolve_let(expr),
            Expression::IfStmt(..) => self.resolve_if(expr),
            Expression::WhileStmt(..) => self.resolve_while(expr),
            Expression::ForStmt(var_name, start, end, step, body) => {
                self.incr_depth();
                self.set_variable(var_name, ResolvedType::I32);
                let (typed_body, _body_type) = self.resolve_node(body)?;
                self.decr_depth();
                let r = Ok(
                    (
                        TypedExpression::ForStmt {
                            var_name: var_name.clone(),
                            start: *start,
                            end: *end,
                            step: *step,
                            body: Box::new(typed_body),
                        },
                        ResolvedType::Void,
                    ),
                );
                r
            },
            Expression::Grouping(inner) => {
                let (typed_inner, inner_type) = self.resolve_node(inner)?;
                let r = Ok((TypedExpression::Grouping { inner: Box::new(typed_inner) }, inner_type));
                r
            },
            Expression::List(..) => self.resolve_list_literal(expr),
            Expression::ListIndex(..) => self.resolve_list_index(expr),
            Expression::ListAssign(..) => self.resolve_list_assign(expr),
            Expression::Len(value) => {
                let (typed_value, value_type) = self.resolve_node(value)?;
                match value_type {
                    ResolvedType::List(_) => {},
                    _ => {
                        return Err(TypeError::LenNonList(value_type));
                    },
                }
                let r = Ok((TypedExpression::Len { value: Box::new(typed_value) }, ResolvedType::I32));
                r
            },
            Expression::Nil => Err(TypeError::Unsupported),
            Expression::FuncArg(_, _) => Err(TypeError::Unsupported),
            Expression::BreakStmt => Err(TypeError::Unsupported),
        }
    }

    fn resolve_binary(&mut self, expr: &Expression) -> (r: Result<(TypedExpression, ResolvedType), TypeError>)
        requires
            expr is Binary,
        ensures
            (final(self)@, result_model(r)) == resolve(old(self)@, expr@),
        decreases expr, 0nat,
    {
        match expr {
            Expression::Binary(left, op, right) => {
                let (lhs, lhs_ty) = self.resolve_node(left)?;
                let (rhs, rhs_ty) = self.resolve_node(right)?;
                let result_type = Self::binary_result_type(op, lhs_ty, rhs_ty);
                Ok(
                    (
                        TypedExpression::Binary {
                            left: Box::new(lhs),
                            op: op.clone(),
                            right: Box::new(rhs),
                        },
                        result_type,
                    ),
                )
            },
            _ => Err(TypeError::Unsupported),
        }
    }

    /// The typed parameters of a function header, or `ExpectedFuncArg`.
    fn function_params(&self, args: &Vec<Expression>) -> (r: Result<Vec<(String, ResolvedType)>, TypeError>)
        ensures
            match r {
                Ok(ps) => params_of(Expression::model_seq(args@)) == Some(model_params(ps@)),
                Err(e) => params_of(Expression::model_seq(args@)) is None && e@ == TypeErr::ExpectedFuncArg,
            },
    {
        proof {
            lemma_expr_model_seq(args@);
        }
        let ghost am = Expression::model_seq(args@);
        let mut typed_args: Vec<(String, ResolvedType)> = Vec::new();
        let mut i: usize = 0;
        while i < args.len()
            invariant
                i <= args@.len(),
                am == Expression::model_seq(args@),
                am.len() == args@.len(),
                forall|k: int| 0 <= k < args@.len() ==> #[trigger] am[k] == args@[k].model(),
                typed_args@.len() == i,
                forall|k: int| 0 <= k < i ==> #[trigger] is_param(am[k]),
                forall|k: int| 0 <= k < i ==> #[trigger] model_params(typed_args@)[k] == param_of(am[k]),
            decreases args@.len() - i,
        {
            match &args[i] {
                Expression::FuncArg(arg_name, arg_type) => {
                    let resolved = self.resolve_type(arg_type);
                    let ghost before = typed_args@;
                    typed_args.push((arg_name.clone(), resolved));
                    assert forall|k: int| 0 <= k < i + 1 implies #[trigger] model_params(typed_args@)[k]
                        == param_of(am[k]) by {
                        if k < i {
                            assert(model_params(typed_args@)[k] == model_params(before)[k]);
                        }
                    }
                },
                _ => {
                    assert(!is_param(am[i as int]));
                    return Err(TypeError::ExpectedFuncArg);
                },
            }
            i = i + 1;
        }
        assert(model_params(typed_args@) =~= Seq::new(am.len(), |k: int| param_of(am[k])));
        Ok(typed_args)
    }

    fn resolve_function(&mut self, expr: &Expression) -> (r: Result<(TypedExpression, ResolvedType), TypeError>)
        requires
            expr is FuncStmt,
        ensures
            (final(self)@, result_model(r)) == resolve(old(self)@, expr@),
        decreases expr, 0nat,
    {
        match expr {
            Expression::FuncStmt(name, args, return_type, body) => {
                let typed_args = self.function_params(args)?;
                let ghost ps = model_params(typed_args@);
                let resolved_return_type = self.resolve_type(return_type);
                self.incr_depth();
                self.set_params(&typed_args);
                let (typed_body, _body_ty) = self.resolve_node(body)?;
                self.decr_depth();
                let mut arg_types: Vec<ResolvedType> = Vec::new();
                let mut j: usize = 0;
                while j < typed_args.len()
                    invariant
                        j <= typed_args@.len(),
                        ps == model_params(typed_args@),
                        arg_types@.len() == j,
                        forall|k: int| 0 <= k < j ==> #[trigger] arg_types@[k]@ == ps[k].1,
                    decreases typed_args@.len() - j,
                {
                    arg_types.push(typed_args[j].1.copy());
                    j = j + 1;
                }
                proof {
                    crate::typed_ast::lemma_rtype_model_seq(arg_types@);
                    assert(ps.len() == typed_args@.len());
                    assert forall|k: int| 0 <= k < ps.len() implies ResolvedType::model_seq(arg_types@)[k] == ps[k].1 by {
                        assert(ResolvedType::model_seq(arg_types@)[k] == arg_types@[k].model());
                        assert(arg_types@[k]@ == ps[k].1);
                    }
                }
                assert(ResolvedType::model_seq(arg_types@) =~= Seq::new(ps.len(), |k: int| ps[k].1));
                let func_type = ResolvedType::Function(arg_types, Box::new(resolved_return_type.copy()));
                Ok(
                    (
                        TypedExpression::FuncStmt {
                            name: name.clone(),
                            args: typed_args,
                            return_type: resolved_return_type,
                            body: Box::new(typed_body),
                        },
                        func_type,
                    ),
                )
            },
            _ => Err(TypeError::Unsupported),
        }
    }

    fn resolve_let(&mut self, expr: &Expression) -> (r: Result<(TypedExpression, ResolvedType), TypeError>)
        requires
            expr is LetStmt,
        ensures
            (final(self)@, result_model(r)) == resolve(old(self)@, expr@),
        decreases expr, 0nat,
    {
        match expr {
            Expression::LetStmt(name, var_type, value) => {
                let (typed_value, value_type) = self.resolve_node(value)?;
                match self.get_variable(name) {
                    Some(existing_type) => {
                        if !existing_type.same(&value_type) {
                            return Err(
                                TypeError::ReassignMismatch(name.clone(), existing_type.copy(), value_type),
                            );
                        }
                        return Ok(
                            (
                                TypedExpression::AssignStmt {
                                    name: name.clone(),
                                    value: Box::new(typed_value),
                                },
                                ResolvedType::Void,
                            ),
                        );
                    },
                    None => {},
                }
                let declared_type = self.resolve_type(var_type);
                let declared_void = declared_type.same(&ResolvedType::Void);
                if !declared_void && !declared_type.same(&value_type) {
                    return Err(TypeError::DeclarationMismatch(name.clone(), declared_type, value_type));
                }
                let final_type = if declared_void {
                    value_type
                } else {
                    declared_type
                };
                self.set_variable(name, final_type.copy());
                Ok(
                    (
                        TypedExpression::LetStmt {
                            name: name.clone(),
                            var_type: Some(final_type.copy()),
                            value: Box::new(typed_value),
                        },
                        final_type,
                    ),
                )
            },
            _ => Err(TypeError::Unsupported),
        }
    }

    fn resolve_if(&mut self, expr: &Expression) -> (r: Result<(TypedExpression, ResolvedType), TypeError>)
        requires
            expr is IfStmt,
        ensures
            (final(self)@, result_model(r)) == resolve(old(self)@, expr@),
        decreases expr, 0nat,
    {
        match expr {
            Expression::IfStmt(condition, then_branch, else_branch) => {
                let (typed_condition, cond_type) = self.resolve_node(condition)?;
                if !cond_type.same(&ResolvedType::Bool) {
                    return Err(TypeError::IfConditionNotBool(cond_type));
                }
                let (typed_then, _then_type) = self.resolve_node(then_branch)?;
                let typed_else = match &**else_branch {
                    Some(else_expr) => {
                        let (typed_else_branch, _else_type) = self.resolve_node(else_expr)?;
                        Some(Box::new(typed_else_branch))
                    },
                    None => None,
                };
                Ok(
                    (
                        TypedExpression::IfStmt {
                            condition: Box::new(typed_condition),
                            then_branch: Box::new(typed_then),
                            else_branch: typed_else,
                        },
                        ResolvedType::Void,
                    ),
                )
            },
            _ => Err(TypeError::Unsupported),
        }
    }

    fn resolve_while(&mut self, expr: &Expression) -> (r: Result<(TypedExpression, ResolvedType), TypeError>)
        requires
            expr is WhileStmt,
        ensures
            (final(self)@, result_model(r)) == resolve(old(self)@, expr@),
        decreases expr, 0nat,
    {
        match expr {
            Expression::WhileStmt(condition, body) => {
                let (typed_condition, cond_type) = self.resolve_node(condition)?;
                if !cond_type.same(&ResolvedType::Bool) {
                    return Err(TypeError::WhileConditionNotBool(cond_type));
                }
                let (typed_body, _body_type) = self.resolve_node(body)?;
                Ok(
                    (
                        TypedExpression::WhileStmt {
                            condition: Box::new(typed_condition),
                            body: Box::new(typed_body),
                        },
                        ResolvedType::Void,
                    ),
                )
            },
            _ => Err(TypeError::Unsupported),
        }
    }

    fn resolve_list_literal(&mut self, expr: &Expression) -> (r: Result<(TypedExpression, ResolvedType), TypeError>)
        requires
            expr is List,
        ensures
            (final(self)@, result_model(r)) == resolve(old(self)@, expr@),
        decreases expr, 0nat,
    {
        match expr {
            Expression::List(elements) => {
                proof {
                    lemma_expr_model_seq(elements@);
                }
                if elements.len() == 0 {
                    return Err(TypeError::EmptyList);
                }
                assert(decreases_to!(elements@ => elements@[0]));
                let (first_typed, element_type) = self.resolve_node(&elements[0])?;
                let typed_elements = self.resolve_elements(elements, first_typed, &element_type)?;
                let list_type = ResolvedType::List(Box::new(element_type.copy()));
                Ok((TypedExpression::List { elements: typed_elements, element_type }, list_type))
            },
            _ => Err(TypeError::Unsupported),
        }
    }

    fn resolve_list_index(&mut self, expr: &Expression) -> (r: Result<(TypedExpression, ResolvedType), TypeError>)
        requires
            expr is ListIndex,
        ensures
            (final(self)@, result_model(r)) == resolve(old(self)@, expr@),
        decreases expr, 0nat,
    {
        match expr {
            Expression::ListIndex(list, index) => {
                let (typed_list, list_type) = self.resolve_node(list)?;
                let element_type = match list_type {
                    ResolvedType::List(inner) => *inner,
                    _ => {
                        return Err(TypeError::IndexNonList(list_type));
                    },
                };
                let (typed_index, index_type) = self.resolve_node(index)?;
                if !index_type.same(&ResolvedType::I32) {
                    return Err(TypeError::IndexNotI32(index_type));
                }
                Ok(
                    (
                        TypedExpression::ListIndex {
                            list: Box::new(typed_list),
                            index: Box::new(typed_index),
                        },
                        element_type,
                    ),
                )
            },
            _ => Err(TypeError::Unsupported),
        }
    }

    fn resolve_list_assign(&mut self, expr: &Expression) -> (r: Result<(TypedExpression, ResolvedType), TypeError>)
        requires
            expr is ListAssign,
        ensures
            (final(self)@, result_model(r)) == resolve(old(self)@, expr@),
        decreases expr, 0nat,
    {
        match expr {
            Expression::ListAssign(name, index, value) => {
                let list_type = match self.get_variable(name) {
                    Some(t) => t.copy(),
                    None => {
                        return Err(TypeError::UndefinedVariable(name.clone()));
                    },
                };
                let element_type = match list_type {
                    ResolvedType::List(inner) => *inner,
                    _ => {
                        return Err(TypeError::IndexNonList(list_type));
                    },
                };
                let (typed_index, index_type) = self.resolve_node(index)?;
                if !index_type.same(&ResolvedType::I32) {
                    return Err(TypeError::IndexNotI32(index_type));
                }
                let (typed_value, value_type) = self.resolve_node(value)?;
                if !value_type.same(&element_type) {
                    return Err(TypeError::AssignElementMismatch(value_type, element_type));
                }
                Ok(
                    (
                        TypedExpression::ListAssign {
                            name: name.clone(),
                            index: Box::new(typed_index),
                            value: Box::new(typed_value),
                        },
                        ResolvedType::Void,
                    ),
                )
            },
            _ => Err(TypeError::Unsupported),
        }
    }
}

/// `position_from` finds the first entry named `k` at or after `i`.
proof fn lemma_position_from(t: Seq<Entry>, k: Seq<char>, i: int)
    requires
        0 <= i,
    ensures
        match position_from(t, k, i) {
            Some(j) => i <= j < t.len() && t[j].0 == k && forall|x: int| i <= x < j ==> t[x].0 != k,
            None => forall|x: int| i <= x < t.len() ==> t[x].0 != k,
        },
    decreases t.len() - i,
{
    if i < t.len() && t[i].0 != k {
        lemma_position_from(t, k, i + 1);
    }
}

/// Characterizes `position` as the first entry with the name.
proof fn lemma_position(t: Seq<Entry>, k: Seq<char>, j: int)
    requires
        0 <= j < t.len(),
        t[j].0 == k,
        forall|x: int| 0 <= x < j ==> t[x].0 != k,
    ensures
        position(t, k) == Some(j),
{
    lemma_position_from(t, k, 0);
    match position(t, k) {
        Some(p) => {
            if p < j {
                assert(t[p].0 != k);
            } else if p > j {
                assert(t[j].0 != k);
            }
        },
        None => {
            assert(t[j].0 != k);
        },
    }
}

/// Characterizes `position` when no entry has the name.
proof fn lemma_position_none(t: Seq<Entry>, k: Seq<char>)
    requires
        forall|x: int| 0 <= x < t.len() ==> t[x].0 != k,
    ensures
        position(t, k) is None,
{
    lemma_position_from(t, k, 0);
    if let Some(p) = position(t, k) {
        assert(t[p].0 == k);
    }
}

/// Reading a name right after binding it gives the bound type; binding a
/// name leaves every other name's type as it was.
pub proof fn law_lookup_after_insert(t: Seq<Entry>, k: Seq<char>, v: RType, k2: Seq<char>)
    ensures
        lookup(insert(t, k, v), k) == Some(v),
        k2 != k ==> lookup(insert(t, k, v), k2) == lookup(t, k2),
{
    lemma_position_from(t, k, 0);
    let t2 = insert(t, k, v);
    match position(t, k) {
        Some(i) => {
            lemma_position(t2, k, i);
        },
        None => {
            lemma_position(t2, k, t.len() as int);
        },
    }
    if k2 != k {
        lemma_position_from(t, k2, 0);
        match position(t, k2) {
            Some(j) => {
                lemma_position(t2, k2, j);
            },
            None => {
                lemma_position_none(t2, k2);
            },
        }
    }
}

/// Removing a name makes it unbound and leaves every other name's type as
/// it was.
pub proof fn law_lookup_after_remove(t: Seq<Entry>, k: Seq<char>, k2: Seq<char>)
    ensures
        k2 != k ==> lookup(remove(t, k), k2) == lookup(t, k2),
        (forall|x: int, y: int| 0 <= x < y < t.len() ==> t[x].0 != t[y].0) ==> lookup(remove(t, k), k) is None,
{
    lemma_position_from(t, k, 0);
    let t2 = remove(t, k);
    if k2 != k {
        lemma_position_from(t, k2, 0);
        match position(t, k) {
            Some(i) => {
                match position(t, k2) {
                    Some(j) => {
                        if j < i {
                            lemma_position(t2, k2, j);
                        } else {
                            assert(t2[j - 1] == t[j]);
                            assert forall|x: int| 0 <= x < j - 1 implies t2[x].0 != k2 by {
                                if x < i {
                                    assert(t2[x] == t[x]);
                                } else {
                                    assert(t2[x] == t[x + 1]);
                                }
                            }
                            lemma_position(t2, k2, j - 1);
                        }
                    },
                    None => {
                        assert forall|x: int| 0 <= x < t2.len() implies t2[x].0 != k2 by {
                            if x < i {
                                assert(t2[x] == t[x]);
                            } else {
                                assert(t2[x] == t[x + 1]);
                            }
                        }
                        lemma_position_none(t2, k2);
                    },
                }
            },
            None => {},
        }
    }
    if forall|x: int, y: int| 0 <= x < y < t.len() ==> t[x].0 != t[y].0 {
        match position(t, k) {
            Some(i) => {
                assert forall|x: int| 0 <= x < t2.len() implies t2[x].0 != k by {
                    if x < i {
                        assert(t2[x] == t[x]);
                    } else {
                        assert(t2[x] == t[x + 1]);
                    }
                }
                lemma_position_none(t2, k);
            },
            None => {},
        }
    }
}

/// Opening a scope and closing it again, with no declaration in between,
/// leaves the resolver as it was.
pub proof fn law_incr_then_decr(m: ResolverModel)
    ensures
        m.incr().decr() == m,
{
    assert(m.incr().scopes.drop_last() =~= m.scopes);
}

/// No two entries of the table have the same name.
pub open spec fn distinct_names(t: Seq<Entry>) -> bool {
    forall|x: int, y: int| 0 <= x < y < t.len() ==> t[x].0 != t[y].0
}

/// Binding a name keeps the names of the table distinct.
pub proof fn lemma_insert_distinct(t: Seq<Entry>, k: Seq<char>, v: RType)
    requires
        distinct_names(t),
    ensures
        distinct_names(insert(t, k, v)),
{
    lemma_position_from(t, k, 0);
}

/// A variable declared in a scope is gone once the scope closes, and the
/// other variables keep their types.
pub proof fn law_scope_forgets_declaration(m: ResolverModel, k: Seq<char>, v: RType, k2: Seq<char>)
    requires
        distinct_names(m.table),
    ensures
        lookup(m.incr().set_var(k, v).decr().table, k) is None,
        k2 != k ==> lookup(m.incr().set_var(k, v).decr().table, k2) == lookup(m.table, k2),
{
    let t1 = insert(m.table, k, v);
    let inner = m.incr().set_var(k, v);
    assert(inner.scopes.last() =~= seq![k]);
    assert(inner.decr().table == remove_all_from(t1, seq![k], 0));
    assert(remove_all_from(t1, seq![k], 0) == remove_all_from(remove(t1, k), seq![k], 1));
    lemma_insert_distinct(m.table, k, v);
    law_lookup_after_remove(t1, k, k2);
    law_lookup_after_insert(m.table, k, v, k2);
}


/// Removing a name keeps the names of the table distinct.
proof fn lemma_remove_distinct(t: Seq<Entry>, k: Seq<char>)
    requires
        distinct_names(t),
    ensures
        distinct_names(remove(t, k)),
{
    lemma_position_from(t, k, 0);
    match position(t, k) {
        Some(i) => {
            let t2 = t.remove(i);
            assert forall|x: int, y: int| 0 <= x < y < t2.len() implies t2[x].0 != t2[y].0 by {
                let xo = if x < i { x } else { x + 1 };
                let yo = if y < i { y } else { y + 1 };
                assert(t2[x] == t[xo]);
                assert(t2[y] == t[yo]);
            }
        },
        None => {},
    }
}

/// Removing the names `ks[i..]` unbinds exactly those names.
proof fn lemma_remove_all_from(t: Seq<Entry>, ks: Seq<Seq<char>>, i: int, n: Seq<char>)
    requires
        distinct_names(t),
        0 <= i <= ks.len(),
    ensures
        lookup(remove_all_from(t, ks, i), n) == if ks.subrange(i, ks.len() as int).contains(n) {
            None
        } else {
            lookup(t, n)
        },
    decreases ks.len() - i,
{
    if i < ks.len() {
        let t2 = remove(t, ks[i]);
        lemma_remove_distinct(t, ks[i]);
        lemma_remove_all_from(t2, ks, i + 1, n);
        law_lookup_after_remove(t, ks[i], n);
        let whole = ks.subrange(i, ks.len() as int);
        let rest = ks.subrange(i + 1, ks.len() as int);
        assert(whole[0] == ks[i]);
        if rest.contains(n) {
            let j = choose|j: int| 0 <= j < rest.len() && rest[j] == n;
            assert(whole[j + 1] == n);
        }
        if whole.contains(n) && n != ks[i] {
            let j = choose|j: int| 0 <= j < whole.len() && whole[j] == n;
            assert(j > 0);
            assert(rest[j - 1] == n);
        }
    } else {
        assert(ks.subrange(i, ks.len() as int).len() == 0);
    }
}

/// Closing a scope unbinds every name declared in it, and only those:
/// every other name keeps the type it had.
pub proof fn law_scope_forgets_all_declarations(m: ResolverModel, n: Seq<char>)
    requires
        distinct_names(m.table),
        m.scopes.len() > 0,
    ensures
        lookup(m.decr().table, n) == if m.scopes.last().contains(n) {
            None
        } else {
            lookup(m.table, n)
        },
        m.decr().scopes.len() == m.scopes.len() - 1,
{
    let ks = m.scopes.last();
    lemma_remove_all_from(m.table, ks, 0, n);
    assert(ks.subrange(0, ks.len() as int) == ks);
}

proof fn lemma_remove_all_distinct(t: Seq<Entry>, ks: Seq<Seq<char>>, i: int)
    requires
        distinct_names(t),
    ensures
        distinct_names(remove_all_from(t, ks, i)),
    decreases ks.len() - i,
{
    if 0 <= i < ks.len() {
        lemma_remove_distinct(t, ks[i]);
        lemma_remove_all_distinct(remove(t, ks[i]), ks, i + 1);
    }
}

/// The table of a new resolver has distinct names, and declaring, opening
/// and closing scopes keep them distinct; so every resolver that these
/// operations reach meets the condition of the scope laws.
pub proof fn law_operations_keep_names_distinct(m: ResolverModel, k: Seq<char>, v: RType)
    ensures
        distinct_names(ResolverModel::initial().table),
        distinct_names(m.table) ==> distinct_names(m.set_var(k, v).table),
        distinct_names(m.table) ==> distinct_names(m.incr().table),
        distinct_names(m.table) ==> distinct_names(m.decr().table),
{
    if distinct_names(m.table) {
        lemma_insert_distinct(m.table, k, v);
        if m.scopes.len() > 0 {
            lemma_remove_all_distinct(m.table, m.scopes.last(), 0);
        }
    }
}

/// Declaring parameters keeps the number of open scopes.
proof fn lemma_set_all_depth(m: ResolverModel, ps: Seq<(Seq<char>, RType)>)
    requires
        m.scopes.len() > 0,
    ensures
        m.set_all(ps).scopes.len() == m.scopes.len(),
    decreases ps.len(),
{
    if ps.len() > 0 {
        lemma_set_all_depth(m.set_var(ps[0].0, ps[0].1), ps.drop_first());
    }
}

/// Resolving a node that resolves without error leaves as many scopes open
/// as there were before: every scope that the node opens (a block, a
/// function body, a `for` loop) is closed again.
pub proof fn law_resolve_keeps_depth(m: ResolverModel, e: ExprV)
    requires
        m.scopes.len() > 0,
        resolve(m, e).1 is Ok,
    ensures
        resolve(m, e).0.scopes.len() == m.scopes.len(),
    decreases e, 0int,
{
    match e {
        ExprV::Binary(l, _, r) => {
            law_resolve_keeps_depth(m, *l);
            law_resolve_keeps_depth(resolve(m, *l).0, *r);
        },
        ExprV::FuncStmt(_, args, _, body) => {
            let ps = params_of(args)->0;
            lemma_set_all_depth(m.incr(), ps);
            law_resolve_keeps_depth(m.incr().set_all(ps), *body);
        },
        ExprV::BlockStmt(stmts) => {
            lemma_resolve_seq_depth(m.incr(), stmts, 0, Seq::empty(), RType::Void);
        },
        ExprV::Print(v) => {
            law_resolve_keeps_depth(m, *v);
        },
        ExprV::ReturnStmt(v) => {
            law_resolve_keeps_depth(m, *v);
        },
        ExprV::CallStmt(_, args) => {
            lemma_resolve_seq_depth(m, args, 0, Seq::empty(), RType::Void);
        },
        ExprV::LetStmt(_, _, v) => {
            law_resolve_keeps_depth(m, *v);
        },
        ExprV::IfStmt(c, th, el) => {
            law_resolve_keeps_depth(m, *c);
            let m1 = resolve(m, *c).0;
            law_resolve_keeps_depth(m1, *th);
            match el {
                Some(eb) => {
                    law_resolve_keeps_depth(resolve(m1, *th).0, *eb);
                },
                None => {},
            }
        },
        ExprV::WhileStmt(c, b) => {
            law_resolve_keeps_depth(m, *c);
            law_resolve_keeps_depth(resolve(m, *c).0, *b);
        },
        ExprV::ForStmt(n, _, _, _, b) => {
            law_resolve_keeps_depth(m.incr().set_var(n, RType::I32), *b);
        },
        ExprV::Grouping(inner) => {
            law_resolve_keeps_depth(m, *inner);
        },
        ExprV::List(elems) => {
            law_resolve_keeps_depth(m, elems[0]);
            let (m1, r0) = resolve(m, elems[0]);
            match r0 {
                Ok((t0, et)) => lemma_resolve_list_depth(m1, elems, 1, seq![t0], et),
                Err(_) => {},
            }
        },
        ExprV::ListIndex(l, i) => {
            law_resolve_keeps_depth(m, *l);
            law_resolve_keeps_depth(resolve(m, *l).0, *i);
        },
        ExprV::ListAssign(_, i, v) => {
            law_resolve_keeps_depth(m, *i);
            law_resolve_keeps_depth(resolve(m, *i).0, *v);
        },
        ExprV::Len(v) => {
            law_resolve_keeps_depth(m, *v);
        },
        _ => {},
    }
}

proof fn lemma_resolve_seq_depth(
    m: ResolverModel,
    s: Seq<ExprV>,
    i: int,
    acc: Seq<TExpr>,
    last: RType,
)
    requires
        m.scopes.len() > 0,
        resolve_seq(m, s, i, acc, last).1 is Ok,
    ensures
        resolve_seq(m, s, i, acc, last).0.scopes.len() == m.scopes.len(),
    decreases s, s.len() - i,
{
    if 0 <= i < s.len() {
        law_resolve_keeps_depth(m, s[i]);
        let (m1, r) = resolve(m, s[i]);
        match r {
            Ok((t, ty)) => lemma_resolve_seq_depth(m1, s, i + 1, acc.push(t), ty),
            Err(_) => {},
        }
    }
}

proof fn lemma_resolve_list_depth(m: ResolverModel, s: Seq<ExprV>, i: int, acc: Seq<TExpr>, et: RType)
    requires
        m.scopes.len() > 0,
        resolve_list(m, s, i, acc, et).1 is Ok,
    ensures
        resolve_list(m, s, i, acc, et).0.scopes.len() == m.scopes.len(),
    decreases s, s.len() - i,
{
    if 0 <= i < s.len() {
        law_resolve_keeps_depth(m, s[i]);
        let (m1, r) = resolve(m, s[i]);
        match r {
            Ok((t, _)) => lemma_resolve_list_depth(m1, s, i + 1, acc.push(t), et),
            Err(_) => {},
        }
    }
}


/// Indexing a list gives an element of it: when `l` resolves to a list of
/// `t` and `i` to an `i32`, `l[i]` resolves to `t` itself (not to the list
/// type), leaving the resolver as the operands left it. In particular
/// `xs[k]` for a variable `xs` bound to a list of `t` has type `t`.
pub proof fn law_index_gives_element_type(m: ResolverModel, l: ExprV, i: ExprV, n: Seq<char>, k: i32, t: RType)
    ensures
        resolve(m, l).1 matches Ok((tl, RType::List(et))) ==> (resolve(resolve(m, l).0, i).1 matches Ok(
            (ti, RType::I32),
        ) ==> resolve(m, ExprV::ListIndex(Box::new(l), Box::new(i))) == (
            resolve(resolve(m, l).0, i).0,
            Ok::<(TExpr, RType), TypeErr>((TExpr::ListIndex(Box::new(tl), Box::new(ti)), *et)),
        )),
        lookup(m.table, n) == Some(RType::List(Box::new(t))) ==> (resolve(
            m,
            ExprV::ListIndex(Box::new(ExprV::Variable(n)), Box::new(ExprV::Number(k))),
        ).1 matches Ok((_, ty)) && ty == t),
{
    if lookup(m.table, n) == Some(RType::List(Box::new(t))) {
        let v = ExprV::Variable(n);
        let x = ExprV::Number(k);
        assert(resolve(m, v) == (m, Ok::<(TExpr, RType), TypeErr>((TExpr::Variable(n), RType::List(Box::new(t))))));
        assert(resolve(m, x) == (m, Ok::<(TExpr, RType), TypeErr>((TExpr::Number32(k), RType::I32))));
        assert(resolve(m, ExprV::ListIndex(Box::new(v), Box::new(x))) == (
            m,
            Ok::<(TExpr, RType), TypeErr>((TExpr::ListIndex(Box::new(TExpr::Variable(n)), Box::new(TExpr::Number32(k))), t)),
        ));
    }
}


/// The type of an operation: a comparison (`== != < <= > >=`) is a
/// boolean whatever it compares; `+ - * /` on two `i32` give an `i32`, and
/// on an `i64` with an `i32` or `i64` give an `i64`; any other operator
/// keeps the operation in the type.
pub proof fn law_operation_types(op: Seq<char>, l: RType, r: RType)
    ensures
        binary_type("=="@, l, r) == RType::Bool,
        binary_type("!="@, l, r) == RType::Bool,
        binary_type("<"@, l, r) == RType::Bool,
        binary_type("<="@, l, r) == RType::Bool,
        binary_type(">"@, l, r) == RType::Bool,
        binary_type(">="@, l, r) == RType::Bool,
        binary_type("+"@, RType::I32, RType::I32) == RType::I32,
        binary_type("-"@, RType::I32, RType::I32) == RType::I32,
        binary_type("*"@, RType::I32, RType::I32) == RType::I32,
        binary_type("/"@, RType::I32, RType::I32) == RType::I32,
        binary_type("+"@, RType::I64, RType::I32) == RType::I64,
        binary_type("-"@, RType::I32, RType::I64) == RType::I64,
        binary_type("*"@, RType::I64, RType::I64) == RType::I64,
        binary_type("/"@, RType::I64, RType::I32) == RType::I64,
        op != "=="@ && op != "!="@ && op != "<"@ && op != "<="@ && op != ">"@ && op != ">="@ && op
            != "+"@ && op != "-"@ && op != "*"@ && op != "/"@ ==> binary_type(op, l, r)
            == RType::Binary(Box::new(l), op, Box::new(r)),
{
    reveal_strlit("+");
    reveal_strlit("-");
    reveal_strlit("*");
    reveal_strlit("/");
    reveal_strlit("==");
    reveal_strlit("!=");
    reveal_strlit("<");
    reveal_strlit("<=");
    reveal_strlit(">");
    reveal_strlit(">=");
    let lits = seq!["+"@, "-"@, "/"@, "*"@, "=="@, "!="@, "<"@, "<="@, ">"@, ">="@];
    assert forall|a: int, b: int| 0 <= a < b < lits.len() implies lits[a] != lits[b] by {
        if lits[a].len() == lits[b].len() {
            assert(lits[a][0] != lits[b][0] || lits[a][1] != lits[b][1]);
        }
    }
    assert("=="@ =~= seq!['=', '=']);
    assert("!="@ =~= seq!['!', '=']);
    assert("<="@ =~= seq!['<', '=']);
    assert(">="@ =~= seq!['>', '=']);
    assert("<"@ =~= seq!['<']);
    assert(">"@ =~= seq!['>']);
    assert("+"@ =~= seq!['+']);
    assert("-"@ =~= seq!['-']);
    assert("*"@ =~= seq!['*']);
    assert("/"@ =~= seq!['/']);
}

} // verus!

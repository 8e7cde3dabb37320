//! The checks that compiling runs before code generation: desugaring, type
//! resolution of each top-level statement in turn, the whole-program
//! validation rules and the semantic walk.
use vstd::prelude::*;
use crate::ast::{Expression, ExprV, lemma_expr_model_seq};
use crate::desugar::{desugar, steps_in_range, steps_in_range_seq, desugar_program};
use crate::type_resolver::{TypeResolver, TypeError, TypeErr, ResolverModel, resolve, Resolved};
use crate::typed_ast::{ResolvedType, RType, TypedExpression, TExpr};
use crate::semantic::{SemanticAnalyzer, SemanticError, program_model, has_main};
use crate::target::Target;

verus! {

/// Whether every `for` loop in the node has a step whose magnitude is an
/// `i32` (see [`steps_in_range`]).
pub fn steps_in_range_exec(e: &Expression) -> (r: bool)
    ensures
        r == steps_in_range(e@),
    decreases e,
{
    match e {
        Expression::ForStmt(_, _, _, step, _) => *step != i32::MIN,
        Expression::BlockStmt(stmts) => steps_in_range_vec(stmts),
        Expression::IfStmt(c, t, el) => {
            let a = steps_in_range_exec(c);
            let b = steps_in_range_exec(t);
            let d = match &**el {
                Some(x) => steps_in_range_exec(x),
                None => true,
            };
            a && b && d
        },
        Expression::WhileStmt(c, b) => {
            let a = steps_in_range_exec(c);
            let d = steps_in_range_exec(b);
            a && d
        },
        Expression::FuncStmt(_, _, _, b) => steps_in_range_exec(b),
        _ => true,
    }
}

fn steps_in_range_vec(v: &Vec<Expression>) -> (r: bool)
    ensures
        r == steps_in_range_seq(Expression::model_seq(v@)),
    decreases v@,
{
    let mut ok = true;
    let mut i: usize = 0;
    while i < v.len()
        invariant
            i <= v@.len(),
            ok == steps_in_range_seq(Expression::model_seq(v@.subrange(0, i as int))),
        decreases v@.len() - i,
    {
        assert(decreases_to!(v@ => v@[i as int]));
        let ghost s = v@.subrange(0, i as int + 1);
        assert(s.subrange(0, s.len() - 1) =~= v@.subrange(0, i as int));
        assert(Expression::model_seq(s) == Expression::model_seq(v@.subrange(0, i as int)).push(
            v@[i as int]@,
        ));
        proof {
            lemma_expr_model_seq(v@.subrange(0, i as int));
        }
        assert(Expression::model_seq(s).subrange(0, i as int) =~= Expression::model_seq(
            v@.subrange(0, i as int),
        ));
        let b = steps_in_range_exec(&v[i]);
        ok = ok && b;
        i = i + 1;
    }
    assert(v@.subrange(0, v@.len() as int) =~= v@);
    ok
}

/// Whether every top-level node of the program can be desugared.
pub fn program_steps_in_range(exprs: &Vec<Expression>) -> (r: bool)
    ensures
        r == forall|i: int| 0 <= i < exprs@.len() ==> #[trigger] steps_in_range(exprs@[i]@),
{
    let mut i: usize = 0;
    while i < exprs.len()
        invariant
            i <= exprs@.len(),
            forall|k: int| 0 <= k < i ==> #[trigger] steps_in_range(exprs@[k]@),
        decreases exprs@.len() - i,
    {
        if !steps_in_range_exec(&exprs[i]) {
            return false;
        }
        i = i + 1;
    }
    true
}

/// What resolving the statements `es` in turn gives, from a fresh resolver:
/// the resolver's state, and the typed statements or the first error.
pub open spec fn resolve_all(es: Seq<ExprV>) -> (ResolverModel, Result<Seq<(TExpr, RType)>, TypeErr>)
    decreases es.len(),
{
    if es.len() == 0 {
        (ResolverModel::initial(), Ok(Seq::empty()))
    } else {
        let (m, r) = resolve_all(es.drop_last());
        match r {
            Err(e) => (m, Err(e)),
            Ok(ps) => {
                let (m2, x) = resolve(m, es.last());
                match x {
                    Err(e) => (m2, Err(e)),
                    Ok(p) => (m2, Ok(ps.push(p))),
                }
            },
        }
    }
}

/// The desugared program, statement by statement.
pub open spec fn desugared(es: Seq<Expression>) -> Seq<ExprV> {
    Seq::new(es.len(), |i: int| desugar(es[i]@))
}

/// How a program is compiled: run at once or not, whether and which LLVM IR
/// is shown, and for which machine.
pub struct CompileOptions {
    /// Run the program's `main` after compiling it.
    pub is_execution_engine: bool,
    /// Show the LLVM IR of the module.
    pub emit_llvm_ir: bool,
    /// Show only `main` of the IR.
    pub emit_llvm_ir_main_only: bool,
    /// With `main`, show the functions it calls.
    pub emit_llvm_ir_with_called: bool,
    /// The machine to generate code for; the host when none.
    pub target: Option<Target>,
}

/// Why the checks refused a program.
#[derive(Debug)]
pub enum CompileError {
    /// Type resolution refused a statement.
    Type(TypeError),
    /// A validation rule refused the program.
    Semantic(SemanticError),
}

/// Runs the checks that precede code generation: desugars the program,
/// resolves its statements in order with one resolver, runs the default
/// validation rules on the typed program and walks it. Gives the typed
/// statements, the first type error, or the validation error when the
/// program has no `main` function. The program must not lead resolution to a
/// node that the resolver does not handle (see [`program_supported`]).
pub fn front_end(exprs: Vec<Expression>) -> (r: Result<Vec<(TypedExpression, ResolvedType)>, CompileError>)
    requires
        forall|i: int| 0 <= i < exprs@.len() ==> #[trigger] steps_in_range(exprs@[i]@),
        resolve_all(desugared(exprs@)).1 != Err::<Seq<(TExpr, RType)>, TypeErr>(TypeErr::Unsupported),
    ensures
        match r {
            Ok(p) => resolve_all(desugared(exprs@)).1 == Ok::<Seq<(TExpr, RType)>, TypeErr>(
                program_model(p@),
            ) && has_main(program_model(p@)),
            Err(CompileError::Type(e)) => resolve_all(desugared(exprs@)).1 == Err::<
                Seq<(TExpr, RType)>,
                TypeErr,
            >(e@),
            Err(CompileError::Semantic(SemanticError::RuleFailed { rule, reason })) => (exists|
                p: Seq<(TExpr, RType)>,
            |
                resolve_all(desugared(exprs@)).1 == Ok::<Seq<(TExpr, RType)>, TypeErr>(p)
                    && !has_main(p)) && rule@ == "require-main-function"@ && reason@
                == "Program must contain a 'main' function as the entry point"@,
        },
{
    let ghost ds = desugared(exprs@);
    let prog = desugar_program(exprs);
    assert(Seq::new(prog@.len(), |i: int| prog@[i]@) =~= ds);
    let mut resolver = TypeResolver::new();
    let mut typed: Vec<(TypedExpression, ResolvedType)> = Vec::new();
    let mut i: usize = 0;
    assert(ds.subrange(0, 0) =~= Seq::<ExprV>::empty());
    assert(program_model(typed@) =~= Seq::<(TExpr, RType)>::empty());
    while i < prog.len()
        invariant
            i <= prog@.len(),
            ds == desugared(exprs@),
            ds.len() == prog@.len(),
            forall|k: int| 0 <= k < prog@.len() ==> #[trigger] ds[k] == prog@[k]@,
            resolve_all(ds.subrange(0, i as int)) == (
                resolver@,
                Ok::<Seq<(TExpr, RType)>, TypeErr>(program_model(typed@)),
            ),
        decreases prog@.len() - i,
    {
        let ghost sub = ds.subrange(0, i as int + 1);
        assert(sub.drop_last() =~= ds.subrange(0, i as int));
        assert(sub.last() == prog@[i as int]@);
        match resolver.resolve_node(&prog[i]) {
            Err(e) => {
                assert(resolve_all(sub).1 == Err::<Seq<(TExpr, RType)>, TypeErr>(e@));
                proof {
                    lemma_resolve_all_err(ds, i as int + 1);
                }
                assert(resolve_all(ds).1 == Err::<Seq<(TExpr, RType)>, TypeErr>(e@));
                return Err(CompileError::Type(e));
            },
            Ok((te, ty)) => {
                let ghost before = typed@;
                typed.push((te, ty));
                assert(program_model(typed@) =~= program_model(before).push((te@, ty@)));
            },
        }
        i = i + 1;
    }
    assert(ds.subrange(0, ds.len() as int) =~= ds);
    let mut analyzer = SemanticAnalyzer::new();
    let ghost pm = program_model(typed@);
    let sl = typed.as_slice();
    assert(sl@ == typed@);
    match analyzer.validate_program(sl) {
        Err(e) => {
            assert(!analyzer.accepts_all(pm));
            assert(!has_main(pm));
            assert(resolve_all(ds).1 == Ok::<Seq<(TExpr, RType)>, TypeErr>(pm));
            return Err(CompileError::Semantic(e));
        },
        Ok(()) => {
            assert(analyzer.accepts_all(pm));
            assert(has_main(pm));
        },
    }
    let mut k: usize = 0;
    while k < typed.len()
        invariant
            k <= typed@.len(),
        decreases typed@.len() - k,
    {
        let _ = analyzer.analyze(&typed[k].0);
        k = k + 1;
    }
    Ok(typed)
}


/// Whether resolving the desugared program, statement by statement, never
/// reaches a node that the resolver does not handle (`nil`, `break`, a
/// parameter outside a function header): the condition under which
/// [`front_end`] may run.
pub fn program_supported(exprs: &Vec<Expression>) -> (r: bool)
    requires
        forall|i: int| 0 <= i < exprs@.len() ==> #[trigger] steps_in_range(exprs@[i]@),
    ensures
        r == (resolve_all(desugared(exprs@)).1 != Err::<Seq<(TExpr, RType)>, TypeErr>(
            TypeErr::Unsupported,
        )),
{
    let ghost ds = desugared(exprs@);
    let copy = Expression::copy_vec(exprs);
    proof {
        lemma_expr_model_seq(exprs@);
        lemma_expr_model_seq(copy@);
        assert forall|i: int| 0 <= i < copy@.len() implies #[trigger] steps_in_range(copy@[i]@) by {
            assert(Expression::model_seq(copy@)[i] == Expression::model_seq(exprs@)[i]);
            assert(copy@[i]@ == exprs@[i]@);
            assert(steps_in_range(exprs@[i]@));
        }
    }
    let prog = desugar_program(copy);
    assert forall|k: int| 0 <= k < prog@.len() implies #[trigger] ds[k] == prog@[k]@ by {
        assert(Expression::model_seq(copy@)[k] == Expression::model_seq(exprs@)[k]);
        assert(copy@[k]@ == exprs@[k]@);
    }
    let mut resolver = TypeResolver::new();
    let ghost mut acc: Seq<(TExpr, RType)> = Seq::empty();
    let mut i: usize = 0;
    assert(ds.subrange(0, 0) =~= Seq::<ExprV>::empty());
    while i < prog.len()
        invariant
            i <= prog@.len(),
            ds == desugared(exprs@),
            ds.len() == prog@.len(),
            forall|k: int| 0 <= k < prog@.len() ==> #[trigger] ds[k] == prog@[k]@,
            resolve_all(ds.subrange(0, i as int)) == (
                resolver@,
                Ok::<Seq<(TExpr, RType)>, TypeErr>(acc),
            ),
        decreases prog@.len() - i,
    {
        let ghost sub = ds.subrange(0, i as int + 1);
        assert(sub.drop_last() =~= ds.subrange(0, i as int));
        assert(sub.last() == prog@[i as int]@);
        match resolver.resolve_node(&prog[i]) {
            Err(e) => {
                proof {
                    lemma_resolve_all_err(ds, i as int + 1);
                }
                return match e {
                    TypeError::Unsupported => false,
                    _ => true,
                };
            },
            Ok((te, ty)) => {
                proof {
                    acc = acc.push((te@, ty@));
                }
            },
        }
        i = i + 1;
    }
    assert(ds.subrange(0, ds.len() as int) =~= ds);
    true
}

/// Once a prefix of the program fails to resolve, the whole program does,
/// with the same error.
proof fn lemma_resolve_all_err(es: Seq<ExprV>, n: int)
    requires
        0 <= n <= es.len(),
        resolve_all(es.subrange(0, n)).1 is Err,
    ensures
        resolve_all(es).1 == resolve_all(es.subrange(0, n)).1,
    decreases es.len() - n,
{
    if n < es.len() {
        let sub = es.subrange(0, n + 1);
        assert(sub.drop_last() =~= es.subrange(0, n));
        lemma_resolve_all_err(es, n + 1);
    } else {
        assert(es.subrange(0, n) =~= es);
    }
}

} // verus!

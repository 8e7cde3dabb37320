//! Desugaring: rewrites `for` loops into `let` + `while`.
use vstd::prelude::*;
use crate::ast::{Type, Expression, ExprV, lemma_expr_model_seq};
use crate::text::owned;

verus! {

/// The loop that `for (let v = start; ...; step) body` stands for:
/// `{ let v: i32 = start; while (v < end) { body; v = v + step; } }`, with
/// `>` and `-` in place of `<` and `+` when the step is negative.
pub open spec fn desugar_for(var: Seq<char>, start: i32, end: i32, step: i32, body: ExprV) -> ExprV {
    let init = ExprV::LetStmt(var, Type::i32, Box::new(ExprV::Number(start)));
    let cond = ExprV::Binary(
        Box::new(ExprV::Variable(var)),
        if step >= 0 { seq!['<'] } else { seq!['>'] },
        Box::new(ExprV::Number(end)),
    );
    let step_abs: i32 = if step >= 0 { step } else { (-step) as i32 };
    let incr = ExprV::LetStmt(
        var,
        Type::Unspecified,
        Box::new(
            ExprV::Binary(
                Box::new(ExprV::Variable(var)),
                if step >= 0 { seq!['+'] } else { seq!['-'] },
                Box::new(ExprV::Number(step_abs)),
            ),
        ),
    );
    let new_body = match body {
        ExprV::BlockStmt(stmts) => ExprV::BlockStmt(stmts.push(incr)),
        other => ExprV::BlockStmt(seq![other, incr]),
    };
    ExprV::BlockStmt(seq![init, ExprV::WhileStmt(Box::new(cond), Box::new(new_body))])
}

/// The desugared node: `for` loops at the top level and inside blocks,
/// branches, loop bodies and function bodies are rewritten; the body of a
/// rewritten `for` loop is kept as written.
pub open spec fn desugar(e: ExprV) -> ExprV
    decreases e,
{
    match e {
        ExprV::ForStmt(var, start, end, step, body) => desugar_for(var, start, end, step, *body),
        ExprV::BlockStmt(stmts) => ExprV::BlockStmt(desugar_seq(stmts)),
        ExprV::IfStmt(c, t, el) => ExprV::IfStmt(
            Box::new(desugar(*c)),
            Box::new(desugar(*t)),
            match el {
                Some(x) => Some(Box::new(desugar(*x))),
                None => None,
            },
        ),
        ExprV::WhileStmt(c, b) => ExprV::WhileStmt(Box::new(desugar(*c)), Box::new(desugar(*b))),
        ExprV::FuncStmt(n, args, r, b) => ExprV::FuncStmt(n, args, r, Box::new(desugar(*b))),
        other => other,
    }
}

/// `desugar` applied element by element.
pub open spec fn desugar_seq(s: Seq<ExprV>) -> Seq<ExprV>
    decreases s,
{
    if s.len() == 0 {
        Seq::empty()
    } else {
        desugar_seq(s.subrange(0, s.len() - 1)).push(desugar(s[s.len() - 1]))
    }
}

/// The `for` loops that `desugar` rewrites have a step other than
/// `i32::MIN` (whose magnitude is not an `i32`).
pub open spec fn steps_in_range(e: ExprV) -> bool
    decreases e,
{
    match e {
        ExprV::ForStmt(_, _, _, step, _) => step != i32::MIN,
        ExprV::BlockStmt(stmts) => steps_in_range_seq(stmts),
        ExprV::IfStmt(c, t, el) => steps_in_range(*c) && steps_in_range(*t) && match el {
            Some(x) => steps_in_range(*x),
            None => true,
        },
        ExprV::WhileStmt(c, b) => steps_in_range(*c) && steps_in_range(*b),
        ExprV::FuncStmt(_, _, _, b) => steps_in_range(*b),
        _ => true,
    }
}

pub open spec fn steps_in_range_seq(s: Seq<ExprV>) -> bool
    decreases s,
{
    if s.len() == 0 {
        true
    } else {
        steps_in_range_seq(s.subrange(0, s.len() - 1)) && steps_in_range(s[s.len() - 1])
    }
}

/// `desugar_seq` keeps the length and maps element by element, and
/// `steps_in_range_seq` holds exactly when it holds of every element.
pub proof fn lemma_desugar_seq(s: Seq<ExprV>)
    ensures
        desugar_seq(s).len() == s.len(),
        forall|i: int| 0 <= i < s.len() ==> #[trigger] desugar_seq(s)[i] == desugar(s[i]),
        steps_in_range_seq(s) <==> forall|i: int| 0 <= i < s.len() ==> #[trigger] steps_in_range(s[i]),
    decreases s.len(),
{
    if s.len() > 0 {
        let p = s.subrange(0, s.len() - 1);
        lemma_desugar_seq(p);
        assert forall|i: int| 0 <= i < s.len() - 1 implies s[i] == #[trigger] p[i] by {}
        if forall|i: int| 0 <= i < s.len() ==> #[trigger] steps_in_range(s[i]) {
            assert forall|i: int| 0 <= i < p.len() implies #[trigger] steps_in_range(p[i]) by {
                assert(p[i] == s[i]);
            }
            assert(steps_in_range(s[s.len() - 1]));
        }
        if steps_in_range_seq(s) {
            assert forall|i: int| 0 <= i < s.len() implies #[trigger] steps_in_range(s[i]) by {
                if i < s.len() - 1 {
                    assert(p[i] == s[i]);
                }
            }
        }
    }
}

/// Rewrites `for (let var = start; var < end; step) body` (see [`desugar_for`]).
fn rewrite_for(var: &String, start: i32, end: i32, step: i32, body: &Expression) -> (r: Expression)
    requires
        step != i32::MIN,
    ensures
        r@ == desugar_for(var@, start, end, step, body@),
{
    proof {
        reveal_strlit("<");
        reveal_strlit(">");
        reveal_strlit("+");
        reveal_strlit("-");
        assert("<"@ =~= seq!['<']);
        assert(">"@ =~= seq!['>']);
        assert("+"@ =~= seq!['+']);
        assert("-"@ =~= seq!['-']);
        reveal_with_fuel(Expression::model, 4);
    }
    let init = Expression::LetStmt(var.clone(), Type::i32, Box::new(Expression::Number(start)));
    let cond = Expression::Binary(
        Box::new(Expression::Variable(var.clone())),
        if step >= 0 { owned("<") } else { owned(">") },
        Box::new(Expression::Number(end)),
    );
    let step_abs: i32 = if step >= 0 { step } else { -step };
    let incr = Expression::LetStmt(
        var.clone(),
        Type::Unspecified,
        Box::new(
            Expression::Binary(
                Box::new(Expression::Variable(var.clone())),
                if step >= 0 { owned("+") } else { owned("-") },
                Box::new(Expression::Number(step_abs)),
            ),
        ),
    );
    let ghost incr_model = incr@;
    let new_body = match body {
        Expression::BlockStmt(stmts) => {
            let mut v = Expression::copy_vec(stmts);
            let ghost before = v@;
            v.push(incr);
            proof {
                assert(v@.subrange(0, v@.len() - 1) == before);
            }
            Expression::BlockStmt(v)
        },
        other => {
            let mut v: Vec<Expression> = Vec::new();
            v.push(other.copy());
            v.push(incr);
            proof {
                lemma_expr_model_seq(v@);
                assert(Expression::model_seq(v@) =~= seq![other@, v@[1]@]);
            }
            Expression::BlockStmt(v)
        },
    };
    assert(init@ == ExprV::LetStmt(var@, Type::i32, Box::new(ExprV::Number(start))));
    assert(cond@ == ExprV::Binary(
        Box::new(ExprV::Variable(var@)),
        if step >= 0 { seq!['<'] } else { seq!['>'] },
        Box::new(ExprV::Number(end)),
    ));
    let ghost spec_abs: i32 = if step >= 0 { step } else { (-step) as i32 };
    assert(step_abs == spec_abs);
    assert(new_body@ == match body@ {
        ExprV::BlockStmt(stmts) => ExprV::BlockStmt(stmts.push(incr_model)),
        other => ExprV::BlockStmt(seq![other, incr_model]),
    });
    let mut outer: Vec<Expression> = Vec::new();
    outer.push(init);
    outer.push(Expression::WhileStmt(Box::new(cond), Box::new(new_body)));
    proof {
        lemma_expr_model_seq(outer@);
        assert(Expression::model_seq(outer@) =~= seq![outer@[0]@, outer@[1]@]);
    }
    Expression::BlockStmt(outer)
}

/// Rewrites one node (see [`desugar`]).
fn desugar_expr(expr: &Expression) -> (r: Expression)
    requires
        steps_in_range(expr@),
    ensures
        r@ == desugar(expr@),
    decreases expr,
{
    match expr {
        Expression::ForStmt(var, start, end, step, body) => rewrite_for(var, *start, *end, *step, body),
        Expression::BlockStmt(stmts) => Expression::BlockStmt(desugar_vec(stmts)),
        Expression::IfStmt(c, t, el) => {
            let new_else = match &**el {
                Some(x) => Some(desugar_expr(x)),
                None => None,
            };
            Expression::IfStmt(Box::new(desugar_expr(c)), Box::new(desugar_expr(t)), Box::new(new_else))
        },
        Expression::WhileStmt(c, b) => Expression::WhileStmt(
            Box::new(desugar_expr(c)),
            Box::new(desugar_expr(b)),
        ),
        Expression::BreakStmt => Expression::BreakStmt,
        Expression::FuncStmt(n, args, r, b) => Expression::FuncStmt(
            n.clone(),
            Expression::copy_vec(args),
            r.copy(),
            Box::new(desugar_expr(b)),
        ),
        other => other.copy(),
    }
}

/// Rewrites each node of `v` (see [`desugar`]).
fn desugar_vec(v: &Vec<Expression>) -> (r: Vec<Expression>)
    requires
        steps_in_range_seq(Expression::model_seq(v@)),
    ensures
        Expression::model_seq(r@) == desugar_seq(Expression::model_seq(v@)),
    decreases v@,
{
    proof {
        lemma_expr_model_seq(v@);
        lemma_desugar_seq(Expression::model_seq(v@));
    }
    let ghost s = Expression::model_seq(v@);
    let mut out: Vec<Expression> = Vec::new();
    let mut i: usize = 0;
    while i < v.len()
        invariant
            i <= v@.len(),
            s == Expression::model_seq(v@),
            s.len() == v@.len(),
            forall|k: int| 0 <= k < v@.len() ==> #[trigger] s[k] == v@[k].model(),
            forall|k: int| 0 <= k < v@.len() ==> #[trigger] steps_in_range(s[k]),
            desugar_seq(s).len() == s.len(),
            forall|k: int| 0 <= k < s.len() ==> #[trigger] desugar_seq(s)[k] == desugar(s[k]),
            out@.len() == i,
            forall|k: int| 0 <= k < i ==> #[trigger] out@[k].model() == desugar(s[k]),
        decreases v@.len() - i,
    {
        assert(decreases_to!(v@ => v@[i as int]));
        assert(steps_in_range(s[i as int]));
        let e = desugar_expr(&v[i]);
        out.push(e);
        i = i + 1;
    }
    proof {
        lemma_expr_model_seq(out@);
        assert(Expression::model_seq(out@) =~= desugar_seq(s));
    }
    out
}

/// Desugars every top-level node of a program.
pub fn desugar_program(exprs: Vec<Expression>) -> (r: Vec<Expression>)
    requires
        forall|i: int| 0 <= i < exprs@.len() ==> #[trigger] steps_in_range(exprs@[i]@),
    ensures
        r@.len() == exprs@.len(),
        forall|i: int| 0 <= i < exprs@.len() ==> #[trigger] r@[i]@ == desugar(exprs@[i]@),
{
    proof {
        lemma_expr_model_seq(exprs@);
        let s = Expression::model_seq(exprs@);
        lemma_desugar_seq(s);
        assert forall|i: int| 0 <= i < s.len() implies #[trigger] steps_in_range(s[i]) by {
            assert(s[i] == exprs@[i]@);
        }
    }
    let r = desugar_vec(&exprs);
    proof {
        lemma_expr_model_seq(r@);
        let s = Expression::model_seq(exprs@);
        assert forall|i: int| 0 <= i < exprs@.len() implies #[trigger] r@[i]@ == desugar(exprs@[i]@) by {
            assert(Expression::model_seq(r@)[i] == desugar_seq(s)[i]);
            assert(s[i] == exprs@[i]@);
        }
    }
    r
}


/// Whether desugaring finds a `for` loop to rewrite in the node: one at the
/// top, or inside a block, a branch, a loop or a function body.
pub open spec fn has_for(e: ExprV) -> bool
    decreases e,
{
    match e {
        ExprV::ForStmt(_, _, _, _, _) => true,
        ExprV::BlockStmt(stmts) => has_for_seq(stmts),
        ExprV::IfStmt(c, t, el) => has_for(*c) || has_for(*t) || match el {
            Some(x) => has_for(*x),
            None => false,
        },
        ExprV::WhileStmt(c, b) => has_for(*c) || has_for(*b),
        ExprV::FuncStmt(_, _, _, b) => has_for(*b),
        _ => false,
    }
}

pub open spec fn has_for_seq(s: Seq<ExprV>) -> bool
    decreases s,
{
    if s.len() == 0 {
        false
    } else {
        has_for_seq(s.subrange(0, s.len() - 1)) || has_for(s[s.len() - 1])
    }
}

/// Whether no `for` loop of the node has a `for` loop in its body (the body
/// of a rewritten loop is kept as written).
pub open spec fn plain_for_bodies(e: ExprV) -> bool
    decreases e,
{
    match e {
        ExprV::ForStmt(_, _, _, _, b) => !has_for(*b),
        ExprV::BlockStmt(stmts) => plain_for_bodies_seq(stmts),
        ExprV::IfStmt(c, t, el) => plain_for_bodies(*c) && plain_for_bodies(*t) && match el {
            Some(x) => plain_for_bodies(*x),
            None => true,
        },
        ExprV::WhileStmt(c, b) => plain_for_bodies(*c) && plain_for_bodies(*b),
        ExprV::FuncStmt(_, _, _, b) => plain_for_bodies(*b),
        _ => true,
    }
}

pub open spec fn plain_for_bodies_seq(s: Seq<ExprV>) -> bool
    decreases s,
{
    if s.len() == 0 {
        true
    } else {
        plain_for_bodies_seq(s.subrange(0, s.len() - 1)) && plain_for_bodies(s[s.len() - 1])
    }
}

/// A node without `for` loops is left as it is by desugaring.
pub proof fn law_desugar_without_for(e: ExprV)
    requires
        !has_for(e),
    ensures
        desugar(e) == e,
    decreases e, 0int,
{
    match e {
        ExprV::BlockStmt(stmts) => {
            lemma_desugar_seq_without_for(stmts);
        },
        ExprV::IfStmt(c, t, el) => {
            law_desugar_without_for(*c);
            law_desugar_without_for(*t);
            match el {
                Some(x) => law_desugar_without_for(*x),
                None => {},
            }
        },
        ExprV::WhileStmt(c, b) => {
            law_desugar_without_for(*c);
            law_desugar_without_for(*b);
        },
        ExprV::FuncStmt(_, _, _, b) => {
            law_desugar_without_for(*b);
        },
        _ => {},
    }
}

proof fn lemma_desugar_seq_without_for(s: Seq<ExprV>)
    requires
        !has_for_seq(s),
    ensures
        desugar_seq(s) == s,
    decreases s, 1int,
{
    if s.len() > 0 {
        let p = s.subrange(0, s.len() - 1);
        lemma_desugar_seq_without_for(p);
        law_desugar_without_for(s[s.len() - 1]);
        assert(p.push(s[s.len() - 1]) =~= s);
    }
}

/// After desugaring, no `for` loop is left, provided that no `for` loop
/// has another in its body.
pub proof fn law_desugar_removes_for(e: ExprV)
    requires
        plain_for_bodies(e),
    ensures
        !has_for(desugar(e)),
    decreases e, 0int,
{
    match e {
        ExprV::ForStmt(var, start, end, step, b) => {
            let d = desugar(e);
            let blk = d->BlockStmt_0;
            assert(blk.len() == 2);
            let lp = blk[1];
            let body2 = *(lp->WhileStmt_1);
            let bs = body2->BlockStmt_0;
            let incr = bs.last();
            assert(!has_for(incr));
            match *b {
                ExprV::BlockStmt(stmts) => {
                    assert(bs =~= stmts.push(incr));
                    assert(bs.subrange(0, bs.len() - 1) =~= stmts);
                    assert(!has_for_seq(stmts));
                    assert(bs[bs.len() - 1] == incr);
                    assert(bs.len() > 0);
                    assert(has_for_seq(bs) == (has_for_seq(bs.subrange(0, bs.len() - 1)) || has_for(bs[bs.len() - 1])));
                },
                other => {
                    assert(bs == seq![other, incr]);
                    assert(!has_for(other));
                    assert(bs.subrange(0, 1) =~= seq![other]);
                    assert(seq![other].subrange(0, 0) =~= Seq::<ExprV>::empty());
                    assert(!has_for_seq(Seq::<ExprV>::empty()));
                    assert(seq![other][0] == other);
                    assert(has_for_seq(seq![other]) == (has_for_seq(seq![other].subrange(0, 0)) || has_for(seq![other][0])));
                    assert(!has_for_seq(seq![other]));
                    assert(has_for_seq(bs) == (has_for_seq(bs.subrange(0, bs.len() - 1)) || has_for(bs[bs.len() - 1])));
                },
            }
            assert(!has_for_seq(bs));
            assert(lp is WhileStmt);
            assert(*(lp->WhileStmt_0) is Binary);
            assert(!has_for(*(lp->WhileStmt_0)));
            assert(has_for(lp) == (has_for(*(lp->WhileStmt_0)) || has_for(body2)));
            assert(!has_for(lp));
            assert(blk.subrange(0, 1).subrange(0, 0) =~= Seq::<ExprV>::empty());
            assert(!has_for_seq(Seq::<ExprV>::empty()));
            assert(blk[0] is LetStmt);
            assert(blk.subrange(0, 1)[0] == blk[0]);
            assert(has_for_seq(blk.subrange(0, 1)) == (has_for_seq(blk.subrange(0, 1).subrange(0, 0)) || has_for(blk.subrange(0, 1)[0])));
            assert(!has_for_seq(blk.subrange(0, 1)));
            assert(has_for_seq(blk) == (has_for_seq(blk.subrange(0, 1)) || has_for(blk[1])));
        },
        ExprV::BlockStmt(stmts) => {
            lemma_desugar_seq_removes_for(stmts);
        },
        ExprV::IfStmt(c, t, el) => {
            law_desugar_removes_for(*c);
            law_desugar_removes_for(*t);
            match el {
                Some(x) => law_desugar_removes_for(*x),
                None => {},
            }
        },
        ExprV::WhileStmt(c, b) => {
            law_desugar_removes_for(*c);
            law_desugar_removes_for(*b);
        },
        ExprV::FuncStmt(_, _, _, b) => {
            law_desugar_removes_for(*b);
        },
        _ => {},
    }
}

proof fn lemma_desugar_seq_removes_for(s: Seq<ExprV>)
    requires
        plain_for_bodies_seq(s),
    ensures
        !has_for_seq(desugar_seq(s)),
    decreases s, 1int,
{
    if s.len() > 0 {
        let p = s.subrange(0, s.len() - 1);
        lemma_desugar_seq_removes_for(p);
        law_desugar_removes_for(s[s.len() - 1]);
        lemma_desugar_seq(p);
        let d = desugar_seq(s);
        assert(d.subrange(0, d.len() - 1) =~= desugar_seq(p));
    }
}

/// Desugaring twice gives what desugaring once gives, provided that no
/// `for` loop has another in its body.
pub proof fn law_desugar_idempotent(e: ExprV)
    requires
        plain_for_bodies(e),
    ensures
        desugar(desugar(e)) == desugar(e),
{
    law_desugar_removes_for(e);
    law_desugar_without_for(desugar(e));
}

} // verus!

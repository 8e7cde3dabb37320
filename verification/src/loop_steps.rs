//! What the grammar promises of `for` loops: their step is `++` or `--`, so
//! every parsed program can be desugared.
use vstd::prelude::*;
use crate::ast::ExprV;
use crate::desugar::{steps_in_range, steps_in_range_seq};
use crate::grammar::{
    PRes, kind, binop, parse_params, parse_stmts, parse_block, parse_expr_tail, parse_expr,
    parse_expr_list, parse_term, parse_expr_stmt, parse_stmt, parse_let, parse_fn, parse_if,
    parse_while, parse_for, parse_for_header, parse_indexed, parse_annotation, parse_return_type,
    parse_tokens, parse_source,
};
use crate::lexer::{TokKind, lex};

verus! {

/// Whether every `for` loop anywhere in the node steps by 1 or -1.
pub open spec fn unit_steps(e: ExprV) -> bool
    decreases e, 0int,
{
    match e {
        ExprV::ForStmt(_, _, _, step, b) => (step == 1 || step == -1) && unit_steps(*b),
        ExprV::List(es) => unit_steps_seq(es),
        ExprV::BlockStmt(es) => unit_steps_seq(es),
        ExprV::CallStmt(_, es) => unit_steps_seq(es),
        ExprV::FuncStmt(_, args, _, b) => unit_steps_seq(args) && unit_steps(*b),
        ExprV::ListIndex(a, b) => unit_steps(*a) && unit_steps(*b),
        ExprV::ListAssign(_, a, b) => unit_steps(*a) && unit_steps(*b),
        ExprV::Binary(a, _, b) => unit_steps(*a) && unit_steps(*b),
        ExprV::WhileStmt(a, b) => unit_steps(*a) && unit_steps(*b),
        ExprV::IfStmt(c, t, el) => unit_steps(*c) && unit_steps(*t) && match el {
            Some(x) => unit_steps(*x),
            None => true,
        },
        ExprV::Grouping(x) => unit_steps(*x),
        ExprV::LetStmt(_, _, x) => unit_steps(*x),
        ExprV::ReturnStmt(x) => unit_steps(*x),
        ExprV::Print(x) => unit_steps(*x),
        ExprV::Len(x) => unit_steps(*x),
        _ => true,
    }
}

pub open spec fn unit_steps_seq(s: Seq<ExprV>) -> bool
    decreases s, 1int,
{
    if s.len() == 0 {
        true
    } else {
        unit_steps_seq(s.drop_last()) && unit_steps(s.last())
    }
}

pub open spec fn ok_unit(r: PRes<ExprV>) -> bool {
    match r {
        Ok((e, _)) => unit_steps(e),
        Err(_) => true,
    }
}

pub open spec fn ok_unit_seq(r: PRes<Seq<ExprV>>) -> bool {
    match r {
        Ok((es, _)) => unit_steps_seq(es),
        Err(_) => true,
    }
}

proof fn lemma_unit_push(s: Seq<ExprV>, e: ExprV)
    requires
        unit_steps_seq(s),
        unit_steps(e),
    ensures
        unit_steps_seq(s.push(e)),
{
    assert(s.push(e).drop_last() =~= s);
}

proof fn lemma_unit_empty()
    ensures
        unit_steps_seq(Seq::<ExprV>::empty()),
{
}

/// A node whose loops step by 1 or -1 can be desugared.
pub proof fn lemma_unit_steps_in_range(e: ExprV)
    requires
        unit_steps(e),
    ensures
        steps_in_range(e),
    decreases e, 0int,
{
    match e {
        ExprV::BlockStmt(es) => lemma_unit_steps_in_range_seq(es),
        ExprV::IfStmt(c, t, el) => {
            lemma_unit_steps_in_range(*c);
            lemma_unit_steps_in_range(*t);
            match el {
                Some(x) => lemma_unit_steps_in_range(*x),
                None => {},
            }
        },
        ExprV::WhileStmt(c, b) => {
            lemma_unit_steps_in_range(*c);
            lemma_unit_steps_in_range(*b);
        },
        ExprV::FuncStmt(_, _, _, b) => lemma_unit_steps_in_range(*b),
        _ => {},
    }
}

proof fn lemma_unit_steps_in_range_seq(s: Seq<ExprV>)
    requires
        unit_steps_seq(s),
    ensures
        steps_in_range_seq(s),
    decreases s, 1int,
{
    if s.len() > 0 {
        assert(s.drop_last() =~= s.subrange(0, s.len() - 1));
        lemma_unit_steps_in_range_seq(s.drop_last());
        lemma_unit_steps_in_range(s.last());
    }
}

proof fn lemma_params_unit(toks: Seq<crate::lexer::TokV>, p: int, acc: Seq<ExprV>)
    requires
        unit_steps_seq(acc),
    ensures
        ok_unit_seq(parse_params(toks, p, acc)),
    decreases toks.len() - p,
{
    match crate::grammar::parse_type(toks, p) {
        Err(_) => {},
        Ok((t, p1)) => {
            if kind(toks, p1) == TokKind::Ident {
                let acc2 = acc.push(ExprV::FuncArg(crate::grammar::tok(toks, p1).text, t));
                lemma_unit_push(acc, ExprV::FuncArg(crate::grammar::tok(toks, p1).text, t));
                if kind(toks, p1 + 1) == TokKind::Comma && p <= p1 {
                    lemma_params_unit(toks, p1 + 2, acc2);
                }
            }
        },
    }
}

proof fn lemma_for_header_unit(toks: Seq<crate::lexer::TokV>, p: int)
    ensures
        match parse_for_header(toks, p) {
            Ok(((_, _, _, step), _)) => step == 1 || step == -1,
            Err(_) => true,
        },
{
}

proof fn lemma_stmts_unit(toks: Seq<crate::lexer::TokV>, p: int, acc: Seq<ExprV>)
    requires
        unit_steps_seq(acc),
    ensures
        ok_unit_seq(parse_stmts(toks, p, acc)),
    decreases toks.len() - p, 7int,
{
    let k = kind(toks, p);
    if k == TokKind::RBrace || k == TokKind::Eof {
    } else if k == TokKind::Semicolon {
        lemma_stmts_unit(toks, p + 1, acc);
    } else {
        lemma_stmt_unit(toks, p);
        match parse_stmt(toks, p) {
            Err(_) => {},
            Ok((s, p1)) => {
                if p < p1 <= toks.len() {
                    lemma_unit_push(acc, s);
                    lemma_stmts_unit(toks, p1, acc.push(s));
                }
            },
        }
    }
}

proof fn lemma_block_unit(toks: Seq<crate::lexer::TokV>, p: int)
    ensures
        ok_unit(parse_block(toks, p)),
    decreases toks.len() - p, 5int,
{
    if kind(toks, p) == TokKind::LBrace {
        lemma_unit_empty();
        lemma_stmts_unit(toks, p + 1, Seq::empty());
    }
}

proof fn lemma_expr_tail_unit(toks: Seq<crate::lexer::TokV>, p: int, left: ExprV)
    requires
        unit_steps(left),
    ensures
        ok_unit(parse_expr_tail(toks, p, left)),
    decreases toks.len() - p, 3int,
{
    match binop(kind(toks, p)) {
        None => {},
        Some(_) => lemma_expr_unit(toks, p + 1),
    }
}

proof fn lemma_expr_unit(toks: Seq<crate::lexer::TokV>, p: int)
    ensures
        ok_unit(parse_expr(toks, p)),
    decreases toks.len() - p, 4int,
{
    lemma_term_unit(toks, p);
    match parse_term(toks, p) {
        Err(_) => {},
        Ok((left, p1)) => {
            if p < p1 <= toks.len() {
                lemma_expr_tail_unit(toks, p1, left);
            }
        },
    }
}

proof fn lemma_expr_list_unit(toks: Seq<crate::lexer::TokV>, p: int, acc: Seq<ExprV>)
    requires
        unit_steps_seq(acc),
    ensures
        ok_unit_seq(parse_expr_list(toks, p, acc)),
    decreases toks.len() - p, 5int,
{
    lemma_expr_unit(toks, p);
    match parse_expr(toks, p) {
        Err(_) => {},
        Ok((e, p1)) => {
            lemma_unit_push(acc, e);
            if kind(toks, p1) == TokKind::Comma && p <= p1 {
                lemma_expr_list_unit(toks, p1 + 1, acc.push(e));
            }
        },
    }
}

proof fn lemma_term_unit(toks: Seq<crate::lexer::TokV>, p: int)
    ensures
        ok_unit(parse_term(toks, p)),
    decreases toks.len() - p, 2int,
{
    lemma_unit_empty();
    let k = kind(toks, p);
    if k == TokKind::LParen {
        lemma_expr_unit(toks, p + 1);
    } else if k == TokKind::LBracket {
        if kind(toks, p + 1) != TokKind::RBracket {
            lemma_expr_list_unit(toks, p + 1, Seq::empty());
        }
    } else if k == TokKind::Ident {
        if kind(toks, p + 1) == TokKind::LParen {
            if kind(toks, p + 2) != TokKind::RParen {
                lemma_expr_list_unit(toks, p + 2, Seq::empty());
            }
        } else if kind(toks, p + 1) == TokKind::LBracket {
            lemma_expr_unit(toks, p + 2);
            assert(unit_steps(ExprV::Variable(crate::grammar::tok(toks, p).text)));
        }
    }
}

proof fn lemma_expr_stmt_unit(toks: Seq<crate::lexer::TokV>, p: int)
    ensures
        ok_unit(parse_expr_stmt(toks, p)),
    decreases toks.len() - p, 5int,
{
    lemma_expr_unit(toks, p);
}

proof fn lemma_stmt_unit(toks: Seq<crate::lexer::TokV>, p: int)
    ensures
        ok_unit(parse_stmt(toks, p)),
    decreases toks.len() - p, 6int,
{
    let k = kind(toks, p);
    if k == TokKind::Let {
        lemma_let_unit(toks, p);
    } else if k == TokKind::Fn {
        lemma_fn_unit(toks, p);
    } else if k == TokKind::If {
        lemma_if_unit(toks, p);
    } else if k == TokKind::While {
        lemma_while_unit(toks, p);
    } else if k == TokKind::For {
        lemma_for_unit(toks, p);
    } else if k == TokKind::Return {
        lemma_expr_unit(toks, p + 1);
    } else if k == TokKind::Print {
        if kind(toks, p + 1) == TokKind::LParen {
            lemma_expr_unit(toks, p + 2);
        }
    } else if k == TokKind::LBrace {
        lemma_block_unit(toks, p);
    } else if k == TokKind::Ident && kind(toks, p + 1) == TokKind::Assign {
        lemma_expr_unit(toks, p + 2);
    } else if k == TokKind::Ident && kind(toks, p + 1) == TokKind::LBracket {
        lemma_indexed_unit(toks, p);
    } else {
        lemma_expr_stmt_unit(toks, p);
    }
}

proof fn lemma_let_unit(toks: Seq<crate::lexer::TokV>, p: int)
    ensures
        ok_unit(parse_let(toks, p)),
    decreases toks.len() - p, 5int,
{
    if kind(toks, p + 1) == TokKind::Ident {
        match parse_annotation(toks, p + 2) {
            Err(_) => {},
            Ok((_, p1)) => {
                if kind(toks, p1) == TokKind::Assign && !(p1 < p) {
                    lemma_expr_unit(toks, p1 + 1);
                }
            },
        }
    }
}

proof fn lemma_fn_unit(toks: Seq<crate::lexer::TokV>, p: int)
    ensures
        ok_unit(parse_fn(toks, p)),
    decreases toks.len() - p, 5int,
{
    if kind(toks, p + 1) == TokKind::Ident && kind(toks, p + 2) == TokKind::LParen {
        lemma_unit_empty();
        if kind(toks, p + 3) != TokKind::RParen {
            lemma_params_unit(toks, p + 3, Seq::empty());
        }
        let params = if kind(toks, p + 3) == TokKind::RParen {
            Ok((Seq::<ExprV>::empty(), p + 3))
        } else {
            parse_params(toks, p + 3, Seq::empty())
        };
        match params {
            Err(_) => {},
            Ok((_, p1)) => {
                if kind(toks, p1) == TokKind::RParen {
                    match parse_return_type(toks, p1 + 1) {
                        Err(_) => {},
                        Ok((_, p2)) => {
                            if p < p2 <= toks.len() {
                                lemma_block_unit(toks, p2);
                            }
                        },
                    }
                }
            },
        }
    }
}

proof fn lemma_if_unit(toks: Seq<crate::lexer::TokV>, p: int)
    ensures
        ok_unit(parse_if(toks, p)),
    decreases toks.len() - p, 5int,
{
    if kind(toks, p + 1) == TokKind::LParen {
        lemma_expr_unit(toks, p + 2);
        match parse_expr(toks, p + 2) {
            Err(_) => {},
            Ok((_, p1)) => {
                if kind(toks, p1) == TokKind::RParen && !(p1 < p) {
                    lemma_block_unit(toks, p1 + 1);
                    match parse_block(toks, p1 + 1) {
                        Err(_) => {},
                        Ok((_, p2)) => {
                            if kind(toks, p2) == TokKind::Else && p < p2 {
                                lemma_block_unit(toks, p2 + 1);
                            }
                        },
                    }
                }
            },
        }
    }
}

proof fn lemma_while_unit(toks: Seq<crate::lexer::TokV>, p: int)
    ensures
        ok_unit(parse_while(toks, p)),
    decreases toks.len() - p, 5int,
{
    if kind(toks, p + 1) == TokKind::LParen {
        lemma_expr_unit(toks, p + 2);
        match parse_expr(toks, p + 2) {
            Err(_) => {},
            Ok((_, p1)) => {
                if kind(toks, p1) == TokKind::RParen && !(p1 < p) {
                    lemma_block_unit(toks, p1 + 1);
                }
            },
        }
    }
}

proof fn lemma_for_unit(toks: Seq<crate::lexer::TokV>, p: int)
    ensures
        ok_unit(parse_for(toks, p)),
    decreases toks.len() - p, 5int,
{
    if kind(toks, p + 1) == TokKind::LParen {
        lemma_for_header_unit(toks, p + 2);
        match parse_for_header(toks, p + 2) {
            Err(_) => {},
            Ok((_, p1)) => {
                if kind(toks, p1) == TokKind::RParen && !(p1 < p) {
                    lemma_block_unit(toks, p1 + 1);
                }
            },
        }
    }
}

proof fn lemma_indexed_unit(toks: Seq<crate::lexer::TokV>, p: int)
    ensures
        ok_unit(parse_indexed(toks, p)),
    decreases toks.len() - p, 5int,
{
    lemma_expr_unit(toks, p + 2);
    match parse_expr(toks, p + 2) {
        Err(_) => {},
        Ok((idx, p1)) => {
            if kind(toks, p1) == TokKind::RBracket && !(p1 < p) {
                if kind(toks, p1 + 1) == TokKind::Assign {
                    lemma_expr_unit(toks, p1 + 2);
                } else {
                    let name = crate::grammar::tok(toks, p).text;
                    let left = ExprV::ListIndex(Box::new(ExprV::Variable(name)), Box::new(idx));
                    assert(unit_steps(ExprV::Variable(name)));
                    lemma_expr_tail_unit(toks, p1 + 1, left);
                }
            }
        },
    }
}

/// Every `for` loop of a parsed program steps by 1 (`++`) or -1 (`--`), so
/// every statement of a parsed program can be desugared.
pub proof fn law_parsed_loops_step_by_one(s: Seq<char>)
    ensures
        match parse_source(s) {
            Ok(es) => forall|i: int|
                0 <= i < es.len() ==> unit_steps(#[trigger] es[i]) && steps_in_range(es[i]),
            Err(_) => true,
        },
{
    match lex(s) {
        Err(_) => {},
        Ok(toks) => {
            lemma_unit_empty();
            lemma_stmts_unit(toks, 0, Seq::empty());
            match parse_tokens(toks) {
                Err(_) => {},
                Ok(es) => {
                    assert forall|i: int| 0 <= i < es.len() implies unit_steps(#[trigger] es[i])
                        && steps_in_range(es[i]) by {
                        lemma_unit_seq_index(es, i);
                        lemma_unit_steps_in_range(es[i]);
                    }
                },
            }
        },
    }
}

proof fn lemma_unit_seq_index(s: Seq<ExprV>, i: int)
    requires
        unit_steps_seq(s),
        0 <= i < s.len(),
    ensures
        unit_steps(s[i]),
    decreases s.len(),
{
    if i < s.len() - 1 {
        lemma_unit_seq_index(s.drop_last(), i);
    }
}

} // verus!

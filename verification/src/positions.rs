//! Where the lexer and the parser place things in the source text: tokens
//! are the text's own characters, in order, and every error points into the
//! text.
use vstd::prelude::*;
use crate::ast::ExprV;
use crate::grammar::{
    PRes, tok, kind, binop, parse_type, parse_annotation, parse_return_type, parse_params,
    parse_int, parse_for_header, parse_stmts, parse_block, parse_expr_tail, parse_expr,
    parse_expr_list, parse_term, parse_expr_stmt, parse_stmt, parse_let, parse_fn, parse_if,
    parse_while, parse_for, parse_indexed, parse_tokens, parse_source,
};
use crate::lexer::{TokKind, TokV, ParseErrorKind, LexStep, lex_step, lex_from, lex, two_char_kind};

verus! {

/// Whether each token's text is the text of `s` at the token's position.
pub open spec fn each_is_slice(s: Seq<char>, toks: Seq<TokV>) -> bool {
    forall|i: int|
        0 <= i < toks.len() ==> 0 <= (#[trigger] toks[i]).pos && toks[i].pos + toks[i].text.len()
            <= s.len() && toks[i].text == s.subrange(toks[i].pos, toks[i].pos + toks[i].text.len())
}

/// Whether each token ends before any later token starts.
pub open spec fn in_order(toks: Seq<TokV>) -> bool {
    forall|i: int, j: int|
        0 <= i < j < toks.len() ==> (#[trigger] toks[i]).pos + toks[i].text.len() <= (
        #[trigger] toks[j]).pos
}

/// Whether the tokens are slices of `s`, in order and without overlap.
pub open spec fn slices_of(s: Seq<char>, toks: Seq<TokV>) -> bool {
    each_is_slice(s, toks) && in_order(toks)
}

/// Whether an error result points at an index between 0 and `b`.
pub open spec fn err_in<T>(r: Result<T, (int, ParseErrorKind)>, b: int) -> bool {
    match r {
        Err((o, _)) => 0 <= o <= b,
        Ok(_) => true,
    }
}

proof fn lemma_slices_push(s: Seq<char>, acc: Seq<TokV>, t: TokV)
    requires
        slices_of(s, acc),
        0 <= t.pos,
        t.pos + t.text.len() <= s.len(),
        t.text == s.subrange(t.pos, t.pos + t.text.len()),
        acc.len() > 0 ==> acc.last().pos + acc.last().text.len() <= t.pos,
    ensures
        slices_of(s, acc.push(t)),
{
    let toks = acc.push(t);
    assert forall|k: int| 0 <= k < toks.len() implies 0 <= (#[trigger] toks[k]).pos && toks[k].pos
        + toks[k].text.len() <= s.len() && toks[k].text == s.subrange(
        toks[k].pos,
        toks[k].pos + toks[k].text.len(),
    ) by {
        if k < acc.len() {
            assert(toks[k] == acc[k]);
        }
    }
    assert forall|k: int, m: int| 0 <= k < m < toks.len() implies (#[trigger] toks[k]).pos
        + toks[k].text.len() <= (#[trigger] toks[m]).pos by {
        assert(toks[k] == acc[k]);
        if m < acc.len() {
            assert(toks[m] == acc[m]);
        } else {
            let l = acc.len() - 1;
            assert(acc.last() == acc[l]);
            if k < l {
                assert(acc[l].pos <= acc[l].pos + acc[l].text.len());
            }
        }
    }
}

proof fn lemma_lex_from(s: Seq<char>, i: int, acc: Seq<TokV>)
    requires
        0 <= i <= s.len(),
        slices_of(s, acc),
        acc.len() > 0 ==> acc.last().pos + acc.last().text.len() <= i,
    ensures
        match lex_from(s, i, acc) {
            Ok(toks) => slices_of(s, toks) && toks.len() > 0 && toks.last().kind == TokKind::Eof
                && toks.last().pos == s.len(),
            Err((o, _)) => 0 <= o < s.len(),
        },
    decreases s.len() - i,
{
    if i >= s.len() {
        let t = TokV { kind: TokKind::Eof, text: Seq::empty(), pos: s.len() as int };
        assert(s.subrange(s.len() as int, s.len() as int) =~= Seq::<char>::empty());
        lemma_slices_push(s, acc, t);
    } else {
        match lex_step(s, i) {
            LexStep::Skip(j) => {
                if i < j <= s.len() {
                    lemma_lex_from(s, j, acc);
                }
            },
            LexStep::Tok(k, j) => {
                if i < j <= s.len() {
                    let t = TokV { kind: k, text: s.subrange(i, j), pos: i };
                    lemma_slices_push(s, acc, t);
                    lemma_lex_from(s, j, acc.push(t));
                }
            },
            LexStep::Fail(_) => {},
        }
    }
}

/// The lexer's tokens are slices of the text, in order and without overlap,
/// ending with `Eof` at the end of the text; a lexing error points at a
/// character of the text.
pub proof fn law_tokens_are_slices(s: Seq<char>)
    ensures
        match lex(s) {
            Ok(toks) => slices_of(s, toks) && toks.len() > 0 && toks.last().kind == TokKind::Eof
                && toks.last().pos == s.len(),
            Err((o, _)) => 0 <= o < s.len(),
        },
{
    lemma_lex_from(s, 0, Seq::empty());
}

/// Every token position, and that of the `Eof` past the end, lies in
/// `0..=b`.
pub open spec fn positions_in(toks: Seq<TokV>, b: int) -> bool {
    b >= 0 && forall|i: int| 0 <= i < toks.len() ==> 0 <= (#[trigger] toks[i]).pos <= b
}

proof fn lemma_tok_positions(toks: Seq<TokV>, b: int)
    requires
        positions_in(toks, b),
    ensures
        forall|q: int| 0 <= #[trigger] tok(toks, q).pos <= b,
{
    assert forall|q: int| 0 <= #[trigger] tok(toks, q).pos <= b by {
        if !(0 <= q < toks.len()) && toks.len() > 0 {
            assert(toks.last() == toks[toks.len() - 1]);
        }
    }
}

proof fn lemma_type_err(toks: Seq<TokV>, b: int, p: int)
    requires
        positions_in(toks, b),
    ensures
        err_in(parse_type(toks, p), b),
    decreases toks.len() - p,
{
    lemma_tok_positions(toks, b);
    if kind(toks, p + 1) == TokKind::Lt {
        lemma_type_err(toks, b, p + 2);
    }
}

proof fn lemma_params_err(toks: Seq<TokV>, b: int, p: int, acc: Seq<ExprV>)
    requires
        positions_in(toks, b),
    ensures
        err_in(parse_params(toks, p, acc), b),
    decreases toks.len() - p,
{
    lemma_tok_positions(toks, b);
    lemma_type_err(toks, b, p);
    match parse_type(toks, p) {
        Err(_) => {},
        Ok((t, p1)) => {
            if kind(toks, p1) == TokKind::Ident && kind(toks, p1 + 1) == TokKind::Comma && p <= p1 {
                lemma_params_err(toks, b, p1 + 2, acc.push(ExprV::FuncArg(tok(toks, p1).text, t)));
            }
        },
    }
}

proof fn lemma_for_header_err(toks: Seq<TokV>, b: int, p: int)
    requires
        positions_in(toks, b),
    ensures
        err_in(parse_for_header(toks, p), b),
{
    lemma_tok_positions(toks, b);
    match parse_int(toks, p + 3) {
        Err(_) => {},
        Ok((_, p1)) => {
            match parse_int(toks, p1 + 3) {
                Err(_) => {},
                Ok(_) => {},
            }
        },
    }
}

proof fn lemma_stmts_err(toks: Seq<TokV>, b: int, p: int, acc: Seq<ExprV>)
    requires
        positions_in(toks, b),
    ensures
        err_in(parse_stmts(toks, p, acc), b),
    decreases toks.len() - p, 7int,
{
    lemma_tok_positions(toks, b);
    let k = kind(toks, p);
    if k == TokKind::RBrace || k == TokKind::Eof {
    } else if k == TokKind::Semicolon {
        lemma_stmts_err(toks, b, p + 1, acc);
    } else {
        lemma_stmt_err(toks, b, p);
        match parse_stmt(toks, p) {
            Err(_) => {},
            Ok((s, p1)) => {
                if p < p1 <= toks.len() {
                    lemma_stmts_err(toks, b, p1, acc.push(s));
                }
            },
        }
    }
}

proof fn lemma_block_err(toks: Seq<TokV>, b: int, p: int)
    requires
        positions_in(toks, b),
    ensures
        err_in(parse_block(toks, p), b),
    decreases toks.len() - p, 5int,
{
    lemma_tok_positions(toks, b);
    if kind(toks, p) == TokKind::LBrace {
        lemma_stmts_err(toks, b, p + 1, Seq::empty());
    }
}

proof fn lemma_expr_tail_err(toks: Seq<TokV>, b: int, p: int, left: ExprV)
    requires
        positions_in(toks, b),
    ensures
        err_in(parse_expr_tail(toks, p, left), b),
    decreases toks.len() - p, 3int,
{
    match binop(kind(toks, p)) {
        None => {},
        Some(_) => lemma_expr_err(toks, b, p + 1),
    }
}

proof fn lemma_expr_err(toks: Seq<TokV>, b: int, p: int)
    requires
        positions_in(toks, b),
    ensures
        err_in(parse_expr(toks, p), b),
    decreases toks.len() - p, 4int,
{
    lemma_tok_positions(toks, b);
    lemma_term_err(toks, b, p);
    match parse_term(toks, p) {
        Err(_) => {},
        Ok((left, p1)) => {
            if p < p1 <= toks.len() {
                lemma_expr_tail_err(toks, b, p1, left);
            }
        },
    }
}

proof fn lemma_expr_list_err(toks: Seq<TokV>, b: int, p: int, acc: Seq<ExprV>)
    requires
        positions_in(toks, b),
    ensures
        err_in(parse_expr_list(toks, p, acc), b),
    decreases toks.len() - p, 5int,
{
    lemma_expr_err(toks, b, p);
    match parse_expr(toks, p) {
        Err(_) => {},
        Ok((e, p1)) => {
            if kind(toks, p1) == TokKind::Comma && p <= p1 {
                lemma_expr_list_err(toks, b, p1 + 1, acc.push(e));
            }
        },
    }
}

proof fn lemma_term_err(toks: Seq<TokV>, b: int, p: int)
    requires
        positions_in(toks, b),
    ensures
        err_in(parse_term(toks, p), b),
    decreases toks.len() - p, 2int,
{
    lemma_tok_positions(toks, b);
    let k = kind(toks, p);
    if k == TokKind::LParen {
        lemma_expr_err(toks, b, p + 1);
    } else if k == TokKind::LBracket {
        if kind(toks, p + 1) != TokKind::RBracket {
            lemma_expr_list_err(toks, b, p + 1, Seq::empty());
        }
    } else if k == TokKind::Ident {
        if kind(toks, p + 1) == TokKind::LParen {
            if kind(toks, p + 2) != TokKind::RParen {
                lemma_expr_list_err(toks, b, p + 2, Seq::empty());
            }
        } else if kind(toks, p + 1) == TokKind::LBracket {
            lemma_expr_err(toks, b, p + 2);
        }
    }
}

proof fn lemma_expr_stmt_err(toks: Seq<TokV>, b: int, p: int)
    requires
        positions_in(toks, b),
    ensures
        err_in(parse_expr_stmt(toks, p), b),
    decreases toks.len() - p, 5int,
{
    lemma_tok_positions(toks, b);
    lemma_expr_err(toks, b, p);
}

proof fn lemma_stmt_err(toks: Seq<TokV>, b: int, p: int)
    requires
        positions_in(toks, b),
    ensures
        err_in(parse_stmt(toks, p), b),
    decreases toks.len() - p, 6int,
{
    lemma_tok_positions(toks, b);
    let k = kind(toks, p);
    if k == TokKind::Let {
        lemma_let_err(toks, b, p);
    } else if k == TokKind::Fn {
        lemma_fn_err(toks, b, p);
    } else if k == TokKind::If {
        lemma_if_err(toks, b, p);
    } else if k == TokKind::While {
        lemma_while_err(toks, b, p);
    } else if k == TokKind::For {
        lemma_for_err(toks, b, p);
    } else if k == TokKind::Return {
        lemma_expr_err(toks, b, p + 1);
    } else if k == TokKind::Print {
        if kind(toks, p + 1) == TokKind::LParen {
            lemma_expr_err(toks, b, p + 2);
        }
    } else if k == TokKind::LBrace {
        lemma_block_err(toks, b, p);
    } else if k == TokKind::Ident && kind(toks, p + 1) == TokKind::Assign {
        lemma_expr_err(toks, b, p + 2);
    } else if k == TokKind::Ident && kind(toks, p + 1) == TokKind::LBracket {
        lemma_indexed_err(toks, b, p);
    } else {
        lemma_expr_stmt_err(toks, b, p);
    }
}

proof fn lemma_let_err(toks: Seq<TokV>, b: int, p: int)
    requires
        positions_in(toks, b),
    ensures
        err_in(parse_let(toks, p), b),
    decreases toks.len() - p, 5int,
{
    lemma_tok_positions(toks, b);
    if kind(toks, p + 1) == TokKind::Ident {
        if kind(toks, p + 2) == TokKind::Colon {
            lemma_type_err(toks, b, p + 3);
        }
        match parse_annotation(toks, p + 2) {
            Err(_) => {},
            Ok((_, p1)) => {
                if kind(toks, p1) == TokKind::Assign && !(p1 < p) {
                    lemma_expr_err(toks, b, p1 + 1);
                }
            },
        }
    }
}

proof fn lemma_fn_err(toks: Seq<TokV>, b: int, p: int)
    requires
        positions_in(toks, b),
    ensures
        err_in(parse_fn(toks, p), b),
    decreases toks.len() - p, 5int,
{
    lemma_tok_positions(toks, b);
    if kind(toks, p + 1) == TokKind::Ident && kind(toks, p + 2) == TokKind::LParen {
        if kind(toks, p + 3) != TokKind::RParen {
            lemma_params_err(toks, b, p + 3, Seq::empty());
        }
        let params = if kind(toks, p + 3) == TokKind::RParen {
            Ok((Seq::<ExprV>::empty(), p + 3))
        } else {
            parse_params(toks, p + 3, Seq::empty())
        };
        match params {
            Err(_) => {},
            Ok((_, p1)) => {
                if kind(toks, p1) == TokKind::RParen {
                    if kind(toks, p1 + 1) == TokKind::Arrow {
                        lemma_type_err(toks, b, p1 + 2);
                    }
                    match parse_return_type(toks, p1 + 1) {
                        Err(_) => {},
                        Ok((_, p2)) => {
                            if p < p2 <= toks.len() {
                                lemma_block_err(toks, b, p2);
                            }
                        },
                    }
                }
            },
        }
    }
}

proof fn lemma_if_err(toks: Seq<TokV>, b: int, p: int)
    requires
        positions_in(toks, b),
    ensures
        err_in(parse_if(toks, p), b),
    decreases toks.len() - p, 5int,
{
    lemma_tok_positions(toks, b);
    if kind(toks, p + 1) == TokKind::LParen {
        lemma_expr_err(toks, b, p + 2);
        match parse_expr(toks, p + 2) {
            Err(_) => {},
            Ok((_, p1)) => {
                if kind(toks, p1) == TokKind::RParen && !(p1 < p) {
                    lemma_block_err(toks, b, p1 + 1);
                    match parse_block(toks, p1 + 1) {
                        Err(_) => {},
                        Ok((_, p2)) => {
                            if kind(toks, p2) == TokKind::Else && p < p2 {
                                lemma_block_err(toks, b, p2 + 1);
                            }
                        },
                    }
                }
            },
        }
    }
}

proof fn lemma_while_err(toks: Seq<TokV>, b: int, p: int)
    requires
        positions_in(toks, b),
    ensures
        err_in(parse_while(toks, p), b),
    decreases toks.len() - p, 5int,
{
    lemma_tok_positions(toks, b);
    if kind(toks, p + 1) == TokKind::LParen {
        lemma_expr_err(toks, b, p + 2);
        match parse_expr(toks, p + 2) {
            Err(_) => {},
            Ok((_, p1)) => {
                if kind(toks, p1) == TokKind::RParen && !(p1 < p) {
                    lemma_block_err(toks, b, p1 + 1);
                }
            },
        }
    }
}

proof fn lemma_for_err(toks: Seq<TokV>, b: int, p: int)
    requires
        positions_in(toks, b),
    ensures
        err_in(parse_for(toks, p), b),
    decreases toks.len() - p, 5int,
{
    lemma_tok_positions(toks, b);
    if kind(toks, p + 1) == TokKind::LParen {
        lemma_for_header_err(toks, b, p + 2);
        match parse_for_header(toks, p + 2) {
            Err(_) => {},
            Ok((_, p1)) => {
                if kind(toks, p1) == TokKind::RParen && !(p1 < p) {
                    lemma_block_err(toks, b, p1 + 1);
                }
            },
        }
    }
}

proof fn lemma_indexed_err(toks: Seq<TokV>, b: int, p: int)
    requires
        positions_in(toks, b),
    ensures
        err_in(parse_indexed(toks, p), b),
    decreases toks.len() - p, 5int,
{
    lemma_tok_positions(toks, b);
    lemma_expr_err(toks, b, p + 2);
    match parse_expr(toks, p + 2) {
        Err(_) => {},
        Ok((idx, p1)) => {
            if kind(toks, p1) == TokKind::RBracket && !(p1 < p) {
                if kind(toks, p1 + 1) == TokKind::Assign {
                    lemma_expr_err(toks, b, p1 + 2);
                } else {
                    let name = tok(toks, p).text;
                    let left = ExprV::ListIndex(Box::new(ExprV::Variable(name)), Box::new(idx));
                    lemma_expr_tail_err(toks, b, p1 + 1, left);
                }
            }
        },
    }
}

proof fn lemma_tokens_err(toks: Seq<TokV>, b: int)
    requires
        positions_in(toks, b),
    ensures
        err_in(parse_tokens(toks), b),
{
    lemma_stmts_err(toks, b, 0, Seq::empty());
    lemma_tok_positions(toks, b);
}

proof fn lemma_slices_positions(s: Seq<char>, toks: Seq<TokV>)
    requires
        slices_of(s, toks),
    ensures
        positions_in(toks, s.len() as int),
{
    assert forall|i: int| 0 <= i < toks.len() implies 0 <= (#[trigger] toks[i]).pos <= s.len() by {
        assert(toks[i].pos + toks[i].text.len() <= s.len());
    }
}

/// A parse error points into the source text: its offset lies between 0
/// and the length of the text (the length itself when the text ends too
/// early).
pub proof fn law_parse_error_in_text(s: Seq<char>)
    ensures
        err_in(parse_source(s), s.len() as int),
{
    law_tokens_are_slices(s);
    match lex(s) {
        Err(_) => {},
        Ok(toks) => {
            lemma_slices_positions(s, toks);
            lemma_tokens_err(toks, s.len() as int);
        },
    }
}


/// Whether every operator token of `toks` carries, as its operator, its own
/// text.
pub open spec fn ops_are_texts(toks: Seq<TokV>) -> bool {
    forall|k: int| 0 <= k < toks.len() && (#[trigger] binop(toks[k].kind)) is Some ==> binop(
        toks[k].kind,
    ) == Some(toks[k].text)
}

/// A token step of the lexer that reads an operator reads exactly that
/// operator's text.
proof fn lemma_step_op_text(s: Seq<char>, i: int)
    requires
        0 <= i < s.len(),
        lex_step(s, i) matches LexStep::Tok(k, j) && binop(k) is Some,
    ensures
        lex_step(s, i) matches LexStep::Tok(k, j) && binop(k) == Some(s.subrange(i, j)),
{
    reveal_strlit("+");
    reveal_strlit("-");
    reveal_strlit("*");
    reveal_strlit("/");
    reveal_strlit("==");
    reveal_strlit("!=");
    reveal_strlit("<");
    reveal_strlit("<=");
    reveal_strlit(">");
    reveal_strlit(">=");
    if let LexStep::Tok(k, j) = lex_step(s, i) {
        let c = s[i];
        if i + 1 < s.len() && two_char_kind(c, s[i + 1]) is Some {
            assert(s.subrange(i, j) =~= seq![c, s[i + 1]]);
        } else {
            assert(s.subrange(i, j) =~= seq![c]);
        }
    }
}

proof fn lemma_lex_op_texts(s: Seq<char>, i: int, acc: Seq<TokV>)
    requires
        0 <= i,
        ops_are_texts(acc),
    ensures
        lex_from(s, i, acc) matches Ok(toks) ==> ops_are_texts(toks),
    decreases s.len() - i,
{
    if i >= s.len() {
        let toks = acc.push(TokV { kind: TokKind::Eof, text: Seq::empty(), pos: s.len() as int });
        assert forall|k: int| 0 <= k < toks.len() && (#[trigger] binop(toks[k].kind)) is Some implies binop(
            toks[k].kind,
        ) == Some(toks[k].text) by {
            assert(toks[k] == acc[k]);
        }
    } else {
        match lex_step(s, i) {
            LexStep::Skip(j) => {
                if i < j <= s.len() {
                    lemma_lex_op_texts(s, j, acc);
                }
            },
            LexStep::Tok(kd, j) => {
                if i < j <= s.len() {
                    let t = TokV { kind: kd, text: s.subrange(i, j), pos: i };
                    let toks = acc.push(t);
                    if binop(kd) is Some {
                        lemma_step_op_text(s, i);
                    }
                    assert forall|k: int| 0 <= k < toks.len() && (#[trigger] binop(toks[k].kind)) is Some implies binop(
                        toks[k].kind,
                    ) == Some(toks[k].text) by {
                        if k < acc.len() {
                            assert(toks[k] == acc[k]);
                        }
                    }
                    lemma_lex_op_texts(s, j, toks);
                }
            },
            LexStep::Fail(_) => {},
        }
    }
}

/// An operator token of the source text stands for exactly its own text:
/// `a >= b` is the operation `>=`, `a < b` the operation `<`. So the
/// operator of every binary expression the parser builds is the text of
/// its operator token in the source.
pub proof fn law_operators_are_their_text(s: Seq<char>, p: int, left: ExprV)
    ensures
        lex(s) matches Ok(toks) ==> ops_are_texts(toks),
        lex(s) matches Ok(toks) ==> (binop(kind(toks, p)) is Some ==> (parse_expr_tail(toks, p, left)
            matches Ok((e, _)) ==> e matches ExprV::Binary(_, op, _) && op == tok(toks, p).text)),
{
    lemma_lex_op_texts(s, 0, Seq::empty());
    if let Ok(toks) = lex(s) {
        if 0 <= p < toks.len() {
            assert(binop(toks[p].kind) is Some ==> binop(toks[p].kind) == Some(toks[p].text));
        }
    }
}

} // verus!

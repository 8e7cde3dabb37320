//! The parser: reads a program from source text into the syntax tree.
//!
//! Each function here computes the grammar function of the same name in
//! `grammar`, over the model of the token vector.
use vstd::prelude::*;
use crate::ast::{Type, Expression, ExprV};
use crate::grammar::{
    PErr, PRes, tok, kind, fail, digit_val, digits_value, literal_value, number_literal, binop,
    is_comparison_kind, parse_type, parse_annotation, parse_return_type, parse_params, parse_int,
    parse_for_header, parse_stmts, parse_block, parse_expr_tail, parse_expr, parse_expr_list,
    parse_term, parse_expr_stmt, parse_stmt, parse_let, parse_fn, parse_if, parse_while, parse_for,
    parse_indexed, parse_tokens, parse_source,
};
use crate::lexer::{TokKind, Token, TokV, ParseError, ParseErrorKind, tokens_model, tokenize, is_word};
use crate::text::{chars_of, string_of, owned};

verus! {

/// A parse result: the value and the index of the token after it.
pub type Parsed<T> = Result<(T, usize), ParseError>;

pub open spec fn err_v(e: ParseError) -> PErr {
    (e.offset as int, e.kind)
}

pub open spec fn expr_res(r: Parsed<Expression>) -> PRes<ExprV> {
    match r {
        Ok((e, p)) => Ok((e@, p as int)),
        Err(e) => Err(err_v(e)),
    }
}

pub open spec fn exprs_res(r: Parsed<Vec<Expression>>) -> PRes<Seq<ExprV>> {
    match r {
        Ok((v, p)) => Ok((Expression::model_seq(v@), p as int)),
        Err(e) => Err(err_v(e)),
    }
}

pub open spec fn type_res(r: Parsed<Type>) -> PRes<Type> {
    match r {
        Ok((t, p)) => Ok((t, p as int)),
        Err(e) => Err(err_v(e)),
    }
}

pub open spec fn int_res(r: Parsed<i32>) -> PRes<i32> {
    match r {
        Ok((v, p)) => Ok((v, p as int)),
        Err(e) => Err(err_v(e)),
    }
}

/// A successful result ends at or before index `n`.
pub open spec fn ends_by<T>(r: Parsed<T>, n: int) -> bool {
    match r {
        Ok((_, p)) => p <= n,
        Err(_) => true,
    }
}

/// `model_seq` of a push is the push of the model.
proof fn lemma_model_seq_push(s: Seq<Expression>, e: Expression)
    ensures
        Expression::model_seq(s.push(e)) == Expression::model_seq(s).push(e@),
{
    assert(s.push(e).subrange(0, s.len() as int) =~= s);
}

fn kind_at(toks: &Vec<Token>, p: usize) -> (k: TokKind)
    ensures
        k == kind(tokens_model(toks@), p as int),
        k != TokKind::Eof ==> p < toks.len(),
{
    if p < toks.len() {
        toks[p].kind
    } else {
        TokKind::Eof
    }
}

fn pos_at(toks: &Vec<Token>, p: usize) -> (r: usize)
    ensures
        r as int == tok(tokens_model(toks@), p as int).pos,
{
    if p < toks.len() {
        toks[p].pos
    } else if toks.len() > 0 {
        toks[toks.len() - 1].pos
    } else {
        0
    }
}

fn text_at(toks: &Vec<Token>, p: usize) -> (r: String)
    ensures
        r@ == tok(tokens_model(toks@), p as int).text,
{
    if p < toks.len() {
        string_of(&toks[p].text)
    } else {
        String::new()
    }
}

fn fail_at(toks: &Vec<Token>, p: usize) -> (e: ParseError)
    ensures
        err_v(e) == fail(tokens_model(toks@), p as int),
{
    ParseError { offset: pos_at(toks, p), kind: ParseErrorKind::UnexpectedToken }
}

fn word_at(toks: &Vec<Token>, p: usize, w: &str) -> (r: bool)
    ensures
        r == (tok(tokens_model(toks@), p as int).text == w@),
{
    if p < toks.len() {
        is_word(&toks[p].text, w)
    } else {
        let empty: Vec<char> = Vec::new();
        is_word(&empty, w)
    }
}

/// Bound on the magnitude of an `i64`: 2^63.
const MAG_LIMIT: u64 = 0x8000_0000_0000_0000;

/// The value of a prefix of a digit run is at most that of the whole run.
proof fn lemma_digits_value_prefix(d: Seq<char>, k: int)
    requires
        0 <= k <= d.len(),
    ensures
        digits_value(d.subrange(0, k)) <= digits_value(d),
    decreases d.len(),
{
    if k < d.len() {
        lemma_digits_value_prefix(d.drop_last(), k);
        assert(d.drop_last().subrange(0, k) =~= d.subrange(0, k));
    } else {
        assert(d.subrange(0, k) =~= d);
    }
}

fn digit_val_exec(c: char) -> (r: u64)
    ensures
        r == digit_val(c),
        r <= 9,
{
    if '0' <= c && c <= '9' {
        (c as u32 - '0' as u32) as u64
    } else {
        0
    }
}

/// The value of the digit run `d` when it is at most 2^63.
fn digits_value_exec(d: &Vec<char>) -> (r: Option<u64>)
    ensures
        match r {
            Some(v) => v == digits_value(d@) && v <= MAG_LIMIT,
            None => digits_value(d@) > MAG_LIMIT,
        },
{
    let mut v: u64 = 0;
    let mut i: usize = 0;
    while i < d.len()
        invariant
            i <= d@.len(),
            v == digits_value(d@.subrange(0, i as int)),
            v <= MAG_LIMIT,
        decreases d@.len() - i,
    {
        let ghost pre = d@.subrange(0, i as int + 1);
        assert(pre.drop_last() =~= d@.subrange(0, i as int));
        let dv = digit_val_exec(d[i]);
        if v > 922_337_203_685_477_580 {
            proof {
                lemma_digits_value_prefix(d@, i as int + 1);
            }
            return None;
        }
        let nv = v * 10 + dv;
        if nv > MAG_LIMIT {
            proof {
                lemma_digits_value_prefix(d@, i as int + 1);
            }
            return None;
        }
        v = nv;
        i = i + 1;
    }
    assert(d@.subrange(0, d@.len() as int) =~= d@);
    Some(v)
}

/// The value of a number literal when it is an `i64`.
fn literal_value_exec(neg: bool, d: &Vec<char>) -> (r: Option<i64>)
    ensures
        match r {
            Some(v) => v == literal_value(neg, d@),
            None => !(i64::MIN <= literal_value(neg, d@) <= i64::MAX),
        },
{
    match digits_value_exec(d) {
        None => None,
        Some(v) => {
            if neg {
                if v == MAG_LIMIT {
                    Some(i64::MIN)
                } else {
                    Some(-(v as i64))
                }
            } else if v == MAG_LIMIT {
                None
            } else {
                Some(v as i64)
            }
        },
    }
}

/// The node for a number literal (see [`number_literal`]).
fn number_literal_exec(neg: bool, d: &Vec<char>) -> (r: Option<Expression>)
    ensures
        match r {
            Some(e) => number_literal(neg, d@) == Some(e@),
            None => number_literal(neg, d@) is None,
        },
{
    match literal_value_exec(neg, d) {
        None => None,
        Some(v) => {
            if i32::MIN as i64 <= v && v <= i32::MAX as i64 {
                Some(Expression::Number(v as i32))
            } else {
                Some(Expression::Number64(v))
            }
        },
    }
}

fn parse_type_exec(toks: &Vec<Token>, p: usize) -> (r: Parsed<Type>)
    requires
        p <= toks@.len(),
    ensures
        type_res(r) == parse_type(tokens_model(toks@), p as int),
        ends_by(r, toks@.len() as int),
    decreases toks@.len() - p,
{
    let ghost tm = tokens_model(toks@);
    let k = kind_at(toks, p);
    if k == TokKind::Ident && word_at(toks, p, "i32") {
        Ok((Type::i32, p + 1))
    } else if k == TokKind::Ident && word_at(toks, p, "i64") {
        Ok((Type::i64, p + 1))
    } else if k == TokKind::Ident && word_at(toks, p, "bool") {
        Ok((Type::Bool, p + 1))
    } else if k == TokKind::Ident && word_at(toks, p, "string") {
        Ok((Type::String, p + 1))
    } else if k == TokKind::Ident && word_at(toks, p, "List") {
        if kind_at(toks, p + 1) == TokKind::Lt {
            match parse_type_exec(toks, p + 2) {
                Err(e) => Err(e),
                Ok((inner, p1)) => {
                    if kind_at(toks, p1) == TokKind::Gt {
                        Ok((Type::List(Box::new(inner)), p1 + 1))
                    } else {
                        Err(fail_at(toks, p1))
                    }
                },
            }
        } else {
            Err(fail_at(toks, p + 1))
        }
    } else {
        Err(fail_at(toks, p))
    }
}


fn parse_annotation_exec(toks: &Vec<Token>, p: usize) -> (r: Parsed<Type>)
    requires
        p <= toks@.len(),
    ensures
        type_res(r) == parse_annotation(tokens_model(toks@), p as int),
        ends_by(r, toks@.len() as int),
{
    if kind_at(toks, p) == TokKind::Colon {
        parse_type_exec(toks, p + 1)
    } else {
        Ok((Type::Unspecified, p))
    }
}

fn parse_return_type_exec(toks: &Vec<Token>, p: usize) -> (r: Parsed<Type>)
    requires
        p <= toks@.len(),
    ensures
        type_res(r) == parse_return_type(tokens_model(toks@), p as int),
        ends_by(r, toks@.len() as int),
{
    if kind_at(toks, p) == TokKind::Arrow {
        parse_type_exec(toks, p + 1)
    } else {
        Ok((Type::Unspecified, p))
    }
}

fn parse_params_exec(toks: &Vec<Token>, p0: usize) -> (r: Parsed<Vec<Expression>>)
    requires
        p0 <= toks@.len(),
    ensures
        exprs_res(r) == parse_params(tokens_model(toks@), p0 as int, Seq::empty()),
        ends_by(r, toks@.len() as int),
{
    let ghost tm = tokens_model(toks@);
    let mut acc: Vec<Expression> = Vec::new();
    let mut p = p0;
    assert(Expression::model_seq(acc@) =~= Seq::<ExprV>::empty());
    loop
        invariant
            p <= toks@.len(),
            tm == tokens_model(toks@),
            parse_params(tm, p0 as int, Seq::empty()) == parse_params(
                tm,
                p as int,
                Expression::model_seq(acc@),
            ),
        decreases toks@.len() - p,
    {
        match parse_type_exec(toks, p) {
            Err(e) => {
                return Err(e);
            },
            Ok((t, p1)) => {
                if kind_at(toks, p1) != TokKind::Ident {
                    return Err(fail_at(toks, p1));
                }
                let name = text_at(toks, p1);
                let arg = Expression::FuncArg(name, t);
                proof {
                    lemma_model_seq_push(acc@, arg);
                }
                acc.push(arg);
                if kind_at(toks, p1 + 1) == TokKind::Comma && p <= p1 {
                    p = p1 + 2;
                } else {
                    return Ok((acc, p1 + 1));
                }
            },
        }
    }
}

fn parse_int_exec(toks: &Vec<Token>, p: usize) -> (r: Parsed<i32>)
    requires
        p <= toks@.len(),
    ensures
        int_res(r) == parse_int(tokens_model(toks@), p as int),
        ends_by(r, toks@.len() as int),
{
    if kind_at(toks, p) == TokKind::Number {
        match literal_value_exec(false, &toks[p].text) {
            Some(v) => {
                if i32::MIN as i64 <= v && v <= i32::MAX as i64 {
                    return Ok((v as i32, p + 1));
                }
            },
            None => {},
        }
        Err(ParseError { offset: pos_at(toks, p), kind: ParseErrorKind::InvalidNumber })
    } else if kind_at(toks, p) == TokKind::Minus && kind_at(toks, p + 1) == TokKind::Number {
        match literal_value_exec(true, &toks[p + 1].text) {
            Some(v) => {
                if i32::MIN as i64 <= v && v <= i32::MAX as i64 {
                    return Ok((v as i32, p + 2));
                }
            },
            None => {},
        }
        Err(ParseError { offset: pos_at(toks, p), kind: ParseErrorKind::InvalidNumber })
    } else {
        Err(fail_at(toks, p))
    }
}

/// The header of a `for` loop (see [`parse_for_header`]).
fn parse_for_header_exec(toks: &Vec<Token>, p: usize) -> (r: Result<((String, i32, i32, i32), usize), ParseError>)
    requires
        p <= toks@.len(),
    ensures
        match r {
            Ok(((v, s, e, st), p1)) => parse_for_header(tokens_model(toks@), p as int) == Ok::<((Seq<char>, i32, i32, i32), int), PErr>(((v@, s, e, st), p1 as int))
                && p1 <= toks@.len(),
            Err(e) => parse_for_header(tokens_model(toks@), p as int) == Err::<((Seq<char>, i32, i32, i32), int), PErr>(err_v(e)),
        },
{
    if kind_at(toks, p) != TokKind::Let {
        return Err(fail_at(toks, p));
    }
    if kind_at(toks, p + 1) != TokKind::Ident {
        return Err(fail_at(toks, p + 1));
    }
    if kind_at(toks, p + 2) != TokKind::Assign {
        return Err(fail_at(toks, p + 2));
    }
    match parse_int_exec(toks, p + 3) {
        Err(e) => Err(e),
        Ok((start, p1)) => {
            if kind_at(toks, p1) != TokKind::Semicolon {
                return Err(fail_at(toks, p1));
            }
            if kind_at(toks, p1 + 1) != TokKind::Ident {
                return Err(fail_at(toks, p1 + 1));
            }
            let c = kind_at(toks, p1 + 2);
            if !(c == TokKind::Lt || c == TokKind::Le || c == TokKind::Gt || c == TokKind::Ge
                || c == TokKind::EqEq || c == TokKind::NotEq) {
                return Err(fail_at(toks, p1 + 2));
            }
            match parse_int_exec(toks, p1 + 3) {
                Err(e) => Err(e),
                Ok((end, p2)) => {
                    if kind_at(toks, p2) != TokKind::Semicolon {
                        return Err(fail_at(toks, p2));
                    }
                    if kind_at(toks, p2 + 1) != TokKind::Ident {
                        return Err(fail_at(toks, p2 + 1));
                    }
                    let name = text_at(toks, p + 1);
                    if kind_at(toks, p2 + 2) == TokKind::PlusPlus {
                        Ok(((name, start, end, 1i32), p2 + 3))
                    } else if kind_at(toks, p2 + 2) == TokKind::MinusMinus {
                        Ok(((name, start, end, -1i32), p2 + 3))
                    } else {
                        Err(fail_at(toks, p2 + 2))
                    }
                },
            }
        },
    }
}


fn binop_exec(k: TokKind) -> (r: Option<String>)
    ensures
        match r {
            Some(op) => binop(k) == Some(op@),
            None => binop(k) is None,
        },
{
    match k {
        TokKind::Plus => Some(owned("+")),
        TokKind::Minus => Some(owned("-")),
        TokKind::Star => Some(owned("*")),
        TokKind::Slash => Some(owned("/")),
        TokKind::EqEq => Some(owned("==")),
        TokKind::NotEq => Some(owned("!=")),
        TokKind::Lt => Some(owned("<")),
        TokKind::Le => Some(owned("<=")),
        TokKind::Gt => Some(owned(">")),
        TokKind::Ge => Some(owned(">=")),
        _ => None,
    }
}

fn parse_stmts_exec(toks: &Vec<Token>, p0: usize) -> (r: Parsed<Vec<Expression>>)
    requires
        p0 <= toks@.len(),
    ensures
        exprs_res(r) == parse_stmts(tokens_model(toks@), p0 as int, Seq::empty()),
        ends_by(r, toks@.len() as int),
    decreases toks@.len() - p0, 7int,
{
    let ghost tm = tokens_model(toks@);
    let mut acc: Vec<Expression> = Vec::new();
    let mut p = p0;
    assert(Expression::model_seq(acc@) =~= Seq::<ExprV>::empty());
    loop
        invariant
            p0 <= p <= toks@.len(),
            tm == tokens_model(toks@),
            parse_stmts(tm, p0 as int, Seq::empty()) == parse_stmts(
                tm,
                p as int,
                Expression::model_seq(acc@),
            ),
        decreases toks@.len() - p,
    {
        let k = kind_at(toks, p);
        if k == TokKind::RBrace || k == TokKind::Eof {
            return Ok((acc, p));
        } else if k == TokKind::Semicolon {
            p = p + 1;
        } else {
            match parse_stmt_exec(toks, p) {
                Err(e) => {
                    return Err(e);
                },
                Ok((st, p1)) => {
                    if p < p1 && p1 <= toks.len() {
                        proof {
                            lemma_model_seq_push(acc@, st);
                        }
                        acc.push(st);
                        p = p1;
                    } else {
                        return Err(fail_at(toks, p));
                    }
                },
            }
        }
    }
}

fn parse_block_exec(toks: &Vec<Token>, p: usize) -> (r: Parsed<Expression>)
    requires
        p <= toks@.len(),
    ensures
        expr_res(r) == parse_block(tokens_model(toks@), p as int),
        ends_by(r, toks@.len() as int),
    decreases toks@.len() - p, 5int,
{
    if kind_at(toks, p) == TokKind::LBrace {
        match parse_stmts_exec(toks, p + 1) {
            Err(e) => Err(e),
            Ok((ss, p1)) => {
                if kind_at(toks, p1) == TokKind::RBrace {
                    Ok((Expression::BlockStmt(ss), p1 + 1))
                } else {
                    Err(fail_at(toks, p1))
                }
            },
        }
    } else {
        Err(fail_at(toks, p))
    }
}

fn parse_expr_tail_exec(toks: &Vec<Token>, p: usize, left: Expression) -> (r: Parsed<Expression>)
    requires
        p <= toks@.len(),
    ensures
        expr_res(r) == parse_expr_tail(tokens_model(toks@), p as int, left@),
        ends_by(r, toks@.len() as int),
    decreases toks@.len() - p, 3int,
{
    match binop_exec(kind_at(toks, p)) {
        None => Ok((left, p)),
        Some(op) => {
            match parse_expr_exec(toks, p + 1) {
                Err(e) => Err(e),
                Ok((right, p1)) => Ok((Expression::Binary(Box::new(left), op, Box::new(right)), p1)),
            }
        },
    }
}

fn parse_expr_exec(toks: &Vec<Token>, p: usize) -> (r: Parsed<Expression>)
    requires
        p <= toks@.len(),
    ensures
        expr_res(r) == parse_expr(tokens_model(toks@), p as int),
        ends_by(r, toks@.len() as int),
    decreases toks@.len() - p, 4int,
{
    match parse_term_exec(toks, p) {
        Err(e) => Err(e),
        Ok((left, p1)) => {
            if p < p1 && p1 <= toks.len() {
                parse_expr_tail_exec(toks, p1, left)
            } else {
                Err(fail_at(toks, p))
            }
        },
    }
}

fn parse_expr_list_exec(toks: &Vec<Token>, p0: usize) -> (r: Parsed<Vec<Expression>>)
    requires
        p0 <= toks@.len(),
    ensures
        exprs_res(r) == parse_expr_list(tokens_model(toks@), p0 as int, Seq::empty()),
        ends_by(r, toks@.len() as int),
    decreases toks@.len() - p0, 5int,
{
    let ghost tm = tokens_model(toks@);
    let mut acc: Vec<Expression> = Vec::new();
    let mut p = p0;
    assert(Expression::model_seq(acc@) =~= Seq::<ExprV>::empty());
    loop
        invariant
            p0 <= p <= toks@.len(),
            tm == tokens_model(toks@),
            parse_expr_list(tm, p0 as int, Seq::empty()) == parse_expr_list(
                tm,
                p as int,
                Expression::model_seq(acc@),
            ),
        decreases toks@.len() - p,
    {
        match parse_expr_exec(toks, p) {
            Err(e) => {
                return Err(e);
            },
            Ok((e, p1)) => {
                proof {
                    lemma_model_seq_push(acc@, e);
                }
                acc.push(e);
                if kind_at(toks, p1) == TokKind::Comma && p <= p1 {
                    p = p1 + 1;
                } else {
                    return Ok((acc, p1));
                }
            },
        }
    }
}

/// A term that starts with `(`.
fn parse_grouping_exec(toks: &Vec<Token>, p: usize) -> (r: Parsed<Expression>)
    requires
        p <= toks@.len(),
        kind(tokens_model(toks@), p as int) == TokKind::LParen,
    ensures
        expr_res(r) == parse_term(tokens_model(toks@), p as int),
        ends_by(r, toks@.len() as int),
    decreases toks@.len() - p, 1int,
{
    let k = kind_at(toks, p);
    match parse_expr_exec(toks, p + 1) {
        Err(e) => Err(e),
        Ok((e, p1)) => {
            if kind_at(toks, p1) == TokKind::RParen {
                Ok((Expression::Grouping(Box::new(e)), p1 + 1))
            } else {
                Err(fail_at(toks, p1))
            }
        },
    }
}

/// A term that starts with `[`.
fn parse_list_literal_exec(toks: &Vec<Token>, p: usize) -> (r: Parsed<Expression>)
    requires
        p <= toks@.len(),
        kind(tokens_model(toks@), p as int) == TokKind::LBracket,
    ensures
        expr_res(r) == parse_term(tokens_model(toks@), p as int),
        ends_by(r, toks@.len() as int),
    decreases toks@.len() - p, 1int,
{
    let k = kind_at(toks, p);
    if kind_at(toks, p + 1) == TokKind::RBracket {
        let empty: Vec<Expression> = Vec::new();
        assert(Expression::model_seq(empty@) =~= Seq::<ExprV>::empty());
        Ok((Expression::List(empty), p + 2))
    } else {
        match parse_expr_list_exec(toks, p + 1) {
            Err(e) => Err(e),
            Ok((es, p1)) => {
                if kind_at(toks, p1) == TokKind::RBracket {
                    Ok((Expression::List(es), p1 + 1))
                } else {
                    Err(fail_at(toks, p1))
                }
            },
        }
    }
}

/// A term that starts with a name: a call, an element read or a variable.
fn parse_name_term_exec(toks: &Vec<Token>, p: usize) -> (r: Parsed<Expression>)
    requires
        p <= toks@.len(),
        kind(tokens_model(toks@), p as int) == TokKind::Ident,
    ensures
        expr_res(r) == parse_term(tokens_model(toks@), p as int),
        ends_by(r, toks@.len() as int),
    decreases toks@.len() - p, 1int,
{
    let k = kind_at(toks, p);
    let name = text_at(toks, p);
    proof {
        reveal_with_fuel(Expression::model, 2);
    }
    if kind_at(toks, p + 1) == TokKind::LParen {
        if kind_at(toks, p + 2) == TokKind::RParen {
            let empty: Vec<Expression> = Vec::new();
            assert(Expression::model_seq(empty@) =~= Seq::<ExprV>::empty());
            Ok((Expression::CallStmt(name, empty), p + 3))
        } else {
            match parse_expr_list_exec(toks, p + 2) {
                Err(e) => Err(e),
                Ok((args, p1)) => {
                    if kind_at(toks, p1) == TokKind::RParen {
                        Ok((Expression::CallStmt(name, args), p1 + 1))
                    } else {
                        Err(fail_at(toks, p1))
                    }
                },
            }
        }
    } else if kind_at(toks, p + 1) == TokKind::LBracket {
        match parse_expr_exec(toks, p + 2) {
            Err(e) => Err(e),
            Ok((idx, p1)) => {
                if kind_at(toks, p1) == TokKind::RBracket {
                    Ok(
                        (
                            Expression::ListIndex(
                                Box::new(Expression::Variable(name)),
                                Box::new(idx),
                            ),
                            p1 + 1,
                        ),
                    )
                } else {
                    Err(fail_at(toks, p1))
                }
            },
        }
    } else {
        Ok((Expression::Variable(name), p + 1))
    }
}

fn parse_term_exec(toks: &Vec<Token>, p: usize) -> (r: Parsed<Expression>)
    requires
        p <= toks@.len(),
    ensures
        expr_res(r) == parse_term(tokens_model(toks@), p as int),
        ends_by(r, toks@.len() as int),
    decreases toks@.len() - p, 2int,
{
    let k = kind_at(toks, p);
    match k {
        TokKind::Number => match number_literal_exec(false, &toks[p].text) {
            Some(e) => Ok((e, p + 1)),
            None => Err(ParseError { offset: pos_at(toks, p), kind: ParseErrorKind::InvalidNumber }),
        },
        TokKind::Minus => {
            if kind_at(toks, p + 1) == TokKind::Number {
                match number_literal_exec(true, &toks[p + 1].text) {
                    Some(e) => Ok((e, p + 2)),
                    None => Err(
                        ParseError { offset: pos_at(toks, p), kind: ParseErrorKind::InvalidNumber },
                    ),
                }
            } else {
                Err(fail_at(toks, p))
            }
        },
        TokKind::Str => Ok((Expression::String(text_at(toks, p)), p + 1)),
        TokKind::True => Ok((Expression::Bool(true), p + 1)),
        TokKind::False => Ok((Expression::Bool(false), p + 1)),
        TokKind::Nil => Ok((Expression::Nil, p + 1)),
        TokKind::LParen => parse_grouping_exec(toks, p),
        TokKind::LBracket => parse_list_literal_exec(toks, p),
        TokKind::Ident => parse_name_term_exec(toks, p),
        _ => Err(fail_at(toks, p)),
    }
}


fn parse_expr_stmt_exec(toks: &Vec<Token>, p: usize) -> (r: Parsed<Expression>)
    requires
        p <= toks@.len(),
    ensures
        expr_res(r) == parse_expr_stmt(tokens_model(toks@), p as int),
        ends_by(r, toks@.len() as int),
    decreases toks@.len() - p, 5int,
{
    match parse_expr_exec(toks, p) {
        Err(e) => Err(e),
        Ok((e, p1)) => {
            if kind_at(toks, p1) == TokKind::Semicolon {
                Ok((e, p1 + 1))
            } else {
                Err(fail_at(toks, p1))
            }
        },
    }
}

/// `return expr ;`
fn parse_return_exec(toks: &Vec<Token>, p: usize) -> (r: Parsed<Expression>)
    requires
        p <= toks@.len(),
        kind(tokens_model(toks@), p as int) == TokKind::Return,
    ensures
        expr_res(r) == parse_stmt(tokens_model(toks@), p as int),
        ends_by(r, toks@.len() as int),
    decreases toks@.len() - p, 5int,
{
    let k = kind_at(toks, p);
    match parse_expr_exec(toks, p + 1) {
        Err(e) => Err(e),
        Ok((v, p1)) => {
            if kind_at(toks, p1) == TokKind::Semicolon {
                Ok((Expression::ReturnStmt(Box::new(v)), p1 + 1))
            } else {
                Err(fail_at(toks, p1))
            }
        },
    }
}

/// `print ( expr ) ;`
fn parse_print_exec(toks: &Vec<Token>, p: usize) -> (r: Parsed<Expression>)
    requires
        p <= toks@.len(),
        kind(tokens_model(toks@), p as int) == TokKind::Print,
    ensures
        expr_res(r) == parse_stmt(tokens_model(toks@), p as int),
        ends_by(r, toks@.len() as int),
    decreases toks@.len() - p, 5int,
{
    let k = kind_at(toks, p);
    if kind_at(toks, p + 1) == TokKind::LParen {
        match parse_expr_exec(toks, p + 2) {
            Err(e) => Err(e),
            Ok((v, p1)) => {
                if kind_at(toks, p1) == TokKind::RParen && kind_at(toks, p1 + 1)
                    == TokKind::Semicolon {
                    Ok((Expression::Print(Box::new(v)), p1 + 2))
                } else if kind_at(toks, p1) == TokKind::RParen {
                    Err(fail_at(toks, p1 + 1))
                } else {
                    Err(fail_at(toks, p1))
                }
            },
        }
    } else {
        Err(fail_at(toks, p + 1))
    }
}

/// `IDENT = expr ;`
fn parse_assign_exec(toks: &Vec<Token>, p: usize) -> (r: Parsed<Expression>)
    requires
        p <= toks@.len(),
        kind(tokens_model(toks@), p as int) == TokKind::Ident,
        kind(tokens_model(toks@), p + 1) == TokKind::Assign,
    ensures
        expr_res(r) == parse_stmt(tokens_model(toks@), p as int),
        ends_by(r, toks@.len() as int),
    decreases toks@.len() - p, 5int,
{
    let k0 = kind_at(toks, p);
    let k = kind_at(toks, p + 1);
    match parse_expr_exec(toks, p + 2) {
        Err(e) => Err(e),
        Ok((v, p1)) => {
            if kind_at(toks, p1) == TokKind::Semicolon {
                let name = text_at(toks, p);
                Ok((Expression::LetStmt(name, Type::Unspecified, Box::new(v)), p1 + 1))
            } else {
                Err(fail_at(toks, p1))
            }
        },
    }
}

fn parse_stmt_exec(toks: &Vec<Token>, p: usize) -> (r: Parsed<Expression>)
    requires
        p <= toks@.len(),
    ensures
        expr_res(r) == parse_stmt(tokens_model(toks@), p as int),
        ends_by(r, toks@.len() as int),
    decreases toks@.len() - p, 6int,
{
    let k = kind_at(toks, p);
    if k == TokKind::Let {
        parse_let_exec(toks, p)
    } else if k == TokKind::Fn {
        parse_fn_exec(toks, p)
    } else if k == TokKind::If {
        parse_if_exec(toks, p)
    } else if k == TokKind::While {
        parse_while_exec(toks, p)
    } else if k == TokKind::For {
        parse_for_exec(toks, p)
    } else if k == TokKind::Return {
        parse_return_exec(toks, p)
    } else if k == TokKind::Print {
        parse_print_exec(toks, p)
    } else if k == TokKind::LBrace {
        parse_block_exec(toks, p)
    } else if k == TokKind::Ident && kind_at(toks, p + 1) == TokKind::Assign {
        parse_assign_exec(toks, p)
    } else if k == TokKind::Ident && kind_at(toks, p + 1) == TokKind::LBracket {
        parse_indexed_exec(toks, p)
    } else {
        parse_expr_stmt_exec(toks, p)
    }
}

fn parse_let_exec(toks: &Vec<Token>, p: usize) -> (r: Parsed<Expression>)
    requires
        p <= toks@.len(),
        kind(tokens_model(toks@), p as int) == TokKind::Let,
    ensures
        expr_res(r) == parse_let(tokens_model(toks@), p as int),
        ends_by(r, toks@.len() as int),
    decreases toks@.len() - p, 5int,
{
    let k0 = kind_at(toks, p);
    if kind_at(toks, p + 1) != TokKind::Ident {
        return Err(fail_at(toks, p + 1));
    }
    match parse_annotation_exec(toks, p + 2) {
        Err(e) => Err(e),
        Ok((t, p1)) => {
            if kind_at(toks, p1) != TokKind::Assign {
                Err(fail_at(toks, p1))
            } else if p1 < p {
                Err(fail_at(toks, p))
            } else {
                match parse_expr_exec(toks, p1 + 1) {
                    Err(e) => Err(e),
                    Ok((v, p2)) => {
                        if kind_at(toks, p2) == TokKind::Semicolon {
                            let name = text_at(toks, p + 1);
                            Ok((Expression::LetStmt(name, t, Box::new(v)), p2 + 1))
                        } else {
                            Err(fail_at(toks, p2))
                        }
                    },
                }
            }
        },
    }
}

fn parse_fn_exec(toks: &Vec<Token>, p: usize) -> (r: Parsed<Expression>)
    requires
        p <= toks@.len(),
        kind(tokens_model(toks@), p as int) == TokKind::Fn,
    ensures
        expr_res(r) == parse_fn(tokens_model(toks@), p as int),
        ends_by(r, toks@.len() as int),
    decreases toks@.len() - p, 5int,
{
    let k0 = kind_at(toks, p);
    if kind_at(toks, p + 1) != TokKind::Ident {
        return Err(fail_at(toks, p + 1));
    }
    if kind_at(toks, p + 2) != TokKind::LParen {
        return Err(fail_at(toks, p + 2));
    }
    let params = if kind_at(toks, p + 3) == TokKind::RParen {
        let empty: Vec<Expression> = Vec::new();
        assert(Expression::model_seq(empty@) =~= Seq::<ExprV>::empty());
        Ok((empty, p + 3))
    } else {
        parse_params_exec(toks, p + 3)
    };
    match params {
        Err(e) => Err(e),
        Ok((args, p1)) => {
            if kind_at(toks, p1) != TokKind::RParen {
                return Err(fail_at(toks, p1));
            }
            match parse_return_type_exec(toks, p1 + 1) {
                Err(e) => Err(e),
                Ok((rt, p2)) => {
                    if p < p2 && p2 <= toks.len() {
                        match parse_block_exec(toks, p2) {
                            Err(e) => Err(e),
                            Ok((body, p3)) => {
                                let name = text_at(toks, p + 1);
                                Ok((Expression::FuncStmt(name, args, rt, Box::new(body)), p3))
                            },
                        }
                    } else {
                        Err(fail_at(toks, p))
                    }
                },
            }
        },
    }
}

fn parse_if_exec(toks: &Vec<Token>, p: usize) -> (r: Parsed<Expression>)
    requires
        p <= toks@.len(),
        kind(tokens_model(toks@), p as int) == TokKind::If,
    ensures
        expr_res(r) == parse_if(tokens_model(toks@), p as int),
        ends_by(r, toks@.len() as int),
    decreases toks@.len() - p, 5int,
{
    let k0 = kind_at(toks, p);
    if kind_at(toks, p + 1) != TokKind::LParen {
        return Err(fail_at(toks, p + 1));
    }
    match parse_expr_exec(toks, p + 2) {
        Err(e) => Err(e),
        Ok((c, p1)) => {
            if kind_at(toks, p1) != TokKind::RParen {
                Err(fail_at(toks, p1))
            } else if p1 < p {
                Err(fail_at(toks, p))
            } else {
                match parse_block_exec(toks, p1 + 1) {
                    Err(e) => Err(e),
                    Ok((then_b, p2)) => {
                        if kind_at(toks, p2) == TokKind::Else && p < p2 {
                            match parse_block_exec(toks, p2 + 1) {
                                Err(e) => Err(e),
                                Ok((else_b, p3)) => Ok(
                                    (
                                        Expression::IfStmt(
                                            Box::new(c),
                                            Box::new(then_b),
                                            Box::new(Some(else_b)),
                                        ),
                                        p3,
                                    ),
                                ),
                            }
                        } else {
                            Ok((Expression::IfStmt(Box::new(c), Box::new(then_b), Box::new(None)), p2))
                        }
                    },
                }
            }
        },
    }
}

fn parse_while_exec(toks: &Vec<Token>, p: usize) -> (r: Parsed<Expression>)
    requires
        p <= toks@.len(),
        kind(tokens_model(toks@), p as int) == TokKind::While,
    ensures
        expr_res(r) == parse_while(tokens_model(toks@), p as int),
        ends_by(r, toks@.len() as int),
    decreases toks@.len() - p, 5int,
{
    let k0 = kind_at(toks, p);
    if kind_at(toks, p + 1) != TokKind::LParen {
        return Err(fail_at(toks, p + 1));
    }
    match parse_expr_exec(toks, p + 2) {
        Err(e) => Err(e),
        Ok((c, p1)) => {
            if kind_at(toks, p1) != TokKind::RParen {
                Err(fail_at(toks, p1))
            } else if p1 < p {
                Err(fail_at(toks, p))
            } else {
                match parse_block_exec(toks, p1 + 1) {
                    Err(e) => Err(e),
                    Ok((b, p2)) => Ok((Expression::WhileStmt(Box::new(c), Box::new(b)), p2)),
                }
            }
        },
    }
}

fn parse_for_exec(toks: &Vec<Token>, p: usize) -> (r: Parsed<Expression>)
    requires
        p <= toks@.len(),
        kind(tokens_model(toks@), p as int) == TokKind::For,
    ensures
        expr_res(r) == parse_for(tokens_model(toks@), p as int),
        ends_by(r, toks@.len() as int),
    decreases toks@.len() - p, 5int,
{
    let k0 = kind_at(toks, p);
    if kind_at(toks, p + 1) != TokKind::LParen {
        return Err(fail_at(toks, p + 1));
    }
    match parse_for_header_exec(toks, p + 2) {
        Err(e) => Err(e),
        Ok(((var, start, end, step), p1)) => {
            if kind_at(toks, p1) != TokKind::RParen {
                Err(fail_at(toks, p1))
            } else if p1 < p {
                Err(fail_at(toks, p))
            } else {
                match parse_block_exec(toks, p1 + 1) {
                    Err(e) => Err(e),
                    Ok((b, p2)) => Ok((Expression::ForStmt(var, start, end, step, Box::new(b)), p2)),
                }
            }
        },
    }
}

fn parse_indexed_exec(toks: &Vec<Token>, p: usize) -> (r: Parsed<Expression>)
    requires
        p <= toks@.len(),
        kind(tokens_model(toks@), p as int) == TokKind::Ident,
        kind(tokens_model(toks@), p + 1) == TokKind::LBracket,
    ensures
        expr_res(r) == parse_indexed(tokens_model(toks@), p as int),
        ends_by(r, toks@.len() as int),
    decreases toks@.len() - p, 5int,
{
    let k0 = kind_at(toks, p);
    let k = kind_at(toks, p + 1);
    proof {
        reveal_with_fuel(Expression::model, 2);
    }
    match parse_expr_exec(toks, p + 2) {
        Err(e) => Err(e),
        Ok((idx, p1)) => {
            if kind_at(toks, p1) != TokKind::RBracket {
                Err(fail_at(toks, p1))
            } else if p1 < p {
                Err(fail_at(toks, p))
            } else if kind_at(toks, p1 + 1) == TokKind::Assign {
                match parse_expr_exec(toks, p1 + 2) {
                    Err(e) => Err(e),
                    Ok((v, p2)) => {
                        if kind_at(toks, p2) == TokKind::Semicolon {
                            let name = text_at(toks, p);
                            Ok((Expression::ListAssign(name, Box::new(idx), Box::new(v)), p2 + 1))
                        } else {
                            Err(fail_at(toks, p2))
                        }
                    },
                }
            } else {
                let name = text_at(toks, p);
                let left = Expression::ListIndex(
                    Box::new(Expression::Variable(name)),
                    Box::new(idx),
                );
                match parse_expr_tail_exec(toks, p1 + 1, left) {
                    Err(e) => Err(e),
                    Ok((e, p2)) => {
                        if kind_at(toks, p2) == TokKind::Semicolon {
                            Ok((e, p2 + 1))
                        } else {
                            Err(fail_at(toks, p2))
                        }
                    },
                }
            }
        },
    }
}

/// Parses a program: the statements of the source text `input`, in order.
/// The result is exactly what the grammar ([`parse_source`]) gives: the
/// statements when the text is a program, else the first error, with the
/// offset of the character where it was found.
pub fn parse_cyclo_program(input: &str) -> (r: Result<Vec<Expression>, ParseError>)
    ensures
        match r {
            Ok(v) => parse_source(input@) == Ok::<Seq<ExprV>, PErr>(Expression::model_seq(v@)),
            Err(e) => parse_source(input@) == Err::<Seq<ExprV>, PErr>(err_v(e)),
        },
{
    let chars = chars_of(input);
    let toks = match tokenize(&chars) {
        Ok(t) => t,
        Err(e) => {
            return Err(e);
        },
    };
    match parse_stmts_exec(&toks, 0) {
        Err(e) => Err(e),
        Ok((ss, p)) => {
            if kind_at(&toks, p) == TokKind::Eof {
                Ok(ss)
            } else {
                Err(fail_at(&toks, p))
            }
        },
    }
}

} // verus!

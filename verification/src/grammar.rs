//! The grammar of the language, written as spec functions over the token
//! sequence; the executable parser in `parser` is proved to compute them.
//!
//! Grammar (terminals in quotes, `IDENT`, `NUMBER`, `STRING` from the lexer):
//!
//! ```text
//! program   := stmt* EOF
//! stmt      := ';'                                   (skipped)
//!            | 'let' IDENT (':' type)? '=' expr ';'
//!            | 'fn' IDENT '(' (param (',' param)*)? ')' ('->' type)? block
//!            | 'if' '(' expr ')' block ('else' block)?
//!            | 'while' '(' expr ')' block
//!            | 'for' '(' 'let' IDENT '=' int ';' IDENT cmp int ';' IDENT ('++' | '--') ')' block
//!            | 'return' expr ';'
//!            | 'print' '(' expr ')' ';'
//!            | block
//!            | IDENT '=' expr ';'                     (assignment, a `let` without type)
//!            | IDENT '[' expr ']' '=' expr ';'        (list element assignment)
//!            | expr ';'
//! block     := '{' stmt* '}'
//! param     := type IDENT
//! type      := 'i32' | 'i64' | 'bool' | 'string' | 'List' '<' type '>'
//! expr      := term (op expr)?                      (right-nested, no precedence)
//! op        := '+' | '-' | '*' | '/' | '==' | '!=' | '<' | '<=' | '>' | '>='
//! term      := NUMBER | '-' NUMBER | STRING | 'true' | 'false' | 'nil'
//!            | '(' expr ')' | '[' (expr (',' expr)*)? ']'
//!            | IDENT '(' (expr (',' expr)*)? ')' | IDENT '[' expr ']' | IDENT
//! int       := NUMBER | '-' NUMBER                  (an i32)
//! ```
//!
//! A number literal is an `i32` when it fits one, else an `i64`; a string
//! literal keeps its quotes.
use vstd::prelude::*;
use crate::ast::{Type, ExprV};
use crate::lexer::{TokKind, TokV, ParseErrorKind, lex, is_digit};

verus! {

pub type PErr = (int, ParseErrorKind);

pub type PRes<T> = Result<(T, int), PErr>;

/// The position just past the text: that of the last token.
pub open spec fn end_pos(toks: Seq<TokV>) -> int {
    if toks.len() > 0 {
        toks.last().pos
    } else {
        0
    }
}

/// The token at index `p`; past the end, an `Eof` token.
pub open spec fn tok(toks: Seq<TokV>, p: int) -> TokV {
    if 0 <= p < toks.len() {
        toks[p]
    } else {
        TokV { kind: TokKind::Eof, text: Seq::empty(), pos: end_pos(toks) }
    }
}

pub open spec fn kind(toks: Seq<TokV>, p: int) -> TokKind {
    tok(toks, p).kind
}

/// The error for an unexpected token at index `p`.
pub open spec fn fail(toks: Seq<TokV>, p: int) -> PErr {
    (tok(toks, p).pos, ParseErrorKind::UnexpectedToken)
}

/// The value of a decimal digit; other characters count as zero.
pub open spec fn digit_val(c: char) -> nat {
    if is_digit(c) {
        (c as int - '0' as int) as nat
    } else {
        0
    }
}

/// The value of a run of decimal digits.
pub open spec fn digits_value(d: Seq<char>) -> nat
    decreases d.len(),
{
    if d.len() == 0 {
        0
    } else {
        digits_value(d.drop_last()) * 10 + digit_val(d.last())
    }
}

/// The value of a number literal, negated when `neg`.
pub open spec fn literal_value(neg: bool, d: Seq<char>) -> int {
    if neg {
        -(digits_value(d) as int)
    } else {
        digits_value(d) as int
    }
}

/// The node for a number literal: an `i32` when the value fits one, else an
/// `i64` when it fits one, else none.
pub open spec fn number_literal(neg: bool, d: Seq<char>) -> Option<ExprV> {
    let v = literal_value(neg, d);
    if i32::MIN <= v <= i32::MAX {
        Some(ExprV::Number(v as i32))
    } else if i64::MIN <= v <= i64::MAX {
        Some(ExprV::Number64(v as i64))
    } else {
        None
    }
}

/// The operator spelled by a token, if it is a binary operator.
pub open spec fn binop(k: TokKind) -> Option<Seq<char>> {
    match k {
        TokKind::Plus => Some("+"@),
        TokKind::Minus => Some("-"@),
        TokKind::Star => Some("*"@),
        TokKind::Slash => Some("/"@),
        TokKind::EqEq => Some("=="@),
        TokKind::NotEq => Some("!="@),
        TokKind::Lt => Some("<"@),
        TokKind::Le => Some("<="@),
        TokKind::Gt => Some(">"@),
        TokKind::Ge => Some(">="@),
        _ => None,
    }
}

/// Whether a token is a comparison operator.
pub open spec fn is_comparison_kind(k: TokKind) -> bool {
    k == TokKind::Lt || k == TokKind::Le || k == TokKind::Gt || k == TokKind::Ge || k
        == TokKind::EqEq || k == TokKind::NotEq
}

/// A type annotation at index `p`.
pub open spec fn parse_type(toks: Seq<TokV>, p: int) -> PRes<Type>
    decreases toks.len() - p,
{
    let t = tok(toks, p);
    if t.kind == TokKind::Ident && t.text == "i32"@ {
        Ok((Type::i32, p + 1))
    } else if t.kind == TokKind::Ident && t.text == "i64"@ {
        Ok((Type::i64, p + 1))
    } else if t.kind == TokKind::Ident && t.text == "bool"@ {
        Ok((Type::Bool, p + 1))
    } else if t.kind == TokKind::Ident && t.text == "string"@ {
        Ok((Type::String, p + 1))
    } else if t.kind == TokKind::Ident && t.text == "List"@ {
        if kind(toks, p + 1) == TokKind::Lt {
            match parse_type(toks, p + 2) {
                Err(e) => Err(e),
                Ok((inner, p1)) => if kind(toks, p1) == TokKind::Gt {
                    Ok((Type::List(Box::new(inner)), p1 + 1))
                } else {
                    Err(fail(toks, p1))
                },
            }
        } else {
            Err(fail(toks, p + 1))
        }
    } else {
        Err(fail(toks, p))
    }
}

/// An optional `: type` at index `p`; no annotation is `Unspecified`.
pub open spec fn parse_annotation(toks: Seq<TokV>, p: int) -> PRes<Type> {
    if kind(toks, p) == TokKind::Colon {
        parse_type(toks, p + 1)
    } else {
        Ok((Type::Unspecified, p))
    }
}

/// An optional `-> type` at index `p`; none is `Unspecified`.
pub open spec fn parse_return_type(toks: Seq<TokV>, p: int) -> PRes<Type> {
    if kind(toks, p) == TokKind::Arrow {
        parse_type(toks, p + 1)
    } else {
        Ok((Type::Unspecified, p))
    }
}

/// The parameters `type IDENT, ...` from index `p`, after those in `acc`.
pub open spec fn parse_params(toks: Seq<TokV>, p: int, acc: Seq<ExprV>) -> PRes<Seq<ExprV>>
    decreases toks.len() - p,
{
    match parse_type(toks, p) {
        Err(e) => Err(e),
        Ok((t, p1)) => if kind(toks, p1) != TokKind::Ident {
            Err(fail(toks, p1))
        } else {
            let acc2 = acc.push(ExprV::FuncArg(tok(toks, p1).text, t));
            if kind(toks, p1 + 1) == TokKind::Comma && p <= p1 {
                parse_params(toks, p1 + 2, acc2)
            } else {
                Ok((acc2, p1 + 1))
            }
        },
    }
}

/// An `i32` literal (`NUMBER` or `-` `NUMBER`) at index `p`.
pub open spec fn parse_int(toks: Seq<TokV>, p: int) -> PRes<i32> {
    if kind(toks, p) == TokKind::Number {
        let v = literal_value(false, tok(toks, p).text);
        if i32::MIN <= v <= i32::MAX {
            Ok((v as i32, p + 1))
        } else {
            Err((tok(toks, p).pos, ParseErrorKind::InvalidNumber))
        }
    } else if kind(toks, p) == TokKind::Minus && kind(toks, p + 1) == TokKind::Number {
        let v = literal_value(true, tok(toks, p + 1).text);
        if i32::MIN <= v <= i32::MAX {
            Ok((v as i32, p + 2))
        } else {
            Err((tok(toks, p).pos, ParseErrorKind::InvalidNumber))
        }
    } else {
        Err(fail(toks, p))
    }
}

/// The statements from index `p` up to a `}` or the end, after those in
/// `acc`; stray `;` are skipped.
pub open spec fn parse_stmts(toks: Seq<TokV>, p: int, acc: Seq<ExprV>) -> PRes<Seq<ExprV>>
    decreases toks.len() - p, 7int,
{
    let k = kind(toks, p);
    if k == TokKind::RBrace || k == TokKind::Eof {
        Ok((acc, p))
    } else if k == TokKind::Semicolon {
        parse_stmts(toks, p + 1, acc)
    } else {
        match parse_stmt(toks, p) {
            Err(e) => Err(e),
            Ok((s, p1)) => if p < p1 <= toks.len() {
                parse_stmts(toks, p1, acc.push(s))
            } else {
                Err(fail(toks, p))
            },
        }
    }
}

/// A block `{ stmt* }` at index `p`.
pub open spec fn parse_block(toks: Seq<TokV>, p: int) -> PRes<ExprV>
    decreases toks.len() - p, 5int,
{
    if kind(toks, p) == TokKind::LBrace {
        match parse_stmts(toks, p + 1, Seq::empty()) {
            Err(e) => Err(e),
            Ok((ss, p1)) => if kind(toks, p1) == TokKind::RBrace {
                Ok((ExprV::BlockStmt(ss), p1 + 1))
            } else {
                Err(fail(toks, p1))
            },
        }
    } else {
        Err(fail(toks, p))
    }
}

/// The rest of a binary expression whose left operand `left` ends at `p`.
pub open spec fn parse_expr_tail(toks: Seq<TokV>, p: int, left: ExprV) -> PRes<ExprV>
    decreases toks.len() - p, 3int,
{
    match binop(kind(toks, p)) {
        None => Ok((left, p)),
        Some(op) => match parse_expr(toks, p + 1) {
            Err(e) => Err(e),
            Ok((right, p1)) => Ok((ExprV::Binary(Box::new(left), op, Box::new(right)), p1)),
        },
    }
}

/// An expression at index `p`.
pub open spec fn parse_expr(toks: Seq<TokV>, p: int) -> PRes<ExprV>
    decreases toks.len() - p, 4int,
{
    match parse_term(toks, p) {
        Err(e) => Err(e),
        Ok((left, p1)) => if p < p1 <= toks.len() {
            parse_expr_tail(toks, p1, left)
        } else {
            Err(fail(toks, p))
        },
    }
}

/// Expressions separated by `,` from index `p`, after those in `acc`.
pub open spec fn parse_expr_list(toks: Seq<TokV>, p: int, acc: Seq<ExprV>) -> PRes<Seq<ExprV>>
    decreases toks.len() - p, 5int,
{
    match parse_expr(toks, p) {
        Err(e) => Err(e),
        Ok((e, p1)) => if kind(toks, p1) == TokKind::Comma && p <= p1 {
            parse_expr_list(toks, p1 + 1, acc.push(e))
        } else {
            Ok((acc.push(e), p1))
        },
    }
}

/// A term at index `p`.
pub open spec fn parse_term(toks: Seq<TokV>, p: int) -> PRes<ExprV>
    decreases toks.len() - p, 2int,
{
    let t = tok(toks, p);
    match t.kind {
        TokKind::Number => match number_literal(false, t.text) {
            Some(e) => Ok((e, p + 1)),
            None => Err((t.pos, ParseErrorKind::InvalidNumber)),
        },
        TokKind::Minus => if kind(toks, p + 1) == TokKind::Number {
            match number_literal(true, tok(toks, p + 1).text) {
                Some(e) => Ok((e, p + 2)),
                None => Err((t.pos, ParseErrorKind::InvalidNumber)),
            }
        } else {
            Err(fail(toks, p))
        },
        TokKind::Str => Ok((ExprV::Str(t.text), p + 1)),
        TokKind::True => Ok((ExprV::Bool(true), p + 1)),
        TokKind::False => Ok((ExprV::Bool(false), p + 1)),
        TokKind::Nil => Ok((ExprV::Nil, p + 1)),
        TokKind::LParen => match parse_expr(toks, p + 1) {
            Err(e) => Err(e),
            Ok((e, p1)) => if kind(toks, p1) == TokKind::RParen {
                Ok((ExprV::Grouping(Box::new(e)), p1 + 1))
            } else {
                Err(fail(toks, p1))
            },
        },
        TokKind::LBracket => if kind(toks, p + 1) == TokKind::RBracket {
            Ok((ExprV::List(Seq::empty()), p + 2))
        } else {
            match parse_expr_list(toks, p + 1, Seq::empty()) {
                Err(e) => Err(e),
                Ok((es, p1)) => if kind(toks, p1) == TokKind::RBracket {
                    Ok((ExprV::List(es), p1 + 1))
                } else {
                    Err(fail(toks, p1))
                },
            }
        },
        TokKind::Ident => if kind(toks, p + 1) == TokKind::LParen {
            if kind(toks, p + 2) == TokKind::RParen {
                Ok((ExprV::CallStmt(t.text, Seq::empty()), p + 3))
            } else {
                match parse_expr_list(toks, p + 2, Seq::empty()) {
                    Err(e) => Err(e),
                    Ok((args, p1)) => if kind(toks, p1) == TokKind::RParen {
                        Ok((ExprV::CallStmt(t.text, args), p1 + 1))
                    } else {
                        Err(fail(toks, p1))
                    },
                }
            }
        } else if kind(toks, p + 1) == TokKind::LBracket {
            match parse_expr(toks, p + 2) {
                Err(e) => Err(e),
                Ok((idx, p1)) => if kind(toks, p1) == TokKind::RBracket {
                    Ok(
                        (
                            ExprV::ListIndex(Box::new(ExprV::Variable(t.text)), Box::new(idx)),
                            p1 + 1,
                        ),
                    )
                } else {
                    Err(fail(toks, p1))
                },
            }
        } else {
            Ok((ExprV::Variable(t.text), p + 1))
        },
        _ => Err(fail(toks, p)),
    }
}

/// A statement that is an expression followed by `;`, the expression at `p`.
pub open spec fn parse_expr_stmt(toks: Seq<TokV>, p: int) -> PRes<ExprV>
    decreases toks.len() - p, 5int,
{
    match parse_expr(toks, p) {
        Err(e) => Err(e),
        Ok((e, p1)) => if kind(toks, p1) == TokKind::Semicolon {
            Ok((e, p1 + 1))
        } else {
            Err(fail(toks, p1))
        },
    }
}

/// A statement at index `p`.
pub open spec fn parse_stmt(toks: Seq<TokV>, p: int) -> PRes<ExprV>
    decreases toks.len() - p, 6int,
{
    let k = kind(toks, p);
    if k == TokKind::Let {
        parse_let(toks, p)
    } else if k == TokKind::Fn {
        parse_fn(toks, p)
    } else if k == TokKind::If {
        parse_if(toks, p)
    } else if k == TokKind::While {
        parse_while(toks, p)
    } else if k == TokKind::For {
        parse_for(toks, p)
    } else if k == TokKind::Return {
        match parse_expr(toks, p + 1) {
            Err(e) => Err(e),
            Ok((v, p1)) => if kind(toks, p1) == TokKind::Semicolon {
                Ok((ExprV::ReturnStmt(Box::new(v)), p1 + 1))
            } else {
                Err(fail(toks, p1))
            },
        }
    } else if k == TokKind::Print {
        if kind(toks, p + 1) == TokKind::LParen {
            match parse_expr(toks, p + 2) {
                Err(e) => Err(e),
                Ok((v, p1)) => if kind(toks, p1) == TokKind::RParen && kind(toks, p1 + 1)
                    == TokKind::Semicolon {
                    Ok((ExprV::Print(Box::new(v)), p1 + 2))
                } else if kind(toks, p1) == TokKind::RParen {
                    Err(fail(toks, p1 + 1))
                } else {
                    Err(fail(toks, p1))
                },
            }
        } else {
            Err(fail(toks, p + 1))
        }
    } else if k == TokKind::LBrace {
        parse_block(toks, p)
    } else if k == TokKind::Ident && kind(toks, p + 1) == TokKind::Assign {
        match parse_expr(toks, p + 2) {
            Err(e) => Err(e),
            Ok((v, p1)) => if kind(toks, p1) == TokKind::Semicolon {
                Ok((ExprV::LetStmt(tok(toks, p).text, Type::Unspecified, Box::new(v)), p1 + 1))
            } else {
                Err(fail(toks, p1))
            },
        }
    } else if k == TokKind::Ident && kind(toks, p + 1) == TokKind::LBracket {
        parse_indexed(toks, p)
    } else {
        parse_expr_stmt(toks, p)
    }
}

/// `let IDENT (: type)? = expr ;` at index `p`.
pub open spec fn parse_let(toks: Seq<TokV>, p: int) -> PRes<ExprV>
    decreases toks.len() - p, 5int,
{
    if kind(toks, p + 1) != TokKind::Ident {
        Err(fail(toks, p + 1))
    } else {
        match parse_annotation(toks, p + 2) {
            Err(e) => Err(e),
            Ok((t, p1)) => if kind(toks, p1) != TokKind::Assign {
                Err(fail(toks, p1))
            } else if p1 < p {
                Err(fail(toks, p))
            } else {
                match parse_expr(toks, p1 + 1) {
                    Err(e) => Err(e),
                    Ok((v, p2)) => if kind(toks, p2) == TokKind::Semicolon {
                        Ok((ExprV::LetStmt(tok(toks, p + 1).text, t, Box::new(v)), p2 + 1))
                    } else {
                        Err(fail(toks, p2))
                    },
                }
            },
        }
    }
}

/// `fn IDENT ( params ) (-> type)? block` at index `p`.
pub open spec fn parse_fn(toks: Seq<TokV>, p: int) -> PRes<ExprV>
    decreases toks.len() - p, 5int,
{
    if kind(toks, p + 1) != TokKind::Ident {
        Err(fail(toks, p + 1))
    } else if kind(toks, p + 2) != TokKind::LParen {
        Err(fail(toks, p + 2))
    } else {
        let params = if kind(toks, p + 3) == TokKind::RParen {
            Ok((Seq::empty(), p + 3))
        } else {
            parse_params(toks, p + 3, Seq::empty())
        };
        match params {
            Err(e) => Err(e),
            Ok((args, p1)) => if kind(toks, p1) != TokKind::RParen {
                Err(fail(toks, p1))
            } else {
                match parse_return_type(toks, p1 + 1) {
                    Err(e) => Err(e),
                    Ok((rt, p2)) => if p < p2 <= toks.len() {
                        match parse_block(toks, p2) {
                            Err(e) => Err(e),
                            Ok((body, p3)) => Ok(
                                (ExprV::FuncStmt(tok(toks, p + 1).text, args, rt, Box::new(body)), p3),
                            ),
                        }
                    } else {
                        Err(fail(toks, p))
                    },
                }
            },
        }
    }
}

/// `if ( expr ) block (else block)?` at index `p`.
pub open spec fn parse_if(toks: Seq<TokV>, p: int) -> PRes<ExprV>
    decreases toks.len() - p, 5int,
{
    if kind(toks, p + 1) != TokKind::LParen {
        Err(fail(toks, p + 1))
    } else {
        match parse_expr(toks, p + 2) {
            Err(e) => Err(e),
            Ok((c, p1)) => if kind(toks, p1) != TokKind::RParen {
                Err(fail(toks, p1))
            } else if p1 < p {
                Err(fail(toks, p))
            } else {
                match parse_block(toks, p1 + 1) {
                    Err(e) => Err(e),
                    Ok((then_b, p2)) => if kind(toks, p2) == TokKind::Else && p < p2 {
                        match parse_block(toks, p2 + 1) {
                            Err(e) => Err(e),
                            Ok((else_b, p3)) => Ok(
                                (
                                    ExprV::IfStmt(
                                        Box::new(c),
                                        Box::new(then_b),
                                        Some(Box::new(else_b)),
                                    ),
                                    p3,
                                ),
                            ),
                        }
                    } else {
                        Ok((ExprV::IfStmt(Box::new(c), Box::new(then_b), None), p2))
                    },
                }
            },
        }
    }
}

/// `while ( expr ) block` at index `p`.
pub open spec fn parse_while(toks: Seq<TokV>, p: int) -> PRes<ExprV>
    decreases toks.len() - p, 5int,
{
    if kind(toks, p + 1) != TokKind::LParen {
        Err(fail(toks, p + 1))
    } else {
        match parse_expr(toks, p + 2) {
            Err(e) => Err(e),
            Ok((c, p1)) => if kind(toks, p1) != TokKind::RParen {
                Err(fail(toks, p1))
            } else if p1 < p {
                Err(fail(toks, p))
            } else {
                match parse_block(toks, p1 + 1) {
                    Err(e) => Err(e),
                    Ok((b, p2)) => Ok((ExprV::WhileStmt(Box::new(c), Box::new(b)), p2)),
                }
            },
        }
    }
}

/// The header of a `for` loop from `let` at index `p`:
/// `let IDENT = int ; IDENT cmp int ; IDENT (++|--)`; gives the variable, the
/// start, the end and the step (1 for `++`, -1 for `--`).
pub open spec fn parse_for_header(toks: Seq<TokV>, p: int) -> PRes<(Seq<char>, i32, i32, i32)> {
    if kind(toks, p) != TokKind::Let {
        Err(fail(toks, p))
    } else if kind(toks, p + 1) != TokKind::Ident {
        Err(fail(toks, p + 1))
    } else if kind(toks, p + 2) != TokKind::Assign {
        Err(fail(toks, p + 2))
    } else {
        match parse_int(toks, p + 3) {
            Err(e) => Err(e),
            Ok((start, p1)) => if kind(toks, p1) != TokKind::Semicolon {
                Err(fail(toks, p1))
            } else if kind(toks, p1 + 1) != TokKind::Ident {
                Err(fail(toks, p1 + 1))
            } else if !is_comparison_kind(kind(toks, p1 + 2)) {
                Err(fail(toks, p1 + 2))
            } else {
                match parse_int(toks, p1 + 3) {
                    Err(e) => Err(e),
                    Ok((end, p2)) => if kind(toks, p2) != TokKind::Semicolon {
                        Err(fail(toks, p2))
                    } else if kind(toks, p2 + 1) != TokKind::Ident {
                        Err(fail(toks, p2 + 1))
                    } else if kind(toks, p2 + 2) == TokKind::PlusPlus {
                        Ok(((tok(toks, p + 1).text, start, end, 1i32), p2 + 3))
                    } else if kind(toks, p2 + 2) == TokKind::MinusMinus {
                        Ok(((tok(toks, p + 1).text, start, end, -1i32), p2 + 3))
                    } else {
                        Err(fail(toks, p2 + 2))
                    },
                }
            },
        }
    }
}

/// `for ( header ) block` at index `p`.
pub open spec fn parse_for(toks: Seq<TokV>, p: int) -> PRes<ExprV>
    decreases toks.len() - p, 5int,
{
    if kind(toks, p + 1) != TokKind::LParen {
        Err(fail(toks, p + 1))
    } else {
        match parse_for_header(toks, p + 2) {
            Err(e) => Err(e),
            Ok(((var, start, end, step), p1)) => if kind(toks, p1) != TokKind::RParen {
                Err(fail(toks, p1))
            } else if p1 < p {
                Err(fail(toks, p))
            } else {
                match parse_block(toks, p1 + 1) {
                    Err(e) => Err(e),
                    Ok((b, p2)) => Ok((ExprV::ForStmt(var, start, end, step, Box::new(b)), p2)),
                }
            },
        }
    }
}

/// A statement that starts `IDENT [`: an element assignment
/// `IDENT [ expr ] = expr ;`, or an expression statement whose first term is
/// the element read `IDENT [ expr ]`.
pub open spec fn parse_indexed(toks: Seq<TokV>, p: int) -> PRes<ExprV>
    decreases toks.len() - p, 5int,
{
    let name = tok(toks, p).text;
    match parse_expr(toks, p + 2) {
        Err(e) => Err(e),
        Ok((idx, p1)) => if kind(toks, p1) != TokKind::RBracket {
            Err(fail(toks, p1))
        } else if p1 < p {
            Err(fail(toks, p))
        } else if kind(toks, p1 + 1) == TokKind::Assign {
            match parse_expr(toks, p1 + 2) {
                Err(e) => Err(e),
                Ok((v, p2)) => if kind(toks, p2) == TokKind::Semicolon {
                    Ok((ExprV::ListAssign(name, Box::new(idx), Box::new(v)), p2 + 1))
                } else {
                    Err(fail(toks, p2))
                },
            }
        } else {
            let left = ExprV::ListIndex(Box::new(ExprV::Variable(name)), Box::new(idx));
            match parse_expr_tail(toks, p1 + 1, left) {
                Err(e) => Err(e),
                Ok((e, p2)) => if kind(toks, p2) == TokKind::Semicolon {
                    Ok((e, p2 + 1))
                } else {
                    Err(fail(toks, p2))
                },
            }
        }
    }
}

/// A whole program from its tokens: statements up to the end.
pub open spec fn parse_tokens(toks: Seq<TokV>) -> Result<Seq<ExprV>, PErr> {
    match parse_stmts(toks, 0, Seq::empty()) {
        Err(e) => Err(e),
        Ok((ss, p)) => if kind(toks, p) == TokKind::Eof {
            Ok(ss)
        } else {
            Err(fail(toks, p))
        },
    }
}

/// A whole program from its source text.
pub open spec fn parse_source(s: Seq<char>) -> Result<Seq<ExprV>, PErr> {
    match lex(s) {
        Err(e) => Err(e),
        Ok(toks) => parse_tokens(toks),
    }
}

} // verus!

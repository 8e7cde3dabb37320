//! What code a binary operation gets, decided from its operator and the
//! types of its two operands; code generation then emits that plan.
use vstd::prelude::*;
use crate::typed_ast::{ResolvedType, RType, debug_text, push_debug};
use crate::text::{str_eq, string_of, owned};
use crate::display::push_lit;

verus! {

/// An arithmetic instruction on two `i32` values.
#[derive(Debug, Clone, Copy, PartialEq, Eq, Structural)]
pub enum ArithOp {
    Add,
    Sub,
    Mul,
    Div,
}

/// A signed integer comparison.
#[derive(Debug, Clone, Copy, PartialEq, Eq, Structural)]
pub enum CmpOp {
    Eq,
    Ne,
    Lt,
    Le,
    Gt,
    Ge,
}

/// The element type of a list concatenation, which picks the runtime
/// helper (`concatInt32List` or `concatStringList`).
#[derive(Debug, Clone, Copy, PartialEq, Eq, Structural)]
pub enum ListKind {
    Int32,
    Str,
}

/// The code for a binary operation.
#[derive(Debug, Clone, Copy, PartialEq, Eq, Structural)]
pub enum BinaryPlan {
    /// Two strings joined by the `stringAdd` helper.
    StringConcat,
    /// Two lists of the same element type joined by a runtime helper.
    ListConcat(ListKind),
    /// An instruction on two `i32` values.
    IntArith(ArithOp),
    /// A comparison whose right operand is a string: the strings are tested
    /// for equality (`isStringEqual`), whatever the comparison operator.
    StringEquality,
    /// An integer comparison of two numbers or booleans.
    IntCompare(CmpOp),
}

/// The arithmetic instruction that `op` names, if any.
pub open spec fn arith_op(op: Seq<char>) -> Option<ArithOp> {
    if op == "+"@ {
        Some(ArithOp::Add)
    } else if op == "-"@ {
        Some(ArithOp::Sub)
    } else if op == "/"@ {
        Some(ArithOp::Div)
    } else if op == "*"@ {
        Some(ArithOp::Mul)
    } else {
        None
    }
}

/// The comparison that `op` names, if any.
pub open spec fn cmp_op(op: Seq<char>) -> Option<CmpOp> {
    if op == "=="@ {
        Some(CmpOp::Eq)
    } else if op == "!="@ {
        Some(CmpOp::Ne)
    } else if op == "<"@ {
        Some(CmpOp::Lt)
    } else if op == "<="@ {
        Some(CmpOp::Le)
    } else if op == ">"@ {
        Some(CmpOp::Gt)
    } else if op == ">="@ {
        Some(CmpOp::Ge)
    } else {
        None
    }
}

/// Whether a comparison takes an operand of this type.
pub open spec fn comparable(t: RType) -> bool {
    t is I32 || t is Bool || t is Str
}

/// The plan for `l op r` on operands of types `l` and `r`, or the message
/// that refuses it.
pub open spec fn plan_of(op: Seq<char>, l: RType, r: RType) -> Result<BinaryPlan, Seq<char>> {
    match arith_op(op) {
        Some(a) => if l is Str && r is Str {
            if op == "+"@ {
                Ok(BinaryPlan::StringConcat)
            } else {
                Err("Only + operator is supported for strings, got "@ + op)
            }
        } else if l is List && r is List && l->List_0 == r->List_0 {
            if op != "+"@ {
                Err("Only + operator is supported for lists, got "@ + op)
            } else if *l->List_0 is I32 {
                Ok(BinaryPlan::ListConcat(ListKind::Int32))
            } else if *l->List_0 is Str {
                Ok(BinaryPlan::ListConcat(ListKind::Str))
            } else {
                Err("List concatenation not supported for type "@ + debug_text(*l->List_0))
            }
        } else if l is I32 && r is I32 {
            Ok(BinaryPlan::IntArith(a))
        } else {
            Err("Unsupported arithmetic operation "@ + op + " for types "@ + debug_text(l) + " and "@
                + debug_text(r))
        },
        None => if op == "^"@ {
            Err("^ is not implemented yet"@)
        } else {
            match cmp_op(op) {
                Some(c) => if !comparable(l) {
                    Err("Comparison not implemented for type: "@ + debug_text(l))
                } else if !comparable(r) {
                    Err("Comparison not implemented for type: "@ + debug_text(r))
                } else if r is Str {
                    Ok(BinaryPlan::StringEquality)
                } else {
                    Ok(BinaryPlan::IntCompare(c))
                },
                None => Err("Operator: "@ + op + " not implement"@),
            }
        },
    }
}

fn arith_op_exec(op: &str) -> (r: Option<ArithOp>)
    ensures
        r == arith_op(op@),
{
    if str_eq(op, "+") {
        Some(ArithOp::Add)
    } else if str_eq(op, "-") {
        Some(ArithOp::Sub)
    } else if str_eq(op, "/") {
        Some(ArithOp::Div)
    } else if str_eq(op, "*") {
        Some(ArithOp::Mul)
    } else {
        None
    }
}

fn cmp_op_exec(op: &str) -> (r: Option<CmpOp>)
    ensures
        r == cmp_op(op@),
{
    if str_eq(op, "==") {
        Some(CmpOp::Eq)
    } else if str_eq(op, "!=") {
        Some(CmpOp::Ne)
    } else if str_eq(op, "<") {
        Some(CmpOp::Lt)
    } else if str_eq(op, "<=") {
        Some(CmpOp::Le)
    } else if str_eq(op, ">") {
        Some(CmpOp::Gt)
    } else if str_eq(op, ">=") {
        Some(CmpOp::Ge)
    } else {
        None
    }
}

fn comparable_exec(t: &ResolvedType) -> (r: bool)
    ensures
        r == comparable(t@),
{
    match t {
        ResolvedType::I32 | ResolvedType::Bool | ResolvedType::String => true,
        _ => false,
    }
}

fn type_message(lit: &str, t: &ResolvedType) -> (r: String)
    ensures
        r@ == lit@ + debug_text(t@),
{
    let mut out: Vec<char> = Vec::new();
    push_lit(&mut out, lit);
    push_debug(&mut out, t);
    assert(out@ =~= lit@ + debug_text(t@));
    string_of(&out)
}

fn op_message(lit: &str, op: &str) -> (r: String)
    ensures
        r@ == lit@ + op@,
{
    let mut out: Vec<char> = Vec::new();
    push_lit(&mut out, lit);
    push_lit(&mut out, op);
    assert(out@ =~= lit@ + op@);
    string_of(&out)
}

/// The code for `lhs op rhs`, or why there is none (see [`plan_of`]).
pub fn binary_plan(op: &str, lhs: &ResolvedType, rhs: &ResolvedType) -> (r: Result<BinaryPlan, String>)
    ensures
        match r {
            Ok(p) => plan_of(op@, lhs@, rhs@) == Ok::<BinaryPlan, Seq<char>>(p),
            Err(m) => plan_of(op@, lhs@, rhs@) == Err::<BinaryPlan, Seq<char>>(m@),
        },
{
    match arith_op_exec(op) {
        Some(a) => {
            match (lhs, rhs) {
                (ResolvedType::String, ResolvedType::String) => {
                    if str_eq(op, "+") {
                        Ok(BinaryPlan::StringConcat)
                    } else {
                        Err(op_message("Only + operator is supported for strings, got ", op))
                    }
                },
                (ResolvedType::List(x), ResolvedType::List(y)) if x.same(y) => {
                    if !str_eq(op, "+") {
                        Err(op_message("Only + operator is supported for lists, got ", op))
                    } else {
                        match &**x {
                            ResolvedType::I32 => Ok(BinaryPlan::ListConcat(ListKind::Int32)),
                            ResolvedType::String => Ok(BinaryPlan::ListConcat(ListKind::Str)),
                            _ => Err(type_message("List concatenation not supported for type ", x)),
                        }
                    }
                },
                (ResolvedType::I32, ResolvedType::I32) => Ok(BinaryPlan::IntArith(a)),
                _ => {
                    let mut out: Vec<char> = Vec::new();
                    push_lit(&mut out, "Unsupported arithmetic operation ");
                    push_lit(&mut out, op);
                    push_lit(&mut out, " for types ");
                    push_debug(&mut out, lhs);
                    push_lit(&mut out, " and ");
                    push_debug(&mut out, rhs);
                    Err(string_of(&out))
                },
            }
        },
        None => {
            if str_eq(op, "^") {
                Err(owned("^ is not implemented yet"))
            } else {
                match cmp_op_exec(op) {
                    Some(c) => {
                        if !comparable_exec(lhs) {
                            Err(type_message("Comparison not implemented for type: ", lhs))
                        } else if !comparable_exec(rhs) {
                            Err(type_message("Comparison not implemented for type: ", rhs))
                        } else if let ResolvedType::String = rhs {
                            Ok(BinaryPlan::StringEquality)
                        } else {
                            Ok(BinaryPlan::IntCompare(c))
                        }
                    },
                    None => {
                        let mut out: Vec<char> = Vec::new();
                        push_lit(&mut out, "Operator: ");
                        push_lit(&mut out, op);
                        push_lit(&mut out, " not implement");
                        Err(string_of(&out))
                    },
                }
            }
        },
    }
}


/// Each operator text names its own operation. On two `i32` operands,
/// `+ - * /` are addition, subtraction, multiplication and division; on two
/// operands that a comparison takes, with a number or boolean on the right,
/// `== != < <= > >=` are equal, not equal, less, less or equal, greater and
/// greater or equal; with a string on the right each comparison is the
/// string-equality test.
pub proof fn law_operators_name_their_operation(l: RType, r: RType)
    ensures
        plan_of("+"@, RType::I32, RType::I32) == Ok::<BinaryPlan, Seq<char>>(BinaryPlan::IntArith(ArithOp::Add)),
        plan_of("-"@, RType::I32, RType::I32) == Ok::<BinaryPlan, Seq<char>>(BinaryPlan::IntArith(ArithOp::Sub)),
        plan_of("*"@, RType::I32, RType::I32) == Ok::<BinaryPlan, Seq<char>>(BinaryPlan::IntArith(ArithOp::Mul)),
        plan_of("/"@, RType::I32, RType::I32) == Ok::<BinaryPlan, Seq<char>>(BinaryPlan::IntArith(ArithOp::Div)),
        (l is I32 || l is Bool || l is Str) && (r is I32 || r is Bool) ==> {
            &&& plan_of("=="@, l, r) == Ok::<BinaryPlan, Seq<char>>(BinaryPlan::IntCompare(CmpOp::Eq))
            &&& plan_of("!="@, l, r) == Ok::<BinaryPlan, Seq<char>>(BinaryPlan::IntCompare(CmpOp::Ne))
            &&& plan_of("<"@, l, r) == Ok::<BinaryPlan, Seq<char>>(BinaryPlan::IntCompare(CmpOp::Lt))
            &&& plan_of("<="@, l, r) == Ok::<BinaryPlan, Seq<char>>(BinaryPlan::IntCompare(CmpOp::Le))
            &&& plan_of(">"@, l, r) == Ok::<BinaryPlan, Seq<char>>(BinaryPlan::IntCompare(CmpOp::Gt))
            &&& plan_of(">="@, l, r) == Ok::<BinaryPlan, Seq<char>>(BinaryPlan::IntCompare(CmpOp::Ge))
        },
        (l is I32 || l is Bool || l is Str) && r is Str ==> {
            &&& plan_of("=="@, l, r) == Ok::<BinaryPlan, Seq<char>>(BinaryPlan::StringEquality)
            &&& plan_of("!="@, l, r) == Ok::<BinaryPlan, Seq<char>>(BinaryPlan::StringEquality)
            &&& plan_of("<"@, l, r) == Ok::<BinaryPlan, Seq<char>>(BinaryPlan::StringEquality)
            &&& plan_of("<="@, l, r) == Ok::<BinaryPlan, Seq<char>>(BinaryPlan::StringEquality)
            &&& plan_of(">"@, l, r) == Ok::<BinaryPlan, Seq<char>>(BinaryPlan::StringEquality)
            &&& plan_of(">="@, l, r) == Ok::<BinaryPlan, Seq<char>>(BinaryPlan::StringEquality)
        },
{
    reveal_strlit("+");
    reveal_strlit("-");
    reveal_strlit("*");
    reveal_strlit("/");
    reveal_strlit("^");
    reveal_strlit("==");
    reveal_strlit("!=");
    reveal_strlit("<");
    reveal_strlit("<=");
    reveal_strlit(">");
    reveal_strlit(">=");
    let lits = seq!["+"@, "-"@, "/"@, "*"@, "^"@, "=="@, "!="@, "<"@, "<="@, ">"@, ">="@];
    assert forall|a: int, b: int| 0 <= a < b < lits.len() implies lits[a] != lits[b] by {
        if lits[a].len() == lits[b].len() {
            assert(lits[a][0] != lits[b][0] || lits[a][1] != lits[b][1]);
        }
    }
}

} // verus!

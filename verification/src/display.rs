//! Text renderings for the REPL: the syntax tree drawn as a tree, and
//! colour highlighting of source lines, LLVM IR, assembly and tree text.
use vstd::prelude::*;
use crate::ast::{Type, Expression, ExprV, lemma_expr_model_seq};
use crate::text::{chars_of, string_of, starts_with};

verus! {

/// Appends the characters of `lit`.
pub fn push_lit(out: &mut Vec<char>, lit: &str)
    ensures
        final(out)@ == old(out)@ + lit@,
{
    let mut v = chars_of(lit);
    out.append(&mut v);
}

/// Appends the characters of `v`.
pub fn push_chars(out: &mut Vec<char>, v: &Vec<char>)
    ensures
        final(out)@ == old(out)@ + v@,
{
    let mut i: usize = 0;
    let ghost o = out@;
    while i < v.len()
        invariant
            i <= v@.len(),
            out@ == o + v@.subrange(0, i as int),
        decreases v@.len() - i,
    {
        out.push(v[i]);
        assert(v@.subrange(0, i as int + 1) == v@.subrange(0, i as int).push(v@[i as int]));
        i = i + 1;
    }
    assert(v@.subrange(0, v@.len() as int) =~= v@);
}

/// The decimal digit for `d < 10`.
pub open spec fn digit_char(d: nat) -> char {
    if d == 0 {
        '0'
    } else if d == 1 {
        '1'
    } else if d == 2 {
        '2'
    } else if d == 3 {
        '3'
    } else if d == 4 {
        '4'
    } else if d == 5 {
        '5'
    } else if d == 6 {
        '6'
    } else if d == 7 {
        '7'
    } else if d == 8 {
        '8'
    } else {
        '9'
    }
}

/// The decimal digits of `n`, without leading zeros.
pub open spec fn digits_of(n: nat) -> Seq<char>
    decreases n,
{
    if n < 10 {
        seq![digit_char(n)]
    } else {
        digits_of(n / 10).push(digit_char(n % 10))
    }
}

/// The decimal text of `n`, as `format!("{n}")` writes it.
pub open spec fn decimal(n: int) -> Seq<char> {
    if n < 0 {
        seq!['-'] + digits_of((-n) as nat)
    } else {
        digits_of(n as nat)
    }
}

fn digit_char_exec(d: u64) -> (c: char)
    requires
        d < 10,
    ensures
        c == digit_char(d as nat),
{
    if d == 0 {
        '0'
    } else if d == 1 {
        '1'
    } else if d == 2 {
        '2'
    } else if d == 3 {
        '3'
    } else if d == 4 {
        '4'
    } else if d == 5 {
        '5'
    } else if d == 6 {
        '6'
    } else if d == 7 {
        '7'
    } else if d == 8 {
        '8'
    } else {
        '9'
    }
}

fn digits_exec(n: u64) -> (r: Vec<char>)
    ensures
        r@ == digits_of(n as nat),
    decreases n,
{
    if n < 10 {
        vec![digit_char_exec(n)]
    } else {
        let mut r = digits_exec(n / 10);
        r.push(digit_char_exec(n % 10));
        r
    }
}

/// The decimal text of `n`.
pub fn decimal_exec(n: i64) -> (r: Vec<char>)
    ensures
        r@ == decimal(n as int),
{
    if n < 0 {
        let m: u64 = if n == i64::MIN {
            0x8000_0000_0000_0000u64
        } else {
            (-n) as u64
        };
        let mut r = vec!['-'];
        let mut d = digits_exec(m);
        r.append(&mut d);
        r
    } else {
        digits_exec(n as u64)
    }
}

/// How a type annotation is shown.
pub open spec fn type_text(t: Type) -> Seq<char>
    decreases t,
{
    match t {
        Type::Unspecified => "None"@,
        Type::i32 => "i32"@,
        Type::i64 => "i64"@,
        Type::String => "string"@,
        Type::Bool => "bool"@,
        Type::List(inner) => "List<"@ + type_text(*inner) + ">"@,
    }
}

fn push_type(out: &mut Vec<char>, t: &Type)
    ensures
        final(out)@ == old(out)@ + type_text(*t),
    decreases t,
{
    match t {
        Type::Unspecified => push_lit(out, "None"),
        Type::i32 => push_lit(out, "i32"),
        Type::i64 => push_lit(out, "i64"),
        Type::String => push_lit(out, "string"),
        Type::Bool => push_lit(out, "bool"),
        Type::List(inner) => {
            let ghost o = out@;
            push_lit(out, "List<");
            push_type(out, inner);
            push_lit(out, ">");
            assert(out@ =~= o + ("List<"@ + type_text(**inner) + ">"@));
        },
    }
}

/// The text of a type annotation: `i32`, `List<bool>`, and `None` for no
/// annotation.
pub fn format_type(ty: &Type) -> (r: String)
    ensures
        r@ == type_text(*ty),
{
    let mut v: Vec<char> = Vec::new();
    push_type(&mut v, ty);
    assert(v@ =~= type_text(*ty));
    string_of(&v)
}

/// The one-line label of a node in the tree drawing.
pub open spec fn node_label(e: ExprV) -> Seq<char> {
    match e {
        ExprV::Number(n) => "Number("@ + decimal(n as int) + ")"@,
        ExprV::Number64(n) => "Number64("@ + decimal(n as int) + ")"@,
        ExprV::Str(s) => "String("@ + s + ")"@,
        ExprV::Bool(b) => if b {
            "Bool(true)"@
        } else {
            "Bool(false)"@
        },
        ExprV::Nil => "Nil"@,
        ExprV::Variable(name) => "Variable("@ + name + ")"@,
        ExprV::Binary(_, op, _) => "Binary("@ + op + ")"@,
        ExprV::Grouping(_) => "Grouping"@,
        ExprV::LetStmt(name, ty, _) => "LetStmt("@ + name + ": "@ + type_text(ty) + ")"@,
        ExprV::BlockStmt(_) => "BlockStmt"@,
        ExprV::FuncArg(name, ty) => "FuncArg("@ + name + ": "@ + type_text(ty) + ")"@,
        ExprV::FuncStmt(name, _, ret, _) => "FuncStmt("@ + name + " -> "@ + type_text(ret) + ")"@,
        ExprV::CallStmt(name, _) => "CallStmt("@ + name + ")"@,
        ExprV::IfStmt(_, _, _) => "IfStmt"@,
        ExprV::WhileStmt(_, _) => "WhileStmt"@,
        ExprV::ReturnStmt(_) => "ReturnStmt"@,
        ExprV::BreakStmt => "BreakStmt"@,
        ExprV::ForStmt(name, start, end, step, _) => "ForStmt("@ + name + " = "@ + decimal(
            start as int,
        ) + ".."@ + decimal(end as int) + " step "@ + decimal(step as int) + ")"@,
        ExprV::Print(_) => "Print"@,
        ExprV::Len(_) => "Len"@,
        ExprV::List(_) => "List"@,
        ExprV::ListIndex(_, _) => "ListIndex"@,
        ExprV::ListAssign(name, _, _) => "ListAssign("@ + name + ")"@,
    }
}

/// The connector in front of a node: the last child of its parent gets a
/// corner, the others a tee.
pub open spec fn branch(is_last: bool) -> Seq<char> {
    if is_last {
        "└─ "@
    } else {
        "├─ "@
    }
}

/// What the lines below a node add to the prefix: blanks below the last
/// child, a vertical bar below the others.
pub open spec fn indent(is_last: bool) -> Seq<char> {
    if is_last {
        "   "@
    } else {
        "│  "@
    }
}

/// The drawing of the subtree of `e`, its lines starting with `prefix`.
pub open spec fn tree(e: ExprV, prefix: Seq<char>, is_last: bool) -> Seq<char>
    decreases e, 1int,
{
    prefix + branch(is_last) + node_label(e) + "\n"@ + children(e, prefix + indent(is_last))
}

/// The drawing of the children of `e`, each line starting with `cp`.
pub open spec fn children(e: ExprV, cp: Seq<char>) -> Seq<char>
    decreases e, 0int,
{
    match e {
        ExprV::Binary(l, _, r) => tree(*l, cp, false) + tree(*r, cp, true),
        ExprV::Grouping(x) => tree(*x, cp, true),
        ExprV::LetStmt(_, _, v) => tree(*v, cp, true),
        ExprV::BlockStmt(ss) => tree_list(ss, cp, 0),
        ExprV::FuncStmt(_, args, _, body) => cp + "├─ Args\n"@ + tree_list(args, cp + "│  "@, 0)
            + cp + "└─ Body\n"@ + tree(*body, cp + "   "@, true),
        ExprV::CallStmt(_, args) => tree_list(args, cp, 0),
        ExprV::IfStmt(c, t, e) => cp + "├─ Condition\n"@ + tree(*c, cp + "│  "@, true) + cp
            + match e {
            Some(x) => "├─ Then\n"@ + tree(*t, cp + "│  "@, true) + cp + "└─ Else\n"@ + tree(
                *x,
                cp + "   "@,
                true,
            ),
            None => "└─ Then\n"@ + tree(*t, cp + "   "@, true),
        },
        ExprV::WhileStmt(c, b) => cp + "├─ Condition\n"@ + tree(*c, cp + "│  "@, true) + cp
            + "└─ Body\n"@ + tree(*b, cp + "   "@, true),
        ExprV::ReturnStmt(v) => tree(*v, cp, true),
        ExprV::ForStmt(_, _, _, _, b) => tree(*b, cp, true),
        ExprV::Print(x) => tree(*x, cp, true),
        ExprV::Len(x) => tree(*x, cp, true),
        ExprV::List(vs) => tree_list(vs, cp, 0),
        ExprV::ListIndex(l, i) => tree(*l, cp, false) + tree(*i, cp, true),
        ExprV::ListAssign(_, i, v) => tree(*i, cp, false) + tree(*v, cp, true),
        _ => Seq::empty(),
    }
}

/// The drawings of the nodes `es[i..]` with prefix `cp`; the last one is
/// drawn as the last child.
pub open spec fn tree_list(es: Seq<ExprV>, cp: Seq<char>, i: int) -> Seq<char>
    decreases es, es.len() - i,
{
    if 0 <= i < es.len() {
        tree(es[i], cp, i + 1 == es.len()) + tree_list(es, cp, i + 1)
    } else {
        Seq::empty()
    }
}

/// The text of a whole program: `Program`, then the tree of each statement.
pub open spec fn ast_text(es: Seq<ExprV>) -> Seq<char> {
    "Program\n"@ + tree_list(es, Seq::empty(), 0)
}


fn push_label(out: &mut Vec<char>, e: &Expression)
    ensures
        final(out)@ == old(out)@ + node_label(e@),
{
    let ghost o = out@;
    match e {
        Expression::Number(n) => {
            push_lit(out, "Number(");
            push_chars(out, &decimal_exec(*n as i64));
            push_lit(out, ")");
        },
        Expression::Number64(n) => {
            push_lit(out, "Number64(");
            push_chars(out, &decimal_exec(*n));
            push_lit(out, ")");
        },
        Expression::String(s) => {
            push_lit(out, "String(");
            push_lit(out, s.as_str());
            push_lit(out, ")");
        },
        Expression::Bool(b) => {
            if *b {
                push_lit(out, "Bool(true)");
            } else {
                push_lit(out, "Bool(false)");
            }
        },
        Expression::Nil => push_lit(out, "Nil"),
        Expression::Variable(name) => {
            push_lit(out, "Variable(");
            push_lit(out, name.as_str());
            push_lit(out, ")");
        },
        Expression::Binary(_, op, _) => {
            push_lit(out, "Binary(");
            push_lit(out, op.as_str());
            push_lit(out, ")");
        },
        Expression::Grouping(_) => push_lit(out, "Grouping"),
        Expression::LetStmt(name, ty, _) => {
            push_lit(out, "LetStmt(");
            push_lit(out, name.as_str());
            push_lit(out, ": ");
            push_type(out, ty);
            push_lit(out, ")");
        },
        Expression::BlockStmt(_) => push_lit(out, "BlockStmt"),
        Expression::FuncArg(name, ty) => {
            push_lit(out, "FuncArg(");
            push_lit(out, name.as_str());
            push_lit(out, ": ");
            push_type(out, ty);
            push_lit(out, ")");
        },
        Expression::FuncStmt(name, _, ret, _) => {
            push_lit(out, "FuncStmt(");
            push_lit(out, name.as_str());
            push_lit(out, " -> ");
            push_type(out, ret);
            push_lit(out, ")");
        },
        Expression::CallStmt(name, _) => {
            push_lit(out, "CallStmt(");
            push_lit(out, name.as_str());
            push_lit(out, ")");
        },
        Expression::IfStmt(_, _, _) => push_lit(out, "IfStmt"),
        Expression::WhileStmt(_, _) => push_lit(out, "WhileStmt"),
        Expression::ReturnStmt(_) => push_lit(out, "ReturnStmt"),
        Expression::BreakStmt => push_lit(out, "BreakStmt"),
        Expression::ForStmt(name, start, end, step, _) => {
            push_lit(out, "ForStmt(");
            push_lit(out, name.as_str());
            push_lit(out, " = ");
            push_chars(out, &decimal_exec(*start as i64));
            push_lit(out, "..");
            push_chars(out, &decimal_exec(*end as i64));
            push_lit(out, " step ");
            push_chars(out, &decimal_exec(*step as i64));
            push_lit(out, ")");
        },
        Expression::Print(_) => push_lit(out, "Print"),
        Expression::Len(_) => push_lit(out, "Len"),
        Expression::List(_) => push_lit(out, "List"),
        Expression::ListIndex(_, _) => push_lit(out, "ListIndex"),
        Expression::ListAssign(name, _, _) => {
            push_lit(out, "ListAssign(");
            push_lit(out, name.as_str());
            push_lit(out, ")");
        },
    }
    assert(out@ =~= o + node_label(e@));
}

fn extended(prefix: &Vec<char>, lit: &str) -> (r: Vec<char>)
    ensures
        r@ == prefix@ + lit@,
{
    let mut r: Vec<char> = Vec::new();
    push_chars(&mut r, prefix);
    push_lit(&mut r, lit);
    assert(r@ =~= prefix@ + lit@);
    r
}

/// Appends the drawing of the subtree of `expr` (see [`tree`]).
pub fn format_expr_tree(expr: &Expression, prefix: &Vec<char>, is_last: bool, out: &mut Vec<char>)
    ensures
        final(out)@ == old(out)@ + tree(expr@, prefix@, is_last),
    decreases expr, 1int,
{
    let ghost o = out@;
    push_chars(out, prefix);
    if is_last {
        push_lit(out, "└─ ");
    } else {
        push_lit(out, "├─ ");
    }
    push_label(out, expr);
    push_lit(out, "\n");
    let cp = if is_last {
        extended(prefix, "   ")
    } else {
        extended(prefix, "│  ")
    };
    let ghost mid = out@;
    format_children(expr, &cp, out);
    assert(out@ =~= o + tree(expr@, prefix@, is_last));
}

#[verifier::rlimit(60)]
fn format_children(expr: &Expression, cp: &Vec<char>, out: &mut Vec<char>)
    ensures
        final(out)@ == old(out)@ + children(expr@, cp@),
    decreases expr, 0int,
{
    let ghost o = out@;
    match expr {
        Expression::Binary(l, _, r) => {
            format_expr_tree(l, cp, false, out);
            format_expr_tree(r, cp, true, out);
        },
        Expression::Grouping(x) => format_expr_tree(x, cp, true, out),
        Expression::LetStmt(_, _, v) => format_expr_tree(v, cp, true, out),
        Expression::BlockStmt(ss) => format_tree_list(ss, cp, out),
        Expression::FuncStmt(_, args, _, body) => {
            push_chars(out, cp);
            push_lit(out, "├─ Args\n");
            format_tree_list(args, &extended(cp, "│  "), out);
            push_chars(out, cp);
            push_lit(out, "└─ Body\n");
            format_expr_tree(body, &extended(cp, "   "), true, out);
        },
        Expression::CallStmt(_, args) => format_tree_list(args, cp, out),
        Expression::IfStmt(c, t, e) => {
            push_chars(out, cp);
            push_lit(out, "├─ Condition\n");
            format_expr_tree(c, &extended(cp, "│  "), true, out);
            push_chars(out, cp);
            match &**e {
                Some(x) => {
                    push_lit(out, "├─ Then\n");
                    format_expr_tree(t, &extended(cp, "│  "), true, out);
                    push_chars(out, cp);
                    push_lit(out, "└─ Else\n");
                    format_expr_tree(x, &extended(cp, "   "), true, out);
                },
                None => {
                    push_lit(out, "└─ Then\n");
                    format_expr_tree(t, &extended(cp, "   "), true, out);
                },
            }
        },
        Expression::WhileStmt(c, b) => {
            push_chars(out, cp);
            push_lit(out, "├─ Condition\n");
            format_expr_tree(c, &extended(cp, "│  "), true, out);
            push_chars(out, cp);
            push_lit(out, "└─ Body\n");
            format_expr_tree(b, &extended(cp, "   "), true, out);
        },
        Expression::ReturnStmt(v) => format_expr_tree(v, cp, true, out),
        Expression::ForStmt(_, _, _, _, b) => format_expr_tree(b, cp, true, out),
        Expression::Print(x) => format_expr_tree(x, cp, true, out),
        Expression::Len(x) => format_expr_tree(x, cp, true, out),
        Expression::List(vs) => format_tree_list(vs, cp, out),
        Expression::ListIndex(l, i) => {
            format_expr_tree(l, cp, false, out);
            format_expr_tree(i, cp, true, out);
        },
        Expression::ListAssign(_, i, v) => {
            format_expr_tree(i, cp, false, out);
            format_expr_tree(v, cp, true, out);
        },
        _ => {},
    }
    assert(out@ =~= o + children(expr@, cp@));
}

fn format_tree_list(es: &Vec<Expression>, cp: &Vec<char>, out: &mut Vec<char>)
    ensures
        final(out)@ == old(out)@ + tree_list(Expression::model_seq(es@), cp@, 0),
    decreases es@, 2int,
{
    let ghost m = Expression::model_seq(es@);
    let ghost o = out@;
    proof {
        lemma_expr_model_seq(es@);
    }
    let mut i: usize = 0;
    while i < es.len()
        invariant
            i <= es@.len(),
            m == Expression::model_seq(es@),
            m.len() == es@.len(),
            forall|k: int| 0 <= k < es@.len() ==> #[trigger] m[k] == es@[k]@,
            o + tree_list(m, cp@, 0) == out@ + tree_list(m, cp@, i as int),
        decreases es@.len() - i,
    {
        assert(decreases_to!(es@ => es@[i as int]));
        let ghost before = out@;
        format_expr_tree(&es[i], cp, i + 1 == es.len(), out);
        assert(m[i as int] == es@[i as int]@);
        assert(before + tree_list(m, cp@, i as int) =~= out@ + tree_list(m, cp@, i + 1));
        i = i + 1;
    }
    assert(out@ + tree_list(m, cp@, i as int) =~= out@);
}

/// Draws a program as a tree: `Program`, then each statement.
pub fn format_ast(exprs: &Vec<Expression>) -> (r: String)
    ensures
        r@ == ast_text(Expression::model_seq(exprs@)),
{
    let mut out: Vec<char> = Vec::new();
    push_lit(&mut out, "Program\n");
    let prefix: Vec<char> = Vec::new();
    format_tree_list(exprs, &prefix, &mut out);
    assert(prefix@ =~= Seq::<char>::empty());
    assert(out@ =~= ast_text(Expression::model_seq(exprs@)));
    string_of(&out)
}


/// The lines `prefix + rows[0] + "\n"`, `prefix + rows[1] + "\n"`, ... one
/// after the other.
pub open spec fn joined_rows(prefix: Seq<char>, rows: Seq<Seq<char>>) -> Seq<char>
    decreases rows.len(),
{
    if rows.len() == 0 {
        Seq::empty()
    } else {
        joined_rows(prefix, rows.drop_last()) + prefix + rows.last() + "\n"@
    }
}

/// Each row with `q` put in front of it.
pub open spec fn shifted(q: Seq<char>, rows: Seq<Seq<char>>) -> Seq<Seq<char>> {
    Seq::new(rows.len(), |i: int| q + rows[i])
}

proof fn lemma_join_append(p: Seq<char>, r1: Seq<Seq<char>>, r2: Seq<Seq<char>>)
    ensures
        joined_rows(p, r1 + r2) == joined_rows(p, r1) + joined_rows(p, r2),
    decreases r2.len(),
{
    if r2.len() == 0 {
        assert(r1 + r2 =~= r1);
    } else {
        assert((r1 + r2).drop_last() =~= r1 + r2.drop_last());
        assert((r1 + r2).last() == r2.last());
        lemma_join_append(p, r1, r2.drop_last());
    }
}

proof fn lemma_join_shift(p: Seq<char>, q: Seq<char>, rows: Seq<Seq<char>>)
    ensures
        joined_rows(p + q, rows) == joined_rows(p, shifted(q, rows)),
    decreases rows.len(),
{
    if rows.len() > 0 {
        assert(shifted(q, rows).drop_last() =~= shifted(q, rows.drop_last()));
        lemma_join_shift(p, q, rows.drop_last());
        assert(p + q + rows.last() =~= p + shifted(q, rows).last());
    }
}

proof fn lemma_join_one(p: Seq<char>, r: Seq<char>)
    ensures
        joined_rows(p, seq![r]) == p + r + "\n"@,
{
    let one = seq![r];
    assert(one.drop_last() =~= Seq::<Seq<char>>::empty());
    assert(joined_rows(p, one.drop_last()) == Seq::<char>::empty());
    assert(one.last() == r);
    assert(joined_rows(p, one) == joined_rows(p, one.drop_last()) + p + one.last() + "\n"@);
    assert(Seq::<char>::empty() + p + r + "\n"@ =~= p + r + "\n"@);
}

/// `p + lit` where `lit` is `row` and a line break: one row.
proof fn lemma_lit_row(p: Seq<char>, row: Seq<char>, lit: Seq<char>)
    requires
        lit == row + "\n"@,
    ensures
        p + lit == joined_rows(p, seq![row]),
{
    lemma_join_one(p, row);
    assert(p + lit =~= p + row + "\n"@);
}

/// The rows of the drawing of `e`: every line starts with `prefix`, and the
/// first is the node's connector and label.
proof fn lemma_tree_rows(e: ExprV, prefix: Seq<char>, is_last: bool) -> (rows: Seq<Seq<char>>)
    ensures
        tree(e, prefix, is_last) == joined_rows(prefix, rows),
        rows.len() > 0,
        rows[0] == branch(is_last) + node_label(e),
    decreases e, 1int,
{
    let ind = indent(is_last);
    let cr = lemma_children_rows(e, prefix + ind);
    lemma_join_shift(prefix, ind, cr);
    let head = seq![branch(is_last) + node_label(e)];
    lemma_join_one(prefix, branch(is_last) + node_label(e));
    lemma_join_append(prefix, head, shifted(ind, cr));
    assert(tree(e, prefix, is_last) =~= joined_rows(prefix, head) + joined_rows(prefix, shifted(ind, cr)));
    head + shifted(ind, cr)
}

proof fn lemma_tree_list_rows(es: Seq<ExprV>, cp: Seq<char>, i: int) -> (rows: Seq<Seq<char>>)
    ensures
        tree_list(es, cp, i) == joined_rows(cp, rows),
    decreases es, es.len() - i,
{
    if 0 <= i < es.len() {
        let a = lemma_tree_rows(es[i], cp, i + 1 == es.len());
        let b = lemma_tree_list_rows(es, cp, i + 1);
        lemma_join_append(cp, a, b);
        a + b
    } else {
        Seq::empty()
    }
}

proof fn lemma_children_rows(e: ExprV, cp: Seq<char>) -> (rows: Seq<Seq<char>>)
    ensures
        children(e, cp) == joined_rows(cp, rows),
    decreases e, 0int,
{
    reveal_strlit("├─ Args\n");
    reveal_strlit("├─ Args");
    reveal_strlit("└─ Body\n");
    reveal_strlit("└─ Body");
    reveal_strlit("├─ Condition\n");
    reveal_strlit("├─ Condition");
    reveal_strlit("├─ Then\n");
    reveal_strlit("├─ Then");
    reveal_strlit("└─ Else\n");
    reveal_strlit("└─ Else");
    reveal_strlit("└─ Then\n");
    reveal_strlit("└─ Then");
    reveal_strlit("\n");
    assert("├─ Args\n"@ =~= "├─ Args"@ + "\n"@);
    assert("└─ Body\n"@ =~= "└─ Body"@ + "\n"@);
    assert("├─ Condition\n"@ =~= "├─ Condition"@ + "\n"@);
    assert("├─ Then\n"@ =~= "├─ Then"@ + "\n"@);
    assert("└─ Else\n"@ =~= "└─ Else"@ + "\n"@);
    assert("└─ Then\n"@ =~= "└─ Then"@ + "\n"@);
    match e {
        ExprV::Binary(l, _, r) | ExprV::ListIndex(l, r) | ExprV::ListAssign(_, l, r) => {
            let a = lemma_tree_rows(*l, cp, false);
            let b = lemma_tree_rows(*r, cp, true);
            lemma_join_append(cp, a, b);
            a + b
        },
        ExprV::Grouping(x) | ExprV::LetStmt(_, _, x) | ExprV::ReturnStmt(x) | ExprV::ForStmt(
            _,
            _,
            _,
            _,
            x,
        ) | ExprV::Print(x) | ExprV::Len(x) => lemma_tree_rows(*x, cp, true),
        ExprV::BlockStmt(ss) | ExprV::CallStmt(_, ss) | ExprV::List(ss) => lemma_tree_list_rows(
            ss,
            cp,
            0,
        ),
        ExprV::FuncStmt(_, args, _, body) => {
            let r1 = seq!["├─ Args"@];
            lemma_lit_row(cp, "├─ Args"@, "├─ Args\n"@);
            let la = lemma_tree_list_rows(args, cp + "│  "@, 0);
            lemma_join_shift(cp, "│  "@, la);
            let r3 = seq!["└─ Body"@];
            lemma_lit_row(cp, "└─ Body"@, "└─ Body\n"@);
            let lb = lemma_tree_rows(*body, cp + "   "@, true);
            lemma_join_shift(cp, "   "@, lb);
            let s2 = shifted("│  "@, la);
            let s4 = shifted("   "@, lb);
            lemma_join_append(cp, r1, s2);
            lemma_join_append(cp, r1 + s2, r3);
            lemma_join_append(cp, r1 + s2 + r3, s4);
            assert(children(e, cp) =~= joined_rows(cp, r1) + joined_rows(cp, s2) + joined_rows(cp, r3)
                + joined_rows(cp, s4));
            r1 + s2 + r3 + s4
        },
        ExprV::WhileStmt(c, b) => {
            let r1 = seq!["├─ Condition"@];
            lemma_lit_row(cp, "├─ Condition"@, "├─ Condition\n"@);
            let lc = lemma_tree_rows(*c, cp + "│  "@, true);
            lemma_join_shift(cp, "│  "@, lc);
            let r3 = seq!["└─ Body"@];
            lemma_lit_row(cp, "└─ Body"@, "└─ Body\n"@);
            let lb = lemma_tree_rows(*b, cp + "   "@, true);
            lemma_join_shift(cp, "   "@, lb);
            let s2 = shifted("│  "@, lc);
            let s4 = shifted("   "@, lb);
            lemma_join_append(cp, r1, s2);
            lemma_join_append(cp, r1 + s2, r3);
            lemma_join_append(cp, r1 + s2 + r3, s4);
            assert(children(e, cp) =~= joined_rows(cp, r1) + joined_rows(cp, s2) + joined_rows(cp, r3)
                + joined_rows(cp, s4));
            r1 + s2 + r3 + s4
        },
        ExprV::IfStmt(c, t, other) => {
            let r1 = seq!["├─ Condition"@];
            lemma_lit_row(cp, "├─ Condition"@, "├─ Condition\n"@);
            let lc = lemma_tree_rows(*c, cp + "│  "@, true);
            lemma_join_shift(cp, "│  "@, lc);
            let s2 = shifted("│  "@, lc);
            lemma_join_append(cp, r1, s2);
            match other {
                Some(x) => {
                    let r3 = seq!["├─ Then"@];
                    lemma_lit_row(cp, "├─ Then"@, "├─ Then\n"@);
                    let lt = lemma_tree_rows(*t, cp + "│  "@, true);
                    lemma_join_shift(cp, "│  "@, lt);
                    let s4 = shifted("│  "@, lt);
                    let r5 = seq!["└─ Else"@];
                    lemma_lit_row(cp, "└─ Else"@, "└─ Else\n"@);
                    let lx = lemma_tree_rows(*x, cp + "   "@, true);
                    lemma_join_shift(cp, "   "@, lx);
                    let s6 = shifted("   "@, lx);
                    lemma_join_append(cp, r1 + s2, r3);
                    lemma_join_append(cp, r1 + s2 + r3, s4);
                    lemma_join_append(cp, r1 + s2 + r3 + s4, r5);
                    lemma_join_append(cp, r1 + s2 + r3 + s4 + r5, s6);
                    assert(children(e, cp) =~= joined_rows(cp, r1) + joined_rows(cp, s2) + joined_rows(
                        cp,
                        r3,
                    ) + joined_rows(cp, s4) + joined_rows(cp, r5) + joined_rows(cp, s6));
                    r1 + s2 + r3 + s4 + r5 + s6
                },
                None => {
                    let r3 = seq!["└─ Then"@];
                    lemma_lit_row(cp, "└─ Then"@, "└─ Then\n"@);
                    let lt = lemma_tree_rows(*t, cp + "   "@, true);
                    lemma_join_shift(cp, "   "@, lt);
                    let s4 = shifted("   "@, lt);
                    lemma_join_append(cp, r1 + s2, r3);
                    lemma_join_append(cp, r1 + s2 + r3, s4);
                    assert(children(e, cp) =~= joined_rows(cp, r1) + joined_rows(cp, s2) + joined_rows(
                        cp,
                        r3,
                    ) + joined_rows(cp, s4));
                    r1 + s2 + r3 + s4
                },
            }
        },
        _ => Seq::empty(),
    }
}

/// The drawing of a node is a run of lines that all start with the prefix
/// and end with a line break; the first of them is the prefix, the
/// connector (`└─ ` for the last child, `├─ ` otherwise) and the node's
/// label. (A line break inside a name, operator or string of the tree
/// lies inside one of these rows.)
pub proof fn law_tree_lines(e: ExprV, prefix: Seq<char>, is_last: bool)
    ensures
        exists|rows: Seq<Seq<char>>|
            rows.len() > 0 && rows[0] == branch(is_last) + node_label(e) && tree(e, prefix, is_last)
                == #[trigger] joined_rows(prefix, rows),
        tree(e, prefix, is_last).len() > 0,
        tree(e, prefix, is_last).last() == '\n',
{
    reveal_strlit("\n");
    let rows = lemma_tree_rows(e, prefix, is_last);
    let t = tree(e, prefix, is_last);
    assert(rows.len() > 0);
    assert(t == joined_rows(prefix, rows.drop_last()) + prefix + rows.last() + "\n"@);
    assert(t.last() == '\n');
}


/// The name of a node's kind.
pub open spec fn kind_name(e: ExprV) -> Seq<char> {
    match e {
        ExprV::Number(_) => "Number"@,
        ExprV::Number64(_) => "Number64"@,
        ExprV::Str(_) => "String"@,
        ExprV::Bool(_) => "Bool"@,
        ExprV::Nil => "Nil"@,
        ExprV::List(_) => "List"@,
        ExprV::ListIndex(_, _) => "ListIndex"@,
        ExprV::ListAssign(_, _, _) => "ListAssign"@,
        ExprV::Variable(_) => "Variable"@,
        ExprV::Binary(_, _, _) => "Binary"@,
        ExprV::Grouping(_) => "Grouping"@,
        ExprV::LetStmt(_, _, _) => "LetStmt"@,
        ExprV::BlockStmt(_) => "BlockStmt"@,
        ExprV::FuncArg(_, _) => "FuncArg"@,
        ExprV::FuncStmt(_, _, _, _) => "FuncStmt"@,
        ExprV::CallStmt(_, _) => "CallStmt"@,
        ExprV::IfStmt(_, _, _) => "IfStmt"@,
        ExprV::WhileStmt(_, _) => "WhileStmt"@,
        ExprV::ReturnStmt(_) => "ReturnStmt"@,
        ExprV::ForStmt(_, _, _, _, _) => "ForStmt"@,
        ExprV::Print(_) => "Print"@,
        ExprV::Len(_) => "Len"@,
        ExprV::BreakStmt => "BreakStmt"@,
    }
}

/// Whether a node's label carries details in brackets after its kind.
pub open spec fn has_details(e: ExprV) -> bool {
    e is Number || e is Number64 || e is Str || e is Bool || e is Variable || e is Binary
        || e is LetStmt || e is FuncArg || e is FuncStmt || e is CallStmt || e is ForStmt
        || e is ListAssign
}

proof fn lemma_opens_with(opening: Seq<char>, kind: Seq<char>, rest: Seq<char>)
    requires
        opening == kind.push('('),
    ensures
        starts_with(opening + rest, kind),
        (opening + rest)[kind.len() as int] == '(',
{
    assert((opening + rest).subrange(0, kind.len() as int) =~= kind);
}

/// Each node is drawn under its own kind's name: a label is the kind's name
/// alone, or the kind's name and its details in brackets; a variable, a
/// call and a list store show exactly their name in brackets. So nodes of
/// different kinds never share a label: a call `f(..)` is never drawn as
/// the variable `f`.
pub proof fn law_labels_name_their_kind(e: ExprV, n1: Seq<char>, n2: Seq<char>, args: Seq<ExprV>)
    ensures
        !has_details(e) ==> node_label(e) == kind_name(e),
        has_details(e) ==> starts_with(node_label(e), kind_name(e)) && node_label(e)[kind_name(e).len() as int]
            == '(' && node_label(e).last() == ')',
        node_label(ExprV::Variable(n1)) == "Variable"@ + seq!['('] + n1 + seq![')'],
        node_label(ExprV::CallStmt(n1, args)) == "CallStmt"@ + seq!['('] + n1 + seq![')'],
        node_label(ExprV::CallStmt(n1, args)) != node_label(ExprV::Variable(n2)),
{
    reveal_strlit(")");
    reveal_strlit("Variable(");
    reveal_strlit("Variable");
    reveal_strlit("CallStmt(");
    reveal_strlit("CallStmt");
    assert("Variable("@ =~= "Variable"@.push('('));
    assert("CallStmt("@ =~= "CallStmt"@.push('('));
    assert(node_label(ExprV::Variable(n1)) =~= "Variable"@ + seq!['('] + n1 + seq![')']);
    assert(node_label(ExprV::CallStmt(n1, args)) =~= "CallStmt"@ + seq!['('] + n1 + seq![')']);
    assert(node_label(ExprV::CallStmt(n1, args))[0] != node_label(ExprV::Variable(n2))[0]);
    if has_details(e) {
        let l = node_label(e);
        assert(l.len() > 0 ==> l.last() == l[l.len() - 1]);
        match e {
            ExprV::Number(v) => {
                reveal_strlit("Number(");
                reveal_strlit("Number");
                assert("Number("@ =~= "Number"@.push('('));
                lemma_opens_with("Number("@, "Number"@, decimal(v as int) + ")"@);
                assert(l =~= "Number("@ + (decimal(v as int) + ")"@));
            },
            ExprV::Number64(v) => {
                reveal_strlit("Number64(");
                reveal_strlit("Number64");
                assert("Number64("@ =~= "Number64"@.push('('));
                lemma_opens_with("Number64("@, "Number64"@, decimal(v as int) + ")"@);
                assert(l =~= "Number64("@ + (decimal(v as int) + ")"@));
            },
            ExprV::Str(x) => {
                reveal_strlit("String(");
                reveal_strlit("String");
                assert("String("@ =~= "String"@.push('('));
                lemma_opens_with("String("@, "String"@, x + ")"@);
                assert(l =~= "String("@ + (x + ")"@));
            },
            ExprV::Bool(b) => {
                reveal_strlit("Bool(true)");
                reveal_strlit("Bool(false)");
                reveal_strlit("Bool");
                if b {
                    assert(l =~= "Bool"@.push('(') + seq!['t', 'r', 'u', 'e', ')']);
                    lemma_opens_with("Bool"@.push('('), "Bool"@, seq!['t', 'r', 'u', 'e', ')']);
                } else {
                    assert(l =~= "Bool"@.push('(') + seq!['f', 'a', 'l', 's', 'e', ')']);
                    lemma_opens_with("Bool"@.push('('), "Bool"@, seq!['f', 'a', 'l', 's', 'e', ')']);
                }
            },
            ExprV::Variable(x) => {
                lemma_opens_with("Variable("@, "Variable"@, x + ")"@);
                assert(l =~= "Variable("@ + (x + ")"@));
            },
            ExprV::Binary(_, op, _) => {
                reveal_strlit("Binary(");
                reveal_strlit("Binary");
                assert("Binary("@ =~= "Binary"@.push('('));
                lemma_opens_with("Binary("@, "Binary"@, op + ")"@);
                assert(l =~= "Binary("@ + (op + ")"@));
            },
            ExprV::LetStmt(x, ty, _) => {
                reveal_strlit("LetStmt(");
                reveal_strlit("LetStmt");
                assert("LetStmt("@ =~= "LetStmt"@.push('('));
                let rest = x + ": "@ + type_text(ty) + ")"@;
                lemma_opens_with("LetStmt("@, "LetStmt"@, rest);
                assert(l =~= "LetStmt("@ + rest);
            },
            ExprV::FuncArg(x, ty) => {
                reveal_strlit("FuncArg(");
                reveal_strlit("FuncArg");
                assert("FuncArg("@ =~= "FuncArg"@.push('('));
                let rest = x + ": "@ + type_text(ty) + ")"@;
                lemma_opens_with("FuncArg("@, "FuncArg"@, rest);
                assert(l =~= "FuncArg("@ + rest);
            },
            ExprV::FuncStmt(x, _, ret, _) => {
                reveal_strlit("FuncStmt(");
                reveal_strlit("FuncStmt");
                assert("FuncStmt("@ =~= "FuncStmt"@.push('('));
                let rest = x + " -> "@ + type_text(ret) + ")"@;
                lemma_opens_with("FuncStmt("@, "FuncStmt"@, rest);
                assert(l =~= "FuncStmt("@ + rest);
            },
            ExprV::CallStmt(x, _) => {
                lemma_opens_with("CallStmt("@, "CallStmt"@, x + ")"@);
                assert(l =~= "CallStmt("@ + (x + ")"@));
            },
            ExprV::ForStmt(x, a, b, c, _) => {
                reveal_strlit("ForStmt(");
                reveal_strlit("ForStmt");
                assert("ForStmt("@ =~= "ForStmt"@.push('('));
                let rest = x + " = "@ + decimal(a as int) + ".."@ + decimal(b as int) + " step "@
                    + decimal(c as int) + ")"@;
                lemma_opens_with("ForStmt("@, "ForStmt"@, rest);
                assert(l =~= "ForStmt("@ + rest);
            },
            ExprV::ListAssign(x, _, _) => {
                reveal_strlit("ListAssign(");
                reveal_strlit("ListAssign");
                assert("ListAssign("@ =~= "ListAssign"@.push('('));
                lemma_opens_with("ListAssign("@, "ListAssign"@, x + ")"@);
                assert(l =~= "ListAssign("@ + (x + ")"@));
            },
            _ => {},
        }
    }
}

} // verus!

//! The typed syntax tree that the type resolver produces, and its model.
use vstd::prelude::*;
use crate::display::push_lit;
use crate::text::chars_of;

verus! {

/// The type that the resolver gives an expression.
#[derive(Debug, PartialEq)]
pub enum ResolvedType {
    I32,
    I64,
    String,
    Bool,
    Binary(Box<ResolvedType>, String, Box<ResolvedType>),
    List(Box<ResolvedType>),
    Function(Vec<ResolvedType>, Box<ResolvedType>),
    CallStmt(Vec<ResolvedType>, Box<ResolvedType>),
    Void,
}

/// The model of a [`ResolvedType`].
pub enum RType {
    I32,
    I64,
    Str,
    Bool,
    Binary(Box<RType>, Seq<char>, Box<RType>),
    List(Box<RType>),
    Function(Seq<RType>, Box<RType>),
    CallStmt(Seq<RType>, Box<RType>),
    Void,
}

impl ResolvedType {
    pub open spec fn model(self) -> RType
        decreases self,
    {
        match self {
            ResolvedType::I32 => RType::I32,
            ResolvedType::I64 => RType::I64,
            ResolvedType::String => RType::Str,
            ResolvedType::Bool => RType::Bool,
            ResolvedType::Binary(l, op, r) => RType::Binary(Box::new(l.model()), op@, Box::new(r.model())),
            ResolvedType::List(t) => RType::List(Box::new(t.model())),
            ResolvedType::Function(args, ret) => RType::Function(
                Self::model_seq(args@),
                Box::new(ret.model()),
            ),
            ResolvedType::CallStmt(args, ret) => RType::CallStmt(
                Self::model_seq(args@),
                Box::new(ret.model()),
            ),
            ResolvedType::Void => RType::Void,
        }
    }

    pub open spec fn model_seq(s: Seq<ResolvedType>) -> Seq<RType>
        decreases s,
    {
        if s.len() == 0 {
            Seq::empty()
        } else {
            Self::model_seq(s.subrange(0, s.len() - 1)).push(s[s.len() - 1].model())
        }
    }
}

impl View for ResolvedType {
    type V = RType;

    open spec fn view(&self) -> RType {
        self.model()
    }
}

/// `model_seq` keeps the length and maps element by element.
pub proof fn lemma_rtype_model_seq(s: Seq<ResolvedType>)
    ensures
        ResolvedType::model_seq(s).len() == s.len(),
        forall|i: int| 0 <= i < s.len() ==> #[trigger] ResolvedType::model_seq(s)[i] == s[i].model(),
    decreases s.len(),
{
    if s.len() > 0 {
        lemma_rtype_model_seq(s.subrange(0, s.len() - 1));
    }
}

impl ResolvedType {
    /// A copy of a sequence of types.
    pub fn copy_vec(v: &Vec<ResolvedType>) -> (r: Vec<ResolvedType>)
        ensures
            ResolvedType::model_seq(r@) == ResolvedType::model_seq(v@),
        decreases v@,
    {
        let mut out: Vec<ResolvedType> = Vec::new();
        let mut i: usize = 0;
        while i < v.len()
            invariant
                i <= v.len(),
                out@.len() == i,
                ResolvedType::model_seq(out@) == ResolvedType::model_seq(v@.subrange(0, i as int)),
            decreases v.len() - i,
        {
            assert(decreases_to!(v@ => v@[i as int]));
            let e = v[i].copy();
            let ghost prev = out@;
            out.push(e);
            assert(out@.subrange(0, out@.len() - 1) == prev);
            let ghost vs = v@.subrange(0, i as int + 1);
            assert(vs.subrange(0, vs.len() - 1) == v@.subrange(0, i as int));
            i = i + 1;
        }
        assert(v@.subrange(0, v@.len() as int) == v@);
        out
    }

    /// A copy of the type.
    pub fn copy(&self) -> (r: ResolvedType)
        ensures
            r@ == self@,
        decreases self,
    {
        match self {
            ResolvedType::I32 => ResolvedType::I32,
            ResolvedType::I64 => ResolvedType::I64,
            ResolvedType::String => ResolvedType::String,
            ResolvedType::Bool => ResolvedType::Bool,
            ResolvedType::Binary(l, op, r) => ResolvedType::Binary(
                Box::new(l.copy()),
                op.clone(),
                Box::new(r.copy()),
            ),
            ResolvedType::List(t) => ResolvedType::List(Box::new(t.copy())),
            ResolvedType::Function(args, ret) => ResolvedType::Function(
                Self::copy_vec(args),
                Box::new(ret.copy()),
            ),
            ResolvedType::CallStmt(args, ret) => ResolvedType::CallStmt(
                Self::copy_vec(args),
                Box::new(ret.copy()),
            ),
            ResolvedType::Void => ResolvedType::Void,
        }
    }

    /// Whether two sequences of types have the same models.
    pub fn same_vec(a: &Vec<ResolvedType>, b: &Vec<ResolvedType>) -> (r: bool)
        ensures
            r == (ResolvedType::model_seq(a@) == ResolvedType::model_seq(b@)),
        decreases a@,
    {
        proof {
            lemma_rtype_model_seq(a@);
            lemma_rtype_model_seq(b@);
        }
        if a.len() != b.len() {
            return false;
        }
        let mut i: usize = 0;
        while i < a.len()
            invariant
                i <= a.len(),
                a.len() == b.len(),
                ResolvedType::model_seq(a@).len() == a@.len(),
                ResolvedType::model_seq(b@).len() == b@.len(),
                forall|k: int| 0 <= k < a@.len() ==> #[trigger] ResolvedType::model_seq(a@)[k] == a@[k].model(),
                forall|k: int| 0 <= k < b@.len() ==> #[trigger] ResolvedType::model_seq(b@)[k] == b@[k].model(),
                forall|k: int| 0 <= k < i ==> a@[k].model() == b@[k].model(),
            decreases a.len() - i,
        {
            assert(decreases_to!(a@ => a@[i as int]));
            if !a[i].same(&b[i]) {
                assert(ResolvedType::model_seq(a@)[i as int] != ResolvedType::model_seq(b@)[i as int]);
                return false;
            }
            i = i + 1;
        }
        assert(ResolvedType::model_seq(a@) =~= ResolvedType::model_seq(b@));
        true
    }

    /// Whether two types have the same model.
    pub fn same(&self, other: &ResolvedType) -> (r: bool)
        ensures
            r == (self@ == other@),
        decreases self,
    {
        match self {
            ResolvedType::I32 => match other {
                ResolvedType::I32 => true,
                _ => false,
            },
            ResolvedType::I64 => match other {
                ResolvedType::I64 => true,
                _ => false,
            },
            ResolvedType::String => match other {
                ResolvedType::String => true,
                _ => false,
            },
            ResolvedType::Bool => match other {
                ResolvedType::Bool => true,
                _ => false,
            },
            ResolvedType::Binary(l1, o1, r1) => match other {
                ResolvedType::Binary(l2, o2, r2) => l1.same(l2) && *o1 == *o2 && r1.same(r2),
                _ => false,
            },
            ResolvedType::List(a) => match other {
                ResolvedType::List(b) => a.same(b),
                _ => false,
            },
            ResolvedType::Function(a1, r1) => match other {
                ResolvedType::Function(a2, r2) => Self::same_vec(a1, a2) && r1.same(r2),
                _ => false,
            },
            ResolvedType::CallStmt(a1, r1) => match other {
                ResolvedType::CallStmt(a2, r2) => Self::same_vec(a1, a2) && r1.same(r2),
                _ => false,
            },
            ResolvedType::Void => match other {
                ResolvedType::Void => true,
                _ => false,
            },
        }
    }
}

impl Clone for ResolvedType {
    fn clone(&self) -> (r: ResolvedType)
        ensures
            r@ == self@,
    {
        self.copy()
    }
}

/// A node of the typed syntax tree.
#[allow(inconsistent_fields)]
#[derive(Debug)]
pub enum TypedExpression {
    Number32 { value: i32 },
    Number64 { value: i64 },
    String { value: String },
    Bool { value: bool },
    Binary { left: Box<TypedExpression>, right: Box<TypedExpression>, op: String },
    CallStmt { callee: Box<TypedExpression>, args: Vec<TypedExpression> },
    FuncStmt {
        name: String,
        args: Vec<(String, ResolvedType)>,
        return_type: ResolvedType,
        body: Box<TypedExpression>,
    },
    BlockStmt { statements: Vec<TypedExpression> },
    Variable { name: String },
    Print { value: Box<TypedExpression> },
    ReturnStmt { value: Box<TypedExpression> },
    BreakStmt,
    LetStmt { name: String, var_type: Option<ResolvedType>, value: Box<TypedExpression> },
    IfStmt {
        condition: Box<TypedExpression>,
        then_branch: Box<TypedExpression>,
        else_branch: Option<Box<TypedExpression>>,
    },
    WhileStmt { condition: Box<TypedExpression>, body: Box<TypedExpression> },
    AssignStmt { name: String, value: Box<TypedExpression> },
    Grouping { inner: Box<TypedExpression> },
    List { elements: Vec<TypedExpression>, element_type: ResolvedType },
    ListIndex { list: Box<TypedExpression>, index: Box<TypedExpression> },
    ListAssign { name: String, index: Box<TypedExpression>, value: Box<TypedExpression> },
    Len { value: Box<TypedExpression> },
    ForStmt { var_name: String, start: i32, end: i32, step: i32, body: Box<TypedExpression> },
}

/// The model of a [`TypedExpression`].
pub enum TExpr {
    Number32(i32),
    Number64(i64),
    Str(Seq<char>),
    Bool(bool),
    Binary(Box<TExpr>, Seq<char>, Box<TExpr>),
    CallStmt(Box<TExpr>, Seq<TExpr>),
    FuncStmt(Seq<char>, Seq<(Seq<char>, RType)>, RType, Box<TExpr>),
    BlockStmt(Seq<TExpr>),
    Variable(Seq<char>),
    Print(Box<TExpr>),
    ReturnStmt(Box<TExpr>),
    BreakStmt,
    LetStmt(Seq<char>, Option<RType>, Box<TExpr>),
    IfStmt(Box<TExpr>, Box<TExpr>, Option<Box<TExpr>>),
    WhileStmt(Box<TExpr>, Box<TExpr>),
    AssignStmt(Seq<char>, Box<TExpr>),
    Grouping(Box<TExpr>),
    List(Seq<TExpr>, RType),
    ListIndex(Box<TExpr>, Box<TExpr>),
    ListAssign(Seq<char>, Box<TExpr>, Box<TExpr>),
    Len(Box<TExpr>),
    ForStmt(Seq<char>, i32, i32, i32, Box<TExpr>),
}

/// The model of a list of named, typed parameters.
pub open spec fn model_params(s: Seq<(String, ResolvedType)>) -> Seq<(Seq<char>, RType)> {
    Seq::new(s.len(), |i: int| (s[i].0@, s[i].1@))
}

impl TypedExpression {
    pub open spec fn model(self) -> TExpr
        decreases self,
    {
        match self {
            TypedExpression::Number32 { value } => TExpr::Number32(value),
            TypedExpression::Number64 { value } => TExpr::Number64(value),
            TypedExpression::String { value } => TExpr::Str(value@),
            TypedExpression::Bool { value } => TExpr::Bool(value),
            TypedExpression::Binary { left, right, op } => TExpr::Binary(
                Box::new(left.model()),
                op@,
                Box::new(right.model()),
            ),
            TypedExpression::CallStmt { callee, args } => TExpr::CallStmt(
                Box::new(callee.model()),
                Self::model_seq(args@),
            ),
            TypedExpression::FuncStmt { name, args, return_type, body } => TExpr::FuncStmt(
                name@,
                model_params(args@),
                return_type@,
                Box::new(body.model()),
            ),
            TypedExpression::BlockStmt { statements } => TExpr::BlockStmt(Self::model_seq(statements@)),
            TypedExpression::Variable { name } => TExpr::Variable(name@),
            TypedExpression::Print { value } => TExpr::Print(Box::new(value.model())),
            TypedExpression::ReturnStmt { value } => TExpr::ReturnStmt(Box::new(value.model())),
            TypedExpression::BreakStmt => TExpr::BreakStmt,
            TypedExpression::LetStmt { name, var_type, value } => TExpr::LetStmt(
                name@,
                match var_type {
                    Some(t) => Some(t@),
                    None => None,
                },
                Box::new(value.model()),
            ),
            TypedExpression::IfStmt { condition, then_branch, else_branch } => TExpr::IfStmt(
                Box::new(condition.model()),
                Box::new(then_branch.model()),
                match else_branch {
                    Some(e) => Some(Box::new(e.model())),
                    None => None,
                },
            ),
            TypedExpression::WhileStmt { condition, body } => TExpr::WhileStmt(
                Box::new(condition.model()),
                Box::new(body.model()),
            ),
            TypedExpression::AssignStmt { name, value } => TExpr::AssignStmt(name@, Box::new(value.model())),
            TypedExpression::Grouping { inner } => TExpr::Grouping(Box::new(inner.model())),
            TypedExpression::List { elements, element_type } => TExpr::List(
                Self::model_seq(elements@),
                element_type@,
            ),
            TypedExpression::ListIndex { list, index } => TExpr::ListIndex(
                Box::new(list.model()),
                Box::new(index.model()),
            ),
            TypedExpression::ListAssign { name, index, value } => TExpr::ListAssign(
                name@,
                Box::new(index.model()),
                Box::new(value.model()),
            ),
            TypedExpression::Len { value } => TExpr::Len(Box::new(value.model())),
            TypedExpression::ForStmt { var_name, start, end, step, body } => TExpr::ForStmt(
                var_name@,
                start,
                end,
                step,
                Box::new(body.model()),
            ),
        }
    }

    pub open spec fn model_seq(s: Seq<TypedExpression>) -> Seq<TExpr>
        decreases s,
    {
        if s.len() == 0 {
            Seq::empty()
        } else {
            Self::model_seq(s.subrange(0, s.len() - 1)).push(s[s.len() - 1].model())
        }
    }
}

impl View for TypedExpression {
    type V = TExpr;

    open spec fn view(&self) -> TExpr {
        self.model()
    }
}

/// `model_seq` keeps the length and maps element by element.
pub proof fn lemma_texpr_model_seq(s: Seq<TypedExpression>)
    ensures
        TypedExpression::model_seq(s).len() == s.len(),
        forall|i: int| 0 <= i < s.len() ==> #[trigger] TypedExpression::model_seq(s)[i] == s[i].model(),
    decreases s.len(),
{
    if s.len() > 0 {
        lemma_texpr_model_seq(s.subrange(0, s.len() - 1));
    }
}


/// The hexadecimal digit of `d` (`0`..`f`).
pub open spec fn hex_digit(d: nat) -> char {
    if d == 0 { '0' } else if d == 1 { '1' } else if d == 2 { '2' } else if d == 3 { '3' }
    else if d == 4 { '4' } else if d == 5 { '5' } else if d == 6 { '6' } else if d == 7 { '7' }
    else if d == 8 { '8' } else if d == 9 { '9' } else if d == 10 { 'a' } else if d == 11 { 'b' }
    else if d == 12 { 'c' } else if d == 13 { 'd' } else if d == 14 { 'e' } else { 'f' }
}

/// The lower-case hexadecimal digits of a code below 256, without leading zeros.
pub open spec fn hex_text(n: nat) -> Seq<char> {
    if n < 16 {
        seq![hex_digit(n)]
    } else {
        seq![hex_digit(n / 16), hex_digit(n % 16)]
    }
}

/// How a character is written inside a quoted string by `{:?}`: the
/// backslash escapes of tab, carriage return, line feed, backslash, double
/// quote and NUL; `\u{..}` for the other ASCII control characters; any other
/// character as itself.
pub open spec fn escaped_char(c: char) -> Seq<char> {
    if c == '\t' {
        seq!['\\', 't']
    } else if c == '\r' {
        seq!['\\', 'r']
    } else if c == '\n' {
        seq!['\\', 'n']
    } else if c == '\\' {
        seq!['\\', '\\']
    } else if c == '"' {
        seq!['\\', '"']
    } else if c == '\0' {
        seq!['\\', '0']
    } else if (c as u32) < 32 || (c as u32) == 127 {
        seq!['\\', 'u', '{'] + hex_text(c as nat) + seq!['}']
    } else {
        seq![c]
    }
}

/// The characters of `s`, each escaped as in a quoted string.
pub open spec fn escaped(s: Seq<char>) -> Seq<char>
    decreases s.len(),
{
    if s.len() == 0 {
        Seq::empty()
    } else {
        escaped(s.subrange(0, s.len() - 1)) + escaped_char(s[s.len() - 1])
    }
}

/// `s` written as a quoted string by `{:?}`.
pub open spec fn quoted(s: Seq<char>) -> Seq<char> {
    seq!['"'] + escaped(s) + seq!['"']
}

/// A type written as `{:?}` writes it: the variant's name, then its fields
/// in brackets, separated by `, `.
pub open spec fn debug_text(t: RType) -> Seq<char>
    decreases t,
{
    match t {
        RType::I32 => "I32"@,
        RType::I64 => "I64"@,
        RType::Str => "String"@,
        RType::Bool => "Bool"@,
        RType::Void => "Void"@,
        RType::Binary(l, op, r) => "Binary("@ + debug_text(*l) + ", "@ + quoted(op) + ", "@
            + debug_text(*r) + ")"@,
        RType::List(e) => "List("@ + debug_text(*e) + ")"@,
        RType::Function(args, ret) => "Function(["@ + debug_items(args) + "], "@ + debug_text(*ret)
            + ")"@,
        RType::CallStmt(args, ret) => "CallStmt(["@ + debug_items(args) + "], "@ + debug_text(*ret)
            + ")"@,
    }
}

/// The types of `s` written as `{:?}` writes them, separated by `, `.
pub open spec fn debug_items(s: Seq<RType>) -> Seq<char>
    decreases s,
{
    if s.len() == 0 {
        Seq::empty()
    } else if s.len() == 1 {
        debug_text(s[0])
    } else {
        debug_items(s.subrange(0, s.len() - 1)) + ", "@ + debug_text(s[s.len() - 1])
    }
}

fn hex_digit_exec(d: u32) -> (c: char)
    requires
        d < 16,
    ensures
        c == hex_digit(d as nat),
{
    if d == 0 { '0' } else if d == 1 { '1' } else if d == 2 { '2' } else if d == 3 { '3' }
    else if d == 4 { '4' } else if d == 5 { '5' } else if d == 6 { '6' } else if d == 7 { '7' }
    else if d == 8 { '8' } else if d == 9 { '9' } else if d == 10 { 'a' } else if d == 11 { 'b' }
    else if d == 12 { 'c' } else if d == 13 { 'd' } else if d == 14 { 'e' } else { 'f' }
}

/// Appends `c` escaped as in a quoted string.
fn push_escaped_char(out: &mut Vec<char>, c: char)
    ensures
        final(out)@ == old(out)@ + escaped_char(c),
{
    let n: u32 = c as u32;
    if c == '\t' {
        out.push('\\');
        out.push('t');
    } else if c == '\r' {
        out.push('\\');
        out.push('r');
    } else if c == '\n' {
        out.push('\\');
        out.push('n');
    } else if c == '\\' {
        out.push('\\');
        out.push('\\');
    } else if c == '"' {
        out.push('\\');
        out.push('"');
    } else if c == '\0' {
        out.push('\\');
        out.push('0');
    } else if n < 32 || n == 127 {
        out.push('\\');
        out.push('u');
        out.push('{');
        if n < 16 {
            out.push(hex_digit_exec(n));
        } else {
            out.push(hex_digit_exec(n / 16));
            out.push(hex_digit_exec(n % 16));
        }
        out.push('}');
    } else {
        out.push(c);
    }
}

/// Appends `s` written as a quoted string.
fn push_quoted(out: &mut Vec<char>, s: &String)
    ensures
        final(out)@ == old(out)@ + quoted(s@),
{
    let v = chars_of(s.as_str());
    let ghost o = out@;
    out.push('"');
    let mut i: usize = 0;
    while i < v.len()
        invariant
            i <= v@.len(),
            v@ == s@,
            out@ == o + seq!['"'] + escaped(v@.subrange(0, i as int)),
        decreases v@.len() - i,
    {
        push_escaped_char(out, v[i]);
        assert(v@.subrange(0, i as int + 1).subrange(0, i as int) == v@.subrange(0, i as int));
        i = i + 1;
    }
    assert(v@.subrange(0, v@.len() as int) == v@);
    out.push('"');
}

/// Appends the type written as `{:?}` writes it.
pub fn push_debug(out: &mut Vec<char>, t: &ResolvedType)
    ensures
        final(out)@ == old(out)@ + debug_text(t@),
    decreases t,
{
    match t {
        ResolvedType::I32 => push_lit(out, "I32"),
        ResolvedType::I64 => push_lit(out, "I64"),
        ResolvedType::String => push_lit(out, "String"),
        ResolvedType::Bool => push_lit(out, "Bool"),
        ResolvedType::Void => push_lit(out, "Void"),
        ResolvedType::Binary(l, op, r) => {
            push_lit(out, "Binary(");
            push_debug(out, l);
            push_lit(out, ", ");
            push_quoted(out, op);
            push_lit(out, ", ");
            push_debug(out, r);
            push_lit(out, ")");
        },
        ResolvedType::List(e) => {
            push_lit(out, "List(");
            push_debug(out, e);
            push_lit(out, ")");
        },
        ResolvedType::Function(args, ret) => {
            push_lit(out, "Function([");
            push_debug_items(out, args);
            push_lit(out, "], ");
            push_debug(out, ret);
            push_lit(out, ")");
        },
        ResolvedType::CallStmt(args, ret) => {
            push_lit(out, "CallStmt([");
            push_debug_items(out, args);
            push_lit(out, "], ");
            push_debug(out, ret);
            push_lit(out, ")");
        },
    }
}

/// Appends the types written as `{:?}` writes them, separated by `, `.
fn push_debug_items(out: &mut Vec<char>, v: &Vec<ResolvedType>)
    ensures
        final(out)@ == old(out)@ + debug_items(ResolvedType::model_seq(v@)),
    decreases v@,
{
    proof {
        lemma_rtype_model_seq(v@);
    }
    let ghost o = out@;
    let ghost m = ResolvedType::model_seq(v@);
    let mut i: usize = 0;
    while i < v.len()
        invariant
            i <= v@.len(),
            m == ResolvedType::model_seq(v@),
            m.len() == v@.len(),
            forall|k: int| 0 <= k < v@.len() ==> #[trigger] m[k] == v@[k]@,
            out@ == o + debug_items(m.subrange(0, i as int)),
        decreases v@.len() - i,
    {
        if i > 0 {
            push_lit(out, ", ");
        }
        assert(decreases_to!(v@ => v@[i as int]));
        push_debug(out, &v[i]);
        proof {
            let t = m.subrange(0, i as int + 1);
            assert(t.subrange(0, t.len() - 1) == m.subrange(0, i as int));
            assert(t[t.len() - 1] == v@[i as int]@);
            if i == 0 {
                assert(t.len() == 1);
                assert(t[0] == v@[0]@);
            }
        }
        i = i + 1;
    }
    assert(m.subrange(0, m.len() as int) == m);
}

} // verus!

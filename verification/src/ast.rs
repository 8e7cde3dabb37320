//! The syntax tree that the parser produces and its mathematical model.
use vstd::prelude::*;

verus! {

/// A type annotation as written in the source (`i32`, `List<bool>`, ...).
/// `Unspecified` stands for "no annotation".
#[allow(non_camel_case_types)]
#[derive(Debug, PartialEq, Eq)]
pub enum Type {
    Unspecified,
    i32,
    i64,
    String,
    Bool,
    List(Box<Type>),
}

/// A node of the syntax tree.
#[derive(Debug, PartialEq)]
pub enum Expression {
    Number(i32),
    Number64(i64),
    String(String),
    Bool(bool),
    Nil,
    List(Vec<Expression>),
    ListIndex(Box<Expression>, Box<Expression>),
    ListAssign(String, Box<Expression>, Box<Expression>),
    Variable(String),
    Binary(Box<Expression>, String, Box<Expression>),
    Grouping(Box<Expression>),
    LetStmt(String, Type, Box<Expression>),
    BlockStmt(Vec<Expression>),
    FuncArg(String, Type),
    FuncStmt(String, Vec<Expression>, Type, Box<Expression>),
    CallStmt(String, Vec<Expression>),
    IfStmt(Box<Expression>, Box<Expression>, Box<Option<Expression>>),
    WhileStmt(Box<Expression>, Box<Expression>),
    ReturnStmt(Box<Expression>),
    ForStmt(String, i32, i32, i32, Box<Expression>),
    Print(Box<Expression>),
    Len(Box<Expression>),
    BreakStmt,
}

/// The mathematical model of an [`Expression`]: strings become character
/// sequences and vectors become sequences.
pub enum ExprV {
    Number(i32),
    Number64(i64),
    Str(Seq<char>),
    Bool(bool),
    Nil,
    List(Seq<ExprV>),
    ListIndex(Box<ExprV>, Box<ExprV>),
    ListAssign(Seq<char>, Box<ExprV>, Box<ExprV>),
    Variable(Seq<char>),
    Binary(Box<ExprV>, Seq<char>, Box<ExprV>),
    Grouping(Box<ExprV>),
    LetStmt(Seq<char>, Type, Box<ExprV>),
    BlockStmt(Seq<ExprV>),
    FuncArg(Seq<char>, Type),
    FuncStmt(Seq<char>, Seq<ExprV>, Type, Box<ExprV>),
    CallStmt(Seq<char>, Seq<ExprV>),
    IfStmt(Box<ExprV>, Box<ExprV>, Option<Box<ExprV>>),
    WhileStmt(Box<ExprV>, Box<ExprV>),
    ReturnStmt(Box<ExprV>),
    ForStmt(Seq<char>, i32, i32, i32, Box<ExprV>),
    Print(Box<ExprV>),
    Len(Box<ExprV>),
    BreakStmt,
}

impl Expression {
    /// The model of one node.
    pub open spec fn model(self) -> ExprV
        decreases self,
    {
        match self {
            Expression::Number(n) => ExprV::Number(n),
            Expression::Number64(n) => ExprV::Number64(n),
            Expression::String(s) => ExprV::Str(s@),
            Expression::Bool(b) => ExprV::Bool(b),
            Expression::Nil => ExprV::Nil,
            Expression::List(v) => ExprV::List(Self::model_seq(v@)),
            Expression::ListIndex(l, i) => ExprV::ListIndex(Box::new(l.model()), Box::new(i.model())),
            Expression::ListAssign(n, i, v) => ExprV::ListAssign(
                n@,
                Box::new(i.model()),
                Box::new(v.model()),
            ),
            Expression::Variable(n) => ExprV::Variable(n@),
            Expression::Binary(l, op, r) => ExprV::Binary(
                Box::new(l.model()),
                op@,
                Box::new(r.model()),
            ),
            Expression::Grouping(e) => ExprV::Grouping(Box::new(e.model())),
            Expression::LetStmt(n, t, v) => ExprV::LetStmt(n@, t, Box::new(v.model())),
            Expression::BlockStmt(v) => ExprV::BlockStmt(Self::model_seq(v@)),
            Expression::FuncArg(n, t) => ExprV::FuncArg(n@, t),
            Expression::FuncStmt(n, args, t, body) => ExprV::FuncStmt(
                n@,
                Self::model_seq(args@),
                t,
                Box::new(body.model()),
            ),
            Expression::CallStmt(n, args) => ExprV::CallStmt(n@, Self::model_seq(args@)),
            Expression::IfStmt(c, t, e) => ExprV::IfStmt(
                Box::new(c.model()),
                Box::new(t.model()),
                match *e {
                    Some(x) => Some(Box::new(x.model())),
                    None => None,
                },
            ),
            Expression::WhileStmt(c, b) => ExprV::WhileStmt(Box::new(c.model()), Box::new(b.model())),
            Expression::ReturnStmt(v) => ExprV::ReturnStmt(Box::new(v.model())),
            Expression::ForStmt(n, s, e, st, b) => ExprV::ForStmt(n@, s, e, st, Box::new(b.model())),
            Expression::Print(v) => ExprV::Print(Box::new(v.model())),
            Expression::Len(v) => ExprV::Len(Box::new(v.model())),
            Expression::BreakStmt => ExprV::BreakStmt,
        }
    }

    /// The model of a sequence of nodes, element by element.
    pub open spec fn model_seq(s: Seq<Expression>) -> Seq<ExprV>
        decreases s,
    {
        if s.len() == 0 {
            Seq::empty()
        } else {
            Self::model_seq(s.subrange(0, s.len() - 1)).push(s[s.len() - 1].model())
        }
    }
}

impl Type {
    /// A copy of the annotation.
    pub fn copy(&self) -> (r: Type)
        ensures
            r == *self,
        decreases self,
    {
        match self {
            Type::Unspecified => Type::Unspecified,
            Type::i32 => Type::i32,
            Type::i64 => Type::i64,
            Type::String => Type::String,
            Type::Bool => Type::Bool,
            Type::List(inner) => Type::List(Box::new(inner.copy())),
        }
    }

    /// Whether two annotations are the same.
    pub fn same(&self, other: &Type) -> (r: bool)
        ensures
            r == (*self == *other),
        decreases self,
    {
        match (self, other) {
            (Type::Unspecified, Type::Unspecified) => true,
            (Type::i32, Type::i32) => true,
            (Type::i64, Type::i64) => true,
            (Type::String, Type::String) => true,
            (Type::Bool, Type::Bool) => true,
            (Type::List(a), Type::List(b)) => a.same(b),
            _ => false,
        }
    }
}

impl Clone for Type {
    fn clone(&self) -> (r: Type)
        ensures
            r == *self,
    {
        self.copy()
    }
}

impl Expression {
    /// A copy of a sequence of nodes.
    pub fn copy_vec(v: &Vec<Expression>) -> (r: Vec<Expression>)
        ensures
            Expression::model_seq(r@) == Expression::model_seq(v@),
            r@.len() == v@.len(),
        decreases v@,
    {
        let mut out: Vec<Expression> = Vec::new();
        let mut i: usize = 0;
        while i < v.len()
            invariant
                i <= v.len(),
                out@.len() == i,
                Expression::model_seq(out@) == Expression::model_seq(v@.subrange(0, i as int)),
            decreases v.len() - i,
        {
            assert(decreases_to!(v@ => v@[i as int]));
            let e = v[i].copy();
            let ghost prev = out@;
            out.push(e);
            assert(out@.subrange(0, out@.len() - 1) == prev);
            let ghost vs = v@.subrange(0, i as int + 1);
            assert(vs.subrange(0, vs.len() - 1) == v@.subrange(0, i as int));
            assert(Expression::model_seq(vs) == Expression::model_seq(v@.subrange(0, i as int)).push(v@[i as int].model()));
            i = i + 1;
        }
        assert(v@.subrange(0, v@.len() as int) == v@);
        out
    }

    /// A copy of the node.
    pub fn copy(&self) -> (r: Expression)
        ensures
            r@ == self@,
        decreases self,
    {
        match self {
            Expression::Number(n) => Expression::Number(*n),
            Expression::Number64(n) => Expression::Number64(*n),
            Expression::String(s) => Expression::String(s.clone()),
            Expression::Bool(b) => Expression::Bool(*b),
            Expression::Nil => Expression::Nil,
            Expression::List(v) => Expression::List(Self::copy_vec(v)),
            Expression::ListIndex(l, i) => Expression::ListIndex(Box::new(l.copy()), Box::new(i.copy())),
            Expression::ListAssign(n, i, v) => Expression::ListAssign(
                n.clone(),
                Box::new(i.copy()),
                Box::new(v.copy()),
            ),
            Expression::Variable(n) => Expression::Variable(n.clone()),
            Expression::Binary(l, op, r) => Expression::Binary(
                Box::new(l.copy()),
                op.clone(),
                Box::new(r.copy()),
            ),
            Expression::Grouping(e) => Expression::Grouping(Box::new(e.copy())),
            Expression::LetStmt(n, t, v) => Expression::LetStmt(n.clone(), t.copy(), Box::new(v.copy())),
            Expression::BlockStmt(v) => Expression::BlockStmt(Self::copy_vec(v)),
            Expression::FuncArg(n, t) => Expression::FuncArg(n.clone(), t.copy()),
            Expression::FuncStmt(n, args, t, body) => Expression::FuncStmt(
                n.clone(),
                Self::copy_vec(args),
                t.copy(),
                Box::new(body.copy()),
            ),
            Expression::CallStmt(n, args) => Expression::CallStmt(n.clone(), Self::copy_vec(args)),
            Expression::IfStmt(c, t, e) => {
                let els = match &**e {
                    Some(x) => Some(x.copy()),
                    None => None,
                };
                Expression::IfStmt(Box::new(c.copy()), Box::new(t.copy()), Box::new(els))
            },
            Expression::WhileStmt(c, b) => Expression::WhileStmt(Box::new(c.copy()), Box::new(b.copy())),
            Expression::ReturnStmt(v) => Expression::ReturnStmt(Box::new(v.copy())),
            Expression::ForStmt(n, s, e, st, b) => Expression::ForStmt(
                n.clone(),
                *s,
                *e,
                *st,
                Box::new(b.copy()),
            ),
            Expression::Print(v) => Expression::Print(Box::new(v.copy())),
            Expression::Len(v) => Expression::Len(Box::new(v.copy())),
            Expression::BreakStmt => Expression::BreakStmt,
        }
    }
}

impl Expression {
    pub fn new_number(n: i32) -> (r: Self)
        ensures
            r@ == ExprV::Number(n),
    {
        Self::Number(n)
    }

    pub fn new_number64(n: i64) -> (r: Self)
        ensures
            r@ == ExprV::Number64(n),
    {
        Self::Number64(n)
    }

    pub fn new_string(s: String) -> (r: Self)
        ensures
            r@ == ExprV::Str(s@),
    {
        Self::String(s)
    }

    pub fn new_binary(left: Expression, op: String, right: Expression) -> (r: Self)
        ensures
            r@ == ExprV::Binary(Box::new(left@), op@, Box::new(right@)),
    {
        Self::Binary(Box::new(left), op, Box::new(right))
    }

    pub fn new_bool(b: bool) -> (r: Self)
        ensures
            r@ == ExprV::Bool(b),
    {
        Self::Bool(b)
    }

    pub fn new_list(list: Vec<Expression>) -> (r: Self)
        ensures
            r@ == ExprV::List(Expression::model_seq(list@)),
    {
        Self::List(list)
    }

    pub fn new_list_index(list: Expression, index: Expression) -> (r: Self)
        ensures
            r@ == ExprV::ListIndex(Box::new(list@), Box::new(index@)),
    {
        Self::ListIndex(Box::new(list), Box::new(index))
    }

    pub fn new_list_assign(var: String, index: Expression, value: Expression) -> (r: Self)
        ensures
            r@ == ExprV::ListAssign(var@, Box::new(index@), Box::new(value@)),
    {
        Self::ListAssign(var, Box::new(index), Box::new(value))
    }

    pub fn new_nil() -> (r: Self)
        ensures
            r@ == ExprV::Nil,
    {
        Self::Nil
    }

    pub fn new_variable(name: String) -> (r: Self)
        ensures
            r@ == ExprV::Variable(name@),
    {
        Self::Variable(name)
    }

    pub fn new_let_stmt(name: String, let_type: Type, value: Expression) -> (r: Self)
        ensures
            r@ == ExprV::LetStmt(name@, let_type, Box::new(value@)),
    {
        Self::LetStmt(name, let_type, Box::new(value))
    }

    pub fn new_block_stmt(exprs: Vec<Expression>) -> (r: Self)
        ensures
            r@ == ExprV::BlockStmt(Expression::model_seq(exprs@)),
    {
        Self::BlockStmt(exprs)
    }

    pub fn new_if_stmt(
        condition: Expression,
        if_block_expr: Expression,
        else_block_expr: Option<Expression>,
    ) -> (r: Self)
        ensures
            r@ == ExprV::IfStmt(
                Box::new(condition@),
                Box::new(if_block_expr@),
                match else_block_expr {
                    Some(e) => Some(Box::new(e@)),
                    None => None,
                },
            ),
    {
        Self::IfStmt(Box::new(condition), Box::new(if_block_expr), Box::new(else_block_expr))
    }

    pub fn new_while_stmt(condition: Expression, while_block_expr: Expression) -> (r: Self)
        ensures
            r@ == ExprV::WhileStmt(Box::new(condition@), Box::new(while_block_expr@)),
    {
        Self::WhileStmt(Box::new(condition), Box::new(while_block_expr))
    }

    pub fn new_for_stmt(
        var_name: String,
        start: i32,
        end: i32,
        step: i32,
        for_block_expr: Expression,
    ) -> (r: Self)
        ensures
            r@ == ExprV::ForStmt(var_name@, start, end, step, Box::new(for_block_expr@)),
    {
        Self::ForStmt(var_name, start, end, step, Box::new(for_block_expr))
    }

    pub fn new_func_stmt(name: String, args: Vec<Expression>, return_type: Type, body: Expression) -> (r: Self)
        ensures
            r@ == ExprV::FuncStmt(name@, Expression::model_seq(args@), return_type, Box::new(body@)),
    {
        Self::FuncStmt(name, args, return_type, Box::new(body))
    }

    pub fn new_func_arg(name: String, arg_type: Type) -> (r: Self)
        ensures
            r@ == ExprV::FuncArg(name@, arg_type),
    {
        Self::FuncArg(name, arg_type)
    }

    pub fn new_call_stmt(name: String, args: Vec<Expression>) -> (r: Self)
        ensures
            r@ == ExprV::CallStmt(name@, Expression::model_seq(args@)),
    {
        Self::CallStmt(name, args)
    }

    pub fn new_print_stmt(value: Expression) -> (r: Self)
        ensures
            r@ == ExprV::Print(Box::new(value@)),
    {
        Self::Print(Box::new(value))
    }

    pub fn new_return_stmt(value: Expression) -> (r: Self)
        ensures
            r@ == ExprV::ReturnStmt(Box::new(value@)),
    {
        Self::ReturnStmt(Box::new(value))
    }
}

impl Clone for Expression {
    fn clone(&self) -> (r: Expression)
        ensures
            r@ == self@,
    {
        self.copy()
    }
}

impl View for Expression {
    type V = ExprV;

    open spec fn view(&self) -> ExprV {
        self.model()
    }
}

/// `model_seq` keeps the length and maps element by element.
pub proof fn lemma_expr_model_seq(s: Seq<Expression>)
    ensures
        Expression::model_seq(s).len() == s.len(),
        forall|i: int| 0 <= i < s.len() ==> #[trigger] Expression::model_seq(s)[i] == s[i].model(),
    decreases s.len(),
{
    if s.len() > 0 {
        lemma_expr_model_seq(s.subrange(0, s.len() - 1));
    }
}

} // verus!

//! Semantic checks run on the typed program: whole-program validation rules
//! and a walk over every node.
use vstd::prelude::*;
use crate::typed_ast::{ResolvedType, RType, TypedExpression, TExpr};
use crate::text::{owned, chars_of, chars_eq, string_of};
use crate::display::push_lit;

verus! {

/// The model of a typed program: each top-level node with its type.
pub open spec fn program_model(p: Seq<(TypedExpression, ResolvedType)>) -> Seq<(TExpr, RType)> {
    Seq::new(p.len(), |i: int| (p[i].0@, p[i].1@))
}

/// Whether a node is a function definition named `main`.
pub open spec fn is_main_function(e: TExpr) -> bool {
    match e {
        TExpr::FuncStmt(n, _, _, _) => n == seq!['m', 'a', 'i', 'n'],
        _ => false,
    }
}

/// Whether some top-level node of the program defines `main`.
pub open spec fn has_main(program: Seq<(TExpr, RType)>) -> bool {
    exists|i: int| 0 <= i < program.len() && is_main_function(#[trigger] program[i].0)
}

/// A rule that a whole program must satisfy.
pub trait ValidationRule {
    /// Whether the rule accepts the program.
    spec fn accepts(&self, program: Seq<(TExpr, RType)>) -> bool;

    /// The rule's name.
    spec fn spec_name(&self) -> Seq<char>;

    /// Why the rule refuses the program.
    spec fn refusal(&self, program: Seq<(TExpr, RType)>) -> Seq<char>;

    /// The rule's name.
    fn name(&self) -> (r: String)
        ensures
            r@ == self.spec_name(),
    ;

    /// Checks the program; the error is the reason for refusing it.
    fn validate(&self, program: &[(TypedExpression, ResolvedType)]) -> (r: Result<(), String>)
        ensures
            r is Ok <==> self.accepts(program_model(program@)),
            r matches Err(m) ==> m@ == self.refusal(program_model(program@)),
    ;
}

/// Rule: the program must define a function named `main`, its entry point.
pub struct RequireMainFunction;

impl ValidationRule for RequireMainFunction {
    open spec fn accepts(&self, program: Seq<(TExpr, RType)>) -> bool {
        has_main(program)
    }

    open spec fn spec_name(&self) -> Seq<char> {
        "require-main-function"@
    }

    open spec fn refusal(&self, program: Seq<(TExpr, RType)>) -> Seq<char> {
        "Program must contain a 'main' function as the entry point"@
    }

    fn name(&self) -> (r: String) {
        owned("require-main-function")
    }

    fn validate(&self, program: &[(TypedExpression, ResolvedType)]) -> (r: Result<(), String>) {
        proof {
            reveal_strlit("main");
            assert("main"@ =~= seq!['m', 'a', 'i', 'n']);
        }
        let main_name = chars_of("main");
        let ghost pm = program_model(program@);
        let mut i: usize = 0;
        while i < program.len()
            invariant
                i <= program@.len(),
                pm == program_model(program@),
                main_name@ == seq!['m', 'a', 'i', 'n'],
                forall|k: int| 0 <= k < i ==> !is_main_function(#[trigger] pm[k].0),
            decreases program@.len() - i,
        {
            match &program[i].0 {
                TypedExpression::FuncStmt { name, .. } => {
                    let n = chars_of(name.as_str());
                    if chars_eq(&n, &main_name) {
                        assert(is_main_function(pm[i as int].0));
                        return Ok(());
                    }
                },
                _ => {},
            }
            i = i + 1;
        }
        Err(owned("Program must contain a 'main' function as the entry point"))
    }
}

/// The rules that the analyzer knows.
pub enum BuiltinRule {
    RequireMainFunction(RequireMainFunction),
}

impl ValidationRule for BuiltinRule {
    open spec fn accepts(&self, program: Seq<(TExpr, RType)>) -> bool {
        match self {
            BuiltinRule::RequireMainFunction(r) => r.accepts(program),
        }
    }

    open spec fn spec_name(&self) -> Seq<char> {
        match self {
            BuiltinRule::RequireMainFunction(r) => r.spec_name(),
        }
    }

    open spec fn refusal(&self, program: Seq<(TExpr, RType)>) -> Seq<char> {
        match self {
            BuiltinRule::RequireMainFunction(r) => r.refusal(program),
        }
    }

    fn name(&self) -> (r: String) {
        match self {
            BuiltinRule::RequireMainFunction(r) => r.name(),
        }
    }

    fn validate(&self, program: &[(TypedExpression, ResolvedType)]) -> (r: Result<(), String>) {
        match self {
            BuiltinRule::RequireMainFunction(r) => r.validate(program),
        }
    }
}

/// Why the analyzer refused a program.
#[derive(Debug)]
pub enum SemanticError {
    /// A validation rule refused the program: the rule's name and its reason.
    RuleFailed { rule: String, reason: String },
}

/// The message of an error, as it reads when printed: the rule that
/// refused the program (the reason is kept in the error beside it).
pub open spec fn semantic_error_text(rule: Seq<char>) -> Seq<char> {
    "Validation rule '"@ + rule + "' failed"@
}

impl SemanticError {
    /// The error's message.
    pub fn message(&self) -> (r: String)
        ensures
            match self {
                SemanticError::RuleFailed { rule, .. } => r@ == semantic_error_text(rule@),
            },
    {
        let mut out: Vec<char> = Vec::new();
        match self {
            SemanticError::RuleFailed { rule, .. } => {
                push_lit(&mut out, "Validation rule '");
                push_lit(&mut out, rule.as_str());
                push_lit(&mut out, "' failed");
            },
        }
        string_of(&out)
    }
}

/// Runs the validation rules and walks the typed program.
pub struct SemanticAnalyzer {
    validation_rules: Vec<BuiltinRule>,
}

impl SemanticAnalyzer {
    /// The rules, in the order in which they run.
    pub closed spec fn rules(self) -> Seq<BuiltinRule> {
        self.validation_rules@
    }

    /// Whether every rule accepts the program.
    pub open spec fn accepts_all(self, p: Seq<(TExpr, RType)>) -> bool {
        forall|i: int| 0 <= i < self.rules().len() ==> #[trigger] self.rules()[i].accepts(p)
    }

    /// An analyzer with the default rules.
    pub fn new() -> (r: Self)
        ensures
            r.rules().len() == 1,
            r.rules()[0] is RequireMainFunction,
            forall|p: Seq<(TExpr, RType)>| #[trigger] r.accepts_all(p) == has_main(p),
    {
        Self::default_rules()
    }

    /// An analyzer whose only rule is [`RequireMainFunction`].
    pub fn default_rules() -> (r: Self)
        ensures
            r.rules().len() == 1,
            r.rules()[0] is RequireMainFunction,
            forall|p: Seq<(TExpr, RType)>| #[trigger] r.accepts_all(p) == has_main(p),
    {
        let mut v: Vec<BuiltinRule> = Vec::new();
        v.push(BuiltinRule::RequireMainFunction(RequireMainFunction));
        let r = Self { validation_rules: v };
        assert forall|p: Seq<(TExpr, RType)>| #[trigger] r.accepts_all(p) == has_main(p) by {
            if has_main(p) {
                assert forall|i: int| 0 <= i < r.rules().len() implies #[trigger] r.rules()[i].accepts(p) by {
                    assert(i == 0);
                }
            }
            if r.accepts_all(p) {
                assert(r.rules()[0].accepts(p));
            }
        }
        r
    }

    /// Runs every rule on the program, in order; the first rule that refuses
    /// it gives the error.
    pub fn validate_program(&self, typed_exprs: &[(TypedExpression, ResolvedType)]) -> (r: Result<
        (),
        SemanticError,
    >)
        ensures
            r is Ok <==> self.accepts_all(program_model(typed_exprs@)),
            match r {
                Err(SemanticError::RuleFailed { rule, reason }) => exists|i: int|
                    0 <= i < self.rules().len() && !(#[trigger] self.rules()[i]).accepts(
                        program_model(typed_exprs@),
                    ) && self.rules()[i].spec_name() == rule@ && self.rules()[i].refusal(
                        program_model(typed_exprs@),
                    ) == reason@ && forall|j: int|
                        0 <= j < i ==> (#[trigger] self.rules()[j]).accepts(program_model(typed_exprs@)),
                Ok(_) => true,
            },
    {
        let ghost pm = program_model(typed_exprs@);
        let mut i: usize = 0;
        while i < self.validation_rules.len()
            invariant
                i <= self.rules().len(),
                pm == program_model(typed_exprs@),
                forall|k: int| 0 <= k < i ==> (#[trigger] self.rules()[k]).accepts(pm),
            decreases self.rules().len() - i,
        {
            let rule = &self.validation_rules[i];
            match rule.validate(typed_exprs) {
                Ok(()) => {},
                Err(reason) => {
                    return Err(SemanticError::RuleFailed { rule: rule.name(), reason });
                },
            }
            i = i + 1;
        }
        Ok(())
    }

    /// Walks the node and everything under it. Every node is accepted.
    pub fn analyze(&mut self, typed_expr: &TypedExpression) -> (r: Result<(), SemanticError>)
        ensures
            r == Ok::<(), SemanticError>(()),
            *final(self) == *old(self),
        decreases typed_expr,
    {
        match typed_expr {
            TypedExpression::Number32 { .. } => self.analyze_number(typed_expr),
            TypedExpression::Number64 { .. } => self.analyze_number(typed_expr),
            TypedExpression::String { .. } => Ok(()),
            TypedExpression::Bool { .. } => Ok(()),
            TypedExpression::Binary { left, op, right } => self.analyse_binary(left, op, right),
            TypedExpression::CallStmt { callee, args: _ } => self.analyze_call(callee),
            TypedExpression::FuncStmt { body, .. } => self.analyze(body),
            TypedExpression::BlockStmt { statements } => self.analyze_all(statements),
            TypedExpression::Variable { .. } => Ok(()),
            TypedExpression::Print { value } => self.analyze(value),
            TypedExpression::ReturnStmt { value } => self.analyze(value),
            TypedExpression::BreakStmt => Ok(()),
            TypedExpression::LetStmt { value, .. } => self.analyze(value),
            TypedExpression::IfStmt { condition, then_branch, else_branch } => {
                self.analyze(condition)?;
                self.analyze(then_branch)?;
                if let Some(else_expr) = else_branch {
                    self.analyze(else_expr)?;
                }
                Ok(())
            },
            TypedExpression::WhileStmt { condition, body } => {
                self.analyze(condition)?;
                self.analyze(body)?;
                Ok(())
            },
            TypedExpression::AssignStmt { value, .. } => self.analyze(value),
            TypedExpression::Grouping { inner } => self.analyze(inner),
            TypedExpression::List { elements, .. } => self.analyze_all(elements),
            TypedExpression::ListIndex { list, index } => {
                self.analyze(list)?;
                self.analyze(index)?;
                Ok(())
            },
            TypedExpression::ListAssign { index, value, .. } => {
                self.analyze(index)?;
                self.analyze(value)?;
                Ok(())
            },
            TypedExpression::Len { value } => self.analyze(value),
            TypedExpression::ForStmt { body, .. } => self.analyze(body),
        }
    }

    /// Walks each node of `v`.
    fn analyze_all(&mut self, v: &Vec<TypedExpression>) -> (r: Result<(), SemanticError>)
        ensures
            r == Ok::<(), SemanticError>(()),
            *final(self) == *old(self),
        decreases v@,
    {
        let ghost start = *self;
        let mut i: usize = 0;
        while i < v.len()
            invariant
                i <= v@.len(),
                *self == start,
            decreases v@.len() - i,
        {
            assert(decreases_to!(v@ => v@[i as int]));
            self.analyze(&v[i])?;
            i = i + 1;
        }
        Ok(())
    }

    /// Checks a number literal. Every number is accepted.
    pub fn analyze_number(&mut self, typed_expr: &TypedExpression) -> (r: Result<(), SemanticError>)
        requires
            typed_expr is Number32 || typed_expr is Number64,
        ensures
            r == Ok::<(), SemanticError>(()),
            *final(self) == *old(self),
    {
        Ok(())
    }

    /// Checks a call. Every call is accepted.
    pub fn analyze_call(&mut self, _typed_expr: &TypedExpression) -> (r: Result<(), SemanticError>)
        ensures
            r == Ok::<(), SemanticError>(()),
            *final(self) == *old(self),
    {
        Ok(())
    }

    /// Checks a binary operation. Every operation is accepted.
    pub fn analyse_binary(
        &mut self,
        _left: &TypedExpression,
        _op: &String,
        _right: &TypedExpression,
    ) -> (r: Result<(), SemanticError>)
        ensures
            r == Ok::<(), SemanticError>(()),
            *final(self) == *old(self),
    {
        Ok(())
    }
}

} // verus!

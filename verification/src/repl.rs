//! The decisions of the interactive loop: which command a line of input
//! is, the source text each command hands to the compiler, and which inputs
//! are remembered for the lines that follow.
use vstd::prelude::*;
use crate::ast::{Expression, ExprV, lemma_expr_model_seq};
use crate::text::{chars_of, string_of, trim, trim_end, trim_exec, trim_end_exec, starts_with, starts_with_str, slice_of};
use crate::highlight::{strip_leading, strip_leading_exec};
use crate::display::{push_lit, push_chars};
use crate::ir_text::string_views;

verus! {

/// `s` without the run of `c` at its end (`str::trim_end_matches`).
pub open spec fn strip_trailing(s: Seq<char>, c: char) -> Seq<char>
    decreases s.len(),
{
    if s.len() > 0 && s.last() == c {
        strip_trailing(s.drop_last(), c)
    } else {
        s
    }
}

fn strip_trailing_exec(s: &Vec<char>, c: char) -> (r: Vec<char>)
    ensures
        r@ == strip_trailing(s@, c),
{
    let mut j = s.len();
    assert(s@.subrange(0, j as int) =~= s@);
    while j > 0 && s[j - 1] == c
        invariant
            j <= s@.len(),
            strip_trailing(s@, c) == strip_trailing(s@.subrange(0, j as int), c),
        decreases j,
    {
        assert(s@.subrange(0, j as int).drop_last() =~= s@.subrange(0, j - 1));
        j = j - 1;
    }
    slice_of(s, 0, j)
}

/// The argument of a REPL command: the text after the command word (every
/// leading repetition of it removed), trimmed.
pub open spec fn command_arg(cmd: Seq<char>, word: Seq<char>) -> Seq<char> {
    trim(strip_leading(cmd, word))
}

fn command_arg_exec(cmd: &str, word: &str) -> (r: Vec<char>)
    ensures
        r@ == command_arg(cmd@, word@),
{
    let c = chars_of(cmd);
    trim_exec(&strip_leading_exec(&c, word))
}

/// An expression argument without its trailing semicolons and the blanks
/// before them.
pub open spec fn statement_body(e: Seq<char>) -> Seq<char> {
    trim_end(strip_trailing(e, ';'))
}

fn statement_body_exec(e: &Vec<char>) -> (r: Vec<char>)
    ensures
        r@ == statement_body(e@),
{
    trim_end_exec(&strip_trailing_exec(e, ';'))
}

/// `:print <expression>`: the statement `print(<expression>);`.
pub open spec fn print_source(cmd: Seq<char>) -> Result<Seq<char>, Seq<char>> {
    let e = command_arg(cmd, ":print"@);
    if e.len() == 0 {
        Err("Usage: :print <expression>"@)
    } else {
        Ok("print("@ + statement_body(e) + ");"@)
    }
}

/// The source that `:print <expression>` runs, or its usage message.
pub fn wrap_print(cmd: &str) -> (r: Result<String, String>)
    ensures
        match r {
            Ok(s) => print_source(cmd@) == Ok::<Seq<char>, Seq<char>>(s@),
            Err(m) => print_source(cmd@) == Err::<Seq<char>, Seq<char>>(m@),
        },
{
    let e = command_arg_exec(cmd, ":print");
    if e.len() == 0 {
        return Err(crate::text::owned("Usage: :print <expression>"));
    }
    let mut out: Vec<char> = Vec::new();
    push_lit(&mut out, "print(");
    push_chars(&mut out, &statement_body_exec(&e));
    push_lit(&mut out, ");");
    assert(out@ =~= "print("@ + statement_body(e@) + ");"@);
    Ok(string_of(&out))
}

/// A command whose argument is run as it is (`:emit`, `:ast`, `:astd`).
pub open spec fn plain_source(cmd: Seq<char>, word: Seq<char>, usage: Seq<char>) -> Result<
    Seq<char>,
    Seq<char>,
> {
    let e = command_arg(cmd, word);
    if e.len() == 0 {
        Err(usage)
    } else {
        Ok(e)
    }
}

/// A command whose argument is run as one statement (`:opt`, `:asm`).
pub open spec fn statement_source(cmd: Seq<char>, word: Seq<char>, usage: Seq<char>) -> Result<
    Seq<char>,
    Seq<char>,
> {
    let e = command_arg(cmd, word);
    if e.len() == 0 {
        Err(usage)
    } else {
        Ok(statement_body(e) + ";"@)
    }
}

fn plain_exec(cmd: &str, word: &str, usage: &str) -> (r: Result<String, String>)
    ensures
        match r {
            Ok(s) => plain_source(cmd@, word@, usage@) == Ok::<Seq<char>, Seq<char>>(s@),
            Err(m) => plain_source(cmd@, word@, usage@) == Err::<Seq<char>, Seq<char>>(m@),
        },
{
    let e = command_arg_exec(cmd, word);
    if e.len() == 0 {
        Err(crate::text::owned(usage))
    } else {
        Ok(string_of(&e))
    }
}

fn statement_exec(cmd: &str, word: &str, usage: &str) -> (r: Result<String, String>)
    ensures
        match r {
            Ok(s) => statement_source(cmd@, word@, usage@) == Ok::<Seq<char>, Seq<char>>(s@),
            Err(m) => statement_source(cmd@, word@, usage@) == Err::<Seq<char>, Seq<char>>(m@),
        },
{
    let e = command_arg_exec(cmd, word);
    if e.len() == 0 {
        return Err(crate::text::owned(usage));
    }
    let mut out = statement_body_exec(&e);
    push_lit(&mut out, ";");
    Ok(string_of(&out))
}

/// The source that `:emit <statement>` compiles, or its usage message.
pub fn wrap_emit(cmd: &str) -> (r: Result<String, String>)
    ensures
        match r {
            Ok(s) => plain_source(cmd@, ":emit"@, "Usage: :emit <statement>"@) == Ok::<
                Seq<char>,
                Seq<char>,
            >(s@),
            Err(m) => plain_source(cmd@, ":emit"@, "Usage: :emit <statement>"@) == Err::<
                Seq<char>,
                Seq<char>,
            >(m@),
        },
{
    plain_exec(cmd, ":emit", "Usage: :emit <statement>")
}

/// The source that `:opt <statement>` compiles, or its usage message.
pub fn wrap_opt(cmd: &str) -> (r: Result<String, String>)
    ensures
        match r {
            Ok(s) => statement_source(cmd@, ":opt"@, "Usage: :opt <statement>"@) == Ok::<
                Seq<char>,
                Seq<char>,
            >(s@),
            Err(m) => statement_source(cmd@, ":opt"@, "Usage: :opt <statement>"@) == Err::<
                Seq<char>,
                Seq<char>,
            >(m@),
        },
{
    statement_exec(cmd, ":opt", "Usage: :opt <statement>")
}

/// The source that `:asm <statement>` compiles, or its usage message.
pub fn wrap_asm(cmd: &str) -> (r: Result<String, String>)
    ensures
        match r {
            Ok(s) => statement_source(cmd@, ":asm"@, "Usage: :asm <statement>"@) == Ok::<
                Seq<char>,
                Seq<char>,
            >(s@),
            Err(m) => statement_source(cmd@, ":asm"@, "Usage: :asm <statement>"@) == Err::<
                Seq<char>,
                Seq<char>,
            >(m@),
        },
{
    statement_exec(cmd, ":asm", "Usage: :asm <statement>")
}

/// The source that `:ast <statement>` draws, or its usage message.
pub fn wrap_ast(cmd: &str) -> (r: Result<String, String>)
    ensures
        match r {
            Ok(s) => plain_source(cmd@, ":ast"@, "Usage: :ast <statement>"@) == Ok::<
                Seq<char>,
                Seq<char>,
            >(s@),
            Err(m) => plain_source(cmd@, ":ast"@, "Usage: :ast <statement>"@) == Err::<
                Seq<char>,
                Seq<char>,
            >(m@),
        },
{
    plain_exec(cmd, ":ast", "Usage: :ast <statement>")
}

/// The source that `:astd <statement>` draws after desugaring, or its usage
/// message.
pub fn wrap_astd(cmd: &str) -> (r: Result<String, String>)
    ensures
        match r {
            Ok(s) => plain_source(cmd@, ":astd"@, "Usage: :astd <statement>"@) == Ok::<
                Seq<char>,
                Seq<char>,
            >(s@),
            Err(m) => plain_source(cmd@, ":astd"@, "Usage: :astd <statement>"@) == Err::<
                Seq<char>,
                Seq<char>,
            >(m@),
        },
{
    plain_exec(cmd, ":astd", "Usage: :astd <statement>")
}

/// The path that `:load <path>` reads, or its usage message.
pub fn load_path(cmd: &str) -> (r: Result<String, String>)
    ensures
        match r {
            Ok(s) => plain_source(cmd@, ":load"@, "Usage: :load <path>"@) == Ok::<
                Seq<char>,
                Seq<char>,
            >(s@),
            Err(m) => plain_source(cmd@, ":load"@, "Usage: :load <path>"@) == Err::<
                Seq<char>,
                Seq<char>,
            >(m@),
        },
{
    plain_exec(cmd, ":load", "Usage: :load <path>")
}


/// The kinds of REPL input.
#[derive(Debug, Clone, Copy, PartialEq, Eq, Structural)]
pub enum CommandKind {
    /// `exit()`: leave the REPL.
    Exit,
    /// A blank line: nothing to do.
    Empty,
    /// `:load <path>`: run a file.
    Load,
    /// `:print <expression>`: print a value.
    Print,
    /// `:emit <statement>`: show the LLVM IR.
    Emit,
    /// `:opt <statement>`: show the optimised LLVM IR.
    Opt,
    /// `:asm <statement>`: show the assembly.
    Asm,
    /// `:ast <statement>`: draw the syntax tree.
    Ast,
    /// `:astd <statement>`: draw the desugared syntax tree.
    AstDesugar,
    /// Anything else: run it as code.
    Eval,
}

/// A classified line of REPL input: its kind and the text the command
/// works on.
pub struct ReplCommand {
    pub kind: CommandKind,
    pub text: String,
}

/// The input without the prompt that a line pasted from the history
/// starts with.
pub open spec fn cleaned_input(input: Seq<char>) -> Seq<char> {
    if starts_with(input, ">>\n"@) {
        strip_leading(input, ">>\n"@)
    } else if starts_with(input, ">> "@) {
        strip_leading(input, ">> "@)
    } else {
        input
    }
}

/// The kind of a line of input, by its trimmed text.
pub open spec fn command_kind(input: Seq<char>) -> CommandKind {
    let t = trim(cleaned_input(input));
    if t == "exit()"@ {
        CommandKind::Exit
    } else if t.len() == 0 {
        CommandKind::Empty
    } else if starts_with(t, ":load "@) {
        CommandKind::Load
    } else if starts_with(t, ":print "@) {
        CommandKind::Print
    } else if starts_with(t, ":emit"@) {
        CommandKind::Emit
    } else if starts_with(t, ":opt"@) {
        CommandKind::Opt
    } else if starts_with(t, ":asm"@) {
        CommandKind::Asm
    } else if starts_with(t, ":ast"@) && !starts_with(t, ":astd"@) {
        CommandKind::Ast
    } else if starts_with(t, ":astd"@) {
        CommandKind::AstDesugar
    } else {
        CommandKind::Eval
    }
}

/// The text a command works on: the trimmed input for the commands, the
/// input as typed (prompt removed) for code.
pub open spec fn command_text(input: Seq<char>) -> Seq<char> {
    if command_kind(input) == CommandKind::Eval {
        cleaned_input(input)
    } else {
        trim(cleaned_input(input))
    }
}

/// Classifies a line of REPL input (see [`command_kind`] and
/// [`command_text`]).
pub fn classify_input(input: &str) -> (r: ReplCommand)
    ensures
        r.kind == command_kind(input@),
        r.text@ == command_text(input@),
{
    let raw = chars_of(input);
    let cleaned = if starts_with_str(&raw, ">>\n") {
        strip_leading_exec(&raw, ">>\n")
    } else if starts_with_str(&raw, ">> ") {
        strip_leading_exec(&raw, ">> ")
    } else {
        raw
    };
    let t = trim_exec(&cleaned);
    let kind = if crate::lexer::is_word(&t, "exit()") {
        CommandKind::Exit
    } else if t.len() == 0 {
        CommandKind::Empty
    } else if starts_with_str(&t, ":load ") {
        CommandKind::Load
    } else if starts_with_str(&t, ":print ") {
        CommandKind::Print
    } else if starts_with_str(&t, ":emit") {
        CommandKind::Emit
    } else if starts_with_str(&t, ":opt") {
        CommandKind::Opt
    } else if starts_with_str(&t, ":asm") {
        CommandKind::Asm
    } else if starts_with_str(&t, ":ast") && !starts_with_str(&t, ":astd") {
        CommandKind::Ast
    } else if starts_with_str(&t, ":astd") {
        CommandKind::AstDesugar
    } else {
        CommandKind::Eval
    };
    let text = if kind == CommandKind::Eval {
        string_of(&cleaned)
    } else {
        string_of(&t)
    };
    ReplCommand { kind, text }
}

/// The remembered inputs, each followed by a line break.
pub open spec fn lines_joined(ps: Seq<Seq<char>>) -> Seq<char>
    decreases ps.len(),
{
    if ps.len() == 0 {
        Seq::empty()
    } else {
        lines_joined(ps.drop_last()) + ps.last() + "\n"@
    }
}

/// The program the REPL compiles for an input: a `main` function whose
/// body is the remembered inputs and then the input.
pub open spec fn program_source(ps: Seq<Seq<char>>, input: Seq<char>) -> Seq<char> {
    "fn main() { "@ + lines_joined(ps) + input + " }"@
}

/// The program the REPL compiles for `input` (see [`program_source`]).
pub fn repl_program(persisted: &Vec<String>, input: &str) -> (r: String)
    ensures
        r@ == program_source(string_views(persisted@), input@),
{
    let ghost ps = string_views(persisted@);
    let mut out: Vec<char> = Vec::new();
    push_lit(&mut out, "fn main() { ");
    let mut i: usize = 0;
    assert(ps.subrange(0, 0) =~= Seq::<Seq<char>>::empty());
    while i < persisted.len()
        invariant
            i <= persisted@.len(),
            ps == string_views(persisted@),
            out@ == "fn main() { "@ + lines_joined(ps.subrange(0, i as int)),
        decreases persisted@.len() - i,
    {
        assert(ps.subrange(0, i as int + 1).drop_last() =~= ps.subrange(0, i as int));
        assert(ps[i as int] == persisted@[i as int]@);
        push_lit(&mut out, persisted[i].as_str());
        push_lit(&mut out, "\n");
        i = i + 1;
    }
    assert(ps.subrange(0, ps.len() as int) =~= ps);
    push_lit(&mut out, input);
    push_lit(&mut out, " }");
    assert(out@ =~= program_source(ps, input@));
    string_of(&out)
}

/// Whether a statement defines something that later inputs can use: a
/// variable, a function or a list element.
pub open spec fn defines(e: ExprV) -> bool {
    e is LetStmt || e is FuncStmt || e is ListAssign
}

/// How many of the statements define something.
pub open spec fn defining_count(es: Seq<ExprV>) -> nat
    decreases es.len(),
{
    if es.len() == 0 {
        0
    } else {
        defining_count(es.drop_last()) + if defines(es.last()) {
            1nat
        } else {
            0nat
        }
    }
}

/// After an input compiled, remembers it once for each of its statements
/// that defines something, so that later inputs see the definitions.
pub fn record_input(persisted: &mut Vec<String>, input: &String, exprs: &Vec<Expression>)
    ensures
        string_views(final(persisted)@) == string_views(old(persisted)@) + Seq::new(
            defining_count(Expression::model_seq(exprs@)),
            |k: int| input@,
        ),
{
    let ghost m = Expression::model_seq(exprs@);
    let ghost start = string_views(persisted@);
    proof {
        lemma_expr_model_seq(exprs@);
    }
    let mut i: usize = 0;
    assert(start + Seq::new(defining_count(m.subrange(0, 0)), |k: int| input@) =~= start);
    while i < exprs.len()
        invariant
            i <= exprs@.len(),
            m == Expression::model_seq(exprs@),
            m.len() == exprs@.len(),
            forall|k: int| 0 <= k < exprs@.len() ==> #[trigger] m[k] == exprs@[k]@,
            string_views(persisted@) == start + Seq::new(
                defining_count(m.subrange(0, i as int)),
                |k: int| input@,
            ),
        decreases exprs@.len() - i,
    {
        assert(m.subrange(0, i as int + 1).drop_last() =~= m.subrange(0, i as int));
        assert(m[i as int] == exprs@[i as int]@);
        let d = match &exprs[i] {
            Expression::LetStmt(_, _, _) => true,
            Expression::FuncStmt(_, _, _, _) => true,
            Expression::ListAssign(_, _, _) => true,
            _ => false,
        };
        if d {
            let ghost before = persisted@;
            persisted.push(input.clone());
            assert(string_views(persisted@) =~= string_views(before).push(input@));
        }
        assert(string_views(persisted@) =~= start + Seq::new(
            defining_count(m.subrange(0, i as int + 1)),
            |k: int| input@,
        ));
        i = i + 1;
    }
    assert(m.subrange(0, m.len() as int) =~= m);
}

} // verus!

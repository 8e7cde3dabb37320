//! Reading function definitions out of the text of an LLVM module, and the
//! `main` function out of assembly text, for display in the REPL.
use vstd::prelude::*;
use crate::text::{
    line_text, next_line, lemma_line_end, read_line, trim_start, starts_with, contains,
    count_char, lemma_count_char_le, trim_start_exec, starts_with_str, contains_exec,
    contains_str, count_char_exec, chars_of, string_of, slice_of,
};

verus! {

/// Whether a line opens the definition of the function that `needle`
/// (`@name`) names: after its indentation it starts with `define ` and
/// holds the needle.
pub open spec fn opens_def(line: Seq<char>, needle: Seq<char>) -> bool {
    starts_with(trim_start(line), "define "@) && contains(trim_start(line), needle)
}

/// How much a line raises the brace depth.
pub open spec fn brace_delta(line: Seq<char>) -> int {
    count_char(line, '{') - count_char(line, '}')
}

/// Scans the lines from index `i`: before the definition is found
/// (`!in_fn`), looks for the line that opens it; then collects lines into
/// `buf` until the braces close.
pub open spec fn def_from(
    s: Seq<char>,
    needle: Seq<char>,
    i: int,
    in_fn: bool,
    buf: Seq<char>,
    depth: int,
) -> Option<Seq<char>>
    decreases s.len() - i,
{
    if !(0 <= i < s.len()) {
        None
    } else {
        let line = line_text(s, i);
        let next = next_line(s, i);
        let b = buf + line.push('\n');
        let d = depth + brace_delta(line);
        proof {
            lemma_line_end(s, i);
        }
        if !in_fn {
            if opens_def(line, needle) {
                if d <= 0 && count_char(line, '}') > 0 {
                    Some(b)
                } else {
                    def_from(s, needle, next, true, b, d)
                }
            } else {
                def_from(s, needle, next, false, buf, depth)
            }
        } else if d <= 0 {
            Some(b)
        } else {
            def_from(s, needle, next, true, b, d)
        }
    }
}

/// The lines of the first definition that `needle` names, each ending in
/// `\n`, from its `define` line to the line that closes its braces; none
/// when there is no such definition or its braces never close.
pub open spec fn function_def(s: Seq<char>, needle: Seq<char>) -> Option<Seq<char>> {
    def_from(s, needle, 0, false, Seq::empty(), 0)
}

/// The definition of the function `name` in the module text `s`.
pub open spec fn named_def(s: Seq<char>, name: Seq<char>) -> Option<Seq<char>> {
    function_def(s, seq!['@'] + name)
}

/// The lines of `s` from the one that starts at `i` up to index `b`, each
/// followed by `\n`.
pub open spec fn lines_between(s: Seq<char>, i: int, b: int) -> Seq<char>
    decreases s.len() - i,
{
    if !(0 <= i < s.len()) || i >= b {
        Seq::empty()
    } else {
        proof {
            lemma_line_end(s, i);
        }
        line_text(s, i).push('\n') + lines_between(s, next_line(s, i), b)
    }
}

/// The start of the first line, from the one at `i` on, that opens the
/// definition that `needle` names.
pub open spec fn first_def_line(s: Seq<char>, needle: Seq<char>, i: int) -> Option<int>
    decreases s.len() - i,
{
    if !(0 <= i < s.len()) {
        None
    } else if opens_def(line_text(s, i), needle) {
        Some(i)
    } else {
        proof {
            lemma_line_end(s, i);
        }
        first_def_line(s, needle, next_line(s, i))
    }
}

proof fn lemma_def_body(s: Seq<char>, needle: Seq<char>, i: int, buf: Seq<char>, depth: int)
    requires
        0 <= i,
    ensures
        def_from(s, needle, i, true, buf, depth) matches Some(d) ==> exists|b: int|
            i < b <= s.len() && d == buf + #[trigger] lines_between(s, i, b),
    decreases s.len() - i,
{
    if 0 <= i < s.len() {
        lemma_line_end(s, i);
        let line = line_text(s, i);
        let next = next_line(s, i);
        let b1 = buf + line.push('\n');
        let d1 = depth + brace_delta(line);
        assert(lines_between(s, next, next) == Seq::<char>::empty());
        if d1 <= 0 {
            assert(lines_between(s, i, next) == line.push('\n') + lines_between(s, next, next));
            assert(b1 == buf + lines_between(s, i, next));
        } else {
            lemma_def_body(s, needle, next, b1, d1);
            if let Some(dd) = def_from(s, needle, next, true, b1, d1) {
                let b = choose|b: int| next < b <= s.len() && dd == b1 + #[trigger] lines_between(s, next, b);
                assert(lines_between(s, i, b) == line.push('\n') + lines_between(s, next, b));
                assert(dd == buf + lines_between(s, i, b));
            }
        }
    }
}

proof fn lemma_def_scan(s: Seq<char>, needle: Seq<char>, i: int, buf: Seq<char>, depth: int)
    requires
        0 <= i,
    ensures
        def_from(s, needle, i, false, buf, depth) is Some ==> first_def_line(s, needle, i) is Some
            && exists|b: int|
            first_def_line(s, needle, i)->0 < b <= s.len() && def_from(s, needle, i, false, buf, depth)->0
                == buf + #[trigger] lines_between(s, first_def_line(s, needle, i)->0, b),
        first_def_line(s, needle, i) is None ==> def_from(s, needle, i, false, buf, depth) is None,
    decreases s.len() - i,
{
    if 0 <= i < s.len() {
        lemma_line_end(s, i);
        let line = line_text(s, i);
        let next = next_line(s, i);
        let b1 = buf + line.push('\n');
        let d1 = depth + brace_delta(line);
        if opens_def(line, needle) {
            assert(first_def_line(s, needle, i) == Some(i));
            assert(lines_between(s, next, next) == Seq::<char>::empty());
            if d1 <= 0 && count_char(line, '}') > 0 {
                assert(lines_between(s, i, next) == line.push('\n') + lines_between(s, next, next));
                assert(def_from(s, needle, i, false, buf, depth)->0 == buf + lines_between(s, first_def_line(s, needle, i)->0, next));
            } else {
                lemma_def_body(s, needle, next, b1, d1);
                if let Some(dd) = def_from(s, needle, next, true, b1, d1) {
                    let b = choose|b: int| next < b <= s.len() && dd == b1 + #[trigger] lines_between(s, next, b);
                    assert(lines_between(s, i, b) == line.push('\n') + lines_between(s, next, b));
                    assert(def_from(s, needle, i, false, buf, depth)->0 == buf + lines_between(s, first_def_line(s, needle, i)->0, b));
                }
            }
        } else {
            lemma_def_scan(s, needle, next, buf, depth);
            assert(first_def_line(s, needle, i) == first_def_line(s, needle, next));
            assert(def_from(s, needle, i, false, buf, depth) == def_from(s, needle, next, false, buf, depth));
        }
    }
}

/// A definition that is found is a run of whole, consecutive lines of the
/// module text, each followed by `\n`, that starts at the first line
/// opening a definition of `name`; with no such line there is none.
pub proof fn law_found_definition_is_lines(s: Seq<char>, name: Seq<char>)
    ensures
        named_def(s, name) matches Some(d) ==> (first_def_line(s, seq!['@'] + name, 0) matches Some(a)
            && exists|b: int| a < b <= s.len() && d == #[trigger] lines_between(s, a, b)),
        first_def_line(s, seq!['@'] + name, 0) is None ==> named_def(s, name) is None,
{
    lemma_def_scan(s, seq!['@'] + name, 0, Seq::empty(), 0);
    if let Some(d) = named_def(s, name) {
        if let Some(a) = first_def_line(s, seq!['@'] + name, 0) {
            let b = choose|b: int| a < b <= s.len() && d == Seq::<char>::empty() + #[trigger] lines_between(s, a, b);
            assert(Seq::<char>::empty() + lines_between(s, a, b) == lines_between(s, a, b));
        }
    }
}

fn def_scan(s: &Vec<char>, needle: &Vec<char>) -> (r: Option<String>)
    ensures
        match r {
            Some(d) => function_def(s@, needle@) == Some(d@),
            None => function_def(s@, needle@) is None,
        },
{
    let mut buf: Vec<char> = Vec::new();
    let mut in_fn = false;
    let mut depth: i128 = 0;
    let mut i: usize = 0;
    while i < s.len()
        invariant
            i <= s@.len(),
            -(i as int) <= depth <= i,
            function_def(s@, needle@) == def_from(s@, needle@, i as int, in_fn, buf@, depth as int),
        decreases s@.len() - i,
    {
        let (line, next) = read_line(s, i);
        proof {
            lemma_line_end(s@, i as int);
            lemma_count_char_le(line@, '{');
            lemma_count_char_le(line@, '}');
        }
        let opens = count_char_exec(&line, '{');
        let closes = count_char_exec(&line, '}');
        let d = depth + opens as i128 - closes as i128;
        if !in_fn {
            let t = trim_start_exec(&line);
            if starts_with_str(&t, "define ") && contains_exec(&t, needle) {
                let ghost b0 = buf@;
                buf.append(&mut slice_of(&line, 0, line.len()));
                buf.push('\n');
                assert(buf@ =~= b0 + line@.push('\n'));
                if d <= 0 && closes > 0 {
                    return Some(string_of(&buf));
                }
                in_fn = true;
                depth = d;
            }
        } else {
            let ghost b0 = buf@;
            buf.append(&mut slice_of(&line, 0, line.len()));
            buf.push('\n');
            assert(buf@ =~= b0 + line@.push('\n'));
            if d <= 0 {
                return Some(string_of(&buf));
            }
            depth = d;
        }
        i = next;
    }
    None
}

/// The definition of the function `name` in the LLVM module text
/// `module_ir` (see [`named_def`]).
pub fn extract_function_def(module_ir: &str, name: &str) -> (r: Option<String>)
    ensures
        match r {
            Some(d) => named_def(module_ir@, name@) == Some(d@),
            None => named_def(module_ir@, name@) is None,
        },
{
    let s = chars_of(module_ir);
    let mut needle: Vec<char> = vec!['@'];
    let mut n = chars_of(name);
    needle.append(&mut n);
    assert(needle@ =~= seq!['@'] + name@);
    def_scan(&s, &needle)
}

/// The definition of `main` in the LLVM module text `module_ir`.
pub fn extract_main_only_from_ir(module_ir: &str) -> (r: Option<String>)
    ensures
        match r {
            Some(d) => named_def(module_ir@, "main"@) == Some(d@),
            None => named_def(module_ir@, "main"@) is None,
        },
{
    extract_function_def(module_ir, "main")
}

/// A character that can continue a global name after `@`.
pub open spec fn is_name_char(c: char) -> bool {
    ('a' <= c && c <= 'z') || ('A' <= c && c <= 'Z') || ('0' <= c && c <= '9') || c == '_' || c
        == '.'
}

/// The end of the run of name characters that starts at `k`.
pub open spec fn name_end(l: Seq<char>, k: int) -> int
    decreases l.len() - k,
{
    if 0 <= k < l.len() && is_name_char(l[k]) {
        name_end(l, k + 1)
    } else {
        k
    }
}

pub proof fn lemma_name_end(l: Seq<char>, k: int)
    requires
        0 <= k <= l.len(),
    ensures
        k <= name_end(l, k) <= l.len(),
    decreases l.len() - k,
{
    if k < l.len() && is_name_char(l[k]) {
        lemma_name_end(l, k + 1);
    }
}

/// Whether a called name is one the REPL shows: not an LLVM intrinsic and
/// not `printf`.
pub open spec fn shown_callee(n: Seq<char>) -> bool {
    n.len() > 0 && !starts_with(n, "llvm."@) && n != "printf"@
}

/// The names after each `@` of a line from index `k`, in order.
pub open spec fn calls_in_line(l: Seq<char>, k: int) -> Seq<Seq<char>>
    decreases l.len() - k,
{
    if !(0 <= k < l.len()) {
        Seq::empty()
    } else if l[k] == '@' {
        let e = name_end(l, k + 1);
        let n = l.subrange(k + 1, e);
        proof {
            lemma_name_end(l, k + 1);
        }
        (if shown_callee(n) {
            seq![n]
        } else {
            Seq::empty()
        }) + calls_in_line(l, e)
    } else {
        calls_in_line(l, k + 1)
    }
}

/// The called names of the lines from index `i` that hold `call`.
pub open spec fn calls_from(s: Seq<char>, i: int) -> Seq<Seq<char>>
    decreases s.len() - i,
{
    if !(0 <= i < s.len()) {
        Seq::empty()
    } else {
        let line = line_text(s, i);
        proof {
            lemma_line_end(s, i);
        }
        (if contains(line, "call"@) {
            calls_in_line(line, 0)
        } else {
            Seq::empty()
        }) + calls_from(s, next_line(s, i))
    }
}

/// The names in order of first occurrence, each once.
pub open spec fn dedup(ns: Seq<Seq<char>>) -> Seq<Seq<char>>
    decreases ns.len(),
{
    if ns.len() == 0 {
        Seq::empty()
    } else {
        let d = dedup(ns.drop_last());
        if d.contains(ns.last()) {
            d
        } else {
            d.push(ns.last())
        }
    }
}

/// The functions that the text `s` calls, in order of first call.
pub open spec fn called_functions(s: Seq<char>) -> Seq<Seq<char>> {
    dedup(calls_from(s, 0))
}

/// The views of a vector of strings.
pub open spec fn string_views(v: Seq<String>) -> Seq<Seq<char>> {
    Seq::new(v.len(), |i: int| v[i]@)
}

/// Pushes `n` unless it is already in `out`.
fn add_name(out: &mut Vec<String>, n: &Vec<char>, Ghost(acc): Ghost<Seq<Seq<char>>>)
    requires
        string_views(old(out)@) == dedup(acc),
    ensures
        string_views(final(out)@) == dedup(acc.push(n@)),
{
    assert(acc.push(n@).drop_last() =~= acc);
    let mut j: usize = 0;
    while j < out.len()
        invariant
            j <= out@.len(),
            string_views(out@) == dedup(acc),
            forall|m: int| 0 <= m < j ==> out@[m]@ != n@,
        decreases out@.len() - j,
    {
        let c = chars_of(out[j].as_str());
        if crate::text::chars_eq(&c, n) {
            assert(string_views(out@)[j as int] == out@[j as int]@);
            assert(dedup(acc)[j as int] == n@);
            assert(dedup(acc).contains(n@));
            assert(acc.push(n@).drop_last() =~= acc);
            assert(dedup(acc.push(n@)) == dedup(acc));
            return;
        }
        j = j + 1;
    }
    assert(!dedup(acc).contains(n@)) by {
        if dedup(acc).contains(n@) {
            let m = choose|m: int| 0 <= m < dedup(acc).len() && dedup(acc)[m] == n@;
            assert(string_views(out@)[m] == out@[m]@);
            assert(out@[m]@ == n@);
        }
    }
    let ghost before = out@;
    out.push(string_of(n));
    assert(string_views(out@) =~= string_views(before).push(n@));
    assert(acc.push(n@).drop_last() =~= acc);
    assert(dedup(acc.push(n@)) == dedup(acc).push(n@));
}

/// The names of the functions that the text `ir` calls on its lines that
/// hold `call`: each name after an `@`, except LLVM intrinsics and
/// `printf`, once, in order of first call.
pub fn collect_called_functions(ir: &str) -> (r: Vec<String>)
    ensures
        string_views(r@) == called_functions(ir@),
{
    let s = chars_of(ir);
    let mut out: Vec<String> = Vec::new();
    let ghost mut acc: Seq<Seq<char>> = Seq::empty();
    let mut i: usize = 0;
    assert(string_views(out@) =~= dedup(acc));
    while i < s.len()
        invariant
            i <= s@.len(),
            s@ == ir@,
            calls_from(s@, 0) == acc + calls_from(s@, i as int),
            string_views(out@) == dedup(acc),
        decreases s@.len() - i,
    {
        let (line, next) = read_line(&s, i);
        proof {
            lemma_line_end(s@, i as int);
        }
        if contains_str(&line, "call") {
            let mut k: usize = 0;
            assert(calls_from(s@, 0) == acc + calls_in_line(line@, 0) + calls_from(s@, next as int))
                by {
                assert(acc + (calls_in_line(line@, 0) + calls_from(s@, next as int)) =~= acc
                    + calls_in_line(line@, 0) + calls_from(s@, next as int));
            }
            while k < line.len()
                invariant
                    k <= line@.len(),
                    calls_from(s@, 0) == acc + calls_in_line(line@, k as int) + calls_from(
                        s@,
                        next as int,
                    ),
                    string_views(out@) == dedup(acc),
                decreases line@.len() - k,
            {
                if line[k] == '@' {
                    let start = k + 1;
                    let mut e = start;
                    while e < line.len() && (('a' <= line[e] && line[e] <= 'z') || ('A' <= line[e]
                        && line[e] <= 'Z') || ('0' <= line[e] && line[e] <= '9') || line[e] == '_'
                        || line[e] == '.')
                        invariant
                            start <= e <= line@.len(),
                            name_end(line@, start as int) == name_end(line@, e as int),
                        decreases line@.len() - e,
                    {
                        e = e + 1;
                    }
                    proof {
                        lemma_name_end(line@, start as int);
                    }
                    let n = slice_of(&line, start, e);
                    let shown = e > start && !starts_with_str(&n, "llvm.") && !crate::lexer::is_word(
                        &n,
                        "printf",
                    );
                    let ghost prev = acc;
                    let ghost here: Seq<Seq<char>> = if shown {
                        seq![n@]
                    } else {
                        Seq::empty()
                    };
                    if shown {
                        add_name(&mut out, &n, Ghost(acc));
                        proof {
                            acc = acc.push(n@);
                        }
                    }
                    assert(acc =~= prev + here);
                    assert(prev + (here + calls_in_line(line@, e as int)) =~= acc + calls_in_line(
                        line@,
                        e as int,
                    ));
                    k = e;
                } else {
                    k = k + 1;
                }
            }
            assert(acc + calls_in_line(line@, k as int) =~= acc);
        } else {
            assert(calls_from(s@, i as int) =~= Seq::<Seq<char>>::empty() + calls_from(
                s@,
                next as int,
            ));
            assert(acc + calls_from(s@, i as int) =~= acc + calls_from(s@, next as int));
        }
        i = next;
    }
    assert(acc + calls_from(s@, i as int) =~= acc);
    out
}


/// The definitions of the functions `names` in the module text `s`, each
/// after a blank line; names with no definition add nothing.
pub open spec fn defs_of(s: Seq<char>, names: Seq<Seq<char>>) -> Seq<char>
    decreases names.len(),
{
    if names.len() == 0 {
        Seq::empty()
    } else {
        defs_of(s, names.drop_last()) + match named_def(s, names.last()) {
            Some(d) => seq!['\n'] + d,
            None => Seq::empty(),
        }
    }
}

/// The definition of `main` followed by those of the functions it calls.
pub open spec fn main_with_called(s: Seq<char>) -> Option<Seq<char>> {
    match named_def(s, "main"@) {
        None => None,
        Some(m) => Some(m + defs_of(s, called_functions(m))),
    }
}

/// The definition of `main` in the LLVM module text `module_ir`, followed
/// by the definitions of the functions it calls (see [`main_with_called`]).
pub fn extract_main_with_called_from_ir(module_ir: &str) -> (r: Option<String>)
    ensures
        match r {
            Some(d) => main_with_called(module_ir@) == Some(d@),
            None => main_with_called(module_ir@) is None,
        },
{
    let main_ir = match extract_main_only_from_ir(module_ir) {
        Some(m) => m,
        None => {
            return None;
        },
    };
    let mut out: Vec<char> = chars_of(main_ir.as_str());
    let calls = collect_called_functions(main_ir.as_str());
    let ghost names = string_views(calls@);
    let mut j: usize = 0;
    assert(out@ =~= main_ir@ + defs_of(module_ir@, names.subrange(0, 0)));
    while j < calls.len()
        invariant
            j <= calls@.len(),
            names == string_views(calls@),
            out@ == main_ir@ + defs_of(module_ir@, names.subrange(0, j as int)),
        decreases calls@.len() - j,
    {
        assert(names.subrange(0, j as int + 1).drop_last() =~= names.subrange(0, j as int));
        assert(names[j as int] == calls@[j as int]@);
        let ghost before = out@;
        match extract_function_def(module_ir, calls[j].as_str()) {
            Some(def) => {
                out.push('\n');
                let mut d = chars_of(def.as_str());
                out.append(&mut d);
                assert(out@ =~= before + (seq!['\n'] + def@));
            },
            None => {
                assert(out@ =~= before + Seq::<char>::empty());
            },
        }
        j = j + 1;
    }
    assert(names.subrange(0, names.len() as int) =~= names);
    Some(string_of(&out))
}

/// Scans assembly lines from index `i`: before `main:` (or `_main:`) is
/// found, looks for it; then collects lines until a `.globl` or `.section`
/// directive.
pub open spec fn asm_from(s: Seq<char>, i: int, in_fn: bool, buf: Seq<char>) -> Seq<char>
    decreases s.len() - i,
{
    if !(0 <= i < s.len()) {
        buf
    } else {
        let line = line_text(s, i);
        let t = trim_start(line);
        proof {
            lemma_line_end(s, i);
        }
        if !in_fn {
            if starts_with(t, "_main:"@) || starts_with(t, "main:"@) {
                asm_from(s, next_line(s, i), true, buf + line.push('\n'))
            } else {
                asm_from(s, next_line(s, i), false, buf)
            }
        } else if starts_with(t, ".globl"@) || starts_with(t, ".section"@) {
            buf
        } else {
            asm_from(s, next_line(s, i), true, buf + line.push('\n'))
        }
    }
}

/// The lines of the `main` function in assembly text, each ending in `\n`;
/// none when they are empty.
pub open spec fn main_asm(s: Seq<char>) -> Option<Seq<char>> {
    let b = asm_from(s, 0, false, Seq::empty());
    if b.len() == 0 {
        None
    } else {
        Some(b)
    }
}

/// The `main` function of the assembly text `listing` (see [`main_asm`]).
pub fn extract_main_asm(listing: &str) -> (r: Option<String>)
    ensures
        match r {
            Some(d) => main_asm(listing@) == Some(d@),
            None => main_asm(listing@) is None,
        },
{
    let s = chars_of(listing);
    let mut buf: Vec<char> = Vec::new();
    let mut in_fn = false;
    let mut i: usize = 0;
    while i < s.len()
        invariant
            i <= s@.len(),
            s@ == listing@,
            asm_from(s@, 0, false, Seq::empty()) == asm_from(s@, i as int, in_fn, buf@),
        ensures
            asm_from(s@, 0, false, Seq::empty()) == buf@,
        decreases s@.len() - i,
    {
        let (line, next) = read_line(&s, i);
        let t = trim_start_exec(&line);
        if !in_fn {
            if starts_with_str(&t, "_main:") || starts_with_str(&t, "main:") {
                let ghost b0 = buf@;
                buf.append(&mut slice_of(&line, 0, line.len()));
                buf.push('\n');
                assert(buf@ =~= b0 + line@.push('\n'));
                in_fn = true;
            }
        } else {
            if starts_with_str(&t, ".globl") || starts_with_str(&t, ".section") {
                break;
            }
            let ghost b0 = buf@;
            buf.append(&mut slice_of(&line, 0, line.len()));
            buf.push('\n');
            assert(buf@ =~= b0 + line@.push('\n'));
        }
        i = next;
    }
    if buf.len() == 0 {
        None
    } else {
        Some(string_of(&buf))
    }
}


/// `dedup` keeps one of each name, in order of first occurrence.
proof fn lemma_dedup(ns: Seq<Seq<char>>)
    ensures
        forall|i: int, j: int|
            0 <= i < j < dedup(ns).len() ==> #[trigger] dedup(ns)[i] != #[trigger] dedup(ns)[j],
        forall|n: Seq<char>| #[trigger] dedup(ns).contains(n) <==> ns.contains(n),
    decreases ns.len(),
{
    if ns.len() > 0 {
        let p = ns.drop_last();
        lemma_dedup(p);
        let d = dedup(p);
        assert forall|n: Seq<char>| ns.contains(n) <==> (p.contains(n) || n == ns.last()) by {
            if ns.contains(n) {
                let k = choose|k: int| 0 <= k < ns.len() && ns[k] == n;
                if k < ns.len() - 1 {
                    assert(p[k] == n);
                }
            }
            if p.contains(n) {
                let k = choose|k: int| 0 <= k < p.len() && p[k] == n;
                assert(ns[k] == n);
            }
            if n == ns.last() {
                assert(ns[ns.len() - 1] == n);
            }
        }
        if !d.contains(ns.last()) {
            let d2 = d.push(ns.last());
            assert forall|n: Seq<char>| d2.contains(n) <==> (d.contains(n) || n == ns.last()) by {
                if d2.contains(n) {
                    let k = choose|k: int| 0 <= k < d2.len() && d2[k] == n;
                    if k < d.len() {
                        assert(d[k] == n);
                    }
                }
                if d.contains(n) {
                    let k = choose|k: int| 0 <= k < d.len() && d[k] == n;
                    assert(d2[k] == n);
                }
                if n == ns.last() {
                    assert(d2[d.len() as int] == n);
                }
            }
            assert forall|i: int, j: int| 0 <= i < j < d2.len() implies #[trigger] d2[i]
                != #[trigger] d2[j] by {
                if j == d.len() {
                    assert(d2[i] == d[i]);
                    assert(d.contains(d[i]));
                } else {
                    assert(d2[i] == d[i] && d2[j] == d[j]);
                }
            }
        }
    }
}

/// Each called function is listed once, and the list holds exactly the
/// names that the text's `call` lines name.
pub proof fn law_called_functions_once(s: Seq<char>)
    ensures
        forall|i: int, j: int|
            0 <= i < j < called_functions(s).len() ==> #[trigger] called_functions(s)[i]
                != #[trigger] called_functions(s)[j],
        forall|n: Seq<char>| #[trigger]
            called_functions(s).contains(n) <==> calls_from(s, 0).contains(n),
{
    lemma_dedup(calls_from(s, 0));
}


/// The IR text that compiling shows: the definition of `main` (followed by
/// the functions it calls when `with_called`) when `main_only`, else the
/// whole module; the whole module too when `main` is not defined.
pub open spec fn shown_ir(s: Seq<char>, main_only: bool, with_called: bool) -> Seq<char> {
    if !main_only {
        s
    } else if with_called {
        match main_with_called(s) {
            Some(x) => x,
            None => s,
        }
    } else {
        match named_def(s, "main"@) {
            Some(x) => x,
            None => s,
        }
    }
}

/// The IR text to show for the module text `module_ir` (see [`shown_ir`]).
pub fn emitted_ir(module_ir: &str, main_only: bool, with_called: bool) -> (r: String)
    ensures
        r@ == shown_ir(module_ir@, main_only, with_called),
{
    if !main_only {
        return crate::text::owned(module_ir);
    }
    let part = if with_called {
        extract_main_with_called_from_ir(module_ir)
    } else {
        extract_main_only_from_ir(module_ir)
    };
    match part {
        Some(x) => x,
        None => crate::text::owned(module_ir),
    }
}

} // verus!

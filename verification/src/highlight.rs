//! Colour highlighting for the REPL: source lines, LLVM IR, assembly and
//! the tree drawing of the syntax tree, with ANSI 256-colour codes.
use vstd::prelude::*;
use crate::lexer::{
    is_digit, is_ident_start, ident_end, digits_end, is_digit_exec, is_ident_start_exec,
    ident_end_exec, digits_end_exec, is_word, is_ident_char,
};
use crate::ir_text::{is_name_char, name_end, lemma_name_end, lines_between};
use crate::text::{
    chars_of, string_of, is_white, is_white_exec, trim_start, trim, starts_with, line_text,
    next_line, lemma_line_end, line_end, read_line, trim_start_exec, trim_exec, starts_with_str, slice_of,
};
use crate::display::{push_lit, push_chars, node_label, kind_name, has_details, law_labels_name_their_kind};
use crate::ast::ExprV;

verus! {

/// The colours the highlighters use.
#[derive(Debug, Clone, Copy, PartialEq, Eq, Structural)]
pub enum Color {
    Reset,
    /// Keywords, mnemonics, control flow (colour 81).
    Keyword,
    /// Types, registers, blocks (colour 75).
    Type,
    /// Strings and literals (colour 114).
    Literal,
    /// Numbers (colour 221).
    Number,
    /// Comments (colour 242).
    Comment,
    /// Labels and operators (colour 208).
    Label,
    /// Functions (colour 135).
    Function,
    /// Variables (colour 222).
    Variable,
    /// Section headings of the tree drawing (colour 244).
    Section,
}

/// The escape sequence that selects a colour.
pub open spec fn code(c: Color) -> Seq<char> {
    match c {
        Color::Reset => "\x1b[0m"@,
        Color::Keyword => "\x1b[38;5;81m"@,
        Color::Type => "\x1b[38;5;75m"@,
        Color::Literal => "\x1b[38;5;114m"@,
        Color::Number => "\x1b[38;5;221m"@,
        Color::Comment => "\x1b[38;5;242m"@,
        Color::Label => "\x1b[38;5;208m"@,
        Color::Function => "\x1b[38;5;135m"@,
        Color::Variable => "\x1b[38;5;222m"@,
        Color::Section => "\x1b[38;5;244m"@,
    }
}

/// `t` in colour `c`, then back to the default.
pub open spec fn colored(c: Color, t: Seq<char>) -> Seq<char> {
    code(c) + t + code(Color::Reset)
}

fn push_code(out: &mut Vec<char>, c: Color)
    ensures
        final(out)@ == old(out)@ + code(c),
{
    match c {
        Color::Reset => push_lit(out, "\x1b[0m"),
        Color::Keyword => push_lit(out, "\x1b[38;5;81m"),
        Color::Type => push_lit(out, "\x1b[38;5;75m"),
        Color::Literal => push_lit(out, "\x1b[38;5;114m"),
        Color::Number => push_lit(out, "\x1b[38;5;221m"),
        Color::Comment => push_lit(out, "\x1b[38;5;242m"),
        Color::Label => push_lit(out, "\x1b[38;5;208m"),
        Color::Function => push_lit(out, "\x1b[38;5;135m"),
        Color::Variable => push_lit(out, "\x1b[38;5;222m"),
        Color::Section => push_lit(out, "\x1b[38;5;244m"),
    }
}

fn push_colored(out: &mut Vec<char>, c: Color, t: &Vec<char>)
    ensures
        final(out)@ == old(out)@ + colored(c, t@),
{
    let ghost o = out@;
    push_code(out, c);
    push_chars(out, t);
    push_code(out, Color::Reset);
    assert(out@ =~= o + colored(c, t@));
}

/// The end of a string literal whose opening quote is just before `j`: past
/// the closing quote, or the end of the line.
pub open spec fn quoted_end(l: Seq<char>, j: int) -> int
    decreases l.len() - j,
{
    if j < 0 || j >= l.len() {
        l.len() as int
    } else if l[j] == '"' {
        j + 1
    } else {
        quoted_end(l, j + 1)
    }
}

pub proof fn lemma_quoted_end(l: Seq<char>, j: int)
    requires
        0 <= j <= l.len(),
    ensures
        j <= quoted_end(l, j) <= l.len(),
    decreases l.len() - j,
{
    if j < l.len() && l[j] != '"' {
        lemma_quoted_end(l, j + 1);
    }
}

fn quoted_end_exec(l: &Vec<char>, j: usize) -> (r: usize)
    requires
        j <= l@.len(),
    ensures
        r as int == quoted_end(l@, j as int),
        j <= r <= l@.len(),
{
    let mut k = j;
    while k < l.len()
        invariant
            j <= k <= l@.len(),
            quoted_end(l@, j as int) == quoted_end(l@, k as int),
        decreases l@.len() - k,
    {
        if l[k] == '"' {
            return k + 1;
        }
        k = k + 1;
    }
    l.len()
}

pub proof fn lemma_digits_end(s: Seq<char>, i: int)
    requires
        0 <= i <= s.len(),
    ensures
        i <= digits_end(s, i) <= s.len(),
    decreases s.len() - i,
{
    if i < s.len() && is_digit(s[i]) {
        lemma_digits_end(s, i + 1);
    }
}

pub proof fn lemma_ident_end(s: Seq<char>, i: int)
    requires
        0 <= i <= s.len(),
    ensures
        i <= ident_end(s, i) <= s.len(),
    decreases s.len() - i,
{
    if i < s.len() && crate::lexer::is_ident_char(s[i]) {
        lemma_ident_end(s, i + 1);
    }
}

fn name_end_exec(l: &Vec<char>, i: usize) -> (r: usize)
    requires
        i <= l@.len(),
    ensures
        r as int == name_end(l@, i as int),
        i <= r <= l@.len(),
{
    let mut e = i;
    while e < l.len() && (('a' <= l[e] && l[e] <= 'z') || ('A' <= l[e] && l[e] <= 'Z') || ('0'
        <= l[e] && l[e] <= '9') || l[e] == '_' || l[e] == '.')
        invariant
            i <= e <= l@.len(),
            name_end(l@, i as int) == name_end(l@, e as int),
        decreases l@.len() - e,
    {
        e = e + 1;
    }
    e
}

/// Whether a number starts at `i`: a digit, or `-` before a digit.
pub open spec fn number_starts(l: Seq<char>, i: int) -> bool {
    is_digit(l[i]) || (l[i] == '-' && i + 1 < l.len() && is_digit(l[i + 1]))
}

fn number_starts_exec(l: &Vec<char>, i: usize) -> (r: bool)
    requires
        i < l.len(),
    ensures
        r == number_starts(l@, i as int),
{
    is_digit_exec(l[i]) || (l[i] == '-' && i + 1 < l.len() && is_digit_exec(l[i + 1]))
}

/// The colour of a word of the language, if it has one.
pub open spec fn source_word_color(w: Seq<char>) -> Option<Color> {
    if w == "fn"@ || w == "let"@ || w == "if"@ || w == "else"@ || w == "while"@ || w == "for"@
        || w == "return"@ || w == "break"@ || w == "print"@ || w == "len"@ {
        Some(Color::Keyword)
    } else if w == "true"@ || w == "false"@ || w == "nil"@ {
        Some(Color::Literal)
    } else if w == "i32"@ || w == "i64"@ || w == "bool"@ || w == "string"@ || w == "List"@ {
        Some(Color::Type)
    } else {
        None
    }
}

fn source_word_color_exec(w: &Vec<char>) -> (r: Option<Color>)
    ensures
        r == source_word_color(w@),
{
    if is_word(w, "fn") || is_word(w, "let") || is_word(w, "if") || is_word(w, "else") || is_word(
        w,
        "while",
    ) || is_word(w, "for") || is_word(w, "return") || is_word(w, "break") || is_word(w, "print")
        || is_word(w, "len") {
        Some(Color::Keyword)
    } else if is_word(w, "true") || is_word(w, "false") || is_word(w, "nil") {
        Some(Color::Literal)
    } else if is_word(w, "i32") || is_word(w, "i64") || is_word(w, "bool") || is_word(w, "string")
        || is_word(w, "List") {
        Some(Color::Type)
    } else {
        None
    }
}

/// A word in its colour, if it has one.
pub open spec fn word_text(c: Option<Color>, w: Seq<char>) -> Seq<char> {
    match c {
        Some(k) => colored(k, w),
        None => w,
    }
}

fn push_word(out: &mut Vec<char>, c: Option<Color>, w: &Vec<char>)
    ensures
        final(out)@ == old(out)@ + word_text(c, w@),
{
    match c {
        Some(k) => push_colored(out, k, w),
        None => push_chars(out, w),
    }
}

/// The highlighted text of a source line from index `i`: a `//` comment
/// to the end of the line, string literals, numbers, and the words of the
/// language in their colours; other characters as they are.
pub open spec fn source_from(l: Seq<char>, i: int) -> Seq<char>
    decreases l.len() - i,
{
    if !(0 <= i < l.len()) {
        Seq::empty()
    } else {
        let c = l[i];
        proof {
            lemma_quoted_end(l, i + 1);
            lemma_digits_end(l, i + 1);
            lemma_ident_end(l, i + 1);
        }
        if c == '/' && i + 1 < l.len() && l[i + 1] == '/' {
            colored(Color::Comment, l.subrange(i, l.len() as int))
        } else if c == '"' {
            let e = quoted_end(l, i + 1);
            colored(Color::Literal, l.subrange(i, e)) + source_from(l, e)
        } else if number_starts(l, i) {
            let e = digits_end(l, i + 1);
            colored(Color::Number, l.subrange(i, e)) + source_from(l, e)
        } else if is_ident_start(c) {
            let e = ident_end(l, i + 1);
            let w = l.subrange(i, e);
            word_text(source_word_color(w), w) + source_from(l, e)
        } else {
            seq![c] + source_from(l, i + 1)
        }
    }
}

/// The keywords of the language.
pub open spec fn keywords() -> Seq<Seq<char>> {
    seq![
        seq!['f', 'n'],
        seq!['l', 'e', 't'],
        seq!['i', 'f'],
        seq!['e', 'l', 's', 'e'],
        seq!['w', 'h', 'i', 'l', 'e'],
        seq!['f', 'o', 'r'],
        seq!['r', 'e', 't', 'u', 'r', 'n'],
        seq!['b', 'r', 'e', 'a', 'k'],
        seq!['p', 'r', 'i', 'n', 't'],
        seq!['l', 'e', 'n'],
    ]
}

proof fn lemma_ident_run(l: Seq<char>, j: int, e: int)
    requires
        0 <= j <= e <= l.len(),
        forall|x: int| j <= x < e ==> is_ident_char(#[trigger] l[x]),
    ensures
        ident_end(l, j) == ident_end(l, e),
    decreases e - j,
{
    if j < e {
        lemma_ident_run(l, j + 1, e);
    }
}

/// Every keyword of the language is highlighted in the keyword colour,
/// wherever it stands as a whole word: highlighting from the start of the
/// word gives the word in the keyword colour, then the highlighting of the
/// rest.
pub proof fn law_keywords_are_highlighted(k: int, l: Seq<char>, i: int)
    requires
        0 <= k < keywords().len(),
        0 <= i,
        i + keywords()[k].len() <= l.len(),
        l.subrange(i, i + keywords()[k].len()) == keywords()[k],
        i + keywords()[k].len() < l.len() ==> !is_ident_char(l[i + keywords()[k].len()]),
    ensures
        source_word_color(keywords()[k]) == Some(Color::Keyword),
        source_from(l, i) == colored(Color::Keyword, keywords()[k]) + source_from(
            l,
            i + keywords()[k].len(),
        ),
{
    let w = keywords()[k];
    let e = i + w.len();
    reveal_strlit("fn");
    reveal_strlit("let");
    reveal_strlit("if");
    reveal_strlit("else");
    reveal_strlit("while");
    reveal_strlit("for");
    reveal_strlit("return");
    reveal_strlit("break");
    reveal_strlit("print");
    reveal_strlit("len");
    assert(w == "fn"@ || w == "let"@ || w == "if"@ || w == "else"@ || w == "while"@ || w == "for"@
        || w == "return"@ || w == "break"@ || w == "print"@ || w == "len"@);
    assert(w.len() > 0);
    assert forall|x: int| i <= x < e implies is_ident_char(#[trigger] l[x]) by {
        assert(l[x] == w[x - i]);
    }
    assert(l[i] == w[0]);
    lemma_ident_run(l, i + 1, e);
    assert(ident_end(l, e) == e);
    assert(!(l[i] == '/') && l[i] != '"' && !is_digit(l[i]) && l[i] != '-');
    lemma_quoted_end(l, i + 1);
    lemma_digits_end(l, i + 1);
    lemma_ident_end(l, i + 1);
}

/// The words that stand for values.
pub open spec fn literal_words() -> Seq<Seq<char>> {
    seq![seq!['t', 'r', 'u', 'e'], seq!['f', 'a', 'l', 's', 'e'], seq!['n', 'i', 'l']]
}

/// The names of types.
pub open spec fn type_words() -> Seq<Seq<char>> {
    seq![
        seq!['i', '3', '2'],
        seq!['i', '6', '4'],
        seq!['b', 'o', 'o', 'l'],
        seq!['s', 't', 'r', 'i', 'n', 'g'],
        seq!['L', 'i', 's', 't'],
    ]
}

/// The colour of each word of source text: keywords in the keyword colour,
/// `true`, `false` and `nil` in the literal colour, type names in the type
/// colour, and every other word uncoloured.
pub proof fn law_source_word_colors(w: Seq<char>)
    ensures
        keywords().contains(w) ==> source_word_color(w) == Some(Color::Keyword),
        literal_words().contains(w) ==> source_word_color(w) == Some(Color::Literal),
        type_words().contains(w) ==> source_word_color(w) == Some(Color::Type),
        !keywords().contains(w) && !literal_words().contains(w) && !type_words().contains(w)
            ==> source_word_color(w) is None,
{
    reveal_strlit("fn");
    reveal_strlit("let");
    reveal_strlit("if");
    reveal_strlit("else");
    reveal_strlit("while");
    reveal_strlit("for");
    reveal_strlit("return");
    reveal_strlit("break");
    reveal_strlit("print");
    reveal_strlit("len");
    reveal_strlit("true");
    reveal_strlit("false");
    reveal_strlit("nil");
    reveal_strlit("i32");
    reveal_strlit("i64");
    reveal_strlit("bool");
    reveal_strlit("string");
    reveal_strlit("List");
    let kw = keywords();
    let lw = literal_words();
    let tw = type_words();
    assert(kw[0] =~= "fn"@ && kw[1] =~= "let"@ && kw[2] =~= "if"@ && kw[3] =~= "else"@ && kw[4]
        =~= "while"@ && kw[5] =~= "for"@ && kw[6] =~= "return"@ && kw[7] =~= "break"@ && kw[8]
        =~= "print"@ && kw[9] =~= "len"@);
    assert(lw[0] =~= "true"@ && lw[1] =~= "false"@ && lw[2] =~= "nil"@);
    assert(tw[0] =~= "i32"@ && tw[1] =~= "i64"@ && tw[2] =~= "bool"@ && tw[3] =~= "string"@ && tw[4]
        =~= "List"@);
    if kw.contains(w) {
        let j = choose|j: int| 0 <= j < kw.len() && kw[j] == w;
        assert(0 <= j < 10);
    } else if lw.contains(w) {
        let j = choose|j: int| 0 <= j < lw.len() && lw[j] == w;
        assert(0 <= j < 3);
        assert(w != "fn"@ && w != "let"@ && w != "if"@ && w != "else"@ && w != "while"@ && w != "for"@
            && w != "return"@ && w != "break"@ && w != "print"@ && w != "len"@) by {
            assert(w.len() == 3 ==> w[0] == 'n');
        }
    } else if tw.contains(w) {
        let j = choose|j: int| 0 <= j < tw.len() && tw[j] == w;
        assert(0 <= j < 5);
        assert(w != "fn"@ && w != "let"@ && w != "if"@ && w != "else"@ && w != "while"@ && w != "for"@
            && w != "return"@ && w != "break"@ && w != "print"@ && w != "len"@ && w != "true"@ && w
            != "false"@ && w != "nil"@) by {
            assert(w.len() == 3 ==> w[0] == 'i');
            assert(w.len() == 4 ==> (w[0] == 'b' || w[0] == 'L'));
            assert(w.len() == 6 ==> w[0] == 's');
        }
    } else {
        assert(!kw.contains(w));
        assert(w != kw[0] && w != kw[1] && w != kw[2] && w != kw[3] && w != kw[4] && w != kw[5] && w
            != kw[6] && w != kw[7] && w != kw[8] && w != kw[9]);
        assert(w != lw[0] && w != lw[1] && w != lw[2]);
        assert(w != tw[0] && w != tw[1] && w != tw[2] && w != tw[3] && w != tw[4]);
    }
}

/// Highlights a line of source text (see [`source_from`]).
pub fn highlight_line(line: &str) -> (r: String)
    ensures
        r@ == source_from(line@, 0),
{
    let l = chars_of(line);
    let mut out: Vec<char> = Vec::new();
    let mut i: usize = 0;
    while i < l.len()
        invariant
            i <= l@.len(),
            l@ == line@,
            source_from(l@, 0) == out@ + source_from(l@, i as int),
        decreases l@.len() - i,
    {
        let ghost o = out@;
        let c = l[i];
        if c == '/' && i + 1 < l.len() && l[i + 1] == '/' {
            push_colored(&mut out, Color::Comment, &slice_of(&l, i, l.len()));
            assert(source_from(l@, 0) == out@);
            i = l.len();
            assert(source_from(l@, i as int) =~= Seq::<char>::empty());
            assert(out@ + source_from(l@, i as int) =~= out@);
        } else {
            let e = if c == '"' {
                let e = quoted_end_exec(&l, i + 1);
                push_colored(&mut out, Color::Literal, &slice_of(&l, i, e));
                e
            } else if number_starts_exec(&l, i) {
                let e = digits_end_exec(&l, i + 1);
                push_colored(&mut out, Color::Number, &slice_of(&l, i, e));
                e
            } else if is_ident_start_exec(c) {
                let e = ident_end_exec(&l, i + 1);
                let w = slice_of(&l, i, e);
                push_word(&mut out, source_word_color_exec(&w), &w);
                e
            } else {
                out.push(c);
                i + 1
            };
            assert(o + source_from(l@, i as int) =~= out@ + source_from(l@, e as int));
            i = e;
        }
    }
    assert(out@ + source_from(l@, i as int) =~= out@);
    string_of(&out)
}


/// Whether the text ends with `c`.
pub open spec fn ends_with_char(t: Seq<char>, c: char) -> bool {
    t.len() > 0 && t.last() == c
}

fn ends_with_char_exec(t: &Vec<char>, c: char) -> (r: bool)
    ensures
        r == ends_with_char(t@, c),
{
    t.len() > 0 && t[t.len() - 1] == c
}

/// The colour of a word of LLVM IR, if it has one.
pub open spec fn ir_word_color(w: Seq<char>) -> Option<Color> {
    if w == "define"@ || w == "declare"@ || w == "call"@ || w == "ret"@ || w == "br"@ || w
        == "load"@ || w == "store"@ || w == "alloca"@ || w == "getelementptr"@ || w == "icmp"@
        || w == "phi"@ || w == "switch"@ || w == "unreachable"@ || w == "tail"@ || w
        == "invoke"@ || w == "landingpad"@ {
        Some(Color::Keyword)
    } else if w == "i1"@ || w == "i8"@ || w == "i16"@ || w == "i32"@ || w == "i64"@ || w
        == "i128"@ || w == "void"@ || w == "ptr"@ || w == "label"@ || w == "double"@ || w
        == "float"@ {
        Some(Color::Type)
    } else {
        None
    }
}

fn ir_word_color_exec(w: &Vec<char>) -> (r: Option<Color>)
    ensures
        r == ir_word_color(w@),
{
    if is_word(w, "define") || is_word(w, "declare") || is_word(w, "call") || is_word(w, "ret")
        || is_word(w, "br") || is_word(w, "load") || is_word(w, "store") || is_word(w, "alloca")
        || is_word(w, "getelementptr") || is_word(w, "icmp") || is_word(w, "phi") || is_word(
        w,
        "switch",
    ) || is_word(w, "unreachable") || is_word(w, "tail") || is_word(w, "invoke") || is_word(
        w,
        "landingpad",
    ) {
        Some(Color::Keyword)
    } else if is_word(w, "i1") || is_word(w, "i8") || is_word(w, "i16") || is_word(w, "i32")
        || is_word(w, "i64") || is_word(w, "i128") || is_word(w, "void") || is_word(w, "ptr")
        || is_word(w, "label") || is_word(w, "double") || is_word(w, "float") {
        Some(Color::Type)
    } else {
        None
    }
}

/// The instruction words of LLVM IR that are highlighted as keywords.
pub open spec fn ir_keywords() -> Seq<Seq<char>> {
    seq![
        seq!['d', 'e', 'f', 'i', 'n', 'e'],
        seq!['d', 'e', 'c', 'l', 'a', 'r', 'e'],
        seq!['c', 'a', 'l', 'l'],
        seq!['r', 'e', 't'],
        seq!['b', 'r'],
        seq!['l', 'o', 'a', 'd'],
        seq!['s', 't', 'o', 'r', 'e'],
        seq!['a', 'l', 'l', 'o', 'c', 'a'],
        seq!['g', 'e', 't', 'e', 'l', 'e', 'm', 'e', 'n', 't', 'p', 't', 'r'],
        seq!['i', 'c', 'm', 'p'],
        seq!['p', 'h', 'i'],
        seq!['s', 'w', 'i', 't', 'c', 'h'],
        seq!['u', 'n', 'r', 'e', 'a', 'c', 'h', 'a', 'b', 'l', 'e'],
        seq!['t', 'a', 'i', 'l'],
        seq!['i', 'n', 'v', 'o', 'k', 'e'],
        seq!['l', 'a', 'n', 'd', 'i', 'n', 'g', 'p', 'a', 'd'],
    ]
}

/// The type names of LLVM IR.
pub open spec fn ir_type_words() -> Seq<Seq<char>> {
    seq![
        seq!['i', '1'],
        seq!['i', '8'],
        seq!['i', '1', '6'],
        seq!['i', '3', '2'],
        seq!['i', '6', '4'],
        seq!['i', '1', '2', '8'],
        seq!['v', 'o', 'i', 'd'],
        seq!['p', 't', 'r'],
        seq!['l', 'a', 'b', 'e', 'l'],
        seq!['d', 'o', 'u', 'b', 'l', 'e'],
        seq!['f', 'l', 'o', 'a', 't'],
    ]
}

/// The colour of each word of LLVM IR: instruction words in the keyword
/// colour, type names in the type colour, every other word uncoloured.
pub proof fn law_ir_word_colors(w: Seq<char>)
    ensures
        ir_keywords().contains(w) ==> ir_word_color(w) == Some(Color::Keyword),
        ir_type_words().contains(w) ==> ir_word_color(w) == Some(Color::Type),
        !ir_keywords().contains(w) && !ir_type_words().contains(w) ==> ir_word_color(w) is None,
{
    reveal_strlit("define");
    reveal_strlit("declare");
    reveal_strlit("call");
    reveal_strlit("ret");
    reveal_strlit("br");
    reveal_strlit("load");
    reveal_strlit("store");
    reveal_strlit("alloca");
    reveal_strlit("getelementptr");
    reveal_strlit("icmp");
    reveal_strlit("phi");
    reveal_strlit("switch");
    reveal_strlit("unreachable");
    reveal_strlit("tail");
    reveal_strlit("invoke");
    reveal_strlit("landingpad");
    reveal_strlit("i1");
    reveal_strlit("i8");
    reveal_strlit("i16");
    reveal_strlit("i32");
    reveal_strlit("i64");
    reveal_strlit("i128");
    reveal_strlit("void");
    reveal_strlit("ptr");
    reveal_strlit("label");
    reveal_strlit("double");
    reveal_strlit("float");
    let kw = ir_keywords();
    let tw = ir_type_words();
    assert(kw[0] =~= "define"@ && kw[1] =~= "declare"@ && kw[2] =~= "call"@ && kw[3] =~= "ret"@ && kw[4] =~= "br"@ && kw[5] =~= "load"@ && kw[6] =~= "store"@ && kw[7] =~= "alloca"@ && kw[8] =~= "getelementptr"@ && kw[9] =~= "icmp"@ && kw[10] =~= "phi"@ && kw[11] =~= "switch"@ && kw[12] =~= "unreachable"@ && kw[13] =~= "tail"@ && kw[14] =~= "invoke"@ && kw[15] =~= "landingpad"@);
    assert(tw[0] =~= "i1"@ && tw[1] =~= "i8"@ && tw[2] =~= "i16"@ && tw[3] =~= "i32"@ && tw[4] =~= "i64"@ && tw[5] =~= "i128"@ && tw[6] =~= "void"@ && tw[7] =~= "ptr"@ && tw[8] =~= "label"@ && tw[9] =~= "double"@ && tw[10] =~= "float"@);
    if kw.contains(w) {
        let j = choose|j: int| 0 <= j < kw.len() && kw[j] == w;
        assert(0 <= j < 16);
    } else if tw.contains(w) {
        let j = choose|j: int| 0 <= j < tw.len() && tw[j] == w;
        assert(0 <= j < 11);
        assert(w != kw[0] && w != kw[1] && w != kw[2] && w != kw[3] && w != kw[4] && w != kw[5] && w != kw[6] && w != kw[7] && w != kw[8] && w != kw[9] && w != kw[10] && w != kw[11] && w != kw[12] && w != kw[13] && w != kw[14] && w != kw[15]);
    } else {
        assert(w != kw[0] && w != kw[1] && w != kw[2] && w != kw[3] && w != kw[4] && w != kw[5] && w != kw[6] && w != kw[7] && w != kw[8] && w != kw[9] && w != kw[10] && w != kw[11] && w != kw[12] && w != kw[13] && w != kw[14] && w != kw[15]);
        assert(w != tw[0] && w != tw[1] && w != tw[2] && w != tw[3] && w != tw[4] && w != tw[5] && w != tw[6] && w != tw[7] && w != tw[8] && w != tw[9] && w != tw[10]);
    }
}

/// A character that starts a word of IR or assembly.
pub open spec fn word_start(c: char) -> bool {
    is_ident_start(c) || c == '.'
}

/// The highlighted tokens of a line of LLVM IR from index `i`: strings,
/// numbers, and keywords and types in their colours.
pub open spec fn ir_tokens(l: Seq<char>, i: int) -> Seq<char>
    decreases l.len() - i,
{
    if !(0 <= i < l.len()) {
        Seq::empty()
    } else {
        let c = l[i];
        proof {
            lemma_quoted_end(l, i + 1);
            lemma_digits_end(l, i + 1);
            lemma_name_end(l, i + 1);
        }
        if c == '"' {
            let e = quoted_end(l, i + 1);
            colored(Color::Literal, l.subrange(i, e)) + ir_tokens(l, e)
        } else if number_starts(l, i) {
            let e = digits_end(l, i + 1);
            colored(Color::Number, l.subrange(i, e)) + ir_tokens(l, e)
        } else if word_start(c) {
            let e = name_end(l, i + 1);
            let w = l.subrange(i, e);
            word_text(ir_word_color(w), w) + ir_tokens(l, e)
        } else {
            seq![c] + ir_tokens(l, i + 1)
        }
    }
}

/// A highlighted line of LLVM IR, with its line break: a comment or a
/// label whole, else token by token.
pub open spec fn ir_line(l: Seq<char>) -> Seq<char> {
    let t = trim_start(l);
    if starts_with(t, ";"@) {
        colored(Color::Comment, l) + seq!['\n']
    } else if ends_with_char(t, ':') {
        colored(Color::Label, l) + seq!['\n']
    } else {
        ir_tokens(l, 0) + seq!['\n']
    }
}

/// The highlighted lines of LLVM IR from index `i`.
pub open spec fn ir_from(s: Seq<char>, i: int) -> Seq<char>
    decreases s.len() - i,
{
    if !(0 <= i < s.len()) {
        Seq::empty()
    } else {
        proof {
            lemma_line_end(s, i);
        }
        ir_line(line_text(s, i)) + ir_from(s, next_line(s, i))
    }
}

fn push_ir_tokens(out: &mut Vec<char>, l: &Vec<char>)
    ensures
        final(out)@ == old(out)@ + ir_tokens(l@, 0),
{
    let ghost o = out@;
    let mut i: usize = 0;
    while i < l.len()
        invariant
            i <= l@.len(),
            o + ir_tokens(l@, 0) == out@ + ir_tokens(l@, i as int),
        decreases l@.len() - i,
    {
        let ghost before = out@;
        let c = l[i];
        let e = if c == '"' {
            let e = quoted_end_exec(l, i + 1);
            push_colored(out, Color::Literal, &slice_of(l, i, e));
            e
        } else if number_starts_exec(l, i) {
            let e = digits_end_exec(l, i + 1);
            push_colored(out, Color::Number, &slice_of(l, i, e));
            e
        } else if is_ident_start_exec(c) || c == '.' {
            let e = name_end_exec(l, i + 1);
            let w = slice_of(l, i, e);
            push_word(out, ir_word_color_exec(&w), &w);
            e
        } else {
            out.push(c);
            i + 1
        };
        assert(before + ir_tokens(l@, i as int) =~= out@ + ir_tokens(l@, e as int));
        i = e;
    }
    assert(out@ + ir_tokens(l@, i as int) =~= out@);
}

/// Highlights LLVM IR text line by line (see [`ir_line`]).
pub fn highlight_llvm_ir(input: &str) -> (r: String)
    ensures
        r@ == ir_from(input@, 0),
{
    let s = chars_of(input);
    let mut out: Vec<char> = Vec::new();
    let mut i: usize = 0;
    while i < s.len()
        invariant
            i <= s@.len(),
            s@ == input@,
            ir_from(s@, 0) == out@ + ir_from(s@, i as int),
        decreases s@.len() - i,
    {
        let ghost o = out@;
        let (line, next) = read_line(&s, i);
        let t = trim_start_exec(&line);
        if starts_with_str(&t, ";") {
            push_colored(&mut out, Color::Comment, &line);
        } else if ends_with_char_exec(&t, ':') {
            push_colored(&mut out, Color::Label, &line);
        } else {
            push_ir_tokens(&mut out, &line);
        }
        out.push('\n');
        assert(out@ =~= o + ir_line(line@));
        assert(o + ir_from(s@, i as int) =~= out@ + ir_from(s@, next as int));
        i = next;
    }
    assert(out@ + ir_from(s@, i as int) =~= out@);
    string_of(&out)
}

/// Whether every character of `t` is white space.
pub open spec fn all_white(t: Seq<char>) -> bool {
    forall|k: int| 0 <= k < t.len() ==> is_white(#[trigger] t[k])
}

fn all_white_before(l: &Vec<char>, i: usize) -> (r: bool)
    requires
        i <= l@.len(),
    ensures
        r == all_white(l@.subrange(0, i as int)),
{
    let mut k: usize = 0;
    while k < i
        invariant
            k <= i <= l@.len(),
            forall|m: int| 0 <= m < k ==> is_white(#[trigger] l@[m]),
        decreases i - k,
    {
        if !is_white_exec(l[k]) {
            assert(l@.subrange(0, i as int)[k as int] == l@[k as int]);
            return false;
        }
        k = k + 1;
    }
    assert forall|m: int| 0 <= m < i implies is_white(#[trigger] l@.subrange(0, i as int)[m]) by {
        assert(l@.subrange(0, i as int)[m] == l@[m]);
    }
    true
}

/// The highlighted tokens of a line of assembly from index `i`: a `#`
/// comment to the end, `%` registers, numbers, and the mnemonic (the first
/// word after the indentation) in colour.
pub open spec fn asm_tokens(l: Seq<char>, i: int) -> Seq<char>
    decreases l.len() - i,
{
    if !(0 <= i < l.len()) {
        Seq::empty()
    } else {
        let c = l[i];
        proof {
            lemma_ident_end(l, i + 1);
            lemma_digits_end(l, i + 1);
            lemma_name_end(l, i + 1);
        }
        if c == '#' {
            colored(Color::Comment, l.subrange(i, l.len() as int))
        } else if c == '%' {
            let e = ident_end(l, i + 1);
            colored(Color::Type, l.subrange(i, e)) + asm_tokens(l, e)
        } else if number_starts(l, i) {
            let e = digits_end(l, i + 1);
            colored(Color::Number, l.subrange(i, e)) + asm_tokens(l, e)
        } else if word_start(c) {
            let e = name_end(l, i + 1);
            let w = l.subrange(i, e);
            (if all_white(l.subrange(0, i)) {
                colored(Color::Keyword, w)
            } else {
                w
            }) + asm_tokens(l, e)
        } else {
            seq![c] + asm_tokens(l, i + 1)
        }
    }
}

/// A highlighted line of assembly, with its line break.
pub open spec fn asm_line(l: Seq<char>) -> Seq<char> {
    let t = trim_start(l);
    if starts_with(t, "#"@) {
        colored(Color::Comment, l) + seq!['\n']
    } else if ends_with_char(t, ':') {
        colored(Color::Label, l) + seq!['\n']
    } else {
        asm_tokens(l, 0) + seq!['\n']
    }
}

/// The highlighted lines of assembly from index `i`.
pub open spec fn asm_text_from(s: Seq<char>, i: int) -> Seq<char>
    decreases s.len() - i,
{
    if !(0 <= i < s.len()) {
        Seq::empty()
    } else {
        proof {
            lemma_line_end(s, i);
        }
        asm_line(line_text(s, i)) + asm_text_from(s, next_line(s, i))
    }
}

fn push_asm_tokens(out: &mut Vec<char>, l: &Vec<char>)
    ensures
        final(out)@ == old(out)@ + asm_tokens(l@, 0),
{
    let ghost o = out@;
    let mut i: usize = 0;
    while i < l.len()
        invariant
            i <= l@.len(),
            o + asm_tokens(l@, 0) == out@ + asm_tokens(l@, i as int),
        decreases l@.len() - i,
    {
        let ghost before = out@;
        let c = l[i];
        if c == '#' {
            push_colored(out, Color::Comment, &slice_of(l, i, l.len()));
            assert(before + asm_tokens(l@, i as int) =~= out@);
            assert(out@ + asm_tokens(l@, l@.len() as int) =~= out@);
            i = l.len();
        } else {
            let e = if c == '%' {
                let e = ident_end_exec(l, i + 1);
                push_colored(out, Color::Type, &slice_of(l, i, e));
                e
            } else if number_starts_exec(l, i) {
                let e = digits_end_exec(l, i + 1);
                push_colored(out, Color::Number, &slice_of(l, i, e));
                e
            } else if is_ident_start_exec(c) || c == '.' {
                let e = name_end_exec(l, i + 1);
                let w = slice_of(l, i, e);
                if all_white_before(l, i) {
                    push_colored(out, Color::Keyword, &w);
                } else {
                    push_chars(out, &w);
                }
                e
            } else {
                out.push(c);
                i + 1
            };
            assert(before + asm_tokens(l@, i as int) =~= out@ + asm_tokens(l@, e as int));
            i = e;
        }
    }
    assert(out@ + asm_tokens(l@, i as int) =~= out@);
}

/// Highlights assembly text line by line (see [`asm_line`]).
pub fn highlight_asm(input: &str) -> (r: String)
    ensures
        r@ == asm_text_from(input@, 0),
{
    let s = chars_of(input);
    let mut out: Vec<char> = Vec::new();
    let mut i: usize = 0;
    while i < s.len()
        invariant
            i <= s@.len(),
            s@ == input@,
            asm_text_from(s@, 0) == out@ + asm_text_from(s@, i as int),
        decreases s@.len() - i,
    {
        let ghost o = out@;
        let (line, next) = read_line(&s, i);
        let t = trim_start_exec(&line);
        if starts_with_str(&t, "#") {
            push_colored(&mut out, Color::Comment, &line);
        } else if ends_with_char_exec(&t, ':') {
            push_colored(&mut out, Color::Label, &line);
        } else {
            push_asm_tokens(&mut out, &line);
        }
        out.push('\n');
        assert(out@ =~= o + asm_line(line@));
        assert(o + asm_text_from(s@, i as int) =~= out@ + asm_text_from(s@, next as int));
        i = next;
    }
    assert(out@ + asm_text_from(s@, i as int) =~= out@);
    string_of(&out)
}


/// `s` with every leading repetition of `p` removed
/// (`str::trim_start_matches`).
pub open spec fn strip_leading(s: Seq<char>, p: Seq<char>) -> Seq<char>
    decreases s.len(),
{
    if p.len() > 0 && starts_with(s, p) {
        strip_leading(s.subrange(p.len() as int, s.len() as int), p)
    } else {
        s
    }
}

pub fn strip_leading_exec(s: &Vec<char>, lit: &str) -> (r: Vec<char>)
    ensures
        r@ == strip_leading(s@, lit@),
{
    let p = chars_of(lit);
    let mut i: usize = 0;
    assert(s@.subrange(0, s@.len() as int) =~= s@);
    while p.len() > 0 && p.len() <= s.len() - i && starts_with_str(&slice_of(s, i, s.len()), lit)
        invariant
            i <= s@.len(),
            p@ == lit@,
            strip_leading(s@, lit@) == strip_leading(s@.subrange(i as int, s@.len() as int), lit@),
        decreases s@.len() - i,
    {
        let ghost t = s@.subrange(i as int, s@.len() as int);
        assert(t.subrange(p@.len() as int, t.len() as int) =~= s@.subrange(
            i + p@.len(),
            s@.len() as int,
        ));
        i = i + p.len();
    }
    slice_of(s, i, s.len())
}

/// The colour of a line of the tree drawing, by its label.
pub open spec fn ast_color(label: Seq<char>) -> Color {
    if starts_with(label, "BlockStmt"@) || starts_with(label, "LetStmt"@) || starts_with(
        label,
        "List"@,
    ) || starts_with(label, "ListIndex"@) || starts_with(label, "ListAssign"@) {
        Color::Type
    } else if starts_with(label, "FuncStmt"@) || starts_with(label, "FuncArg"@) {
        Color::Function
    } else if starts_with(label, "IfStmt"@) || starts_with(label, "WhileStmt"@) || starts_with(
        label,
        "ForStmt"@,
    ) || starts_with(label, "ReturnStmt"@) || starts_with(label, "BreakStmt"@) {
        Color::Keyword
    } else if starts_with(label, "Binary"@) || starts_with(label, "Grouping"@) || starts_with(
        label,
        "CallStmt"@,
    ) || starts_with(label, "Print"@) || starts_with(label, "Len"@) {
        Color::Label
    } else if starts_with(label, "Number"@) || starts_with(label, "Number64"@) || starts_with(
        label,
        "String"@,
    ) || starts_with(label, "Bool"@) || starts_with(label, "Nil"@) {
        Color::Literal
    } else if starts_with(label, "Variable"@) {
        Color::Variable
    } else if label == "Args"@ || label == "Body"@ || label == "Condition"@ || label == "Then"@
        || label == "Else"@ || label == "Program"@ {
        Color::Section
    } else {
        Color::Keyword
    }
}

fn ast_color_exec(label: &Vec<char>) -> (r: Color)
    ensures
        r == ast_color(label@),
{
    if starts_with_str(label, "BlockStmt") || starts_with_str(label, "LetStmt") || starts_with_str(
        label,
        "List",
    ) || starts_with_str(label, "ListIndex") || starts_with_str(label, "ListAssign") {
        Color::Type
    } else if starts_with_str(label, "FuncStmt") || starts_with_str(label, "FuncArg") {
        Color::Function
    } else if starts_with_str(label, "IfStmt") || starts_with_str(label, "WhileStmt")
        || starts_with_str(label, "ForStmt") || starts_with_str(label, "ReturnStmt")
        || starts_with_str(label, "BreakStmt") {
        Color::Keyword
    } else if starts_with_str(label, "Binary") || starts_with_str(label, "Grouping")
        || starts_with_str(label, "CallStmt") || starts_with_str(label, "Print") || starts_with_str(
        label,
        "Len",
    ) {
        Color::Label
    } else if starts_with_str(label, "Number") || starts_with_str(label, "Number64")
        || starts_with_str(label, "String") || starts_with_str(label, "Bool") || starts_with_str(
        label,
        "Nil",
    ) {
        Color::Literal
    } else if starts_with_str(label, "Variable") {
        Color::Variable
    } else if is_word(label, "Args") || is_word(label, "Body") || is_word(label, "Condition")
        || is_word(label, "Then") || is_word(label, "Else") || is_word(label, "Program") {
        Color::Section
    } else {
        Color::Keyword
    }
}

/// A highlighted line of the tree drawing: its indentation, then the rest
/// of the line in the colour of the node's label; blank lines stay blank.
pub open spec fn ast_line(l: Seq<char>) -> Seq<char> {
    let t = trim_start(l);
    if t.len() == 0 {
        seq!['\n']
    } else {
        let prefix = l.subrange(0, l.len() - t.len());
        let clean = trim(strip_leading(strip_leading(t, "├─ "@), "└─ "@));
        prefix + code(ast_color(clean)) + t + code(Color::Reset) + seq!['\n']
    }
}

/// The highlighted lines of a tree drawing from index `i`.
pub open spec fn ast_from(s: Seq<char>, i: int) -> Seq<char>
    decreases s.len() - i,
{
    if !(0 <= i < s.len()) {
        Seq::empty()
    } else {
        proof {
            lemma_line_end(s, i);
        }
        ast_line(line_text(s, i)) + ast_from(s, next_line(s, i))
    }
}

/// Highlights the tree drawing of a syntax tree line by line (see
/// [`ast_line`]).
pub fn highlight_ast(input: &str) -> (r: String)
    ensures
        r@ == ast_from(input@, 0),
{
    let s = chars_of(input);
    let mut out: Vec<char> = Vec::new();
    let mut i: usize = 0;
    while i < s.len()
        invariant
            i <= s@.len(),
            s@ == input@,
            ast_from(s@, 0) == out@ + ast_from(s@, i as int),
        decreases s@.len() - i,
    {
        let ghost o = out@;
        let (line, next) = read_line(&s, i);
        proof {
            crate::text::lemma_white_end(line@, 0);
        }
        let t = trim_start_exec(&line);
        if t.len() == 0 {
            out.push('\n');
        } else {
            let prefix = slice_of(&line, 0, line.len() - t.len());
            let clean = trim_exec(&strip_leading_exec(&strip_leading_exec(&t, "├─ "), "└─ "));
            push_chars(&mut out, &prefix);
            push_code(&mut out, ast_color_exec(&clean));
            push_chars(&mut out, &t);
            push_code(&mut out, Color::Reset);
            out.push('\n');
        }
        assert(out@ =~= o + ast_line(line@));
        assert(o + ast_from(s@, i as int) =~= out@ + ast_from(s@, next as int));
        i = next;
    }
    assert(out@ + ast_from(s@, i as int) =~= out@);
    string_of(&out)
}


/// The index just past the first `m` at or after `i` (the length if none).
pub open spec fn past_m(s: Seq<char>, i: int) -> int
    decreases s.len() - i,
{
    if i < 0 || i >= s.len() {
        s.len() as int
    } else if s[i] == 'm' {
        i + 1
    } else {
        past_m(s, i + 1)
    }
}

pub proof fn lemma_past_m(s: Seq<char>, i: int)
    requires
        0 <= i <= s.len(),
    ensures
        i <= past_m(s, i) <= s.len(),
        i < s.len() ==> i < past_m(s, i),
    decreases s.len() - i,
{
    if i < s.len() && s[i] != 'm' {
        lemma_past_m(s, i + 1);
    }
}

/// The text with its ANSI escape sequences removed: an escape character and
/// everything up to the next `m` are dropped.
pub open spec fn strip_escapes(s: Seq<char>) -> Seq<char>
    decreases s.len(),
{
    if s.len() == 0 {
        Seq::empty()
    } else if s[0] == '\x1b' {
        proof {
            lemma_past_m(s, 0);
        }
        strip_escapes(s.subrange(past_m(s, 0), s.len() as int))
    } else {
        seq![s[0]] + strip_escapes(s.subrange(1, s.len() as int))
    }
}

/// Whether the text holds no escape character.
pub open spec fn no_escape(t: Seq<char>) -> bool {
    forall|k: int| 0 <= k < t.len() ==> t[k] != '\x1b'
}

/// Text without escapes passes through unchanged.
proof fn lemma_strip_plain(x: Seq<char>, t: Seq<char>)
    requires
        no_escape(x),
    ensures
        strip_escapes(x + t) == x + strip_escapes(t),
    decreases x.len(),
{
    if x.len() > 0 {
        let xt = x + t;
        assert(xt[0] == x[0]);
        assert(xt.subrange(1, xt.len() as int) =~= x.subrange(1, x.len() as int) + t);
        lemma_strip_plain(x.subrange(1, x.len() as int), t);
        assert(seq![x[0]] + x.subrange(1, x.len() as int) =~= x);
        assert(seq![x[0]] + (x.subrange(1, x.len() as int) + strip_escapes(t)) =~= x + strip_escapes(t));
    } else {
        assert(x + t =~= t);
        assert(x + strip_escapes(t) =~= strip_escapes(t));
    }
}

/// An escape sequence: an escape character, then characters other than
/// `m`, then `m`.
pub open spec fn is_escape_seq(k: Seq<char>) -> bool {
    k.len() >= 2 && k[0] == '\x1b' && k.last() == 'm' && forall|i: int|
        0 <= i < k.len() - 1 ==> k[i] != 'm'
}

/// A colour code is dropped as a whole.
proof fn lemma_strip_escape_seq(k: Seq<char>, t: Seq<char>)
    requires
        is_escape_seq(k),
    ensures
        strip_escapes(k + t) == strip_escapes(t),
{
    let kt = k + t;
    assert(kt[0] == '\x1b');
    assert forall|i: int| 0 <= i < k.len() - 1 implies kt[i] != 'm' by {
        assert(kt[i] == k[i]);
    }
    assert(kt[k.len() - 1] == 'm');
    assert(past_m(kt, 0) == k.len()) by {
        lemma_past_m_at(kt, 0, k.len() - 1);
    }
    assert(kt.subrange(k.len() as int, kt.len() as int) =~= t);
}

proof fn lemma_past_m_at(s: Seq<char>, i: int, j: int)
    requires
        0 <= i <= j < s.len(),
        s[j] == 'm',
        forall|k: int| i <= k < j ==> s[k] != 'm',
    ensures
        past_m(s, i) == j + 1,
    decreases j - i,
{
    if i < j {
        lemma_past_m_at(s, i + 1, j);
    }
}

/// Every colour code is an escape sequence.
proof fn lemma_code_is_escape(c: Color)
    ensures
        is_escape_seq(code(c)),
{
    match c {
        Color::Reset => {
            reveal_strlit("\x1b[0m");
            assert(code(c) =~= seq!['\x1b', '[', '0', 'm']);
        },
        Color::Keyword => {
            reveal_strlit("\x1b[38;5;81m");
            assert(code(c) =~= seq!['\x1b', '[', '3', '8', ';', '5', ';', '8', '1', 'm']);
        },
        Color::Type => {
            reveal_strlit("\x1b[38;5;75m");
            assert(code(c) =~= seq!['\x1b', '[', '3', '8', ';', '5', ';', '7', '5', 'm']);
        },
        Color::Literal => {
            reveal_strlit("\x1b[38;5;114m");
            assert(code(c) =~= seq!['\x1b', '[', '3', '8', ';', '5', ';', '1', '1', '4', 'm']);
        },
        Color::Number => {
            reveal_strlit("\x1b[38;5;221m");
            assert(code(c) =~= seq!['\x1b', '[', '3', '8', ';', '5', ';', '2', '2', '1', 'm']);
        },
        Color::Comment => {
            reveal_strlit("\x1b[38;5;242m");
            assert(code(c) =~= seq!['\x1b', '[', '3', '8', ';', '5', ';', '2', '4', '2', 'm']);
        },
        Color::Label => {
            reveal_strlit("\x1b[38;5;208m");
            assert(code(c) =~= seq!['\x1b', '[', '3', '8', ';', '5', ';', '2', '0', '8', 'm']);
        },
        Color::Function => {
            reveal_strlit("\x1b[38;5;135m");
            assert(code(c) =~= seq!['\x1b', '[', '3', '8', ';', '5', ';', '1', '3', '5', 'm']);
        },
        Color::Variable => {
            reveal_strlit("\x1b[38;5;222m");
            assert(code(c) =~= seq!['\x1b', '[', '3', '8', ';', '5', ';', '2', '2', '2', 'm']);
        },
        Color::Section => {
            reveal_strlit("\x1b[38;5;244m");
            assert(code(c) =~= seq!['\x1b', '[', '3', '8', ';', '5', ';', '2', '4', '4', 'm']);
        },
    }
}

/// Coloured text followed by more output loses its codes and keeps its
/// text.
proof fn lemma_strip_colored(c: Color, t: Seq<char>, r: Seq<char>)
    requires
        no_escape(t),
    ensures
        strip_escapes(colored(c, t) + r) == t + strip_escapes(r),
{
    lemma_code_is_escape(c);
    lemma_code_is_escape(Color::Reset);
    assert(colored(c, t) + r =~= code(c) + (t + (code(Color::Reset) + r)));
    lemma_strip_escape_seq(code(c), t + (code(Color::Reset) + r));
    lemma_strip_plain(t, code(Color::Reset) + r);
    lemma_strip_escape_seq(code(Color::Reset), r);
}

proof fn lemma_strip_word(c: Option<Color>, w: Seq<char>, r: Seq<char>)
    requires
        no_escape(w),
    ensures
        strip_escapes(word_text(c, w) + r) == w + strip_escapes(r),
{
    match c {
        Some(k) => lemma_strip_colored(k, w, r),
        None => lemma_strip_plain(w, r),
    }
}

/// Highlighting a source line only adds colour codes: with them removed,
/// the line comes back unchanged (for a line without escape characters).
pub proof fn law_highlight_line_keeps_text(l: Seq<char>, i: int)
    requires
        no_escape(l),
        0 <= i <= l.len(),
    ensures
        strip_escapes(source_from(l, i)) == l.subrange(i, l.len() as int),
    decreases l.len() - i,
{
    if i < l.len() {
        lemma_quoted_end(l, i + 1);
        lemma_digits_end(l, i + 1);
        lemma_ident_end(l, i + 1);
        let c = l[i];
        let rest = l.subrange(i, l.len() as int);
        if c == '/' && i + 1 < l.len() && l[i + 1] == '/' {
            lemma_strip_colored(Color::Comment, rest, Seq::empty());
            assert(colored(Color::Comment, rest) + Seq::<char>::empty() =~= colored(Color::Comment, rest));
            assert(strip_escapes(Seq::<char>::empty()) =~= Seq::<char>::empty());
            assert(rest + Seq::<char>::empty() =~= rest);
        } else {
            let e = if c == '"' {
                quoted_end(l, i + 1)
            } else if number_starts(l, i) {
                digits_end(l, i + 1)
            } else if is_ident_start(c) {
                ident_end(l, i + 1)
            } else {
                i + 1
            };
            let t = l.subrange(i, e);
            law_highlight_line_keeps_text(l, e);
            if c == '"' {
                lemma_strip_colored(Color::Literal, t, source_from(l, e));
            } else if number_starts(l, i) {
                lemma_strip_colored(Color::Number, t, source_from(l, e));
            } else if is_ident_start(c) {
                lemma_strip_word(source_word_color(t), t, source_from(l, e));
            } else {
                assert(t =~= seq![c]);
                lemma_strip_plain(t, source_from(l, e));
            }
            assert(t + l.subrange(e, l.len() as int) =~= rest);
        }
    }
}


proof fn lemma_ir_tokens_keep_text(l: Seq<char>, i: int, rest: Seq<char>)
    requires
        no_escape(l),
        0 <= i <= l.len(),
    ensures
        strip_escapes(ir_tokens(l, i) + rest) == l.subrange(i, l.len() as int) + strip_escapes(rest),
    decreases l.len() - i,
{
    if i < l.len() {
        lemma_quoted_end(l, i + 1);
        lemma_digits_end(l, i + 1);
        lemma_name_end(l, i + 1);
        let c = l[i];
        let e = if c == '"' {
            quoted_end(l, i + 1)
        } else if number_starts(l, i) {
            digits_end(l, i + 1)
        } else if word_start(c) {
            name_end(l, i + 1)
        } else {
            i + 1
        };
        let t = l.subrange(i, e);
        let r = ir_tokens(l, e) + rest;
        lemma_ir_tokens_keep_text(l, e, rest);
        if c == '"' {
            lemma_strip_colored(Color::Literal, t, r);
            assert(ir_tokens(l, i) + rest =~= colored(Color::Literal, t) + r);
        } else if number_starts(l, i) {
            lemma_strip_colored(Color::Number, t, r);
            assert(ir_tokens(l, i) + rest =~= colored(Color::Number, t) + r);
        } else if word_start(c) {
            lemma_strip_word(ir_word_color(t), t, r);
            assert(ir_tokens(l, i) + rest =~= word_text(ir_word_color(t), t) + r);
        } else {
            assert(t =~= seq![c]);
            lemma_strip_plain(t, r);
            assert(ir_tokens(l, i) + rest =~= t + r);
        }
        assert(t + (l.subrange(e, l.len() as int) + strip_escapes(rest)) =~= l.subrange(
            i,
            l.len() as int,
        ) + strip_escapes(rest));
    } else {
        assert(ir_tokens(l, i) + rest =~= rest);
        assert(l.subrange(i, l.len() as int) + strip_escapes(rest) =~= strip_escapes(rest));
    }
}

/// A highlighted IR line followed by more output loses its codes and keeps
/// its text and line break.
proof fn lemma_ir_line_then(l: Seq<char>, rest: Seq<char>)
    requires
        no_escape(l),
    ensures
        strip_escapes(ir_line(l) + rest) == l + seq!['\n'] + strip_escapes(rest),
{
    let t = trim_start(l);
    let nl = seq!['\n'];
    lemma_strip_plain(nl, rest);
    assert(l + nl + strip_escapes(rest) =~= l + (nl + strip_escapes(rest)));
    if starts_with(t, ";"@) {
        assert(ir_line(l) + rest =~= colored(Color::Comment, l) + (nl + rest));
        lemma_strip_colored(Color::Comment, l, nl + rest);
    } else if ends_with_char(t, ':') {
        assert(ir_line(l) + rest =~= colored(Color::Label, l) + (nl + rest));
        lemma_strip_colored(Color::Label, l, nl + rest);
    } else {
        assert(ir_line(l) + rest =~= ir_tokens(l, 0) + (nl + rest));
        lemma_ir_tokens_keep_text(l, 0, nl + rest);
        assert(l.subrange(0, l.len() as int) =~= l);
    }
}

/// Highlighting a line of LLVM IR only adds colour codes: with them
/// removed, the line comes back with its line break (for a line without
/// escape characters).
pub proof fn law_highlight_ir_line_keeps_text(l: Seq<char>)
    requires
        no_escape(l),
    ensures
        strip_escapes(ir_line(l)) == l + seq!['\n'],
{
    lemma_ir_line_then(l, Seq::empty());
    assert(ir_line(l) + Seq::<char>::empty() =~= ir_line(l));
    assert(strip_escapes(Seq::<char>::empty()) =~= Seq::<char>::empty());
    assert(l + seq!['\n'] + Seq::<char>::empty() =~= l + seq!['\n']);
}

proof fn lemma_ir_from_keeps_text(s: Seq<char>, i: int)
    requires
        no_escape(s),
        0 <= i,
    ensures
        strip_escapes(ir_from(s, i)) == lines_between(s, i, s.len() as int),
    decreases s.len() - i,
{
    if i < s.len() {
        lemma_line_end(s, i);
        let l = line_text(s, i);
        let next = next_line(s, i);
        assert(no_escape(l)) by {
            assert forall|k: int| 0 <= k < l.len() implies l[k] != '\x1b' by {
                assert(l[k] == s[i + k]);
            }
        }
        lemma_ir_from_keeps_text(s, next);
        lemma_ir_line_then(l, ir_from(s, next));
        assert(l + seq!['\n'] =~= l.push('\n'));
    } else {
        assert(strip_escapes(Seq::<char>::empty()) =~= Seq::<char>::empty());
    }
}

/// The line that starts at `i` ends before a line break at `j`.
proof fn lemma_line_end_before(s: Seq<char>, i: int, j: int)
    requires
        0 <= i <= j < s.len(),
        s[j] == '\n',
    ensures
        line_end(s, i) <= j,
    decreases j - i,
{
    if s[i] != '\n' {
        lemma_line_end_before(s, i + 1, j);
    }
}

/// The lines of a text without carriage returns that ends with a line
/// break, each followed by its line break, are the text itself.
proof fn lemma_lines_are_text(s: Seq<char>, i: int)
    requires
        0 <= i <= s.len(),
        forall|k: int| 0 <= k < s.len() ==> s[k] != '\r',
        s.len() > 0 ==> s.last() == '\n',
    ensures
        lines_between(s, i, s.len() as int) == s.subrange(i, s.len() as int),
    decreases s.len() - i,
{
    if i < s.len() {
        lemma_line_end(s, i);
        lemma_line_end_before(s, i, s.len() - 1);
        let e = line_end(s, i);
        assert(s[e] == '\n');
        assert(line_text(s, i) == s.subrange(i, e));
        lemma_lines_are_text(s, e + 1);
        assert(s.subrange(i, e).push('\n') + s.subrange(e + 1, s.len() as int) =~= s.subrange(
            i,
            s.len() as int,
        ));
    } else {
        assert(s.subrange(i, s.len() as int) =~= Seq::<char>::empty());
    }
}

/// Highlighting LLVM IR only adds colour codes: with them removed, the
/// whole text comes back line by line, each line with its line break (a
/// `\r` before a line break goes, as `str::lines` drops it). A text without
/// `\r` that ends with a line break comes back unchanged. (For a text
/// without escape characters.)
pub proof fn law_highlight_ir_keeps_text(s: Seq<char>)
    requires
        no_escape(s),
    ensures
        strip_escapes(ir_from(s, 0)) == lines_between(s, 0, s.len() as int),
        (forall|k: int| 0 <= k < s.len() ==> s[k] != '\r') && (s.len() > 0 ==> s.last() == '\n')
            ==> strip_escapes(ir_from(s, 0)) == s,
{
    lemma_ir_from_keeps_text(s, 0);
    if (forall|k: int| 0 <= k < s.len() ==> s[k] != '\r') && (s.len() > 0 ==> s.last() == '\n') {
        lemma_lines_are_text(s, 0);
        assert(s.subrange(0, s.len() as int) =~= s);
    }
}

/// Highlighting a line of the tree drawing only adds colour codes: with
/// them removed, the line comes back with its line break (for a line
/// without escape characters that is empty or holds more than blanks; a
/// line of blanks comes back as a bare line break).
pub proof fn law_highlight_ast_line_keeps_text(l: Seq<char>)
    requires
        no_escape(l),
        l.len() == 0 || trim_start(l).len() > 0,
    ensures
        strip_escapes(ast_line(l)) == l + seq!['\n'],
{
    let t = trim_start(l);
    crate::text::lemma_white_end(l, 0);
    if t.len() == 0 {
        lemma_strip_plain(seq!['\n'], Seq::empty());
        assert(seq!['\n'] + Seq::<char>::empty() =~= seq!['\n']);
        assert(strip_escapes(Seq::<char>::empty()) =~= Seq::<char>::empty());
        assert(l + seq!['\n'] =~= seq!['\n']);
    } else {
        let prefix = l.subrange(0, l.len() - t.len());
        let c = ast_color(trim(strip_leading(strip_leading(t, "├─ "@), "└─ "@)));
        assert(ast_line(l) =~= prefix + (code(c) + (t + (code(Color::Reset) + seq!['\n']))));
        lemma_code_is_escape(c);
        lemma_code_is_escape(Color::Reset);
        lemma_strip_plain(prefix, code(c) + (t + (code(Color::Reset) + seq!['\n'])));
        lemma_strip_escape_seq(code(c), t + (code(Color::Reset) + seq!['\n']));
        lemma_strip_plain(t, code(Color::Reset) + seq!['\n']);
        lemma_strip_escape_seq(code(Color::Reset), seq!['\n']);
        lemma_strip_plain(seq!['\n'], Seq::empty());
        assert(seq!['\n'] + Seq::<char>::empty() =~= seq!['\n']);
        assert(strip_escapes(Seq::<char>::empty()) =~= Seq::<char>::empty());
        assert(prefix + (t + seq!['\n']) =~= l + seq!['\n']);
    }
}


proof fn lemma_asm_tokens_keep_text(l: Seq<char>, i: int)
    requires
        no_escape(l),
        0 <= i <= l.len(),
    ensures
        strip_escapes(asm_tokens(l, i) + seq!['\n']) == l.subrange(i, l.len() as int) + seq!['\n'],
    decreases l.len() - i,
{
    lemma_strip_plain(seq!['\n'], Seq::empty());
    assert(seq!['\n'] + Seq::<char>::empty() =~= seq!['\n']);
    assert(strip_escapes(Seq::<char>::empty()) =~= Seq::<char>::empty());
    if i < l.len() {
        lemma_ident_end(l, i + 1);
        lemma_digits_end(l, i + 1);
        lemma_name_end(l, i + 1);
        let c = l[i];
        if c == '#' {
            let t = l.subrange(i, l.len() as int);
            lemma_strip_colored(Color::Comment, t, seq!['\n']);
            assert(asm_tokens(l, i) + seq!['\n'] =~= colored(Color::Comment, t) + seq!['\n']);
        } else {
            let e = if c == '%' {
                ident_end(l, i + 1)
            } else if number_starts(l, i) {
                digits_end(l, i + 1)
            } else if word_start(c) {
                name_end(l, i + 1)
            } else {
                i + 1
            };
            let t = l.subrange(i, e);
            let r = asm_tokens(l, e) + seq!['\n'];
            lemma_asm_tokens_keep_text(l, e);
            if c == '%' {
                lemma_strip_colored(Color::Type, t, r);
                assert(asm_tokens(l, i) + seq!['\n'] =~= colored(Color::Type, t) + r);
            } else if number_starts(l, i) {
                lemma_strip_colored(Color::Number, t, r);
                assert(asm_tokens(l, i) + seq!['\n'] =~= colored(Color::Number, t) + r);
            } else if word_start(c) {
                if all_white(l.subrange(0, i)) {
                    lemma_strip_colored(Color::Keyword, t, r);
                    assert(asm_tokens(l, i) + seq!['\n'] =~= colored(Color::Keyword, t) + r);
                } else {
                    lemma_strip_plain(t, r);
                    assert(asm_tokens(l, i) + seq!['\n'] =~= t + r);
                }
            } else {
                assert(t =~= seq![c]);
                lemma_strip_plain(t, r);
                assert(asm_tokens(l, i) + seq!['\n'] =~= t + r);
            }
            assert(t + (l.subrange(e, l.len() as int) + seq!['\n']) =~= l.subrange(
                i,
                l.len() as int,
            ) + seq!['\n']);
        }
    } else {
        assert(asm_tokens(l, i) + seq!['\n'] =~= seq!['\n']);
        assert(l.subrange(i, l.len() as int) + seq!['\n'] =~= seq!['\n']);
    }
}

/// Highlighting a line of assembly only adds colour codes: with them
/// removed, the line comes back with its line break (for a line without
/// escape characters).
pub proof fn law_highlight_asm_line_keeps_text(l: Seq<char>)
    requires
        no_escape(l),
    ensures
        strip_escapes(asm_line(l)) == l + seq!['\n'],
{
    let t = trim_start(l);
    assert(l.subrange(0, l.len() as int) =~= l);
    lemma_strip_plain(seq!['\n'], Seq::empty());
    assert(seq!['\n'] + Seq::<char>::empty() =~= seq!['\n']);
    assert(strip_escapes(Seq::<char>::empty()) =~= Seq::<char>::empty());
    if starts_with(t, "#"@) {
        lemma_strip_colored(Color::Comment, l, seq!['\n']);
    } else if ends_with_char(t, ':') {
        lemma_strip_colored(Color::Label, l, seq!['\n']);
    } else {
        lemma_asm_tokens_keep_text(l, 0);
    }
}


/// The colour in which the tree drawing shows a node of each kind.
pub open spec fn kind_color(e: ExprV) -> Color {
    match e {
        ExprV::BlockStmt(_) | ExprV::LetStmt(_, _, _) | ExprV::List(_) | ExprV::ListIndex(_, _)
        | ExprV::ListAssign(_, _, _) => Color::Type,
        ExprV::FuncStmt(_, _, _, _) | ExprV::FuncArg(_, _) => Color::Function,
        ExprV::IfStmt(_, _, _) | ExprV::WhileStmt(_, _) | ExprV::ForStmt(_, _, _, _, _)
        | ExprV::ReturnStmt(_) | ExprV::BreakStmt => Color::Keyword,
        ExprV::Binary(_, _, _) | ExprV::Grouping(_) | ExprV::CallStmt(_, _) | ExprV::Print(_)
        | ExprV::Len(_) => Color::Label,
        ExprV::Number(_) | ExprV::Number64(_) | ExprV::Str(_) | ExprV::Bool(_) | ExprV::Nil => Color::Literal,
        ExprV::Variable(_) => Color::Variable,
    }
}

proof fn lemma_same_prefix(l: Seq<char>, k: Seq<char>, p: Seq<char>)
    requires
        starts_with(l, k),
        l.len() == k.len() || l[k.len() as int] == '(',
        forall|x: int| 0 <= x < p.len() ==> p[x] != '(',
    ensures
        starts_with(l, p) == starts_with(k, p),
{
    if p.len() <= k.len() {
        assert(l.subrange(0, p.len() as int) =~= k.subrange(0, p.len() as int)) by {
            assert forall|x: int| 0 <= x < p.len() implies l.subrange(0, p.len() as int)[x]
                == k.subrange(0, p.len() as int)[x] by {
                assert(l[x] == l.subrange(0, k.len() as int)[x]);
            }
        }
        assert(k.subrange(0, p.len() as int) =~= k.subrange(0, p.len() as int));
    } else if starts_with(l, p) {
        assert(l.len() != k.len());
        assert(l[k.len() as int] == l.subrange(0, p.len() as int)[k.len() as int]);
    }
}

proof fn lemma_differs_at(k: Seq<char>, p: Seq<char>, j: int)
    requires
        0 <= j < p.len(),
        j < k.len(),
        k[j] != p[j],
    ensures
        !starts_with(k, p),
{
    if starts_with(k, p) {
        assert(k.subrange(0, p.len() as int)[j] == k[j]);
    }
}

proof fn lemma_too_short(k: Seq<char>, p: Seq<char>)
    requires
        k.len() < p.len(),
    ensures
        !starts_with(k, p),
{
}

/// The colour of each kind's own name.
proof fn lemma_kind_name_color(e: ExprV)
    ensures
        ast_color(kind_name(e)) == kind_color(e),
{
    reveal_strlit("BlockStmt");
    reveal_strlit("LetStmt");
    reveal_strlit("List");
    reveal_strlit("ListIndex");
    reveal_strlit("ListAssign");
    reveal_strlit("FuncStmt");
    reveal_strlit("FuncArg");
    reveal_strlit("IfStmt");
    reveal_strlit("WhileStmt");
    reveal_strlit("ForStmt");
    reveal_strlit("ReturnStmt");
    reveal_strlit("BreakStmt");
    reveal_strlit("Binary");
    reveal_strlit("Grouping");
    reveal_strlit("CallStmt");
    reveal_strlit("Print");
    reveal_strlit("Len");
    reveal_strlit("Number");
    reveal_strlit("Number64");
    reveal_strlit("String");
    reveal_strlit("Bool");
    reveal_strlit("Nil");
    reveal_strlit("Variable");
    let k = kind_name(e);
    match e {
        ExprV::Number(_) => {
            assert(k =~= seq!['N', 'u', 'm', 'b', 'e', 'r']);
            lemma_differs_at(k, "BlockStmt"@, 0);
            lemma_differs_at(k, "LetStmt"@, 0);
            lemma_differs_at(k, "List"@, 0);
            lemma_differs_at(k, "ListIndex"@, 0);
            lemma_differs_at(k, "ListAssign"@, 0);
            lemma_differs_at(k, "FuncStmt"@, 0);
            lemma_differs_at(k, "FuncArg"@, 0);
            lemma_differs_at(k, "IfStmt"@, 0);
            lemma_differs_at(k, "WhileStmt"@, 0);
            lemma_differs_at(k, "ForStmt"@, 0);
            lemma_differs_at(k, "ReturnStmt"@, 0);
            lemma_differs_at(k, "BreakStmt"@, 0);
            lemma_differs_at(k, "Binary"@, 0);
            lemma_differs_at(k, "Grouping"@, 0);
            lemma_differs_at(k, "CallStmt"@, 0);
            lemma_differs_at(k, "Print"@, 0);
            lemma_differs_at(k, "Len"@, 0);
            assert(k.subrange(0, 6) =~= seq!['N', 'u', 'm', 'b', 'e', 'r']);
            assert("Number"@ =~= seq!['N', 'u', 'm', 'b', 'e', 'r']);
            assert(starts_with(k, "Number"@));
        },
        ExprV::Number64(_) => {
            assert(k =~= seq!['N', 'u', 'm', 'b', 'e', 'r', '6', '4']);
            lemma_differs_at(k, "BlockStmt"@, 0);
            lemma_differs_at(k, "LetStmt"@, 0);
            lemma_differs_at(k, "List"@, 0);
            lemma_differs_at(k, "ListIndex"@, 0);
            lemma_differs_at(k, "ListAssign"@, 0);
            lemma_differs_at(k, "FuncStmt"@, 0);
            lemma_differs_at(k, "FuncArg"@, 0);
            lemma_differs_at(k, "IfStmt"@, 0);
            lemma_differs_at(k, "WhileStmt"@, 0);
            lemma_differs_at(k, "ForStmt"@, 0);
            lemma_differs_at(k, "ReturnStmt"@, 0);
            lemma_differs_at(k, "BreakStmt"@, 0);
            lemma_differs_at(k, "Binary"@, 0);
            lemma_differs_at(k, "Grouping"@, 0);
            lemma_differs_at(k, "CallStmt"@, 0);
            lemma_differs_at(k, "Print"@, 0);
            lemma_differs_at(k, "Len"@, 0);
            assert(k.subrange(0, 6) =~= seq!['N', 'u', 'm', 'b', 'e', 'r']);
            assert("Number"@ =~= seq!['N', 'u', 'm', 'b', 'e', 'r']);
            assert(starts_with(k, "Number"@));
        },
        ExprV::Str(_) => {
            assert(k =~= seq!['S', 't', 'r', 'i', 'n', 'g']);
            lemma_differs_at(k, "BlockStmt"@, 0);
            lemma_differs_at(k, "LetStmt"@, 0);
            lemma_differs_at(k, "List"@, 0);
            lemma_differs_at(k, "ListIndex"@, 0);
            lemma_differs_at(k, "ListAssign"@, 0);
            lemma_differs_at(k, "FuncStmt"@, 0);
            lemma_differs_at(k, "FuncArg"@, 0);
            lemma_differs_at(k, "IfStmt"@, 0);
            lemma_differs_at(k, "WhileStmt"@, 0);
            lemma_differs_at(k, "ForStmt"@, 0);
            lemma_differs_at(k, "ReturnStmt"@, 0);
            lemma_differs_at(k, "BreakStmt"@, 0);
            lemma_differs_at(k, "Binary"@, 0);
            lemma_differs_at(k, "Grouping"@, 0);
            lemma_differs_at(k, "CallStmt"@, 0);
            lemma_differs_at(k, "Print"@, 0);
            lemma_differs_at(k, "Len"@, 0);
            lemma_differs_at(k, "Number"@, 0);
            lemma_differs_at(k, "Number64"@, 0);
            assert(k.subrange(0, 6) =~= seq!['S', 't', 'r', 'i', 'n', 'g']);
            assert("String"@ =~= seq!['S', 't', 'r', 'i', 'n', 'g']);
            assert(starts_with(k, "String"@));
        },
        ExprV::Bool(_) => {
            assert(k =~= seq!['B', 'o', 'o', 'l']);
            lemma_differs_at(k, "BlockStmt"@, 1);
            lemma_differs_at(k, "LetStmt"@, 0);
            lemma_differs_at(k, "List"@, 0);
            lemma_differs_at(k, "ListIndex"@, 0);
            lemma_differs_at(k, "ListAssign"@, 0);
            lemma_differs_at(k, "FuncStmt"@, 0);
            lemma_differs_at(k, "FuncArg"@, 0);
            lemma_differs_at(k, "IfStmt"@, 0);
            lemma_differs_at(k, "WhileStmt"@, 0);
            lemma_differs_at(k, "ForStmt"@, 0);
            lemma_differs_at(k, "ReturnStmt"@, 0);
            lemma_differs_at(k, "BreakStmt"@, 1);
            lemma_differs_at(k, "Binary"@, 1);
            lemma_differs_at(k, "Grouping"@, 0);
            lemma_differs_at(k, "CallStmt"@, 0);
            lemma_differs_at(k, "Print"@, 0);
            lemma_differs_at(k, "Len"@, 0);
            lemma_differs_at(k, "Number"@, 0);
            lemma_differs_at(k, "Number64"@, 0);
            lemma_differs_at(k, "String"@, 0);
            assert(k.subrange(0, 4) =~= seq!['B', 'o', 'o', 'l']);
            assert("Bool"@ =~= seq!['B', 'o', 'o', 'l']);
            assert(starts_with(k, "Bool"@));
        },
        ExprV::Nil => {
            assert(k =~= seq!['N', 'i', 'l']);
            lemma_differs_at(k, "BlockStmt"@, 0);
            lemma_differs_at(k, "LetStmt"@, 0);
            lemma_differs_at(k, "List"@, 0);
            lemma_differs_at(k, "ListIndex"@, 0);
            lemma_differs_at(k, "ListAssign"@, 0);
            lemma_differs_at(k, "FuncStmt"@, 0);
            lemma_differs_at(k, "FuncArg"@, 0);
            lemma_differs_at(k, "IfStmt"@, 0);
            lemma_differs_at(k, "WhileStmt"@, 0);
            lemma_differs_at(k, "ForStmt"@, 0);
            lemma_differs_at(k, "ReturnStmt"@, 0);
            lemma_differs_at(k, "BreakStmt"@, 0);
            lemma_differs_at(k, "Binary"@, 0);
            lemma_differs_at(k, "Grouping"@, 0);
            lemma_differs_at(k, "CallStmt"@, 0);
            lemma_differs_at(k, "Print"@, 0);
            lemma_differs_at(k, "Len"@, 0);
            lemma_differs_at(k, "Number"@, 1);
            lemma_differs_at(k, "Number64"@, 1);
            lemma_differs_at(k, "String"@, 0);
            lemma_differs_at(k, "Bool"@, 0);
            assert(k.subrange(0, 3) =~= seq!['N', 'i', 'l']);
            assert("Nil"@ =~= seq!['N', 'i', 'l']);
            assert(starts_with(k, "Nil"@));
        },
        ExprV::List(_) => {
            assert(k =~= seq!['L', 'i', 's', 't']);
            lemma_differs_at(k, "BlockStmt"@, 0);
            lemma_differs_at(k, "LetStmt"@, 1);
            assert(k.subrange(0, 4) =~= seq!['L', 'i', 's', 't']);
            assert("List"@ =~= seq!['L', 'i', 's', 't']);
            assert(starts_with(k, "List"@));
        },
        ExprV::ListIndex(_, _) => {
            assert(k =~= seq!['L', 'i', 's', 't', 'I', 'n', 'd', 'e', 'x']);
            lemma_differs_at(k, "BlockStmt"@, 0);
            lemma_differs_at(k, "LetStmt"@, 1);
            assert(k.subrange(0, 4) =~= seq!['L', 'i', 's', 't']);
            assert("List"@ =~= seq!['L', 'i', 's', 't']);
            assert(starts_with(k, "List"@));
        },
        ExprV::ListAssign(_, _, _) => {
            assert(k =~= seq!['L', 'i', 's', 't', 'A', 's', 's', 'i', 'g', 'n']);
            lemma_differs_at(k, "BlockStmt"@, 0);
            lemma_differs_at(k, "LetStmt"@, 1);
            assert(k.subrange(0, 4) =~= seq!['L', 'i', 's', 't']);
            assert("List"@ =~= seq!['L', 'i', 's', 't']);
            assert(starts_with(k, "List"@));
        },
        ExprV::Variable(_) => {
            assert(k =~= seq!['V', 'a', 'r', 'i', 'a', 'b', 'l', 'e']);
            lemma_differs_at(k, "BlockStmt"@, 0);
            lemma_differs_at(k, "LetStmt"@, 0);
            lemma_differs_at(k, "List"@, 0);
            lemma_differs_at(k, "ListIndex"@, 0);
            lemma_differs_at(k, "ListAssign"@, 0);
            lemma_differs_at(k, "FuncStmt"@, 0);
            lemma_differs_at(k, "FuncArg"@, 0);
            lemma_differs_at(k, "IfStmt"@, 0);
            lemma_differs_at(k, "WhileStmt"@, 0);
            lemma_differs_at(k, "ForStmt"@, 0);
            lemma_differs_at(k, "ReturnStmt"@, 0);
            lemma_differs_at(k, "BreakStmt"@, 0);
            lemma_differs_at(k, "Binary"@, 0);
            lemma_differs_at(k, "Grouping"@, 0);
            lemma_differs_at(k, "CallStmt"@, 0);
            lemma_differs_at(k, "Print"@, 0);
            lemma_differs_at(k, "Len"@, 0);
            lemma_differs_at(k, "Number"@, 0);
            lemma_differs_at(k, "Number64"@, 0);
            lemma_differs_at(k, "String"@, 0);
            lemma_differs_at(k, "Bool"@, 0);
            lemma_differs_at(k, "Nil"@, 0);
            assert(k.subrange(0, 8) =~= seq!['V', 'a', 'r', 'i', 'a', 'b', 'l', 'e']);
            assert("Variable"@ =~= seq!['V', 'a', 'r', 'i', 'a', 'b', 'l', 'e']);
            assert(starts_with(k, "Variable"@));
        },
        ExprV::Binary(_, _, _) => {
            assert(k =~= seq!['B', 'i', 'n', 'a', 'r', 'y']);
            lemma_differs_at(k, "BlockStmt"@, 1);
            lemma_differs_at(k, "LetStmt"@, 0);
            lemma_differs_at(k, "List"@, 0);
            lemma_differs_at(k, "ListIndex"@, 0);
            lemma_differs_at(k, "ListAssign"@, 0);
            lemma_differs_at(k, "FuncStmt"@, 0);
            lemma_differs_at(k, "FuncArg"@, 0);
            lemma_differs_at(k, "IfStmt"@, 0);
            lemma_differs_at(k, "WhileStmt"@, 0);
            lemma_differs_at(k, "ForStmt"@, 0);
            lemma_differs_at(k, "ReturnStmt"@, 0);
            lemma_differs_at(k, "BreakStmt"@, 1);
            assert(k.subrange(0, 6) =~= seq!['B', 'i', 'n', 'a', 'r', 'y']);
            assert("Binary"@ =~= seq!['B', 'i', 'n', 'a', 'r', 'y']);
            assert(starts_with(k, "Binary"@));
        },
        ExprV::Grouping(_) => {
            assert(k =~= seq!['G', 'r', 'o', 'u', 'p', 'i', 'n', 'g']);
            lemma_differs_at(k, "BlockStmt"@, 0);
            lemma_differs_at(k, "LetStmt"@, 0);
            lemma_differs_at(k, "List"@, 0);
            lemma_differs_at(k, "ListIndex"@, 0);
            lemma_differs_at(k, "ListAssign"@, 0);
            lemma_differs_at(k, "FuncStmt"@, 0);
            lemma_differs_at(k, "FuncArg"@, 0);
            lemma_differs_at(k, "IfStmt"@, 0);
            lemma_differs_at(k, "WhileStmt"@, 0);
            lemma_differs_at(k, "ForStmt"@, 0);
            lemma_differs_at(k, "ReturnStmt"@, 0);
            lemma_differs_at(k, "BreakStmt"@, 0);
            lemma_differs_at(k, "Binary"@, 0);
            assert(k.subrange(0, 8) =~= seq!['G', 'r', 'o', 'u', 'p', 'i', 'n', 'g']);
            assert("Grouping"@ =~= seq!['G', 'r', 'o', 'u', 'p', 'i', 'n', 'g']);
            assert(starts_with(k, "Grouping"@));
        },
        ExprV::LetStmt(_, _, _) => {
            assert(k =~= seq!['L', 'e', 't', 'S', 't', 'm', 't']);
            lemma_differs_at(k, "BlockStmt"@, 0);
            assert(k.subrange(0, 7) =~= seq!['L', 'e', 't', 'S', 't', 'm', 't']);
            assert("LetStmt"@ =~= seq!['L', 'e', 't', 'S', 't', 'm', 't']);
            assert(starts_with(k, "LetStmt"@));
        },
        ExprV::BlockStmt(_) => {
            assert(k =~= seq!['B', 'l', 'o', 'c', 'k', 'S', 't', 'm', 't']);
            assert(k.subrange(0, 9) =~= seq!['B', 'l', 'o', 'c', 'k', 'S', 't', 'm', 't']);
            assert("BlockStmt"@ =~= seq!['B', 'l', 'o', 'c', 'k', 'S', 't', 'm', 't']);
            assert(starts_with(k, "BlockStmt"@));
        },
        ExprV::FuncArg(_, _) => {
            assert(k =~= seq!['F', 'u', 'n', 'c', 'A', 'r', 'g']);
            lemma_differs_at(k, "BlockStmt"@, 0);
            lemma_differs_at(k, "LetStmt"@, 0);
            lemma_differs_at(k, "List"@, 0);
            lemma_differs_at(k, "ListIndex"@, 0);
            lemma_differs_at(k, "ListAssign"@, 0);
            lemma_differs_at(k, "FuncStmt"@, 4);
            assert(k.subrange(0, 7) =~= seq!['F', 'u', 'n', 'c', 'A', 'r', 'g']);
            assert("FuncArg"@ =~= seq!['F', 'u', 'n', 'c', 'A', 'r', 'g']);
            assert(starts_with(k, "FuncArg"@));
        },
        ExprV::FuncStmt(_, _, _, _) => {
            assert(k =~= seq!['F', 'u', 'n', 'c', 'S', 't', 'm', 't']);
            lemma_differs_at(k, "BlockStmt"@, 0);
            lemma_differs_at(k, "LetStmt"@, 0);
            lemma_differs_at(k, "List"@, 0);
            lemma_differs_at(k, "ListIndex"@, 0);
            lemma_differs_at(k, "ListAssign"@, 0);
            assert(k.subrange(0, 8) =~= seq!['F', 'u', 'n', 'c', 'S', 't', 'm', 't']);
            assert("FuncStmt"@ =~= seq!['F', 'u', 'n', 'c', 'S', 't', 'm', 't']);
            assert(starts_with(k, "FuncStmt"@));
        },
        ExprV::CallStmt(_, _) => {
            assert(k =~= seq!['C', 'a', 'l', 'l', 'S', 't', 'm', 't']);
            lemma_differs_at(k, "BlockStmt"@, 0);
            lemma_differs_at(k, "LetStmt"@, 0);
            lemma_differs_at(k, "List"@, 0);
            lemma_differs_at(k, "ListIndex"@, 0);
            lemma_differs_at(k, "ListAssign"@, 0);
            lemma_differs_at(k, "FuncStmt"@, 0);
            lemma_differs_at(k, "FuncArg"@, 0);
            lemma_differs_at(k, "IfStmt"@, 0);
            lemma_differs_at(k, "WhileStmt"@, 0);
            lemma_differs_at(k, "ForStmt"@, 0);
            lemma_differs_at(k, "ReturnStmt"@, 0);
            lemma_differs_at(k, "BreakStmt"@, 0);
            lemma_differs_at(k, "Binary"@, 0);
            lemma_differs_at(k, "Grouping"@, 0);
            assert(k.subrange(0, 8) =~= seq!['C', 'a', 'l', 'l', 'S', 't', 'm', 't']);
            assert("CallStmt"@ =~= seq!['C', 'a', 'l', 'l', 'S', 't', 'm', 't']);
            assert(starts_with(k, "CallStmt"@));
        },
        ExprV::IfStmt(_, _, _) => {
            assert(k =~= seq!['I', 'f', 'S', 't', 'm', 't']);
            lemma_differs_at(k, "BlockStmt"@, 0);
            lemma_differs_at(k, "LetStmt"@, 0);
            lemma_differs_at(k, "List"@, 0);
            lemma_differs_at(k, "ListIndex"@, 0);
            lemma_differs_at(k, "ListAssign"@, 0);
            lemma_differs_at(k, "FuncStmt"@, 0);
            lemma_differs_at(k, "FuncArg"@, 0);
            assert(k.subrange(0, 6) =~= seq!['I', 'f', 'S', 't', 'm', 't']);
            assert("IfStmt"@ =~= seq!['I', 'f', 'S', 't', 'm', 't']);
            assert(starts_with(k, "IfStmt"@));
        },
        ExprV::WhileStmt(_, _) => {
            assert(k =~= seq!['W', 'h', 'i', 'l', 'e', 'S', 't', 'm', 't']);
            lemma_differs_at(k, "BlockStmt"@, 0);
            lemma_differs_at(k, "LetStmt"@, 0);
            lemma_differs_at(k, "List"@, 0);
            lemma_differs_at(k, "ListIndex"@, 0);
            lemma_differs_at(k, "ListAssign"@, 0);
            lemma_differs_at(k, "FuncStmt"@, 0);
            lemma_differs_at(k, "FuncArg"@, 0);
            lemma_differs_at(k, "IfStmt"@, 0);
            assert(k.subrange(0, 9) =~= seq!['W', 'h', 'i', 'l', 'e', 'S', 't', 'm', 't']);
            assert("WhileStmt"@ =~= seq!['W', 'h', 'i', 'l', 'e', 'S', 't', 'm', 't']);
            assert(starts_with(k, "WhileStmt"@));
        },
        ExprV::ReturnStmt(_) => {
            assert(k =~= seq!['R', 'e', 't', 'u', 'r', 'n', 'S', 't', 'm', 't']);
            lemma_differs_at(k, "BlockStmt"@, 0);
            lemma_differs_at(k, "LetStmt"@, 0);
            lemma_differs_at(k, "List"@, 0);
            lemma_differs_at(k, "ListIndex"@, 0);
            lemma_differs_at(k, "ListAssign"@, 0);
            lemma_differs_at(k, "FuncStmt"@, 0);
            lemma_differs_at(k, "FuncArg"@, 0);
            lemma_differs_at(k, "IfStmt"@, 0);
            lemma_differs_at(k, "WhileStmt"@, 0);
            lemma_differs_at(k, "ForStmt"@, 0);
            assert(k.subrange(0, 10) =~= seq!['R', 'e', 't', 'u', 'r', 'n', 'S', 't', 'm', 't']);
            assert("ReturnStmt"@ =~= seq!['R', 'e', 't', 'u', 'r', 'n', 'S', 't', 'm', 't']);
            assert(starts_with(k, "ReturnStmt"@));
        },
        ExprV::ForStmt(_, _, _, _, _) => {
            assert(k =~= seq!['F', 'o', 'r', 'S', 't', 'm', 't']);
            lemma_differs_at(k, "BlockStmt"@, 0);
            lemma_differs_at(k, "LetStmt"@, 0);
            lemma_differs_at(k, "List"@, 0);
            lemma_differs_at(k, "ListIndex"@, 0);
            lemma_differs_at(k, "ListAssign"@, 0);
            lemma_differs_at(k, "FuncStmt"@, 1);
            lemma_differs_at(k, "FuncArg"@, 1);
            lemma_differs_at(k, "IfStmt"@, 0);
            lemma_differs_at(k, "WhileStmt"@, 0);
            assert(k.subrange(0, 7) =~= seq!['F', 'o', 'r', 'S', 't', 'm', 't']);
            assert("ForStmt"@ =~= seq!['F', 'o', 'r', 'S', 't', 'm', 't']);
            assert(starts_with(k, "ForStmt"@));
        },
        ExprV::Print(_) => {
            assert(k =~= seq!['P', 'r', 'i', 'n', 't']);
            lemma_differs_at(k, "BlockStmt"@, 0);
            lemma_differs_at(k, "LetStmt"@, 0);
            lemma_differs_at(k, "List"@, 0);
            lemma_differs_at(k, "ListIndex"@, 0);
            lemma_differs_at(k, "ListAssign"@, 0);
            lemma_differs_at(k, "FuncStmt"@, 0);
            lemma_differs_at(k, "FuncArg"@, 0);
            lemma_differs_at(k, "IfStmt"@, 0);
            lemma_differs_at(k, "WhileStmt"@, 0);
            lemma_differs_at(k, "ForStmt"@, 0);
            lemma_differs_at(k, "ReturnStmt"@, 0);
            lemma_differs_at(k, "BreakStmt"@, 0);
            lemma_differs_at(k, "Binary"@, 0);
            lemma_differs_at(k, "Grouping"@, 0);
            lemma_differs_at(k, "CallStmt"@, 0);
            assert(k.subrange(0, 5) =~= seq!['P', 'r', 'i', 'n', 't']);
            assert("Print"@ =~= seq!['P', 'r', 'i', 'n', 't']);
            assert(starts_with(k, "Print"@));
        },
        ExprV::Len(_) => {
            assert(k =~= seq!['L', 'e', 'n']);
            lemma_differs_at(k, "BlockStmt"@, 0);
            lemma_differs_at(k, "LetStmt"@, 2);
            lemma_differs_at(k, "List"@, 1);
            lemma_differs_at(k, "ListIndex"@, 1);
            lemma_differs_at(k, "ListAssign"@, 1);
            lemma_differs_at(k, "FuncStmt"@, 0);
            lemma_differs_at(k, "FuncArg"@, 0);
            lemma_differs_at(k, "IfStmt"@, 0);
            lemma_differs_at(k, "WhileStmt"@, 0);
            lemma_differs_at(k, "ForStmt"@, 0);
            lemma_differs_at(k, "ReturnStmt"@, 0);
            lemma_differs_at(k, "BreakStmt"@, 0);
            lemma_differs_at(k, "Binary"@, 0);
            lemma_differs_at(k, "Grouping"@, 0);
            lemma_differs_at(k, "CallStmt"@, 0);
            lemma_differs_at(k, "Print"@, 0);
            assert(k.subrange(0, 3) =~= seq!['L', 'e', 'n']);
            assert("Len"@ =~= seq!['L', 'e', 'n']);
            assert(starts_with(k, "Len"@));
        },
        ExprV::BreakStmt => {
            assert(k =~= seq!['B', 'r', 'e', 'a', 'k', 'S', 't', 'm', 't']);
            lemma_differs_at(k, "BlockStmt"@, 1);
            lemma_differs_at(k, "LetStmt"@, 0);
            lemma_differs_at(k, "List"@, 0);
            lemma_differs_at(k, "ListIndex"@, 0);
            lemma_differs_at(k, "ListAssign"@, 0);
            lemma_differs_at(k, "FuncStmt"@, 0);
            lemma_differs_at(k, "FuncArg"@, 0);
            lemma_differs_at(k, "IfStmt"@, 0);
            lemma_differs_at(k, "WhileStmt"@, 0);
            lemma_differs_at(k, "ForStmt"@, 0);
            lemma_differs_at(k, "ReturnStmt"@, 0);
            assert(k.subrange(0, 9) =~= seq!['B', 'r', 'e', 'a', 'k', 'S', 't', 'm', 't']);
            assert("BreakStmt"@ =~= seq!['B', 'r', 'e', 'a', 'k', 'S', 't', 'm', 't']);
            assert(starts_with(k, "BreakStmt"@));
        },
    }
}

/// In the highlighted tree drawing each node's label takes the colour of
/// its kind: blocks, bindings and lists in the type colour, functions in
/// the function colour, control flow in the keyword colour, operations in
/// the label colour, literals in the literal colour, variables in the
/// variable colour.
pub proof fn law_tree_labels_colored_by_kind(e: ExprV)
    ensures
        ast_color(node_label(e)) == kind_color(e),
{
    law_labels_name_their_kind(e, Seq::empty(), Seq::empty(), Seq::empty());
    lemma_kind_name_color(e);
    reveal_strlit("BlockStmt");
    reveal_strlit("LetStmt");
    reveal_strlit("List");
    reveal_strlit("ListIndex");
    reveal_strlit("ListAssign");
    reveal_strlit("FuncStmt");
    reveal_strlit("FuncArg");
    reveal_strlit("IfStmt");
    reveal_strlit("WhileStmt");
    reveal_strlit("ForStmt");
    reveal_strlit("ReturnStmt");
    reveal_strlit("BreakStmt");
    reveal_strlit("Binary");
    reveal_strlit("Grouping");
    reveal_strlit("CallStmt");
    reveal_strlit("Print");
    reveal_strlit("Len");
    reveal_strlit("Number");
    reveal_strlit("Number64");
    reveal_strlit("String");
    reveal_strlit("Bool");
    reveal_strlit("Nil");
    reveal_strlit("Variable");
    reveal_strlit("Args");
    reveal_strlit("Body");
    reveal_strlit("Condition");
    reveal_strlit("Then");
    reveal_strlit("Else");
    reveal_strlit("Program");
    let l = node_label(e);
    let k = kind_name(e);
    assert(k.subrange(0, k.len() as int) =~= k);
    assert(starts_with(l, k));
    lemma_same_prefix(l, k, "BlockStmt"@);
    lemma_same_prefix(l, k, "LetStmt"@);
    lemma_same_prefix(l, k, "List"@);
    lemma_same_prefix(l, k, "ListIndex"@);
    lemma_same_prefix(l, k, "ListAssign"@);
    lemma_same_prefix(l, k, "FuncStmt"@);
    lemma_same_prefix(l, k, "FuncArg"@);
    lemma_same_prefix(l, k, "IfStmt"@);
    lemma_same_prefix(l, k, "WhileStmt"@);
    lemma_same_prefix(l, k, "ForStmt"@);
    lemma_same_prefix(l, k, "ReturnStmt"@);
    lemma_same_prefix(l, k, "BreakStmt"@);
    lemma_same_prefix(l, k, "Binary"@);
    lemma_same_prefix(l, k, "Grouping"@);
    lemma_same_prefix(l, k, "CallStmt"@);
    lemma_same_prefix(l, k, "Print"@);
    lemma_same_prefix(l, k, "Len"@);
    lemma_same_prefix(l, k, "Number"@);
    lemma_same_prefix(l, k, "Number64"@);
    lemma_same_prefix(l, k, "String"@);
    lemma_same_prefix(l, k, "Bool"@);
    lemma_same_prefix(l, k, "Nil"@);
    lemma_same_prefix(l, k, "Variable"@);
}

} // verus!

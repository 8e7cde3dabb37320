//! The lexer: splits source text into tokens.
use vstd::prelude::*;
use crate::text::{chars_eq, chars_of, line_end, line_end_exec, slice_of};

verus! {

/// The kinds of token.
#[derive(Debug, Clone, Copy, PartialEq, Eq, Structural)]
pub enum TokKind {
    Ident,
    Number,
    Str,
    Let,
    Fn,
    If,
    Else,
    While,
    For,
    Return,
    Print,
    True,
    False,
    Nil,
    LParen,
    RParen,
    LBrace,
    RBrace,
    LBracket,
    RBracket,
    Comma,
    Semicolon,
    Colon,
    Arrow,
    Assign,
    Plus,
    Minus,
    Star,
    Slash,
    EqEq,
    NotEq,
    Lt,
    Le,
    Gt,
    Ge,
    PlusPlus,
    MinusMinus,
    Eof,
}

/// A token: its kind, its text, and the index of its first character.
#[derive(Debug)]
pub struct Token {
    pub kind: TokKind,
    pub text: Vec<char>,
    pub pos: usize,
}

/// The model of a [`Token`].
pub struct TokV {
    pub kind: TokKind,
    pub text: Seq<char>,
    pub pos: int,
}

impl View for Token {
    type V = TokV;

    open spec fn view(&self) -> TokV {
        TokV { kind: self.kind, text: self.text@, pos: self.pos as int }
    }
}

pub open spec fn tokens_model(v: Seq<Token>) -> Seq<TokV> {
    Seq::new(v.len(), |i: int| v[i]@)
}

/// Why the source text could not be read.
#[derive(Debug, Clone, Copy, PartialEq, Eq, Structural)]
pub enum ParseErrorKind {
    /// A character that starts no token.
    UnexpectedCharacter,
    /// A string literal without its closing quote.
    UnterminatedString,
    /// A token where the grammar allows none of its kind.
    UnexpectedToken,
    /// A number literal that is not an `i64`.
    InvalidNumber,
}

/// Where and why reading the source failed; `offset` counts characters.
#[derive(Debug, Clone, Copy, PartialEq, Eq, Structural)]
pub struct ParseError {
    pub offset: usize,
    pub kind: ParseErrorKind,
}

pub open spec fn is_ws(c: char) -> bool {
    c == ' ' || c == '\t' || c == '\n' || c == '\r'
}

pub open spec fn is_digit(c: char) -> bool {
    '0' <= c && c <= '9'
}

pub open spec fn is_ident_start(c: char) -> bool {
    ('a' <= c && c <= 'z') || ('A' <= c && c <= 'Z') || c == '_'
}

pub open spec fn is_ident_char(c: char) -> bool {
    is_ident_start(c) || is_digit(c)
}

/// The end of the run of identifier characters that starts at `i`.
pub open spec fn ident_end(s: Seq<char>, i: int) -> int
    decreases s.len() - i,
{
    if 0 <= i < s.len() && is_ident_char(s[i]) {
        ident_end(s, i + 1)
    } else {
        i
    }
}

/// The end of the run of digits that starts at `i`.
pub open spec fn digits_end(s: Seq<char>, i: int) -> int
    decreases s.len() - i,
{
    if 0 <= i < s.len() && is_digit(s[i]) {
        digits_end(s, i + 1)
    } else {
        i
    }
}

/// The index of the first `"` at or after `i`, if any.
pub open spec fn quote_at_or_after(s: Seq<char>, i: int) -> Option<int>
    decreases s.len() - i,
{
    if i < 0 || i >= s.len() {
        None
    } else if s[i] == '"' {
        Some(i)
    } else {
        quote_at_or_after(s, i + 1)
    }
}

/// The kind of a word: a keyword, or an identifier.
pub open spec fn word_kind(w: Seq<char>) -> TokKind {
    if w == "let"@ {
        TokKind::Let
    } else if w == "fn"@ {
        TokKind::Fn
    } else if w == "if"@ {
        TokKind::If
    } else if w == "else"@ {
        TokKind::Else
    } else if w == "while"@ {
        TokKind::While
    } else if w == "for"@ {
        TokKind::For
    } else if w == "return"@ {
        TokKind::Return
    } else if w == "print"@ {
        TokKind::Print
    } else if w == "true"@ {
        TokKind::True
    } else if w == "false"@ {
        TokKind::False
    } else if w == "nil"@ {
        TokKind::Nil
    } else {
        TokKind::Ident
    }
}

/// The two-character operator that starts at `i`, if any.
pub open spec fn two_char_kind(c1: char, c2: char) -> Option<TokKind> {
    if c1 == '-' && c2 == '>' {
        Some(TokKind::Arrow)
    } else if c1 == '-' && c2 == '-' {
        Some(TokKind::MinusMinus)
    } else if c1 == '+' && c2 == '+' {
        Some(TokKind::PlusPlus)
    } else if c1 == '=' && c2 == '=' {
        Some(TokKind::EqEq)
    } else if c1 == '!' && c2 == '=' {
        Some(TokKind::NotEq)
    } else if c1 == '<' && c2 == '=' {
        Some(TokKind::Le)
    } else if c1 == '>' && c2 == '=' {
        Some(TokKind::Ge)
    } else {
        None
    }
}

/// The one-character token `c`, if it is one.
pub open spec fn one_char_kind(c: char) -> Option<TokKind> {
    if c == '(' {
        Some(TokKind::LParen)
    } else if c == ')' {
        Some(TokKind::RParen)
    } else if c == '{' {
        Some(TokKind::LBrace)
    } else if c == '}' {
        Some(TokKind::RBrace)
    } else if c == '[' {
        Some(TokKind::LBracket)
    } else if c == ']' {
        Some(TokKind::RBracket)
    } else if c == ',' {
        Some(TokKind::Comma)
    } else if c == ';' {
        Some(TokKind::Semicolon)
    } else if c == ':' {
        Some(TokKind::Colon)
    } else if c == '=' {
        Some(TokKind::Assign)
    } else if c == '+' {
        Some(TokKind::Plus)
    } else if c == '-' {
        Some(TokKind::Minus)
    } else if c == '*' {
        Some(TokKind::Star)
    } else if c == '/' {
        Some(TokKind::Slash)
    } else if c == '<' {
        Some(TokKind::Lt)
    } else if c == '>' {
        Some(TokKind::Gt)
    } else {
        None
    }
}

/// One step of the lexer at index `i`.
pub enum LexStep {
    /// Whitespace or a comment, up to the index given.
    Skip(int),
    /// A token of the given kind, up to the index given.
    Tok(TokKind, int),
    /// The text at `i` starts no token.
    Fail(ParseErrorKind),
}

/// What the lexer reads at index `i`: whitespace and `//` comments are
/// skipped; words, digit runs, string literals (quotes included) and
/// operators are tokens, the longest operator first.
pub open spec fn lex_step(s: Seq<char>, i: int) -> LexStep {
    let c = s[i];
    if is_ws(c) {
        LexStep::Skip(i + 1)
    } else if c == '/' && i + 1 < s.len() && s[i + 1] == '/' {
        LexStep::Skip(line_end(s, i + 2))
    } else if is_ident_start(c) {
        let e = ident_end(s, i + 1);
        LexStep::Tok(word_kind(s.subrange(i, e)), e)
    } else if is_digit(c) {
        LexStep::Tok(TokKind::Number, digits_end(s, i + 1))
    } else if c == '"' {
        match quote_at_or_after(s, i + 1) {
            Some(j) => LexStep::Tok(TokKind::Str, j + 1),
            None => LexStep::Fail(ParseErrorKind::UnterminatedString),
        }
    } else if i + 1 < s.len() && two_char_kind(c, s[i + 1]) is Some {
        LexStep::Tok(two_char_kind(c, s[i + 1])->0, i + 2)
    } else {
        match one_char_kind(c) {
            Some(k) => LexStep::Tok(k, i + 1),
            None => LexStep::Fail(ParseErrorKind::UnexpectedCharacter),
        }
    }
}

/// The tokens of `s` from index `i` on, after those in `acc`; the last token
/// is `Eof`, placed at the end of the text.
pub open spec fn lex_from(s: Seq<char>, i: int, acc: Seq<TokV>) -> Result<Seq<TokV>, (int, ParseErrorKind)>
    decreases s.len() - i,
{
    if i < 0 || i >= s.len() {
        Ok(acc.push(TokV { kind: TokKind::Eof, text: Seq::empty(), pos: s.len() as int }))
    } else {
        match lex_step(s, i) {
            LexStep::Skip(j) => if i < j <= s.len() {
                lex_from(s, j, acc)
            } else {
                Err((i, ParseErrorKind::UnexpectedCharacter))
            },
            LexStep::Tok(k, j) => if i < j <= s.len() {
                lex_from(s, j, acc.push(TokV { kind: k, text: s.subrange(i, j), pos: i }))
            } else {
                Err((i, ParseErrorKind::UnexpectedCharacter))
            },
            LexStep::Fail(k) => Err((i, k)),
        }
    }
}

/// The tokens of `s`.
pub open spec fn lex(s: Seq<char>) -> Result<Seq<TokV>, (int, ParseErrorKind)> {
    lex_from(s, 0, Seq::empty())
}

fn is_ws_exec(c: char) -> (r: bool)
    ensures
        r == is_ws(c),
{
    c == ' ' || c == '\t' || c == '\n' || c == '\r'
}

pub fn is_digit_exec(c: char) -> (r: bool)
    ensures
        r == is_digit(c),
{
    '0' <= c && c <= '9'
}

pub fn is_ident_start_exec(c: char) -> (r: bool)
    ensures
        r == is_ident_start(c),
{
    ('a' <= c && c <= 'z') || ('A' <= c && c <= 'Z') || c == '_'
}

fn is_ident_char_exec(c: char) -> (r: bool)
    ensures
        r == is_ident_char(c),
{
    is_ident_start_exec(c) || is_digit_exec(c)
}

/// Whether the characters `w` spell the word `lit`.
pub fn is_word(w: &Vec<char>, lit: &str) -> (r: bool)
    ensures
        r == (w@ == lit@),
{
    let l = chars_of(lit);
    chars_eq(w, &l)
}

fn word_kind_exec(w: &Vec<char>) -> (k: TokKind)
    ensures
        k == word_kind(w@),
{
    if is_word(w, "let") {
        TokKind::Let
    } else if is_word(w, "fn") {
        TokKind::Fn
    } else if is_word(w, "if") {
        TokKind::If
    } else if is_word(w, "else") {
        TokKind::Else
    } else if is_word(w, "while") {
        TokKind::While
    } else if is_word(w, "for") {
        TokKind::For
    } else if is_word(w, "return") {
        TokKind::Return
    } else if is_word(w, "print") {
        TokKind::Print
    } else if is_word(w, "true") {
        TokKind::True
    } else if is_word(w, "false") {
        TokKind::False
    } else if is_word(w, "nil") {
        TokKind::Nil
    } else {
        TokKind::Ident
    }
}

fn two_char_kind_exec(c1: char, c2: char) -> (r: Option<TokKind>)
    ensures
        r == two_char_kind(c1, c2),
{
    if c1 == '-' && c2 == '>' {
        Some(TokKind::Arrow)
    } else if c1 == '-' && c2 == '-' {
        Some(TokKind::MinusMinus)
    } else if c1 == '+' && c2 == '+' {
        Some(TokKind::PlusPlus)
    } else if c1 == '=' && c2 == '=' {
        Some(TokKind::EqEq)
    } else if c1 == '!' && c2 == '=' {
        Some(TokKind::NotEq)
    } else if c1 == '<' && c2 == '=' {
        Some(TokKind::Le)
    } else if c1 == '>' && c2 == '=' {
        Some(TokKind::Ge)
    } else {
        None
    }
}

fn one_char_kind_exec(c: char) -> (r: Option<TokKind>)
    ensures
        r == one_char_kind(c),
{
    if c == '(' {
        Some(TokKind::LParen)
    } else if c == ')' {
        Some(TokKind::RParen)
    } else if c == '{' {
        Some(TokKind::LBrace)
    } else if c == '}' {
        Some(TokKind::RBrace)
    } else if c == '[' {
        Some(TokKind::LBracket)
    } else if c == ']' {
        Some(TokKind::RBracket)
    } else if c == ',' {
        Some(TokKind::Comma)
    } else if c == ';' {
        Some(TokKind::Semicolon)
    } else if c == ':' {
        Some(TokKind::Colon)
    } else if c == '=' {
        Some(TokKind::Assign)
    } else if c == '+' {
        Some(TokKind::Plus)
    } else if c == '-' {
        Some(TokKind::Minus)
    } else if c == '*' {
        Some(TokKind::Star)
    } else if c == '/' {
        Some(TokKind::Slash)
    } else if c == '<' {
        Some(TokKind::Lt)
    } else if c == '>' {
        Some(TokKind::Gt)
    } else {
        None
    }
}

pub fn ident_end_exec(s: &Vec<char>, i: usize) -> (r: usize)
    requires
        i <= s@.len(),
    ensures
        r as int == ident_end(s@, i as int),
        i <= r <= s@.len(),
{
    let mut j = i;
    while j < s.len() && is_ident_char_exec(s[j])
        invariant
            i <= j <= s@.len(),
            ident_end(s@, i as int) == ident_end(s@, j as int),
        decreases s@.len() - j,
    {
        j = j + 1;
    }
    j
}

pub fn digits_end_exec(s: &Vec<char>, i: usize) -> (r: usize)
    requires
        i <= s@.len(),
    ensures
        r as int == digits_end(s@, i as int),
        i <= r <= s@.len(),
{
    let mut j = i;
    while j < s.len() && is_digit_exec(s[j])
        invariant
            i <= j <= s@.len(),
            digits_end(s@, i as int) == digits_end(s@, j as int),
        decreases s@.len() - j,
    {
        j = j + 1;
    }
    j
}

fn quote_at_or_after_exec(s: &Vec<char>, i: usize) -> (r: Option<usize>)
    requires
        i <= s@.len(),
    ensures
        match r {
            Some(j) => quote_at_or_after(s@, i as int) == Some(j as int) && i <= j < s@.len(),
            None => quote_at_or_after(s@, i as int) is None,
        },
{
    let mut j = i;
    while j < s.len()
        invariant
            i <= j <= s@.len(),
            quote_at_or_after(s@, i as int) == quote_at_or_after(s@, j as int),
        decreases s@.len() - j,
    {
        if s[j] == '"' {
            return Some(j);
        }
        j = j + 1;
    }
    None
}

/// The exec counterpart of [`LexStep`].
enum Step {
    Skip(usize),
    Tok(TokKind, usize),
    Fail(ParseErrorKind),
}

spec fn step_view(st: Step) -> LexStep {
    match st {
        Step::Skip(j) => LexStep::Skip(j as int),
        Step::Tok(k, j) => LexStep::Tok(k, j as int),
        Step::Fail(k) => LexStep::Fail(k),
    }
}

/// One step of the lexer at index `i` (see [`lex_step`]).
fn lex_step_exec(s: &Vec<char>, i: usize) -> (r: Step)
    requires
        i < s@.len(),
    ensures
        step_view(r) == lex_step(s@, i as int),
        match r {
            Step::Skip(j) => j <= s@.len(),
            Step::Tok(_, j) => j <= s@.len(),
            Step::Fail(_) => true,
        },
{
    let n = s.len();
    let c = s[i];
    if is_ws_exec(c) {
        Step::Skip(i + 1)
    } else if c == '/' && i + 1 < s.len() && s[i + 1] == '/' {
        Step::Skip(line_end_exec(s, i + 2))
    } else if is_ident_start_exec(c) {
        let e = ident_end_exec(s, i + 1);
        let w = slice_of(s, i, e);
        Step::Tok(word_kind_exec(&w), e)
    } else if is_digit_exec(c) {
        Step::Tok(TokKind::Number, digits_end_exec(s, i + 1))
    } else if c == '"' {
        match quote_at_or_after_exec(s, i + 1) {
            Some(j) => Step::Tok(TokKind::Str, j + 1),
            None => Step::Fail(ParseErrorKind::UnterminatedString),
        }
    } else {
        if i + 1 < s.len() {
            match two_char_kind_exec(c, s[i + 1]) {
                Some(k) => {
                    return Step::Tok(k, i + 2);
                },
                None => {},
            }
        }
        match one_char_kind_exec(c) {
            Some(k) => Step::Tok(k, i + 1),
            None => Step::Fail(ParseErrorKind::UnexpectedCharacter),
        }
    }
}

/// Splits the characters `s` into tokens (see [`lex`]).
pub fn tokenize(s: &Vec<char>) -> (r: Result<Vec<Token>, ParseError>)
    ensures
        match r {
            Ok(toks) => lex(s@) == Ok::<Seq<TokV>, (int, ParseErrorKind)>(tokens_model(toks@)),
            Err(e) => lex(s@) == Err::<Seq<TokV>, (int, ParseErrorKind)>((e.offset as int, e.kind)),
        },
{
    let mut toks: Vec<Token> = Vec::new();
    let mut i: usize = 0;
    assert(tokens_model(toks@) =~= Seq::<TokV>::empty());
    while i < s.len()
        invariant
            i <= s@.len(),
            lex(s@) == lex_from(s@, i as int, tokens_model(toks@)),
        decreases s@.len() - i,
    {
        match lex_step_exec(s, i) {
            Step::Skip(j) => {
                if j <= i || j > s.len() {
                    return Err(ParseError { offset: i, kind: ParseErrorKind::UnexpectedCharacter });
                }
                i = j;
            },
            Step::Tok(k, j) => {
                if j <= i || j > s.len() {
                    return Err(ParseError { offset: i, kind: ParseErrorKind::UnexpectedCharacter });
                }
                let text = slice_of(s, i, j);
                let ghost before = toks@;
                toks.push(Token { kind: k, text, pos: i });
                assert(tokens_model(toks@) =~= tokens_model(before).push(
                    TokV { kind: k, text: s@.subrange(i as int, j as int), pos: i as int },
                ));
                i = j;
            },
            Step::Fail(k) => {
                return Err(ParseError { offset: i, kind: k });
            },
        }
    }
    let ghost before = toks@;
    toks.push(Token { kind: TokKind::Eof, text: Vec::new(), pos: s.len() });
    assert(tokens_model(toks@) =~= tokens_model(before).push(
        TokV { kind: TokKind::Eof, text: Seq::empty(), pos: s@.len() as int },
    ));
    Ok(toks)
}

} // verus!

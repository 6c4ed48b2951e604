//! The lexical rules of S#, as spec functions over the source's characters.
use vstd::prelude::*;
use crate::lexer::token::{Kind, SpecToken};
use crate::text::{spec_is_alnum, spec_is_alpha, spec_is_digit, spec_is_whitespace};

verus! {

/// The 1-based line of the character at index `p`: one more than the
/// newlines before it.
pub open spec fn line_at(s: Seq<char>, p: int) -> nat
    decreases p,
{
    if p <= 0 {
        1
    } else if s[p - 1] == '\n' {
        line_at(s, p - 1) + 1
    } else {
        line_at(s, p - 1)
    }
}

/// The 1-based column of the character at index `p`: one more than the
/// characters since the last newline before it.
pub open spec fn column_at(s: Seq<char>, p: int) -> nat
    decreases p,
{
    if p <= 0 {
        1
    } else if s[p - 1] == '\n' {
        1
    } else {
        column_at(s, p - 1) + 1
    }
}

/// The first index at or after `p` that is neither whitespace nor inside a
/// comment (a `#` up to, not including, the next newline).
pub open spec fn skip_trivia(s: Seq<char>, p: int) -> int
    decreases s.len() - p, 0int,
{
    if 0 <= p < s.len() {
        if spec_is_whitespace(s[p]) {
            skip_trivia(s, p + 1)
        } else if s[p] == '#' {
            skip_comment(s, p + 1)
        } else {
            p
        }
    } else {
        p
    }
}

/// Inside a comment at `p`: skip to the newline, then go on skipping trivia.
pub open spec fn skip_comment(s: Seq<char>, p: int) -> int
    decreases s.len() - p, 1int,
{
    if 0 <= p < s.len() && s[p] != '\n' {
        skip_comment(s, p + 1)
    } else {
        skip_trivia(s, p)
    }
}

/// The index of the first `"` at or after `p`, if there is one.
pub open spec fn string_close(s: Seq<char>, p: int) -> Option<int>
    decreases s.len() - p,
{
    if p < 0 || p >= s.len() {
        None
    } else if s[p] == '"' {
        Some(p)
    } else {
        string_close(s, p + 1)
    }
}

/// Does a number literal go on at `p`: a digit, or a point followed by a digit?
pub open spec fn number_continues(s: Seq<char>, p: int) -> bool {
    0 <= p < s.len() && (spec_is_digit(s[p]) || (s[p] == '.' && p + 1 < s.len() && spec_is_digit(
        s[p + 1],
    )))
}

/// The end of the number literal that goes on at `p`.
pub open spec fn number_end(s: Seq<char>, p: int) -> int
    decreases s.len() - p,
{
    if number_continues(s, p) {
        number_end(s, p + 1)
    } else {
        p
    }
}

/// The end of the word (letters, digits, `_`) that goes on at `p`.
pub open spec fn word_end(s: Seq<char>, p: int) -> int
    decreases s.len() - p,
{
    if 0 <= p < s.len() && (spec_is_alnum(s[p]) || s[p] == '_') {
        word_end(s, p + 1)
    } else {
        p
    }
}

/// The number of decimal points in `t`.
pub open spec fn count_points(t: Seq<char>) -> nat
    decreases t.len(),
{
    if t.len() == 0 {
        0
    } else {
        count_points(t.drop_last()) + if t.last() == '.' {
            1nat
        } else {
            0nat
        }
    }
}

/// A word is a keyword or else an identifier.
pub open spec fn word_kind(w: Seq<char>) -> Kind {
    if w == "when"@ {
        Kind::When
    } else if w == "ask"@ {
        Kind::Ask
    } else if w == "save"@ {
        Kind::Save
    } else if w == "to"@ {
        Kind::To
    } else if w == "and"@ {
        Kind::And
    } else if w == "display"@ {
        Kind::Display
    } else if w == "if"@ {
        Kind::If
    } else if w == "repeat"@ {
        Kind::Repeat
    } else if w == "while"@ {
        Kind::While
    } else if w == "define"@ {
        Kind::Define
    } else if w == "function"@ {
        Kind::Function
    } else if w == "return"@ {
        Kind::Return
    } else {
        Kind::Identifier(w)
    }
}

/// The outcome of reading one token that starts at a given index.
pub enum Scan {
    /// A token of the kind, whose text ends before `end`.
    Tok { kind: Kind, end: int },
    /// A lexical error with the message; reading stopped at `stop`.
    Fail { message: Seq<char>, stop: int },
}

/// The kind of a one-character symbol, if `c` is one.
pub open spec fn symbol_kind(c: char) -> Option<Kind> {
    if c == ',' {
        Some(Kind::Comma)
    } else if c == '.' {
        Some(Kind::Period)
    } else if c == '(' {
        Some(Kind::LParen)
    } else if c == ')' {
        Some(Kind::RParen)
    } else if c == '+' {
        Some(Kind::Plus)
    } else if c == '-' {
        Some(Kind::Minus)
    } else if c == '*' {
        Some(Kind::Star)
    } else if c == '/' {
        Some(Kind::Slash)
    } else if c == '=' {
        Some(Kind::Equals)
    } else {
        None
    }
}

/// Is there an `=` at index `p`?
pub open spec fn equals_at(s: Seq<char>, p: int) -> bool {
    0 <= p < s.len() && s[p] == '='
}

/// Reading the token that starts at `q` (a character that is not trivia).
/// A string runs to the next `"`; a number literal is valid when it has at
/// most one decimal point (these are exactly the texts that parse as `f64`).
pub open spec fn scan(s: Seq<char>, q: int) -> Scan {
    let c = s[q];
    if c == '"' {
        match string_close(s, q + 1) {
            Some(e) => Scan::Tok { kind: Kind::Str(s.subrange(q + 1, e)), end: e + 1 },
            None => Scan::Fail { message: "Unterminated string literal"@, stop: s.len() as int },
        }
    } else if spec_is_digit(c) {
        let e: int = number_end(s, q);
        let t = s.subrange(q, e);
        if count_points(t) <= 1 {
            Scan::Tok { kind: Kind::Number(t), end: e }
        } else {
            Scan::Fail { message: "Invalid number literal '"@ + t + "'"@, stop: e }
        }
    } else if spec_is_alpha(c) || c == '_' {
        let e: int = word_end(s, q);
        Scan::Tok { kind: word_kind(s.subrange(q, e)), end: e }
    } else if c == '>' {
        if equals_at(s, q + 1) {
            Scan::Tok { kind: Kind::GreaterEq, end: q + 2 }
        } else {
            Scan::Tok { kind: Kind::Greater, end: q + 1 }
        }
    } else if c == '<' {
        if equals_at(s, q + 1) {
            Scan::Tok { kind: Kind::LessEq, end: q + 2 }
        } else {
            Scan::Tok { kind: Kind::Less, end: q + 1 }
        }
    } else {
        match symbol_kind(c) {
            Some(k) => Scan::Tok { kind: k, end: q + 1 },
            None => Scan::Fail { message: "Unexpected character '"@ + seq![c] + "'"@, stop: q + 1 },
        }
    }
}

/// A lexical error: its message and the line and column where the token began.
pub struct LexFailure {
    pub message: Seq<char>,
    pub line: nat,
    pub column: nat,
}

/// The token of kind `k` that begins at index `q`.
pub open spec fn token_at(s: Seq<char>, k: Kind, q: int) -> SpecToken {
    SpecToken { kind: k, line: line_at(s, q), column: column_at(s, q) }
}

/// Tokenizing from index `p` on: the tokens (ending with `Eof`) or the
/// first error, and the index where reading stopped.
pub open spec fn lex_from(s: Seq<char>, p: int) -> (Result<Seq<SpecToken>, LexFailure>, int)
    decreases s.len() - p,
{
    let q: int = skip_trivia(s, p);
    if q < p || q >= s.len() {
        (Ok(seq![token_at(s, Kind::Eof, q)]), q)
    } else {
        match scan(s, q) {
            Scan::Fail { message, stop } => (
                Err(LexFailure { message, line: line_at(s, q), column: column_at(s, q) }),
                stop,
            ),
            Scan::Tok { kind, end } => if q < end <= s.len() {
                let rest = lex_from(s, end);
                (
                    match rest.0 {
                        Ok(ts) => Ok(seq![token_at(s, kind, q)] + ts),
                        Err(f) => Err(f),
                    },
                    rest.1,
                )
            } else {
                (Ok(seq![]), q)
            },
        }
    }
}

/// Tokenizing a whole source text.
pub open spec fn lex(s: Seq<char>) -> (Result<Seq<SpecToken>, LexFailure>, int) {
    lex_from(s, 0)
}

} // verus!

verus! {

/// Skipping trivia never moves backwards nor past the end, and stops on a
/// character that starts a token.
pub proof fn lemma_skip_trivia(s: Seq<char>, p: int)
    requires
        0 <= p <= s.len(),
    ensures
        p <= skip_trivia(s, p) <= s.len(),
        skip_trivia(s, p) < s.len() ==> !spec_is_whitespace(s[skip_trivia(s, p)]) && s[skip_trivia(
            s,
            p,
        )] != '#',
    decreases s.len() - p, 0int,
{
    if p < s.len() {
        if spec_is_whitespace(s[p]) {
            lemma_skip_trivia(s, p + 1);
        } else if s[p] == '#' {
            lemma_skip_comment(s, p + 1);
        }
    }
}

pub proof fn lemma_skip_comment(s: Seq<char>, p: int)
    requires
        0 <= p <= s.len(),
    ensures
        p <= skip_comment(s, p) <= s.len(),
        skip_comment(s, p) < s.len() ==> !spec_is_whitespace(s[skip_comment(s, p)]) && s[skip_comment(
            s,
            p,
        )] != '#',
    decreases s.len() - p, 1int,
{
    if p < s.len() && s[p] != '\n' {
        lemma_skip_comment(s, p + 1);
    } else {
        lemma_skip_trivia(s, p);
    }
}

pub proof fn lemma_string_close(s: Seq<char>, p: int)
    requires
        0 <= p,
    ensures
        string_close(s, p) matches Some(e) ==> p <= e < s.len() && s[e] == '"',
    decreases s.len() - p,
{
    if p < s.len() && s[p] != '"' {
        lemma_string_close(s, p + 1);
    }
}

pub proof fn lemma_number_end(s: Seq<char>, p: int)
    requires
        0 <= p <= s.len(),
    ensures
        p <= number_end(s, p) <= s.len(),
    decreases s.len() - p,
{
    if number_continues(s, p) {
        lemma_number_end(s, p + 1);
    }
}

pub proof fn lemma_word_end(s: Seq<char>, p: int)
    requires
        0 <= p <= s.len(),
    ensures
        p <= word_end(s, p) <= s.len(),
    decreases s.len() - p,
{
    if 0 <= p < s.len() && (spec_is_alnum(s[p]) || s[p] == '_') {
        lemma_word_end(s, p + 1);
    }
}

/// A token read at `q` ends after `q` and within the text.
pub proof fn lemma_scan(s: Seq<char>, q: int)
    requires
        0 <= q < s.len(),
    ensures
        scan(s, q) matches Scan::Tok { end, .. } ==> q < end <= s.len(),
        scan(s, q) matches Scan::Fail { stop, .. } ==> q < stop <= s.len(),
{
    lemma_string_close(s, q + 1);
    lemma_number_end(s, q);
    lemma_word_end(s, q);
    if spec_is_digit(s[q]) {
        assert(number_continues(s, q));
        lemma_number_end(s, q + 1);
    }
    if spec_is_alpha(s[q]) || s[q] == '_' {
        lemma_word_end(s, q + 1);
    }
}

/// Line and column stay small: both are at least 1 and their sum is at most `p + 2`.
pub proof fn lemma_line_column(s: Seq<char>, p: int)
    requires
        0 <= p,
    ensures
        line_at(s, p) >= 1,
        column_at(s, p) >= 1,
        line_at(s, p) + column_at(s, p) <= p + 2,
    decreases p,
{
    if p > 0 {
        lemma_line_column(s, p - 1);
    }
}

/// Tokens already read, put in front of the outcome of reading the rest.
pub open spec fn prepend(ts: Seq<SpecToken>, run: (Result<Seq<SpecToken>, LexFailure>, int)) -> (
    Result<Seq<SpecToken>, LexFailure>,
    int,
) {
    (
        match run.0 {
            Ok(x) => Ok(ts + x),
            Err(f) => Err(f),
        },
        run.1,
    )
}

pub proof fn lemma_prepend_empty(run: (Result<Seq<SpecToken>, LexFailure>, int))
    ensures
        prepend(seq![], run) == run,
{
    if let Ok(x) = run.0 {
        assert(Seq::<SpecToken>::empty() + x =~= x);
    }
}

pub proof fn lemma_prepend_prepend(
    a: Seq<SpecToken>,
    b: Seq<SpecToken>,
    run: (Result<Seq<SpecToken>, LexFailure>, int),
)
    ensures
        prepend(a, prepend(b, run)) == prepend(a + b, run),
{
    if let Ok(x) = run.0 {
        assert(a + (b + x) =~= (a + b) + x);
    }
}

} // verus!

verus! {

/// A token read from the text is never the end of the input.
proof fn lemma_scan_not_eof(s: Seq<char>, q: int)
    requires
        0 <= q < s.len(),
    ensures
        scan(s, q) matches Scan::Tok { kind, .. } ==> !(kind is Eof),
{
}

/// Tokenizing from `p`, when it succeeds, gives tokens of which the last,
/// and only the last, is the end of the input.
proof fn lemma_lex_from_eof(s: Seq<char>, p: int)
    requires
        0 <= p <= s.len(),
    ensures
        lex_from(s, p).0 matches Ok(ts) ==> ts.len() >= 1 && ts.last().kind is Eof && forall|i: int|
            0 <= i < ts.len() - 1 ==> !(#[trigger] ts[i].kind is Eof),
    decreases s.len() - p,
{
    let q: int = skip_trivia(s, p);
    lemma_skip_trivia(s, p);
    if q < s.len() {
        lemma_scan(s, q);
        lemma_scan_not_eof(s, q);
        if let Scan::Tok { kind, end } = scan(s, q) {
            lemma_lex_from_eof(s, end);
            if let Ok(rest) = lex_from(s, end).0 {
                let ts = seq![token_at(s, kind, q)] + rest;
                assert forall|i: int| 0 <= i < ts.len() - 1 implies !(#[trigger] ts[i].kind is Eof) by {
                    if i > 0 {
                        assert(ts[i] == rest[i - 1]);
                    }
                }
                assert(ts.last() == rest.last());
            }
        }
    }
}

/// Tokenizing a text, when it succeeds, ends with one `Eof` token and has
/// no other: what the lexer gives is what the parser takes.
pub proof fn law_tokens_end_with_eof(s: Seq<char>)
    ensures
        lex(s).0 matches Ok(ts) ==> ts.len() >= 1 && ts.last().kind is Eof && forall|i: int|
            0 <= i < ts.len() - 1 ==> !(#[trigger] ts[i].kind is Eof),
{
    lemma_lex_from_eof(s, 0);
}

} // verus!

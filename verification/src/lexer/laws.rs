//! What the lexical rules give for the characters a program is made of:
//! which characters are skipped between tokens, which make up a word or a
//! number, and which symbol stands for which token.
use vstd::prelude::*;
use crate::lexer::rules::{
    Scan, column_at, lemma_skip_trivia, lex_from, line_at, number_end, scan, skip_comment,
    skip_trivia, string_close, word_end, word_kind,
};
use crate::lexer::token::Kind;

verus! {

/// The characters with Unicode's White_Space property: tab, line feed,
/// vertical tab, form feed, carriage return, space, next line, no-break
/// space, ogham space mark, the spaces from en quad to hair space, line and
/// paragraph separator, narrow no-break space, medium mathematical space and
/// ideographic space.
pub open spec fn white_space(c: char) -> bool {
    let u: u32 = c as u32;
    ||| u == 0x09
    ||| u == 0x0A
    ||| u == 0x0B
    ||| u == 0x0C
    ||| u == 0x0D
    ||| u == 0x20
    ||| u == 0x85
    ||| u == 0xA0
    ||| u == 0x1680
    ||| 0x2000 <= u && u <= 0x200A
    ||| u == 0x2028
    ||| u == 0x2029
    ||| u == 0x202F
    ||| u == 0x205F
    ||| u == 0x3000
}

/// An ASCII letter, upper or lower case.
pub open spec fn ascii_letter(c: char) -> bool {
    ||| 'a' <= c && c <= 'z'
    ||| 'A' <= c && c <= 'Z'
}

/// An ASCII decimal digit.
pub open spec fn ascii_digit(c: char) -> bool {
    '0' <= c && c <= '9'
}

/// A character that goes on a word: an ASCII letter, a digit or `_`.
pub open spec fn word_char(c: char) -> bool {
    ascii_letter(c) || ascii_digit(c) || c == '_'
}

/// A white-space character is skipped: lexing from it gives exactly what
/// lexing from the next character gives, tokens, lines and columns alike.
/// So a carriage return before a line feed (a line end written CR LF), a tab
/// or a no-break space changes no token.
pub proof fn law_white_space_is_skipped(s: Seq<char>, i: int)
    requires
        0 <= i < s.len(),
        white_space(s[i]),
    ensures
        lex_from(s, i) == lex_from(s, i + 1),
{
    lemma_skip_trivia(s, i + 1);
    assert(skip_trivia(s, i) == skip_trivia(s, i + 1));
}

proof fn lemma_word_span(s: Seq<char>, p: int)
    requires
        0 <= p <= s.len(),
    ensures
        p <= word_end(s, p) <= s.len(),
        forall|j: int| p <= j < word_end(s, p) ==> word_char(#[trigger] s[j]),
        word_end(s, p) < s.len() ==> !word_char(s[word_end(s, p)]),
    decreases s.len() - p,
{
    if p < s.len() && word_char(s[p]) {
        lemma_word_span(s, p + 1);
    }
}

/// A word starts with an ASCII letter, upper or lower case, or `_`, and goes
/// on over every letter, digit and `_` that follows: it is read as one token,
/// a keyword or else an identifier (`Total` and `myScore` are identifiers).
pub proof fn law_words(s: Seq<char>, i: int)
    requires
        0 <= i < s.len(),
        ascii_letter(s[i]) || s[i] == '_',
    ensures
        scan(s, i) matches Scan::Tok { kind, end } && i < end <= s.len() && (forall|j: int|
            i <= j < end ==> word_char(#[trigger] s[j])) && (end < s.len() ==> !word_char(s[end]))
            && kind == word_kind(s.subrange(i, end)),
{
    lemma_word_span(s, i);
}

/// The twelve keywords are read as their own tokens, and every other word
/// as an identifier with that very name.
pub proof fn law_keywords(w: Seq<char>)
    ensures
        word_kind("when"@) == Kind::When,
        word_kind("ask"@) == Kind::Ask,
        word_kind("save"@) == Kind::Save,
        word_kind("to"@) == Kind::To,
        word_kind("and"@) == Kind::And,
        word_kind("display"@) == Kind::Display,
        word_kind("if"@) == Kind::If,
        word_kind("repeat"@) == Kind::Repeat,
        word_kind("while"@) == Kind::While,
        word_kind("define"@) == Kind::Define,
        word_kind("function"@) == Kind::Function,
        word_kind("return"@) == Kind::Return,
        w != "when"@ && w != "ask"@ && w != "save"@ && w != "to"@ && w != "and"@ && w
            != "display"@ && w != "if"@ && w != "repeat"@ && w != "while"@ && w != "define"@ && w
            != "function"@ && w != "return"@ ==> word_kind(w) == Kind::Identifier(w),
{
    reveal_strlit("when");
    reveal_strlit("ask");
    reveal_strlit("save");
    reveal_strlit("to");
    reveal_strlit("and");
    reveal_strlit("display");
    reveal_strlit("if");
    reveal_strlit("repeat");
    reveal_strlit("while");
    reveal_strlit("define");
    reveal_strlit("function");
    reveal_strlit("return");
    assert("ask"@.len() != "when"@.len());
    assert("save"@[0] != "when"@[0]);
    assert("save"@.len() != "ask"@.len());
    assert("to"@.len() != "when"@.len());
    assert("to"@.len() != "ask"@.len());
    assert("to"@.len() != "save"@.len());
    assert("and"@.len() != "when"@.len());
    assert("and"@[1] != "ask"@[1]);
    assert("and"@.len() != "save"@.len());
    assert("and"@.len() != "to"@.len());
    assert("display"@.len() != "when"@.len());
    assert("display"@.len() != "ask"@.len());
    assert("display"@.len() != "save"@.len());
    assert("display"@.len() != "to"@.len());
    assert("display"@.len() != "and"@.len());
    assert("if"@.len() != "when"@.len());
    assert("if"@.len() != "ask"@.len());
    assert("if"@.len() != "save"@.len());
    assert("if"@[0] != "to"@[0]);
    assert("if"@.len() != "and"@.len());
    assert("if"@.len() != "display"@.len());
    assert("repeat"@.len() != "when"@.len());
    assert("repeat"@.len() != "ask"@.len());
    assert("repeat"@.len() != "save"@.len());
    assert("repeat"@.len() != "to"@.len());
    assert("repeat"@.len() != "and"@.len());
    assert("repeat"@.len() != "display"@.len());
    assert("repeat"@.len() != "if"@.len());
    assert("while"@.len() != "when"@.len());
    assert("while"@.len() != "ask"@.len());
    assert("while"@.len() != "save"@.len());
    assert("while"@.len() != "to"@.len());
    assert("while"@.len() != "and"@.len());
    assert("while"@.len() != "display"@.len());
    assert("while"@.len() != "if"@.len());
    assert("while"@.len() != "repeat"@.len());
    assert("define"@.len() != "when"@.len());
    assert("define"@.len() != "ask"@.len());
    assert("define"@.len() != "save"@.len());
    assert("define"@.len() != "to"@.len());
    assert("define"@.len() != "and"@.len());
    assert("define"@.len() != "display"@.len());
    assert("define"@.len() != "if"@.len());
    assert("define"@[0] != "repeat"@[0]);
    assert("define"@.len() != "while"@.len());
    assert("function"@.len() != "when"@.len());
    assert("function"@.len() != "ask"@.len());
    assert("function"@.len() != "save"@.len());
    assert("function"@.len() != "to"@.len());
    assert("function"@.len() != "and"@.len());
    assert("function"@.len() != "display"@.len());
    assert("function"@.len() != "if"@.len());
    assert("function"@.len() != "repeat"@.len());
    assert("function"@.len() != "while"@.len());
    assert("function"@.len() != "define"@.len());
    assert("return"@.len() != "when"@.len());
    assert("return"@.len() != "ask"@.len());
    assert("return"@.len() != "save"@.len());
    assert("return"@.len() != "to"@.len());
    assert("return"@.len() != "and"@.len());
    assert("return"@.len() != "display"@.len());
    assert("return"@.len() != "if"@.len());
    assert("return"@[2] != "repeat"@[2]);
    assert("return"@.len() != "while"@.len());
    assert("return"@[0] != "define"@[0]);
    assert("return"@.len() != "function"@.len());
}

proof fn lemma_number_span(s: Seq<char>, p: int)
    requires
        0 <= p <= s.len(),
    ensures
        p <= number_end(s, p) <= s.len(),
        forall|j: int| p <= j < number_end(s, p) ==> ascii_digit(#[trigger] s[j]) || s[j] == '.',
        number_end(s, p) < s.len() ==> !ascii_digit(s[number_end(s, p)]),
    decreases s.len() - p,
{
    if p < s.len() && (ascii_digit(s[p]) || (s[p] == '.' && p + 1 < s.len() && ascii_digit(
        s[p + 1],
    ))) {
        lemma_number_span(s, p + 1);
    }
}

/// A number starts with a digit and goes on over the digits that follow,
/// with points between digits. It is read as one number token with that
/// text, or, when it holds more than one point, refused.
pub proof fn law_numbers(s: Seq<char>, i: int)
    requires
        0 <= i < s.len(),
        ascii_digit(s[i]),
    ensures
        ({
            let end = number_end(s, i);
            &&& i < end <= s.len()
            &&& forall|j: int| i <= j < end ==> ascii_digit(#[trigger] s[j]) || s[j] == '.'
            &&& end < s.len() ==> !ascii_digit(s[end])
            &&& match scan(s, i) {
                Scan::Tok { kind, end: e } => e == end && kind == Kind::Number(s.subrange(i, end)),
                Scan::Fail { message, stop } => stop == end,
            }
        }),
{
    lemma_number_span(s, i);
}

/// Each symbol is read as its own token: `+ - * / = ( ) , .` as one
/// character each, `>` and `<` as `>=` and `<=` when an `=` follows them.
pub proof fn law_symbols(s: Seq<char>, i: int)
    requires
        0 <= i < s.len(),
    ensures
        s[i] == '+' ==> scan(s, i) == (Scan::Tok { kind: Kind::Plus, end: i + 1 }),
        s[i] == '-' ==> scan(s, i) == (Scan::Tok { kind: Kind::Minus, end: i + 1 }),
        s[i] == '*' ==> scan(s, i) == (Scan::Tok { kind: Kind::Star, end: i + 1 }),
        s[i] == '/' ==> scan(s, i) == (Scan::Tok { kind: Kind::Slash, end: i + 1 }),
        s[i] == '=' ==> scan(s, i) == (Scan::Tok { kind: Kind::Equals, end: i + 1 }),
        s[i] == '(' ==> scan(s, i) == (Scan::Tok { kind: Kind::LParen, end: i + 1 }),
        s[i] == ')' ==> scan(s, i) == (Scan::Tok { kind: Kind::RParen, end: i + 1 }),
        s[i] == ',' ==> scan(s, i) == (Scan::Tok { kind: Kind::Comma, end: i + 1 }),
        s[i] == '.' ==> scan(s, i) == (Scan::Tok { kind: Kind::Period, end: i + 1 }),
        s[i] == '>' && !(i + 1 < s.len() && s[i + 1] == '=') ==> scan(s, i) == (Scan::Tok { kind: Kind::Greater, end: i + 1 }),
        s[i] == '>' && i + 1 < s.len() && s[i + 1] == '=' ==> scan(s, i) == (Scan::Tok { kind: Kind::GreaterEq, end: i + 2 }),
        s[i] == '<' && !(i + 1 < s.len() && s[i + 1] == '=') ==> scan(s, i) == (Scan::Tok { kind: Kind::Less, end: i + 1 }),
        s[i] == '<' && i + 1 < s.len() && s[i + 1] == '=' ==> scan(s, i) == (Scan::Tok { kind: Kind::LessEq, end: i + 2 }),
{
}

/// The line of a position is one more than the line feeds before it; its
/// column is one more than the characters after the last line feed before
/// it (or from the start of the text).
pub proof fn law_positions(s: Seq<char>, p: int)
    requires
        0 <= p <= s.len(),
    ensures
        line_at(s, p) == 1 + s.take(p).filter(|c: char| c == '\n').len(),
        1 <= column_at(s, p) <= p + 1,
        forall|j: int| p - column_at(s, p) + 1 <= j < p ==> s[j] != '\n',
        p - column_at(s, p) >= 0 ==> s[p - column_at(s, p)] == '\n',
    decreases p,
{
    reveal(Seq::filter);
    if p > 0 {
        law_positions(s, p - 1);
        assert(s.take(p).drop_last() == s.take(p - 1));
        assert(s.take(p).last() == s[p - 1]);
    }
}

proof fn lemma_string_span(s: Seq<char>, p: int)
    requires
        0 <= p <= s.len(),
    ensures
        match string_close(s, p) {
            Some(e) => p <= e < s.len() && s[e] == '"' && forall|j: int|
                p <= j < e ==> #[trigger] s[j] != '"',
            None => forall|j: int| p <= j < s.len() ==> #[trigger] s[j] != '"',
        },
    decreases s.len() - p,
{
    if p < s.len() && s[p] != '"' {
        lemma_string_span(s, p + 1);
    }
}

/// A string runs from a `"` to the next `"`: its text is everything between
/// them, which holds no `"`. Without a closing `"` it is refused, with the
/// rest of the text read.
pub proof fn law_strings(s: Seq<char>, i: int)
    requires
        0 <= i < s.len(),
        s[i] == '"',
    ensures
        match scan(s, i) {
            Scan::Tok { kind, end } => i + 1 < end <= s.len() && s[end - 1] == '"' && kind
                == Kind::Str(s.subrange(i + 1, end - 1)) && forall|j: int|
                i < j < end - 1 ==> #[trigger] s[j] != '"',
            Scan::Fail { message, stop } => stop == s.len() && forall|j: int|
                i < j < s.len() ==> #[trigger] s[j] != '"',
        },
{
    lemma_string_span(s, i + 1);
}

proof fn lemma_comment_span(s: Seq<char>, j: int, e: int)
    requires
        0 <= j <= e <= s.len(),
        forall|k: int| j <= k < e ==> #[trigger] s[k] != '\n',
        e == s.len() || s[e] == '\n',
    ensures
        skip_comment(s, j) == skip_trivia(s, e),
    decreases e - j,
{
    if j < e {
        lemma_comment_span(s, j + 1, e);
    }
}

/// A `#` starts a comment that runs to the end of its line: lexing from it
/// gives what lexing from the line feed that ends it gives.
pub proof fn law_comments(s: Seq<char>, i: int, e: int)
    requires
        0 <= i < e <= s.len(),
        s[i] == '#',
        forall|k: int| i <= k < e ==> #[trigger] s[k] != '\n',
        e == s.len() || s[e] == '\n',
    ensures
        lex_from(s, i) == lex_from(s, e),
{
    lemma_comment_span(s, i + 1, e);
    lemma_skip_trivia(s, e);
    assert(skip_trivia(s, i) == skip_trivia(s, e));
}

} // verus!

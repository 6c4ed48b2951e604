//! The hand-written lexer: source text to tokens.
pub mod laws;
pub mod rules;
pub mod token;

use vstd::prelude::*;
use crate::error::SSharpError;
use crate::text::{is_alnum, is_alpha, is_digit, is_whitespace, push_char, spec_is_alpha, spec_is_digit};
use rules::{
    LexFailure, Scan, column_at, count_points, lemma_line_column, lemma_prepend_empty,
    lemma_prepend_prepend, lemma_scan, lemma_skip_trivia, lex_from, line_at, number_end, prepend, scan,
    skip_comment, skip_trivia, string_close, token_at, word_end, word_kind,
};
use token::{Kind, SpecToken, Token, TokenKind, tokens_view};

verus! {

pub struct Lexer {
    chars: Vec<char>,
    pos: usize,
    line: usize,
    column: usize,
}

/// Does the result of `tokenize` agree with the outcome that the rules give?
pub open spec fn lex_result_matches(
    r: Result<Vec<Token>, SSharpError>,
    expected: Result<Seq<SpecToken>, LexFailure>,
) -> bool {
    match expected {
        Ok(ts) => match r {
            Ok(v) => tokens_view(v@) == ts,
            Err(_) => false,
        },
        Err(f) => match r {
            Err(SSharpError::LexError { message, line, column }) => message@ == f.message && line
                == f.line && column == f.column,
            _ => false,
        },
    }
}

/// Does a token read at `q` agree with what the rules say is read there?
pub open spec fn scan_result_matches(
    s: Seq<char>,
    q: int,
    r: Result<Token, SSharpError>,
    stop: int,
) -> bool {
    match scan(s, q) {
        Scan::Tok { kind, end } => match r {
            Ok(t) => t@ == token_at(s, kind, q) && stop == end,
            Err(_) => false,
        },
        Scan::Fail { message, stop: fail_stop } => match r {
            Err(SSharpError::LexError { message: m, line, column }) => m@ == message && line
                == line_at(s, q) && column == column_at(s, q) && stop == fail_stop,
            _ => false,
        },
    }
}

impl Lexer {
    /// The characters of the source text.
    pub closed spec fn source(&self) -> Seq<char> {
        self.chars@
    }

    /// The index of the next character to read.
    pub closed spec fn position(&self) -> int {
        self.pos as int
    }

    /// The position is within the text, and the line and column are those of the position.
    pub closed spec fn wf(&self) -> bool {
        &&& self.chars@.len() < usize::MAX
        &&& self.pos <= self.chars@.len()
        &&& self.line == line_at(self.chars@, self.pos as int)
        &&& self.column == column_at(self.chars@, self.pos as int)
    }

    /// A lexer at the start of the source text.
    pub fn new(source: &str) -> (l: Self)
        requires
            source@.len() < usize::MAX,
        ensures
            l.wf(),
            l.source() == source@,
            l.position() == 0,
    {
        let mut chars: Vec<char> = Vec::new();
        for c in it: source.chars()
            invariant
                it.seq() == source@,
                chars@ == it.seq().take(it.index()),
        {
            chars.push(c);
        }
        Self { chars, pos: 0, line: 1, column: 1 }
    }

    fn peek(&self) -> (c: Option<char>)
        requires
            self.wf(),
        ensures
            c == if self.pos < self.chars@.len() {
                Some(self.chars@[self.pos as int])
            } else {
                None
            },
    {
        if self.pos < self.chars.len() {
            Some(self.chars[self.pos])
        } else {
            None
        }
    }

    fn peek_next(&self) -> (c: Option<char>)
        requires
            self.wf(),
        ensures
            c == if self.pos + 1 < self.chars@.len() {
                Some(self.chars@[self.pos + 1])
            } else {
                None
            },
    {
        if self.pos + 1 < self.chars.len() {
            Some(self.chars[self.pos + 1])
        } else {
            None
        }
    }

    fn advance(&mut self) -> (c: Option<char>)
        requires
            old(self).wf(),
        ensures
            final(self).wf(),
            final(self).chars@ == old(self).chars@,
            old(self).pos < old(self).chars@.len() ==> c == Some(old(self).chars@[old(self).pos as int])
                && final(self).pos == old(self).pos + 1,
            old(self).pos >= old(self).chars@.len() ==> c is None && final(self).pos == old(
                self,
            ).pos,
    {
        if self.pos >= self.chars.len() {
            return None;
        }
        let ch = self.chars[self.pos];
        proof {
            lemma_line_column(self.chars@, self.pos as int);
        }
        self.pos = self.pos + 1;
        if ch == '\n' {
            self.line = self.line + 1;
            self.column = 1;
        } else {
            self.column = self.column + 1;
        }
        Some(ch)
    }

    /// Reads the rest of the source into tokens, the last of which is `Eof`,
    /// or stops at the first lexical error (see [`lex_from`]).
    pub fn tokenize(&mut self) -> (r: Result<Vec<Token>, SSharpError>)
        requires
            old(self).wf(),
        ensures
            final(self).wf(),
            final(self).source() == old(self).source(),
            lex_result_matches(r, lex_from(old(self).source(), old(self).position()).0),
            final(self).position() == lex_from(old(self).source(), old(self).position()).1,
    {
        let ghost s = self.chars@;
        let ghost p0: int = self.pos as int;
        let mut tokens: Vec<Token> = Vec::new();
        proof {
            lemma_prepend_empty(lex_from(s, p0));
        }
        loop
            invariant
                self.wf(),
                self.chars@ == s,
                s == old(self).chars@,
                p0 == old(self).pos,
                lex_from(s, p0) == prepend(tokens_view(tokens@), lex_from(s, self.pos as int)),
            decreases s.len() - self.pos,
        {
            let ghost ph: int = self.pos as int;
            let ghost done = tokens_view(tokens@);
            self.skip_whitespace_and_comments();
            proof {
                lemma_skip_trivia(s, ph);
            }
            let line: usize = self.line;
            let column: usize = self.column;
            let ch = match self.peek() {
                Some(c) => c,
                None => {
                    let ghost q: int = self.pos as int;
                    tokens.push(Token::new(TokenKind::Eof, line, column));
                    assert(tokens_view(tokens@) == done + seq![token_at(s, Kind::Eof, q)]);
                    return Ok(tokens);
                },
            };
            let ghost q: int = self.pos as int;
            proof {
                lemma_scan(s, q);
            }
            let result = if ch == '"' {
                self.read_string()
            } else if is_digit(ch) {
                self.read_number()
            } else if is_alpha(ch) || ch == '_' {
                Ok(self.read_identifier_or_keyword())
            } else {
                self.read_symbol()
            };
            match result {
                Ok(t) => {
                    let ghost end: int = self.pos as int;
                    tokens.push(t);
                    proof {
                        assert(tokens_view(tokens@) == done + seq![t@]);
                        lemma_prepend_prepend(done, seq![t@], lex_from(s, end));
                    }
                },
                Err(e) => {
                    return Err(e);
                },
            }
        }
    }

    fn skip_whitespace_and_comments(&mut self)
        requires
            old(self).wf(),
        ensures
            final(self).wf(),
            final(self).chars@ == old(self).chars@,
            final(self).pos == skip_trivia(old(self).chars@, old(self).pos as int),
    {
        let ghost s = self.chars@;
        let ghost target: int = skip_trivia(s, self.pos as int);
        loop
            invariant
                self.wf(),
                self.chars@ == s,
                skip_trivia(s, self.pos as int) == target,
            ensures
                self.wf(),
                self.chars@ == s,
                self.pos == target,
            decreases s.len() - self.pos,
        {
            match self.peek() {
                None => {
                    break ;
                },
                Some(ch) => {
                    if is_whitespace(ch) {
                        self.advance();
                    } else if ch == '#' {
                        // A comment runs up to the next newline.
                        let ghost ph: int = self.pos as int;
                        self.advance();
                        loop
                            invariant
                                self.wf(),
                                self.chars@ == s,
                                ph < self.pos,
                                skip_comment(s, self.pos as int) == target,
                            ensures
                                self.wf(),
                                self.chars@ == s,
                                ph < self.pos,
                                skip_trivia(s, self.pos as int) == target,
                            decreases s.len() - self.pos,
                        {
                            match self.peek() {
                                None => {
                                    break ;
                                },
                                Some(c) => {
                                    if c == '\n' {
                                        break ;
                                    }
                                    self.advance();
                                },
                            }
                        }
                    } else {
                        break ;
                    }
                },
            }
        }
    }

    fn read_string(&mut self) -> (r: Result<Token, SSharpError>)
        requires
            old(self).wf(),
            old(self).pos < old(self).chars@.len(),
            old(self).chars@[old(self).pos as int] == '"',
        ensures
            final(self).wf(),
            final(self).chars@ == old(self).chars@,
            scan_result_matches(old(self).chars@, old(self).pos as int, r, final(self).pos as int),
    {
        let ghost s = self.chars@;
        let ghost q: int = self.pos as int;
        let start_line: usize = self.line;
        let start_column: usize = self.column;
        self.advance();  // the opening quote
        let mut content = String::new();
        loop
            invariant
                self.wf(),
                self.chars@ == s,
                s == old(self).chars@,
                q == old(self).pos,
                q + 1 <= self.pos <= s.len(),
                content@ == s.subrange(q + 1, self.pos as int),
                string_close(s, self.pos as int) == string_close(s, q + 1),
                start_line == line_at(s, q),
                start_column == column_at(s, q),
                0 <= q < s.len(),
                s[q] == '"',
            ensures
                self.wf(),
                self.chars@ == s,
                self.pos == s.len(),
                string_close(s, self.pos as int) == string_close(s, q + 1),
            decreases s.len() - self.pos,
        {
            match self.peek() {
                None => {
                    break ;
                },
                Some(ch) => {
                    if ch == '"' {
                        assert(string_close(s, self.pos as int) == Some(self.pos as int));
                        self.advance();  // the closing quote
                        return Ok(Token::new(TokenKind::String(content), start_line, start_column));
                    }
                    let ghost p: int = self.pos as int;
                    push_char(&mut content, ch);
                    self.advance();
                    assert(content@ == s.subrange(q + 1, self.pos as int));
                },
            }
        }
        assert(string_close(s, self.pos as int) is None);
        Err(
            SSharpError::LexError {
                message: "Unterminated string literal".to_owned(),
                line: start_line,
                column: start_column,
            },
        )
    }

    fn read_number(&mut self) -> (r: Result<Token, SSharpError>)
        requires
            old(self).wf(),
            old(self).pos < old(self).chars@.len(),
            spec_is_digit(old(self).chars@[old(self).pos as int]),
        ensures
            final(self).wf(),
            final(self).chars@ == old(self).chars@,
            scan_result_matches(old(self).chars@, old(self).pos as int, r, final(self).pos as int),
    {
        let ghost s = self.chars@;
        let ghost q: int = self.pos as int;
        let start_line: usize = self.line;
        let start_column: usize = self.column;
        let mut num_str = String::new();
        let mut points: usize = 0;
        loop
            invariant
                self.wf(),
                self.chars@ == s,
                s == old(self).chars@,
                q == old(self).pos,
                q <= self.pos <= s.len(),
                num_str@ == s.subrange(q, self.pos as int),
                number_end(s, self.pos as int) == number_end(s, q),
                points == count_points(num_str@),
                points <= self.pos - q,
            ensures
                self.wf(),
                self.chars@ == s,
                self.pos == number_end(s, q),
                num_str@ == s.subrange(q, self.pos as int),
                points == count_points(num_str@),
            decreases s.len() - self.pos,
        {
            let ghost p: int = self.pos as int;
            match self.peek() {
                None => {
                    break ;
                },
                Some(ch) => {
                    let point_then_digit = ch == '.' && match self.peek_next() {
                        Some(next) => is_digit(next),
                        None => false,
                    };
                    if is_digit(ch) {
                        push_char(&mut num_str, ch);
                        self.advance();
                    } else if point_then_digit {
                        push_char(&mut num_str, '.');
                        points = points + 1;
                        self.advance();
                    } else {
                        break ;
                    }
                    assert(num_str@ == s.subrange(q, self.pos as int));
                    assert(num_str@.drop_last() == s.subrange(q, p));
                },
            }
        }
        if points <= 1 {
            Ok(Token::new(TokenKind::Number(num_str), start_line, start_column))
        } else {
            let mut message = "Invalid number literal '".to_owned();
            message.append(num_str.as_str());
            message.append("'");
            Err(SSharpError::LexError { message, line: start_line, column: start_column })
        }
    }

    fn read_identifier_or_keyword(&mut self) -> (t: Token)
        requires
            old(self).wf(),
            old(self).pos < old(self).chars@.len(),
            spec_is_alpha(old(self).chars@[old(self).pos as int]) || old(self).chars@[old(
                self,
            ).pos as int] == '_',
        ensures
            final(self).wf(),
            final(self).chars@ == old(self).chars@,
            scan_result_matches(
                old(self).chars@,
                old(self).pos as int,
                Ok(t),
                final(self).pos as int,
            ),
    {
        let ghost s = self.chars@;
        let ghost q: int = self.pos as int;
        let start_line: usize = self.line;
        let start_column: usize = self.column;
        let mut word = String::new();
        loop
            invariant
                self.wf(),
                self.chars@ == s,
                s == old(self).chars@,
                q == old(self).pos,
                q <= self.pos <= s.len(),
                word@ == s.subrange(q, self.pos as int),
                word_end(s, self.pos as int) == word_end(s, q),
            ensures
                self.wf(),
                self.chars@ == s,
                self.pos == word_end(s, q),
                word@ == s.subrange(q, self.pos as int),
            decreases s.len() - self.pos,
        {
            match self.peek() {
                None => {
                    break ;
                },
                Some(ch) => {
                    if is_alnum(ch) || ch == '_' {
                        push_char(&mut word, ch);
                        self.advance();
                        assert(word@ == s.subrange(q, self.pos as int));
                    } else {
                        break ;
                    }
                },
            }
        }
        Token::new(word_token_kind(word), start_line, start_column)
    }

    /// A punctuation or operator token (the character at the position is
    /// none of `"`, a digit, a letter or `_`).
    fn read_symbol(&mut self) -> (r: Result<Token, SSharpError>)
        requires
            old(self).wf(),
            old(self).pos < old(self).chars@.len(),
            old(self).chars@[old(self).pos as int] != '"',
            !spec_is_digit(old(self).chars@[old(self).pos as int]),
            !spec_is_alpha(old(self).chars@[old(self).pos as int]),
            old(self).chars@[old(self).pos as int] != '_',
        ensures
            final(self).wf(),
            final(self).chars@ == old(self).chars@,
            scan_result_matches(old(self).chars@, old(self).pos as int, r, final(self).pos as int),
    {
        let line: usize = self.line;
        let column: usize = self.column;
        let ch = match self.advance() {
            Some(c) => c,
            None => {
                return Ok(Token::new(TokenKind::Eof, line, column));
            },
        };
        let kind = if ch == ',' {
            TokenKind::Comma
        } else if ch == '.' {
            TokenKind::Period
        } else if ch == '(' {
            TokenKind::LParen
        } else if ch == ')' {
            TokenKind::RParen
        } else if ch == '+' {
            TokenKind::Plus
        } else if ch == '-' {
            TokenKind::Minus
        } else if ch == '*' {
            TokenKind::Star
        } else if ch == '/' {
            TokenKind::Slash
        } else if ch == '=' {
            TokenKind::Equals
        } else if ch == '>' {
            if self.peek() == Some('=') {
                self.advance();
                TokenKind::GreaterEq
            } else {
                TokenKind::Greater
            }
        } else if ch == '<' {
            if self.peek() == Some('=') {
                self.advance();
                TokenKind::LessEq
            } else {
                TokenKind::Less
            }
        } else {
            let mut message = "Unexpected character '".to_owned();
            push_char(&mut message, ch);
            assert(message@ == "Unexpected character '"@ + seq![ch]);
            message.append("'");
            return Err(SSharpError::LexError { message, line, column });
        };
        Ok(Token::new(kind, line, column))
    }
}

/// The kind of a word: a keyword, or else an identifier.
fn word_token_kind(word: String) -> (k: TokenKind)
    ensures
        k@ == word_kind(word@),
{
    if text_is(&word, "when") {
        TokenKind::When
    } else if text_is(&word, "ask") {
        TokenKind::Ask
    } else if text_is(&word, "save") {
        TokenKind::Save
    } else if text_is(&word, "to") {
        TokenKind::To
    } else if text_is(&word, "and") {
        TokenKind::And
    } else if text_is(&word, "display") {
        TokenKind::Display
    } else if text_is(&word, "if") {
        TokenKind::If
    } else if text_is(&word, "repeat") {
        TokenKind::Repeat
    } else if text_is(&word, "while") {
        TokenKind::While
    } else if text_is(&word, "define") {
        TokenKind::Define
    } else if text_is(&word, "function") {
        TokenKind::Function
    } else if text_is(&word, "return") {
        TokenKind::Return
    } else {
        TokenKind::Identifier(word)
    }
}

/// Is the string `w` the text `lit`?
fn text_is(w: &String, lit: &str) -> (b: bool)
    ensures
        b == (w@ == lit@),
{
    let other = lit.to_owned();
    *w == other
}

} // verus!

//! Tokens, and their mathematical counterparts used in the contracts.
use vstd::prelude::*;

verus! {

/// The kind of a token. A number literal keeps the text it was written with
/// (digits, with a decimal point between digits); turning it into a value
/// belongs to the evaluator.
#[derive(Debug, Clone, PartialEq)]
pub enum TokenKind {
    // Keywords
    When,
    Ask,
    Save,
    To,
    And,
    Display,
    If,
    Repeat,
    While,
    Define,
    Function,
    Return,
    // Literals & Identifiers
    Identifier(String),
    Number(String),
    String(String),
    // Punctuation
    Comma,
    Period,
    LParen,
    RParen,
    // Operators
    Plus,
    Minus,
    Star,
    Slash,
    Equals,
    Greater,
    Less,
    GreaterEq,
    LessEq,
    // End of file
    Eof,
}

#[derive(Debug, Clone, PartialEq)]
pub struct Token {
    pub kind: TokenKind,
    pub line: usize,
    pub column: usize,
}

/// What a token kind stands for: its text payloads as character sequences.
pub enum Kind {
    When,
    Ask,
    Save,
    To,
    And,
    Display,
    If,
    Repeat,
    While,
    Define,
    Function,
    Return,
    Identifier(Seq<char>),
    Number(Seq<char>),
    Str(Seq<char>),
    Comma,
    Period,
    LParen,
    RParen,
    Plus,
    Minus,
    Star,
    Slash,
    Equals,
    Greater,
    Less,
    GreaterEq,
    LessEq,
    Eof,
}

/// A token as the contracts see it.
pub struct SpecToken {
    pub kind: Kind,
    pub line: nat,
    pub column: nat,
}

impl View for TokenKind {
    type V = Kind;

    open spec fn view(&self) -> Kind {
        match self {
            TokenKind::When => Kind::When,
            TokenKind::Ask => Kind::Ask,
            TokenKind::Save => Kind::Save,
            TokenKind::To => Kind::To,
            TokenKind::And => Kind::And,
            TokenKind::Display => Kind::Display,
            TokenKind::If => Kind::If,
            TokenKind::Repeat => Kind::Repeat,
            TokenKind::While => Kind::While,
            TokenKind::Define => Kind::Define,
            TokenKind::Function => Kind::Function,
            TokenKind::Return => Kind::Return,
            TokenKind::Identifier(s) => Kind::Identifier(s@),
            TokenKind::Number(s) => Kind::Number(s@),
            TokenKind::String(s) => Kind::Str(s@),
            TokenKind::Comma => Kind::Comma,
            TokenKind::Period => Kind::Period,
            TokenKind::LParen => Kind::LParen,
            TokenKind::RParen => Kind::RParen,
            TokenKind::Plus => Kind::Plus,
            TokenKind::Minus => Kind::Minus,
            TokenKind::Star => Kind::Star,
            TokenKind::Slash => Kind::Slash,
            TokenKind::Equals => Kind::Equals,
            TokenKind::Greater => Kind::Greater,
            TokenKind::Less => Kind::Less,
            TokenKind::GreaterEq => Kind::GreaterEq,
            TokenKind::LessEq => Kind::LessEq,
            TokenKind::Eof => Kind::Eof,
        }
    }
}

impl View for Token {
    type V = SpecToken;

    open spec fn view(&self) -> SpecToken {
        SpecToken { kind: self.kind@, line: self.line as nat, column: self.column as nat }
    }
}

/// The tokens of a vector, as the contracts see them.
pub open spec fn tokens_view(ts: Seq<Token>) -> Seq<SpecToken> {
    ts.map_values(|t: Token| t@)
}

impl TokenKind {
    /// A copy of the kind, text included.
    pub fn copy(&self) -> (c: TokenKind)
        ensures
            c@ == self@,
    {
        match self {
            TokenKind::When => TokenKind::When,
            TokenKind::Ask => TokenKind::Ask,
            TokenKind::Save => TokenKind::Save,
            TokenKind::To => TokenKind::To,
            TokenKind::And => TokenKind::And,
            TokenKind::Display => TokenKind::Display,
            TokenKind::If => TokenKind::If,
            TokenKind::Repeat => TokenKind::Repeat,
            TokenKind::While => TokenKind::While,
            TokenKind::Define => TokenKind::Define,
            TokenKind::Function => TokenKind::Function,
            TokenKind::Return => TokenKind::Return,
            TokenKind::Identifier(t) => TokenKind::Identifier(t.clone()),
            TokenKind::Number(t) => TokenKind::Number(t.clone()),
            TokenKind::String(t) => TokenKind::String(t.clone()),
            TokenKind::Comma => TokenKind::Comma,
            TokenKind::Period => TokenKind::Period,
            TokenKind::LParen => TokenKind::LParen,
            TokenKind::RParen => TokenKind::RParen,
            TokenKind::Plus => TokenKind::Plus,
            TokenKind::Minus => TokenKind::Minus,
            TokenKind::Star => TokenKind::Star,
            TokenKind::Slash => TokenKind::Slash,
            TokenKind::Equals => TokenKind::Equals,
            TokenKind::Greater => TokenKind::Greater,
            TokenKind::Less => TokenKind::Less,
            TokenKind::GreaterEq => TokenKind::GreaterEq,
            TokenKind::LessEq => TokenKind::LessEq,
            TokenKind::Eof => TokenKind::Eof,
        }
    }
}

impl Token {
    /// A token of the kind that begins at the line and column.
    pub fn new(kind: TokenKind, line: usize, column: usize) -> (t: Self)
        ensures
            t.kind == kind,
            t.line == line,
            t.column == column,
    {
        Self { kind, line, column }
    }
}

} // verus!

verus! {

/// The debug form of a string, as `{:?}` prints it: the text in double
/// quotes, with quotes, backslashes, control characters and the characters
/// that Unicode does not show escaped. Which characters those are comes from
/// the Unicode tables of the standard library.
pub uninterp spec fn str_debug(s: Seq<char>) -> Seq<char>;

/// Formats `t` with `{:?}`, the standard library's `Debug` for `String`.
/// The result is named `str_debug` of the text: it depends on the text
/// alone; what it holds character by character is not stated here.
#[verifier::external_body]
fn debug_quoted(t: &String) -> (r: String)
    ensures
        r@ == str_debug(t@),
{
    format!("{:?}", t)
}

/// The debug form of a token kind, as error messages show it: the
/// variant's name, then its text in brackets (in the debug form of a string
/// for identifiers and strings). A number token is shown with `value`, the
/// debug form of the float its literal stands for; for other kinds `value`
/// plays no part.
pub open spec fn kind_text(k: Kind, value: Seq<char>) -> Seq<char> {
    match k {
        Kind::When => "When"@,
        Kind::Ask => "Ask"@,
        Kind::Save => "Save"@,
        Kind::To => "To"@,
        Kind::And => "And"@,
        Kind::Display => "Display"@,
        Kind::If => "If"@,
        Kind::Repeat => "Repeat"@,
        Kind::While => "While"@,
        Kind::Define => "Define"@,
        Kind::Function => "Function"@,
        Kind::Return => "Return"@,
        Kind::Identifier(s) => "Identifier("@ + str_debug(s) + ")"@,
        Kind::Number(_) => "Number("@ + value + ")"@,
        Kind::Str(s) => "String("@ + str_debug(s) + ")"@,
        Kind::Comma => "Comma"@,
        Kind::Period => "Period"@,
        Kind::LParen => "LParen"@,
        Kind::RParen => "RParen"@,
        Kind::Plus => "Plus"@,
        Kind::Minus => "Minus"@,
        Kind::Star => "Star"@,
        Kind::Slash => "Slash"@,
        Kind::Equals => "Equals"@,
        Kind::Greater => "Greater"@,
        Kind::Less => "Less"@,
        Kind::GreaterEq => "GreaterEq"@,
        Kind::LessEq => "LessEq"@,
        Kind::Eof => "Eof"@,
    }
}

} // verus!

verus! {

/// Appends the debug form of a token kind, a number token shown with
/// `value`, the debug form of its float.
pub fn push_kind_text(s: &mut String, k: &TokenKind, value: &str)
    ensures
        final(s)@ == old(s)@ + kind_text(k@, value@),
{
    match k {
        TokenKind::When => s.append("When"),
        TokenKind::Ask => s.append("Ask"),
        TokenKind::Save => s.append("Save"),
        TokenKind::To => s.append("To"),
        TokenKind::And => s.append("And"),
        TokenKind::Display => s.append("Display"),
        TokenKind::If => s.append("If"),
        TokenKind::Repeat => s.append("Repeat"),
        TokenKind::While => s.append("While"),
        TokenKind::Define => s.append("Define"),
        TokenKind::Function => s.append("Function"),
        TokenKind::Return => s.append("Return"),
        TokenKind::Identifier(t) => {
            s.append("Identifier(");
            s.append(debug_quoted(t).as_str());
            s.append(")");
        },
        TokenKind::Number(_) => {
            s.append("Number(");
            s.append(value);
            s.append(")");
        },
        TokenKind::String(t) => {
            s.append("String(");
            s.append(debug_quoted(t).as_str());
            s.append(")");
        },
        TokenKind::Comma => s.append("Comma"),
        TokenKind::Period => s.append("Period"),
        TokenKind::LParen => s.append("LParen"),
        TokenKind::RParen => s.append("RParen"),
        TokenKind::Plus => s.append("Plus"),
        TokenKind::Minus => s.append("Minus"),
        TokenKind::Star => s.append("Star"),
        TokenKind::Slash => s.append("Slash"),
        TokenKind::Equals => s.append("Equals"),
        TokenKind::Greater => s.append("Greater"),
        TokenKind::Less => s.append("Less"),
        TokenKind::GreaterEq => s.append("GreaterEq"),
        TokenKind::LessEq => s.append("LessEq"),
        TokenKind::Eof => s.append("Eof"),
    }
}

} // verus!

//! The recursive-descent parser: tokens to a syntax tree.
pub mod ast;
pub mod grammar;
pub mod laws;

use vstd::prelude::*;
use crate::error::SSharpError;
use crate::lexer::Lexer;
use crate::lexer::rules::{LexFailure, law_tokens_end_with_eof, lex};
use crate::lexer::token::{Kind, SpecToken, Token, TokenKind, kind_text, push_kind_text, tokens_view};
use ast::{BinOp, Expr, Program, SExpr, SStmt, Stmt, WhenBlock, stmt_view, stmts_view, strings_view};
use grammar::{
    ParseFailure, Parsed, action, action_list, additive, additive_op, additive_rest, ask_stmt,
    comparison_op, comparison_rest, display_stmt, expect, same_variant, expression, found_failure,
    function_def, function_tail, headed_block, identifier, if_stmt, multiplicative,
    multiplicative_op, multiplicative_rest, param_list, params, primary, reads_beyond,
    repeat_stmt, save_stmt, save_target, statement, statements, tok, unexpected_failure,
    well_ended, when_block, when_header, while_stmt,
};

verus! {

pub struct Parser {
    tokens: Vec<Token>,
    pos: usize,
}

/// A syntax error as the parser finds it: the text its message starts with,
/// the token found where something else was expected, and that token's line
/// and column. The message ends with the found token's debug form; for a
/// number that form shows the float the literal stands for, which the caller
/// supplies (see [`SyntaxError::to_parse_error`]).
#[derive(Debug, Clone, PartialEq)]
pub struct SyntaxError {
    pub lead: String,
    pub found: TokenKind,
    pub line: usize,
    pub column: usize,
}

/// The message of a syntax error, a found number token shown with `value`.
pub open spec fn syntax_message(e: SyntaxError, value: Seq<char>) -> Seq<char> {
    e.lead@ + kind_text(e.found@, value)
}

impl SyntaxError {
    /// The parse error it stands for, with its message in full. A found
    /// number token is shown with `value`, the debug form of the float its
    /// literal stands for; for other tokens `value` plays no part.
    pub fn to_parse_error(&self, value: &str) -> (r: SSharpError)
        ensures
            r matches SSharpError::ParseError { message, line, column } && message@
                == syntax_message(*self, value@) && line == self.line && column == self.column,
    {
        let mut message = self.lead.clone();
        push_kind_text(&mut message, &self.found, value);
        SSharpError::ParseError { message, line: self.line, column: self.column }
    }
}

/// Is `e` the syntax error `f`?
pub open spec fn is_failure(e: SyntaxError, f: ParseFailure) -> bool {
    &&& !f.beyond
    &&& e.lead@ == f.lead
    &&& e.found@ == f.found
    &&& e.line == f.line
    &&& e.column == f.column
}

/// Does an outcome of the parser, with the position it stopped at, agree
/// with what the grammar reads?
pub open spec fn agrees<V>(r: Result<V, SyntaxError>, pos: int, expected: Parsed<V>) -> bool {
    match expected {
        Ok((v, q)) => r == Ok::<V, SyntaxError>(v) && pos == q,
        Err(f) => match r {
            Err(e) => is_failure(e, f),
            Ok(_) => false,
        },
    }
}

/// Can the parser read what a rule reads from the tokens without moving past
/// the last token? It can when the tokens end with `Eof`, or when the rule
/// does not need to.
pub open spec fn can_read<T>(ts: Seq<SpecToken>, r: Parsed<T>) -> bool {
    well_ended(ts) || !reads_beyond(r)
}

/// The outcome of the parser with its tree seen through `View`.
pub open spec fn viewed<T: View>(r: Result<T, SyntaxError>) -> Result<T::V, SyntaxError> {
    match r {
        Ok(x) => Ok(x@),
        Err(e) => Err(e),
    }
}

/// The outcome of reading a token of a given kind.
pub open spec fn agrees_unit<T>(r: Result<T, SyntaxError>, pos: int, expected: Parsed<()>) -> bool {
    match expected {
        Ok((_, q)) => r is Ok && pos == q,
        Err(f) => match r {
            Err(e) => is_failure(e, f),
            Ok(_) => false,
        },
    }
}

/// The outcome of the parser with a list of statements seen as its views.
pub open spec fn stmts_outcome(r: Result<Vec<Stmt>, SyntaxError>) -> Result<
    Seq<SStmt>,
    SyntaxError,
> {
    match r {
        Ok(v) => Ok(stmts_view(v@)),
        Err(e) => Err(e),
    }
}

/// The outcome of reading a block header and its actions.
pub open spec fn block_outcome(r: Result<(Expr, Vec<Stmt>), SyntaxError>) -> Result<
    (SExpr, Seq<SStmt>),
    SyntaxError,
> {
    match r {
        Ok((e, v)) => Ok((e@, stmts_view(v@))),
        Err(e) => Err(e),
    }
}

proof fn lemma_stmts_view_push(v: Seq<Stmt>, s: Stmt)
    ensures
        stmts_view(v.push(s)) == stmts_view(v).push(stmt_view(s)),
{
    assert(v.push(s).drop_last() == v);
}

proof fn lemma_strings_view_push(v: Seq<String>, s: String)
    ensures
        strings_view(v.push(s)) == strings_view(v).push(s@),
{
    assert(strings_view(v.push(s)) =~= strings_view(v).push(s@));
}

impl Parser {
    /// The tokens the parser reads.
    pub closed spec fn token_seq(&self) -> Seq<SpecToken> {
        tokens_view(self.tokens@)
    }

    /// The index of the next token to read.
    pub closed spec fn position(&self) -> int {
        self.pos as int
    }

    /// The parser can go on: there are tokens, and the position is on one of
    /// them or just after the last; on one of them if they end with `Eof`.
    pub open spec fn ready(&self) -> bool {
        &&& self.token_seq().len() > 0
        &&& 0 <= self.position() <= self.token_seq().len()
        &&& well_ended(self.token_seq()) ==> self.position() < self.token_seq().len()
    }

    closed spec fn wf(&self) -> bool {
        &&& self.tokens@.len() > 0
        &&& self.pos <= self.tokens@.len()
        &&& well_ended(tokens_view(self.tokens@)) ==> self.pos < self.tokens@.len()
    }

    /// A parser at the first of the tokens.
    pub fn new(tokens: Vec<Token>) -> (p: Self)
        ensures
            p.token_seq() == tokens_view(tokens@),
            p.position() == 0,
    {
        Self { tokens, pos: 0 }
    }

    /// The index of the current token: past the end, the last one.
    fn current(&self) -> (i: usize)
        requires
            self.wf(),
        ensures
            i < self.tokens@.len(),
            tok(tokens_view(self.tokens@), self.pos as int) == self.tokens@[i as int]@,
    {
        if self.pos < self.tokens.len() {
            self.pos
        } else {
            self.tokens.len() - 1
        }
    }

    /// The kind of the current token.
    fn peek_kind(&self) -> (k: &TokenKind)
        requires
            self.wf(),
        ensures
            k@ == tok(tokens_view(self.tokens@), self.pos as int).kind,
    {
        &self.tokens[self.current()].kind
    }

    /// Is the current token the end?
    fn is_at_end(&self) -> (b: bool)
        requires
            self.wf(),
        ensures
            b == (tok(tokens_view(self.tokens@), self.pos as int).kind is Eof),
    {
        matches!(self.peek_kind(), TokenKind::Eof)
    }

    /// Moves past the current token unless it is the end, and gives the
    /// token just before the new position: the one moved past, or at the
    /// end the one before it.
    fn advance(&mut self) -> (t: &Token)
        requires
            old(self).wf(),
            if tok(tokens_view(old(self).tokens@), old(self).pos as int).kind is Eof {
                old(self).pos >= 1
            } else {
                old(self).pos < old(self).tokens@.len()
            },
        ensures
            final(self).wf(),
            final(self).tokens@ == old(self).tokens@,
            final(self).pos == if tok(tokens_view(old(self).tokens@), old(self).pos as int).kind is Eof {
                old(self).pos as int
            } else {
                old(self).pos + 1
            },
            *t == old(self).tokens@[final(self).pos - 1],
    {
        proof {
            let ts = tokens_view(self.tokens@);
            assert(ts[ts.len() - 1] == self.tokens@[ts.len() - 1]@);
            assert(self.tokens.len() == self.tokens@.len());
        }
        if !self.is_at_end() {
            self.pos = self.pos + 1;
        }
        &self.tokens[self.pos - 1]
    }

    /// The error at the current token: `what`, then the kind found there.
    fn error_found(&self, what: &str) -> (e: SyntaxError)
        requires
            self.wf(),
        ensures
            is_failure(e, found_failure(tokens_view(self.tokens@), self.pos as int, what@)),
    {
        let t = &self.tokens[self.current()];
        let mut lead = what.to_owned();
        lead.append(", found ");
        SyntaxError { lead, found: t.kind.copy(), line: t.line, column: t.column }
    }

    /// Reads a token of the variant of `expected`, whatever text it carries,
    /// and gives the token just before the new position.
    fn consume(&mut self, expected: TokenKind, what: &str) -> (r: Result<&Token, SyntaxError>)
        requires
            old(self).wf(),
            can_read(
                tokens_view(old(self).tokens@),
                expect(tokens_view(old(self).tokens@), old(self).pos as int, expected@, what@),
            ),
            (expected@ is Eof && tok(tokens_view(old(self).tokens@), old(self).pos as int).kind is Eof)
                ==> old(self).pos >= 1,
        ensures
            final(self).wf(),
            final(self).tokens@ == old(self).tokens@,
            old(self).pos <= final(self).pos,
            agrees_unit(
                r,
                final(self).pos as int,
                expect(tokens_view(old(self).tokens@), old(self).pos as int, expected@, what@),
            ),
            r matches Ok(t) ==> *t == old(self).tokens@[final(self).pos - 1],
            r is Err ==> final(self).pos == old(self).pos,
    {
        if same_kind(self.peek_kind(), &expected) {
            Ok(self.advance())
        } else {
            Err(self.error_found(what))
        }
    }

    /// Reads an identifier and gives its name.
    fn take_identifier(&mut self, what: &str) -> (r: Result<String, SyntaxError>)
        requires
            old(self).wf(),
            can_read(
                tokens_view(old(self).tokens@),
                identifier(tokens_view(old(self).tokens@), old(self).pos as int, what@),
            ),
        ensures
            final(self).wf(),
            final(self).tokens@ == old(self).tokens@,
            old(self).pos <= final(self).pos,
            agrees(
                viewed(r),
                final(self).pos as int,
                identifier(tokens_view(old(self).tokens@), old(self).pos as int, what@),
            ),
    {
        let name = match self.peek_kind() {
            TokenKind::Identifier(id) => Some(id.clone()),
            _ => None,
        };
        match name {
            Some(id) => {
                self.advance();
                Ok(id)
            },
            None => Err(self.error_found(what)),
        }
    }

    // --- Expression Parsing with Precedence ---
    fn parse_expression(&mut self) -> (r: Result<Expr, SyntaxError>)
        requires
            old(self).wf(),
            can_read(
                tokens_view(old(self).tokens@),
                expression(tokens_view(old(self).tokens@), old(self).pos as int),
            ),
        ensures
            final(self).wf(),
            final(self).tokens@ == old(self).tokens@,
            old(self).pos <= final(self).pos,
            r is Ok ==> old(self).pos < final(self).pos,
            agrees(
                viewed(r),
                final(self).pos as int,
                expression(tokens_view(old(self).tokens@), old(self).pos as int),
            ),
        decreases old(self).tokens@.len() - old(self).pos, 7int,
    {
        let ghost ts = tokens_view(self.tokens@);
        let ghost p0: int = self.pos as int;
        let mut left = self.parse_additive()?;
        loop
            invariant
                self.wf(),
                tokens_view(self.tokens@) == ts,
                self.tokens@ == old(self).tokens@,
                p0 == old(self).pos,
                p0 < self.pos,
                expression(ts, p0) == comparison_rest(ts, left@, self.pos as int),
                can_read(ts, expression(ts, p0)),
            decreases ts.len() - self.pos,
        {
            let op = match self.match_comparison_op() {
                Some(op) => op,
                None => {
                    return Ok(left);
                },
            };
            let ghost p1: int = self.pos as int;
            let right = self.parse_additive()?;
            left = Expr::Binary { left: Box::new(left), op, right: Box::new(right) };
        }
    }

    fn match_comparison_op(&mut self) -> (op: Option<BinOp>)
        requires
            old(self).wf(),
            well_ended(tokens_view(old(self).tokens@)) || old(self).pos < old(self).tokens@.len()
                || comparison_op(
                    tok(tokens_view(old(self).tokens@), old(self).pos as int).kind,
                ) is None,
        ensures
            final(self).wf(),
            final(self).tokens@ == old(self).tokens@,
            op == comparison_op(tok(tokens_view(old(self).tokens@), old(self).pos as int).kind),
            op is Some ==> final(self).pos == old(self).pos + 1,
            op is None ==> final(self).pos == old(self).pos,
    {
        let op = match self.peek_kind() {
            TokenKind::Equals => BinOp::Eq,
            TokenKind::Greater => BinOp::Gt,
            TokenKind::Less => BinOp::Lt,
            TokenKind::GreaterEq => BinOp::GtEq,
            TokenKind::LessEq => BinOp::LtEq,
            _ => {
                return None;
            },
        };
        self.advance();
        Some(op)
    }

    fn parse_additive(&mut self) -> (r: Result<Expr, SyntaxError>)
        requires
            old(self).wf(),
            can_read(
                tokens_view(old(self).tokens@),
                additive(tokens_view(old(self).tokens@), old(self).pos as int),
            ),
        ensures
            final(self).wf(),
            final(self).tokens@ == old(self).tokens@,
            old(self).pos <= final(self).pos,
            r is Ok ==> old(self).pos < final(self).pos,
            agrees(
                viewed(r),
                final(self).pos as int,
                additive(tokens_view(old(self).tokens@), old(self).pos as int),
            ),
        decreases old(self).tokens@.len() - old(self).pos, 5int,
    {
        let ghost ts = tokens_view(self.tokens@);
        let ghost p0: int = self.pos as int;
        let mut left = self.parse_multiplicative()?;
        loop
            invariant
                self.wf(),
                tokens_view(self.tokens@) == ts,
                self.tokens@ == old(self).tokens@,
                p0 == old(self).pos,
                p0 < self.pos,
                additive(ts, p0) == additive_rest(ts, left@, self.pos as int),
                can_read(ts, additive(ts, p0)),
            decreases ts.len() - self.pos,
        {
            let op = match self.match_additive_op() {
                Some(op) => op,
                None => {
                    return Ok(left);
                },
            };
            let right = self.parse_multiplicative()?;
            left = Expr::Binary { left: Box::new(left), op, right: Box::new(right) };
        }
    }

    fn match_additive_op(&mut self) -> (op: Option<BinOp>)
        requires
            old(self).wf(),
            well_ended(tokens_view(old(self).tokens@)) || old(self).pos < old(self).tokens@.len()
                || additive_op(
                    tok(tokens_view(old(self).tokens@), old(self).pos as int).kind,
                ) is None,
        ensures
            final(self).wf(),
            final(self).tokens@ == old(self).tokens@,
            op == additive_op(tok(tokens_view(old(self).tokens@), old(self).pos as int).kind),
            op is Some ==> final(self).pos == old(self).pos + 1,
            op is None ==> final(self).pos == old(self).pos,
    {
        let op = match self.peek_kind() {
            TokenKind::Plus => BinOp::Add,
            TokenKind::Minus => BinOp::Sub,
            _ => {
                return None;
            },
        };
        self.advance();
        Some(op)
    }

    fn parse_multiplicative(&mut self) -> (r: Result<Expr, SyntaxError>)
        requires
            old(self).wf(),
            can_read(
                tokens_view(old(self).tokens@),
                multiplicative(tokens_view(old(self).tokens@), old(self).pos as int),
            ),
        ensures
            final(self).wf(),
            final(self).tokens@ == old(self).tokens@,
            old(self).pos <= final(self).pos,
            r is Ok ==> old(self).pos < final(self).pos,
            agrees(
                viewed(r),
                final(self).pos as int,
                multiplicative(tokens_view(old(self).tokens@), old(self).pos as int),
            ),
        decreases old(self).tokens@.len() - old(self).pos, 3int,
    {
        let ghost ts = tokens_view(self.tokens@);
        let ghost p0: int = self.pos as int;
        let mut left = self.parse_primary()?;
        loop
            invariant
                self.wf(),
                tokens_view(self.tokens@) == ts,
                self.tokens@ == old(self).tokens@,
                p0 == old(self).pos,
                p0 < self.pos,
                multiplicative(ts, p0) == multiplicative_rest(ts, left@, self.pos as int),
                can_read(ts, multiplicative(ts, p0)),
            decreases ts.len() - self.pos,
        {
            let op = match self.match_multiplicative_op() {
                Some(op) => op,
                None => {
                    return Ok(left);
                },
            };
            let right = self.parse_primary()?;
            left = Expr::Binary { left: Box::new(left), op, right: Box::new(right) };
        }
    }

    fn match_multiplicative_op(&mut self) -> (op: Option<BinOp>)
        requires
            old(self).wf(),
            well_ended(tokens_view(old(self).tokens@)) || old(self).pos < old(self).tokens@.len()
                || multiplicative_op(
                    tok(tokens_view(old(self).tokens@), old(self).pos as int).kind,
                ) is None,
        ensures
            final(self).wf(),
            final(self).tokens@ == old(self).tokens@,
            op == multiplicative_op(tok(tokens_view(old(self).tokens@), old(self).pos as int).kind),
            op is Some ==> final(self).pos == old(self).pos + 1,
            op is None ==> final(self).pos == old(self).pos,
    {
        let op = match self.peek_kind() {
            TokenKind::Star => BinOp::Mul,
            TokenKind::Slash => BinOp::Div,
            _ => {
                return None;
            },
        };
        self.advance();
        Some(op)
    }

    fn parse_primary(&mut self) -> (r: Result<Expr, SyntaxError>)
        requires
            old(self).wf(),
            can_read(
                tokens_view(old(self).tokens@),
                primary(tokens_view(old(self).tokens@), old(self).pos as int),
            ),
        ensures
            final(self).wf(),
            final(self).tokens@ == old(self).tokens@,
            old(self).pos <= final(self).pos,
            r is Ok ==> old(self).pos < final(self).pos,
            agrees(
                viewed(r),
                final(self).pos as int,
                primary(tokens_view(old(self).tokens@), old(self).pos as int),
            ),
        decreases old(self).tokens@.len() - old(self).pos, 1int,
    {
        let leaf = match self.peek_kind() {
            TokenKind::Number(v) => Some(Expr::Number(v.clone())),
            TokenKind::String(v) => Some(Expr::Str(v.clone())),
            TokenKind::Identifier(v) => Some(Expr::Identifier(v.clone())),
            _ => None,
        };
        if let Some(e) = leaf {
            self.advance();
            return Ok(e);
        }
        if matches!(self.peek_kind(), TokenKind::LParen) {
            self.advance();  // consume '('
            let expr = self.parse_expression()?;
            self.consume(TokenKind::RParen, "Expected ')' after parenthesized expression")?;
            Ok(expr)
        } else {
            Err(
                self.error_found(
                    "Expected expression primary (number, string, variable, or '(expr)')",
                ),
            )
        }
    }
}

impl Parser {
    /// Parses a whole program from the current position (see [`when_block`]).
    pub fn parse(&mut self) -> (r: Result<Program, SyntaxError>)
        requires
            old(self).ready(),
            can_read(
                old(self).token_seq(),
                when_block(old(self).token_seq(), old(self).position()),
            ),
        ensures
            final(self).ready(),
            final(self).token_seq() == old(self).token_seq(),
            agrees(
                viewed(r),
                final(self).position(),
                when_block(old(self).token_seq(), old(self).position()),
            ),
    {
        let event = self.parse_when_block()?;
        Ok(Program { event })
    }

    fn parse_when_block(&mut self) -> (r: Result<WhenBlock, SyntaxError>)
        requires
            old(self).wf(),
            can_read(
                tokens_view(old(self).tokens@),
                when_block(tokens_view(old(self).tokens@), old(self).pos as int),
            ),
        ensures
            final(self).wf(),
            final(self).tokens@ == old(self).tokens@,
            match when_block(tokens_view(old(self).tokens@), old(self).pos as int) {
                Ok((prog, q)) => match r {
                    Ok(w) => w.event_name@ == prog.event_name && stmts_view(w.body@) == prog.body
                        && final(self).pos == q,
                    Err(_) => false,
                },
                Err(f) => match r {
                    Err(e) => is_failure(e, f),
                    Ok(_) => false,
                },
            },
    {
        let event_name = self.parse_when_header()?;
        let body = self.parse_statements()?;
        Ok(WhenBlock { event_name, body })
    }

    /// "when" "(" identifier ")" "."
    fn parse_when_header(&mut self) -> (r: Result<String, SyntaxError>)
        requires
            old(self).wf(),
            can_read(
                tokens_view(old(self).tokens@),
                when_header(tokens_view(old(self).tokens@), old(self).pos as int),
            ),
        ensures
            final(self).wf(),
            final(self).tokens@ == old(self).tokens@,
            agrees(
                viewed(r),
                final(self).pos as int,
                when_header(tokens_view(old(self).tokens@), old(self).pos as int),
            ),
    {
        if !matches!(self.peek_kind(), TokenKind::When) {
            return Err(self.error_found("Expected 'when' keyword at program start"));
        }
        self.advance();  // consume 'when'
        self.consume(TokenKind::LParen, "Expected '(' after 'when'")?;
        let event_name = self.take_identifier("Expected event identifier inside 'when(...)'")?;
        self.consume(TokenKind::RParen, "Expected ')' after event name")?;
        self.consume(TokenKind::Period, "Expected '.' after 'when (...)' block header")?;
        Ok(event_name)
    }

    /// The statements up to the end or the next `when`.
    fn parse_statements(&mut self) -> (r: Result<Vec<Stmt>, SyntaxError>)
        requires
            old(self).wf(),
            can_read(
                tokens_view(old(self).tokens@),
                statements(tokens_view(old(self).tokens@), old(self).pos as int, seq![]),
            ),
        ensures
            final(self).wf(),
            final(self).tokens@ == old(self).tokens@,
            agrees(
                stmts_outcome(r),
                final(self).pos as int,
                statements(tokens_view(old(self).tokens@), old(self).pos as int, seq![]),
            ),
    {
        let ghost ts = tokens_view(self.tokens@);
        let ghost p0: int = self.pos as int;
        let mut body: Vec<Stmt> = Vec::new();
        assert(stmts_view(body@) == Seq::<SStmt>::empty());
        while !self.at_block_end()
            invariant
                self.wf(),
                tokens_view(self.tokens@) == ts,
                self.tokens@ == old(self).tokens@,
                p0 == old(self).pos,
                statements(ts, p0, seq![]) == statements(ts, self.pos as int, stmts_view(body@)),
                can_read(ts, statements(ts, p0, seq![])),
            decreases ts.len() - self.pos,
        {
            let ghost before = body@;
            let st = self.parse_statement()?;
            body.push(st);
            proof {
                lemma_stmts_view_push(before, st);
            }
        }
        Ok(body)
    }

    /// Is the current token the end, or the start of another `when` block?
    fn at_block_end(&self) -> (b: bool)
        requires
            self.wf(),
        ensures
            b == (tok(tokens_view(self.tokens@), self.pos as int).kind is Eof || tok(
                tokens_view(self.tokens@),
                self.pos as int,
            ).kind is When),
    {
        matches!(self.peek_kind(), TokenKind::Eof) || matches!(self.peek_kind(), TokenKind::When)
    }

    fn parse_statement(&mut self) -> (r: Result<Stmt, SyntaxError>)
        requires
            old(self).wf(),
            can_read(
                tokens_view(old(self).tokens@),
                statement(tokens_view(old(self).tokens@), old(self).pos as int),
            ),
        ensures
            final(self).wf(),
            final(self).tokens@ == old(self).tokens@,
            old(self).pos <= final(self).pos,
            r is Ok ==> old(self).pos < final(self).pos,
            agrees(
                viewed(r),
                final(self).pos as int,
                statement(tokens_view(old(self).tokens@), old(self).pos as int),
            ),
    {
        let action = self.parse_action()?;
        // An ask, save or display needs a '.' of its own; the other
        // statements close themselves.
        let needs_period = match &action {
            Stmt::Ask { .. } | Stmt::Assign { .. } | Stmt::Display { .. } => true,
            _ => false,
        };
        if needs_period {
            if matches!(self.peek_kind(), TokenKind::Period) {
                self.advance();
                Ok(action)
            } else {
                Err(self.error_found("Expected '.' to close statement"))
            }
        } else {
            Ok(action)
        }
    }

    /// The error for a statement that starts at token `p` and is no action.
    fn error_unexpected(&self, p: usize) -> (e: SyntaxError)
        requires
            self.wf(),
            p <= self.tokens@.len(),
            self.tokens@.len() > 0,
        ensures
            is_failure(e, unexpected_failure(tokens_view(self.tokens@), p as int)),
    {
        let i: usize = if p < self.tokens.len() {
            p
        } else {
            self.tokens.len() - 1
        };
        let t = &self.tokens[i];
        let lead = "Unexpected statement starting with ".to_owned();
        SyntaxError { lead, found: t.kind.copy(), line: t.line, column: t.column }
    }

    fn parse_action(&mut self) -> (r: Result<Stmt, SyntaxError>)
        requires
            old(self).wf(),
            can_read(
                tokens_view(old(self).tokens@),
                action(tokens_view(old(self).tokens@), old(self).pos as int),
            ),
        ensures
            final(self).wf(),
            final(self).tokens@ == old(self).tokens@,
            old(self).pos <= final(self).pos,
            r is Ok ==> old(self).pos < final(self).pos,
            agrees(
                viewed(r),
                final(self).pos as int,
                action(tokens_view(old(self).tokens@), old(self).pos as int),
            ),
        decreases old(self).tokens@.len() - old(self).pos, 17int,
    {
        match self.peek_kind() {
            TokenKind::Ask => {
                return self.parse_ask_stmt();
            },
            TokenKind::Save => {
                return self.parse_save_stmt();
            },
            TokenKind::Display => {
                return self.parse_display_stmt();
            },
            TokenKind::If => {
                return self.parse_if_stmt();
            },
            TokenKind::Repeat => {
                return self.parse_repeat_stmt();
            },
            TokenKind::While => {
                return self.parse_while_stmt();
            },
            TokenKind::Define => {
                return self.parse_function_def_stmt();
            },
            _ => {},
        }
        // An expression followed by 'and save to <ident>'
        let start: usize = self.pos;
        let expr = self.parse_expression()?;
        if matches!(self.peek_kind(), TokenKind::And) {
            let target = self.parse_save_target("Expected target variable identifier")?;
            Ok(Stmt::Assign { value: expr, target })
        } else {
            Err(self.error_unexpected(start))
        }
    }

    /// Reads "and save to <identifier>" and gives the identifier.
    fn parse_save_target(&mut self, what: &str) -> (r: Result<String, SyntaxError>)
        requires
            old(self).wf(),
            can_read(
                tokens_view(old(self).tokens@),
                save_target(tokens_view(old(self).tokens@), old(self).pos as int, what@),
            ),
            tok(tokens_view(old(self).tokens@), old(self).pos as int).kind is And,
        ensures
            final(self).wf(),
            final(self).tokens@ == old(self).tokens@,
            old(self).pos <= final(self).pos,
            r is Ok ==> old(self).pos < final(self).pos,
            agrees(
                viewed(r),
                final(self).pos as int,
                save_target(tokens_view(old(self).tokens@), old(self).pos as int, what@),
            ),
    {
        self.advance();  // consume 'and'
        self.consume(TokenKind::Save, "Expected 'save' after 'and'")?;
        self.consume(TokenKind::To, "Expected 'to' after 'save'")?;
        self.take_identifier(what)
    }

    fn parse_ask_stmt(&mut self) -> (r: Result<Stmt, SyntaxError>)
        requires
            old(self).wf(),
            can_read(
                tokens_view(old(self).tokens@),
                ask_stmt(tokens_view(old(self).tokens@), old(self).pos as int),
            ),
            tok(tokens_view(old(self).tokens@), old(self).pos as int).kind is Ask,
        ensures
            final(self).wf(),
            final(self).tokens@ == old(self).tokens@,
            old(self).pos <= final(self).pos,
            r is Ok ==> old(self).pos < final(self).pos,
            agrees(
                viewed(r),
                final(self).pos as int,
                ask_stmt(tokens_view(old(self).tokens@), old(self).pos as int),
            ),
    {
        self.advance();  // consume 'ask'
        let prompt = match self.peek_kind() {
            TokenKind::String(s) => Some(s.clone()),
            _ => None,
        };
        let prompt = match prompt {
            Some(s) => {
                self.advance();
                s
            },
            None => {
                return Err(self.error_found("Expected string prompt after 'ask'"));
            },
        };
        let mut target = String::new();
        if matches!(self.peek_kind(), TokenKind::And) {
            target = self.parse_save_target("Expected variable identifier after 'save to'")?;
        }
        Ok(Stmt::Ask { prompt, target })
    }

    fn parse_save_stmt(&mut self) -> (r: Result<Stmt, SyntaxError>)
        requires
            old(self).wf(),
            can_read(
                tokens_view(old(self).tokens@),
                save_stmt(tokens_view(old(self).tokens@), old(self).pos as int),
            ),
            tok(tokens_view(old(self).tokens@), old(self).pos as int).kind is Save,
        ensures
            final(self).wf(),
            final(self).tokens@ == old(self).tokens@,
            old(self).pos <= final(self).pos,
            r is Ok ==> old(self).pos < final(self).pos,
            agrees(
                viewed(r),
                final(self).pos as int,
                save_stmt(tokens_view(old(self).tokens@), old(self).pos as int),
            ),
    {
        self.advance();  // consume 'save'
        let value = self.parse_expression()?;
        self.consume(TokenKind::To, "Expected 'to' after expression in save statement")?;
        let target = self.take_identifier("Expected target variable identifier after 'to'")?;
        Ok(Stmt::Assign { value, target })
    }

    fn parse_display_stmt(&mut self) -> (r: Result<Stmt, SyntaxError>)
        requires
            old(self).wf(),
            can_read(
                tokens_view(old(self).tokens@),
                display_stmt(tokens_view(old(self).tokens@), old(self).pos as int),
            ),
            tok(tokens_view(old(self).tokens@), old(self).pos as int).kind is Display,
        ensures
            final(self).wf(),
            final(self).tokens@ == old(self).tokens@,
            old(self).pos <= final(self).pos,
            r is Ok ==> old(self).pos < final(self).pos,
            agrees(
                viewed(r),
                final(self).pos as int,
                display_stmt(tokens_view(old(self).tokens@), old(self).pos as int),
            ),
    {
        self.advance();  // consume 'display'
        let value = self.parse_expression()?;
        Ok(Stmt::Display { value })
    }

    /// The header "(" expression ")" "," and the action list after the keyword
    /// of an if, repeat or while.
    fn parse_headed_block(&mut self, open_what: &str, close_what: &str, comma_what: &str) -> (r:
        Result<(Expr, Vec<Stmt>), SyntaxError>)
        requires
            old(self).wf(),
            can_read(
                tokens_view(old(self).tokens@),
                headed_block(
                    tokens_view(old(self).tokens@),
                    old(self).pos as int,
                    open_what@,
                    close_what@,
                    comma_what@,
                ),
            ),
            !(tok(tokens_view(old(self).tokens@), old(self).pos as int).kind is Eof),
        ensures
            final(self).wf(),
            final(self).tokens@ == old(self).tokens@,
            old(self).pos <= final(self).pos,
            r is Ok ==> old(self).pos < final(self).pos,
            agrees(
                block_outcome(r),
                final(self).pos as int,
                headed_block(
                    tokens_view(old(self).tokens@),
                    old(self).pos as int,
                    open_what@,
                    close_what@,
                    comma_what@,
                ),
            ),
        decreases old(self).tokens@.len() - old(self).pos, 15int,
    {
        self.advance();  // consume the keyword
        self.consume(TokenKind::LParen, open_what)?;
        let condition = self.parse_expression()?;
        self.consume(TokenKind::RParen, close_what)?;
        self.consume(TokenKind::Comma, comma_what)?;
        let actions = self.parse_action_list()?;
        Ok((condition, actions))
    }

    fn parse_if_stmt(&mut self) -> (r: Result<Stmt, SyntaxError>)
        requires
            old(self).wf(),
            can_read(
                tokens_view(old(self).tokens@),
                if_stmt(tokens_view(old(self).tokens@), old(self).pos as int),
            ),
            tok(tokens_view(old(self).tokens@), old(self).pos as int).kind is If,
        ensures
            final(self).wf(),
            final(self).tokens@ == old(self).tokens@,
            old(self).pos <= final(self).pos,
            r is Ok ==> old(self).pos < final(self).pos,
            agrees(
                viewed(r),
                final(self).pos as int,
                if_stmt(tokens_view(old(self).tokens@), old(self).pos as int),
            ),
        decreases old(self).tokens@.len() - old(self).pos, 16int,
    {
        let (condition, actions) = self.parse_headed_block(
            "Expected '(' after 'if'",
            "Expected ')' after if condition",
            "Expected ',' after 'if (...)' condition",
        )?;
        Ok(Stmt::If { condition, actions })
    }

    fn parse_repeat_stmt(&mut self) -> (r: Result<Stmt, SyntaxError>)
        requires
            old(self).wf(),
            can_read(
                tokens_view(old(self).tokens@),
                repeat_stmt(tokens_view(old(self).tokens@), old(self).pos as int),
            ),
            tok(tokens_view(old(self).tokens@), old(self).pos as int).kind is Repeat,
        ensures
            final(self).wf(),
            final(self).tokens@ == old(self).tokens@,
            old(self).pos <= final(self).pos,
            r is Ok ==> old(self).pos < final(self).pos,
            agrees(
                viewed(r),
                final(self).pos as int,
                repeat_stmt(tokens_view(old(self).tokens@), old(self).pos as int),
            ),
        decreases old(self).tokens@.len() - old(self).pos, 16int,
    {
        let (count, actions) = self.parse_headed_block(
            "Expected '(' after 'repeat'",
            "Expected ')' after repeat count",
            "Expected ',' after 'repeat (...)'",
        )?;
        Ok(Stmt::Repeat { count, actions })
    }

    fn parse_while_stmt(&mut self) -> (r: Result<Stmt, SyntaxError>)
        requires
            old(self).wf(),
            can_read(
                tokens_view(old(self).tokens@),
                while_stmt(tokens_view(old(self).tokens@), old(self).pos as int),
            ),
            tok(tokens_view(old(self).tokens@), old(self).pos as int).kind is While,
        ensures
            final(self).wf(),
            final(self).tokens@ == old(self).tokens@,
            old(self).pos <= final(self).pos,
            r is Ok ==> old(self).pos < final(self).pos,
            agrees(
                viewed(r),
                final(self).pos as int,
                while_stmt(tokens_view(old(self).tokens@), old(self).pos as int),
            ),
        decreases old(self).tokens@.len() - old(self).pos, 16int,
    {
        let (condition, actions) = self.parse_headed_block(
            "Expected '(' after 'while'",
            "Expected ')' after while condition",
            "Expected ',' after 'while (...)' condition",
        )?;
        Ok(Stmt::While { condition, actions })
    }

    fn parse_function_def_stmt(&mut self) -> (r: Result<Stmt, SyntaxError>)
        requires
            old(self).wf(),
            can_read(
                tokens_view(old(self).tokens@),
                function_def(tokens_view(old(self).tokens@), old(self).pos as int),
            ),
            tok(tokens_view(old(self).tokens@), old(self).pos as int).kind is Define,
        ensures
            final(self).wf(),
            final(self).tokens@ == old(self).tokens@,
            old(self).pos <= final(self).pos,
            r is Ok ==> old(self).pos < final(self).pos,
            agrees(
                viewed(r),
                final(self).pos as int,
                function_def(tokens_view(old(self).tokens@), old(self).pos as int),
            ),
    {
        self.advance();  // consume 'define'
        self.consume(TokenKind::Function, "Expected 'function' after 'define'")?;
        let name = self.take_identifier("Expected function name identifier")?;
        self.consume(TokenKind::LParen, "Expected '(' after function name")?;
        let names = self.parse_param_list()?;
        self.parse_function_tail(name, names)
    }

    /// ")" "," "return" expression "." after the parameters of a function definition.
    fn parse_function_tail(&mut self, name: String, names: Vec<String>) -> (r: Result<
        Stmt,
        SyntaxError,
    >)
        requires
            old(self).wf(),
            can_read(
                tokens_view(old(self).tokens@),
                function_tail(
                    tokens_view(old(self).tokens@),
                    name@,
                    strings_view(names@),
                    old(self).pos as int,
                ),
            ),
        ensures
            final(self).wf(),
            final(self).tokens@ == old(self).tokens@,
            old(self).pos <= final(self).pos,
            r is Ok ==> old(self).pos < final(self).pos,
            agrees(
                viewed(r),
                final(self).pos as int,
                function_tail(
                    tokens_view(old(self).tokens@),
                    name@,
                    strings_view(names@),
                    old(self).pos as int,
                ),
            ),
    {
        self.consume(TokenKind::RParen, "Expected ')' after function parameters")?;
        self.consume(TokenKind::Comma, "Expected ',' after function header")?;
        self.consume(TokenKind::Return, "Expected 'return' in function definition")?;
        let return_expr = self.parse_expression()?;
        self.consume(TokenKind::Period, "Expected '.' at end of function definition")?;
        Ok(Stmt::FunctionDef { name, params: names, return_expr })
    }

    /// The parameter names of a function definition, up to its ")".
    fn parse_param_list(&mut self) -> (r: Result<Vec<String>, SyntaxError>)
        requires
            old(self).wf(),
            can_read(
                tokens_view(old(self).tokens@),
                param_list(tokens_view(old(self).tokens@), old(self).pos as int),
            ),
        ensures
            final(self).wf(),
            final(self).tokens@ == old(self).tokens@,
            old(self).pos <= final(self).pos,
            match param_list(tokens_view(old(self).tokens@), old(self).pos as int) {
                Ok((names, q)) => match r {
                    Ok(v) => strings_view(v@) == names && final(self).pos == q,
                    Err(_) => false,
                },
                Err(f) => match r {
                    Err(e) => is_failure(e, f),
                    Ok(_) => false,
                },
            },
    {
        let ghost ts = tokens_view(self.tokens@);
        let ghost p0: int = self.pos as int;
        let mut names: Vec<String> = Vec::new();
        assert(strings_view(names@) == Seq::<Seq<char>>::empty());
        if matches!(self.peek_kind(), TokenKind::RParen) {
            return Ok(names);
        }
        loop
            invariant_except_break
                params(ts, p0, seq![]) == params(ts, self.pos as int, strings_view(names@)),
            invariant
                self.wf(),
                tokens_view(self.tokens@) == ts,
                self.tokens@ == old(self).tokens@,
                p0 == old(self).pos,
                p0 <= self.pos,
                !(tok(ts, p0).kind is RParen),
                can_read(ts, params(ts, p0, seq![])),
            ensures
                params(ts, p0, seq![]) == Ok::<(Seq<Seq<char>>, int), ParseFailure>(
                    (strings_view(names@), self.pos as int),
                ),
            decreases ts.len() - self.pos,
        {
            let ghost before = names@;
            let ghost p: int = self.pos as int;
            let param = match self.peek_kind() {
                TokenKind::Identifier(x) => Some(x.clone()),
                _ => None,
            };
            match param {
                Some(x) => {
                    self.advance();
                    names.push(x);
                    proof {
                        lemma_strings_view_push(before, x);
                    }
                },
                None => {
                    return Err(self.error_found("Expected parameter identifier"));
                },
            }
            if matches!(self.peek_kind(), TokenKind::Comma) {
                self.advance();
            } else {
                break ;
            }
        }
        Ok(names)
    }

    /// action ("," action)* "."
    fn parse_action_list(&mut self) -> (r: Result<Vec<Stmt>, SyntaxError>)
        requires
            old(self).wf(),
            can_read(
                tokens_view(old(self).tokens@),
                action_list(tokens_view(old(self).tokens@), old(self).pos as int, seq![]),
            ),
        ensures
            final(self).wf(),
            final(self).tokens@ == old(self).tokens@,
            old(self).pos <= final(self).pos,
            r is Ok ==> old(self).pos < final(self).pos,
            agrees(
                stmts_outcome(r),
                final(self).pos as int,
                action_list(tokens_view(old(self).tokens@), old(self).pos as int, seq![]),
            ),
        decreases old(self).tokens@.len() - old(self).pos, 18int,
    {
        let ghost ts = tokens_view(self.tokens@);
        let ghost p0: int = self.pos as int;
        let mut actions: Vec<Stmt> = Vec::new();
        loop
            invariant
                self.wf(),
                tokens_view(self.tokens@) == ts,
                self.tokens@ == old(self).tokens@,
                p0 == old(self).pos,
                p0 <= self.pos,
                action_list(ts, p0, seq![]) == action_list(
                    ts,
                    self.pos as int,
                    stmts_view(actions@),
                ),
                can_read(ts, action_list(ts, p0, seq![])),
            decreases ts.len() - self.pos,
        {
            let ghost before = actions@;
            let a = self.parse_action()?;
            actions.push(a);
            proof {
                lemma_stmts_view_push(before, a);
            }
            if matches!(self.peek_kind(), TokenKind::Comma) {
                self.advance();  // consume ',' and go on to the next action
            } else if matches!(self.peek_kind(), TokenKind::Period) {
                self.advance();  // consume '.' and finish the action list
                return Ok(actions);
            } else {
                return Err(
                    self.error_found("Expected ',' or '.' after action in statement body"),
                );
            }
        }
    }
}

/// Are two token kinds the same variant, whatever text they carry?
fn same_kind(k: &TokenKind, expected: &TokenKind) -> (b: bool)
    ensures
        b == same_variant(k@, expected@),
{
    match expected {
        TokenKind::When => matches!(k, TokenKind::When),
        TokenKind::Ask => matches!(k, TokenKind::Ask),
        TokenKind::Save => matches!(k, TokenKind::Save),
        TokenKind::To => matches!(k, TokenKind::To),
        TokenKind::And => matches!(k, TokenKind::And),
        TokenKind::Display => matches!(k, TokenKind::Display),
        TokenKind::If => matches!(k, TokenKind::If),
        TokenKind::Repeat => matches!(k, TokenKind::Repeat),
        TokenKind::While => matches!(k, TokenKind::While),
        TokenKind::Define => matches!(k, TokenKind::Define),
        TokenKind::Function => matches!(k, TokenKind::Function),
        TokenKind::Return => matches!(k, TokenKind::Return),
        TokenKind::Identifier(_) => matches!(k, TokenKind::Identifier(_)),
        TokenKind::Number(_) => matches!(k, TokenKind::Number(_)),
        TokenKind::String(_) => matches!(k, TokenKind::String(_)),
        TokenKind::Comma => matches!(k, TokenKind::Comma),
        TokenKind::Period => matches!(k, TokenKind::Period),
        TokenKind::LParen => matches!(k, TokenKind::LParen),
        TokenKind::RParen => matches!(k, TokenKind::RParen),
        TokenKind::Plus => matches!(k, TokenKind::Plus),
        TokenKind::Minus => matches!(k, TokenKind::Minus),
        TokenKind::Star => matches!(k, TokenKind::Star),
        TokenKind::Slash => matches!(k, TokenKind::Slash),
        TokenKind::Equals => matches!(k, TokenKind::Equals),
        TokenKind::Greater => matches!(k, TokenKind::Greater),
        TokenKind::Less => matches!(k, TokenKind::Less),
        TokenKind::GreaterEq => matches!(k, TokenKind::GreaterEq),
        TokenKind::LessEq => matches!(k, TokenKind::LessEq),
        TokenKind::Eof => matches!(k, TokenKind::Eof),
    }
}

/// Does the outcome of reading a whole program agree with what the grammar reads from `ts`?
pub open spec fn program_agrees(r: Result<Program, SyntaxError>, ts: Seq<SpecToken>) -> bool {
    match when_block(ts, 0) {
        Ok((p, _)) => match r {
            Ok(prog) => prog@ == p,
            Err(_) => false,
        },
        Err(f) => match r {
            Err(e) => is_failure(e, f),
            Ok(_) => false,
        },
    }
}

/// Is `e` the lexical error `f`?
pub open spec fn is_lex_failure(e: SSharpError, f: LexFailure) -> bool {
    match e {
        SSharpError::LexError { message, line, column } => message@ == f.message && line == f.line
            && column == f.column,
        _ => false,
    }
}

/// The first error in a program's source text: lexical, or syntax.
#[derive(Debug, Clone, PartialEq)]
pub enum SourceError {
    Lex(SSharpError),
    Syntax(SyntaxError),
}

/// Reads a program from its source text: tokenizes it, then parses the
/// tokens. The first lexical or syntax error is the result if there is one.
pub fn parse_source(source: &str) -> (r: Result<Program, SourceError>)
    requires
        source@.len() < usize::MAX,
    ensures
        match lex(source@).0 {
            Err(f) => r matches Err(SourceError::Lex(e)) && is_lex_failure(e, f),
            Ok(ts) => match r {
                Ok(p) => program_agrees(Ok::<Program, SyntaxError>(p), ts),
                Err(SourceError::Syntax(e)) => program_agrees(Err::<Program, SyntaxError>(e), ts),
                Err(SourceError::Lex(_)) => false,
            },
        },
{
    let mut lexer = Lexer::new(source);
    let tokens = match lexer.tokenize() {
        Ok(ts) => ts,
        Err(e) => return Err(SourceError::Lex(e)),
    };
    proof {
        law_tokens_end_with_eof(source@);
    }
    let mut parser = Parser::new(tokens);
    match parser.parse() {
        Ok(p) => Ok(p),
        Err(e) => Err(SourceError::Syntax(e)),
    }
}

} // verus!

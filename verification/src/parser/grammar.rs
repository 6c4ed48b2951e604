//! The grammar of S#, as spec functions over a sequence of tokens. Each rule
//! reads from a token index and gives the tree it read and the index after
//! it, or the first syntax error.
use vstd::prelude::*;
use crate::lexer::token::{Kind, SpecToken};
use crate::parser::ast::{BinOp, SExpr, SProgram, SStmt};

verus! {

/// A syntax error: the text its message starts with, the token found
/// where something else was expected (the message ends with that token's
/// debug form), and that token's line and column. `beyond` marks the outcome
/// of a parser that would have to move past the last token, which it cannot
/// do.
pub struct ParseFailure {
    pub lead: Seq<char>,
    pub found: Kind,
    pub line: nat,
    pub column: nat,
    pub beyond: bool,
}

/// What a rule reads: the tree and the index after it, or an error.
pub type Parsed<T> = Result<(T, int), ParseFailure>;

/// The token at index `p`; past the end, the last token.
pub open spec fn tok(ts: Seq<SpecToken>, p: int) -> SpecToken {
    if 0 <= p < ts.len() {
        ts[p]
    } else {
        ts.last()
    }
}

/// The tokens from `p` on: the measure by which reading moves forward.
pub open spec fn left(ts: Seq<SpecToken>, p: int) -> int {
    if 0 <= p < ts.len() {
        ts.len() - p
    } else {
        0
    }
}

/// The error at token `p`: `what`, then the kind of token found there.
pub open spec fn found_failure(ts: Seq<SpecToken>, p: int, what: Seq<char>) -> ParseFailure {
    ParseFailure {
        lead: what + ", found "@,
        found: tok(ts, p).kind,
        line: tok(ts, p).line,
        column: tok(ts, p).column,
        beyond: false,
    }
}

pub open spec fn found<T>(ts: Seq<SpecToken>, p: int, what: Seq<char>) -> Parsed<T> {
    Err(found_failure(ts, p, what))
}

/// The error for a statement that starts with the token at `p` and is no action.
pub open spec fn unexpected_failure(ts: Seq<SpecToken>, p: int) -> ParseFailure {
    ParseFailure {
        lead: "Unexpected statement starting with "@,
        found: tok(ts, p).kind,
        line: tok(ts, p).line,
        column: tok(ts, p).column,
        beyond: false,
    }
}

/// The outcome of a parser that would have to move past the last token.
pub open spec fn stuck<T>() -> Parsed<T> {
    Err(ParseFailure { lead: seq![], found: Kind::Eof, line: 0, column: 0, beyond: true })
}

/// Does the outcome mark a parser that would have to move past the last token?
pub open spec fn reads_beyond<T>(r: Parsed<T>) -> bool {
    r matches Err(f) && f.beyond
}

/// Moving past the token at `p`: possible only while `p` is on a token.
pub open spec fn past(ts: Seq<SpecToken>, p: int) -> Parsed<()> {
    if 0 <= p < ts.len() {
        Ok(((), p + 1))
    } else {
        stuck()
    }
}

/// Moving past the token at `p`, giving `v` as what was read.
pub open spec fn past_with<T>(ts: Seq<SpecToken>, p: int, v: T) -> Parsed<T> {
    if 0 <= p < ts.len() {
        Ok((v, p + 1))
    } else {
        stuck()
    }
}

/// Are two token kinds the same variant, whatever text they carry?
pub open spec fn same_variant(a: Kind, b: Kind) -> bool {
    match (a, b) {
        (Kind::When, Kind::When) => true,
        (Kind::Ask, Kind::Ask) => true,
        (Kind::Save, Kind::Save) => true,
        (Kind::To, Kind::To) => true,
        (Kind::And, Kind::And) => true,
        (Kind::Display, Kind::Display) => true,
        (Kind::If, Kind::If) => true,
        (Kind::Repeat, Kind::Repeat) => true,
        (Kind::While, Kind::While) => true,
        (Kind::Define, Kind::Define) => true,
        (Kind::Function, Kind::Function) => true,
        (Kind::Return, Kind::Return) => true,
        (Kind::Identifier(_), Kind::Identifier(_)) => true,
        (Kind::Number(_), Kind::Number(_)) => true,
        (Kind::Str(_), Kind::Str(_)) => true,
        (Kind::Comma, Kind::Comma) => true,
        (Kind::Period, Kind::Period) => true,
        (Kind::LParen, Kind::LParen) => true,
        (Kind::RParen, Kind::RParen) => true,
        (Kind::Plus, Kind::Plus) => true,
        (Kind::Minus, Kind::Minus) => true,
        (Kind::Star, Kind::Star) => true,
        (Kind::Slash, Kind::Slash) => true,
        (Kind::Equals, Kind::Equals) => true,
        (Kind::Greater, Kind::Greater) => true,
        (Kind::Less, Kind::Less) => true,
        (Kind::GreaterEq, Kind::GreaterEq) => true,
        (Kind::LessEq, Kind::LessEq) => true,
        (Kind::Eof, Kind::Eof) => true,
        _ => false,
    }
}

/// Reading a token of the variant of `k` at `p`. At the end (`Eof`) the
/// position stays where it is; any other token is moved past.
pub open spec fn expect(ts: Seq<SpecToken>, p: int, k: Kind, what: Seq<char>) -> Parsed<()> {
    if same_variant(tok(ts, p).kind, k) {
        if k is Eof {
            Ok(((), p))
        } else {
            past(ts, p)
        }
    } else {
        found(ts, p, what)
    }
}

/// The comparison operator of a token kind, if it is one.
pub open spec fn comparison_op(k: Kind) -> Option<BinOp> {
    match k {
        Kind::Equals => Some(BinOp::Eq),
        Kind::Greater => Some(BinOp::Gt),
        Kind::Less => Some(BinOp::Lt),
        Kind::GreaterEq => Some(BinOp::GtEq),
        Kind::LessEq => Some(BinOp::LtEq),
        _ => None,
    }
}

/// The additive operator of a token kind, if it is one.
pub open spec fn additive_op(k: Kind) -> Option<BinOp> {
    match k {
        Kind::Plus => Some(BinOp::Add),
        Kind::Minus => Some(BinOp::Sub),
        _ => None,
    }
}

/// The multiplicative operator of a token kind, if it is one.
pub open spec fn multiplicative_op(k: Kind) -> Option<BinOp> {
    match k {
        Kind::Star => Some(BinOp::Mul),
        Kind::Slash => Some(BinOp::Div),
        _ => None,
    }
}

pub open spec fn binary(left: SExpr, op: BinOp, right: SExpr) -> SExpr {
    SExpr::Binary { left: Box::new(left), op, right: Box::new(right) }
}

/// expression := additive (comparison-op additive)*, grouped to the left.
pub open spec fn expression(ts: Seq<SpecToken>, p: int) -> Parsed<SExpr>
    decreases left(ts, p), 7int,
{
    if p < 0 || ts.len() == 0 {
        stuck()
    } else {
        match additive(ts, p) {
            Err(f) => Err(f),
            Ok((l, p1)) => if p <= p1 {
                comparison_rest(ts, l, p1)
            } else {
                stuck()
            },
        }
    }
}

pub open spec fn comparison_rest(ts: Seq<SpecToken>, l: SExpr, p: int) -> Parsed<SExpr>
    decreases left(ts, p), 6int,
{
    if p < 0 || ts.len() == 0 {
        stuck()
    } else {
        match comparison_op(tok(ts, p).kind) {
            None => Ok((l, p)),
            Some(op) => match past(ts, p) {
                Err(f) => Err(f),
                Ok((_, p1)) => match additive(ts, p1) {
                    Err(f) => Err(f),
                    Ok((r, p2)) => if p < p2 {
                        comparison_rest(ts, binary(l, op, r), p2)
                    } else {
                        stuck()
                    },
                },
            },
        }
    }
}

/// additive := multiplicative (additive-op multiplicative)*, grouped to the left.
pub open spec fn additive(ts: Seq<SpecToken>, p: int) -> Parsed<SExpr>
    decreases left(ts, p), 5int,
{
    if p < 0 || ts.len() == 0 {
        stuck()
    } else {
        match multiplicative(ts, p) {
            Err(f) => Err(f),
            Ok((l, p1)) => if p <= p1 {
                additive_rest(ts, l, p1)
            } else {
                stuck()
            },
        }
    }
}

pub open spec fn additive_rest(ts: Seq<SpecToken>, l: SExpr, p: int) -> Parsed<SExpr>
    decreases left(ts, p), 4int,
{
    if p < 0 || ts.len() == 0 {
        stuck()
    } else {
        match additive_op(tok(ts, p).kind) {
            None => Ok((l, p)),
            Some(op) => match past(ts, p) {
                Err(f) => Err(f),
                Ok((_, p1)) => match multiplicative(ts, p1) {
                    Err(f) => Err(f),
                    Ok((r, p2)) => if p < p2 {
                        additive_rest(ts, binary(l, op, r), p2)
                    } else {
                        stuck()
                    },
                },
            },
        }
    }
}

/// multiplicative := primary (multiplicative-op primary)*, grouped to the left.
pub open spec fn multiplicative(ts: Seq<SpecToken>, p: int) -> Parsed<SExpr>
    decreases left(ts, p), 3int,
{
    if p < 0 || ts.len() == 0 {
        stuck()
    } else {
        match primary(ts, p) {
            Err(f) => Err(f),
            Ok((l, p1)) => if p <= p1 {
                multiplicative_rest(ts, l, p1)
            } else {
                stuck()
            },
        }
    }
}

pub open spec fn multiplicative_rest(ts: Seq<SpecToken>, l: SExpr, p: int) -> Parsed<SExpr>
    decreases left(ts, p), 2int,
{
    if p < 0 || ts.len() == 0 {
        stuck()
    } else {
        match multiplicative_op(tok(ts, p).kind) {
            None => Ok((l, p)),
            Some(op) => match past(ts, p) {
                Err(f) => Err(f),
                Ok((_, p1)) => match primary(ts, p1) {
                    Err(f) => Err(f),
                    Ok((r, p2)) => if p < p2 {
                        multiplicative_rest(ts, binary(l, op, r), p2)
                    } else {
                        stuck()
                    },
                },
            },
        }
    }
}

/// primary := number | string | identifier | "(" expression ")".
pub open spec fn primary(ts: Seq<SpecToken>, p: int) -> Parsed<SExpr>
    decreases left(ts, p), 1int,
{
    if p < 0 || ts.len() == 0 {
        stuck()
    } else {
        match tok(ts, p).kind {
            Kind::Number(v) => past_with(ts, p, SExpr::Number(v)),
            Kind::Str(v) => past_with(ts, p, SExpr::Str(v)),
            Kind::Identifier(v) => past_with(ts, p, SExpr::Identifier(v)),
            Kind::LParen => match past(ts, p) {
                Err(f) => Err(f),
                Ok((_, p1)) => match expression(ts, p1) {
                    Err(f) => Err(f),
                    Ok((e, p2)) => if tok(ts, p2).kind is RParen {
                        past_with(ts, p2, e)
                    } else {
                        found(ts, p2, "Expected ')' after parenthesized expression"@)
                    },
                },
            },
            _ => found(
                ts,
                p,
                "Expected expression primary (number, string, variable, or '(expr)')"@,
            ),
        }
    }
}

/// The name of an identifier token at `p`, or the error `what`.
pub open spec fn identifier(ts: Seq<SpecToken>, p: int, what: Seq<char>) -> Parsed<Seq<char>> {
    match tok(ts, p).kind {
        Kind::Identifier(id) => past_with(ts, p, id),
        _ => found(ts, p, what),
    }
}

/// "and save to <identifier>" after a value, starting at the `and` at `p`.
pub open spec fn save_target(ts: Seq<SpecToken>, p: int, what: Seq<char>) -> Parsed<Seq<char>> {
    match past(ts, p) {
        Err(f) => Err(f),
        Ok((_, p0)) => match expect(ts, p0, Kind::Save, "Expected 'save' after 'and'"@) {
            Err(f) => Err(f),
            Ok((_, p1)) => match expect(ts, p1, Kind::To, "Expected 'to' after 'save'"@) {
                Err(f) => Err(f),
                Ok((_, p2)) => identifier(ts, p2, what),
            },
        },
    }
}

/// action := ask | save | display | if | repeat | while | function-definition
///         | expression "and" "save" "to" identifier.
pub open spec fn action(ts: Seq<SpecToken>, p: int) -> Parsed<SStmt>
    decreases left(ts, p), 17int,
{
    if p < 0 || ts.len() == 0 {
        stuck()
    } else {
        match tok(ts, p).kind {
            Kind::Ask => ask_stmt(ts, p),
            Kind::Save => save_stmt(ts, p),
            Kind::Display => display_stmt(ts, p),
            Kind::If => if_stmt(ts, p),
            Kind::Repeat => repeat_stmt(ts, p),
            Kind::While => while_stmt(ts, p),
            Kind::Define => function_def(ts, p),
            _ => match expression(ts, p) {
                Err(f) => Err(f),
                Ok((e, p1)) => if tok(ts, p1).kind is And {
                    match save_target(ts, p1, "Expected target variable identifier"@) {
                        Err(f) => Err(f),
                        Ok((target, p2)) => Ok((SStmt::Assign { value: e, target }, p2)),
                    }
                } else {
                    Err(unexpected_failure(ts, p))
                },
            },
        }
    }
}

/// ask := "ask" string ["and" "save" "to" identifier]; with no target the
/// answer is saved nowhere (an empty target).
pub open spec fn ask_stmt(ts: Seq<SpecToken>, p: int) -> Parsed<SStmt>
    decreases left(ts, p), 16int,
{
    match past(ts, p) {
        Err(f) => Err(f),
        Ok((_, p1)) => match tok(ts, p1).kind {
            Kind::Str(prompt) => match past(ts, p1) {
                Err(f) => Err(f),
                Ok((_, p2)) => if tok(ts, p2).kind is And {
                    match save_target(ts, p2, "Expected variable identifier after 'save to'"@) {
                        Err(f) => Err(f),
                        Ok((target, p3)) => Ok((SStmt::Ask { prompt, target }, p3)),
                    }
                } else {
                    Ok((SStmt::Ask { prompt, target: seq![] }, p2))
                },
            },
            _ => found(ts, p1, "Expected string prompt after 'ask'"@),
        },
    }
}

/// save := "save" expression "to" identifier.
pub open spec fn save_stmt(ts: Seq<SpecToken>, p: int) -> Parsed<SStmt>
    decreases left(ts, p), 16int,
{
    if p < 0 || ts.len() == 0 {
        stuck()
    } else {
        match past(ts, p) {
            Err(f) => Err(f),
            Ok((_, p0)) => match expression(ts, p0) {
                Err(f) => Err(f),
                Ok((value, p1)) => match expect(
                    ts,
                    p1,
                    Kind::To,
                    "Expected 'to' after expression in save statement"@,
                ) {
                    Err(f) => Err(f),
                    Ok((_, p2)) => match identifier(
                        ts,
                        p2,
                        "Expected target variable identifier after 'to'"@,
                    ) {
                        Err(f) => Err(f),
                        Ok((target, p3)) => Ok((SStmt::Assign { value, target }, p3)),
                    },
                },
            },
        }
    }
}

/// display := "display" expression.
pub open spec fn display_stmt(ts: Seq<SpecToken>, p: int) -> Parsed<SStmt>
    decreases left(ts, p), 16int,
{
    if p < 0 || ts.len() == 0 {
        stuck()
    } else {
        match past(ts, p) {
            Err(f) => Err(f),
            Ok((_, p0)) => match expression(ts, p0) {
                Err(f) => Err(f),
                Ok((value, p1)) => Ok((SStmt::Display { value }, p1)),
            },
        }
    }
}

/// The block header shared by if, repeat and while:
/// keyword "(" expression ")" ",", then an action list.
pub open spec fn headed_block(
    ts: Seq<SpecToken>,
    p: int,
    open_what: Seq<char>,
    close_what: Seq<char>,
    comma_what: Seq<char>,
) -> Parsed<(SExpr, Seq<SStmt>)>
    decreases left(ts, p), 15int,
{
    if p < 0 || ts.len() == 0 {
        stuck()
    } else {
        match past(ts, p) {
            Err(f) => Err(f),
            Ok((_, p0)) => match expect(ts, p0, Kind::LParen, open_what) {
                Err(f) => Err(f),
                Ok((_, p1)) => match expression(ts, p1) {
                    Err(f) => Err(f),
                    Ok((e, p2)) => match expect(ts, p2, Kind::RParen, close_what) {
                        Err(f) => Err(f),
                        Ok((_, p3)) => match expect(ts, p3, Kind::Comma, comma_what) {
                            Err(f) => Err(f),
                            Ok((_, p4)) => if p < p4 {
                                match action_list(ts, p4, seq![]) {
                                    Err(f) => Err(f),
                                    Ok((acts, p5)) => Ok(((e, acts), p5)),
                                }
                            } else {
                                stuck()
                            },
                        },
                    },
                },
            },
        }
    }
}

/// if := "if" "(" expression ")" "," action-list.
pub open spec fn if_stmt(ts: Seq<SpecToken>, p: int) -> Parsed<SStmt>
    decreases left(ts, p), 16int,
{
    match headed_block(
        ts,
        p,
        "Expected '(' after 'if'"@,
        "Expected ')' after if condition"@,
        "Expected ',' after 'if (...)' condition"@,
    ) {
        Err(f) => Err(f),
        Ok(((condition, actions), q)) => Ok((SStmt::If { condition, actions }, q)),
    }
}

/// repeat := "repeat" "(" expression ")" "," action-list.
pub open spec fn repeat_stmt(ts: Seq<SpecToken>, p: int) -> Parsed<SStmt>
    decreases left(ts, p), 16int,
{
    match headed_block(
        ts,
        p,
        "Expected '(' after 'repeat'"@,
        "Expected ')' after repeat count"@,
        "Expected ',' after 'repeat (...)'"@,
    ) {
        Err(f) => Err(f),
        Ok(((count, actions), q)) => Ok((SStmt::Repeat { count, actions }, q)),
    }
}

/// while := "while" "(" expression ")" "," action-list.
pub open spec fn while_stmt(ts: Seq<SpecToken>, p: int) -> Parsed<SStmt>
    decreases left(ts, p), 16int,
{
    match headed_block(
        ts,
        p,
        "Expected '(' after 'while'"@,
        "Expected ')' after while condition"@,
        "Expected ',' after 'while (...)' condition"@,
    ) {
        Err(f) => Err(f),
        Ok(((condition, actions), q)) => Ok((SStmt::While { condition, actions }, q)),
    }
}

/// The parameter names `identifier ("," identifier)*` from `p`, after those in `acc`.
pub open spec fn params(ts: Seq<SpecToken>, p: int, acc: Seq<Seq<char>>) -> Parsed<Seq<Seq<char>>>
    decreases left(ts, p),
{
    if p < 0 || ts.len() == 0 {
        stuck()
    } else {
        match tok(ts, p).kind {
            Kind::Identifier(x) => match past(ts, p) {
                Err(f) => Err(f),
                Ok((_, p1)) => if tok(ts, p1).kind is Comma {
                    match past(ts, p1) {
                        Err(f) => Err(f),
                        Ok((_, p2)) => if p < p2 {
                            params(ts, p2, acc.push(x))
                        } else {
                            stuck()
                        },
                    }
                } else {
                    Ok((acc.push(x), p1))
                },
            },
            _ => found(ts, p, "Expected parameter identifier"@),
        }
    }
}

/// The parameter list after the "(" of a function definition: empty when a
/// ")" follows at once.
pub open spec fn param_list(ts: Seq<SpecToken>, p: int) -> Parsed<Seq<Seq<char>>> {
    if tok(ts, p).kind is RParen {
        Ok((seq![], p))
    } else {
        params(ts, p, seq![])
    }
}

/// The rest of a function definition after its parameters:
/// ")" "," "return" expression ".".
pub open spec fn function_tail(
    ts: Seq<SpecToken>,
    name: Seq<char>,
    names: Seq<Seq<char>>,
    p: int,
) -> Parsed<SStmt> {
    match expect(ts, p, Kind::RParen, "Expected ')' after function parameters"@) {
        Err(f) => Err(f),
        Ok((_, p1)) => match expect(ts, p1, Kind::Comma, "Expected ',' after function header"@) {
            Err(f) => Err(f),
            Ok((_, p2)) => match expect(
                ts,
                p2,
                Kind::Return,
                "Expected 'return' in function definition"@,
            ) {
                Err(f) => Err(f),
                Ok((_, p3)) => match expression(ts, p3) {
                    Err(f) => Err(f),
                    Ok((e, p4)) => match expect(
                        ts,
                        p4,
                        Kind::Period,
                        "Expected '.' at end of function definition"@,
                    ) {
                        Err(f) => Err(f),
                        Ok((_, p5)) => Ok(
                            (SStmt::FunctionDef { name, params: names, return_expr: e }, p5),
                        ),
                    },
                },
            },
        },
    }
}

/// function-definition := "define" "function" identifier "(" [params] ")" ","
///                        "return" expression ".".
pub open spec fn function_def(ts: Seq<SpecToken>, p: int) -> Parsed<SStmt> {
    match past(ts, p) {
        Err(f) => Err(f),
        Ok((_, p0)) => match expect(
            ts,
            p0,
            Kind::Function,
            "Expected 'function' after 'define'"@,
        ) {
            Err(f) => Err(f),
            Ok((_, p1)) => match identifier(ts, p1, "Expected function name identifier"@) {
                Err(f) => Err(f),
                Ok((name, p2)) => match expect(
                    ts,
                    p2,
                    Kind::LParen,
                    "Expected '(' after function name"@,
                ) {
                    Err(f) => Err(f),
                    Ok((_, p3)) => match param_list(ts, p3) {
                        Err(f) => Err(f),
                        Ok((names, p4)) => function_tail(ts, name, names, p4),
                    },
                },
            },
        },
    }
}

/// action-list := action ("," action)* ".", after the actions in `acc`.
pub open spec fn action_list(ts: Seq<SpecToken>, p: int, acc: Seq<SStmt>) -> Parsed<Seq<SStmt>>
    decreases left(ts, p), 18int,
{
    if p < 0 || ts.len() == 0 {
        stuck()
    } else {
        match action(ts, p) {
            Err(f) => Err(f),
            Ok((a, p1)) => if p < p1 {
                match tok(ts, p1).kind {
                    Kind::Comma => match past(ts, p1) {
                        Err(f) => Err(f),
                        Ok((_, p2)) => action_list(ts, p2, acc.push(a)),
                    },
                    Kind::Period => past_with(ts, p1, acc.push(a)),
                    _ => found(ts, p1, "Expected ',' or '.' after action in statement body"@),
                }
            } else {
                stuck()
            },
        }
    }
}

/// Does the action need a "." of its own to close it as a statement?
pub open spec fn needs_period(a: SStmt) -> bool {
    a is Ask || a is Assign || a is Display
}

/// statement := action, with a closing "." after an ask, save or display.
pub open spec fn statement(ts: Seq<SpecToken>, p: int) -> Parsed<SStmt>
    decreases left(ts, p), 19int,
{
    if p < 0 || ts.len() == 0 {
        stuck()
    } else {
        match action(ts, p) {
            Err(f) => Err(f),
            Ok((a, p1)) => if needs_period(a) {
                if tok(ts, p1).kind is Period {
                    past_with(ts, p1, a)
                } else {
                    found(ts, p1, "Expected '.' to close statement"@)
                }
            } else {
                Ok((a, p1))
            },
        }
    }
}

/// The statements from `p` up to the end or the next `when`, after those in `acc`.
pub open spec fn statements(ts: Seq<SpecToken>, p: int, acc: Seq<SStmt>) -> Parsed<Seq<SStmt>>
    decreases left(ts, p), 20int,
{
    if p < 0 || ts.len() == 0 {
        stuck()
    } else if tok(ts, p).kind is Eof || tok(ts, p).kind is When {
        Ok((acc, p))
    } else {
        match statement(ts, p) {
            Err(f) => Err(f),
            Ok((st, p1)) => if p < p1 && p < ts.len() {
                statements(ts, p1, acc.push(st))
            } else {
                stuck()
            },
        }
    }
}

/// The header of a program: "when" "(" identifier ")" "."; gives the event's name.
pub open spec fn when_header(ts: Seq<SpecToken>, p: int) -> Parsed<Seq<char>> {
    match expect(ts, p, Kind::When, "Expected 'when' keyword at program start"@) {
        Err(f) => Err(f),
        Ok((_, p0)) => match expect(ts, p0, Kind::LParen, "Expected '(' after 'when'"@) {
            Err(f) => Err(f),
            Ok((_, p1)) => match identifier(
                ts,
                p1,
                "Expected event identifier inside 'when(...)'"@,
            ) {
                Err(f) => Err(f),
                Ok((name, p2)) => match expect(
                    ts,
                    p2,
                    Kind::RParen,
                    "Expected ')' after event name"@,
                ) {
                    Err(f) => Err(f),
                    Ok((_, p3)) => match expect(
                        ts,
                        p3,
                        Kind::Period,
                        "Expected '.' after 'when (...)' block header"@,
                    ) {
                        Err(f) => Err(f),
                        Ok((_, p4)) => Ok((name, p4)),
                    },
                },
            },
        },
    }
}

/// program := "when" "(" identifier ")" "." statement*.
pub open spec fn when_block(ts: Seq<SpecToken>, p: int) -> Parsed<SProgram> {
    match when_header(ts, p) {
        Err(f) => Err(f),
        Ok((name, p4)) => match statements(ts, p4, seq![]) {
            Err(f) => Err(f),
            Ok((body, p5)) => Ok((SProgram { event_name: name, body }, p5)),
        },
    }
}

/// Parsing a whole token sequence.
pub open spec fn parse_program(ts: Seq<SpecToken>) -> Parsed<SProgram> {
    when_block(ts, 0)
}

/// A token sequence the parser can be given: it ends with `Eof`.
pub open spec fn well_ended(ts: Seq<SpecToken>) -> bool {
    ts.len() > 0 && ts.last().kind is Eof
}

} // verus!

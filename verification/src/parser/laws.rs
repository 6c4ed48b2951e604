//! What the grammar reads from short runs of operands and operators: which
//! operator each token stands for, and how operators group.
use vstd::prelude::*;
use crate::lexer::token::{Kind, SpecToken};
use crate::parser::ast::{BinOp, SExpr, SStmt};
use crate::parser::grammar::{
    ParseFailure, action, action_list,
    additive, additive_rest, comparison_rest, expression, multiplicative, multiplicative_rest,
    primary,
};

verus! {

/// A token that is an operand by itself: a number, a string or a variable.
pub open spec fn is_operand(k: Kind) -> bool {
    k is Number || k is Str || k is Identifier
}

/// The expression an operand token stands for.
pub open spec fn operand(k: Kind) -> SExpr {
    match k {
        Kind::Number(v) => SExpr::Number(v),
        Kind::Str(v) => SExpr::Str(v),
        Kind::Identifier(v) => SExpr::Identifier(v),
        _ => SExpr::Number(seq![]),
    }
}

/// The operator a token stands for, and how tightly it binds: comparisons
/// least, then `+` and `-`, then `*` and `/`. `>` is strictly greater,
/// `>=` greater or equal, `<` strictly less, `<=` less or equal, `=` equal.
pub open spec fn operator(k: Kind) -> Option<(BinOp, nat)> {
    match k {
        Kind::Equals => Some((BinOp::Eq, 1nat)),
        Kind::Greater => Some((BinOp::Gt, 1nat)),
        Kind::Less => Some((BinOp::Lt, 1nat)),
        Kind::GreaterEq => Some((BinOp::GtEq, 1nat)),
        Kind::LessEq => Some((BinOp::LtEq, 1nat)),
        Kind::Plus => Some((BinOp::Add, 2nat)),
        Kind::Minus => Some((BinOp::Sub, 2nat)),
        Kind::Star => Some((BinOp::Mul, 3nat)),
        Kind::Slash => Some((BinOp::Div, 3nat)),
        _ => None,
    }
}

pub open spec fn node(l: SExpr, op: BinOp, r: SExpr) -> SExpr {
    SExpr::Binary { left: Box::new(l), op, right: Box::new(r) }
}

proof fn lemma_operand(ts: Seq<SpecToken>, p: int)
    requires
        0 <= p < ts.len(),
        is_operand(ts[p].kind),
    ensures
        primary(ts, p) == Ok::<(SExpr, int), ParseFailure>((operand(ts[p].kind), p + 1)),
{
}

proof fn lemma_stops(ts: Seq<SpecToken>, l: SExpr, p: int)
    requires
        0 <= p < ts.len(),
        operator(ts[p].kind) is None,
    ensures
        multiplicative_rest(ts, l, p) == Ok::<(SExpr, int), ParseFailure>((l, p)),
        additive_rest(ts, l, p) == Ok::<(SExpr, int), ParseFailure>((l, p)),
        comparison_rest(ts, l, p) == Ok::<(SExpr, int), ParseFailure>((l, p)),
{
}

proof fn lemma_mult_stop(ts: Seq<SpecToken>, l: SExpr, p: int)
    requires
        0 <= p < ts.len(),
        operator(ts[p].kind) is Some ==> operator(ts[p].kind)->Some_0.1 < 3,
    ensures
        multiplicative_rest(ts, l, p) == Ok::<(SExpr, int), ParseFailure>((l, p)),
{
}

/// An operand followed by a token that is no operator is read alone, at
/// every level of the grammar.
proof fn lemma_alone(ts: Seq<SpecToken>, p: int)
    requires
        0 <= p,
        p + 1 < ts.len(),
        is_operand(ts[p].kind),
        operator(ts[p + 1].kind) is None,
    ensures
        multiplicative(ts, p) == Ok::<(SExpr, int), ParseFailure>((operand(ts[p].kind), p + 1)),
        additive(ts, p) == Ok::<(SExpr, int), ParseFailure>((operand(ts[p].kind), p + 1)),
        expression(ts, p) == Ok::<(SExpr, int), ParseFailure>((operand(ts[p].kind), p + 1)),
{
    lemma_operand(ts, p);
    lemma_stops(ts, operand(ts[p].kind), p + 1);
}

/// An operand, an operator and an operand, then a token that is no
/// operator: the operator joins the two operands.
pub proof fn law_operator_tokens(ts: Seq<SpecToken>, p: int)
    requires
        0 <= p,
        p + 3 < ts.len(),
        is_operand(ts[p].kind),
        operator(ts[p + 1].kind) is Some,
        is_operand(ts[p + 2].kind),
        operator(ts[p + 3].kind) is None,
    ensures
        expression(ts, p) == Ok::<(SExpr, int), ParseFailure>(
            (
                node(
                    operand(ts[p].kind),
                    operator(ts[p + 1].kind)->Some_0.0,
                    operand(ts[p + 2].kind),
                ),
                p + 3,
            ),
        ),
{
    let a = operand(ts[p].kind);
    let b = operand(ts[p + 2].kind);
    let (op, s) = operator(ts[p + 1].kind)->Some_0;
    lemma_operand(ts, p);
    lemma_alone(ts, p + 2);
    lemma_stops(ts, node(a, op, b), p + 3);
    if s == 3 {
        assert(multiplicative_rest(ts, a, p + 1) == multiplicative_rest(ts, node(a, op, b), p + 3));
        assert(multiplicative(ts, p) == Ok::<(SExpr, int), ParseFailure>((node(a, op, b), p + 3)));
        lemma_stops(ts, node(a, op, b), p + 3);
    } else {
        lemma_mult_stop(ts, a, p + 1);
        assert(multiplicative(ts, p) == Ok::<(SExpr, int), ParseFailure>((a, p + 1)));
        if s == 2 {
            assert(additive_rest(ts, a, p + 1) == additive_rest(ts, node(a, op, b), p + 3));
        } else {
            assert(additive(ts, p) == Ok::<(SExpr, int), ParseFailure>((a, p + 1)));
            assert(comparison_rest(ts, a, p + 1) == comparison_rest(ts, node(a, op, b), p + 3));
        }
    }
}

/// Three operands joined by two operators, then a token that is no
/// operator: when the first operator binds at least as tightly as the
/// second, the first two operands are joined first (`8 / 4 / 2` is
/// `(8 / 4) / 2`, `2 * 3 + 1` is `(2 * 3) + 1`); otherwise the last two
/// are (`1 + 2 * 3` is `1 + (2 * 3)`).
pub proof fn law_operators_group(ts: Seq<SpecToken>, p: int)
    requires
        0 <= p,
        p + 5 < ts.len(),
        is_operand(ts[p].kind),
        operator(ts[p + 1].kind) is Some,
        is_operand(ts[p + 2].kind),
        operator(ts[p + 3].kind) is Some,
        is_operand(ts[p + 4].kind),
        operator(ts[p + 5].kind) is None,
    ensures
        ({
            let a = operand(ts[p].kind);
            let b = operand(ts[p + 2].kind);
            let c = operand(ts[p + 4].kind);
            let (op1, s1) = operator(ts[p + 1].kind)->Some_0;
            let (op2, s2) = operator(ts[p + 3].kind)->Some_0;
            expression(ts, p) == Ok::<(SExpr, int), ParseFailure>(
                (
                    if s1 >= s2 {
                        node(node(a, op1, b), op2, c)
                    } else {
                        node(a, op1, node(b, op2, c))
                    },
                    p + 5,
                ),
            )
        }),
{
    let a = operand(ts[p].kind);
    let b = operand(ts[p + 2].kind);
    let c = operand(ts[p + 4].kind);
    let (op1, s1) = operator(ts[p + 1].kind)->Some_0;
    let (op2, s2) = operator(ts[p + 3].kind)->Some_0;
    let ab = node(a, op1, b);
    let bc = node(b, op2, c);
    lemma_operand(ts, p);
    lemma_operand(ts, p + 2);
    lemma_alone(ts, p + 4);
    lemma_stops(ts, node(ab, op2, c), p + 5);
    lemma_stops(ts, node(a, op1, bc), p + 5);
    lemma_stops(ts, bc, p + 5);
    if s2 == 3 {
        // b op2 c is read as one multiplicative operand.
        assert(multiplicative_rest(ts, b, p + 3) == multiplicative_rest(ts, bc, p + 5));
        assert(multiplicative(ts, p + 2) == Ok::<(SExpr, int), ParseFailure>((bc, p + 5)));
        if s1 == 3 {
            assert(multiplicative_rest(ts, a, p + 1) == multiplicative_rest(ts, ab, p + 3));
            assert(multiplicative_rest(ts, ab, p + 3) == multiplicative_rest(
                ts,
                node(ab, op2, c),
                p + 5,
            ));
        } else {
            lemma_mult_stop(ts, a, p + 1);
            assert(multiplicative(ts, p) == Ok::<(SExpr, int), ParseFailure>((a, p + 1)));
            if s1 == 2 {
                assert(additive_rest(ts, a, p + 1) == additive_rest(ts, node(a, op1, bc), p + 5));
            } else {
                assert(additive(ts, p) == Ok::<(SExpr, int), ParseFailure>((a, p + 1)));
                assert(additive(ts, p + 2) == Ok::<(SExpr, int), ParseFailure>((bc, p + 5)));
                assert(comparison_rest(ts, a, p + 1) == comparison_rest(
                    ts,
                    node(a, op1, bc),
                    p + 5,
                ));
            }
        }
    } else {
        lemma_mult_stop(ts, b, p + 3);
        lemma_mult_stop(ts, ab, p + 3);
        assert(multiplicative(ts, p + 2) == Ok::<(SExpr, int), ParseFailure>((b, p + 3)));
        if s2 == 2 {
            assert(additive_rest(ts, b, p + 3) == additive_rest(ts, bc, p + 5));
            assert(additive(ts, p + 2) == Ok::<(SExpr, int), ParseFailure>((bc, p + 5)));
            if s1 == 3 {
                assert(multiplicative_rest(ts, a, p + 1) == multiplicative_rest(ts, ab, p + 3));
                assert(multiplicative(ts, p) == Ok::<(SExpr, int), ParseFailure>((ab, p + 3)));
                assert(additive_rest(ts, ab, p + 3) == additive_rest(ts, node(ab, op2, c), p + 5));
            } else {
                lemma_mult_stop(ts, a, p + 1);
                assert(multiplicative(ts, p) == Ok::<(SExpr, int), ParseFailure>((a, p + 1)));
                if s1 == 2 {
                    assert(additive_rest(ts, a, p + 1) == additive_rest(ts, ab, p + 3));
                    assert(additive_rest(ts, ab, p + 3) == additive_rest(
                        ts,
                        node(ab, op2, c),
                        p + 5,
                    ));
                } else {
                    assert(additive(ts, p) == Ok::<(SExpr, int), ParseFailure>((a, p + 1)));
                    assert(comparison_rest(ts, a, p + 1) == comparison_rest(
                        ts,
                        node(a, op1, bc),
                        p + 5,
                    ));
                }
            }
        } else {
            assert(additive(ts, p + 2) == Ok::<(SExpr, int), ParseFailure>((b, p + 3)));
            if s1 == 3 {
                assert(multiplicative_rest(ts, a, p + 1) == multiplicative_rest(ts, ab, p + 3));
                assert(multiplicative(ts, p) == Ok::<(SExpr, int), ParseFailure>((ab, p + 3)));
                assert(additive(ts, p) == Ok::<(SExpr, int), ParseFailure>((ab, p + 3)));
            } else {
                lemma_mult_stop(ts, a, p + 1);
                assert(multiplicative(ts, p) == Ok::<(SExpr, int), ParseFailure>((a, p + 1)));
                if s1 == 2 {
                    assert(additive_rest(ts, a, p + 1) == additive_rest(ts, ab, p + 3));
                    assert(additive(ts, p) == Ok::<(SExpr, int), ParseFailure>((ab, p + 3)));
                } else {
                    assert(additive(ts, p) == Ok::<(SExpr, int), ParseFailure>((a, p + 1)));
                    assert(comparison_rest(ts, a, p + 1) == comparison_rest(ts, ab, p + 3));
                }
            }
            assert(comparison_rest(ts, ab, p + 3) == comparison_rest(ts, node(ab, op2, c), p + 5));
        }
    }
}

/// `display` and an operand, then a token that is no operator: the operand
/// is displayed.
pub proof fn law_display_action(ts: Seq<SpecToken>, p: int)
    requires
        0 <= p,
        p + 2 < ts.len(),
        ts[p].kind is Display,
        is_operand(ts[p + 1].kind),
        operator(ts[p + 2].kind) is None,
    ensures
        action(ts, p) == Ok::<(SStmt, int), ParseFailure>(
            (SStmt::Display { value: operand(ts[p + 1].kind) }, p + 2),
        ),
{
    lemma_alone(ts, p + 1);
}

/// `save`, an operand, `to` and a name: the operand is saved to that name.
pub proof fn law_save_action(ts: Seq<SpecToken>, p: int)
    requires
        0 <= p,
        p + 3 < ts.len(),
        ts[p].kind is Save,
        is_operand(ts[p + 1].kind),
        ts[p + 2].kind is To,
        ts[p + 3].kind is Identifier,
    ensures
        action(ts, p) == Ok::<(SStmt, int), ParseFailure>(
            (
                SStmt::Assign {
                    value: operand(ts[p + 1].kind),
                    target: ts[p + 3].kind->Identifier_0,
                },
                p + 4,
            ),
        ),
{
    lemma_alone(ts, p + 1);
}

/// An operand, then `and save to` and a name: the operand is saved to that name.
pub proof fn law_save_after_value(ts: Seq<SpecToken>, p: int)
    requires
        0 <= p,
        p + 4 < ts.len(),
        is_operand(ts[p].kind),
        ts[p + 1].kind is And,
        ts[p + 2].kind is Save,
        ts[p + 3].kind is To,
        ts[p + 4].kind is Identifier,
    ensures
        action(ts, p) == Ok::<(SStmt, int), ParseFailure>(
            (
                SStmt::Assign {
                    value: operand(ts[p].kind),
                    target: ts[p + 4].kind->Identifier_0,
                },
                p + 5,
            ),
        ),
{
    lemma_alone(ts, p);
}

/// `ask` and a prompt: with `and save to` and a name after it the answer is
/// saved to that name, and without, it is saved nowhere (an empty target).
pub proof fn law_ask_action(ts: Seq<SpecToken>, p: int)
    requires
        0 <= p,
        p + 1 < ts.len(),
        ts[p].kind is Ask,
        ts[p + 1].kind is Str,
    ensures
        p + 5 < ts.len() && ts[p + 2].kind is And && ts[p + 3].kind is Save && ts[p + 4].kind is To
            && ts[p + 5].kind is Identifier ==> action(ts, p) == Ok::<(SStmt, int), ParseFailure>(
            (
                SStmt::Ask {
                    prompt: ts[p + 1].kind->Str_0,
                    target: ts[p + 5].kind->Identifier_0,
                },
                p + 6,
            ),
        ),
        p + 2 < ts.len() && !(ts[p + 2].kind is And) ==> action(ts, p) == Ok::<
            (SStmt, int),
            ParseFailure,
        >((SStmt::Ask { prompt: ts[p + 1].kind->Str_0, target: seq![] }, p + 2)),
{
}

/// `if`, `repeat` or `while`, an operand in brackets, a comma, and one
/// `display` of an operand closed by a period: the operand in brackets is
/// the condition (or the count), and the display is the one action.
pub proof fn law_block_actions(ts: Seq<SpecToken>, p: int)
    requires
        0 <= p,
        p + 7 < ts.len(),
        ts[p].kind is If || ts[p].kind is Repeat || ts[p].kind is While,
        ts[p + 1].kind is LParen,
        is_operand(ts[p + 2].kind),
        ts[p + 3].kind is RParen,
        ts[p + 4].kind is Comma,
        ts[p + 5].kind is Display,
        is_operand(ts[p + 6].kind),
        ts[p + 7].kind is Period,
    ensures
        ({
            let c = operand(ts[p + 2].kind);
            let body = seq![SStmt::Display { value: operand(ts[p + 6].kind) }];
            action(ts, p) == Ok::<(SStmt, int), ParseFailure>(
                (
                    if ts[p].kind is If {
                        SStmt::If { condition: c, actions: body }
                    } else if ts[p].kind is Repeat {
                        SStmt::Repeat { count: c, actions: body }
                    } else {
                        SStmt::While { condition: c, actions: body }
                    },
                    p + 8,
                ),
            )
        }),
{
    let c = operand(ts[p + 2].kind);
    let d = SStmt::Display { value: operand(ts[p + 6].kind) };
    lemma_alone(ts, p + 2);
    law_display_action(ts, p + 5);
    assert(action_list(ts, p + 5, seq![]) == Ok::<(Seq<SStmt>, int), ParseFailure>(
        (seq![d], p + 8),
    ));
}

} // verus!

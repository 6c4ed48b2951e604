//! What running a program means, statement by statement, and the law that
//! the interpreter's machine runs programs that way.
use vstd::prelude::*;
use crate::error::SSharpError;
use crate::interpreter::schedule::{
    Reply, SAction, SFrame, SMode, SState, advance_top, finished, frames_ok, lemma_advance_ok,
    lemma_push_ok, lemma_restart_ok, opens, pop_and_advance, proceed, restart_top, start, step,
};
use crate::parser::ast::{SExpr, SProgram, SStmt};

verus! {

/// An evaluator, as a world it works on: running a simple statement may
/// change the world; testing a condition and evaluating a repeat count read
/// it. Each may fail with an error.
#[verifier::reject_recursive_types(W)]
pub struct Evaluator<W> {
    pub perform: spec_fn(W, SStmt) -> Result<W, SSharpError>,
    pub truth: spec_fn(W, SExpr) -> Result<bool, SSharpError>,
    pub count: spec_fn(W, SExpr) -> Result<usize, SSharpError>,
}

/// Running a statement in world `w`, with `fuel` rounds of `while` allowed:
/// the world after it or the first error; `None` when the fuel runs out.
/// An `if` runs its actions when its condition is truthy; a `repeat` runs
/// them as many times as its count says; a `while` tests its condition
/// before each round.
pub open spec fn run_stmt<W>(ev: Evaluator<W>, w: W, s: SStmt, fuel: nat) -> Option<
    Result<W, SSharpError>,
>
    decreases fuel, s, 0nat,
{
    match s {
        SStmt::If { condition, actions } => match (ev.truth)(w, condition) {
            Err(e) => Some(Err(e)),
            Ok(b) => if b {
                run_block(ev, w, actions, fuel)
            } else {
                Some(Ok(w))
            },
        },
        SStmt::Repeat { count, actions } => match (ev.count)(w, count) {
            Err(e) => Some(Err(e)),
            Ok(n) => run_rounds(ev, w, actions, n as nat, fuel),
        },
        SStmt::While { condition, actions } => if fuel == 0 {
            None
        } else {
            match (ev.truth)(w, condition) {
                Err(e) => Some(Err(e)),
                Ok(b) => if b {
                    match run_block(ev, w, actions, (fuel - 1) as nat) {
                        Some(Ok(w1)) => run_stmt(ev, w1, s, (fuel - 1) as nat),
                        other => other,
                    }
                } else {
                    Some(Ok(w))
                },
            }
        },
        _ => Some((ev.perform)(w, s)),
    }
}

/// Running statements one after another; the first error stops the run.
pub open spec fn run_block<W>(ev: Evaluator<W>, w: W, ss: Seq<SStmt>, fuel: nat) -> Option<
    Result<W, SSharpError>,
>
    decreases fuel, ss, 0nat,
{
    if ss.len() == 0 {
        Some(Ok(w))
    } else {
        match run_stmt(ev, w, ss[0], fuel) {
            Some(Ok(w1)) => run_block(ev, w1, ss.drop_first(), fuel),
            other => other,
        }
    }
}

/// Running statements `n` times over.
pub open spec fn run_rounds<W>(ev: Evaluator<W>, w: W, ss: Seq<SStmt>, n: nat, fuel: nat) -> Option<
    Result<W, SSharpError>,
>
    decreases fuel, ss, n,
{
    if n == 0 {
        Some(Ok(w))
    } else {
        match run_block(ev, w, ss, fuel) {
            Some(Ok(w1)) => run_rounds(ev, w1, ss, (n - 1) as nat, fuel),
            other => other,
        }
    }
}

/// The evaluator's reply to an action, and the world after it.
pub open spec fn answer<W>(ev: Evaluator<W>, w: W, a: SAction) -> (Reply, W) {
    match a {
        SAction::Perform(s) => match (ev.perform)(w, s) {
            Ok(w1) => (Reply::Done, w1),
            Err(e) => (Reply::Error(e), w),
        },
        SAction::Test(c) => match (ev.truth)(w, c) {
            Ok(b) => (Reply::Truth(b), w),
            Err(e) => (Reply::Error(e), w),
        },
        SAction::Count(c) => match (ev.count)(w, c) {
            Ok(n) => (Reply::Times(n), w),
            Err(e) => (Reply::Error(e), w),
        },
        _ => (Reply::Done, w),
    }
}

/// Driving the interpreter with an evaluator for at most `k` actions: the
/// end it reaches (the world, or the error), or `None` if it has not
/// reached one by then.
pub open spec fn drive<W>(ev: Evaluator<W>, w: W, st: SState, a: SAction, k: nat) -> Option<
    Result<W, SSharpError>,
>
    decreases k,
{
    match a {
        SAction::Finished => Some(Ok(w)),
        SAction::Failed(e) => Some(Err(e)),
        _ => if k == 0 {
            None
        } else {
            let (r, w1) = answer(ev, w, a);
            let (st1, a1) = step(st, r);
            drive(ev, w1, st1, a1, (k - 1) as nat)
        },
    }
}

/// Driving the interpreter from the frames `fs`, once it has moved on to its next action.
pub open spec fn drive_from<W>(ev: Evaluator<W>, w: W, fs: Seq<SFrame>, k: nat) -> Option<
    Result<W, SSharpError>,
> {
    drive(ev, w, proceed(fs).0, proceed(fs).1, k)
}

/// The innermost block with all its statements run.
pub open spec fn finish_top(fs: Seq<SFrame>) -> Seq<SFrame> {
    let top = fs.last();
    fs.update(fs.len() - 1, SFrame { body: top.body, next: top.body.len() as int, mode: top.mode })
}

/// Where a run that ends in `r` leaves the interpreter, `k` actions after
/// `fs`: if it ends in a world, the interpreter is then at `after` in that
/// world; if in an error, it has failed with it.
pub open spec fn reaches<W>(
    ev: Evaluator<W>,
    w: W,
    fs: Seq<SFrame>,
    k: nat,
    r: Result<W, SSharpError>,
    after: Seq<SFrame>,
) -> bool {
    match r {
        Ok(w2) => forall|k2: nat| #[trigger]
            drive_from(ev, w, fs, k + k2) == drive_from(ev, w2, after, k2),
        Err(e) => forall|k2: nat| #[trigger] drive_from(ev, w, fs, k + k2) == Some(
            Err::<W, SSharpError>(e),
        ),
    }
}

proof fn lemma_finish_ok(fs: Seq<SFrame>)
    requires
        frames_ok(fs),
    ensures
        frames_ok(finish_top(fs)),
{
    let gs = finish_top(fs);
    let n: int = fs.len() - 1;
    assert forall|i: int| 0 <= i < gs.len() - 1 implies #[trigger] gs[i].next < gs[i].body.len()
        && opens(gs[i].body[gs[i].next], gs[i + 1]) by {
        assert(gs[i] == fs[i]);
        if i + 1 < n {
            assert(gs[i + 1] == fs[i + 1]);
        } else {
            assert(opens(fs[i].body[fs[i].next], fs[i + 1]));
        }
    }
    assert forall|i: int| 0 <= i < gs.len() implies (#[trigger] gs[i].mode matches SMode::Repeat(
        left,
    ) ==> left >= 1 && gs[i].body.len() > 0) by {
        if i < n {
            assert(gs[i] == fs[i]);
        }
    }
    assert forall|i: int| 0 <= i < gs.len() implies 0 <= #[trigger] gs[i].next <= gs[i].body.len() by {
        if i < n {
            assert(gs[i] == fs[i]);
        }
    }
}

/// Repeating an empty block leaves the world as it is.
proof fn lemma_rounds_empty<W>(ev: Evaluator<W>, w: W, ss: Seq<SStmt>, n: nat, fuel: nat)
    requires
        ss.len() == 0,
    ensures
        run_rounds(ev, w, ss, n, fuel) == Some(Ok::<W, SSharpError>(w)),
    decreases n,
{
    if n > 0 {
        assert(run_block(ev, w, ss, fuel) == Some(Ok::<W, SSharpError>(w)));
        lemma_rounds_empty(ev, w, ss, (n - 1) as nat, fuel);
    }
}

/// Running a statement, the interpreter goes from that statement to the one after it.
proof fn lemma_stmt<W>(ev: Evaluator<W>, w: W, fs: Seq<SFrame>, fuel: nat) -> (k: nat)
    requires
        frames_ok(fs),
        !finished(fs.last()),
        run_stmt(ev, w, fs.last().body[fs.last().next], fuel) is Some,
    ensures
        reaches(
            ev,
            w,
            fs,
            k,
            run_stmt(ev, w, fs.last().body[fs.last().next], fuel)->Some_0,
            advance_top(fs),
        ),
    decreases fuel, fs.last().body[fs.last().next], 0nat,
{
    let top = fs.last();
    let s = top.body[top.next];
    let r = run_stmt(ev, w, s, fuel)->Some_0;
    let adv = advance_top(fs);
    match s {
        SStmt::If { condition, actions } => {
            let inner = SFrame { body: actions, next: 0, mode: SMode::Sequence };
            match (ev.truth)(w, condition) {
                Err(e) => {
                    assert forall|k2: nat| #[trigger] drive_from(ev, w, fs, 1 + k2) == Some(
                        Err::<W, SSharpError>(e),
                    ) by {
                        reveal_with_fuel(drive, 2);
                    }
                    1
                },
                Ok(b) => if b {
                    let gs = fs.push(inner);
                    lemma_push_ok(fs, inner);
                    assert(gs.last().body.skip(0) == actions);
                    let kb: nat = lemma_block(ev, w, gs, fuel);
                    lemma_leave_block(ev, fs, inner);
                    assert forall|k2: nat| #[trigger]
                        drive_from(ev, w, fs, (1 + kb) + k2) == match r {
                            Ok(w2) => drive_from(ev, w2, adv, k2),
                            Err(e) => Some(Err::<W, SSharpError>(e)),
                        } by {
                        assert(drive_from(ev, w, fs, (1 + kb) + k2) == drive_from(
                            ev,
                            w,
                            gs,
                            kb + k2,
                        ));
                    }
                    1 + kb
                } else {
                    assert forall|k2: nat| #[trigger] drive_from(ev, w, fs, 1 + k2)
                        == drive_from(ev, w, adv, k2) by {}
                    1
                },
            }
        },
        SStmt::Repeat { count, actions } => {
            match (ev.count)(w, count) {
                Err(e) => {
                    assert forall|k2: nat| #[trigger] drive_from(ev, w, fs, 1 + k2) == Some(
                        Err::<W, SSharpError>(e),
                    ) by {
                        reveal_with_fuel(drive, 2);
                    }
                    1
                },
                Ok(n) => if n > 0 && actions.len() > 0 {
                    let f = SFrame { body: actions, next: 0, mode: SMode::Repeat(n as nat) };
                    let gs = fs.push(f);
                    lemma_push_ok(fs, f);
                    let kr: nat = lemma_rounds(ev, w, gs, fuel);
                    assert(pop_and_advance(gs) == adv) by {
                        assert(gs.drop_last() == fs);
                    }
                    assert forall|k2: nat| #[trigger]
                        drive_from(ev, w, fs, (1 + kr) + k2) == match r {
                            Ok(w2) => drive_from(ev, w2, adv, k2),
                            Err(e) => Some(Err::<W, SSharpError>(e)),
                        } by {
                        assert(drive_from(ev, w, fs, (1 + kr) + k2) == drive_from(
                            ev,
                            w,
                            gs,
                            kr + k2,
                        ));
                    }
                    1 + kr
                } else {
                    if actions.len() == 0 {
                        lemma_rounds_empty(ev, w, actions, n as nat, fuel);
                    }
                    assert forall|k2: nat| #[trigger] drive_from(ev, w, fs, 1 + k2)
                        == drive_from(ev, w, adv, k2) by {}
                    1
                },
            }
        },
        SStmt::While { condition, actions } => {
            match (ev.truth)(w, condition) {
                Err(e) => {
                    assert forall|k2: nat| #[trigger] drive_from(ev, w, fs, 1 + k2) == Some(
                        Err::<W, SSharpError>(e),
                    ) by {
                        reveal_with_fuel(drive, 2);
                    }
                    1
                },
                Ok(b) => if b {
                    let f = SFrame { body: actions, next: 0, mode: SMode::While(condition) };
                    let gs = fs.push(f);
                    lemma_push_ok(fs, f);
                    assert(gs.last().body.skip(0) == actions);
                    let kb: nat = lemma_block(ev, w, gs, (fuel - 1) as nat);
                    match run_block(ev, w, actions, (fuel - 1) as nat) {
                        Some(Ok(w1)) => {
                            let hs = finish_top(gs);
                            lemma_finish_ok(gs);
                            assert(hs.drop_last() == fs);
                            let kw: nat = lemma_retest(ev, w1, hs, (fuel - 1) as nat);
                            assert forall|k2: nat| #[trigger]
                                drive_from(ev, w, fs, (1 + kb + kw) + k2) == match r {
                                    Ok(w2) => drive_from(ev, w2, adv, k2),
                                    Err(e) => Some(Err::<W, SSharpError>(e)),
                                } by {
                                assert(drive_from(ev, w, fs, (1 + kb + kw) + k2) == drive_from(
                                    ev,
                                    w,
                                    gs,
                                    kb + (kw + k2),
                                ));
                                assert(drive_from(ev, w, gs, kb + (kw + k2)) == drive_from(
                                    ev,
                                    w1,
                                    hs,
                                    kw + k2,
                                ));
                            }
                            1 + kb + kw
                        },
                        _ => {
                            assert forall|k2: nat| #[trigger]
                                drive_from(ev, w, fs, (1 + kb) + k2) == match r {
                                    Ok(w2) => drive_from(ev, w2, adv, k2),
                                    Err(e) => Some(Err::<W, SSharpError>(e)),
                                } by {
                                assert(drive_from(ev, w, fs, (1 + kb) + k2) == drive_from(
                                    ev,
                                    w,
                                    gs,
                                    kb + k2,
                                ));
                            }
                            1 + kb
                        },
                    }
                } else {
                    assert forall|k2: nat| #[trigger] drive_from(ev, w, fs, 1 + k2)
                        == drive_from(ev, w, adv, k2) by {}
                    1
                },
            }
        },
        _ => {
            assert forall|k2: nat| #[trigger] drive_from(ev, w, fs, 1 + k2) == match r {
                Ok(w2) => drive_from(ev, w2, adv, k2),
                Err(e) => Some(Err::<W, SSharpError>(e)),
            } by {
                reveal_with_fuel(drive, 2);
            }
            1
        },
    }
}

/// Leaving a finished inner block of an `if` moves the outer block past the `if`.
proof fn lemma_leave_block<W>(ev: Evaluator<W>, fs: Seq<SFrame>, inner: SFrame)
    requires
        fs.len() > 0,
        inner.mode is Sequence,
    ensures
        forall|w: W, k: nat| #[trigger] drive_from(ev, w, finish_top(fs.push(inner)), k)
            == drive_from(ev, w, advance_top(fs), k),
{
    let gs = finish_top(fs.push(inner));
    assert(gs.drop_last() == fs);
    assert(finished(gs.last()));
    assert(proceed(gs) == proceed(pop_and_advance(gs)));
}

/// Running the rest of a block, the interpreter goes to the end of that block.
proof fn lemma_block<W>(ev: Evaluator<W>, w: W, fs: Seq<SFrame>, fuel: nat) -> (k: nat)
    requires
        frames_ok(fs),
        run_block(ev, w, fs.last().body.skip(fs.last().next), fuel) is Some,
    ensures
        reaches(
            ev,
            w,
            fs,
            k,
            run_block(ev, w, fs.last().body.skip(fs.last().next), fuel)->Some_0,
            finish_top(fs),
        ),
    decreases fuel, fs.last().body.skip(fs.last().next), 0nat,
{
    let top = fs.last();
    let ss = top.body.skip(top.next);
    if top.next >= top.body.len() {
        assert(finish_top(fs) =~= fs);
        assert forall|k2: nat| #[trigger] drive_from(ev, w, fs, 0 + k2) == drive_from(
            ev,
            w,
            finish_top(fs),
            k2,
        ) by {}
        0
    } else {
        assert(ss[0] == top.body[top.next]);
        let k1: nat = lemma_stmt(ev, w, fs, fuel);
        match run_stmt(ev, w, ss[0], fuel) {
            Some(Ok(w1)) => {
                let adv = advance_top(fs);
                lemma_advance_ok(fs);
                assert(adv.last().body.skip(adv.last().next) == ss.drop_first());
                let k2: nat = lemma_block(ev, w1, adv, fuel);
                assert(finish_top(adv) == finish_top(fs));
                let r = run_block(ev, w, ss, fuel)->Some_0;
                assert forall|k3: nat| #[trigger] drive_from(ev, w, fs, (k1 + k2) + k3) == match r {
                    Ok(w2) => drive_from(ev, w2, finish_top(fs), k3),
                    Err(e) => Some(Err::<W, SSharpError>(e)),
                } by {
                    assert(drive_from(ev, w, fs, k1 + (k2 + k3)) == drive_from(
                        ev,
                        w1,
                        adv,
                        k2 + k3,
                    ));
                    assert((k1 + k2) + k3 == k1 + (k2 + k3));
                }
                k1 + k2
            },
            _ => k1,
        }
    }
}

/// Running the body of a `repeat` round after round, the interpreter goes
/// past the `repeat`.
proof fn lemma_rounds<W>(ev: Evaluator<W>, w: W, fs: Seq<SFrame>, fuel: nat) -> (k: nat)
    requires
        frames_ok(fs),
        fs.len() > 1,
        fs.last().next == 0,
        fs.last().mode is Repeat,
        run_rounds(ev, w, fs.last().body, fs.last().mode->Repeat_0, fuel) is Some,
    ensures
        reaches(
            ev,
            w,
            fs,
            k,
            run_rounds(ev, w, fs.last().body, fs.last().mode->Repeat_0, fuel)->Some_0,
            pop_and_advance(fs),
        ),
    decreases fuel, fs.last().body, fs.last().mode->Repeat_0,
{
    let top = fs.last();
    let ss = top.body;
    let n = top.mode->Repeat_0;
    assert(n >= 1 && ss.len() > 0) by {
        assert(fs[fs.len() - 1] == top);
    }
    assert(ss.skip(0) == ss);
    let kb: nat = lemma_block(ev, w, fs, fuel);
    match run_block(ev, w, ss, fuel) {
        Some(Ok(w1)) => {
            let hs = finish_top(fs);
            lemma_finish_ok(fs);
            if n > 1 {
                let gs = restart_top(hs, SMode::Repeat((n - 1) as nat));
                lemma_restart_ok(hs, SMode::Repeat((n - 1) as nat));
                assert(proceed(hs) == proceed(gs));
                let kr: nat = lemma_rounds(ev, w1, gs, fuel);
                assert(pop_and_advance(gs) == pop_and_advance(fs)) by {
                    assert(gs.drop_last() == fs.drop_last());
                }
                let r = run_rounds(ev, w, ss, n, fuel)->Some_0;
                assert(gs.last().body == ss && gs.last().mode->Repeat_0 == n - 1);
                assert(r == run_rounds(ev, w1, ss, (n - 1) as nat, fuel)->Some_0);
                assert forall|k3: nat| #[trigger] drive_from(ev, w, fs, (kb + kr) + k3) == match r {
                    Ok(w2) => drive_from(ev, w2, pop_and_advance(fs), k3),
                    Err(e) => Some(Err::<W, SSharpError>(e)),
                } by {
                    assert(drive_from(ev, w, fs, kb + (kr + k3)) == drive_from(
                        ev,
                        w1,
                        hs,
                        kr + k3,
                    ));
                    assert(drive_from(ev, w1, hs, kr + k3) == drive_from(ev, w1, gs, kr + k3));
                    assert((kb + kr) + k3 == kb + (kr + k3));
                }
                kb + kr
            } else {
                assert(hs.drop_last() == fs.drop_last());
                assert(proceed(hs) == proceed(pop_and_advance(fs)));
                kb
            }
        },
        _ => kb,
    }
}

/// After a round of a `while`, testing its condition again and going on as
/// the `while` says, the interpreter goes past the `while`.
proof fn lemma_retest<W>(ev: Evaluator<W>, w: W, fs: Seq<SFrame>, fuel: nat) -> (k: nat)
    requires
        frames_ok(fs),
        fs.len() > 1,
        finished(fs.last()),
        fs.last().mode is While,
        run_stmt(
            ev,
            w,
            fs.drop_last().last().body[fs.drop_last().last().next],
            fuel,
        ) is Some,
    ensures
        reaches(
            ev,
            w,
            fs,
            k,
            run_stmt(
                ev,
                w,
                fs.drop_last().last().body[fs.drop_last().last().next],
                fuel,
            )->Some_0,
            pop_and_advance(fs),
        ),
    decreases fuel, fs.drop_last().last().body[fs.drop_last().last().next], 1nat,
{
    let outer = fs[fs.len() - 2];
    assert(fs.drop_last().last() == outer);
    let s = outer.body[outer.next];
    assert(opens(s, fs[fs.len() - 1]));
    let condition = s->While_condition;
    let actions = s->While_actions;
    let top = fs.last();
    assert(top.body == actions && top.mode == SMode::While(condition));
    let r = run_stmt(ev, w, s, fuel)->Some_0;
    let out = pop_and_advance(fs);
    match (ev.truth)(w, condition) {
        Err(e) => {
            assert forall|k2: nat| #[trigger] drive_from(ev, w, fs, 1 + k2) == Some(
                Err::<W, SSharpError>(e),
            ) by {
                reveal_with_fuel(drive, 2);
            }
            1
        },
        Ok(b) => if b {
            let gs = restart_top(fs, top.mode);
            lemma_restart_ok(fs, top.mode);
            assert(gs.last().body.skip(0) == actions);
            let kb: nat = lemma_block(ev, w, gs, (fuel - 1) as nat);
            match run_block(ev, w, actions, (fuel - 1) as nat) {
                Some(Ok(w1)) => {
                    assert(finish_top(gs) == fs);
                    let kw: nat = lemma_retest(ev, w1, fs, (fuel - 1) as nat);
                    assert forall|k2: nat| #[trigger]
                        drive_from(ev, w, fs, (1 + kb + kw) + k2) == match r {
                            Ok(w2) => drive_from(ev, w2, out, k2),
                            Err(e) => Some(Err::<W, SSharpError>(e)),
                        } by {
                        assert(drive_from(ev, w, fs, (1 + kb + kw) + k2) == drive_from(
                            ev,
                            w,
                            gs,
                            kb + (kw + k2),
                        ));
                        assert(drive_from(ev, w, gs, kb + (kw + k2)) == drive_from(
                            ev,
                            w1,
                            fs,
                            kw + k2,
                        ));
                    }
                    1 + kb + kw
                },
                _ => {
                    assert forall|k2: nat| #[trigger]
                        drive_from(ev, w, fs, (1 + kb) + k2) == match r {
                            Ok(w2) => drive_from(ev, w2, out, k2),
                            Err(e) => Some(Err::<W, SSharpError>(e)),
                        } by {
                        assert(drive_from(ev, w, fs, (1 + kb) + k2) == drive_from(
                            ev,
                            w,
                            gs,
                            kb + k2,
                        ));
                    }
                    1 + kb
                },
            }
        } else {
            assert forall|k2: nat| #[trigger] drive_from(ev, w, fs, 1 + k2) == drive_from(
                ev,
                w,
                out,
                k2,
            ) by {}
            1
        },
    }
}

/// More fuel does not change the outcome of a run that ends.
proof fn lemma_more_fuel_stmt<W>(ev: Evaluator<W>, w: W, s: SStmt, f: nat, g: nat)
    requires
        f <= g,
        run_stmt(ev, w, s, f) is Some,
    ensures
        run_stmt(ev, w, s, g) == run_stmt(ev, w, s, f),
    decreases f, s, 0nat,
{
    match s {
        SStmt::If { condition, actions } => {
            if (ev.truth)(w, condition) == Ok::<bool, SSharpError>(true) {
                lemma_more_fuel_block(ev, w, actions, f, g);
            }
        },
        SStmt::Repeat { count, actions } => {
            if let Ok(n) = (ev.count)(w, count) {
                lemma_more_fuel_rounds(ev, w, actions, n as nat, f, g);
            }
        },
        SStmt::While { condition, actions } => {
            if (ev.truth)(w, condition) == Ok::<bool, SSharpError>(true) {
                lemma_more_fuel_block(ev, w, actions, (f - 1) as nat, (g - 1) as nat);
                if let Some(Ok(w1)) = run_block(ev, w, actions, (f - 1) as nat) {
                    lemma_more_fuel_stmt(ev, w1, s, (f - 1) as nat, (g - 1) as nat);
                }
            }
        },
        _ => {},
    }
}

proof fn lemma_more_fuel_block<W>(ev: Evaluator<W>, w: W, ss: Seq<SStmt>, f: nat, g: nat)
    requires
        f <= g,
        run_block(ev, w, ss, f) is Some,
    ensures
        run_block(ev, w, ss, g) == run_block(ev, w, ss, f),
    decreases f, ss, 0nat,
{
    if ss.len() > 0 {
        lemma_more_fuel_stmt(ev, w, ss[0], f, g);
        if let Some(Ok(w1)) = run_stmt(ev, w, ss[0], f) {
            lemma_more_fuel_block(ev, w1, ss.drop_first(), f, g);
        }
    }
}

proof fn lemma_more_fuel_rounds<W>(ev: Evaluator<W>, w: W, ss: Seq<SStmt>, n: nat, f: nat, g: nat)
    requires
        f <= g,
        run_rounds(ev, w, ss, n, f) is Some,
    ensures
        run_rounds(ev, w, ss, n, g) == run_rounds(ev, w, ss, n, f),
    decreases f, ss, n,
{
    if n > 0 {
        lemma_more_fuel_block(ev, w, ss, f, g);
        if let Some(Ok(w1)) = run_block(ev, w, ss, f) {
            lemma_more_fuel_rounds(ev, w1, ss, (n - 1) as nat, f, g);
        }
    }
}

/// Where the interpreter is after running the statement at the innermost
/// block's position, `j` of its `k` actions on: at the next statement, in
/// the world the statement left; or failed with its error.
pub open spec fn ran_to<W>(
    ev: Evaluator<W>,
    w: W,
    fs: Seq<SFrame>,
    k: nat,
    j: nat,
    r: Result<W, SSharpError>,
    after: Seq<SFrame>,
) -> bool {
    match r {
        Ok(w2) => j <= k && drive_from(ev, w, fs, k) == drive_from(ev, w2, after, (k - j) as nat),
        Err(e) => drive_from(ev, w, fs, k) == Some(Err::<W, SSharpError>(e)),
    }
}

/// When the interpreter ends within `k` actions from a statement, running
/// that statement with `k` as fuel ends, and the interpreter went through it.
proof fn lemma_stmt_back<W>(ev: Evaluator<W>, w: W, fs: Seq<SFrame>, k: nat) -> (j: nat)
    requires
        frames_ok(fs),
        !finished(fs.last()),
        drive_from(ev, w, fs, k) is Some,
    ensures
        run_stmt(ev, w, fs.last().body[fs.last().next], k) is Some,
        ran_to(
            ev,
            w,
            fs,
            k,
            j,
            run_stmt(ev, w, fs.last().body[fs.last().next], k)->Some_0,
            advance_top(fs),
        ),
        run_stmt(ev, w, fs.last().body[fs.last().next], k)->Some_0 is Ok ==> j >= 1,
    decreases k, 0nat,
{
    let top = fs.last();
    let s = top.body[top.next];
    let adv = advance_top(fs);
    assert(k > 0);
    let km1 = (k - 1) as nat;
    reveal_with_fuel(drive, 2);
    match s {
        SStmt::If { condition, actions } => {
            if (ev.truth)(w, condition) == Ok::<bool, SSharpError>(true) {
                let inner = SFrame { body: actions, next: 0, mode: SMode::Sequence };
                let gs = fs.push(inner);
                lemma_push_ok(fs, inner);
                assert(gs.last().body.skip(0) == actions);
                assert(drive_from(ev, w, fs, k) == drive_from(ev, w, gs, km1));
                let jb = lemma_block_back(ev, w, gs, km1);
                lemma_more_fuel_block(ev, w, actions, km1, k);
                lemma_leave_block(ev, fs, inner);
                1 + jb
            } else {
                1
            }
        },
        SStmt::Repeat { count, actions } => {
            match (ev.count)(w, count) {
                Err(e) => 1,
                Ok(n) => if n > 0 && actions.len() > 0 {
                    let f = SFrame { body: actions, next: 0, mode: SMode::Repeat(n as nat) };
                    let gs = fs.push(f);
                    lemma_push_ok(fs, f);
                    assert(drive_from(ev, w, fs, k) == drive_from(ev, w, gs, km1));
                    let jr = lemma_rounds_back(ev, w, gs, km1);
                    lemma_more_fuel_rounds(ev, w, actions, n as nat, km1, k);
                    assert(pop_and_advance(gs) == adv) by {
                        assert(gs.drop_last() == fs);
                    }
                    1 + jr
                } else {
                    if actions.len() == 0 {
                        lemma_rounds_empty(ev, w, actions, n as nat, k);
                    } else {
                        assert(run_rounds(ev, w, actions, n as nat, k) == Some(
                            Ok::<W, SSharpError>(w),
                        ));
                    }
                    assert(run_stmt(ev, w, s, k) == Some(Ok::<W, SSharpError>(w)));
                    1
                },
            }
        },
        SStmt::While { condition, actions } => {
            if (ev.truth)(w, condition) == Ok::<bool, SSharpError>(true) {
                let f = SFrame { body: actions, next: 0, mode: SMode::While(condition) };
                let gs = fs.push(f);
                lemma_push_ok(fs, f);
                assert(gs.last().body.skip(0) == actions);
                assert(drive_from(ev, w, fs, k) == drive_from(ev, w, gs, km1));
                let jb = lemma_block_back(ev, w, gs, km1);
                match run_block(ev, w, actions, km1) {
                    Some(Ok(w1)) => {
                        let hs = finish_top(gs);
                        lemma_finish_ok(gs);
                        assert(hs.drop_last() == fs);
                        let rest = (km1 - jb) as nat;
                        let jw = lemma_retest_back(ev, w1, hs, rest);
                        lemma_more_fuel_stmt(ev, w1, s, rest, km1);
                            1 + jb + jw
                    },
                    _ => 1 + jb,
                }
            } else {
                1
            }
        },
        _ => 1,
    }
}

/// When the interpreter ends within `k` actions from a position in the
/// innermost block, running the rest of that block with `k` as fuel ends,
/// and the interpreter went through it.
proof fn lemma_block_back<W>(ev: Evaluator<W>, w: W, fs: Seq<SFrame>, k: nat) -> (j: nat)
    requires
        frames_ok(fs),
        drive_from(ev, w, fs, k) is Some,
    ensures
        run_block(ev, w, fs.last().body.skip(fs.last().next), k) is Some,
        ran_to(
            ev,
            w,
            fs,
            k,
            j,
            run_block(ev, w, fs.last().body.skip(fs.last().next), k)->Some_0,
            finish_top(fs),
        ),
        !finished(fs.last()) && run_block(ev, w, fs.last().body.skip(fs.last().next), k)->Some_0
            is Ok ==> j >= 1,
    decreases k, 1nat,
{
    let top = fs.last();
    let ss = top.body.skip(top.next);
    if top.next >= top.body.len() {
        assert(finish_top(fs) =~= fs);
        0
    } else {
        assert(ss[0] == top.body[top.next]);
        let j1 = lemma_stmt_back(ev, w, fs, k);
        match run_stmt(ev, w, ss[0], k) {
            Some(Ok(w1)) => {
                let adv = advance_top(fs);
                lemma_advance_ok(fs);
                assert(adv.last().body.skip(adv.last().next) == ss.drop_first());
                let rest = (k - j1) as nat;
                let j2 = lemma_block_back(ev, w1, adv, rest);
                lemma_more_fuel_block(ev, w1, ss.drop_first(), rest, k);
                assert(finish_top(adv) == finish_top(fs));
                j1 + j2
            },
            _ => j1,
        }
    }
}

/// When the interpreter ends within `k` actions from the start of a
/// `repeat` body, running its rounds with `k` as fuel ends, and the
/// interpreter went past the `repeat`.
proof fn lemma_rounds_back<W>(ev: Evaluator<W>, w: W, fs: Seq<SFrame>, k: nat) -> (j: nat)
    requires
        frames_ok(fs),
        fs.len() > 1,
        fs.last().next == 0,
        fs.last().mode is Repeat,
        drive_from(ev, w, fs, k) is Some,
    ensures
        run_rounds(ev, w, fs.last().body, fs.last().mode->Repeat_0, k) is Some,
        ran_to(
            ev,
            w,
            fs,
            k,
            j,
            run_rounds(ev, w, fs.last().body, fs.last().mode->Repeat_0, k)->Some_0,
            pop_and_advance(fs),
        ),
    decreases k, 2nat,
{
    let top = fs.last();
    let ss = top.body;
    let n = top.mode->Repeat_0;
    assert(n >= 1 && ss.len() > 0) by {
        assert(fs[fs.len() - 1] == top);
    }
    assert(ss.skip(0) == ss);
    let jb = lemma_block_back(ev, w, fs, k);
    match run_block(ev, w, ss, k) {
        Some(Ok(w1)) => {
            let hs = finish_top(fs);
            lemma_finish_ok(fs);
            let rest = (k - jb) as nat;
            if n > 1 {
                let gs = restart_top(hs, SMode::Repeat((n - 1) as nat));
                lemma_restart_ok(hs, SMode::Repeat((n - 1) as nat));
                assert(proceed(hs) == proceed(gs));
                assert(drive_from(ev, w1, hs, rest) == drive_from(ev, w1, gs, rest));
                assert(gs.last().body == ss && gs.last().mode->Repeat_0 == n - 1);
                let jr = lemma_rounds_back(ev, w1, gs, rest);
                lemma_more_fuel_rounds(ev, w1, ss, (n - 1) as nat, rest, k);
                assert(pop_and_advance(gs) == pop_and_advance(fs)) by {
                    assert(gs.drop_last() == fs.drop_last());
                }
                jb + jr
            } else {
                assert(hs.drop_last() == fs.drop_last());
                assert(proceed(hs) == proceed(pop_and_advance(fs)));
                jb
            }
        },
        _ => jb,
    }
}

/// When the interpreter ends within `k` actions from the end of a round of
/// a `while`, running that `while` with `k` as fuel ends, and the
/// interpreter went past it.
proof fn lemma_retest_back<W>(ev: Evaluator<W>, w: W, fs: Seq<SFrame>, k: nat) -> (j: nat)
    requires
        frames_ok(fs),
        fs.len() > 1,
        finished(fs.last()),
        fs.last().mode is While,
        drive_from(ev, w, fs, k) is Some,
    ensures
        run_stmt(ev, w, fs.drop_last().last().body[fs.drop_last().last().next], k) is Some,
        ran_to(
            ev,
            w,
            fs,
            k,
            j,
            run_stmt(ev, w, fs.drop_last().last().body[fs.drop_last().last().next], k)->Some_0,
            pop_and_advance(fs),
        ),
    decreases k, 0nat,
{
    let outer = fs[fs.len() - 2];
    assert(fs.drop_last().last() == outer);
    let s = outer.body[outer.next];
    assert(opens(s, fs[fs.len() - 1]));
    let condition = s->While_condition;
    let actions = s->While_actions;
    let top = fs.last();
    assert(top.body == actions && top.mode == SMode::While(condition));
    assert(k > 0);
    let km1 = (k - 1) as nat;
    reveal_with_fuel(drive, 2);
    if (ev.truth)(w, condition) == Ok::<bool, SSharpError>(true) {
        let gs = restart_top(fs, top.mode);
        lemma_restart_ok(fs, top.mode);
        assert(gs.last().body.skip(0) == actions);
        assert(drive_from(ev, w, fs, k) == drive_from(ev, w, gs, km1));
        let jb = lemma_block_back(ev, w, gs, km1);
        match run_block(ev, w, actions, km1) {
            Some(Ok(w1)) => {
                assert(finish_top(gs) == fs);
                let rest = (km1 - jb) as nat;
                let jw = lemma_retest_back(ev, w1, fs, rest);
                lemma_more_fuel_stmt(ev, w1, s, rest, km1);
                1 + jb + jw
            },
            _ => 1 + jb,
        }
    } else {
        1
    }
}

/// The converse: whenever the interpreter, driven by any evaluator, ends
/// within `k` actions (finished in a world, or failed with an error),
/// running the program's statements one after another, with `k` rounds of
/// `while` allowed, ends the same way. So the machine never finishes where
/// the statement-by-statement meaning runs forever.
pub proof fn law_interpreter_ends_only_as_statements_end<W>(
    ev: Evaluator<W>,
    w: W,
    p: SProgram,
    k: nat,
)
    requires
        drive(ev, w, start(p).0, start(p).1, k) is Some,
    ensures
        run_block(ev, w, p.body, k) == drive(ev, w, start(p).0, start(p).1, k),
{
    let root = SFrame { body: p.body, next: 0, mode: SMode::Sequence };
    let fs = seq![root];
    assert(frames_ok(fs));
    assert(fs.last().body.skip(0) == p.body);
    assert(drive_from(ev, w, fs, k) == drive(ev, w, start(p).0, start(p).1, k));
    let j = lemma_block_back(ev, w, fs, k);
    let hs = finish_top(fs);
    if let Some(Ok(w2)) = run_block(ev, w, p.body, k) {
        assert(drive_from(ev, w2, hs, (k - j) as nat) == Some(Ok::<W, SSharpError>(w2)));
    }
}

/// A block's statements `n` times over, one copy after another.
pub open spec fn repeated(ss: Seq<SStmt>, n: nat) -> Seq<SStmt>
    decreases n,
{
    if n == 0 {
        seq![]
    } else {
        ss + repeated(ss, (n - 1) as nat)
    }
}

/// Running two blocks one after the other is running the first, then, in
/// the world it leaves, the second; an error or running out of fuel in the
/// first is the outcome, and the second does not run.
pub proof fn law_blocks_run_in_order<W>(
    ev: Evaluator<W>,
    w: W,
    ss1: Seq<SStmt>,
    ss2: Seq<SStmt>,
    fuel: nat,
)
    ensures
        run_block(ev, w, ss1 + ss2, fuel) == match run_block(ev, w, ss1, fuel) {
            Some(Ok(w1)) => run_block(ev, w1, ss2, fuel),
            other => other,
        },
    decreases ss1.len(),
{
    if ss1.len() == 0 {
        assert(ss1 + ss2 == ss2);
    } else {
        assert((ss1 + ss2)[0] == ss1[0]);
        assert((ss1 + ss2).drop_first() == ss1.drop_first() + ss2);
        if let Some(Ok(w1)) = run_stmt(ev, w, ss1[0], fuel) {
            law_blocks_run_in_order(ev, w1, ss1.drop_first(), ss2, fuel);
        }
    }
}

/// A `repeat` with a count of `n` runs its actions as one block made of `n`
/// copies of them: `n` rounds, each in the world the one before left, the
/// first error ending them all.
pub proof fn law_repeat_runs_rounds<W>(ev: Evaluator<W>, w: W, ss: Seq<SStmt>, n: nat, fuel: nat)
    ensures
        run_rounds(ev, w, ss, n, fuel) == run_block(ev, w, repeated(ss, n), fuel),
    decreases n,
{
    if n > 0 {
        law_blocks_run_in_order(ev, w, ss, repeated(ss, (n - 1) as nat), fuel);
        if let Some(Ok(w1)) = run_block(ev, w, ss, fuel) {
            law_repeat_runs_rounds(ev, w1, ss, (n - 1) as nat, fuel);
        }
    }
}

/// What each statement does. A simple statement (ask, save, display, a
/// function definition) is one piece of the evaluator's work, done once. An
/// `if` runs its actions once when its condition is truthy and leaves the
/// world as it was when not. A `repeat` evaluates its count once and runs its
/// actions that many times. A `while` tests its condition, and while it is
/// truthy runs its actions and tests again; once it is not, it leaves the
/// world as the last round left it. A condition or count that fails ends the
/// statement with that error, before any action runs.
pub proof fn law_statement_meaning<W>(ev: Evaluator<W>, w: W, s: SStmt, fuel: nat)
    ensures
        (s is Ask || s is Assign || s is Display || s is FunctionDef) ==> run_stmt(ev, w, s, fuel)
            == Some((ev.perform)(w, s)),
        s matches SStmt::If { condition, actions } ==> run_stmt(ev, w, s, fuel) == match (
        ev.truth)(w, condition) {
            Ok(true) => run_block(ev, w, actions, fuel),
            Ok(false) => Some(Ok::<W, SSharpError>(w)),
            Err(e) => Some(Err::<W, SSharpError>(e)),
        },
        s matches SStmt::Repeat { count, actions } ==> run_stmt(ev, w, s, fuel) == match (
        ev.count)(w, count) {
            Ok(n) => run_block(ev, w, repeated(actions, n as nat), fuel),
            Err(e) => Some(Err::<W, SSharpError>(e)),
        },
        s matches SStmt::While { condition, actions } ==> fuel == 0 || run_stmt(ev, w, s, fuel)
            == match (ev.truth)(w, condition) {
            Ok(true) => match run_block(ev, w, actions, (fuel - 1) as nat) {
                Some(Ok(w1)) => run_stmt(ev, w1, s, (fuel - 1) as nat),
                other => other,
            },
            Ok(false) => Some(Ok::<W, SSharpError>(w)),
            Err(e) => Some(Err::<W, SSharpError>(e)),
        },
{
    if let SStmt::Repeat { count, actions } = s {
        if let Ok(n) = (ev.count)(w, count) {
            law_repeat_runs_rounds(ev, w, actions, n as nat, fuel);
        }
    }
}

/// The interpreter runs programs as the language says: driven by any
/// evaluator, it ends where running the program's statements one after
/// another ends (in the same world, or with the same error), whenever that
/// run ends.
pub proof fn law_interpreter_runs_statements<W>(ev: Evaluator<W>, w: W, p: SProgram, fuel: nat)
    requires
        run_block(ev, w, p.body, fuel) is Some,
    ensures
        exists|k: nat| drive(ev, w, start(p).0, start(p).1, k) == run_block(ev, w, p.body, fuel),
{
    let root = SFrame { body: p.body, next: 0, mode: SMode::Sequence };
    let fs = seq![root];
    assert(frames_ok(fs));
    assert(fs.last().body.skip(0) == p.body);
    let k: nat = lemma_block(ev, w, fs, fuel);
    let hs = finish_top(fs);
    assert(drive_from(ev, w, fs, k + 0) == drive(ev, w, start(p).0, start(p).1, k));
    match run_block(ev, w, p.body, fuel)->Some_0 {
        Ok(w2) => {
            assert(drive_from(ev, w, fs, k + 0) == drive_from(ev, w2, hs, 0));
        },
        Err(e) => {
            assert(drive_from(ev, w, fs, k + 0) == Some(Err::<W, SSharpError>(e)));
        },
    }
}

} // verus!

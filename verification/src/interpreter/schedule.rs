//! The order in which the statements of a program run, as spec functions.
//!
//! Running a program alternates two kinds of work. Evaluating expressions,
//! asking, displaying and saving values is the evaluator's; deciding which
//! statement comes next, how often a loop body runs and when the program
//! stops is the interpreter's. The interpreter is a machine: in each state
//! it asks for one piece of work (an [`SAction`]) and waits for the
//! evaluator's [`Reply`] to it.
use vstd::prelude::*;
use crate::error::SSharpError;
use crate::parser::ast::{SExpr, SProgram, SStmt};

verus! {

/// What the interpreter waits for after its last action.
#[derive(PartialEq, Eq, Structural, Clone, Copy, Debug)]
pub enum Waiting {
    /// A simple statement was to be run; the reply is `Done`.
    Performed,
    /// The condition of an `if` was to be tested; the reply is `Truth`.
    IfTest,
    /// The count of a `repeat` was to be evaluated; the reply is `Times`.
    RepeatCount,
    /// The condition of a `while` was to be tested before its first round; the reply is `Truth`.
    WhileTest,
    /// The condition of a `while` was to be tested again after a round; the reply is `Truth`.
    WhileRetest,
    /// The program has finished or failed; nothing more is run.
    Stopped,
}

/// The evaluator's reply to an action.
#[derive(Debug)]
pub enum Reply {
    /// The statement ran.
    Done,
    /// The condition's value is truthy, or not.
    Truth(bool),
    /// The repeat count, as a number of rounds.
    Times(usize),
    /// The work failed with this error.
    Error(SSharpError),
}

/// How a block of statements is being run.
pub enum SMode {
    /// Once, in order.
    Sequence,
    /// As the body of a `repeat`, with this many rounds left including the current one.
    Repeat(nat),
    /// As the body of a `while` with this condition.
    While(SExpr),
}

/// A block being run: its statements, the index of the next one, and how it runs.
pub struct SFrame {
    pub body: Seq<SStmt>,
    pub next: int,
    pub mode: SMode,
}

/// The work the interpreter asks for.
pub enum SAction {
    /// Run this simple statement (ask, save, display, or a function definition).
    Perform(SStmt),
    /// Test whether the value of this condition is truthy.
    Test(SExpr),
    /// Evaluate this repeat count.
    Count(SExpr),
    /// The program has run to its end.
    Finished,
    /// The program stopped with this error.
    Failed(SSharpError),
}

/// The interpreter's state: the blocks being run, innermost last, and what it waits for.
pub struct SState {
    pub frames: Seq<SFrame>,
    pub waiting: Waiting,
}

/// A statement run as one piece of work.
pub open spec fn is_simple(s: SStmt) -> bool {
    s is Ask || s is Assign || s is Display || s is FunctionDef
}

/// The statements inside a compound statement.
pub open spec fn inner_actions(s: SStmt) -> Seq<SStmt> {
    match s {
        SStmt::If { actions, .. } => actions,
        SStmt::Repeat { actions, .. } => actions,
        SStmt::While { actions, .. } => actions,
        _ => seq![],
    }
}

/// Has the block run all its statements?
pub open spec fn finished(f: SFrame) -> bool {
    f.next >= f.body.len()
}

/// The measure by which looking for the next action moves on.
pub open spec fn measure(fs: Seq<SFrame>) -> int {
    if fs.len() == 0 {
        0
    } else {
        2 * fs.len() + if finished(fs.last()) {
            1int
        } else {
            0int
        }
    }
}

/// The innermost block moved to its next statement.
pub open spec fn advance_top(fs: Seq<SFrame>) -> Seq<SFrame> {
    let top = fs.last();
    fs.update(fs.len() - 1, SFrame { body: top.body, next: top.next + 1, mode: top.mode })
}

/// The innermost block left, and the block around it moved past the
/// statement it was running.
pub open spec fn pop_and_advance(fs: Seq<SFrame>) -> Seq<SFrame> {
    advance_top(fs.drop_last())
}

/// The innermost block started over from its first statement.
pub open spec fn restart_top(fs: Seq<SFrame>, mode: SMode) -> Seq<SFrame> {
    let top = fs.last();
    fs.update(fs.len() - 1, SFrame { body: top.body, next: 0, mode })
}

/// The action for the statement the innermost block is at, and what is
/// then waited for.
pub open spec fn action_for(s: SStmt) -> (Waiting, SAction) {
    match s {
        SStmt::If { condition, .. } => (Waiting::IfTest, SAction::Test(condition)),
        SStmt::Repeat { count, .. } => (Waiting::RepeatCount, SAction::Count(count)),
        SStmt::While { condition, .. } => (Waiting::WhileTest, SAction::Test(condition)),
        _ => (Waiting::Performed, SAction::Perform(s)),
    }
}

/// Moving on to the next action: the action for the innermost block's next
/// statement; at the end of a block, leaving it, running a repeat body
/// again, or testing a while condition again; at the end of the program,
/// finishing.
pub open spec fn proceed(fs: Seq<SFrame>) -> (SState, SAction)
    decreases measure(fs),
{
    if fs.len() == 0 {
        (SState { frames: fs, waiting: Waiting::Stopped }, SAction::Finished)
    } else {
        let top = fs.last();
        if !finished(top) {
            let (w, a) = action_for(top.body[top.next]);
            (SState { frames: fs, waiting: w }, a)
        } else {
            match top.mode {
                SMode::Sequence => if fs.len() == 1 {
                    (SState { frames: fs, waiting: Waiting::Stopped }, SAction::Finished)
                } else {
                    proceed(pop_and_advance(fs))
                },
                SMode::Repeat(left) => if left > 1 && top.body.len() > 0 {
                    proceed(restart_top(fs, SMode::Repeat((left - 1) as nat)))
                } else if fs.len() > 1 {
                    proceed(pop_and_advance(fs))
                } else {
                    (SState { frames: fs, waiting: Waiting::Stopped }, SAction::Finished)
                },
                SMode::While(condition) => (
                    SState { frames: fs, waiting: Waiting::WhileRetest },
                    SAction::Test(condition),
                ),
            }
        }
    }
}

/// The first action of a program, and the state after it.
pub open spec fn start(p: SProgram) -> (SState, SAction) {
    proceed(seq![SFrame { body: p.body, next: 0, mode: SMode::Sequence }])
}

/// Does the interpreter, waiting for `w`, take the reply `r`?
pub open spec fn accepts(w: Waiting, r: Reply) -> bool {
    match r {
        Reply::Done => w == Waiting::Performed,
        Reply::Truth(_) => w == Waiting::IfTest || w == Waiting::WhileTest || w
            == Waiting::WhileRetest,
        Reply::Times(_) => w == Waiting::RepeatCount,
        Reply::Error(_) => w != Waiting::Stopped,
    }
}

/// Taking a reply: an error stops the program; otherwise the reply decides
/// whether a block is entered, skipped, run again or left, and the
/// interpreter moves on to its next action.
pub open spec fn step(st: SState, r: Reply) -> (SState, SAction) {
    let fs = st.frames;
    let top = fs.last();
    let s = top.body[top.next];
    let inner = SFrame { body: inner_actions(s), next: 0, mode: SMode::Sequence };
    match r {
        Reply::Error(e) => (SState { frames: fs, waiting: Waiting::Stopped }, SAction::Failed(e)),
        Reply::Done => proceed(advance_top(fs)),
        Reply::Truth(b) => match st.waiting {
            Waiting::IfTest => if b {
                proceed(fs.push(inner))
            } else {
                proceed(advance_top(fs))
            },
            Waiting::WhileTest => if b {
                proceed(
                    fs.push(
                        SFrame {
                            body: inner_actions(s),
                            next: 0,
                            mode: SMode::While(s->While_condition),
                        },
                    ),
                )
            } else {
                proceed(advance_top(fs))
            },
            _ => if b {
                proceed(restart_top(fs, top.mode))
            } else {
                proceed(pop_and_advance(fs))
            },
        },
        Reply::Times(n) => if n > 0 && inner_actions(s).len() > 0 {
            proceed(
                fs.push(SFrame { body: inner_actions(s), next: 0, mode: SMode::Repeat(n as nat) }),
            )
        } else {
            proceed(advance_top(fs))
        },
    }
}

/// A block that a statement opens, as the frame that runs it.
pub open spec fn opens(s: SStmt, f: SFrame) -> bool {
    match s {
        SStmt::If { actions, .. } => f.body == actions && f.mode is Sequence,
        SStmt::Repeat { actions, .. } => f.body == actions && f.mode is Repeat,
        SStmt::While { condition, actions } => f.body == actions && f.mode == SMode::While(
            condition,
        ),
        _ => false,
    }
}

/// The frames are those of a program being run: the outermost runs the
/// program's body once; each other frame runs the body of the statement
/// that the frame around it is at; a repeat frame has rounds left and a
/// body to run.
pub open spec fn frames_ok(fs: Seq<SFrame>) -> bool {
    &&& fs.len() >= 1
    &&& fs[0].mode is Sequence
    &&& forall|i: int| 0 <= i < fs.len() ==> 0 <= #[trigger] fs[i].next <= fs[i].body.len()
    &&& forall|i: int|
        0 <= i < fs.len() - 1 ==> #[trigger] fs[i].next < fs[i].body.len() && opens(
            fs[i].body[fs[i].next],
            fs[i + 1],
        )
    &&& forall|i: int|
        0 <= i < fs.len() ==> (#[trigger] fs[i].mode matches SMode::Repeat(left) ==> left >= 1
            && fs[i].body.len() > 0)
}

/// What is waited for fits the innermost block.
pub open spec fn waiting_ok(fs: Seq<SFrame>, w: Waiting) -> bool {
    let top = fs.last();
    match w {
        Waiting::Stopped => true,
        Waiting::WhileRetest => finished(top) && top.mode is While,
        _ => !finished(top) && action_for(top.body[top.next]).0 == w,
    }
}

/// A state the interpreter can be in.
pub open spec fn state_ok(st: SState) -> bool {
    st.waiting != Waiting::Stopped ==> frames_ok(st.frames) && waiting_ok(st.frames, st.waiting)
}

} // verus!

verus! {

pub proof fn lemma_advance_ok(fs: Seq<SFrame>)
    requires
        frames_ok(fs),
        !finished(fs.last()),
    ensures
        frames_ok(advance_top(fs)),
{
    let gs = advance_top(fs);
    assert forall|i: int| 0 <= i < gs.len() - 1 implies #[trigger] gs[i].next < gs[i].body.len()
        && opens(gs[i].body[gs[i].next], gs[i + 1]) by {
        assert(gs[i] == fs[i]);
        if i + 1 < gs.len() - 1 {
            assert(gs[i + 1] == fs[i + 1]);
        }
    }
    assert forall|i: int| 0 <= i < gs.len() implies (#[trigger] gs[i].mode matches SMode::Repeat(
        left,
    ) ==> left >= 1 && gs[i].body.len() > 0) by {
        assert(gs[i].mode == fs[i].mode && gs[i].body == fs[i].body);
    }
    assert forall|i: int| 0 <= i < gs.len() implies 0 <= #[trigger] gs[i].next <= gs[i].body.len() by {
        assert(fs[i].next <= fs[i].body.len());
    }
}

pub proof fn lemma_pop_ok(fs: Seq<SFrame>)
    requires
        frames_ok(fs),
        fs.len() > 1,
    ensures
        frames_ok(pop_and_advance(fs)),
{
    let ds = fs.drop_last();
    assert(ds[ds.len() - 1] == fs[fs.len() - 2]);
    assert(frames_ok(ds)) by {
        assert forall|i: int| 0 <= i < ds.len() - 1 implies #[trigger] ds[i].next < ds[i].body.len()
            && opens(ds[i].body[ds[i].next], ds[i + 1]) by {
            assert(ds[i] == fs[i] && ds[i + 1] == fs[i + 1]);
        }
        assert forall|i: int| 0 <= i < ds.len() implies (#[trigger] ds[i].mode matches SMode::Repeat(
            left,
        ) ==> left >= 1 && ds[i].body.len() > 0) by {
            assert(ds[i] == fs[i]);
        }
        assert forall|i: int| 0 <= i < ds.len() implies 0 <= #[trigger] ds[i].next
            <= ds[i].body.len() by {
            assert(ds[i] == fs[i]);
        }
    }
    assert(fs[fs.len() - 2].next < fs[fs.len() - 2].body.len());
    lemma_advance_ok(ds);
}

pub proof fn lemma_restart_ok(fs: Seq<SFrame>, mode: SMode)
    requires
        frames_ok(fs),
        fs.len() > 1,
        fs.last().mode is Repeat ==> mode is Repeat,
        fs.last().mode is While ==> mode == fs.last().mode,
        fs.last().mode is Sequence ==> mode is Sequence,
        mode matches SMode::Repeat(left) ==> left >= 1 && fs.last().body.len() > 0,
    ensures
        frames_ok(restart_top(fs, mode)),
{
    let gs = restart_top(fs, mode);
    let n: int = fs.len() - 1;
    assert forall|i: int| 0 <= i < gs.len() - 1 implies #[trigger] gs[i].next < gs[i].body.len()
        && opens(gs[i].body[gs[i].next], gs[i + 1]) by {
        assert(gs[i] == fs[i]);
        if i + 1 < n {
            assert(gs[i + 1] == fs[i + 1]);
        } else {
            assert(opens(fs[i].body[fs[i].next], fs[i + 1]));
        }
    }
    assert forall|i: int| 0 <= i < gs.len() implies (#[trigger] gs[i].mode matches SMode::Repeat(
        left,
    ) ==> left >= 1 && gs[i].body.len() > 0) by {
        if i < n {
            assert(gs[i] == fs[i]);
        }
    }
    assert forall|i: int| 0 <= i < gs.len() implies 0 <= #[trigger] gs[i].next <= gs[i].body.len() by {
        if i < n {
            assert(gs[i] == fs[i]);
        }
    }
}

pub proof fn lemma_push_ok(fs: Seq<SFrame>, f: SFrame)
    requires
        frames_ok(fs),
        !finished(fs.last()),
        opens(fs.last().body[fs.last().next], f),
        f.next == 0,
        f.mode matches SMode::Repeat(left) ==> left >= 1 && f.body.len() > 0,
    ensures
        frames_ok(fs.push(f)),
{
    let gs = fs.push(f);
    assert forall|i: int| 0 <= i < gs.len() - 1 implies #[trigger] gs[i].next < gs[i].body.len()
        && opens(gs[i].body[gs[i].next], gs[i + 1]) by {
        assert(gs[i] == fs[i]);
        if i + 1 < fs.len() {
            assert(gs[i + 1] == fs[i + 1]);
        }
    }
    assert forall|i: int| 0 <= i < gs.len() implies (#[trigger] gs[i].mode matches SMode::Repeat(
        left,
    ) ==> left >= 1 && gs[i].body.len() > 0) by {
        if i < fs.len() {
            assert(gs[i] == fs[i]);
        }
    }
    assert forall|i: int| 0 <= i < gs.len() implies 0 <= #[trigger] gs[i].next <= gs[i].body.len() by {
        if i < fs.len() {
            assert(gs[i] == fs[i]);
        }
    }
}

} // verus!

verus! {

/// An error stops the program: the interpreter fails with that error and
/// takes no reply after it.
pub proof fn law_error_stops(st: SState, e: SSharpError, r: Reply)
    ensures
        step(st, Reply::Error(e)).1 == SAction::Failed(e),
        step(st, Reply::Error(e)).0.waiting == Waiting::Stopped,
        !accepts(step(st, Reply::Error(e)).0.waiting, r),
{
}

/// While the interpreter runs, whatever it waits for (a simple statement, an
/// `if` condition, a `repeat` count, a `while` test), the work may fail
/// instead: it takes the error reply, and the program then fails with that
/// error and stops.
pub proof fn law_running_interpreter_takes_errors(st: SState, e: SSharpError)
    requires
        st.waiting != Waiting::Stopped,
    ensures
        accepts(st.waiting, Reply::Error(e)),
        step(st, Reply::Error(e)).1 == SAction::Failed(e),
        step(st, Reply::Error(e)).0.waiting == Waiting::Stopped,
{
}

/// The interpreter takes exactly the replies that fit what it waits for:
/// `Done` after a simple statement, a truth value after a condition, a
/// number of rounds after a repeat count, and an error whenever it runs.
pub proof fn law_replies_taken(w: Waiting, b: bool, n: usize, e: SSharpError)
    ensures
        accepts(w, Reply::Done) <==> w == Waiting::Performed,
        accepts(w, Reply::Truth(b)) <==> (w == Waiting::IfTest || w == Waiting::WhileTest || w
            == Waiting::WhileRetest),
        accepts(w, Reply::Times(n)) <==> w == Waiting::RepeatCount,
        accepts(w, Reply::Error(e)) <==> w != Waiting::Stopped,
{
}

/// When the interpreter reaches the end of the program it stops, and takes
/// no reply after it.
pub proof fn law_finished_stops(fs: Seq<SFrame>, r: Reply)
    ensures
        proceed(fs).1 is Finished ==> proceed(fs).0.waiting == Waiting::Stopped && !accepts(
            proceed(fs).0.waiting,
            r,
        ),
    decreases measure(fs),
{
    if fs.len() > 0 {
        let top = fs.last();
        if finished(top) {
            match top.mode {
                SMode::Sequence => if fs.len() > 1 {
                    law_finished_stops(pop_and_advance(fs), r);
                },
                SMode::Repeat(left) => if left > 1 && top.body.len() > 0 {
                    law_finished_stops(restart_top(fs, SMode::Repeat((left - 1) as nat)), r);
                } else if fs.len() > 1 {
                    law_finished_stops(pop_and_advance(fs), r);
                },
                _ => {},
            }
        }
    }
}

} // verus!

//! Running a program: the variables, and the interpreter that decides which
//! statement runs next.
pub mod environment;
pub mod schedule;
pub mod semantics;

use vstd::prelude::*;
use crate::error::SSharpError;
use crate::parser::ast::{Expr, Program, SStmt, Stmt, stmts_view};
use schedule::{
    Reply, SAction, SFrame, SMode, SState, Waiting, accepts, advance_top, finished, frames_ok,
    inner_actions, lemma_advance_ok, lemma_pop_ok, lemma_push_ok, lemma_restart_ok, measure,
    pop_and_advance, proceed, restart_top, start, state_ok, step,
};

verus! {

/// How a block runs (see [`SMode`]).
#[derive(Clone, Copy)]
pub enum Mode<'a> {
    Sequence,
    Repeat { left: usize },
    While { condition: &'a Expr },
}

/// A block being run (see [`SFrame`]).
#[derive(Clone, Copy)]
pub struct Frame<'a> {
    body: &'a Vec<Stmt>,
    next: usize,
    mode: Mode<'a>,
}

/// The work the interpreter asks of the evaluator (see [`SAction`]).
pub enum Action<'a> {
    Perform(&'a Stmt),
    Test(&'a Expr),
    Count(&'a Expr),
    Finished,
    Failed(SSharpError),
}

impl<'a> View for Mode<'a> {
    type V = SMode;

    open spec fn view(&self) -> SMode {
        match *self {
            Mode::Sequence => SMode::Sequence,
            Mode::Repeat { left } => SMode::Repeat(left as nat),
            Mode::While { condition } => SMode::While(condition@),
        }
    }
}

impl<'a> View for Frame<'a> {
    type V = SFrame;

    closed spec fn view(&self) -> SFrame {
        SFrame { body: stmts_view(self.body@), next: self.next as int, mode: self.mode@ }
    }
}

impl<'a> View for Action<'a> {
    type V = SAction;

    open spec fn view(&self) -> SAction {
        match *self {
            Action::Perform(s) => SAction::Perform(s@),
            Action::Test(e) => SAction::Test(e@),
            Action::Count(e) => SAction::Count(e@),
            Action::Finished => SAction::Finished,
            Action::Failed(e) => SAction::Failed(e),
        }
    }
}

/// The statement-level interpreter of one program: it decides which
/// statement runs next and asks the evaluator for the work of each.
pub struct Interpreter<'a> {
    frames: Vec<Frame<'a>>,
    waiting: Waiting,
}

impl<'a> Interpreter<'a> {
    /// The interpreter's state.
    pub closed spec fn state(&self) -> SState {
        SState { frames: self.frames@.map_values(|f: Frame<'a>| f@), waiting: self.waiting }
    }

    pub closed spec fn wf(&self) -> bool {
        state_ok(self.state())
    }

    /// Starts running a program: the first action and the interpreter waiting for its reply.
    pub fn start(program: &'a Program) -> (r: (Self, Action<'a>))
        ensures
            r.0.wf(),
            (r.0.state(), r.1@) == start(program@),
    {
        let mut frames: Vec<Frame<'a>> = Vec::new();
        frames.push(Frame { body: &program.event.body, next: 0, mode: Mode::Sequence });
        let mut interp = Interpreter { frames, waiting: Waiting::Stopped };
        proof {
            assert(interp.state().frames =~= seq![
                SFrame { body: program@.body, next: 0, mode: SMode::Sequence },
            ]);
        }
        let action = interp.proceed();
        (interp, action)
    }

    /// Does the interpreter take this reply now?
    pub fn expects(&self, reply: &Reply) -> (b: bool)
        ensures
            b == accepts(self.state().waiting, *reply),
    {
        match reply {
            Reply::Done => self.waiting == Waiting::Performed,
            Reply::Truth(_) => self.waiting == Waiting::IfTest || self.waiting == Waiting::WhileTest
                || self.waiting == Waiting::WhileRetest,
            Reply::Times(_) => self.waiting == Waiting::RepeatCount,
            Reply::Error(_) => self.waiting != Waiting::Stopped,
        }
    }

    /// Moves the innermost block to its next statement.
    fn advance_top(&mut self)
        requires
            old(self).frames@.len() > 0,
            !finished(old(self).state().frames.last()),
        ensures
            final(self).state().frames == advance_top(old(self).state().frames),
            final(self).waiting == old(self).waiting,
    {
        let k: usize = self.frames.len() - 1;
        let f = self.frames[k];
        proof {
            assert(self.state().frames[k as int] == f@);
            lemma_stmts_len(f.body@);
            assert(f.body.len() == f.body@.len());
        }
        self.frames.set(k, Frame { body: f.body, next: f.next + 1, mode: f.mode });
        proof {
            assert(self.state().frames =~= advance_top(old(self).state().frames));
        }
    }

    /// Looks for the next action (see [`proceed`]).
    fn proceed(&mut self) -> (a: Action<'a>)
        requires
            frames_ok(old(self).state().frames),
        ensures
            final(self).wf(),
            (final(self).state(), a@) == proceed(old(self).state().frames),
    {
        let ghost target = proceed(self.state().frames);
        loop
            invariant
                frames_ok(self.state().frames),
                proceed(self.state().frames) == target,
                target == proceed(old(self).state().frames),
            decreases measure(self.state().frames),
        {
            let ghost fs = self.state().frames;
            let k: usize = self.frames.len() - 1;
            let f = self.frames[k];
            proof {
                assert(fs[k as int] == f@);
                assert(fs.last() == f@);
                lemma_stmts_len(f.body@);
            }
            if f.next < f.body.len() {
                let s: &'a Stmt = &f.body[f.next];
                proof {
                    lemma_stmts_at(f.body@, f.next as int);
                }
                match s {
                    Stmt::If { condition, .. } => {
                        self.waiting = Waiting::IfTest;
                        return Action::Test(condition);
                    },
                    Stmt::Repeat { count, .. } => {
                        self.waiting = Waiting::RepeatCount;
                        return Action::Count(count);
                    },
                    Stmt::While { condition, .. } => {
                        self.waiting = Waiting::WhileTest;
                        return Action::Test(condition);
                    },
                    _ => {
                        self.waiting = Waiting::Performed;
                        return Action::Perform(s);
                    },
                }
            }
            match f.mode {
                Mode::Sequence => {
                    if k == 0 {
                        self.waiting = Waiting::Stopped;
                        return Action::Finished;
                    }
                    self.pop_and_advance();
                },
                Mode::Repeat { left } => {
                    if left > 1 && f.body.len() > 0 {
                        self.frames.set(
                            k,
                            Frame { body: f.body, next: 0, mode: Mode::Repeat { left: left - 1 } },
                        );
                        proof {
                            assert(self.state().frames =~= restart_top(
                                fs,
                                SMode::Repeat((left - 1) as nat),
                            ));
                            lemma_restart_ok(fs, SMode::Repeat((left - 1) as nat));
                        }
                    } else {
                        self.pop_and_advance();
                    }
                },
                Mode::While { condition } => {
                    self.waiting = Waiting::WhileRetest;
                    return Action::Test(condition);
                },
            }
        }
    }

    /// Leaves the innermost block and moves the block around it on.
    fn pop_and_advance(&mut self)
        requires
            frames_ok(old(self).state().frames),
            old(self).frames@.len() > 1,
        ensures
            final(self).state().frames == pop_and_advance(old(self).state().frames),
            frames_ok(final(self).state().frames),
            final(self).waiting == old(self).waiting,
    {
        let ghost fs = self.state().frames;
        self.frames.pop();
        proof {
            assert(self.state().frames =~= fs.drop_last());
            lemma_pop_ok(fs);
            assert(fs[fs.len() - 2].next < fs[fs.len() - 2].body.len());
        }
        self.advance_top();
    }

    /// Takes the evaluator's reply to the last action and gives the next action (see [`step`]).
    pub fn resume(&mut self, reply: Reply) -> (a: Action<'a>)
        requires
            old(self).wf(),
            accepts(old(self).state().waiting, reply),
        ensures
            final(self).wf(),
            (final(self).state(), a@) == step(old(self).state(), reply),
    {
        let ghost st = self.state();
        let ghost fs = st.frames;
        let k: usize = self.frames.len() - 1;
        let f = self.frames[k];
        proof {
            assert(fs[k as int] == f@);
            lemma_stmts_len(f.body@);
        }
        match reply {
            Reply::Error(e) => {
                self.waiting = Waiting::Stopped;
                return Action::Failed(e);
            },
            Reply::Done => {
                proof {
                    lemma_advance_ok(fs);
                }
                self.advance_top();
            },
            Reply::Truth(b) => {
                if self.waiting == Waiting::WhileRetest {
                    if b {
                        self.frames.set(k, Frame { body: f.body, next: 0, mode: f.mode });
                        proof {
                            assert(self.state().frames =~= restart_top(fs, fs.last().mode));
                            lemma_restart_ok(fs, fs.last().mode);
                        }
                    } else {
                        self.pop_and_advance();
                    }
                } else {
                    let s: &'a Stmt = &f.body[f.next];
                    proof {
                        lemma_stmts_at(f.body@, f.next as int);
                    }
                    self.enter_or_skip(s, b, 0);
                }
            },
            Reply::Times(n) => {
                let s: &'a Stmt = &f.body[f.next];
                proof {
                    lemma_stmts_at(f.body@, f.next as int);
                }
                self.enter_or_skip(s, n > 0, n);
            },
        }
        self.proceed()
    }

    /// Enters the block of the compound statement `s` at which the innermost
    /// block is, or moves past `s`.
    fn enter_or_skip(&mut self, s: &'a Stmt, enter: bool, rounds: usize)
        requires
            frames_ok(old(self).state().frames),
            !finished(old(self).state().frames.last()),
            s@ == old(self).state().frames.last().body[old(self).state().frames.last().next],
            !(s@ is Ask || s@ is Assign || s@ is Display || s@ is FunctionDef),
            s@ is Repeat ==> rounds > 0 || !enter,
        ensures
            frames_ok(final(self).state().frames),
            final(self).state().frames == if enter && (!(s@ is Repeat) || inner_actions(s@).len()
                > 0) {
                old(self).state().frames.push(
                    SFrame {
                        body: inner_actions(s@),
                        next: 0,
                        mode: match s@ {
                            SStmt::Repeat { .. } => SMode::Repeat(rounds as nat),
                            SStmt::While { condition, .. } => SMode::While(condition),
                            _ => SMode::Sequence,
                        },
                    },
                )
            } else {
                advance_top(old(self).state().frames)
            },
    {
        let ghost fs = self.state().frames;
        let frame = match s {
            Stmt::If { actions, .. } => Some(Frame { body: actions, next: 0, mode: Mode::Sequence }),
            Stmt::Repeat { actions, .. } => {
                if actions.len() > 0 {
                    Some(Frame { body: actions, next: 0, mode: Mode::Repeat { left: rounds } })
                } else {
                    None
                }
            },
            Stmt::While { condition, actions } => Some(
                Frame { body: actions, next: 0, mode: Mode::While { condition } },
            ),
            _ => None,
        };
        match frame {
            Some(frame) if enter => {
                self.frames.push(frame);
                proof {
                    lemma_stmts_len(frame.body@);
                    assert(self.state().frames =~= fs.push(frame@));
                    lemma_push_ok(fs, frame@);
                }
            },
            _ => {
                proof {
                    lemma_advance_ok(fs);
                }
                self.advance_top();
            },
        }
    }
}

/// A list of statements and its view have the same length.
proof fn lemma_stmts_len(ss: Seq<Stmt>)
    ensures
        stmts_view(ss).len() == ss.len(),
{
    crate::parser::ast::lemma_stmts_view(ss);
}

/// The view of a list of statements, at an index.
proof fn lemma_stmts_at(ss: Seq<Stmt>, i: int)
    requires
        0 <= i < ss.len(),
    ensures
        stmts_view(ss)[i] == ss[i]@,
{
    crate::parser::ast::lemma_stmts_view(ss);
}

} // verus!

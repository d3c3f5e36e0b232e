//! One launched process: its command, its recorded identifier, and the
//! decisions about its liveness.
//!
//! A `Subprocess` never touches the operating system. The host spawns the
//! command that the handle describes, reports the outcome to `start`, asks the
//! operating system for the state of the recorded identifier and reports it to
//! `confirm` and `alive`, and delivers the signal to the identifier that
//! `kill` hands out.

use crate::text::{pieces, split_on_spaces, texts};
use vstd::prelude::*;

verus! {

/// The state of a process as the operating system reports it.
#[derive(Clone, Copy, Debug, PartialEq, Eq, Structural)]
pub enum ProcState {
    Running,
    Sleeping,
    Waiting,
    Zombie,
    Stopped,
    TraceStopped,
    Paging,
    Dead,
    Wakekill,
    Waking,
    Parked,
}

impl ProcState {
    /// A process counts as live in every state but stopped, zombie and dead.
    pub open spec fn is_live(self) -> bool {
        !(self is Stopped || self is Zombie || self is Dead)
    }

    /// Whether a process in this state still runs.
    pub fn live(self) -> (r: bool)
        ensures
            r == self.is_live(),
    {
        match self {
            ProcState::Stopped | ProcState::Zombie | ProcState::Dead => false,
            _ => true,
        }
    }
}

/// Why the operating system did not create a process.
#[derive(Clone, Copy, Debug, PartialEq, Eq, Structural)]
pub enum SpawnFailure {
    /// The executable was not found.
    NotFound,
    /// The executable may not be run.
    PermissionDenied,
    /// Any other refusal.
    Other,
}

/// Why a command was not launched.
#[derive(Clone, Copy, Debug, PartialEq, Eq, Structural)]
pub enum SpawnError {
    /// The command line holds no token.
    InvalidCommand,
    /// The operating system refused to create the process.
    Refused(SpawnFailure),
    /// The process was created but never seen running.
    ConfirmationTimeout,
}

/// What one look at a freshly spawned process means for `start`.
#[derive(Clone, Copy, Debug, PartialEq, Eq, Structural)]
pub enum StartPoll {
    /// The process was seen running: the start is complete.
    Confirmed,
    /// Not running yet: yield the processor, then look again.
    Retry,
    /// Not running after the last permitted look: the start has failed with
    /// this error, and the process is to be signalled and forgotten.
    GiveUp(SpawnError),
}

/// How often a freshly spawned process is looked at before its start is
/// given up.
pub const MAX_CONFIRMATION_POLLS: u32 = 1000;

/// The tokens of a command line: none for the empty line, and otherwise the
/// pieces that its spaces separate, empty ones included.
pub open spec fn command_tokens(line: Seq<char>) -> Seq<Seq<char>> {
    if line.len() == 0 {
        Seq::<Seq<char>>::empty()
    } else {
        pieces(line)
    }
}

/// What a process handle stands for.
pub ghost struct SubprocessView {
    /// The catalog label that launched it.
    pub title: Seq<char>,
    /// The executable: the first token of the command line.
    pub program: Seq<char>,
    /// The remaining tokens, verbatim.
    pub args: Seq<Seq<char>>,
    /// The working directory of the process.
    pub cwd: Seq<char>,
    /// The identifier of the process, once it has been started.
    pub pid: Option<u32>,
}

impl SubprocessView {
    /// The handle that `new` makes of a label, a command line with at least
    /// one token, and a working directory: not started yet.
    pub open spec fn fresh(title: Seq<char>, line: Seq<char>, cwd: Seq<char>) -> SubprocessView {
        SubprocessView {
            title,
            program: command_tokens(line)[0],
            args: command_tokens(line).skip(1),
            cwd,
            pid: None,
        }
    }

    /// Liveness on one observation. `observed` is what the operating system
    /// reported for the recorded identifier, `None` where it knows no such
    /// process. A handle that was never started is not alive, whatever was
    /// observed.
    pub open spec fn alive_on(self, observed: Option<ProcState>) -> bool {
        self.pid is Some && observed is Some && observed->0.is_live()
    }

    /// The handle after the operating system created its process as `pid`.
    pub open spec fn started(self, pid: u32) -> SubprocessView {
        SubprocessView { pid: Some(pid), ..self }
    }

    /// The verdict of one confirmation look, the `polls_done + 1`-th.
    pub open spec fn confirmation(self, observed: Option<ProcState>, polls_done: u32) -> StartPoll {
        if self.alive_on(observed) {
            StartPoll::Confirmed
        } else if polls_done + 1 >= MAX_CONFIRMATION_POLLS {
            StartPoll::GiveUp(SpawnError::ConfirmationTimeout)
        } else {
            StartPoll::Retry
        }
    }
}

/// The handle of one child process.
#[derive(Debug)]
pub struct Subprocess {
    title: String,
    program: String,
    args: Vec<String>,
    cwd: String,
    pid: Option<u32>,
}

impl View for Subprocess {
    type V = SubprocessView;

    closed spec fn view(&self) -> SubprocessView {
        SubprocessView {
            title: self.title@,
            program: self.program@,
            args: texts(self.args@),
            cwd: self.cwd@,
            pid: self.pid,
        }
    }
}

impl Subprocess {
    /// A handle for the command line `src.1` under the label `src.0`, to run
    /// in the directory `cwd`. Nothing is spawned. The command line is cut at
    /// every space: the first token is the executable, the others are its
    /// arguments, with no quoting and no expansion. A command line without a
    /// token is refused.
    pub fn new(src: (&String, &str), cwd: String) -> (r: Result<Subprocess, SpawnError>)
        ensures
            r is Ok <==> command_tokens(src.1@).len() > 0,
            r matches Ok(h) ==> h@ == SubprocessView::fresh(src.0@, src.1@, cwd@),
            r matches Err(e) ==> e == SpawnError::InvalidCommand,
    {
        if src.1.is_empty() {
            return Err(SpawnError::InvalidCommand);
        }
        let mut parts = split_on_spaces(src.1);
        proof {
            crate::text::lemma_pieces_rebuild_line(src.1@);
        }
        let ghost all = texts(parts@);
        let program = parts.remove(0);
        proof {
            assert(texts(parts@) =~= all.skip(1));
        }
        Ok(Subprocess { title: src.0.clone(), program, args: parts, cwd, pid: None })
    }

    /// Records the outcome of spawning the command: the identifier of the new
    /// process, or the refusal, which leaves the handle as it was.
    pub fn start(&mut self, spawned: Result<u32, SpawnFailure>) -> (r: Result<(), SpawnError>)
        ensures
            spawned matches Ok(pid) ==> r is Ok && final(self)@ == old(self)@.started(pid),
            spawned matches Err(f) ==> r == Err::<(), SpawnError>(SpawnError::Refused(f))
                && final(self)@ == old(self)@,
    {
        match spawned {
            Ok(pid) => {
                self.pid = Some(pid);
                Ok(())
            },
            Err(f) => Err(SpawnError::Refused(f)),
        }
    }

    /// Judges one look at the process after `start`: `observed` is what the
    /// operating system reported for the recorded identifier, and
    /// `polls_done` counts the looks before this one. The start is confirmed
    /// by the first look that finds the process alive, and given up with
    /// `ConfirmationTimeout` when `MAX_CONFIRMATION_POLLS` looks have not
    /// found it so.
    pub fn confirm(&self, observed: Option<ProcState>, polls_done: u32) -> (r: StartPoll)
        ensures
            r == self@.confirmation(observed, polls_done),
    {
        if self.alive(observed) {
            StartPoll::Confirmed
        } else if polls_done >= MAX_CONFIRMATION_POLLS - 1 {
            StartPoll::GiveUp(SpawnError::ConfirmationTimeout)
        } else {
            StartPoll::Retry
        }
    }

    /// Whether the process runs, judged from `observed`: what the operating
    /// system reported for the recorded identifier, `None` where it knows no
    /// such process.
    pub fn alive(&self, observed: Option<ProcState>) -> (r: bool)
        ensures
            r == self@.alive_on(observed),
    {
        if self.pid.is_none() {
            return false;
        }
        match observed {
            Some(state) => state.live(),
            None => false,
        }
    }

    /// Gives the handle up. The result is the identifier to which the host
    /// sends the termination signal, ignoring whether it arrives; a handle
    /// that was never started has none.
    pub fn kill(self) -> (r: Option<u32>)
        ensures
            r == self@.pid,
    {
        self.pid
    }

    /// The label under which the process was launched.
    pub fn title(&self) -> (r: &String)
        ensures
            r@ == self@.title,
    {
        &self.title
    }

    /// The executable.
    pub fn program(&self) -> (r: &String)
        ensures
            r@ == self@.program,
    {
        &self.program
    }

    /// The arguments, in order.
    pub fn args(&self) -> (r: &Vec<String>)
        ensures
            texts(r@) == self@.args,
    {
        &self.args
    }

    /// The working directory.
    pub fn cwd(&self) -> (r: &String)
        ensures
            r@ == self@.cwd,
    {
        &self.cwd
    }

    /// The recorded process identifier.
    pub fn pid(&self) -> (r: Option<u32>)
        ensures
            r == self@.pid,
    {
        self.pid
    }
}

/// A start is confirmed only by an observation on which the handle is alive:
/// whoever is told that the start succeeded has seen the process running.
pub proof fn lemma_confirmed_start_is_alive(
    h: SubprocessView,
    pid: u32,
    observed: Option<ProcState>,
    polls_done: u32,
)
    requires
        h.started(pid).confirmation(observed, polls_done) == StartPoll::Confirmed,
    ensures
        h.started(pid).alive_on(observed),
{
}

/// A start never polls without end: the look that brings the count to
/// `MAX_CONFIRMATION_POLLS` confirms the start or gives it up, and so does
/// every later one.
pub proof fn lemma_start_polls_are_bounded(
    h: SubprocessView,
    observed: Option<ProcState>,
    polls_done: u32,
)
    requires
        polls_done + 1 >= MAX_CONFIRMATION_POLLS,
    ensures
        h.confirmation(observed, polls_done) != StartPoll::Retry,
        h.confirmation(observed, polls_done) == StartPoll::Confirmed <==> h.alive_on(observed),
{
}

} // verus!

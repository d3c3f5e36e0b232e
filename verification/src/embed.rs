//! A shell of the operator's own as a process handle without a label.

use crate::child::{command_tokens, ProcState, SpawnError, SpawnFailure, Subprocess, SubprocessView};
use vstd::prelude::*;
use vstd::string::*;

verus! {

/// The handle of the operator's shell.
#[derive(Debug)]
pub struct ShellInstance {
    inner: Subprocess,
}

impl View for ShellInstance {
    type V = SubprocessView;

    closed spec fn view(&self) -> SubprocessView {
        self.inner@
    }
}

impl ShellInstance {
    /// A handle for the shell with the command line `shell`, to run in the
    /// directory `home`, under the empty label. Nothing is spawned. A command
    /// line without a token is refused.
    pub fn new(home: String, shell: &str) -> (r: Result<ShellInstance, SpawnError>)
        ensures
            r is Ok <==> command_tokens(shell@).len() > 0,
            r matches Ok(s) ==> s@ == SubprocessView::fresh(Seq::<char>::empty(), shell@, home@),
            r matches Err(e) ==> e == SpawnError::InvalidCommand,
    {
        let label = String::new();
        match Subprocess::new((&label, shell), home) {
            Ok(inner) => Ok(ShellInstance { inner }),
            Err(e) => Err(e),
        }
    }

    /// Records the outcome of spawning the shell, as `Subprocess::start`
    /// does.
    pub fn start(&mut self, spawned: Result<u32, SpawnFailure>) -> (r: Result<(), SpawnError>)
        ensures
            spawned matches Ok(pid) ==> r is Ok && final(self)@ == old(self)@.started(pid),
            spawned matches Err(f) ==> r == Err::<(), SpawnError>(SpawnError::Refused(f))
                && final(self)@ == old(self)@,
    {
        self.inner.start(spawned)
    }

    /// Whether the shell runs, judged from what the operating system
    /// reported for its identifier.
    pub fn alive(self, observed: Option<ProcState>) -> (r: bool)
        ensures
            r == self@.alive_on(observed),
    {
        self.inner.alive(observed)
    }

    /// The recorded process identifier.
    pub fn pid(&self) -> (r: Option<u32>)
        ensures
            r == self@.pid,
    {
        self.inner.pid()
    }

    /// The process handle of the shell.
    pub fn handle(&self) -> (r: &Subprocess)
        ensures
            r@ == self@,
    {
        &self.inner
    }
}

} // verus!

//! The cooperative pause / resume / stop signal that long-running batch work
//! polls between items.

use vstd::prelude::*;

verus! {

/// The state of the one batch process that may be under way.
pub struct ProcessState {
    pub is_running: bool,
    pub is_paused: bool,
    pub should_stop: bool,
    pub current_index: usize,
}

impl ProcessState {
    /// Nothing running, nothing paused, no stop asked for.
    pub open spec fn is_idle(&self) -> bool {
        !self.is_running && !self.is_paused && !self.should_stop && self.current_index == 0
    }

    pub fn new() -> (r: Self)
        ensures
            r.is_idle(),
    {
        ProcessState { is_running: false, is_paused: false, should_stop: false, current_index: 0 }
    }

    /// Marks a new process as running, from its first item.
    pub fn start(&mut self)
        ensures
            final(self).is_running,
            !final(self).is_paused,
            !final(self).should_stop,
            final(self).current_index == 0,
    {
        self.is_running = true;
        self.is_paused = false;
        self.should_stop = false;
        self.current_index = 0;
    }

    pub fn pause(&mut self)
        ensures
            *final(self) == (ProcessState { is_paused: true, ..*old(self) }),
    {
        self.is_paused = true;
    }

    pub fn resume(&mut self)
        ensures
            *final(self) == (ProcessState { is_paused: false, ..*old(self) }),
    {
        self.is_paused = false;
    }

    /// Asks the running process to stop at its next check.
    pub fn stop(&mut self)
        ensures
            final(self).should_stop,
            !final(self).is_running,
            !final(self).is_paused,
            final(self).current_index == old(self).current_index,
    {
        self.should_stop = true;
        self.is_running = false;
        self.is_paused = false;
    }

    pub fn is_running(&self) -> (r: bool)
        ensures
            r == self.is_running,
    {
        self.is_running
    }

    pub fn is_paused(&self) -> (r: bool)
        ensures
            r == self.is_paused,
    {
        self.is_paused
    }

    pub fn should_stop(&self) -> (r: bool)
        ensures
            r == self.should_stop,
    {
        self.should_stop
    }

    /// Back to the idle state.
    pub fn reset(&mut self)
        ensures
            final(self).is_idle(),
    {
        self.is_running = false;
        self.is_paused = false;
        self.should_stop = false;
        self.current_index = 0;
    }
}

impl Default for ProcessState {
    fn default() -> (r: Self)
        ensures
            r.is_idle(),
    {
        ProcessState::new()
    }
}

/// The message given when a request needs a running process.
pub open spec fn not_running_message() -> Seq<char> {
    "Proses işləmir"@
}

/// The message given when a resume finds no paused process.
pub open spec fn not_paused_message() -> Seq<char> {
    "Proses fasilədə deyil"@
}

/// Pauses the process if one is running; otherwise leaves the state alone
/// and reports that none is.
pub fn pause_process(state: &mut ProcessState) -> (r: Result<(), String>)
    ensures
        old(state).is_running ==> r is Ok && *final(state) == (ProcessState {
            is_paused: true,
            ..*old(state)
        }),
        !old(state).is_running ==> r is Err && r->Err_0@ == not_running_message() && *final(state)
            == *old(state),
{
    if state.is_running() {
        state.pause();
        Ok(())
    } else {
        Err("Proses işləmir".to_owned())
    }
}

/// Resumes the process if one is running and paused; otherwise leaves the
/// state alone and reports that none is paused.
pub fn resume_process(state: &mut ProcessState) -> (r: Result<(), String>)
    ensures
        old(state).is_running && old(state).is_paused ==> r is Ok && *final(state) == (
        ProcessState { is_paused: false, ..*old(state) }),
        !(old(state).is_running && old(state).is_paused) ==> r is Err && r->Err_0@
            == not_paused_message() && *final(state) == *old(state),
{
    if state.is_running() && state.is_paused() {
        state.resume();
        Ok(())
    } else {
        Err("Proses fasilədə deyil".to_owned())
    }
}

/// Asks the running process to stop; with none running, leaves the state
/// alone and reports that.
pub fn stop_process(state: &mut ProcessState) -> (r: Result<(), String>)
    ensures
        old(state).is_running ==> r is Ok && final(state).should_stop && !final(state).is_running
            && !final(state).is_paused && final(state).current_index == old(state).current_index,
        !old(state).is_running ==> r is Err && r->Err_0@ == not_running_message() && *final(state)
            == *old(state),
{
    if state.is_running() {
        state.stop();
        Ok(())
    } else {
        Err("Proses işləmir".to_owned())
    }
}

} // verus!

use vstd::prelude::*;

use crate::shell::Shell;

verus! {

/// The exit status or reason why the command exited.
#[derive(Debug, Copy, Clone, Eq, PartialEq, Structural)]
pub enum ExitStatus {
    ExitedWith(i32),
    /// A job left running or stopped, with its process group (or a child's pid).
    Running(i32),
    Break,
    Continue,
    Return,
    NoExec,
}

#[derive(Debug, Copy, Clone, PartialEq, Eq, Hash, Structural)]
pub struct JobId(pub usize);

impl JobId {
    pub fn new(id: usize) -> (r: JobId)
        ensures
            r.0 == id,
    {
        JobId(id)
    }
}

#[derive(Debug, Copy, Clone, Eq, PartialEq, Structural)]
pub enum ProcessState {
    Running,
    /// Contains the exit status.
    Completed(i32),
    /// Suspended (Ctrl-Z).
    Stopped(i32),
}

/// A pipeline whose processes were spawned.
#[derive(Debug)]
pub struct Job {
    pub id: JobId,
    pub pgid: i32,
    pub cmd: String,
    pub processes: Vec<i32>,
}

/// Whether every pid of `pids` is in `states` with a state that `done` accepts.
pub open spec fn all_in_state(
    pids: Seq<i32>,
    states: Map<i32, ProcessState>,
    done: spec_fn(ProcessState) -> bool,
) -> bool {
    forall|k: int| 0 <= k < pids.len() ==> states.contains_key(#[trigger] pids[k]) && done(states[pids[k]])
}

pub open spec fn is_completed(s: ProcessState) -> bool {
    s is Completed
}

pub open spec fn is_stopped(s: ProcessState) -> bool {
    s is Stopped
}

impl Job {
    pub fn new(id: JobId, pgid: i32, cmd: String, processes: Vec<i32>) -> (r: Job)
        ensures
            r.spec_id() == id,
            r.pgid == pgid,
            r.cmd == cmd,
            r.processes == processes,
    {
        Job { id, pgid, cmd, processes }
    }

    pub open spec fn spec_id(&self) -> JobId {
        self.id
    }

    pub fn id(&self) -> (r: JobId)
        ensures
            r == self.spec_id(),
    {
        self.id
    }

    /// Whether all its processes have completed.
    pub fn completed(&self, shell: &Shell) -> (r: bool)
        ensures
            r == all_in_state(self.processes@, shell.spec_states(), |s: ProcessState| is_completed(s)),
    {
        let mut i: usize = 0;
        while i < self.processes.len()
            invariant
                i <= self.processes@.len(),
                all_in_state(self.processes@.subrange(0, i as int), shell.spec_states(), |s: ProcessState| is_completed(s)),
            decreases self.processes@.len() - i,
        {
            match shell.get_process_state(self.processes[i]) {
                Some(ProcessState::Completed(_)) => {},
                _ => {
                    assert(!(shell.spec_states().contains_key(self.processes@[i as int]) && is_completed(shell.spec_states()[self.processes@[i as int]])));
                    return false;
                },
            }
            i += 1;
            assert forall|k: int| 0 <= k < i implies shell.spec_states().contains_key(#[trigger] self.processes@.subrange(0, i as int)[k]) && is_completed(shell.spec_states()[self.processes@.subrange(0, i as int)[k]]) by {
                if k < i - 1 {
                    assert(self.processes@.subrange(0, i as int)[k] == self.processes@.subrange(0, i - 1)[k]);
                }
            }
        }
        assert(self.processes@.subrange(0, i as int) =~= self.processes@);
        true
    }

    /// Whether all its processes are stopped.
    pub fn stopped(&self, shell: &Shell) -> (r: bool)
        ensures
            r == all_in_state(self.processes@, shell.spec_states(), |s: ProcessState| is_stopped(s)),
    {
        let mut i: usize = 0;
        while i < self.processes.len()
            invariant
                i <= self.processes@.len(),
                all_in_state(self.processes@.subrange(0, i as int), shell.spec_states(), |s: ProcessState| is_stopped(s)),
            decreases self.processes@.len() - i,
        {
            match shell.get_process_state(self.processes[i]) {
                Some(ProcessState::Stopped(_)) => {},
                _ => {
                    assert(!(shell.spec_states().contains_key(self.processes@[i as int]) && is_stopped(shell.spec_states()[self.processes@[i as int]])));
                    return false;
                },
            }
            i += 1;
            assert forall|k: int| 0 <= k < i implies shell.spec_states().contains_key(#[trigger] self.processes@.subrange(0, i as int)[k]) && is_stopped(shell.spec_states()[self.processes@.subrange(0, i as int)[k]]) by {
                if k < i - 1 {
                    assert(self.processes@.subrange(0, i as int)[k] == self.processes@.subrange(0, i - 1)[k]);
                }
            }
        }
        assert(self.processes@.subrange(0, i as int) =~= self.processes@);
        true
    }
}

/// What `waitpid` reported, as the shell reads it.
#[derive(Debug, Copy, Clone, PartialEq, Eq, Structural)]
pub enum WaitEvent {
    /// The process exited with a status.
    Exited(i32, i32),
    /// The process was killed by a signal.
    Signaled(i32),
    /// The process was stopped by a signal.
    Stopped(i32),
    /// No child to report (`ECHILD`, or nothing changed with `WNOHANG`).
    NoChild,
}

pub open spec fn spec_state_of(ev: WaitEvent) -> Option<(i32, ProcessState)> {
    match ev {
        WaitEvent::Exited(pid, status) => Some((pid, ProcessState::Completed(status))),
        WaitEvent::Signaled(pid) => Some((pid, ProcessState::Completed(-1i32))),
        WaitEvent::Stopped(pid) => Some((pid, ProcessState::Stopped(pid))),
        WaitEvent::NoChild => None,
    }
}

/// The new state of the process a wait event is about: a signal death completes it with
/// -1.
pub fn state_of_wait_event(ev: WaitEvent) -> (r: Option<(i32, ProcessState)>)
    ensures
        r == spec_state_of(ev),
{
    match ev {
        WaitEvent::Exited(pid, status) => Some((pid, ProcessState::Completed(status))),
        WaitEvent::Signaled(pid) => Some((pid, ProcessState::Completed(-1))),
        WaitEvent::Stopped(pid) => Some((pid, ProcessState::Stopped(pid))),
        WaitEvent::NoChild => None,
    }
}

/// Records a wait event in the process states; returns the pid it was about.
pub fn wait_for_any_process(shell: &mut Shell, ev: WaitEvent) -> (r: Option<i32>)
    requires
        old(shell).wf(),
    ensures
        final(shell).wf(),
        match spec_state_of(ev) {
            Some((pid, st)) => r == Some(pid) && final(shell).spec_states() == old(shell).spec_states().insert(pid, st),
            None => r is None && final(shell).spec_states() == old(shell).spec_states(),
        },
        final(shell).spec_jobs() == old(shell).spec_jobs(),
        final(shell).spec_last_fore_job() == old(shell).spec_last_fore_job(),
{
    match state_of_wait_event(ev) {
        Some((pid, state)) => {
            shell.set_process_state(pid, state);
            Some(pid)
        },
        None => None,
    }
}

/// How far a waited-for job has come.
#[derive(Debug, Copy, Clone, PartialEq, Eq, Structural)]
pub enum JobProgress {
    /// Some process is still running: wait for another event.
    Wait,
    /// All processes completed; the job was removed. Holds the last process's status.
    Completed(i32),
    /// All processes stopped; the job stays in the table.
    Stopped(i32),
}

/// Decides, after the events recorded so far, whether the job `id` is done; a completed
/// job is destroyed. Stopped or completed, the status is that of its last process.
pub fn wait_for_job(shell: &mut Shell, id: JobId) -> (r: JobProgress)
    requires
        old(shell).wf(),
        old(shell).spec_jobs().contains_key(id.0),
    ensures
        final(shell).wf(),
        final(shell).spec_states() == old(shell).spec_states(),
        ({
            let job = old(shell).spec_jobs()[id.0];
            let states = old(shell).spec_states();
            let last = job.processes@.last();
            if all_in_state(job.processes@, states, |s: ProcessState| is_completed(s)) {
                &&& r == JobProgress::Completed(states[last]->Completed_0)
                &&& final(shell).spec_jobs() == old(shell).spec_jobs().remove(id.0)
            } else if all_in_state(job.processes@, states, |s: ProcessState| is_stopped(s)) {
                &&& r == JobProgress::Stopped(states[last]->Stopped_0)
                &&& final(shell).spec_jobs() == old(shell).spec_jobs()
            } else {
                &&& r == JobProgress::Wait
                &&& final(shell).spec_jobs() == old(shell).spec_jobs()
            }
        }),
{
    let (completed, stopped, last) = {
        let job = shell.get_job(id).unwrap();
        proof {
            shell.lemma_wf_job(id.0);
        }
        let n = job.processes.len();
        (job.completed(shell), job.stopped(shell), job.processes[n - 1])
    };
    if completed {
        let status = match shell.get_process_state(last) {
            Some(ProcessState::Completed(s)) => *s,
            _ => 0,
        };
        destroy_job(shell, id);
        JobProgress::Completed(status)
    } else if stopped {
        let status = match shell.get_process_state(last) {
            Some(ProcessState::Stopped(s)) => *s,
            _ => 0,
        };
        JobProgress::Stopped(status)
    } else {
        JobProgress::Wait
    }
}

/// Removes the job `id`, and forgets it as the last foreground job.
pub fn destroy_job(shell: &mut Shell, id: JobId)
    requires
        old(shell).wf(),
    ensures
        final(shell).wf(),
        final(shell).spec_jobs() == old(shell).spec_jobs().remove(id.0),
        final(shell).spec_states() == old(shell).spec_states(),
        final(shell).spec_last_fore_job() == if old(shell).spec_last_fore_job() == Some(id) {
            None
        } else {
            old(shell).spec_last_fore_job()
        },
{
    shell.remove_job(id);
    if shell.last_fore_job() == Some(id) {
        shell.set_last_fore_job(None);
    }
}

} // verus!

//! Job control: what becomes of a job when one of its processes changes state.
use crate::effect::{Effect, EffectView, Effects, Pid, ShellMsg};
use crate::message;
use crate::request::{Request, RequestView};
use crate::worker::{ProcState, Worker, WorkerView};
use vstd::prelude::*;

verus! {

/// Why a system call failed, as far as it matters what is done next.
#[derive(Debug, Clone, Copy, PartialEq, Eq, Structural)]
pub enum ErrorKind {
    /// A signal came in between.
    Interrupted,
    /// There is no child process.
    NoChild,
    /// Anything else.
    Other,
}

/// A failed system call.
#[derive(Debug)]
pub struct SysError {
    /// Why it failed.
    pub kind: ErrorKind,
    /// The same in words.
    pub text: String,
}

/// How a child process has changed its state.
#[derive(Debug)]
pub enum WaitStatus {
    /// It has ended, with an exit code.
    Exited(Pid, i32),
    /// A signal has ended it: the signal's number and name, and whether memory was dumped.
    Signaled(Pid, u8, String, bool),
    /// It has stopped.
    Stopped(Pid),
    /// It has stopped for a tracer.
    Traced(Pid),
    /// It goes on.
    Continued(Pid),
    /// No child process has changed its state.
    StillAlive,
}

impl WorkerView {
    /// The shell takes the foreground, and reads on.
    pub open spec fn set_shell_fg(self) -> (WorkerView, Seq<EffectView>) {
        (
            WorkerView { fg: None, ..self },
            seq![
                EffectView::Foreground(self.shell_pgid),
                EffectView::Reply(ShellMsg::Continue(self.exit_val)),
            ],
        )
    }

    /// What becomes of a job after a change. Without a process it is over. Where it was in
    /// the foreground and is over, or has only stopped processes, the shell takes the
    /// foreground.
    pub open spec fn manage_job(self, job_id: usize, pgid: Pid) -> (WorkerView, Seq<EffectView>) {
        let line = self.jobs[job_id].1;
        let over = self.groups[pgid].1.is_empty();
        if self.fg == Some(pgid) && over {
            let (worker, effects) = self.remove_job(job_id).set_shell_fg();
            (worker, seq![EffectView::Stderr(message::finished(job_id, line))] + effects)
        } else if self.fg == Some(pgid) && self.group_stopped(pgid) {
            let (worker, effects) = self.set_shell_fg();
            (worker, seq![EffectView::Stderr(message::stopped(job_id, line))] + effects)
        } else if over {
            (
                self.remove_job(job_id),
                seq![EffectView::Stderr(message::finished_behind(job_id, line))],
            )
        } else {
            (self, Seq::empty())
        }
    }

    /// A process has ended.
    pub open spec fn process_term(self, pid: Pid) -> (WorkerView, Seq<EffectView>) {
        match self.home(pid) {
            Some((job_id, pgid)) => self.remove_pid(pid).manage_job(job_id, pgid),
            None => (self, Seq::empty()),
        }
    }

    /// A process has stopped.
    pub open spec fn process_stop(self, pid: Pid) -> (WorkerView, Seq<EffectView>) {
        let pgid = self.procs[pid].pgid;
        self.set_pid_state(pid, ProcState::Stop).manage_job(self.groups[pgid].0, pgid)
    }

    /// The exit code is noted.
    pub open spec fn with_exit_val(self, exit_val: i32) -> WorkerView {
        WorkerView { exit_val, ..self }
    }

    /// Waiting for a child process has come to a result: the worker after it, what is to be
    /// done, and what the worker waits for then.
    pub open spec fn wait_child(self, result: Result<WaitStatus, SysError>) -> (
        WorkerView,
        Seq<EffectView>,
        RequestView,
    ) {
        match result {
            Ok(WaitStatus::Exited(pid, status)) => {
                let (worker, effects) = self.with_exit_val(status).process_term(pid);
                (worker, effects, RequestView::Wait)
            },
            Ok(WaitStatus::Signaled(pid, signal, name, core)) => {
                let (worker, effects) = self.with_exit_val((signal + 128) as i32).process_term(pid);
                (
                    worker,
                    seq![EffectView::Stderr(message::killed(pid, name@, core))] + effects,
                    RequestView::Wait,
                )
            },
            Ok(WaitStatus::Stopped(pid)) | Ok(WaitStatus::Traced(pid)) => {
                let (worker, effects) = self.process_stop(pid);
                (worker, effects, RequestView::Wait)
            },
            Ok(WaitStatus::Continued(pid)) => (
                self.set_pid_state(pid, ProcState::Run),
                Seq::empty(),
                RequestView::Wait,
            ),
            Ok(WaitStatus::StillAlive) => (self, Seq::empty(), RequestView::Idle),
            Err(error) => match error.kind {
                ErrorKind::Interrupted => (self, Seq::empty(), RequestView::Wait),
                ErrorKind::NoChild => (self, Seq::empty(), RequestView::Idle),
                ErrorKind::Other => (
                    self,
                    seq![EffectView::Stderr("\nrush: waitが失敗: "@ + error.text@)],
                    RequestView::Exit(1),
                ),
            },
        }
    }

    /// A result of waiting that the tables can hold: a process that has stopped is known.
    pub open spec fn admits(self, result: Result<WaitStatus, SysError>) -> bool {
        match result {
            Ok(WaitStatus::Stopped(pid)) | Ok(WaitStatus::Traced(pid)) => self.procs.contains_key(
                pid,
            ),
            _ => true,
        }
    }
}

/// What one attempt at a system call comes to: nothing yet where a signal came in between,
/// for the call is made again then, and otherwise the attempt's own result.
pub fn syscall<T>(attempt: Result<T, SysError>) -> (r: Option<Result<T, SysError>>)
    ensures
        match r {
            None => attempt is Err && attempt->Err_0.kind == ErrorKind::Interrupted,
            Some(result) => result == attempt && (attempt is Err ==> attempt->Err_0.kind
                != ErrorKind::Interrupted),
        },
{
    match attempt {
        Err(error) => {
            if error.kind == ErrorKind::Interrupted {
                None
            } else {
                Some(Err(error))
            }
        },
        Ok(value) => Some(Ok(value)),
    }
}

impl Worker {
    /// The shell takes the foreground, and reads on.
    pub fn set_shell_fg(&mut self, effects: &mut Effects)
        ensures
            final(self)@ == old(self)@.set_shell_fg().0,
            final(effects)@ == old(effects)@ + old(self)@.set_shell_fg().1,
    {
        self.set_fg(None);
        effects.push(Effect::Foreground(self.shell_pgid()));
        effects.push(Effect::Reply(ShellMsg::Continue(self.exit_val())));
        assert(effects@ =~= old(effects)@ + old(self)@.set_shell_fg().1);
    }

    /// Looks after a job in whose process group something has changed.
    pub fn manage_job(&mut self, job_id: usize, pgid: Pid, effects: &mut Effects)
        requires
            old(self)@.wf(),
            old(self)@.groups.contains_key(pgid),
            old(self)@.groups[pgid].0 == job_id,
        ensures
            final(self)@ == old(self)@.manage_job(job_id, pgid).0,
            final(effects)@ == old(effects)@ + old(self)@.manage_job(job_id, pgid).1,
            final(self)@.wf(),
            old(self)@.settled_but(pgid) ==> final(self)@.settled(),
    {
        let is_fg = match self.fg() {
            Some(fg) => fg == pgid,
            None => false,
        };
        assert(self@.jobs.contains_key(self@.groups[pgid].0));
        assert(self@.group_known(pgid));
        let line = match self.job(job_id) {
            Some((_, line)) => line.to_owned(),
            None => String::new(),
        };
        if is_fg {
            if self.is_group_empty(pgid) {
                effects.push(Effect::Stderr(message::write_finished(job_id, line.as_str())));
                self.remove_job(job_id);
                self.set_shell_fg(effects);
            } else if let Some(true) = self.is_group_stop(pgid) {
                effects.push(Effect::Stderr(message::write_stopped(job_id, line.as_str())));
                self.set_shell_fg(effects);
            }
        } else if self.is_group_empty(pgid) {
            effects.push(Effect::Stderr(message::write_finished_behind(job_id, line.as_str())));
            self.remove_job(job_id);
        }
        assert(effects@ =~= old(effects)@ + old(self)@.manage_job(job_id, pgid).1);
    }

    /// A process has ended.
    pub fn process_term(&mut self, pid: Pid, effects: &mut Effects)
        requires
            old(self)@.wf(),
        ensures
            final(self)@ == old(self)@.process_term(pid).0,
            final(effects)@ == old(effects)@ + old(self)@.process_term(pid).1,
            final(self)@.wf(),
            old(self)@.settled() ==> final(self)@.settled(),
    {
        if let Some((job_id, pgid)) = self.remove_pid(pid) {
            self.manage_job(job_id, pgid, effects);
        } else {
            assert(effects@ =~= old(effects)@ + Seq::<EffectView>::empty());
        }
    }

    /// A process has stopped.
    pub fn process_stop(&mut self, pid: Pid, effects: &mut Effects)
        requires
            old(self)@.wf(),
            old(self)@.procs.contains_key(pid),
        ensures
            final(self)@ == old(self)@.process_stop(pid).0,
            final(effects)@ == old(effects)@ + old(self)@.process_stop(pid).1,
            final(self)@.wf(),
            old(self)@.settled() ==> final(self)@.settled(),
    {
        self.set_pid_state(pid, ProcState::Stop);
        if let Some((job_id, pgid)) = self.home_of(pid) {
            self.manage_job(job_id, pgid, effects);
        }
    }

    /// A process goes on.
    pub fn process_continue(&mut self, pid: Pid)
        ensures
            final(self)@ == old(self)@.set_pid_state(pid, ProcState::Run),
            old(self)@.wf() ==> final(self)@.wf(),
            old(self)@.settled() ==> final(self)@.settled(),
    {
        self.set_pid_state(pid, ProcState::Run);
    }

    /// Takes in what waiting for a child process has come to.
    pub fn wait_child<'a>(&mut self, result: Result<WaitStatus, SysError>, effects: &mut Effects) -> (r:
        Request<'a>)
        requires
            old(self)@.wf(),
            old(self)@.admits(result),
        ensures
            final(self)@ == old(self)@.wait_child(result).0,
            final(effects)@ == old(effects)@ + old(self)@.wait_child(result).1,
            r@ == old(self)@.wait_child(result).2,
            final(self)@.wf(),
            old(self)@.settled() ==> final(self)@.settled(),
    {
        let status = match syscall(result) {
            None => {
                assert(effects@ =~= old(effects)@ + Seq::<EffectView>::empty());
                return Request::Wait;
            },
            Some(Ok(status)) => status,
            Some(Err(error)) => {
                if error.kind == ErrorKind::NoChild {
                    assert(effects@ =~= old(effects)@ + Seq::<EffectView>::empty());
                    return Request::Idle;
                }
                effects.push(
                    Effect::Stderr(
                        message::write_pair("\nrush: waitが失敗: ", error.text.as_str()),
                    ),
                );
                assert(effects@ =~= old(effects)@ + old(self)@.wait_child(result).1);
                return Request::Exit(1);
            },
        };
        match status {
            WaitStatus::Exited(pid, status) => {
                self.set_exit_val(status);
                self.process_term(pid, effects);
                Request::Wait
            },
            WaitStatus::Signaled(pid, signal, name, core) => {
                effects.push(Effect::Stderr(message::write_killed(pid, name.as_str(), core)));
                self.set_exit_val(signal as i32 + 128);
                self.process_term(pid, effects);
                assert(effects@ =~= old(effects)@ + old(self)@.wait_child(result).1);
                Request::Wait
            },
            WaitStatus::Stopped(pid) => {
                self.process_stop(pid, effects);
                Request::Wait
            },
            WaitStatus::Traced(pid) => {
                self.process_stop(pid, effects);
                Request::Wait
            },
            WaitStatus::Continued(pid) => {
                self.process_continue(pid);
                assert(effects@ =~= old(effects)@ + Seq::<EffectView>::empty());
                Request::Wait
            },
            WaitStatus::StillAlive => {
                assert(effects@ =~= old(effects)@ + Seq::<EffectView>::empty());
                Request::Idle
            },
        }
    }
}

} // verus!

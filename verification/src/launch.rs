//! Starting a job: its files, its processes and its entry in the tables.
use crate::effect::{Effect, EffectView, Effects, Fd, Pid, ShellMsg};
use crate::message;
use crate::parser;
use crate::request::{Process, Request, RequestView, Spawn, SpawnView};
use crate::text;
use crate::worker::{ProcInfo, ProcState, Worker, WorkerView};
use std::collections::HashMap;
use vstd::prelude::*;

verus! {

/// Whether a command stands for the redirection of the output of the one before it.
pub open spec fn is_redirect(cmd: parser::CommandView) -> bool {
    cmd.0 == ">"@
}

impl SpawnView {
    /// One command, or two.
    pub open spec fn wf(self) -> bool {
        1 <= self.cmd.len() <= 2
    }

    /// Whether the output of one process is the input of another.
    pub open spec fn is_pipe(self) -> bool {
        self.cmd.len() == 2 && !is_redirect(self.cmd[1])
    }

    /// Whether the job is complete with the next process.
    pub open spec fn is_last(self) -> bool {
        self.first is Some || !self.is_pipe()
    }

    /// The process group for the job's next process; zero for one of its own.
    pub open spec fn group(self) -> Pid {
        match self.first {
            Some(first) => first,
            None => 0,
        }
    }

    /// The job's process group, which its first process leads, when `child` is its next
    /// process.
    pub open spec fn pgid(self, child: Pid) -> Pid {
        match self.first {
            Some(first) => first,
            None => child,
        }
    }

    /// The job's processes when `child` is its last one: all of them run.
    pub open spec fn pids(self, child: Pid) -> Map<Pid, ProcInfo> {
        let pgid = self.pgid(child);
        let info = ProcInfo { state: ProcState::Run, pgid };
        Map::empty().insert(pgid, info).insert(child, info)
    }

    /// Closing the files that the shell holds for the job.
    pub open spec fn closes(self) -> Seq<EffectView> {
        let input = match self.input {
            Some(fd) => seq![EffectView::Close(fd)],
            None => Seq::empty(),
        };
        let output = match self.output {
            Some(fd) => seq![EffectView::Close(fd)],
            None => Seq::empty(),
        };
        input + output
    }

    /// Giving the job up, with a message.
    pub open spec fn given_up(self, text: Seq<char>) -> (Seq<EffectView>, Option<RequestView>) {
        (seq![EffectView::Stderr(text)] + self.closes(), None)
    }

    /// The job's files are there: its first process comes next, unless its first command is
    /// a redirection.
    pub open spec fn fork_first(self) -> (Seq<EffectView>, Option<RequestView>) {
        if self.cmd.len() == 2 && is_redirect(self.cmd[0]) {
            self.given_up("rush: 無効なリダイレクト"@)
        } else {
            let process = Process { pgid: 0, program: 0, input: None, output: self.output };
            (Seq::empty(), Some(RequestView::Fork(self, process)))
        }
    }
}

impl WorkerView {
    /// Starting a job: what is to be done, and what the worker waits for next; none where
    /// the job cannot be started.
    pub open spec fn spawn_child(self, line: Seq<char>, cmd: Seq<parser::CommandView>) -> (
        Seq<EffectView>,
        Option<RequestView>,
    ) {
        match self.new_job_id() {
            None => (
                seq![EffectView::Stderr("rush: 管理可能なジョブの最大値に到達"@)],
                None,
            ),
            Some(job_id) => {
                let spawn = SpawnView {
                    line,
                    cmd,
                    job_id,
                    input: None,
                    output: None,
                    first: None,
                };
                if cmd.len() > 2 {
                    (
                        seq![
                            EffectView::Stderr(
                                "rush: 3つ以上のコマンドによるパイプはサポートしていません｡"@,
                            ),
                        ],
                        None,
                    )
                } else if spawn.is_pipe() {
                    (Seq::empty(), Some(RequestView::Pipe(spawn)))
                } else if cmd.len() == 2 && cmd[1].1.len() != 2 {
                    spawn.given_up("rush: 無効なリダイレクト"@)
                } else if cmd.len() == 2 {
                    (Seq::empty(), Some(RequestView::Open(spawn, cmd[1].1[1])))
                } else {
                    spawn.fork_first()
                }
            },
        }
    }

    /// Whether the tables have room for the job once `child` runs: neither its number nor
    /// its process group nor one of its processes is in them. Asked only where the job is
    /// complete then.
    pub open spec fn has_room(self, spawn: SpawnView, child: Pid) -> bool {
        spawn.is_last() ==> {
            &&& !self.jobs.contains_key(spawn.job_id)
            &&& !self.groups.contains_key(spawn.pgid(child))
            &&& !self.procs.contains_key(spawn.pgid(child))
            &&& !self.procs.contains_key(child)
        }
    }

    /// The job runs, in the foreground.
    pub open spec fn registered(self, spawn: SpawnView, child: Pid) -> WorkerView {
        let pgid = spawn.pgid(child);
        (WorkerView { fg: Some(pgid), ..self }).insert_job(
            spawn.job_id,
            pgid,
            spawn.pids(child),
            spawn.line,
        )
    }

    /// A process of the job was to be started. Where it was, it is put into the job's process
    /// group, and the next one comes, or else the job runs. This is the worker after it, what
    /// is to be done, and what the worker waits for next; none where the job is given up.
    pub open spec fn forked(self, spawn: SpawnView, result: Result<Pid, Seq<char>>) -> (
        WorkerView,
        (Seq<EffectView>, Option<RequestView>),
    ) {
        match result {
            Ok(child) => if spawn.is_last() {
                (
                    self.registered(spawn, child),
                    (
                        seq![EffectView::Join(child, spawn.group())] + spawn.closes().push(
                            EffectView::Foreground(spawn.pgid(child)),
                        ),
                        Some(RequestView::Idle),
                    ),
                )
            } else {
                let process = Process {
                    pgid: child,
                    program: 1,
                    input: spawn.input,
                    output: None,
                };
                let next = SpawnView { first: Some(child), ..spawn };
                (
                    self,
                    (
                        seq![EffectView::Join(child, spawn.group())],
                        Some(RequestView::Fork(next, process)),
                    ),
                )
            },
            Err(text) => if spawn.first is None {
                (self, spawn.given_up("rush: プロセス生成エラー: "@ + text))
            } else {
                (self, spawn.given_up("rush:プロセス生成エラー"@ + text))
            },
        }
    }

    /// The two ends of a pipe are there: what is to be done, and what the worker waits for next.
    pub open spec fn piped(self, spawn: SpawnView, input: Fd, output: Fd) -> (
        Seq<EffectView>,
        RequestView,
    ) {
        let next = SpawnView { input: Some(input), output: Some(output), ..spawn };
        self.answered(next.fork_first())
    }

    /// The file for the output is there: what is to be done, and what the worker waits for
    /// next.
    pub open spec fn opened(self, spawn: SpawnView, output: Fd) -> (Seq<EffectView>, RequestView) {
        let next = SpawnView { output: Some(output), ..spawn };
        self.answered(next.fork_first())
    }

    /// A job that cannot be started is answered at once; otherwise the answer comes when the
    /// job leaves the foreground.
    pub open spec fn answered(self, launch: (Seq<EffectView>, Option<RequestView>)) -> (
        Seq<EffectView>,
        RequestView,
    ) {
        match launch.1 {
            Some(request) => (launch.0, request),
            None => (
                launch.0.push(EffectView::Reply(ShellMsg::Continue(self.exit_val))),
                RequestView::Idle,
            ),
        }
    }
}

/// A `Result` with the text of its error as a sequence of characters.
pub open spec fn outcome<T>(result: Result<T, String>) -> Result<T, Seq<char>> {
    match result {
        Ok(value) => Ok(value),
        Err(text) => Err(text@),
    }
}

impl<'a> Spawn<'a> {
    /// Closes the files that the shell holds for the job.
    fn close(&self, effects: &mut Effects)
        ensures
            final(effects)@ == old(effects)@ + self@.closes(),
    {
        if let Some(fd) = self.input {
            effects.push(Effect::Close(fd));
        }
        if let Some(fd) = self.output {
            effects.push(Effect::Close(fd));
        }
        assert(effects@ =~= old(effects)@ + self@.closes());
    }

    /// Whether the output of one process is the input of another.
    fn is_pipe(&self) -> (r: bool)
        requires
            self@.wf(),
        ensures
            r == self@.is_pipe(),
    {
        self.cmd.len() == 2 && !text::same(self.cmd[1].0, ">")
    }

    /// The job's files are there: asks for its first process.
    fn fork_first(self, effects: &mut Effects) -> (r: Option<Request<'a>>)
        requires
            self@.wf(),
        ensures
            final(effects)@ == old(effects)@ + self@.fork_first().0,
            r is Some == self@.fork_first().1 is Some,
            r is Some ==> r->0@ == self@.fork_first().1->0,
    {
        if self.cmd.len() == 2 && text::same(self.cmd[0].0, ">") {
            effects.push(Effect::Stderr("rush: 無効なリダイレクト".to_owned()));
            self.close(effects);
            assert(effects@ =~= old(effects)@ + self@.fork_first().0);
            return None;
        }
        assert(effects@ =~= old(effects)@ + Seq::<EffectView>::empty());
        let process = Process { pgid: 0, program: 0, input: None, output: self.output };
        Some(Request::Fork(self, process))
    }
}

impl Worker {
    /// Begins to start a job. None where that fails; the shell is to read on then.
    pub fn spawn_child<'a>(
        &self,
        line: &'a str,
        cmd: Vec<(&'a str, Vec<&'a str>)>,
        effects: &mut Effects,
    ) -> (r: Option<Request<'a>>)
        requires
            cmd@.len() != 0,
        ensures
            final(effects)@ == old(effects)@ + self@.spawn_child(
                line@,
                parser::commands(cmd@),
            ).0,
            r is Some == self@.spawn_child(line@, parser::commands(cmd@)).1 is Some,
            r is Some ==> r->0@ == self@.spawn_child(line@, parser::commands(cmd@)).1->0,
    {
        let ghost expected = self@.spawn_child(line@, parser::commands(cmd@)).0;
        let job_id = match self.get_new_job_id() {
            Some(job_id) => job_id,
            None => {
                effects.push(
                    Effect::Stderr("rush: 管理可能なジョブの最大値に到達".to_owned()),
                );
                assert(effects@ =~= old(effects)@ + expected);
                return None;
            },
        };
        if cmd.len() > 2 {
            effects.push(
                Effect::Stderr(
                    "rush: 3つ以上のコマンドによるパイプはサポートしていません｡".to_owned(),
                ),
            );
            assert(effects@ =~= old(effects)@ + expected);
            return None;
        }
        let spawn = Spawn { line, cmd, job_id, input: None, output: None, first: None };
        if spawn.cmd.len() == 2 {
            if spawn.is_pipe() {
                assert(effects@ =~= old(effects)@ + expected);
                return Some(Request::Pipe(spawn));
            }
            if spawn.cmd[1].1.len() != 2 {
                effects.push(Effect::Stderr("rush: 無効なリダイレクト".to_owned()));
                assert(effects@ =~= old(effects)@ + expected);
                return None;
            }
            let path: &'a str = spawn.cmd[1].1[1];
            assert(effects@ =~= old(effects)@ + expected);
            return Some(Request::Open(spawn, path));
        }
        spawn.fork_first(effects)
    }

    /// Answers the command line where its job could not be started.
    fn answer<'a>(&self, launch: Option<Request<'a>>, effects: &mut Effects) -> (r: Request<'a>)
        ensures
            match launch {
                Some(request) => r == request && final(effects)@ == old(effects)@,
                None => r == Request::Idle && final(effects)@ == old(effects)@.push(
                    EffectView::Reply(ShellMsg::Continue(self@.exit_val)),
                ),
            },
    {
        match launch {
            Some(request) => request,
            None => {
                effects.push(Effect::Reply(ShellMsg::Continue(self.exit_val())));
                Request::Idle
            },
        }
    }

    /// Starts a job, and answers the command line where that fails at once.
    pub fn launch<'a>(
        &self,
        line: &'a str,
        cmd: Vec<(&'a str, Vec<&'a str>)>,
        effects: &mut Effects,
    ) -> (r: Request<'a>)
        requires
            cmd@.len() != 0,
        ensures
            final(effects)@ == old(effects)@ + self@.answered(
                self@.spawn_child(line@, parser::commands(cmd@)),
            ).0,
            r@ == self@.answered(self@.spawn_child(line@, parser::commands(cmd@))).1,
    {
        let ghost launch = self@.spawn_child(line@, parser::commands(cmd@));
        let request = self.spawn_child(line, cmd, effects);
        let r = self.answer(request, effects);
        assert(effects@ =~= old(effects)@ + self@.answered(launch).0);
        r
    }

    /// Goes on with the two ends of a new pipe: that to read from, and that to write to.
    pub fn piped<'a>(&self, spawn: Spawn<'a>, input: Fd, output: Fd, effects: &mut Effects) -> (r:
        Request<'a>)
        requires
            spawn@.wf(),
        ensures
            final(effects)@ == old(effects)@ + self@.piped(spawn@, input, output).0,
            r@ == self@.piped(spawn@, input, output).1,
    {
        let next = Spawn { input: Some(input), output: Some(output), ..spawn };
        let ghost launch = next@.fork_first();
        assert(next@ == (SpawnView { input: Some(input), output: Some(output), ..spawn@ }));
        let request = next.fork_first(effects);
        let r = self.answer(request, effects);
        assert(effects@ =~= old(effects)@ + self@.answered(launch).0);
        r
    }

    /// Goes on with the file that takes the output.
    pub fn opened<'a>(&self, spawn: Spawn<'a>, output: Fd, effects: &mut Effects) -> (r: Request<'a>)
        requires
            spawn@.wf(),
        ensures
            final(effects)@ == old(effects)@ + self@.opened(spawn@, output).0,
            r@ == self@.opened(spawn@, output).1,
    {
        let next = Spawn { output: Some(output), ..spawn };
        let ghost launch = next@.fork_first();
        assert(next@ == (SpawnView { output: Some(output), ..spawn@ }));
        let request = next.fork_first(effects);
        let r = self.answer(request, effects);
        assert(effects@ =~= old(effects)@ + self@.answered(launch).0);
        r
    }

    /// Whether the tables have room for a job once its process `child` runs.
    pub fn has_room<'a>(&self, spawn: &Spawn<'a>, child: Pid) -> (r: bool)
        requires
            spawn@.wf(),
        ensures
            r == self@.has_room(spawn@, child),
    {
        let pgid = match spawn.first {
            Some(first) => first,
            None => {
                if spawn.is_pipe() {
                    return true;
                }
                child
            },
        };
        self.job(spawn.job_id).is_none() && !self.has_group(pgid) && !self.knows(pgid)
            && !self.knows(child)
    }

    /// Enters a job whose last process has just been started, and brings it to the
    /// foreground.
    fn register<'a>(&mut self, spawn: Spawn<'a>, child: Pid, effects: &mut Effects)
        requires
            old(self)@.has_room(spawn@, child),
            spawn@.is_last(),
        ensures
            final(self)@ == old(self)@.registered(spawn@, child),
            final(effects)@ == old(effects)@ + spawn@.closes().push(
                EffectView::Foreground(spawn@.pgid(child)),
            ),
    {
        let pgid = match spawn.first {
            Some(first) => first,
            None => child,
        };
        let info = ProcInfo { state: ProcState::Run, pgid };
        let mut pids: HashMap<Pid, ProcInfo> = HashMap::new();
        pids.insert(pgid, info);
        pids.insert(child, info);
        assert(pids@ == spawn@.pids(child));
        spawn.close(effects);
        self.set_fg(Some(pgid));
        self.insert_job(spawn.job_id, pgid, pids, spawn.line);
        effects.push(Effect::Foreground(pgid));
        assert(effects@ =~= old(effects)@ + spawn@.closes().push(EffectView::Foreground(pgid)));
    }

    /// Goes on with a process of the job, or with why it could not be started.
    pub fn forked<'a>(
        &mut self,
        spawn: Spawn<'a>,
        result: Result<Pid, String>,
        effects: &mut Effects,
    ) -> (r: Request<'a>)
        requires
            old(self)@.wf(),
            spawn@.wf(),
            result matches Ok(child) ==> old(self)@.has_room(spawn@, child),
        ensures
            ({
                let (worker, launch) = old(self)@.forked(spawn@, outcome(result));
                &&& final(self)@ == worker
                &&& final(effects)@ == old(effects)@ + worker.answered(launch).0
                &&& r@ == worker.answered(launch).1
            }),
            final(self)@.wf(),
            old(self)@.settled() ==> final(self)@.settled(),
    {
        let ghost (worker, launch) = self@.forked(spawn@, outcome(result));
        let child = match result {
            Ok(child) => child,
            Err(text) => {
                if spawn.first.is_none() {
                    effects.push(
                        Effect::Stderr(
                            message::write_pair("rush: プロセス生成エラー: ", text.as_str()),
                        ),
                    );
                } else {
                    effects.push(
                        Effect::Stderr(
                            message::write_pair("rush:プロセス生成エラー", text.as_str()),
                        ),
                    );
                }
                spawn.close(effects);
                let r = self.answer(None, effects);
                assert(effects@ =~= old(effects)@ + worker.answered(launch).0);
                return r;
            },
        };
        let group: Pid = match spawn.first {
            Some(first) => first,
            None => 0,
        };
        effects.push(Effect::Join(child, group));
        if spawn.first.is_none() && spawn.is_pipe() {
            let process = Process { pgid: child, program: 1, input: spawn.input, output: None };
            let next = Spawn { first: Some(child), ..spawn };
            assert(next@ == (SpawnView { first: Some(child), ..spawn@ }));
            assert(effects@ =~= old(effects)@ + worker.answered(launch).0);
            return Request::Fork(next, process);
        }
        self.register(spawn, child, effects);
        proof {
            lemma_registered(old(self)@, spawn@, child);
            assert(effects@ =~= old(effects)@ + worker.answered(launch).0);
        }
        Request::Idle
    }
}

/// A job that is entered leaves the tables in agreement.
proof fn lemma_registered(worker: WorkerView, spawn: SpawnView, child: Pid)
    requires
        worker.wf(),
        worker.has_room(spawn, child),
        spawn.is_last(),
    ensures
        worker.registered(spawn, child).wf(),
        worker.settled() ==> worker.registered(spawn, child).settled(),
{
    let next = worker.registered(spawn, child);
    let pids = spawn.pids(child);
    assert(pids.dom().contains(child));
    assert forall|pgid: Pid, pid: Pid|
        next.groups.contains_key(pgid) && #[trigger] next.groups[pgid].1.contains(
            pid,
        ) implies next.procs.contains_key(pid) && next.procs[pid].pgid == pgid by {
        if pgid != spawn.pgid(child) {
            assert(worker.groups[pgid].1.contains(pid));
        }
    }
    assert forall|pid: Pid| #[trigger] next.procs.contains_key(pid) implies next.groups.contains_key(
        next.procs[pid].pgid,
    ) && next.groups[next.procs[pid].pgid].1.contains(pid) by {
        if !pids.contains_key(pid) {
            assert(worker.procs.contains_key(pid));
        }
    }
}

} // verus!

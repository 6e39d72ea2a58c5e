//! The commands that the worker carries out itself: `exit`, `jobs`, `fg` and `cd`.
use crate::effect::{Effect, EffectView, Effects, ShellMsg};
use crate::launch;
use crate::message;
use crate::number;
use crate::parser;
use crate::request::{Request, RequestView};
use crate::text;
use crate::worker;
use crate::worker::{Worker, WorkerView};
use vstd::prelude::*;

verus! {

/// What has become of a command line that may be one built-in command.
#[derive(Debug, Clone, Copy)]
pub enum BuiltIn<'a> {
    /// It has been carried out.
    Done,
    /// It is a pipeline or names no built-in command; it is to become a job.
    NotDone,
    /// It is carried out once the working directory has been changed to this one, or not.
    ChangeDir(&'a str),
}

/// What has become of a command line, with texts as sequences of characters.
pub enum BuiltInView {
    Done,
    NotDone,
    ChangeDir(Seq<char>),
}

impl<'a> View for BuiltIn<'a> {
    type V = BuiltInView;

    open spec fn view(&self) -> BuiltInView {
        match *self {
            BuiltIn::Done => BuiltInView::Done,
            BuiltIn::NotDone => BuiltInView::NotDone,
            BuiltIn::ChangeDir(dir) => BuiltInView::ChangeDir(dir@),
        }
    }
}

impl WorkerView {
    /// The answer that the shell reads on.
    pub open spec fn read_on(self) -> EffectView {
        EffectView::Reply(ShellMsg::Continue(self.exit_val))
    }

    /// A command that fails with a message: the exit code is 1, and the shell reads on.
    pub open spec fn failed(self, text: Seq<char>) -> (WorkerView, Seq<EffectView>) {
        let worker = self.with_exit_val(1);
        (worker, seq![EffectView::Stderr(text), worker.read_on()])
    }

    /// `exit`: the shell is left with the exit code that the argument gives, or else with the
    /// last one. It is not left while there is a job, nor where the argument is no number.
    pub open spec fn run_exit(self, args: Seq<Seq<char>>) -> (WorkerView, Seq<EffectView>) {
        if !self.jobs.is_empty() {
            self.failed("ジョブが実行中なので終了できません"@)
        } else if args.len() < 2 {
            (self, seq![EffectView::Reply(ShellMsg::Quit(self.exit_val))])
        } else {
            match number::read_i32(args[1]) {
                Some(code) => (self, seq![EffectView::Reply(ShellMsg::Quit(code))]),
                None => self.failed(args[1] + "は不正な引数です"@),
            }
        }
    }

    /// `fg`: the job that the argument names goes on in the foreground. The exit code is 1
    /// until the job gives another.
    pub open spec fn run_fg(self, args: Seq<Seq<char>>) -> (WorkerView, Seq<EffectView>) {
        if args.len() < 2 {
            self.failed("usage: fg 数字"@)
        } else {
            match number::read_usize(args[1]) {
                Some(job_id) if self.jobs.contains_key(job_id) => {
                    let (pgid, line) = self.jobs[job_id];
                    (
                        WorkerView { exit_val: 1, fg: Some(pgid), ..self },
                        seq![
                            EffectView::Stderr(message::resumed(job_id, line)),
                            EffectView::Foreground(pgid),
                            EffectView::Resume(pgid),
                        ],
                    )
                },
                _ => self.failed(args[1] + "というジョブは見つかりませんでした"@),
            }
        }
    }

    /// The line of the list of jobs for one of them.
    pub open spec fn job_line(self, job_id: usize) -> EffectView {
        let (pgid, line) = self.jobs[job_id];
        EffectView::Stdout(message::listed(job_id, self.group_stopped(pgid), line))
    }

    /// `jobs`: the jobs are listed by their numbers, from the lowest to the highest.
    pub open spec fn run_jobs(self) -> (WorkerView, Seq<EffectView>) {
        let worker = self.with_exit_val(0);
        let lines = worker::ascending(self.jobs.dom(), usize::MAX as nat + 1).map_values(
            |job_id: usize| self.job_line(job_id),
        );
        (worker, lines.push(worker.read_on()))
    }

    /// `cd`: the directory to change to is the argument. Without one there is only a message.
    pub open spec fn run_cd(self, args: Seq<Seq<char>>) -> (Seq<EffectView>, Option<Seq<char>>) {
        if args.len() < 2 {
            (seq![EffectView::Stderr("cd [移動先]"@)], None)
        } else {
            (Seq::empty(), Some(args[1]))
        }
    }

    /// The working directory was to be changed: the worker after it, what is to be done, and
    /// what the worker waits for then. The shell reads on, whatever came of it.
    pub open spec fn changed_dir(self, result: Result<(), Seq<char>>) -> (
        WorkerView,
        Seq<EffectView>,
        RequestView,
    ) {
        match result {
            Ok(()) => {
                let worker = self.with_exit_val(0);
                (worker, seq![worker.read_on()], RequestView::Idle)
            },
            Err(text) => {
                let (worker, effects) = self.failed(
                    "ディレクトリの移動に失敗しました｡ "@ + text,
                );
                (worker, effects, RequestView::Idle)
            },
        }
    }

    /// A command line that may be one built-in command: the worker after it, what is to be
    /// done, and what has become of it. A pipeline is never one. A built-in command is carried
    /// out here, whether it succeeds or not.
    pub open spec fn built_in_cmd(self, cmd: Seq<parser::CommandView>) -> (
        WorkerView,
        Seq<EffectView>,
        BuiltInView,
    ) {
        if cmd.len() > 1 {
            (self, Seq::empty(), BuiltInView::NotDone)
        } else if cmd[0].0 == "exit"@ {
            let (worker, effects) = self.run_exit(cmd[0].1);
            (worker, effects, BuiltInView::Done)
        } else if cmd[0].0 == "jobs"@ {
            let (worker, effects) = self.run_jobs();
            (worker, effects, BuiltInView::Done)
        } else if cmd[0].0 == "fg"@ {
            let (worker, effects) = self.run_fg(cmd[0].1);
            (worker, effects, BuiltInView::Done)
        } else if cmd[0].0 == "cd"@ {
            let (effects, dir) = self.run_cd(cmd[0].1);
            match dir {
                Some(dir) => (self, effects, BuiltInView::ChangeDir(dir)),
                None => (self, effects.push(self.read_on()), BuiltInView::Done),
            }
        } else {
            (self, Seq::empty(), BuiltInView::NotDone)
        }
    }
}

impl Worker {
    /// Has the shell read on.
    pub(crate) fn read_on(&self, effects: &mut Effects)
        ensures
            final(effects)@ == old(effects)@.push(self@.read_on()),
    {
        effects.push(Effect::Reply(ShellMsg::Continue(self.exit_val())));
    }

    /// Fails with a message.
    fn fail(&mut self, text: String, effects: &mut Effects)
        ensures
            final(self)@ == old(self)@.failed(text@).0,
            final(effects)@ == old(effects)@ + old(self)@.failed(text@).1,
    {
        let ghost expected = self@.failed(text@).1;
        self.set_exit_val(1);
        effects.push(Effect::Stderr(text));
        self.read_on(effects);
        assert(effects@ =~= old(effects)@ + expected);
    }

    /// Carries out `exit`.
    pub fn run_exit(&mut self, args: &Vec<&str>, effects: &mut Effects)
        ensures
            final(self)@ == old(self)@.run_exit(text::texts(args@)).0,
            final(effects)@ == old(effects)@ + old(self)@.run_exit(text::texts(args@)).1,
    {
        if !self.no_jobs() {
            self.fail("ジョブが実行中なので終了できません".to_owned(), effects);
            return;
        }
        let exit_val = if args.len() > 1 {
            match number::parse_i32(args[1]) {
                Some(code) => code,
                None => {
                    self.fail(message::write_pair(args[1], "は不正な引数です"), effects);
                    return;
                },
            }
        } else {
            self.exit_val()
        };
        effects.push(Effect::Reply(ShellMsg::Quit(exit_val)));
        assert(effects@ =~= old(effects)@ + old(self)@.run_exit(text::texts(args@)).1);
    }

    /// Carries out `fg`.
    pub fn run_fg(&mut self, args: &Vec<&str>, effects: &mut Effects)
        ensures
            final(self)@ == old(self)@.run_fg(text::texts(args@)).0,
            final(effects)@ == old(effects)@ + old(self)@.run_fg(text::texts(args@)).1,
            old(self)@.wf() ==> final(self)@.wf(),
    {
        if args.len() < 2 {
            self.fail("usage: fg 数字".to_owned(), effects);
            return;
        }
        if let Some(job_id) = number::parse_usize(args[1]) {
            if let Some((pgid, line)) = self.job(job_id) {
                effects.push(Effect::Stderr(message::write_resumed(job_id, line)));
                self.set_exit_val(1);
                self.set_fg(Some(pgid));
                effects.push(Effect::Foreground(pgid));
                effects.push(Effect::Resume(pgid));
                assert(effects@ =~= old(effects)@ + old(self)@.run_fg(text::texts(args@)).1);
                return;
            }
        }
        self.fail(message::write_pair(args[1], "というジョブは見つかりませんでした"), effects);
    }

    /// Carries out `jobs`.
    pub fn run_jobs(&mut self, effects: &mut Effects)
        requires
            old(self)@.wf(),
        ensures
            final(self)@ == old(self)@.run_jobs().0,
            final(effects)@ == old(effects)@ + old(self)@.run_jobs().1,
    {
        let job_ids = self.job_ids();
        let ghost line = |job_id: usize| old(self)@.job_line(job_id);
        let ghost lines = job_ids@.map_values(line);
        proof {
            worker::lemma_ascending_members(self@.jobs.dom(), usize::MAX as nat + 1);
        }
        let mut i: usize = 0;
        while i < job_ids.len()
            invariant
                i <= job_ids.len(),
                self@ == old(self)@,
                self@.wf(),
                forall|k: int| 0 <= k < job_ids@.len() ==> self@.jobs.contains_key(#[trigger] job_ids@[k]),
                line == (|job_id: usize| old(self)@.job_line(job_id)),
                lines == job_ids@.map_values(line),
                effects@ == old(effects)@ + lines.take(i as int),
            decreases job_ids.len() - i,
        {
            let job_id = job_ids[i];
            if let Some((pgid, text)) = self.job(job_id) {
                assert(self@.groups.contains_key(pgid));
                assert(self@.group_known(pgid));
                let stopped = match self.is_group_stop(pgid) {
                    Some(stopped) => stopped,
                    None => false,
                };
                effects.push(Effect::Stdout(message::write_listed(job_id, stopped, text)));
            }
            assert(lines.take(i + 1) =~= lines.take(i as int).push(lines[i as int]));
            i = i + 1;
        }
        self.set_exit_val(0);
        self.read_on(effects);
        assert(lines.take(i as int) =~= lines);
        assert(effects@ =~= old(effects)@ + old(self)@.run_jobs().1);
    }

    /// Begins to carry out `cd`: the directory to change to. None where there is none, with a
    /// message that says so.
    pub fn run_cd<'a>(&self, args: &Vec<&'a str>, effects: &mut Effects) -> (r: Option<&'a str>)
        ensures
            final(effects)@ == old(effects)@ + self@.run_cd(text::texts(args@)).0,
            match r {
                Some(dir) => self@.run_cd(text::texts(args@)).1 == Some(dir@),
                None => self@.run_cd(text::texts(args@)).1 is None,
            },
    {
        if args.len() < 2 {
            effects.push(Effect::Stderr("cd [移動先]".to_owned()));
            assert(effects@ =~= old(effects)@ + self@.run_cd(text::texts(args@)).0);
            return None;
        }
        assert(effects@ =~= old(effects)@ + self@.run_cd(text::texts(args@)).0);
        Some(args[1])
    }

    /// Goes on with the outcome of changing the directory.
    pub fn changed_dir<'a>(&mut self, result: Result<(), String>, effects: &mut Effects) -> (r:
        Request<'a>)
        ensures
            final(self)@ == old(self)@.changed_dir(launch::outcome(result)).0,
            final(effects)@ == old(effects)@ + old(self)@.changed_dir(launch::outcome(result)).1,
            r@ == old(self)@.changed_dir(launch::outcome(result)).2,
            old(self)@.wf() ==> final(self)@.wf(),
            old(self)@.settled() ==> final(self)@.settled(),
    {
        let ghost done = self@.changed_dir(launch::outcome(result)).1;
        match result {
            Ok(()) => {
                self.set_exit_val(0);
                self.read_on(effects);
                assert(effects@ =~= old(effects)@ + done);
            },
            Err(text) => {
                self.fail(
                    message::write_pair(
                        "ディレクトリの移動に失敗しました｡ ",
                        text.as_str(),
                    ),
                    effects,
                );
            },
        }
        Request::Idle
    }

    /// Carries out a command line that is one built-in command.
    pub fn built_in_cmd<'a>(
        &mut self,
        cmd: &Vec<(&'a str, Vec<&'a str>)>,
        effects: &mut Effects,
    ) -> (r: BuiltIn<'a>)
        requires
            old(self)@.wf(),
            cmd@.len() != 0,
        ensures
            final(self)@ == old(self)@.built_in_cmd(parser::commands(cmd@)).0,
            final(effects)@ == old(effects)@ + old(self)@.built_in_cmd(parser::commands(cmd@)).1,
            r@ == old(self)@.built_in_cmd(parser::commands(cmd@)).2,
            final(self)@.wf(),
            old(self)@.settled() ==> final(self)@.settled(),
    {
        assert(effects@ =~= old(effects)@ + Seq::<EffectView>::empty());
        if cmd.len() > 1 {
            return BuiltIn::NotDone;
        }
        let name = cmd[0].0;
        if text::same(name, "exit") {
            self.run_exit(&cmd[0].1, effects);
            BuiltIn::Done
        } else if text::same(name, "jobs") {
            self.run_jobs(effects);
            BuiltIn::Done
        } else if text::same(name, "fg") {
            self.run_fg(&cmd[0].1, effects);
            BuiltIn::Done
        } else if text::same(name, "cd") {
            match self.run_cd(&cmd[0].1, effects) {
                Some(dir) => BuiltIn::ChangeDir(dir),
                None => {
                    self.read_on(effects);
                    assert(effects@ =~= old(effects)@ + old(self)@.built_in_cmd(
                        parser::commands(cmd@),
                    ).1);
                    BuiltIn::Done
                },
            }
        } else {
            BuiltIn::NotDone
        }
    }
}

/// What has become of a command line, its view says.
pub proof fn law_built_in_view(built_in: BuiltIn)
    ensures
        match built_in {
            BuiltIn::Done => built_in@ is Done,
            BuiltIn::NotDone => built_in@ is NotDone,
            BuiltIn::ChangeDir(dir) => built_in@ == BuiltInView::ChangeDir(dir@),
        },
{
}

} // verus!

//! What holds of the worker and of the shell as a whole.
use crate::control::{SysError, WaitStatus};
use crate::dispatch::{Sig, WorkerMsg};
use crate::effect::{EffectView, Fd, Pid, ShellMsg};
use crate::message;
use crate::number;
use crate::parser;
use crate::request::{Process, RequestView, SpawnView};
use crate::shell;
use crate::shell::{Event, Input, Stage, TaskView};
use crate::text;
use crate::worker;
use crate::worker::{ProcInfo, ProcState, WorkerView};
use vstd::prelude::*;

verus! {

/// How many answers there are among things to do.
pub open spec fn replies(effects: Seq<EffectView>) -> nat
    decreases effects.len(),
{
    if effects.len() == 0 {
        0
    } else if effects.last() is Reply {
        replies(effects.drop_last()) + 1
    } else {
        replies(effects.drop_last())
    }
}

/// Whether a worker is in the middle of carrying out a command line.
pub open spec fn is_busy(request: RequestView) -> bool {
    match request {
        RequestView::ChangeDir(_) | RequestView::Pipe(_) | RequestView::Open(_, _)
        | RequestView::Fork(_, _) => true,
        RequestView::Idle | RequestView::Wait | RequestView::Exit(_) => false,
    }
}

/// How many answers a worker still owes. It owes one while it carries out a command line, and
/// then as long as a job is in the foreground.
pub open spec fn owed(worker: WorkerView, request: RequestView) -> nat {
    if is_busy(request) || worker.fg is Some {
        1
    } else {
        0
    }
}

/// The terminal's foreground process group after things are done.
pub open spec fn terminal(before: Pid, effects: Seq<EffectView>) -> Pid
    decreases effects.len(),
{
    if effects.len() == 0 {
        before
    } else if effects.last() is Foreground {
        effects.last()->Foreground_0
    } else {
        terminal(before, effects.drop_last())
    }
}

/// The process group that a worker holds to be in the foreground.
pub open spec fn foreground(worker: WorkerView) -> Pid {
    match worker.fg {
        Some(pgid) => pgid,
        None => worker.shell_pgid,
    }
}

/// The files that are closed, in order.
pub open spec fn closed_files(effects: Seq<EffectView>) -> Seq<Fd>
    decreases effects.len(),
{
    if effects.len() == 0 {
        Seq::empty()
    } else if effects.last() is Close {
        closed_files(effects.drop_last()).push(effects.last()->Close_0)
    } else {
        closed_files(effects.drop_last())
    }
}

/// The files that the shell holds for a job.
pub open spec fn job_files(spawn: SpawnView) -> Seq<Fd> {
    let input = match spawn.input {
        Some(fd) => seq![fd],
        None => Seq::empty(),
    };
    let output = match spawn.output {
        Some(fd) => seq![fd],
        None => Seq::empty(),
    };
    input + output
}

/// The files that a worker holds open.
pub open spec fn held_files(request: RequestView) -> Seq<Fd> {
    match request {
        RequestView::Pipe(spawn) | RequestView::Open(spawn, _) | RequestView::Fork(
            spawn,
            _,
        ) => job_files(spawn),
        _ => Seq::empty(),
    }
}

/// Whether things to do are of no account for answers, for the foreground and for files.
pub open spec fn is_quiet(effect: EffectView) -> bool {
    effect is Stdout || effect is Stderr || effect is Join || effect is Resume
}

proof fn lemma_quiet(effects: Seq<EffectView>, before: Pid)
    requires
        forall|i: int| 0 <= i < effects.len() ==> is_quiet(#[trigger] effects[i]),
    ensures
        replies(effects) == 0,
        terminal(before, effects) == before,
        closed_files(effects) == Seq::<Fd>::empty(),
    decreases effects.len(),
{
    if effects.len() > 0 {
        assert(is_quiet(effects[effects.len() - 1]));
        let rest = effects.drop_last();
        assert forall|i: int| 0 <= i < rest.len() implies is_quiet(#[trigger] rest[i]) by {
            assert(rest[i] == effects[i]);
        }
        lemma_quiet(rest, before);
    }
}

/// What is counted of things to do is counted part by part.
pub proof fn lemma_concat(a: Seq<EffectView>, b: Seq<EffectView>, before: Pid)
    ensures
        replies(a + b) == replies(a) + replies(b),
        terminal(before, a + b) == terminal(terminal(before, a), b),
        closed_files(a + b) == closed_files(a) + closed_files(b),
    decreases b.len(),
{
    if b.len() == 0 {
        assert(a + b =~= a);
        assert(closed_files(a) + closed_files(b) =~= closed_files(a));
    } else {
        assert((a + b).drop_last() =~= a + b.drop_last());
        assert((a + b).last() == b.last());
        lemma_concat(a, b.drop_last(), before);
        assert(closed_files(a + b) =~= closed_files(a) + closed_files(b));
    }
}

/// One thing to do, on its own.
proof fn lemma_one(effect: EffectView, before: Pid)
    ensures
        replies(seq![effect]) == (if effect is Reply {
            1nat
        } else {
            0nat
        }),
        terminal(before, seq![effect]) == (if effect is Foreground {
            effect->Foreground_0
        } else {
            before
        }),
        closed_files(seq![effect]) == (if effect is Close {
            seq![effect->Close_0]
        } else {
            Seq::<Fd>::empty()
        }),
{
    let effects = seq![effect];
    let none = effects.drop_last();
    assert(none =~= Seq::empty());
    assert(replies(none) == 0);
    assert(terminal(before, none) == before);
    assert(closed_files(none) =~= Seq::empty());
    assert(effects.last() == effect);
    if effect is Close {
        assert(closed_files(effects) =~= seq![effect->Close_0]);
    }
}

proof fn lemma_none(before: Pid)
    ensures
        replies(Seq::empty()) == 0,
        terminal(before, Seq::empty()) == before,
        closed_files(Seq::empty()) == Seq::<Fd>::empty(),
{
}

proof fn lemma_two(a: EffectView, b: EffectView, before: Pid)
    ensures
        replies(seq![a, b]) == replies(seq![a]) + replies(seq![b]),
        terminal(before, seq![a, b]) == terminal(terminal(before, seq![a]), seq![b]),
        closed_files(seq![a, b]) == closed_files(seq![a]) + closed_files(seq![b]),
{
    assert(seq![a, b] =~= seq![a] + seq![b]);
    lemma_concat(seq![a], seq![b], before);
}

/// Closing a job's files closes just those.
proof fn lemma_closes(spawn: SpawnView, before: Pid)
    ensures
        replies(spawn.closes()) == 0,
        terminal(before, spawn.closes()) == before,
        closed_files(spawn.closes()) == job_files(spawn),
{
    let input = match spawn.input {
        Some(fd) => seq![EffectView::Close(fd)],
        None => Seq::empty(),
    };
    let output = match spawn.output {
        Some(fd) => seq![EffectView::Close(fd)],
        None => Seq::empty(),
    };
    lemma_none(before);
    if let Some(fd) = spawn.input {
        lemma_one(EffectView::Close(fd), before);
    }
    if let Some(fd) = spawn.output {
        lemma_one(EffectView::Close(fd), before);
    }
    lemma_concat(input, output, before);
    assert(closed_files(spawn.closes()) =~= job_files(spawn));
}

/// What a step of the worker keeps in balance: answers owed before it are given or still
/// owed, the terminal's foreground is the one that the worker notes, which is the shell while
/// a command line is being carried out, and the files held before it are closed or still held.
pub open spec fn balanced(
    owed_before: nat,
    before: WorkerView,
    files: Seq<Fd>,
    after: (WorkerView, Seq<EffectView>, RequestView),
) -> bool {
    &&& replies(after.1) + owed(after.0, after.2) == owed_before
    &&& terminal(foreground(before), after.1) == foreground(after.0)
    &&& is_busy(after.2) ==> after.0.fg is None
    &&& closed_files(after.1) + held_files(after.2) == files
}

proof fn lemma_shell_fg(worker: WorkerView, text: Seq<char>)
    requires
        worker.fg is Some,
    ensures
        ({
            let (after, effects) = worker.set_shell_fg();
            balanced(
                1,
                worker,
                Seq::empty(),
                (after, seq![EffectView::Stderr(text)] + effects, RequestView::Wait),
            )
        }),
{
    let before = foreground(worker);
    let (after, effects) = worker.set_shell_fg();
    let first = EffectView::Foreground(worker.shell_pgid);
    let second = EffectView::Reply(ShellMsg::Continue(worker.exit_val));
    lemma_one(EffectView::Stderr(text), before);
    lemma_one(first, before);
    lemma_one(second, worker.shell_pgid);
    lemma_two(first, second, before);
    lemma_concat(seq![EffectView::Stderr(text)], effects, before);
}

proof fn lemma_manage_job(worker: WorkerView, job_id: usize, pgid: Pid)
    ensures
        ({
            let (after, effects) = worker.manage_job(job_id, pgid);
            balanced(
                owed(worker, RequestView::Wait),
                worker,
                Seq::empty(),
                (after, effects, RequestView::Wait),
            )
        }),
{
    let before = foreground(worker);
    let line = worker.jobs[job_id].1;
    lemma_none(before);
    if worker.fg == Some(pgid) {
        lemma_shell_fg(worker, message::finished(job_id, line));
        lemma_shell_fg(worker, message::stopped(job_id, line));
        let gone = worker.remove_job(job_id);
        lemma_shell_fg(gone, message::finished(job_id, line));
    }
    lemma_one(EffectView::Stderr(message::finished_behind(job_id, line)), before);
}

/// A change of state of a child process keeps the balance: the shell is answered exactly when
/// a job leaves the foreground, and the terminal then goes back to it.
pub proof fn law_wait_child(worker: WorkerView, result: Result<WaitStatus, SysError>)
    ensures
        balanced(owed(worker, RequestView::Wait), worker, Seq::empty(), worker.wait_child(result)),
{
    let before = foreground(worker);
    lemma_none(before);
    match result {
        Ok(WaitStatus::Exited(pid, status)) => {
            let noted = worker.with_exit_val(status);
            if let Some((job_id, pgid)) = noted.home(pid) {
                lemma_manage_job(noted.remove_pid(pid), job_id, pgid);
            }
        },
        Ok(WaitStatus::Signaled(pid, signal, name, core)) => {
            let noted = worker.with_exit_val((signal + 128) as i32);
            let (_, effects) = noted.process_term(pid);
            let said = EffectView::Stderr(message::killed(pid, name@, core));
            if let Some((job_id, pgid)) = noted.home(pid) {
                lemma_manage_job(noted.remove_pid(pid), job_id, pgid);
            }
            lemma_one(said, before);
            lemma_concat(seq![said], effects, before);
        },
        Ok(WaitStatus::Stopped(pid)) | Ok(WaitStatus::Traced(pid)) => {
            let pgid = worker.procs[pid].pgid;
            lemma_manage_job(
                worker.set_pid_state(pid, ProcState::Stop),
                worker.groups[pgid].0,
                pgid,
            );
        },
        Err(error) => {
            lemma_one(EffectView::Stderr("\nrush: waitが失敗: "@ + error.text@), before);
        },
        _ => {},
    }
}

proof fn lemma_failed(worker: WorkerView, text: Seq<char>)
    requires
        worker.fg is None,
    ensures
        ({
            let (after, effects) = worker.failed(text);
            balanced(1, worker, Seq::empty(), (after, effects, RequestView::Idle))
        }),
{
    let before = foreground(worker);
    let reply = worker.with_exit_val(1).read_on();
    lemma_one(EffectView::Stderr(text), before);
    lemma_one(reply, before);
    lemma_two(EffectView::Stderr(text), reply, before);
}

proof fn lemma_run_exit(worker: WorkerView, args: Seq<Seq<char>>)
    requires
        worker.fg is None,
    ensures
        ({
            let (after, effects) = worker.run_exit(args);
            balanced(1, worker, Seq::empty(), (after, effects, RequestView::Idle))
        }),
{
    let before = foreground(worker);
    lemma_failed(worker, "ジョブが実行中なので終了できません"@);
    lemma_one(EffectView::Reply(ShellMsg::Quit(worker.exit_val)), before);
    if args.len() >= 2 {
        lemma_failed(worker, args[1] + "は不正な引数です"@);
        if let Some(code) = number::read_i32(args[1]) {
            lemma_one(EffectView::Reply(ShellMsg::Quit(code)), before);
        }
    }
}

proof fn lemma_run_fg(worker: WorkerView, args: Seq<Seq<char>>)
    requires
        worker.fg is None,
    ensures
        ({
            let (after, effects) = worker.run_fg(args);
            balanced(1, worker, Seq::empty(), (after, effects, RequestView::Idle))
        }),
{
    let before = foreground(worker);
    lemma_failed(worker, "usage: fg 数字"@);
    if args.len() >= 2 {
        lemma_failed(worker, args[1] + "というジョブは見つかりませんでした"@);
        if let Some(job_id) = number::read_usize(args[1]) {
            let (pgid, line) = worker.jobs[job_id];
            let said = EffectView::Stderr(message::resumed(job_id, line));
            let first = EffectView::Foreground(pgid);
            let second = EffectView::Resume(pgid);
            lemma_one(said, before);
            lemma_one(first, before);
            lemma_one(second, pgid);
            lemma_two(first, second, before);
            lemma_concat(seq![said], seq![first, second], before);
            assert(seq![said] + seq![first, second] =~= seq![said, first, second]);
        }
    }
}

proof fn lemma_run_jobs(worker: WorkerView)
    requires
        worker.fg is None,
    ensures
        ({
            let (after, effects) = worker.run_jobs();
            balanced(1, worker, Seq::empty(), (after, effects, RequestView::Idle))
        }),
{
    let before = foreground(worker);
    let lines = worker::ascending(worker.jobs.dom(), usize::MAX as nat + 1).map_values(
        |job_id: usize| worker.job_line(job_id),
    );
    let reply = worker.with_exit_val(0).read_on();
    lemma_quiet(lines, before);
    lemma_one(reply, before);
    lemma_concat(lines, seq![reply], before);
    assert(lines + seq![reply] =~= lines.push(reply));
}

/// Giving a job up closes its files and answers the command line.
proof fn lemma_given_up(worker: WorkerView, spawn: SpawnView, text: Seq<char>)
    requires
        worker.fg is None,
    ensures
        ({
            let (effects, request) = worker.answered(spawn.given_up(text));
            balanced(1, worker, job_files(spawn), (worker, effects, request))
        }),
{
    let before = foreground(worker);
    let said = EffectView::Stderr(text);
    let reply = worker.read_on();
    let effects = spawn.given_up(text).0;
    lemma_one(said, before);
    lemma_closes(spawn, before);
    lemma_concat(seq![said], spawn.closes(), before);
    lemma_one(reply, before);
    lemma_concat(effects, seq![reply], before);
    assert(effects + seq![reply] =~= effects.push(reply));
    assert(closed_files(effects.push(reply)) + held_files(RequestView::Idle) =~= job_files(spawn));
}

proof fn lemma_fork_first(worker: WorkerView, spawn: SpawnView)
    requires
        worker.fg is None,
    ensures
        ({
            let (effects, request) = worker.answered(spawn.fork_first());
            balanced(1, worker, job_files(spawn), (worker, effects, request))
        }),
{
    lemma_none(foreground(worker));
    lemma_given_up(worker, spawn, "rush: 無効なリダイレクト"@);
    assert(Seq::<Fd>::empty() + job_files(spawn) =~= job_files(spawn));
}

proof fn lemma_spawn_child(worker: WorkerView, line: Seq<char>, cmd: Seq<parser::CommandView>)
    requires
        worker.fg is None,
    ensures
        ({
            let (effects, request) = worker.answered(worker.spawn_child(line, cmd));
            balanced(1, worker, Seq::empty(), (worker, effects, request))
        }),
{
    let spawn = SpawnView {
        line,
        cmd,
        job_id: worker.new_job_id().unwrap_or(0),
        input: None,
        output: None,
        first: None,
    };
    let full = "rush: 管理可能なジョブの最大値に到達"@;
    let long = "rush: 3つ以上のコマンドによるパイプはサポートしていません｡"@;
    assert(job_files(spawn) =~= Seq::empty());
    assert(spawn.closes() =~= Seq::empty());
    assert(spawn.given_up(full).0 =~= seq![EffectView::Stderr(full)]);
    assert(spawn.given_up(long).0 =~= seq![EffectView::Stderr(long)]);
    lemma_none(foreground(worker));
    lemma_given_up(worker, spawn, full);
    lemma_given_up(worker, spawn, long);
    lemma_given_up(worker, spawn, "rush: 無効なリダイレクト"@);
    lemma_fork_first(worker, spawn);
}

/// A command line keeps the balance: where no answer is owed, it is answered at once, or one
/// answer is owed from then on. No file is left open, and the terminal's foreground is noted.
pub proof fn law_command_line(worker: WorkerView, line: String)
    requires
        worker.fg is None,
    ensures
        balanced(1, worker, Seq::empty(), worker.handle(WorkerMsg::Cmd(line))),
{
    let cmd = parser::line_commands(line@);
    lemma_run_exit(worker, cmd[0].1);
    lemma_run_fg(worker, cmd[0].1);
    lemma_run_jobs(worker);
    lemma_spawn_child(worker, line@, cmd);
    let before = foreground(worker);
    let (_, done, built_in) = worker.built_in_cmd(cmd);
    let (effects, _) = worker.answered(worker.spawn_child(line@, cmd));
    lemma_none(before);
    let usage = EffectView::Stderr("cd [移動先]"@);
    lemma_one(usage, before);
    lemma_one(worker.read_on(), before);
    lemma_two(usage, worker.read_on(), before);
    assert(seq![usage].push(worker.read_on()) =~= seq![usage, worker.read_on()]);
    if built_in is NotDone {
        assert(done + effects =~= effects);
    }
}

/// A signal keeps the balance: nothing is answered.
pub proof fn law_signal(worker: WorkerView, sig: Sig)
    ensures
        balanced(
            owed(worker, RequestView::Idle),
            worker,
            Seq::empty(),
            worker.handle(WorkerMsg::Signal(sig)),
        ),
{
    lemma_none(foreground(worker));
}

/// Changing the directory keeps the balance: it is answered, whatever came of it.
pub proof fn law_changed_dir(worker: WorkerView, result: Result<(), Seq<char>>)
    requires
        worker.fg is None,
    ensures
        balanced(1, worker, Seq::empty(), worker.changed_dir(result)),
{
    lemma_one(worker.with_exit_val(0).read_on(), foreground(worker));
    if let Err(text) = result {
        lemma_failed(worker, "ディレクトリの移動に失敗しました｡ "@ + text);
    }
}

/// The files of a job keep the balance: they are held for its processes, or closed and the
/// command line answered.
pub proof fn law_files(worker: WorkerView, spawn: SpawnView)
    requires
        worker.fg is None,
    ensures
        ({
            let (effects, request) = worker.answered(spawn.fork_first());
            balanced(1, worker, job_files(spawn), (worker, effects, request))
        }),
{
    lemma_fork_first(worker, spawn);
}

/// A process of a job keeps the balance: the job waits for its next process, or is in the
/// foreground with its files closed, or is given up with its files closed and the command
/// line answered.
pub proof fn law_forked(worker: WorkerView, spawn: SpawnView, result: Result<Pid, Seq<char>>)
    requires
        worker.fg is None,
    ensures
        ({
            let (after, launch) = worker.forked(spawn, result);
            let (effects, request) = after.answered(launch);
            balanced(1, worker, job_files(spawn), (after, effects, request))
        }),
{
    let before = foreground(worker);
    lemma_none(before);
    match result {
        Ok(child) => {
            let joined = EffectView::Join(child, spawn.group());
            let shown = EffectView::Foreground(spawn.pgid(child));
            lemma_one(joined, before);
            lemma_closes(spawn, before);
            lemma_one(shown, before);
            lemma_concat(spawn.closes(), seq![shown], before);
            assert(spawn.closes() + seq![shown] =~= spawn.closes().push(shown));
            lemma_concat(seq![joined], spawn.closes().push(shown), before);
            assert(Seq::<Fd>::empty() + closed_files(spawn.closes().push(shown)) =~= job_files(
                spawn,
            ));
            assert(job_files(spawn) + Seq::<Fd>::empty() =~= job_files(spawn));
            assert(Seq::<Fd>::empty() + job_files(spawn) =~= job_files(spawn));
        },
        Err(text) => {
            lemma_given_up(worker, spawn, "rush: プロセス生成エラー: "@ + text);
            lemma_given_up(worker, spawn, "rush:プロセス生成エラー"@ + text);
        },
    }
}

/// Whether a worker can go on with what it waits for: a job that is being started has one
/// command or two, its number is free, and its next process runs one of its commands.
pub open spec fn fits(worker: WorkerView, request: RequestView) -> bool {
    match request {
        RequestView::Pipe(spawn) | RequestView::Open(spawn, _) => spawn.wf()
            && !worker.jobs.contains_key(spawn.job_id),
        RequestView::Fork(spawn, process) => spawn.wf() && !worker.jobs.contains_key(spawn.job_id)
            && process.program < spawn.cmd.len(),
        _ => true,
    }
}

/// Whatever message comes, the worker can go on with what it then waits for.
pub proof fn law_message_fits(worker: WorkerView, msg: WorkerMsg)
    ensures
        fits(worker.handle(msg).0, worker.handle(msg).2),
{
    if let WorkerMsg::Cmd(line) = msg {
        parser::lemma_line_commands_nonempty(line@);
    }
}

/// Whatever comes of changing the directory, the worker can go on with what it then waits for.
pub proof fn law_changed_dir_fits(worker: WorkerView, result: Result<(), Seq<char>>)
    ensures
        fits(worker.changed_dir(result).0, worker.changed_dir(result).2),
{
}

/// Once a job's files are there, the worker can go on with what it then waits for.
pub proof fn law_files_fit(worker: WorkerView, spawn: SpawnView)
    requires
        spawn.wf(),
        !worker.jobs.contains_key(spawn.job_id),
    ensures
        fits(worker, worker.answered(spawn.fork_first()).1),
{
}

/// Whatever comes of starting a process, the worker can go on with what it then waits for.
pub proof fn law_forked_fits(worker: WorkerView, spawn: SpawnView, result: Result<Pid, Seq<char>>)
    requires
        spawn.wf(),
        !worker.jobs.contains_key(spawn.job_id),
    ensures
        ({
            let (after, launch) = worker.forked(spawn, result);
            fits(after, after.answered(launch).1)
        }),
{
}

/// The process group that a process enters when it is started, where `child` is its number.
pub open spec fn entered(process: Process, child: Pid) -> Pid {
    if process.pgid == 0 {
        child
    } else {
        process.pgid
    }
}

/// Whether a process that is asked for enters the group under which it will be noted, and is
/// put into that group by the shell as well.
pub open spec fn is_noted(request: RequestView) -> bool {
    match request {
        RequestView::Pipe(spawn) | RequestView::Open(spawn, _) => spawn.first is None,
        RequestView::Fork(spawn, process) => {
            &&& process.pgid == spawn.group()
            &&& forall|child: Pid| #[trigger] spawn.pgid(child) == entered(process, child)
        },
        _ => true,
    }
}

/// A process that is asked for on a message enters the group under which it will be noted.
pub proof fn law_message_noted(worker: WorkerView, msg: WorkerMsg)
    ensures
        is_noted(worker.handle(msg).2),
{
}

/// A process that is asked for once a job's files are there enters the group under which it
/// will be noted.
pub proof fn law_files_noted(worker: WorkerView, spawn: SpawnView)
    requires
        spawn.first is None,
    ensures
        is_noted(worker.answered(spawn.fork_first()).1),
{
}

/// A process that is asked for after the first enters the group under which it will be noted.
/// No process has the number zero.
pub proof fn law_forked_noted(
    worker: WorkerView,
    spawn: SpawnView,
    result: Result<Pid, Seq<char>>,
)
    requires
        result matches Ok(child) ==> child != 0,
    ensures
        ({
            let (after, launch) = worker.forked(spawn, result);
            is_noted(after.answered(launch).1)
        }),
{
}

/// A process is noted under the group that it has entered, and that group is the job's and in
/// the foreground.
pub proof fn law_noted(worker: WorkerView, spawn: SpawnView, process: Process, child: Pid)
    requires
        is_noted(RequestView::Fork(spawn, process)),
        spawn.is_last(),
    ensures
        ({
            let (after, launch) = worker.forked(spawn, Ok(child));
            let pgid = entered(process, child);
            &&& after.procs[child] == ProcInfo { state: ProcState::Run, pgid }
            &&& after.groups[pgid].1.contains(child)
            &&& after.jobs[spawn.job_id] == (pgid, spawn.line)
            &&& after.fg == Some(pgid)
            &&& launch.0.first() == EffectView::Join(child, process.pgid)
            &&& launch.0.last() == EffectView::Foreground(pgid)
        }),
{
    assert(spawn.pgid(child) == entered(process, child));
    assert(spawn.pids(child).dom().contains(child));
}

/// A command line that is one built-in command never becomes a job: it is carried out, or the
/// working directory is to be changed first.
pub proof fn law_built_in(worker: WorkerView, cmd: Seq<parser::CommandView>)
    requires
        cmd.len() >= 1,
    ensures
        worker.built_in_cmd(cmd).2 is NotDone <==> cmd.len() > 1 || !(cmd[0].0 == "exit"@
            || cmd[0].0 == "jobs"@ || cmd[0].0 == "fg"@ || cmd[0].0 == "cd"@),
{
}

/// Whether things to do leave the shell.
pub open spec fn quits(effects: Seq<EffectView>) -> bool {
    exists|i: int|
        0 <= i < effects.len() && #[trigger] effects[i] is Reply && effects[i]->Reply_0 is Quit
}

/// The shell is left only where there is no job, and so no process group and no process.
pub proof fn law_quit_without_jobs(worker: WorkerView, msg: WorkerMsg)
    requires
        worker.wf(),
        quits(worker.handle(msg).1),
    ensures
        worker.jobs == Map::<usize, (Pid, Seq<char>)>::empty(),
        worker.groups == Map::<Pid, (usize, Set<Pid>)>::empty(),
        worker.procs == Map::<Pid, ProcInfo>::empty(),
        worker.handle(msg).0 == worker,
{
    if let WorkerMsg::Cmd(line) = msg {
        let cmd = parser::line_commands(line@);
        let (after, effects, _) = worker.handle(msg);
        let i = choose|i: int|
            0 <= i < effects.len() && #[trigger] effects[i] is Reply && effects[i]->Reply_0 is Quit;
        let (_, done, built_in) = worker.built_in_cmd(cmd);
        if built_in is NotDone {
            let launch = worker.spawn_child(line@, cmd);
            lemma_no_quit(worker, line@, cmd);
            if i < done.len() {
                assert(done[i] == effects[i]);
            } else if i - done.len() < launch.0.len() {
                assert(launch.0[i - done.len()] == effects[i]);
            }
        } else if cmd[0].0 != "exit"@ && cmd[0].0 == "jobs"@ {
            let lines = worker::ascending(worker.jobs.dom(), usize::MAX as nat + 1).map_values(
                |job_id: usize| worker.job_line(job_id),
            );
            if i < lines.len() {
                assert(effects[i] == lines[i]);
            }
        }
        assert(worker.jobs.dom() =~= Set::empty());
        assert(worker.jobs =~= Map::empty());
        assert forall|pgid: Pid| !worker.groups.contains_key(pgid) by {}
        assert(worker.groups =~= Map::empty());
        assert forall|pid: Pid| !worker.procs.contains_key(pid) by {}
        assert(worker.procs =~= Map::empty());
    }
}

proof fn lemma_no_quit(worker: WorkerView, line: Seq<char>, cmd: Seq<parser::CommandView>)
    ensures
        forall|i: int|
            0 <= i < worker.spawn_child(line, cmd).0.len() ==> !(
            #[trigger] worker.spawn_child(line, cmd).0[i] is Reply),
{
}

/// A process that is taken out of the tables is in them no more: taking it out again finds
/// nothing and changes nothing.
pub proof fn law_removed_once(worker: WorkerView, pid: Pid)
    requires
        worker.wf(),
    ensures
        worker.remove_pid(pid).wf(),
        worker.remove_pid(pid).home(pid) is None,
        worker.remove_pid(pid).remove_pid(pid) == worker.remove_pid(pid),
{
}

/// The end of a process that is not in the tables changes nothing, and nothing is done.
pub proof fn law_stranger_ignored(worker: WorkerView, pid: Pid)
    requires
        !worker.procs.contains_key(pid),
    ensures
        worker.process_term(pid) == (worker, Seq::<EffectView>::empty()),
{
}

/// Setting the state of a process to what it was before undoes the change.
pub proof fn law_state_restored(worker: WorkerView, pid: Pid, state: ProcState)
    requires
        worker.procs.contains_key(pid),
    ensures
        worker.set_pid_state(pid, state).set_pid_state(pid, worker.procs[pid].state) == worker,
{
    assert(worker.set_pid_state(pid, state).set_pid_state(pid, worker.procs[pid].state)
        =~= worker);
}

/// Two jobs have two process groups, and no process is in both.
pub proof fn law_jobs_apart(worker: WorkerView, one: usize, other: usize)
    requires
        worker.wf(),
        worker.jobs.contains_key(one),
        worker.jobs.contains_key(other),
        one != other,
    ensures
        worker.jobs[one].0 != worker.jobs[other].0,
        worker.groups[worker.jobs[one].0].1.disjoint(worker.groups[worker.jobs[other].0].1),
{
    let a = worker.jobs[one].0;
    let b = worker.jobs[other].0;
    assert forall|pid: Pid|
        !(worker.groups[a].1.contains(pid) && worker.groups[b].1.contains(pid)) by {
        if worker.groups[a].1.contains(pid) && worker.groups[b].1.contains(pid) {
            assert(worker.procs[pid].pgid == a);
            assert(worker.procs[pid].pgid == b);
        }
    }
}

/// A worker after several processes have ended, one after the other.
pub open spec fn all_ended(worker: WorkerView, order: Seq<Pid>) -> WorkerView
    decreases order.len(),
{
    if order.len() == 0 {
        worker
    } else {
        all_ended(worker.process_term(order.first()).0, order.drop_first())
    }
}

/// When every process of a job has ended, in whatever order, the job is gone, and so are its
/// process group and its processes, and nothing else. It is not in the foreground any more.
pub proof fn law_job_ends(worker: WorkerView, pgid: Pid, order: Seq<Pid>)
    requires
        worker.wf(),
        worker.groups.contains_key(pgid),
        order.len() >= 1,
        order.no_duplicates(),
        order.to_set() == worker.groups[pgid].1,
    ensures
        ({
            let after = all_ended(worker, order);
            &&& after.wf()
            &&& after.jobs == worker.jobs.remove(worker.groups[pgid].0)
            &&& after.groups == worker.groups.remove(pgid)
            &&& after.procs == worker.procs.remove_keys(worker.groups[pgid].1)
            &&& after.fg == (if worker.fg == Some(pgid) {
                None
            } else {
                worker.fg
            })
            &&& after.exit_val == worker.exit_val
        }),
    decreases order.len(),
{
    let pid = order.first();
    let rest = order.drop_first();
    let members = worker.groups[pgid].1;
    assert(order.to_set().contains(order[0]));
    assert(members.contains(pid));
    let removed = worker.remove_pid(pid);
    assert(worker.home(pid) == Some((worker.groups[pgid].0, pgid)));
    assert(removed.wf());
    assert(removed.groups[pgid].1 == members.remove(pid));
    assert(rest.to_set() =~= members.remove(pid)) by {
        assert forall|p: Pid| rest.to_set().contains(p) == members.remove(pid).contains(p) by {
            if rest.to_set().contains(p) {
                let k = choose|k: int| 0 <= k < rest.len() && rest[k] == p;
                assert(order[k + 1] == p);
                assert(order.to_set().contains(p));
                assert(order[0] != order[k + 1]);
            }
            if members.remove(pid).contains(p) {
                assert(order.to_set().contains(p));
                let k = choose|k: int| 0 <= k < order.len() && order[k] == p;
                assert(rest[k - 1] == p);
            }
        }
    }
    let next = worker.process_term(pid).0;
    if rest.len() == 0 {
        assert(members.remove(pid) =~= Set::empty()) by {
            assert(rest.to_set() =~= Set::empty());
        }
        assert(removed.groups[pgid].1.is_empty());
        assert(all_ended(worker, order) == next) by {
            assert(all_ended(next, rest) == next);
        }
        assert(next.groups =~= worker.groups.remove(pgid));
        assert(next.procs =~= worker.procs.remove_keys(members)) by {
            assert forall|p: Pid| #[trigger] members.contains(p) implies p == pid by {
                assert(!members.remove(pid).contains(p));
            }
        }
    } else {
        assert(rest.to_set().contains(rest[0]));
        assert(!removed.groups[pgid].1.is_empty()) by {
            assert(removed.groups[pgid].1.contains(rest[0]));
        }
        assert(rest.no_duplicates());
        assert(next.groups == removed.groups);
        assert(next.jobs == removed.jobs);
        assert(next.procs == removed.procs);
        law_job_ends(next, pgid, rest);
        let after = all_ended(worker, order);
        assert(after.groups =~= worker.groups.remove(pgid));
        assert(after.procs =~= worker.procs.remove_keys(members));
    }
}

/// A job that comes and goes leaves the tables as they were: once every process of a job that
/// was entered has ended, in whatever order, jobs, process groups and processes are those
/// from before.
pub proof fn law_job_leaves_no_trace(
    worker: WorkerView,
    job_id: usize,
    pgid: Pid,
    pids: Map<Pid, ProcInfo>,
    line: Seq<char>,
    order: Seq<Pid>,
)
    requires
        worker.wf(),
        !worker.jobs.contains_key(job_id),
        !worker.groups.contains_key(pgid),
        pids.dom().disjoint(worker.procs.dom()),
        forall|pid: Pid| #[trigger] pids.contains_key(pid) ==> pids[pid].pgid == pgid,
        order.len() >= 1,
        order.no_duplicates(),
        order.to_set() == pids.dom(),
    ensures
        worker.insert_job(job_id, pgid, pids, line).wf(),
        ({
            let after = all_ended(worker.insert_job(job_id, pgid, pids, line), order);
            &&& after.jobs == worker.jobs
            &&& after.groups == worker.groups
            &&& after.procs == worker.procs
            &&& after.fg == worker.fg
        }),
{
    let entered = worker.insert_job(job_id, pgid, pids, line);
    assert(entered.wf()) by {
        assert forall|g: Pid, p: Pid|
            entered.groups.contains_key(g) && #[trigger] entered.groups[g].1.contains(
                p,
            ) implies entered.procs.contains_key(p) && entered.procs[p].pgid == g by {
            if g != pgid {
                assert(worker.groups[g].1.contains(p));
                assert(!pids.dom().contains(p));
            } else {
                assert(pids.contains_key(p));
            }
        }
        assert forall|p: Pid| #[trigger] entered.procs.contains_key(
            p,
        ) implies entered.groups.contains_key(entered.procs[p].pgid)
            && entered.groups[entered.procs[p].pgid].1.contains(p) by {
            if !pids.contains_key(p) {
                assert(worker.procs.contains_key(p));
            }
        }
    }
    law_job_ends(entered, pgid, order);
    let after = all_ended(entered, order);
    assert(after.jobs =~= worker.jobs);
    assert(after.groups =~= worker.groups);
    assert(after.procs =~= worker.procs);
}

proof fn lemma_ascending_once(ids: Set<usize>, bound: nat)
    ensures
        forall|id: usize|
            worker::ascending(ids, bound).contains(id) <==> (#[trigger] ids.contains(id) && id
                < bound),
        forall|i: int, j: int|
            0 <= i < j < worker::ascending(ids, bound).len() ==> worker::ascending(ids, bound)[i]
                < worker::ascending(ids, bound)[j],
    decreases bound,
{
    let all = worker::ascending(ids, bound);
    worker::lemma_ascending_members(ids, bound);
    if bound == 0 {
        assert(all =~= Seq::empty());
    } else {
        let below = worker::ascending(ids, (bound - 1) as nat);
        lemma_ascending_once(ids, (bound - 1) as nat);
        worker::lemma_ascending_members(ids, (bound - 1) as nat);
        assert forall|id: usize| all.contains(id) <==> (#[trigger] ids.contains(id) && id
            < bound) by {
            if ids.contains(id) && id < bound {
                if id < bound - 1 {
                    assert(below.contains(id));
                    let k = choose|k: int| 0 <= k < below.len() && below[k] == id;
                    assert(all[k] == id);
                } else {
                    assert(all[all.len() - 1] == id);
                }
            }
            if all.contains(id) {
                let k = choose|k: int| 0 <= k < all.len() && all[k] == id;
                assert(ids.contains(all[k]));
            }
        }
        assert forall|i: int, j: int| 0 <= i < j < all.len() implies all[i] < all[j] by {
            assert(all[i] == below[i]);
            if j < below.len() {
                assert(all[j] == below[j]);
            }
        }
    }
}

/// `jobs` writes one line for every job and nothing else, by ascending numbers, and then has
/// the shell read on.
pub proof fn law_jobs_listed_once(worker: WorkerView)
    ensures
        ({
            let order = worker::ascending(worker.jobs.dom(), usize::MAX as nat + 1);
            let (_, effects) = worker.run_jobs();
            &&& forall|id: usize|
                order.contains(id) <==> #[trigger] worker.jobs.contains_key(id)
            &&& forall|i: int, j: int| 0 <= i < j < order.len() ==> order[i] < order[j]
            &&& effects.len() == order.len() + 1
            &&& forall|i: int|
                0 <= i < order.len() ==> #[trigger] effects[i] == worker.job_line(order[i])
            &&& effects.last() == EffectView::Reply(ShellMsg::Continue(0))
        }),
{
    let ids = worker.jobs.dom();
    lemma_ascending_once(ids, usize::MAX as nat + 1);
    assert forall|id: usize|
        worker::ascending(ids, usize::MAX as nat + 1).contains(id)
            <==> #[trigger] worker.jobs.contains_key(id) by {
        assert(ids.contains(id) == worker.jobs.contains_key(id));
    }
}

/// `fg` with the number under which `jobs` lists a job brings that job to the foreground and
/// has it go on.
pub proof fn law_fg_finds_job(worker: WorkerView, job_id: usize)
    requires
        worker.jobs.contains_key(job_id),
    ensures
        ({
            let args = seq!["fg"@, number::decimal(job_id as nat)];
            let (after, effects) = worker.run_fg(args);
            let pgid = worker.jobs[job_id].0;
            &&& after.fg == Some(pgid)
            &&& after.jobs == worker.jobs
            &&& effects == seq![
                EffectView::Stderr(message::resumed(job_id, worker.jobs[job_id].1)),
                EffectView::Foreground(pgid),
                EffectView::Resume(pgid),
            ]
        }),
{
    number::law_usize_read_back(job_id);
}

/// `exit` with a number leaves the shell with that exit code, where there is no job.
pub proof fn law_exit_code(worker: WorkerView, code: i32)
    requires
        worker.jobs.is_empty(),
    ensures
        worker.run_exit(seq!["exit"@, number::signed_decimal(code as int)]) == (
            worker,
            seq![EffectView::Reply(ShellMsg::Quit(code))],
        ),
{
    number::law_i32_read_back(code);
}

/// Whether a task is what the shell waits for at a stage.
pub open spec fn is_awaited(logfile: Seq<char>, stage: Stage, task: TaskView) -> bool {
    match stage {
        Stage::Begin => false,
        Stage::Loading => task == TaskView::Load(logfile),
        Stage::Reading(exit_val) => task == TaskView::Prompt(message::prompt(exit_val)),
        Stage::Replying | Stage::Leaving => task is Send,
        Stage::Saving(_) => task == TaskView::Save(logfile),
        Stage::Ended(_) => false,
    }
}

/// On every event the shell ends, or its last task is what it then waits for; the others are
/// only messages and lines for the history. So every line that is sent is followed by exactly
/// one answer, and every prompt by exactly one line.
pub proof fn law_last_task_awaited(logfile: Seq<char>, stage: Stage, event: Event)
    requires
        stage.awaits_spec(event),
    ensures
        ({
            let (tasks, next) = shell::step(logfile, stage, event);
            &&& next is Ended || (tasks.len() >= 1 && is_awaited(logfile, next, tasks.last()))
            &&& forall|i: int|
                0 <= i < tasks.len() - (if next is Ended {
                    0int
                } else {
                    1int
                }) ==> (#[trigger] tasks[i] is Stderr || tasks[i] is Remember)
        }),
{
}

/// How many command lines are sent among tasks.
pub open spec fn sends(tasks: Seq<TaskView>) -> nat
    decreases tasks.len(),
{
    if tasks.len() == 0 {
        0
    } else if tasks.last() is Send {
        sends(tasks.drop_last()) + 1
    } else {
        sends(tasks.drop_last())
    }
}

/// How many answers the shell waits for.
pub open spec fn awaited(stage: Stage) -> nat {
    match stage {
        Stage::Replying | Stage::Leaving => 1,
        _ => 0,
    }
}

/// The shell waits for one answer to every command line that it sends, and takes no answer
/// that it does not wait for.
pub proof fn law_answers_awaited(logfile: Seq<char>, stage: Stage, event: Event)
    requires
        stage.awaits_spec(event),
    ensures
        ({
            let (tasks, next) = shell::step(logfile, stage, event);
            awaited(stage) + sends(tasks) == awaited(next) + (if event is Reply {
                1nat
            } else {
                0nat
            })
        }),
{
    reveal_with_fuel(sends, 3);
}

/// The program ends with the exit code of the worker's last answer, or with 1 where reading
/// has failed.
pub proof fn law_exit_val(logfile: Seq<char>, stage: Stage, event: Event)
    requires
        stage.awaits_spec(event),
    ensures
        ({
            let (_, next) = shell::step(logfile, stage, event);
            &&& next matches Stage::Ended(code) ==> stage == Stage::Saving(code)
            &&& next matches Stage::Saving(code) ==> event == Event::Reply(ShellMsg::Quit(code))
                || (code == 1 && event is Input && event->Input_0 is Failed)
        }),
{
}

/// A line of white space is not sent and not remembered: the shell asks again, with the same
/// face. Any other line is sent as it was typed and remembered without the white space at its
/// ends.
pub proof fn law_blank_line(logfile: Seq<char>, exit_val: i32, line: String)
    ensures
        ({
            let (tasks, next) = shell::step(
                logfile,
                Stage::Reading(exit_val),
                Event::Input(Input::Line(line)),
            );
            if parser::is_blank(line@) {
                &&& tasks == seq![TaskView::Prompt(message::prompt(exit_val))]
                &&& next == Stage::Reading(exit_val)
            } else {
                &&& tasks == seq![
                    TaskView::Remember(text::trimmed(line@)),
                    TaskView::Send(line@),
                ]
                &&& next == Stage::Replying
            }
        }),
{
    let s = line@;
    text::law_trimmed(s);
    let (from, to) = choose|from: int, to: int| #[trigger]
        text::white_outside(s, from, to) && text::trimmed(s) == s.subrange(from, to);
    if parser::is_blank(s) {
        if text::trimmed(s).len() > 0 {
            assert(text::trimmed(s).first() == s[from]);
        }
    } else {
        let k = choose|k: int| 0 <= k < s.len() && !text::is_white_space_spec(#[trigger] s[k]);
        assert(from <= k < to);
    }
}

} // verus!

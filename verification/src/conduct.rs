//! What command lines, changes of state and events come to, seen from outside.
use crate::control::{SysError, WaitStatus};
use crate::dispatch::{Sig, WorkerMsg};
use crate::effect::{EffectView, Fd, Pid, ShellMsg};
use crate::number;
use crate::parser;
use crate::request::{Process, RequestView, SpawnView};
use crate::shell;
use crate::shell::{Event, Input, Stage, TaskView};
use crate::text;
use crate::worker;
use crate::worker::{ProcInfo, ProcState, WorkerView};
use vstd::prelude::*;

verus! {

/// The exit code of a process that has ended is the worker's from then on, whatever process it
/// is and whatever the tables hold; that of one that a signal has ended is the signal's number
/// and 128. Any other result of waiting leaves the exit code as it is.
pub proof fn law_code_noted(worker: WorkerView, result: Result<WaitStatus, SysError>)
    ensures
        match result {
            Ok(WaitStatus::Exited(_, status)) => worker.wait_child(result).0.exit_val == status,
            Ok(WaitStatus::Signaled(_, signal, _, _)) => worker.wait_child(result).0.exit_val
                == signal + 128,
            _ => worker.wait_child(result).0.exit_val == worker.exit_val,
        },
{
}

/// Waiting is answered only to have the shell read on, with the exit code that is then noted;
/// and it is answered exactly when the foreground goes back to the shell, right behind that.
pub proof fn law_code_answered(worker: WorkerView, result: Result<WaitStatus, SysError>)
    ensures
        ({
            let (after, effects, _) = worker.wait_child(result);
            let back = worker.fg is Some && after.fg is None;
            &&& forall|i: int|
                0 <= i < effects.len() && #[trigger] effects[i] is Reply ==> back && i
                    == effects.len() - 1 && effects[i] == EffectView::Reply(
                    ShellMsg::Continue(after.exit_val),
                )
            &&& back ==> effects.len() >= 2 && effects[effects.len() - 1] == EffectView::Reply(
                ShellMsg::Continue(after.exit_val),
            ) && effects[effects.len() - 2] == EffectView::Foreground(worker.shell_pgid)
            &&& !back ==> after.fg == worker.fg
        }),
{
}

/// When the last process of the job in the foreground ends, the job is gone, the terminal goes
/// back to the shell, and the answer is the exit code of that process.
pub proof fn law_last_process_ended(worker: WorkerView, pid: Pid, status: i32)
    requires
        worker.wf(),
        worker.procs.contains_key(pid),
        worker.fg == Some(worker.procs[pid].pgid),
        forall|other: Pid|
            worker.groups[worker.procs[pid].pgid].1.contains(other) ==> other == pid,
    ensures
        ({
            let pgid = worker.procs[pid].pgid;
            let job_id = worker.groups[pgid].0;
            let (after, effects, request) = worker.wait_child(Ok(WaitStatus::Exited(pid, status)));
            &&& effects == seq![
                EffectView::Stderr(
                    "["@ + number::decimal(job_id as nat) + "] 終了\t"@ + worker.jobs[job_id].1,
                ),
                EffectView::Foreground(worker.shell_pgid),
                EffectView::Reply(ShellMsg::Continue(status)),
            ]
            &&& after.exit_val == status
            &&& after.fg is None
            &&& after.jobs == worker.jobs.remove(job_id)
            &&& after.groups == worker.groups.remove(pgid)
            &&& after.procs == worker.procs.remove(pid)
            &&& after.shell_pgid == worker.shell_pgid
            &&& request is Wait
        }),
{
    law_process_ended(worker, pid, status);
    let rest = worker.groups[worker.procs[pid].pgid].1.remove(pid);
    assert(rest =~= Set::empty());
}

/// A process that ends is forgotten, and nothing else of the tables changes but for its job.
/// Where the job has other processes, these stay; where it has none, the job is gone. A job in
/// the foreground leaves it when it is gone or has only stopped processes left, and the shell
/// is told of it.
pub proof fn law_process_ended(worker: WorkerView, pid: Pid, status: i32)
    requires
        worker.wf(),
        worker.procs.contains_key(pid),
    ensures
        ({
            let pgid = worker.procs[pid].pgid;
            let (job_id, members) = worker.groups[pgid];
            let rest = members.remove(pid);
            let line = worker.jobs[job_id].1;
            let number = number::decimal(job_id as nat);
            let stopped = forall|other: Pid|
                rest.contains(other) ==> (#[trigger] worker.procs[other]).state == ProcState::Stop;
            let back = worker.fg == Some(pgid) && (rest.is_empty() || stopped);
            let (after, effects, request) = worker.wait_child(Ok(WaitStatus::Exited(pid, status)));
            &&& request is Wait
            &&& after.exit_val == status
            &&& after.shell_pgid == worker.shell_pgid
            &&& after.procs == worker.procs.remove(pid)
            &&& if rest.is_empty() {
                &&& after.jobs == worker.jobs.remove(job_id)
                &&& after.groups == worker.groups.remove(pgid)
            } else {
                &&& after.jobs == worker.jobs
                &&& after.groups == worker.groups.insert(pgid, (job_id, rest))
            }
            &&& after.fg == (if back {
                None
            } else {
                worker.fg
            })
            &&& effects == (if back {
                seq![
                    EffectView::Stderr(
                        if rest.is_empty() {
                            "["@ + number + "] 終了\t"@ + line
                        } else {
                            "\n["@ + number + "] 停止\t"@ + line
                        },
                    ),
                    EffectView::Foreground(worker.shell_pgid),
                    EffectView::Reply(ShellMsg::Continue(status)),
                ]
            } else if rest.is_empty() {
                seq![EffectView::Stderr("\n["@ + number + "] 終了\t"@ + line)]
            } else {
                Seq::empty()
            })
        }),
{
    let pgid = worker.procs[pid].pgid;
    let (job_id, members) = worker.groups[pgid];
    let rest = members.remove(pid);
    let (after, effects, _) = worker.wait_child(Ok(WaitStatus::Exited(pid, status)));
    let removed = worker.with_exit_val(status).remove_pid(pid);
    assert(worker.groups.contains_key(pgid));
    assert(removed.groups[pgid].1 == rest);
    assert(removed.group_stopped(pgid) == (forall|other: Pid|
        rest.contains(other) ==> (#[trigger] worker.procs[other]).state == ProcState::Stop)) by {
        if removed.group_stopped(pgid) {
            assert forall|other: Pid| rest.contains(other) implies (
            #[trigger] worker.procs[other]).state == ProcState::Stop by {
                assert(removed.groups[pgid].1.contains(other));
            }
        }
        if forall|other: Pid|
            rest.contains(other) ==> (#[trigger] worker.procs[other]).state == ProcState::Stop {
            assert forall|other: Pid| #[trigger]
                removed.groups[pgid].1.contains(other) implies removed.procs[other].state
                == ProcState::Stop by {
                assert(worker.procs[other].state == ProcState::Stop);
            }
        }
    }
    assert(worker.groups.insert(pgid, (job_id, rest)).remove(pgid) =~= worker.groups.remove(pgid));
}

/// A process that is not in the tables changes only the exit code when it ends.
pub proof fn law_stranger_ended(worker: WorkerView, pid: Pid, status: i32)
    requires
        !worker.procs.contains_key(pid),
    ensures
        worker.wait_child(Ok(WaitStatus::Exited(pid, status))) == (
            WorkerView { exit_val: status, ..worker },
            Seq::<EffectView>::empty(),
            RequestView::Wait,
        ),
{
}

/// A process that a signal ends is as one that ends by itself with the signal's number and 128,
/// but for the message in front.
pub proof fn law_signal_ended(
    worker: WorkerView,
    pid: Pid,
    signal: u8,
    name: String,
    core: bool,
)
    ensures
        ({
            let killed = worker.wait_child(Ok(WaitStatus::Signaled(pid, signal, name, core)));
            let ended = worker.wait_child(Ok(WaitStatus::Exited(pid, (signal + 128) as i32)));
            &&& killed.0 == ended.0
            &&& killed.1 == seq![
                EffectView::Stderr(
                    "\nrush: 子プロセスがシグナルにより終了"@ + (if core {
                        "(コアダンプ)"@
                    } else {
                        ""@
                    }) + ": pid = "@ + number::signed_decimal(pid as int) + ", siganl = "@ + name@,
                ),
            ] + ended.1
            &&& killed.2 == ended.2
        }),
{
}

/// A process that stops is noted as stopped, and nothing else of the tables changes. Where it
/// was the last one of the job in the foreground that ran, the terminal goes back to the shell,
/// which reads on with the exit code as it was.
pub proof fn law_process_stopped(worker: WorkerView, pid: Pid)
    requires
        worker.wf(),
        worker.procs.contains_key(pid),
    ensures
        ({
            let pgid = worker.procs[pid].pgid;
            let (job_id, members) = worker.groups[pgid];
            let number = number::decimal(job_id as nat);
            let back = worker.fg == Some(pgid) && forall|other: Pid|
                members.contains(other) && other != pid ==> (#[trigger] worker.procs[other]).state
                    == ProcState::Stop;
            let (after, effects, request) = worker.wait_child(Ok(WaitStatus::Stopped(pid)));
            &&& request is Wait
            &&& after.procs == worker.procs.insert(pid, ProcInfo { state: ProcState::Stop, pgid })
            &&& after.jobs == worker.jobs
            &&& after.groups == worker.groups
            &&& after.exit_val == worker.exit_val
            &&& after.shell_pgid == worker.shell_pgid
            &&& after.fg == (if back {
                None
            } else {
                worker.fg
            })
            &&& effects == (if back {
                seq![
                    EffectView::Stderr("\n["@ + number + "] 停止\t"@ + worker.jobs[job_id].1),
                    EffectView::Foreground(worker.shell_pgid),
                    EffectView::Reply(ShellMsg::Continue(worker.exit_val)),
                ]
            } else {
                Seq::empty()
            })
            &&& worker.wait_child(Ok(WaitStatus::Traced(pid))) == (after, effects, request)
        }),
{
    let pgid = worker.procs[pid].pgid;
    let members = worker.groups[pgid].1;
    let noted = worker.set_pid_state(pid, ProcState::Stop);
    assert(members.contains(pid));
    assert(!members.is_empty());
    assert(noted.group_stopped(pgid) == (forall|other: Pid|
        members.contains(other) && other != pid ==> (#[trigger] worker.procs[other]).state
            == ProcState::Stop)) by {
        if noted.group_stopped(pgid) {
            assert forall|other: Pid| members.contains(other) && other != pid implies (
            #[trigger] worker.procs[other]).state == ProcState::Stop by {
                assert(noted.groups[pgid].1.contains(other));
            }
        }
        if forall|other: Pid|
            members.contains(other) && other != pid ==> (#[trigger] worker.procs[other]).state
                == ProcState::Stop {
            assert forall|other: Pid| #[trigger]
                noted.groups[pgid].1.contains(other) implies noted.procs[other].state
                == ProcState::Stop by {
                if other != pid {
                    assert(worker.procs[other].state == ProcState::Stop);
                }
            }
        }
    }
}

/// A process that goes on is noted as running, and nothing else changes, nor is anything done.
pub proof fn law_process_continued(worker: WorkerView, pid: Pid)
    ensures
        ({
            let (after, effects, request) = worker.wait_child(Ok(WaitStatus::Continued(pid)));
            &&& request is Wait
            &&& effects == Seq::<EffectView>::empty()
            &&& after.procs == (if worker.procs.contains_key(pid) {
                worker.procs.insert(
                    pid,
                    ProcInfo { state: ProcState::Run, pgid: worker.procs[pid].pgid },
                )
            } else {
                worker.procs
            })
            &&& after == (WorkerView { procs: after.procs, ..worker })
        }),
{
}

/// Waiting goes on after every change of state. It is over where nothing has changed or there
/// is no child process, and it is made again where a signal came in between; the worker is then
/// as before. Any other error ends the program with the exit code 1, and says why.
pub proof fn law_waiting_ends(worker: WorkerView, result: Result<WaitStatus, SysError>)
    ensures
        ({
            let (after, effects, request) = worker.wait_child(result);
            match result {
                Ok(WaitStatus::StillAlive) => after == worker && effects.len() == 0
                    && request is Idle,
                Ok(_) => request is Wait,
                Err(error) => {
                    &&& after == worker
                    &&& error.kind is Interrupted ==> effects.len() == 0 && request is Wait
                    &&& error.kind is NoChild ==> effects.len() == 0 && request is Idle
                    &&& error.kind is Other ==> effects == seq![
                        EffectView::Stderr("\nrush: waitが失敗: "@ + error.text@),
                    ] && request == RequestView::Exit(1)
                },
            }
        }),
{
}

/// `jobs` writes a line for every job, by ascending numbers, and nothing else. The line says
/// that the job is stopped exactly where every process left in its group is stopped, and that it
/// runs exactly where one of them runs.
pub proof fn law_jobs(worker: WorkerView)
    requires
        worker.wf(),
    ensures
        ({
            let (after, effects) = worker.run_jobs();
            exists|order: Seq<usize>|
                {
                    &&& forall|i: int, j: int| 0 <= i < j < order.len() ==> order[i] < order[j]
                    &&& forall|id: usize|
                        #[trigger] order.contains(id) <==> worker.jobs.contains_key(id)
                    &&& effects.len() == order.len() + 1
                    &&& forall|i: int|
                        0 <= i < order.len() ==> is_job_line(
                            worker,
                            #[trigger] order[i],
                            effects[i],
                        )
                }
        }),
        worker.run_jobs().1.last() == EffectView::Reply(ShellMsg::Continue(0)),
        worker.run_jobs().0 == (WorkerView { exit_val: 0, ..worker }),
{
    let order = worker::ascending(worker.jobs.dom(), usize::MAX as nat + 1);
    let effects = worker.run_jobs().1;
    crate::laws::law_jobs_listed_once(worker);
    assert forall|i: int| 0 <= i < order.len() implies is_job_line(
        worker,
        #[trigger] order[i],
        effects[i],
    ) by {
        let id = order[i];
        assert(order.contains(id));
        let (pgid, line) = worker.jobs[id];
        assert(worker.jobs.contains_key(id));
        assert(effects[i] == worker.job_line(id));
        let members = worker.groups[pgid].1;
        if worker.group_stopped(pgid) {
            assert forall|pid: Pid| #[trigger] members.contains(
                pid,
            ) implies worker.procs[pid].state == ProcState::Stop by {}
        } else {
            let pid = choose|pid: Pid| #[trigger]
                members.contains(pid) && worker.procs[pid].state != ProcState::Stop;
            assert(members.contains(pid) && worker.procs[pid].state == ProcState::Run);
        }
    }
    assert forall|id: usize| #[trigger] order.contains(id) <==> worker.jobs.contains_key(id) by {
        assert(worker.jobs.contains_key(id) <==> order.contains(id));
    }
}

/// Whether this writes the line for a job: its number, whether it is stopped, and its command
/// line. It is stopped where all processes left in its group are, and runs where one of them
/// does.
pub open spec fn is_job_line(worker: WorkerView, job_id: usize, effect: EffectView) -> bool {
    let (pgid, line) = worker.jobs[job_id];
    let members = worker.groups[pgid].1;
    let head = "["@ + number::decimal(job_id as nat) + "] "@;
    ||| (effect == EffectView::Stdout(head + "停止中"@ + "\t"@ + line) && forall|pid: Pid|
        #[trigger]
        members.contains(pid) ==> worker.procs[pid].state == ProcState::Stop)
    ||| (effect == EffectView::Stdout(head + "実行中"@ + "\t"@ + line) && exists|pid: Pid|
        #[trigger]
        members.contains(pid) && worker.procs[pid].state == ProcState::Run)
}

/// `exit` with jobs, or with an argument that is no number, says so and fails with the exit
/// code 1. Otherwise the shell is left: with the number, or without an argument with the last
/// exit code; and nothing changes.
pub proof fn law_exit(worker: WorkerView, args: Seq<Seq<char>>)
    ensures
        ({
            let (after, effects) = worker.run_exit(args);
            let fails = |text: Seq<char>|
                after == (WorkerView { exit_val: 1, ..worker }) && effects == seq![
                    EffectView::Stderr(text),
                    EffectView::Reply(ShellMsg::Continue(1)),
                ];
            if exists|id: usize| worker.jobs.contains_key(id) {
                fails("ジョブが実行中なので終了できません"@)
            } else if args.len() <= 1 {
                after == worker && effects == seq![
                    EffectView::Reply(ShellMsg::Quit(worker.exit_val)),
                ]
            } else {
                match number::read_i32(args[1]) {
                    Some(code) => after == worker && effects == seq![
                        EffectView::Reply(ShellMsg::Quit(code)),
                    ],
                    None => fails(args[1] + "は不正な引数です"@),
                }
            }
        }),
{
    if exists|id: usize| worker.jobs.contains_key(id) {
        let id = choose|id: usize| worker.jobs.contains_key(id);
        assert(worker.jobs.dom().contains(id));
        assert(!worker.jobs.is_empty());
    } else {
        assert(worker.jobs.dom() =~= Set::empty());
        assert(worker.jobs.is_empty());
    }
}

/// `fg` with the number of a job says so, gives the job the terminal and has it go on; the
/// tables stay as they are. Without an argument, or with one that names no job, it says so and
/// the shell reads on. The exit code is 1 in either case.
pub proof fn law_fg(worker: WorkerView, args: Seq<Seq<char>>)
    ensures
        ({
            let (after, effects) = worker.run_fg(args);
            let fails = |text: Seq<char>|
                after == (WorkerView { exit_val: 1, ..worker }) && effects == seq![
                    EffectView::Stderr(text),
                    EffectView::Reply(ShellMsg::Continue(1)),
                ];
            if args.len() <= 1 {
                fails("usage: fg 数字"@)
            } else if number::read_usize(args[1]) is Some && worker.jobs.contains_key(
                number::read_usize(args[1])->0,
            ) {
                let job_id = number::read_usize(args[1])->0;
                let (pgid, line) = worker.jobs[job_id];
                &&& after == (WorkerView { exit_val: 1, fg: Some(pgid), ..worker })
                &&& effects == seq![
                    EffectView::Stderr(
                        "["@ + number::decimal(job_id as nat) + "] 再開\n"@ + line,
                    ),
                    EffectView::Foreground(pgid),
                    EffectView::Resume(pgid),
                ]
            } else {
                fails(args[1] + "というジョブは見つかりませんでした"@)
            }
        }),
{
}

/// What a command line that is one built-in command comes to is what that command does with its
/// arguments. For `cd` the worker asks for exactly the directory that the argument names;
/// without one it says how `cd` is used, and the shell reads on.
pub proof fn law_built_in_line(worker: WorkerView, line: String)
    ensures
        ({
            let cmds = parser::line_commands(line@);
            let result = worker.handle(WorkerMsg::Cmd(line));
            let args = cmds[0].1;
            cmds.len() == 1 ==> {
                &&& cmds[0].0 == "exit"@ ==> result == (
                    worker.run_exit(args).0,
                    worker.run_exit(args).1,
                    RequestView::Idle,
                )
                &&& cmds[0].0 == "jobs"@ ==> result == (
                    worker.run_jobs().0,
                    worker.run_jobs().1,
                    RequestView::Idle,
                )
                &&& cmds[0].0 == "fg"@ ==> result == (
                    worker.run_fg(args).0,
                    worker.run_fg(args).1,
                    RequestView::Idle,
                )
                &&& cmds[0].0 == "cd"@ && args.len() >= 2 ==> result == (
                    worker,
                    Seq::<EffectView>::empty(),
                    RequestView::ChangeDir(args[1]),
                )
                &&& cmds[0].0 == "cd"@ && args.len() <= 1 ==> result == (
                    worker,
                    seq![
                        EffectView::Stderr("cd [移動先]"@),
                        EffectView::Reply(ShellMsg::Continue(worker.exit_val)),
                    ],
                    RequestView::Idle,
                )
            }
        }),
{
    lemma_names_apart();
    assert(seq![EffectView::Stderr("cd [移動先]"@)].push(worker.read_on()) =~= seq![
        EffectView::Stderr("cd [移動先]"@),
        EffectView::Reply(ShellMsg::Continue(worker.exit_val)),
    ]);
}

/// One command that is built in is carried out with its arguments, whatever they are; any other
/// command, and a pipeline, is left alone.
pub proof fn law_carried_out(worker: WorkerView, cmd: Seq<parser::CommandView>)
    requires
        cmd.len() >= 1,
    ensures
        ({
            let (after, effects, built_in) = worker.built_in_cmd(cmd);
            let args = cmd[0].1;
            if becomes_job(cmd) {
                after == worker && effects.len() == 0 && built_in is NotDone
            } else if cmd[0].0 == "exit"@ {
                (after, effects) == worker.run_exit(args) && built_in is Done
            } else if cmd[0].0 == "jobs"@ {
                (after, effects) == worker.run_jobs() && built_in is Done
            } else if cmd[0].0 == "fg"@ {
                (after, effects) == worker.run_fg(args) && built_in is Done
            } else if args.len() >= 2 {
                &&& after == worker
                &&& effects.len() == 0
                &&& built_in is ChangeDir
                &&& built_in->ChangeDir_0 == args[1]
            } else {
                &&& after == worker
                &&& effects == seq![
                    EffectView::Stderr("cd [移動先]"@),
                    EffectView::Reply(ShellMsg::Continue(worker.exit_val)),
                ]
                &&& built_in is Done
            }
        }),
{
    assert(seq![EffectView::Stderr("cd [移動先]"@)].push(worker.read_on()) =~= seq![
        EffectView::Stderr("cd [移動先]"@),
        EffectView::Reply(ShellMsg::Continue(worker.exit_val)),
    ]);
}

/// The names of the built-in commands are four.
proof fn lemma_names_apart()
    ensures
        "exit"@ != "jobs"@,
        "exit"@ != "fg"@,
        "exit"@ != "cd"@,
        "jobs"@ != "fg"@,
        "jobs"@ != "cd"@,
        "fg"@ != "cd"@,
{
    reveal_strlit("exit");
    reveal_strlit("jobs");
    reveal_strlit("fg");
    reveal_strlit("cd");
    assert("exit"@[0] == 'e');
    assert("jobs"@[0] == 'j');
    assert("fg"@[0] == 'f');
    assert("cd"@[0] == 'c');
}

/// Changing the directory is answered: with the exit code 0 where it succeeds, and with a
/// message that says why and the exit code 1 where it fails. Nothing else changes.
pub proof fn law_cd_answered(worker: WorkerView, result: Result<(), Seq<char>>)
    ensures
        worker.changed_dir(result) == (match result {
            Ok(()) => (
                WorkerView { exit_val: 0, ..worker },
                seq![EffectView::Reply(ShellMsg::Continue(0))],
                RequestView::Idle,
            ),
            Err(text) => (
                WorkerView { exit_val: 1, ..worker },
                seq![
                    EffectView::Stderr("ディレクトリの移動に失敗しました｡ "@ + text),
                    EffectView::Reply(ShellMsg::Continue(1)),
                ],
                RequestView::Idle,
            ),
        }),
{
}

/// The signal of a child process has the worker wait; no other signal has it do anything.
pub proof fn law_signals(worker: WorkerView, sig: Sig)
    ensures
        worker.handle(WorkerMsg::Signal(sig)) == (
            worker,
            Seq::<EffectView>::empty(),
            if sig is Child {
                RequestView::Wait
            } else {
                RequestView::Idle
            },
        ),
{
}

/// A new job has the smallest number that no job has; there is none exactly where every number
/// is taken.
pub proof fn law_new_number(worker: WorkerView)
    ensures
        match worker.new_job_id() {
            Some(job_id) => {
                &&& !worker.jobs.contains_key(job_id)
                &&& forall|other: usize|
                    other < job_id ==> #[trigger] worker.jobs.contains_key(other)
            },
            None => forall|other: usize| #[trigger] worker.jobs.contains_key(other),
        },
{
    if worker.new_job_id() is None {
        assert forall|other: usize| #[trigger] worker.jobs.contains_key(other) by {
            if !worker.jobs.contains_key(other) {
                lemma_smallest(worker, other);
            }
        }
    } else {
        let job_id = worker.new_job_id()->0;
        assert(worker.is_new_job_id(job_id));
    }
}

proof fn lemma_smallest(worker: WorkerView, free: usize)
    requires
        !worker.jobs.contains_key(free),
    ensures
        exists|job_id: usize| worker.is_new_job_id(job_id),
    decreases free,
{
    if forall|other: usize| other < free ==> #[trigger] worker.jobs.contains_key(other) {
        assert(worker.is_new_job_id(free));
    } else {
        let other = choose|other: usize|
            other < free && !(#[trigger] worker.jobs.contains_key(other));
        lemma_smallest(worker, other);
    }
}

/// Whether a command line is to become a job: it is not one built-in command.
pub open spec fn becomes_job(cmds: Seq<parser::CommandView>) -> bool {
    cmds.len() > 1 || (cmds.len() == 1 && cmds[0].0 != "exit"@ && cmds[0].0 != "jobs"@
        && cmds[0].0 != "fg"@ && cmds[0].0 != "cd"@)
}

/// A command line of one command that is not built in runs that command: the one process asked
/// for runs it with the shell's own input and output. Once it runs, it is a job of its own, in
/// the foreground.
pub proof fn law_one_command(worker: WorkerView, line: String, free: usize, child: Pid)
    requires
        parser::line_commands(line@).len() == 1,
        becomes_job(parser::line_commands(line@)),
        !worker.jobs.contains_key(free),
    ensures
        ({
            let (after, effects, request) = worker.handle(WorkerMsg::Cmd(line));
            &&& after == worker
            &&& effects == Seq::<EffectView>::empty()
            &&& request is Fork
            &&& {
                let spawn = request->Fork_0;
                let process = request->Fork_1;
                let (started, launch) = worker.forked(spawn, Ok(child));
                &&& process == Process { pgid: 0, program: 0, input: None, output: None }
                &&& spawn.cmd == parser::line_commands(line@)
                &&& is_entered(worker, started, child, set![child], line@)
                &&& started.answered(launch) == (
                    seq![EffectView::Join(child, 0), EffectView::Foreground(child)],
                    RequestView::Idle,
                )
            }
        }),
{
    let cmds = parser::line_commands(line@);
    law_new_number(worker);
    let request = worker.handle(WorkerMsg::Cmd(line)).2;
    let spawn = request->Fork_0;
    assert(worker.handle(WorkerMsg::Cmd(line)).1 =~= Seq::empty());
    assert(spawn.closes() =~= Seq::empty());
    let (started, launch) = worker.forked(spawn, Ok(child));
    assert(spawn.pids(child).dom() =~= set![child]);
    lemma_entered(worker, spawn, child, set![child]);
    assert(launch.0 =~= seq![EffectView::Join(child, 0), EffectView::Foreground(child)]);
}

/// What is asked for first when a job is started, whatever its commands and their arguments
/// are: a pipe for two commands of which the second is no redirection, the file that the
/// redirection names where it is one, and the process itself for one command. The job on its way
/// has the line, the commands and the smallest free number, and holds no files yet.
pub proof fn law_asked_first(
    worker: WorkerView,
    line: Seq<char>,
    cmd: Seq<parser::CommandView>,
    free: usize,
)
    requires
        1 <= cmd.len() <= 2,
        cmd.len() == 2 && cmd[1].0 == ">"@ ==> cmd[1].1.len() == 2,
        !worker.jobs.contains_key(free),
    ensures
        ({
            let (effects, request) = worker.spawn_child(line, cmd);
            &&& effects.len() == 0
            &&& request is Some
            &&& {
                let spawn = match request->0 {
                    RequestView::Pipe(spawn) => spawn,
                    RequestView::Open(spawn, _) => spawn,
                    _ => request->0->Fork_0,
                };
                &&& cmd.len() == 2 && cmd[1].0 != ">"@ ==> request->0 is Pipe
                &&& cmd.len() == 2 && cmd[1].0 == ">"@ ==> request->0 is Open
                    && request->0->Open_1 == cmd[1].1[1]
                &&& cmd.len() == 1 ==> request->0 is Fork && request->0->Fork_1 == Process {
                    pgid: 0,
                    program: 0,
                    input: None,
                    output: None,
                }
                &&& spawn.line == line
                &&& spawn.cmd == cmd
                &&& spawn.input is None
                &&& spawn.output is None
                &&& spawn.first is None
                &&& !worker.jobs.contains_key(spawn.job_id)
                &&& forall|other: usize|
                    other < spawn.job_id ==> #[trigger] worker.jobs.contains_key(other)
            }
        }),
{
    law_new_number(worker);
}

/// Once its files are there, the first process of a job runs the first command with the shell's
/// input and with the end of the pipe or the file to write to as its output, whatever the
/// commands and their arguments are, unless the first of two commands is a redirection.
pub proof fn law_first_process(worker: WorkerView, spawn: SpawnView, input: Fd, output: Fd)
    requires
        spawn.cmd.len() == 2 ==> spawn.cmd[0].0 != ">"@,
    ensures
        worker.piped(spawn, input, output) == (
            Seq::<EffectView>::empty(),
            RequestView::Fork(
                SpawnView { input: Some(input), output: Some(output), ..spawn },
                Process { pgid: 0, program: 0, input: None, output: Some(output) },
            ),
        ),
        worker.opened(spawn, output) == (
            Seq::<EffectView>::empty(),
            RequestView::Fork(
                SpawnView { output: Some(output), ..spawn },
                Process { pgid: 0, program: 0, input: None, output: Some(output) },
            ),
        ),
{
}

/// Once the first process of a pipe runs, the second is asked for: it runs the second command,
/// in the group of the first, with the pipe as its input and the shell's output, whatever the
/// commands and their arguments are.
pub proof fn law_second_process(worker: WorkerView, spawn: SpawnView, child: Pid)
    requires
        spawn.cmd.len() == 2,
        spawn.cmd[1].0 != ">"@,
        spawn.first is None,
    ensures
        ({
            let (after, launch) = worker.forked(spawn, Ok(child));
            &&& after == worker
            &&& after.answered(launch) == (
                seq![EffectView::Join(child, 0)],
                RequestView::Fork(
                    SpawnView { first: Some(child), ..spawn },
                    Process { pgid: child, program: 1, input: spawn.input, output: None },
                ),
            )
        }),
{
}

/// The tables have room for a job exactly where its number, its group and its processes are not
/// in them, which matters once its last process runs. A change of state is admitted unless an
/// unknown process has stopped.
pub proof fn law_admitted(
    worker: WorkerView,
    spawn: SpawnView,
    child: Pid,
    result: Result<WaitStatus, SysError>,
)
    ensures
        worker.has_room(spawn, child) == ({
            let pgid = if spawn.first is Some {
                spawn.first->0
            } else {
                child
            };
            ||| (spawn.first is None && spawn.cmd.len() == 2 && spawn.cmd[1].0 != ">"@)
            ||| (!worker.jobs.contains_key(spawn.job_id) && !worker.groups.contains_key(pgid)
                && !worker.procs.contains_key(pgid) && !worker.procs.contains_key(child))
        }),
        worker.admits(result) == (match result {
            Ok(WaitStatus::Stopped(pid)) => worker.procs.contains_key(pid),
            Ok(WaitStatus::Traced(pid)) => worker.procs.contains_key(pid),
            _ => true,
        }),
        spawn.wf() == (spawn.cmd.len() == 1 || spawn.cmd.len() == 2),
{
}

/// Whether a worker has got one more job, in the foreground: with the smallest free number, the
/// command line, the group and just these processes, all of them running. Nothing else has
/// changed.
pub open spec fn is_entered(
    before: WorkerView,
    after: WorkerView,
    pgid: Pid,
    members: Set<Pid>,
    line: Seq<char>,
) -> bool {
    exists|job_id: usize|
        {
            &&& !before.jobs.contains_key(job_id)
            &&& forall|other: usize| other < job_id ==> #[trigger] before.jobs.contains_key(other)
            &&& #[trigger] after.jobs.contains_key(job_id)
            &&& after.jobs == before.jobs.insert(job_id, (pgid, line))
            &&& after.groups == before.groups.insert(pgid, (job_id, members))
            &&& forall|pid: Pid| #[trigger]
                after.procs.contains_key(pid) <==> before.procs.contains_key(pid)
                    || members.contains(pid)
            &&& forall|pid: Pid|
                after.procs.contains_key(pid) ==> #[trigger] after.procs[pid] == (
                if members.contains(pid) {
                    ProcInfo { state: ProcState::Run, pgid }
                } else {
                    before.procs[pid]
                })
            &&& after.fg == Some(pgid)
            &&& after.exit_val == before.exit_val
            &&& after.shell_pgid == before.shell_pgid
        }
}

proof fn lemma_entered(worker: WorkerView, spawn: SpawnView, child: Pid, members: Set<Pid>)
    requires
        worker.is_new_job_id(spawn.job_id),
        spawn.pids(child).dom() == members,
    ensures
        is_entered(
            worker,
            worker.registered(spawn, child),
            spawn.pgid(child),
            members,
            spawn.line,
        ),
{
    let after = worker.registered(spawn, child);
    let pids = spawn.pids(child);
    assert(after.jobs.contains_key(spawn.job_id));
    assert forall|pid: Pid| #[trigger] after.procs.contains_key(pid) <==> worker.procs.contains_key(
        pid,
    ) || members.contains(pid) by {
        assert(members.contains(pid) == pids.contains_key(pid));
    }
    assert forall|pid: Pid| after.procs.contains_key(pid) implies #[trigger] after.procs[pid] == (
    if members.contains(pid) {
        ProcInfo { state: ProcState::Run, pgid: spawn.pgid(child) }
    } else {
        worker.procs[pid]
    }) by {
        assert(members.contains(pid) == pids.contains_key(pid));
    }
}

/// Two commands joined by a pipe. The worker asks for a pipe, and for nothing else. The process
/// asked for then runs the first command with the shell's input, and writes to the pipe; the
/// next runs the second command, reads from the pipe and has the shell's output. Both are then
/// one job in the foreground, and the shell has closed the two ends.
pub proof fn law_pipe_job(
    worker: WorkerView,
    line: String,
    free: usize,
    input: Fd,
    output: Fd,
    first: Pid,
    second: Pid,
)
    requires
        parser::line_commands(line@).len() == 2,
        parser::line_commands(line@)[0].0 != ">"@,
        parser::line_commands(line@)[1].0 != ">"@,
        !worker.jobs.contains_key(free),
    ensures
        ({
            let (after, effects, request) = worker.handle(WorkerMsg::Cmd(line));
            &&& after == worker
            &&& effects == Seq::<EffectView>::empty()
            &&& request is Pipe
            &&& {
                let (effects, request) = worker.piped(request->Pipe_0, input, output);
                &&& effects == Seq::<EffectView>::empty()
                &&& request is Fork
                &&& request->Fork_0.cmd == parser::line_commands(line@)
                &&& request->Fork_1 == Process {
                    pgid: 0,
                    program: 0,
                    input: None,
                    output: Some(output),
                }
                &&& {
                    let (after, launch) = worker.forked(request->Fork_0, Ok(first));
                    let (effects, request) = after.answered(launch);
                    &&& after == worker
                    &&& effects == seq![EffectView::Join(first, 0)]
                    &&& request is Fork
                    &&& request->Fork_0.cmd == parser::line_commands(line@)
                    &&& request->Fork_1 == Process {
                        pgid: first,
                        program: 1,
                        input: Some(input),
                        output: None,
                    }
                    &&& {
                        let (started, launch) = worker.forked(request->Fork_0, Ok(second));
                        let (effects, request) = started.answered(launch);
                        &&& is_entered(worker, started, first, set![first, second], line@)
                        &&& effects == seq![
                            EffectView::Join(second, first),
                            EffectView::Close(input),
                            EffectView::Close(output),
                            EffectView::Foreground(first),
                        ]
                        &&& request is Idle
                    }
                }
            }
        }),
{
    law_new_number(worker);
    let spawn = worker.handle(WorkerMsg::Cmd(line)).2->Pipe_0;
    assert(worker.handle(WorkerMsg::Cmd(line)).1 =~= Seq::empty());
    let (effects, request) = worker.piped(spawn, input, output);
    let wired = request->Fork_0;
    let (after, launch) = worker.forked(wired, Ok(first));
    let led = after.answered(launch).1->Fork_0;
    assert(led.closes() =~= seq![EffectView::Close(input), EffectView::Close(output)]);
    assert(led.pids(second).dom() =~= set![first, second]);
    lemma_entered(worker, led, second, set![first, second]);
    let (started, done) = worker.forked(led, Ok(second));
    assert(done.0 =~= seq![
        EffectView::Join(second, first),
        EffectView::Close(input),
        EffectView::Close(output),
        EffectView::Foreground(first),
    ]);
}

/// One command whose output goes to a file. The worker asks for exactly the file that is named
/// behind `>`, whatever the command and its arguments are. The one process asked for then runs
/// the command with the shell's input, and writes to that file. It is then a job in the
/// foreground, and the shell has closed the file.
pub proof fn law_redirected_job(
    worker: WorkerView,
    line: String,
    free: usize,
    file: Fd,
    child: Pid,
)
    requires
        parser::line_commands(line@).len() == 2,
        parser::line_commands(line@)[0].0 != ">"@,
        parser::line_commands(line@)[1].0 == ">"@,
        parser::line_commands(line@)[1].1.len() == 2,
        !worker.jobs.contains_key(free),
    ensures
        ({
            let cmds = parser::line_commands(line@);
            let (after, effects, request) = worker.handle(WorkerMsg::Cmd(line));
            &&& after == worker
            &&& effects == Seq::<EffectView>::empty()
            &&& request is Open
            &&& request->Open_1 == cmds[1].1[1]
            &&& {
                let (effects, request) = worker.opened(request->Open_0, file);
                &&& effects == Seq::<EffectView>::empty()
                &&& request is Fork
                &&& request->Fork_0.cmd == cmds
                &&& request->Fork_1 == Process {
                    pgid: 0,
                    program: 0,
                    input: None,
                    output: Some(file),
                }
                &&& {
                    let (started, launch) = worker.forked(request->Fork_0, Ok(child));
                    let (effects, request) = started.answered(launch);
                    &&& is_entered(worker, started, child, set![child], line@)
                    &&& effects == seq![
                        EffectView::Join(child, 0),
                        EffectView::Close(file),
                        EffectView::Foreground(child),
                    ]
                    &&& request is Idle
                }
            }
        }),
{
    law_new_number(worker);
    let spawn = worker.handle(WorkerMsg::Cmd(line)).2->Open_0;
    assert(worker.handle(WorkerMsg::Cmd(line)).1 =~= Seq::empty());
    let wired = worker.opened(spawn, file).1->Fork_0;
    assert(wired.closes() =~= seq![EffectView::Close(file)]);
    assert(wired.pids(child).dom() =~= set![child]);
    lemma_entered(worker, wired, child, set![child]);
    let (started, done) = worker.forked(wired, Ok(child));
    assert(done.0 =~= seq![
        EffectView::Join(child, 0),
        EffectView::Close(file),
        EffectView::Foreground(child),
    ]);
}

/// The words of a command with `>` and a file behind them, as they are typed: the worker asks for
/// exactly that file, and the process that it then asks for runs the command that the words
/// before `>` are, with all of them, and writes to that file.
pub proof fn law_typed_redirection(
    worker: WorkerView,
    line: String,
    words: Seq<Seq<char>>,
    path: Seq<char>,
    free: usize,
    file: Fd,
)
    requires
        words.len() >= 1,
        parser::is_typed(words.push(">"@).push(path)),
        forall|i: int| 0 <= i < words.len() ==> #[trigger] words[i] != ">"@,
        path != ">"@,
        line@ == text::joined(words.push(">"@).push(path), seq![' ']),
        !worker.jobs.contains_key(free),
    ensures
        ({
            let request = worker.handle(WorkerMsg::Cmd(line)).2;
            let next = worker.opened(request->Open_0, file).1;
            let process = next->Fork_1;
            &&& request is Open
            &&& request->Open_1 == path
            &&& next is Fork
            &&& next->Fork_0.cmd[process.program as int] == (words[0], words)
            &&& process.input is None
            &&& process.output == Some(file)
        }),
{
    parser::law_redirection(words, path);
    law_redirected_job(worker, line, free, file, 1);
}

/// Two commands with `|` between them, as they are typed: the first one's words are what the
/// process that writes to the pipe runs, and the second one's words what the process that reads
/// from it runs.
pub proof fn law_typed_pipe(
    worker: WorkerView,
    line: String,
    left: Seq<Seq<char>>,
    right: Seq<Seq<char>>,
    free: usize,
    input: Fd,
    output: Fd,
    first: Pid,
)
    requires
        left.len() >= 2,
        right.len() >= 2,
        parser::is_typed(left),
        parser::is_typed(right),
        forall|i: int| 0 <= i < left.len() ==> #[trigger] left[i] != ">"@,
        forall|i: int| 0 <= i < right.len() ==> #[trigger] right[i] != ">"@,
        line@ == text::joined(left, seq![' ']) + seq!['|'] + text::joined(right, seq![' ']),
        !worker.jobs.contains_key(free),
    ensures
        ({
            let request = worker.handle(WorkerMsg::Cmd(line)).2;
            let writes = worker.piped(request->Pipe_0, input, output).1;
            let (after, launch) = worker.forked(writes->Fork_0, Ok(first));
            let reads = after.answered(launch).1;
            &&& request is Pipe
            &&& writes is Fork
            &&& writes->Fork_0.cmd[writes->Fork_1.program as int] == (left[0], left)
            &&& writes->Fork_1.input is None
            &&& writes->Fork_1.output == Some(output)
            &&& reads is Fork
            &&& reads->Fork_0.cmd[reads->Fork_1.program as int] == (right[0], right)
            &&& reads->Fork_1.input == Some(input)
            &&& reads->Fork_1.output is None
        }),
{
    parser::law_command(left);
    parser::law_command(right);
    parser::law_pipe(text::joined(left, seq![' ']), text::joined(right, seq![' ']));
    assert(parser::line_commands(line@) =~= seq![(left[0], left), (right[0], right)]);
    law_pipe_job(worker, line, free, input, output, first, 1);
}

/// A command line that cannot be a job says so, and the shell reads on with the exit code as it
/// was: where there are more than two commands, where a redirection names no file or more than
/// one, and where every number is taken. Nothing else is done or asked for, and nothing changes.
pub proof fn law_refused(worker: WorkerView, line: String)
    requires
        becomes_job(parser::line_commands(line@)),
    ensures
        ({
            let cmds = parser::line_commands(line@);
            let refused = |text: Seq<char>|
                worker.handle(WorkerMsg::Cmd(line)) == (
                    worker,
                    seq![
                        EffectView::Stderr(text),
                        EffectView::Reply(ShellMsg::Continue(worker.exit_val)),
                    ],
                    RequestView::Idle,
                );
            if forall|id: usize| #[trigger] worker.jobs.contains_key(id) {
                refused("rush: 管理可能なジョブの最大値に到達"@)
            } else if cmds.len() > 2 {
                refused("rush: 3つ以上のコマンドによるパイプはサポートしていません｡"@)
            } else if cmds.len() == 2 && cmds[1].0 == ">"@ && cmds[1].1.len() != 2 {
                refused("rush: 無効なリダイレクト"@)
            } else {
                worker.handle(WorkerMsg::Cmd(line)).2 !is Idle
            }
        }),
{
    law_new_number(worker);
    let cmds = parser::line_commands(line@);
    let (_, effects, _) = worker.handle(WorkerMsg::Cmd(line));
    let (said, _) = worker.spawn_child(line@, cmds);
    let reply = EffectView::Reply(ShellMsg::Continue(worker.exit_val));
    if said.len() > 0 {
        assert(said =~= seq![said[0]]);
        assert(effects =~= seq![said[0], reply]);
    }
    let all = forall|id: usize| #[trigger] worker.jobs.contains_key(id);
    if !all {
        assert(worker.new_job_id() is Some);
    }
}

/// A redirection cannot be the first of two commands: the job is given up once its files are
/// there, and they are closed.
pub proof fn law_redirection_first(worker: WorkerView, spawn: SpawnView, input: Fd, output: Fd)
    requires
        spawn.cmd.len() == 2,
        spawn.cmd[0].0 == ">"@,
        spawn.input is None,
    ensures
        worker.piped(spawn, input, output) == (
            seq![
                EffectView::Stderr("rush: 無効なリダイレクト"@),
                EffectView::Close(input),
                EffectView::Close(output),
                EffectView::Reply(ShellMsg::Continue(worker.exit_val)),
            ],
            RequestView::Idle,
        ),
        worker.opened(spawn, output) == (
            seq![
                EffectView::Stderr("rush: 無効なリダイレクト"@),
                EffectView::Close(output),
                EffectView::Reply(ShellMsg::Continue(worker.exit_val)),
            ],
            RequestView::Idle,
        ),
{
    assert(worker.piped(spawn, input, output).0 =~= seq![
        EffectView::Stderr("rush: 無効なリダイレクト"@),
        EffectView::Close(input),
        EffectView::Close(output),
        EffectView::Reply(ShellMsg::Continue(worker.exit_val)),
    ]);
    assert(worker.opened(spawn, output).0 =~= seq![
        EffectView::Stderr("rush: 無効なリダイレクト"@),
        EffectView::Close(output),
        EffectView::Reply(ShellMsg::Continue(worker.exit_val)),
    ]);
}

/// A process that cannot be started gives its job up: a message says why, the files that the
/// shell holds for the job are closed, and the shell reads on with the exit code as it was.
/// Nothing changes.
pub proof fn law_not_started(worker: WorkerView, spawn: SpawnView, text: Seq<char>)
    ensures
        ({
            let (after, launch) = worker.forked(spawn, Err(text));
            let (effects, request) = after.answered(launch);
            let said = EffectView::Stderr(
                if spawn.first is None {
                    "rush: プロセス生成エラー: "@ + text
                } else {
                    "rush:プロセス生成エラー"@ + text
                },
            );
            let reply = EffectView::Reply(ShellMsg::Continue(worker.exit_val));
            &&& after == worker
            &&& request is Idle
            &&& effects == (match (spawn.input, spawn.output) {
                (Some(input), Some(output)) => seq![
                    said,
                    EffectView::Close(input),
                    EffectView::Close(output),
                    reply,
                ],
                (Some(fd), None) | (None, Some(fd)) => seq![said, EffectView::Close(fd), reply],
                (None, None) => seq![said, reply],
            })
        }),
{
    let (after, launch) = worker.forked(spawn, Err(text));
    let effects = after.answered(launch).0;
    let said = effects[0];
    let reply = EffectView::Reply(ShellMsg::Continue(worker.exit_val));
    match (spawn.input, spawn.output) {
        (Some(input), Some(output)) => {
            assert(effects =~= seq![
                said,
                EffectView::Close(input),
                EffectView::Close(output),
                reply,
            ]);
        },
        (Some(fd), None) | (None, Some(fd)) => {
            assert(effects =~= seq![said, EffectView::Close(fd), reply]);
        },
        (None, None) => {
            assert(effects =~= seq![said, reply]);
        },
    }
}

/// The shell at its start reads the history from its file, and then asks for a line with a
/// smile, whether the history could be read or not; where not, it says why first.
pub proof fn law_start(logfile: Seq<char>, result: Result<(), String>)
    ensures
        shell::step(logfile, Stage::Begin, Event::Start) == (
            seq![TaskView::Load(logfile)],
            Stage::Loading,
        ),
        shell::step(logfile, Stage::Loading, Event::History(result)) == (
            match result {
                Ok(()) => seq![TaskView::Prompt("rush "@ + "\u{1F642}"@ + " %> "@)],
                Err(error) => seq![
                    TaskView::Stderr("rush: ヒストリファイルの読み込みに失敗: "@ + error@),
                    TaskView::Prompt("rush "@ + "\u{1F642}"@ + " %> "@),
                ],
            },
            Stage::Reading(0),
        ),
{
    if let Err(error) = result {
        assert(shell::step(logfile, Stage::Loading, Event::History(result)).0 =~= seq![
            TaskView::Stderr("rush: ヒストリファイルの読み込みに失敗: "@ + error@),
            TaskView::Prompt("rush "@ + "\u{1F642}"@ + " %> "@),
        ]);
    }
}

/// The shell reads on with the exit code of the answer: with a smile where it is 0, and with a
/// skull where it is not.
pub proof fn law_face(logfile: Seq<char>, exit_val: i32)
    ensures
        shell::step(logfile, Stage::Replying, Event::Reply(ShellMsg::Continue(exit_val))) == (
            seq![
                TaskView::Prompt(
                    "rush "@ + (if exit_val == 0 {
                        "\u{1F642}"@
                    } else {
                        "\u{1F480}"@
                    }) + " %> "@,
                ),
            ],
            Stage::Reading(exit_val),
        ),
{
}

/// A line that is not blank is remembered without the white space around it, and sent to the
/// worker as it was typed. A blank line is asked for again, with the same face.
pub proof fn law_line(logfile: Seq<char>, exit_val: i32, line: String)
    ensures
        shell::step(logfile, Stage::Reading(exit_val), Event::Input(Input::Line(line))) == (
        if forall|i: int|
            0 <= i < line@.len() ==> text::is_white_space_spec(#[trigger] line@[i]) {
            (
                seq![
                    TaskView::Prompt(
                        "rush "@ + (if exit_val == 0 {
                            "\u{1F642}"@
                        } else {
                            "\u{1F480}"@
                        }) + " %> "@,
                    ),
                ],
                Stage::Reading(exit_val),
            )
        } else {
            (
                seq![TaskView::Remember(text::trimmed(line@)), TaskView::Send(line@)],
                Stage::Replying,
            )
        }),
{
    crate::laws::law_blank_line(logfile, exit_val, line);
    assert(parser::is_blank(line@) == (forall|i: int|
        0 <= i < line@.len() ==> text::is_white_space_spec(#[trigger] line@[i])));
}

/// An interruption is explained, and the line is asked for again with the same face.
pub proof fn law_interruption(logfile: Seq<char>, exit_val: i32)
    ensures
        shell::step(logfile, Stage::Reading(exit_val), Event::Input(Input::Interrupted)) == (
            seq![
                TaskView::Stderr("rush: 終了はCtrl+d"@),
                TaskView::Prompt(
                    "rush "@ + (if exit_val == 0 {
                        "\u{1F642}"@
                    } else {
                        "\u{1F480}"@
                    }) + " %> "@,
                ),
            ],
            Stage::Reading(exit_val),
        ),
{
    assert(shell::step(logfile, Stage::Reading(exit_val), Event::Input(Input::Interrupted)).0
        =~= seq![
        TaskView::Stderr("rush: 終了はCtrl+d"@),
        TaskView::Prompt(
            "rush "@ + (if exit_val == 0 {
                "\u{1F642}"@
            } else {
                "\u{1F480}"@
            }) + " %> "@,
        ),
    ]);
}

/// At the end of the input the worker is asked to leave. A reading error is told, and the shell
/// ends with the exit code 1.
pub proof fn law_input_over(logfile: Seq<char>, exit_val: i32, error: String)
    ensures
        shell::step(logfile, Stage::Reading(exit_val), Event::Input(Input::Eof)) == (
            seq![TaskView::Send("exit"@)],
            Stage::Leaving,
        ),
        shell::step(logfile, Stage::Reading(exit_val), Event::Input(Input::Failed(error))) == (
            seq![
                TaskView::Stderr("rush: 読み込みエラー\n"@ + error@),
                TaskView::Save(logfile),
            ],
            Stage::Saving(1),
        ),
{
}

/// When the worker leaves, the history is written to its file, and the program ends with the
/// worker's exit code, whether the history could be written or not; where not, it says why.
pub proof fn law_leaving(logfile: Seq<char>, code: i32, result: Result<(), String>)
    ensures
        shell::step(logfile, Stage::Replying, Event::Reply(ShellMsg::Quit(code))) == (
            seq![TaskView::Save(logfile)],
            Stage::Saving(code),
        ),
        shell::step(logfile, Stage::Leaving, Event::Reply(ShellMsg::Quit(code))) == (
            seq![TaskView::Save(logfile)],
            Stage::Saving(code),
        ),
        shell::step(logfile, Stage::Saving(code), Event::History(result)) == (
            match result {
                Ok(()) => Seq::empty(),
                Err(error) => seq![
                    TaskView::Stderr("rush: ヒストリファイルへの書き込みに失敗: "@ + error@),
                ],
            },
            Stage::Ended(code),
        ),
{
}

/// An event is awaited exactly where the shell has asked for it: the start at the beginning, the
/// history while it is read or written, a line while one is read, and an answer while a line is
/// with the worker. A worker that has been asked to leave does not have the shell read on.
pub proof fn law_awaited(stage: Stage, event: Event)
    ensures
        stage.awaits_spec(event) == (match event {
            Event::Start => stage is Begin,
            Event::History(_) => stage is Loading || stage is Saving,
            Event::Input(_) => stage is Reading,
            Event::Reply(msg) => stage is Replying || (stage is Leaving && msg is Quit),
        }),
{
}

/// A negative number is written as its opposite with `-` in front, any other without a sign.
pub proof fn law_signed(n: int)
    ensures
        n >= 0 ==> number::signed_decimal(n) == number::decimal(n as nat),
        n < 0 ==> number::signed_decimal(n) == seq!['-'] + number::decimal((-n) as nat),
{
    reveal_strlit("-");
    assert("-"@ =~= seq!['-']);
}

/// A new worker has the exit code 0 and no jobs, groups or processes, and the shell is in the
/// foreground.
pub proof fn law_new_worker(shell_pgid: Pid)
    ensures
        ({
            let worker = WorkerView::new(shell_pgid);
            &&& worker.exit_val == 0
            &&& worker.fg is None
            &&& worker.shell_pgid == shell_pgid
            &&& worker.jobs == Map::<usize, (Pid, Seq<char>)>::empty()
            &&& worker.groups == Map::<Pid, (usize, Set<Pid>)>::empty()
            &&& worker.procs == Map::<Pid, ProcInfo>::empty()
        }),
{
}

/// Entering a job adds its number with its group and line, its group with its number and
/// processes, and its processes, and changes nothing else.
pub proof fn law_insert_job(
    worker: WorkerView,
    job_id: usize,
    pgid: Pid,
    pids: Map<Pid, ProcInfo>,
    line: Seq<char>,
)
    ensures
        ({
            let after = worker.insert_job(job_id, pgid, pids, line);
            &&& after.jobs == worker.jobs.insert(job_id, (pgid, line))
            &&& after.groups == worker.groups.insert(pgid, (job_id, pids.dom()))
            &&& forall|pid: Pid| #[trigger]
                after.procs.contains_key(pid) <==> pids.contains_key(pid)
                    || worker.procs.contains_key(pid)
            &&& forall|pid: Pid|
                pids.contains_key(pid) ==> #[trigger] after.procs[pid] == pids[pid]
            &&& forall|pid: Pid|
                worker.procs.contains_key(pid) && !pids.contains_key(pid)
                    ==> #[trigger] after.procs[pid] == worker.procs[pid]
            &&& after.exit_val == worker.exit_val
            &&& after.fg == worker.fg
            &&& after.shell_pgid == worker.shell_pgid
        }),
{
}

/// Taking a process out takes it out of its group and out of the processes, and no other;
/// taking a job out takes its number and its group out. Setting a state changes that process's
/// state only.
pub proof fn law_tables(worker: WorkerView, pid: Pid, job_id: usize, state: ProcState)
    requires
        worker.wf(),
        worker.procs.contains_key(pid),
        worker.jobs.contains_key(job_id),
    ensures
        ({
            let pgid = worker.procs[pid].pgid;
            let removed = worker.remove_pid(pid);
            let closed = worker.remove_job(job_id);
            let set = worker.set_pid_state(pid, state);
            &&& worker.home(pid) == Some((worker.groups[pgid].0, pgid))
            &&& removed == WorkerView {
                procs: worker.procs.remove(pid),
                groups: worker.groups.insert(
                    pgid,
                    (worker.groups[pgid].0, worker.groups[pgid].1.remove(pid)),
                ),
                ..worker
            }
            &&& closed == WorkerView {
                jobs: worker.jobs.remove(job_id),
                groups: worker.groups.remove(worker.jobs[job_id].0),
                ..worker
            }
            &&& set == WorkerView {
                procs: worker.procs.insert(pid, ProcInfo { state, pgid }),
                ..worker
            }
        }),
{
}

} // verus!

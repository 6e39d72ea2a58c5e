use rush::builtin::BuiltIn;
use rush::child::ChildStep;
use rush::control::{syscall, ErrorKind, SysError, WaitStatus};
use rush::dispatch::{Sig, WorkerMsg};
use rush::effect::{Effect, Effects, ShellMsg};
use rush::message;
use rush::parser::parse_cmd;
use rush::request::{Process, Request, Spawn};
use rush::worker::{ProcInfo, ProcState, Worker};

const REFUSED: &str = "rush: 無効なリダイレクト";

fn err(text: &str) -> Effect {
    Effect::Stderr(text.to_string())
}

fn read_on(exit_val: i32) -> Effect {
    Effect::Reply(ShellMsg::Continue(exit_val))
}

fn quit(exit_val: i32) -> Effect {
    Effect::Reply(ShellMsg::Quit(exit_val))
}

/// A command line that the worker is done with at once: what is to be done.
fn at_once(worker: &mut Worker, line: &str) -> Vec<Effect> {
    let msg = WorkerMsg::Cmd(line.to_string());
    let mut effects = Effects::new();
    let request = worker.handle(&msg, &mut effects);
    assert!(matches!(request, Request::Idle), "{request:?}");
    effects.list
}

/// A command line of one command that becomes a job with one process.
fn start(worker: &mut Worker, line: &str, child: i32) -> Vec<Effect> {
    let msg = WorkerMsg::Cmd(line.to_string());
    let mut effects = Effects::new();
    match worker.handle(&msg, &mut effects) {
        Request::Fork(spawn, process) => {
            assert_eq!(
                process,
                Process {
                    pgid: 0,
                    program: 0,
                    input: None,
                    output: None
                }
            );
            assert!(worker.has_room(&spawn, child));
            let request = worker.forked(spawn, Ok(child), &mut effects);
            assert!(matches!(request, Request::Idle), "{request:?}");
        }
        other => panic!("{other:?}"),
    }
    effects.list
}

/// The job of a command line that is a pipe, with its two ends.
fn piped<'a>(worker: &mut Worker, msg: &'a WorkerMsg) -> (Spawn<'a>, Process) {
    let mut effects = Effects::new();
    let spawn = match worker.handle(msg, &mut effects) {
        Request::Pipe(spawn) => spawn,
        other => panic!("{other:?}"),
    };
    let request = worker.piped(spawn, 7, 8, &mut effects);
    assert!(effects.list.is_empty());
    match request {
        Request::Fork(spawn, process) => (spawn, process),
        other => panic!("{other:?}"),
    }
}

/// A pipe whose two processes run.
fn start_pipe(worker: &mut Worker, line: &str, first: i32, second: i32) -> Vec<Effect> {
    let msg = WorkerMsg::Cmd(line.to_string());
    let (spawn, _) = piped(worker, &msg);
    let mut effects = Effects::new();
    assert!(worker.has_room(&spawn, first));
    let spawn = match worker.forked(spawn, Ok(first), &mut effects) {
        Request::Fork(spawn, process) => {
            assert_eq!(
                process,
                Process {
                    pgid: first,
                    program: 1,
                    input: Some(7),
                    output: None
                }
            );
            spawn
        }
        other => panic!("{other:?}"),
    };
    assert_eq!(effects.list, vec![Effect::Join(first, 0)]);
    assert!(worker.has_room(&spawn, second));
    let request = worker.forked(spawn, Ok(second), &mut effects);
    assert!(matches!(request, Request::Idle), "{request:?}");
    effects.list
}

/// A change of state of a child process: what is to be done.
fn change(worker: &mut Worker, status: WaitStatus) -> Vec<Effect> {
    let mut effects = Effects::new();
    let request = worker.wait_child(Ok(status), &mut effects);
    assert!(matches!(request, Request::Wait), "{request:?}");
    effects.list
}

#[test]
fn exit_leaves_the_shell() {
    let mut worker = Worker::new(1);
    assert_eq!(at_once(&mut worker, "exit"), vec![quit(0)]);
    assert_eq!(at_once(&mut worker, "exit 3"), vec![quit(3)]);
    assert_eq!(at_once(&mut worker, "exit +5"), vec![quit(5)]);
    assert_eq!(at_once(&mut worker, "exit -7"), vec![quit(-7)]);
    assert_eq!(at_once(&mut worker, "exit 007 x"), vec![quit(7)]);
    assert_eq!(at_once(&mut worker, "exit 2147483647"), vec![quit(i32::MAX)]);
    assert_eq!(at_once(&mut worker, "exit -2147483648"), vec![quit(i32::MIN)]);
    assert_eq!(worker.exit_val(), 0);
}

#[test]
fn exit_refuses_what_is_no_number() {
    for arg in ["x", "+", "-", "1x", "2147483648", "-2147483649", "--1", "１", "3.0"] {
        let mut worker = Worker::new(1);
        assert_eq!(
            at_once(&mut worker, &format!("exit {arg}")),
            vec![err(&format!("{arg}は不正な引数です")), read_on(1)]
        );
        assert_eq!(worker.exit_val(), 1);
        assert_eq!(at_once(&mut worker, "exit"), vec![quit(1)]);
    }
    let mut worker = Worker::new(1);
    assert_eq!(
        at_once(&mut worker, "exit  3"),
        vec![err("は不正な引数です"), read_on(1)]
    );
}

#[test]
fn exit_waits_for_the_jobs() {
    let mut worker = Worker::new(1);
    start(&mut worker, "sleep 9", 10);
    change(&mut worker, WaitStatus::Stopped(10));
    assert_eq!(
        at_once(&mut worker, "exit 0"),
        vec![err("ジョブが実行中なので終了できません"), read_on(1)]
    );
    assert_eq!(worker.exit_val(), 1);
    change(&mut worker, WaitStatus::Exited(10, 4));
    assert_eq!(at_once(&mut worker, "exit"), vec![quit(4)]);
}

#[test]
fn a_job_runs_in_the_foreground_and_ends() {
    let mut worker = Worker::new(1);
    assert_eq!(
        start(&mut worker, "sleep 9", 10),
        vec![Effect::Join(10, 0), Effect::Foreground(10)]
    );
    assert_eq!(worker.fg(), Some(10));
    assert_eq!(worker.job(0), Some((10, "sleep 9")));
    assert_eq!(
        worker.info(10),
        Some(ProcInfo {
            state: ProcState::Run,
            pgid: 10
        })
    );
    assert_eq!(
        change(&mut worker, WaitStatus::Exited(10, 3)),
        vec![
            err("[0] 終了\tsleep 9"),
            Effect::Foreground(1),
            read_on(3),
        ]
    );
    assert_eq!(worker.fg(), None);
    assert_eq!(worker.exit_val(), 3);
    assert!(worker.no_jobs());
    assert!(!worker.knows(10));
    assert!(!worker.has_group(10));
}

#[test]
fn a_signal_ends_a_job() {
    let mut worker = Worker::new(1);
    start(&mut worker, "sleep 9", 10);
    assert_eq!(
        change(
            &mut worker,
            WaitStatus::Signaled(10, 2, "SIGINT".to_string(), false)
        ),
        vec![
            err("\nrush: 子プロセスがシグナルにより終了: pid = 10, siganl = SIGINT"),
            err("[0] 終了\tsleep 9"),
            Effect::Foreground(1),
            read_on(130),
        ]
    );
    start(&mut worker, "crash", 12);
    let effects = change(
        &mut worker,
        WaitStatus::Signaled(12, 11, "SIGSEGV".to_string(), true),
    );
    assert_eq!(
        effects[0],
        err("\nrush: 子プロセスがシグナルにより終了(コアダンプ): pid = 12, siganl = SIGSEGV")
    );
    assert_eq!(effects[3], read_on(139));
}

#[test]
fn a_job_stops_goes_on_behind_and_ends() {
    let mut worker = Worker::new(1);
    start(&mut worker, "vi x", 10);
    assert_eq!(
        change(&mut worker, WaitStatus::Stopped(10)),
        vec![
            err("\n[0] 停止\tvi x"),
            Effect::Foreground(1),
            read_on(0),
        ]
    );
    assert_eq!(worker.fg(), None);
    assert_eq!(
        at_once(&mut worker, "jobs"),
        vec![
            Effect::Stdout("[0] 停止中\tvi x".to_string()),
            read_on(0),
        ]
    );
    assert!(change(&mut worker, WaitStatus::Continued(10)).is_empty());
    assert_eq!(
        at_once(&mut worker, "jobs"),
        vec![
            Effect::Stdout("[0] 実行中\tvi x".to_string()),
            read_on(0),
        ]
    );
    assert_eq!(
        change(&mut worker, WaitStatus::Exited(10, 2)),
        vec![err("\n[0] 終了\tvi x")]
    );
    assert_eq!(worker.exit_val(), 2);
    assert!(worker.no_jobs());
}

#[test]
fn a_stop_in_the_background_is_silent() {
    let mut worker = Worker::new(1);
    start(&mut worker, "vi x", 10);
    change(&mut worker, WaitStatus::Stopped(10));
    change(&mut worker, WaitStatus::Continued(10));
    assert!(change(&mut worker, WaitStatus::Traced(10)).is_empty());
    assert_eq!(worker.is_group_stop(10), Some(true));
}

#[test]
fn a_stop_for_a_tracer_is_a_stop() {
    let mut worker = Worker::new(1);
    start(&mut worker, "vi x", 10);
    assert_eq!(
        change(&mut worker, WaitStatus::Traced(10)),
        vec![
            err("\n[0] 停止\tvi x"),
            Effect::Foreground(1),
            read_on(0),
        ]
    );
}

#[test]
fn fg_brings_a_job_back() {
    let mut worker = Worker::new(1);
    start(&mut worker, "vi x", 10);
    change(&mut worker, WaitStatus::Stopped(10));
    assert_eq!(
        at_once(&mut worker, "fg 0"),
        vec![
            err("[0] 再開\nvi x"),
            Effect::Foreground(10),
            Effect::Resume(10),
        ]
    );
    assert_eq!(worker.fg(), Some(10));
    assert_eq!(worker.exit_val(), 1);
    assert!(change(&mut worker, WaitStatus::Continued(10)).is_empty());
    assert_eq!(
        change(&mut worker, WaitStatus::Exited(10, 0)),
        vec![err("[0] 終了\tvi x"), Effect::Foreground(1), read_on(0)]
    );
}

#[test]
fn fg_says_what_it_does_not_find() {
    let mut worker = Worker::new(1);
    start(&mut worker, "vi x", 10);
    change(&mut worker, WaitStatus::Stopped(10));
    for arg in ["1", "x", "-0", "+", "18446744073709551616", "%0"] {
        assert_eq!(
            at_once(&mut worker, &format!("fg {arg}")),
            vec![
                err(&format!("{arg}というジョブは見つかりませんでした")),
                read_on(1)
            ]
        );
    }
    assert_eq!(
        at_once(&mut worker, "fg"),
        vec![err("usage: fg 数字"), read_on(1)]
    );
    assert_eq!(worker.fg(), None);
    assert_eq!(at_once(&mut worker, "fg +00").len(), 3);
    assert_eq!(worker.fg(), Some(10));
}

#[test]
fn jobs_are_listed_in_order() {
    let mut worker = Worker::new(1);
    for (line, pid) in [("a", 30), ("b", 20), ("c", 10)] {
        start(&mut worker, line, pid);
        change(&mut worker, WaitStatus::Stopped(pid));
    }
    change(&mut worker, WaitStatus::Exited(20, 7));
    change(&mut worker, WaitStatus::Continued(10));
    assert_eq!(
        at_once(&mut worker, "jobs"),
        vec![
            Effect::Stdout("[0] 停止中\ta".to_string()),
            Effect::Stdout("[2] 実行中\tc".to_string()),
            read_on(0),
        ]
    );
    assert_eq!(worker.exit_val(), 0);
    start(&mut worker, "d", 40);
    assert_eq!(worker.job(1), Some((40, "d")));
}

#[test]
fn jobs_without_jobs() {
    let mut worker = Worker::new(1);
    assert_eq!(at_once(&mut worker, "jobs"), vec![read_on(0)]);
}

#[test]
fn cd_changes_the_directory() {
    let mut worker = Worker::new(1);
    at_once(&mut worker, "exit x");
    let msg = WorkerMsg::Cmd("cd /tmp y".to_string());
    let mut effects = Effects::new();
    match worker.handle(&msg, &mut effects) {
        Request::ChangeDir(dir) => {
            assert_eq!(dir, "/tmp");
            assert!(effects.list.is_empty());
            let next = worker.changed_dir(Ok(()), &mut effects);
            assert!(matches!(next, Request::Idle));
        }
        other => panic!("{other:?}"),
    }
    assert_eq!(effects.list, vec![read_on(0)]);
    assert_eq!(worker.exit_val(), 0);
}

#[test]
fn cd_that_fails_is_answered() {
    let mut worker = Worker::new(1);
    let msg = WorkerMsg::Cmd("cd /no".to_string());
    let mut effects = Effects::new();
    match worker.handle(&msg, &mut effects) {
        Request::ChangeDir(dir) => {
            assert_eq!(dir, "/no");
            let next = worker.changed_dir(Err("gone".to_string()), &mut effects);
            assert!(matches!(next, Request::Idle));
        }
        other => panic!("{other:?}"),
    }
    assert_eq!(
        effects.list,
        vec![
            err("ディレクトリの移動に失敗しました｡ gone"),
            read_on(1)
        ]
    );
    assert_eq!(worker.exit_val(), 1);
    assert!(worker.no_jobs());
}

#[test]
fn cd_without_a_directory_is_answered() {
    let mut worker = Worker::new(1);
    assert_eq!(
        at_once(&mut worker, "cd"),
        vec![err("cd [移動先]"), read_on(0)]
    );
    at_once(&mut worker, "exit x");
    assert_eq!(
        at_once(&mut worker, "cd"),
        vec![err("cd [移動先]"), read_on(1)]
    );
    assert_eq!(worker.exit_val(), 1);
    assert!(worker.no_jobs());
}

#[test]
fn built_in_commands_are_told_from_others() {
    for (line, built_in) in [
        ("cd", true),
        ("exit", true),
        ("jobs", true),
        ("fg", true),
        ("ls", false),
        ("cd | ls", false),
        ("jobs > x", false),
    ] {
        let mut worker = Worker::new(1);
        let mut effects = Effects::new();
        let cmd = parse_cmd(line).unwrap();
        let done = worker.built_in_cmd(&cmd, &mut effects);
        assert_eq!(matches!(done, BuiltIn::Done), built_in, "{line}");
        assert_eq!(matches!(done, BuiltIn::NotDone), !built_in, "{line}");
        assert_eq!(effects.list.is_empty(), !built_in, "{line}");
    }
}

#[test]
fn built_in_commands_are_none_in_a_pipe() {
    let mut worker = Worker::new(1);
    let msg = WorkerMsg::Cmd("exit | jobs".to_string());
    let (spawn, process) = piped(&mut worker, &msg);
    assert_eq!(spawn.cmd, vec![("exit", vec![]), ("jobs", vec![])]);
    assert_eq!(process.program, 0);
}

#[test]
fn a_pipe_starts_two_processes() {
    let mut worker = Worker::new(1);
    let msg = WorkerMsg::Cmd("ls -l | wc".to_string());
    let (spawn, process) = piped(&mut worker, &msg);
    assert_eq!(
        process,
        Process {
            pgid: 0,
            program: 0,
            input: None,
            output: Some(8)
        }
    );
    assert_eq!(spawn.job_id, 0);
    assert_eq!(
        start_pipe(&mut worker, "ls -l | wc", 10, 11),
        vec![
            Effect::Join(10, 0),
            Effect::Join(11, 10),
            Effect::Close(7),
            Effect::Close(8),
            Effect::Foreground(10),
        ]
    );
    assert_eq!(worker.fg(), Some(10));
    assert_eq!(worker.info(11).map(|info| info.pgid), Some(10));
    assert!(change(&mut worker, WaitStatus::Exited(11, 5)).is_empty());
    assert_eq!(
        change(&mut worker, WaitStatus::Exited(10, 0)),
        vec![
            err("[0] 終了\tls -l | wc"),
            Effect::Foreground(1),
            read_on(0),
        ]
    );
    assert!(worker.no_jobs());
}

#[test]
fn a_pipe_stops_with_its_last_process() {
    let mut worker = Worker::new(1);
    start_pipe(&mut worker, "a | b", 10, 11);
    assert!(change(&mut worker, WaitStatus::Stopped(10)).is_empty());
    assert_eq!(
        change(&mut worker, WaitStatus::Stopped(11)),
        vec![
            err("\n[0] 停止\ta | b"),
            Effect::Foreground(1),
            read_on(0),
        ]
    );
}

#[test]
fn a_pipe_whose_rest_is_stopped_stops() {
    let mut worker = Worker::new(1);
    start_pipe(&mut worker, "a | b", 10, 11);
    assert!(change(&mut worker, WaitStatus::Stopped(10)).is_empty());
    assert_eq!(
        change(&mut worker, WaitStatus::Exited(11, 6)),
        vec![
            err("\n[0] 停止\ta | b"),
            Effect::Foreground(1),
            read_on(6),
        ]
    );
}

#[test]
fn a_job_comes_and_goes_without_a_trace() {
    for order in [[10, 11], [11, 10]] {
        let mut worker = Worker::new(1);
        start(&mut worker, "vi", 5);
        change(&mut worker, WaitStatus::Stopped(5));
        start_pipe(&mut worker, "a | b", 10, 11);
        for pid in order {
            change(&mut worker, WaitStatus::Exited(pid, 0));
        }
        assert_eq!(worker.job_ids(), vec![0]);
        assert!(worker.knows(5));
        assert!(!worker.knows(10));
        assert!(!worker.knows(11));
        assert!(!worker.has_group(10));
        assert_eq!(worker.fg(), None);
    }
}

#[test]
fn a_number_is_free_again_after_its_process() {
    let mut worker = Worker::new(1);
    start(&mut worker, "a", 10);
    change(&mut worker, WaitStatus::Exited(10, 0));
    assert_eq!(
        start(&mut worker, "b", 10),
        vec![Effect::Join(10, 0), Effect::Foreground(10)]
    );
    assert_eq!(worker.job(0), Some((10, "b")));
}

#[test]
fn strangers_are_ignored() {
    let mut worker = Worker::new(1);
    start(&mut worker, "a", 10);
    assert!(change(&mut worker, WaitStatus::Exited(99, 8)).is_empty());
    assert!(change(&mut worker, WaitStatus::Continued(99)).is_empty());
    assert_eq!(worker.exit_val(), 8);
    assert_eq!(worker.fg(), Some(10));
    assert_eq!(worker.job_ids(), vec![0]);
}

#[test]
fn output_goes_to_a_file() {
    let mut worker = Worker::new(1);
    let msg = WorkerMsg::Cmd("ls -l > out.txt".to_string());
    let mut effects = Effects::new();
    let spawn = match worker.handle(&msg, &mut effects) {
        Request::Open(spawn, path) => {
            assert_eq!(path, "out.txt");
            spawn
        }
        other => panic!("{other:?}"),
    };
    let spawn = match worker.opened(spawn, 9, &mut effects) {
        Request::Fork(spawn, process) => {
            assert_eq!(
                process,
                Process {
                    pgid: 0,
                    program: 0,
                    input: None,
                    output: Some(9)
                }
            );
            spawn
        }
        other => panic!("{other:?}"),
    };
    assert!(effects.list.is_empty());
    assert!(worker.has_room(&spawn, 10));
    let request = worker.forked(spawn, Ok(10), &mut effects);
    assert!(matches!(request, Request::Idle));
    assert_eq!(
        effects.list,
        vec![
            Effect::Join(10, 0),
            Effect::Close(9),
            Effect::Foreground(10)
        ]
    );
}

#[test]
fn invalid_redirections_are_refused() {
    for line in ["ls >", "ls > a b", "ls | >"] {
        let mut worker = Worker::new(1);
        assert_eq!(at_once(&mut worker, line), vec![err(REFUSED), read_on(0)]);
    }
}

#[test]
fn a_redirection_of_nothing_closes_its_file() {
    let mut worker = Worker::new(1);
    let msg = WorkerMsg::Cmd("> a > b".to_string());
    let mut effects = Effects::new();
    let spawn = match worker.handle(&msg, &mut effects) {
        Request::Open(spawn, path) => {
            assert_eq!(path, "b");
            spawn
        }
        other => panic!("{other:?}"),
    };
    let request = worker.opened(spawn, 9, &mut effects);
    assert!(matches!(request, Request::Idle));
    assert_eq!(
        effects.list,
        vec![err(REFUSED), Effect::Close(9), read_on(0)]
    );
}

#[test]
fn a_pipe_from_a_redirection_closes_its_ends() {
    let mut worker = Worker::new(1);
    let msg = WorkerMsg::Cmd("> a | b".to_string());
    let mut effects = Effects::new();
    let spawn = match worker.handle(&msg, &mut effects) {
        Request::Pipe(spawn) => spawn,
        other => panic!("{other:?}"),
    };
    let request = worker.piped(spawn, 7, 8, &mut effects);
    assert!(matches!(request, Request::Idle));
    assert_eq!(
        effects.list,
        vec![err(REFUSED), Effect::Close(7), Effect::Close(8), read_on(0)]
    );
}

#[test]
fn more_than_two_commands_are_refused() {
    for line in ["a | b | c", "a > b | c", "a | b > c"] {
        let mut worker = Worker::new(1);
        assert_eq!(
            at_once(&mut worker, line),
            vec![
                err("rush: 3つ以上のコマンドによるパイプはサポートしていません｡"),
                read_on(0)
            ]
        );
    }
}

#[test]
fn a_process_that_cannot_be_started() {
    let mut worker = Worker::new(1);
    let msg = WorkerMsg::Cmd("ls".to_string());
    let mut effects = Effects::new();
    match worker.handle(&msg, &mut effects) {
        Request::Fork(spawn, _) => {
            let request = worker.forked(spawn, Err("EAGAIN".to_string()), &mut effects);
            assert!(matches!(request, Request::Idle));
        }
        other => panic!("{other:?}"),
    }
    assert_eq!(
        effects.list,
        vec![err("rush: プロセス生成エラー: EAGAIN"), read_on(0)]
    );
    assert!(worker.no_jobs());
}

#[test]
fn a_second_process_that_cannot_be_started() {
    let mut worker = Worker::new(1);
    let msg = WorkerMsg::Cmd("a | b".to_string());
    let (spawn, _) = piped(&mut worker, &msg);
    let mut effects = Effects::new();
    let spawn = match worker.forked(spawn, Ok(10), &mut effects) {
        Request::Fork(spawn, _) => spawn,
        other => panic!("{other:?}"),
    };
    let request = worker.forked(spawn, Err("EAGAIN".to_string()), &mut effects);
    assert!(matches!(request, Request::Idle));
    assert_eq!(
        effects.list,
        vec![
            Effect::Join(10, 0),
            err("rush:プロセス生成エラーEAGAIN"),
            Effect::Close(7),
            Effect::Close(8),
            read_on(0),
        ]
    );
    assert!(worker.no_jobs());
    assert!(!worker.knows(10));
}

#[test]
fn room_is_asked_for_when_the_job_is_complete() {
    let mut worker = Worker::new(1);
    start(&mut worker, "a", 10);
    change(&mut worker, WaitStatus::Stopped(10));
    let msg = WorkerMsg::Cmd("b | c".to_string());
    let (spawn, _) = piped(&mut worker, &msg);
    assert!(worker.has_room(&spawn, 10));
    let one = WorkerMsg::Cmd("b".to_string());
    let mut effects = Effects::new();
    match worker.handle(&one, &mut effects) {
        Request::Fork(spawn, _) => {
            assert!(!worker.has_room(&spawn, 10));
            assert!(worker.has_room(&spawn, 11));
        }
        other => panic!("{other:?}"),
    }
}

#[test]
fn waiting_goes_on_until_nothing_changes() {
    let mut worker = Worker::new(1);
    let mut effects = Effects::new();
    assert!(matches!(
        worker.wait_child(Ok(WaitStatus::StillAlive), &mut effects),
        Request::Idle
    ));
    let fail = |kind: ErrorKind| -> Result<WaitStatus, SysError> {
        Err(SysError {
            kind,
            text: "EINVAL".to_string(),
        })
    };
    assert!(matches!(
        worker.wait_child(fail(ErrorKind::Interrupted), &mut effects),
        Request::Wait
    ));
    assert!(matches!(
        worker.wait_child(fail(ErrorKind::NoChild), &mut effects),
        Request::Idle
    ));
    assert!(effects.list.is_empty());
    assert!(matches!(
        worker.wait_child(fail(ErrorKind::Other), &mut effects),
        Request::Exit(1)
    ));
    assert_eq!(effects.list, vec![err("\nrush: waitが失敗: EINVAL")]);
}

#[test]
fn signals_but_one_are_ignored() {
    let mut worker = Worker::new(1);
    let mut effects = Effects::new();
    let child = WorkerMsg::Signal(Sig::Child);
    assert!(matches!(worker.handle(&child, &mut effects), Request::Wait));
    let other = WorkerMsg::Signal(Sig::Other(2));
    assert!(matches!(worker.handle(&other, &mut effects), Request::Idle));
    assert!(effects.list.is_empty());
}

#[test]
fn an_interrupted_call_is_made_again() {
    let fail = |kind: ErrorKind| -> Result<i32, SysError> {
        Err(SysError {
            kind,
            text: "no".to_string(),
        })
    };
    assert!(syscall(fail(ErrorKind::Interrupted)).is_none());
    assert!(matches!(syscall(Ok(4)), Some(Ok(4))));
    match syscall(fail(ErrorKind::NoChild)) {
        Some(Err(error)) => {
            assert_eq!(error.kind, ErrorKind::NoChild);
            assert_eq!(error.text, "no");
        }
        other => panic!("{other:?}"),
    }
    assert!(matches!(syscall(fail(ErrorKind::Other)), Some(Err(_))));
}

#[test]
fn every_line_is_answered_once() {
    let mut worker = Worker::new(1);
    let mut replies = 0;
    let mut count = |effects: Vec<Effect>| {
        replies += effects.iter().filter(|e| matches!(e, Effect::Reply(_))).count();
        replies
    };
    assert_eq!(count(start_pipe(&mut worker, "a | b", 10, 11)), 0);
    assert_eq!(count(change(&mut worker, WaitStatus::Stopped(10))), 0);
    assert_eq!(count(change(&mut worker, WaitStatus::Stopped(11))), 1);
    assert_eq!(count(at_once(&mut worker, "fg 0")), 1);
    assert_eq!(count(change(&mut worker, WaitStatus::Continued(10))), 1);
    assert_eq!(count(change(&mut worker, WaitStatus::Exited(11, 0))), 1);
    assert_eq!(count(change(&mut worker, WaitStatus::Exited(10, 0))), 2);
    assert_eq!(count(at_once(&mut worker, "a | b | c")), 3);
    assert_eq!(count(at_once(&mut worker, "cd")), 4);
    assert_eq!(count(at_once(&mut worker, "exit")), 5);
}

#[test]
fn a_child_takes_its_files() {
    let second = Process {
        pgid: 10,
        program: 1,
        input: Some(7),
        output: None,
    };
    let cmd = parse_cmd("ls | wc -l").unwrap();
    assert_eq!(
        second.child_steps(&cmd),
        vec![
            ChildStep::Join(10),
            ChildStep::Redirect(7, 0),
            ChildStep::Close(3),
            ChildStep::Close(4),
            ChildStep::Close(5),
            ChildStep::Close(6),
            ChildStep::Exec("wc", &vec!["wc", "-l"]),
            ChildStep::Complain("不明なコマンドを実行\n"),
            ChildStep::Exit(1),
        ]
    );
    let first = Process {
        pgid: 0,
        program: 0,
        input: None,
        output: Some(8),
    };
    assert_eq!(
        first.child_steps(&cmd)[..3],
        [
            ChildStep::Join(0),
            ChildStep::Redirect(8, 1),
            ChildStep::Close(3)
        ]
    );
    assert_eq!(first.child_steps(&cmd)[6], ChildStep::Exec("ls", &vec![]));
}

#[test]
fn processes_enter_the_group_they_are_noted_under() {
    let mut worker = Worker::new(1);
    let msg = WorkerMsg::Cmd("a | b".to_string());
    let (spawn, first) = piped(&mut worker, &msg);
    assert_eq!(first.child_steps(&spawn.cmd)[0], ChildStep::Join(0));
    let mut effects = Effects::new();
    let (spawn, second) = match worker.forked(spawn, Ok(10), &mut effects) {
        Request::Fork(spawn, process) => (spawn, process),
        other => panic!("{other:?}"),
    };
    assert_eq!(second.child_steps(&spawn.cmd)[0], ChildStep::Join(10));
    worker.forked(spawn, Ok(11), &mut effects);
    assert_eq!(effects.list[..2], [Effect::Join(10, 0), Effect::Join(11, 10)]);
    for pid in [10, 11] {
        assert_eq!(worker.info(pid).map(|info| info.pgid), Some(10));
    }
}

#[test]
fn messages_to_the_letter() {
    assert_eq!(message::write_finished(12, "ls"), "[12] 終了\tls");
    assert_eq!(message::write_finished_behind(0, "ls"), "\n[0] 終了\tls");
    assert_eq!(message::write_stopped(3, "a | b"), "\n[3] 停止\ta | b");
    assert_eq!(message::write_resumed(3, "ls"), "[3] 再開\nls");
    assert_eq!(message::write_listed(1, true, "ls"), "[1] 停止中\tls");
    assert_eq!(message::write_listed(1, false, "ls"), "[1] 実行中\tls");
    assert_eq!(message::write_prompt(0), "rush \u{1F642} %> ");
    assert_eq!(message::write_prompt(1), "rush \u{1F480} %> ");
    assert_eq!(message::write_pair("a", "b"), "ab");
}

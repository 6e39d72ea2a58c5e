use rush::effect::ShellMsg;
use rush::shell::{Event, Input, Shell, Stage, Task};

const FILE: &str = "/home/x/.rush_history";

fn step(stage: Stage, event: Event) -> (Vec<Task>, Stage) {
    assert!(stage.awaits(&event));
    let mut tasks = Vec::new();
    let next = Shell::new(FILE).run(stage, event, &mut tasks);
    (tasks, next)
}

fn line(text: &str) -> Event {
    Event::Input(Input::Line(text.to_string()))
}

fn smile() -> Task {
    Task::Prompt("rush \u{1F642} %> ".to_string())
}

fn skull() -> Task {
    Task::Prompt("rush \u{1F480} %> ".to_string())
}

fn warning(text: &str) -> Task {
    Task::Stderr(text.to_string())
}

fn save() -> Task {
    Task::Save(FILE.to_string())
}

#[test]
fn the_history_is_loaded_first() {
    assert_eq!(Shell::new(FILE).logfile(), FILE);
    assert_eq!(
        step(Stage::Begin, Event::Start),
        (vec![Task::Load(FILE.to_string())], Stage::Loading)
    );
    assert_eq!(
        step(Stage::Loading, Event::History(Ok(()))),
        (vec![smile()], Stage::Reading(0))
    );
    assert_eq!(
        step(Stage::Loading, Event::History(Err("none".to_string()))),
        (
            vec![
                warning("rush: ヒストリファイルの読み込みに失敗: none"),
                smile()
            ],
            Stage::Reading(0)
        )
    );
}

#[test]
fn a_line_is_remembered_trimmed_and_sent_as_typed() {
    assert_eq!(
        step(Stage::Reading(4), line("  ls -l \t")),
        (
            vec![
                Task::Remember("ls -l".to_string()),
                Task::Send("  ls -l \t".to_string())
            ],
            Stage::Replying
        )
    );
}

#[test]
fn a_blank_line_is_read_again() {
    for text in ["", " ", "\t\u{3000}\n"] {
        assert_eq!(
            step(Stage::Reading(0), line(text)),
            (vec![smile()], Stage::Reading(0))
        );
        assert_eq!(
            step(Stage::Reading(-1), line(text)),
            (vec![skull()], Stage::Reading(-1))
        );
    }
}

#[test]
fn an_interruption_is_explained() {
    assert_eq!(
        step(Stage::Reading(1), Event::Input(Input::Interrupted)),
        (
            vec![warning("rush: 終了はCtrl+d"), skull()],
            Stage::Reading(1)
        )
    );
}

#[test]
fn the_end_of_the_input_is_an_exit() {
    assert_eq!(
        step(Stage::Reading(1), Event::Input(Input::Eof)),
        (vec![Task::Send("exit".to_string())], Stage::Leaving)
    );
    assert_eq!(
        step(Stage::Leaving, Event::Reply(ShellMsg::Quit(5))),
        (vec![save()], Stage::Saving(5))
    );
    assert!(!Stage::Leaving.awaits(&Event::Reply(ShellMsg::Continue(1))));
}

#[test]
fn a_read_error_ends_the_shell() {
    assert_eq!(
        step(Stage::Reading(0), Event::Input(Input::Failed("bad".to_string()))),
        (
            vec![warning("rush: 読み込みエラー\nbad"), save()],
            Stage::Saving(1)
        )
    );
}

#[test]
fn the_worker_answers() {
    assert_eq!(
        step(Stage::Replying, Event::Reply(ShellMsg::Continue(0))),
        (vec![smile()], Stage::Reading(0))
    );
    assert_eq!(
        step(Stage::Replying, Event::Reply(ShellMsg::Continue(130))),
        (vec![skull()], Stage::Reading(130))
    );
    assert_eq!(
        step(Stage::Replying, Event::Reply(ShellMsg::Quit(3))),
        (vec![save()], Stage::Saving(3))
    );
}

#[test]
fn the_history_is_saved_last() {
    assert_eq!(
        step(Stage::Saving(3), Event::History(Ok(()))),
        (vec![], Stage::Ended(3))
    );
    assert_eq!(
        step(Stage::Saving(3), Event::History(Err("full".to_string()))),
        (
            vec![warning("rush: ヒストリファイルへの書き込みに失敗: full")],
            Stage::Ended(3)
        )
    );
}

#[test]
fn events_out_of_turn_are_not_awaited() {
    assert!(!Stage::Begin.awaits(&Event::History(Ok(()))));
    assert!(!Stage::Loading.awaits(&Event::Start));
    assert!(!Stage::Reading(0).awaits(&Event::Reply(ShellMsg::Continue(0))));
    assert!(!Stage::Replying.awaits(&line("ls")));
    assert!(!Stage::Ended(0).awaits(&Event::Start));
}

#[test]
fn tasks_come_behind_those_already_there() {
    let mut tasks = vec![warning("before")];
    let next = Shell::new(FILE).run(Stage::Loading, Event::History(Ok(())), &mut tasks);
    assert_eq!(next, Stage::Reading(0));
    assert_eq!(tasks, vec![warning("before"), smile()]);
}

#[test]
fn a_session_awaits_an_answer_to_every_line() {
    let shell = Shell::new(FILE);
    let mut stage = Stage::Begin;
    let mut awaited = 0;
    let events = vec![
        Event::Start,
        Event::History(Ok(())),
        line("ls"),
        Event::Reply(ShellMsg::Continue(2)),
        line(" "),
        Event::Input(Input::Interrupted),
        line("exit x"),
        Event::Reply(ShellMsg::Continue(1)),
        Event::Input(Input::Eof),
        Event::Reply(ShellMsg::Quit(1)),
        Event::History(Ok(())),
    ];
    for event in events {
        assert!(stage.awaits(&event));
        if matches!(event, Event::Reply(_)) {
            awaited -= 1;
        }
        let mut tasks = Vec::new();
        stage = shell.run(stage, event, &mut tasks);
        awaited += tasks.iter().filter(|t| matches!(t, Task::Send(_))).count();
        let waits = matches!(stage, Stage::Replying | Stage::Leaving);
        assert_eq!(awaited, usize::from(waits));
    }
    assert_eq!(stage, Stage::Ended(1));
}

//! The shell itself: it reads command lines, hands them to the worker and waits for the
//! answers.
use crate::effect::ShellMsg;
use crate::message;
use crate::text;
use vstd::prelude::*;

verus! {

/// The shell.
#[derive(Debug)]
pub struct Shell {
    /// The file that holds the history of command lines.
    logfile: String,
}

impl View for Shell {
    type V = Seq<char>;

    closed spec fn view(&self) -> Seq<char> {
        self.logfile@
    }
}

/// What reading a line has come to.
#[derive(Debug)]
pub enum Input {
    /// A line.
    Line(String),
    /// The user has interrupted it.
    Interrupted,
    /// There is nothing more to read.
    Eof,
    /// It has failed, for the reason given in words.
    Failed(String),
}

/// Something that the shell has been waiting for.
#[derive(Debug)]
pub enum Event {
    /// The shell is started.
    Start,
    /// The history has been read or written, or why it could not be, in words.
    History(Result<(), String>),
    /// A line was to be read.
    Input(Input),
    /// The worker has answered.
    Reply(ShellMsg),
}

/// How far the shell is.
#[derive(Debug, Clone, Copy, PartialEq, Eq, Structural)]
pub enum Stage {
    /// It has not been started yet.
    Begin,
    /// The history is being read.
    Loading,
    /// A line is being read, after a command with this exit code.
    Reading(i32),
    /// A line is with the worker.
    Replying,
    /// The worker has been asked to leave.
    Leaving,
    /// The history is being written; the exit code is settled.
    Saving(i32),
    /// The program ends with this exit code.
    Ended(i32),
}

/// One thing for the shell to do. The last of several is what it then waits for.
#[derive(Debug, PartialEq, Eq)]
pub enum Task {
    /// Write a line to the standard error.
    Stderr(String),
    /// Add a line to the history.
    Remember(String),
    /// Read the history from this file.
    Load(String),
    /// Read a line, with this text in front of it.
    Prompt(String),
    /// Send a command line to the worker.
    Send(String),
    /// Write the history to this file.
    Save(String),
}

/// One thing for the shell to do, with texts as sequences of characters.
pub enum TaskView {
    Stderr(Seq<char>),
    Remember(Seq<char>),
    Load(Seq<char>),
    Prompt(Seq<char>),
    Send(Seq<char>),
    Save(Seq<char>),
}

impl View for Task {
    type V = TaskView;

    open spec fn view(&self) -> TaskView {
        match *self {
            Task::Stderr(s) => TaskView::Stderr(s@),
            Task::Remember(s) => TaskView::Remember(s@),
            Task::Load(s) => TaskView::Load(s@),
            Task::Prompt(s) => TaskView::Prompt(s@),
            Task::Send(s) => TaskView::Send(s@),
            Task::Save(s) => TaskView::Save(s@),
        }
    }
}

/// The tasks that a sequence holds.
pub open spec fn tasks(list: Seq<Task>) -> Seq<TaskView> {
    list.map_values(|task: Task| task@)
}

impl Stage {
    /// Whether an event is one that the shell waits for. A worker that has been asked to
    /// leave does.
    pub open spec fn awaits_spec(self, event: Event) -> bool {
        match (self, event) {
            (Stage::Begin, Event::Start) => true,
            (Stage::Loading, Event::History(_)) => true,
            (Stage::Reading(_), Event::Input(_)) => true,
            (Stage::Replying, Event::Reply(_)) => true,
            (Stage::Leaving, Event::Reply(ShellMsg::Quit(_))) => true,
            (Stage::Saving(_), Event::History(_)) => true,
            _ => false,
        }
    }

    /// Whether an event is one that the shell waits for.
    pub fn awaits(&self, event: &Event) -> (r: bool)
        ensures
            r == self.awaits_spec(*event),
    {
        match (self, event) {
            (Stage::Begin, Event::Start) => true,
            (Stage::Loading, Event::History(_)) => true,
            (Stage::Reading(_), Event::Input(_)) => true,
            (Stage::Replying, Event::Reply(_)) => true,
            (Stage::Leaving, Event::Reply(ShellMsg::Quit(_))) => true,
            (Stage::Saving(_), Event::History(_)) => true,
            _ => false,
        }
    }
}

/// Reading the next line, after a command with this exit code.
pub open spec fn read(exit_val: i32) -> (Seq<TaskView>, Stage) {
    (seq![TaskView::Prompt(message::prompt(exit_val))], Stage::Reading(exit_val))
}

/// Reading the next line, with a message before it.
pub open spec fn warn_and_read(text: Seq<char>, exit_val: i32) -> (Seq<TaskView>, Stage) {
    (seq![TaskView::Stderr(text)] + read(exit_val).0, read(exit_val).1)
}

/// What the shell does on an event, and how far it is then.
pub open spec fn step(logfile: Seq<char>, stage: Stage, event: Event) -> (Seq<TaskView>, Stage) {
    match (stage, event) {
        (Stage::Begin, Event::Start) => (seq![TaskView::Load(logfile)], Stage::Loading),
        (Stage::Loading, Event::History(Ok(()))) => read(0),
        (Stage::Loading, Event::History(Err(error))) => warn_and_read(
            "rush: ヒストリファイルの読み込みに失敗: "@ + error@,
            0,
        ),
        (Stage::Reading(exit_val), Event::Input(Input::Line(line))) => if text::trimmed(
            line@,
        ).len() == 0 {
            read(exit_val)
        } else {
            (
                seq![TaskView::Remember(text::trimmed(line@)), TaskView::Send(line@)],
                Stage::Replying,
            )
        },
        (Stage::Reading(exit_val), Event::Input(Input::Interrupted)) => warn_and_read(
            "rush: 終了はCtrl+d"@,
            exit_val,
        ),
        (Stage::Reading(_), Event::Input(Input::Eof)) => (
            seq![TaskView::Send("exit"@)],
            Stage::Leaving,
        ),
        (Stage::Reading(_), Event::Input(Input::Failed(error))) => (
            seq![
                TaskView::Stderr("rush: 読み込みエラー\n"@ + error@),
                TaskView::Save(logfile),
            ],
            Stage::Saving(1),
        ),
        (Stage::Replying, Event::Reply(ShellMsg::Continue(exit_val))) => read(exit_val),
        (Stage::Replying, Event::Reply(ShellMsg::Quit(exit_val))) | (
            Stage::Leaving,
            Event::Reply(ShellMsg::Quit(exit_val)),
        ) => (seq![TaskView::Save(logfile)], Stage::Saving(exit_val)),
        (Stage::Saving(exit_val), Event::History(Ok(()))) => (
            Seq::empty(),
            Stage::Ended(exit_val),
        ),
        (Stage::Saving(exit_val), Event::History(Err(error))) => (
            seq![TaskView::Stderr("rush: ヒストリファイルへの書き込みに失敗: "@ + error@)],
            Stage::Ended(exit_val),
        ),
        _ => (Seq::empty(), stage),
    }
}

/// One more task, after all the others.
fn push(list: &mut Vec<Task>, task: Task)
    ensures
        tasks(final(list)@) == tasks(old(list)@).push(task@),
{
    list.push(task);
    assert(tasks(list@) =~= tasks(old(list)@).push(task@));
}

/// Asks for the next line.
fn ask(list: &mut Vec<Task>, exit_val: i32) -> (r: Stage)
    ensures
        tasks(final(list)@) == tasks(old(list)@) + read(exit_val).0,
        r == read(exit_val).1,
{
    push(list, Task::Prompt(message::write_prompt(exit_val)));
    assert(tasks(list@) =~= tasks(old(list)@) + read(exit_val).0);
    Stage::Reading(exit_val)
}

impl Shell {
    /// A shell that keeps the history of command lines in the given file.
    pub fn new(logfile: &str) -> (r: Shell)
        ensures
            r@ == logfile@,
    {
        Shell { logfile: logfile.to_owned() }
    }

    /// The file that holds the history of command lines.
    pub fn logfile(&self) -> (r: &str)
        ensures
            r@ == self@,
    {
        self.logfile.as_str()
    }

    /// Runs the shell on by one event that it has been waiting for: what to do then, behind
    /// the other tasks, and how far it is.
    pub fn run(&self, stage: Stage, event: Event, list: &mut Vec<Task>) -> (r: Stage)
        requires
            stage.awaits_spec(event),
        ensures
            tasks(final(list)@) == tasks(old(list)@) + step(self@, stage, event).0,
            r == step(self@, stage, event).1,
    {
        let ghost expected = step(self@, stage, event).0;
        let next = match (stage, event) {
            (Stage::Begin, Event::Start) => {
                push(list, Task::Load(self.logfile.clone()));
                Stage::Loading
            },
            (Stage::Loading, Event::History(result)) => {
                if let Err(error) = result {
                    push(
                        list,
                        Task::Stderr(
                            message::write_pair(
                                "rush: ヒストリファイルの読み込みに失敗: ",
                                error.as_str(),
                            ),
                        ),
                    );
                }
                ask(list, 0)
            },
            (Stage::Reading(exit_val), Event::Input(input)) => match input {
                Input::Line(line) => {
                    let trimmed = text::trim(line.as_str());
                    if trimmed.is_empty() {
                        ask(list, exit_val)
                    } else {
                        push(list, Task::Remember(trimmed.to_owned()));
                        push(list, Task::Send(line));
                        Stage::Replying
                    }
                },
                Input::Interrupted => {
                    push(list, Task::Stderr("rush: 終了はCtrl+d".to_owned()));
                    ask(list, exit_val)
                },
                Input::Eof => {
                    push(list, Task::Send("exit".to_owned()));
                    Stage::Leaving
                },
                Input::Failed(error) => {
                    push(
                        list,
                        Task::Stderr(
                            message::write_pair("rush: 読み込みエラー\n", error.as_str()),
                        ),
                    );
                    push(list, Task::Save(self.logfile.clone()));
                    Stage::Saving(1)
                },
            },
            (Stage::Replying, Event::Reply(ShellMsg::Continue(exit_val))) => ask(list, exit_val),
            (Stage::Replying, Event::Reply(ShellMsg::Quit(exit_val))) => {
                push(list, Task::Save(self.logfile.clone()));
                Stage::Saving(exit_val)
            },
            (Stage::Leaving, Event::Reply(ShellMsg::Quit(exit_val))) => {
                push(list, Task::Save(self.logfile.clone()));
                Stage::Saving(exit_val)
            },
            (Stage::Saving(exit_val), Event::History(result)) => {
                if let Err(error) = result {
                    push(
                        list,
                        Task::Stderr(
                            message::write_pair(
                                "rush: ヒストリファイルへの書き込みに失敗: ",
                                error.as_str(),
                            ),
                        ),
                    );
                }
                Stage::Ended(exit_val)
            },
            _ => stage,
        };
        assert(tasks(list@) =~= tasks(old(list)@) + expected);
        next
    }
}

/// What a list of tasks holds, its view says, in its order and with its texts.
pub proof fn law_tasks(list: Seq<Task>)
    ensures
        tasks(list).len() == list.len(),
        forall|i: int|
            0 <= i < list.len() ==> match list[i] {
                Task::Stderr(s) => #[trigger] tasks(list)[i] == TaskView::Stderr(s@),
                Task::Remember(s) => tasks(list)[i] == TaskView::Remember(s@),
                Task::Load(s) => tasks(list)[i] == TaskView::Load(s@),
                Task::Prompt(s) => tasks(list)[i] == TaskView::Prompt(s@),
                Task::Send(s) => tasks(list)[i] == TaskView::Send(s@),
                Task::Save(s) => tasks(list)[i] == TaskView::Save(s@),
            },
{
}

} // verus!

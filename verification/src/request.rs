//! What the worker waits for: the one thing that it needs done before it can go on.
use crate::effect::{Fd, Pid};
use crate::parser;
use vstd::prelude::*;

verus! {

/// A job on its way to being started.
#[derive(Debug)]
pub struct Spawn<'a> {
    /// The command line.
    pub line: &'a str,
    /// Its commands.
    pub cmd: Vec<(&'a str, Vec<&'a str>)>,
    /// The number that the job will have.
    pub job_id: usize,
    /// The end of the pipe that the second process reads from.
    pub input: Option<Fd>,
    /// The file that the first process writes to.
    pub output: Option<Fd>,
    /// The first process, once it runs.
    pub first: Option<Pid>,
}

/// A job on its way to being started, with texts as sequences of characters.
#[verifier::ext_equal]
pub struct SpawnView {
    pub line: Seq<char>,
    pub cmd: Seq<parser::CommandView>,
    pub job_id: usize,
    pub input: Option<Fd>,
    pub output: Option<Fd>,
    pub first: Option<Pid>,
}

impl<'a> View for Spawn<'a> {
    type V = SpawnView;

    open spec fn view(&self) -> SpawnView {
        SpawnView {
            line: self.line@,
            cmd: parser::commands(self.cmd@),
            job_id: self.job_id,
            input: self.input,
            output: self.output,
            first: self.first,
        }
    }
}

/// A process to start.
#[derive(Debug, Clone, Copy, PartialEq, Eq, Structural)]
pub struct Process {
    /// The process group for it; zero for one of its own.
    pub pgid: Pid,
    /// Which of the commands it runs.
    pub program: usize,
    /// What it reads as its standard input; none for the shell's.
    pub input: Option<Fd>,
    /// What it writes as its standard output; none for the shell's.
    pub output: Option<Fd>,
}

/// What the worker waits for.
#[derive(Debug)]
pub enum Request<'a> {
    /// The next message.
    Idle,
    /// The outcome of changing the working directory to this one.
    ChangeDir(&'a str),
    /// The next change of state of a child process.
    Wait,
    /// Nothing more: the whole program ends with this exit code.
    Exit(i32),
    /// The two ends of a new pipe.
    Pipe(Spawn<'a>),
    /// A file, opened for writing and created where it does not exist.
    Open(Spawn<'a>, &'a str),
    /// A new process.
    Fork(Spawn<'a>, Process),
}

/// What the worker waits for, with texts as sequences of characters.
pub enum RequestView {
    Idle,
    ChangeDir(Seq<char>),
    Wait,
    Exit(i32),
    Pipe(SpawnView),
    Open(SpawnView, Seq<char>),
    Fork(SpawnView, Process),
}

impl<'a> View for Request<'a> {
    type V = RequestView;

    open spec fn view(&self) -> RequestView {
        match *self {
            Request::Idle => RequestView::Idle,
            Request::ChangeDir(dir) => RequestView::ChangeDir(dir@),
            Request::Wait => RequestView::Wait,
            Request::Exit(code) => RequestView::Exit(code),
            Request::Pipe(spawn) => RequestView::Pipe(spawn@),
            Request::Open(spawn, path) => RequestView::Open(spawn@, path@),
            Request::Fork(spawn, process) => RequestView::Fork(spawn@, process),
        }
    }
}

/// What a job on its way is, its view says: its line and its commands with their texts, its
/// number, its files and its first process.
pub proof fn law_spawn(spawn: Spawn)
    ensures
        spawn@.line == spawn.line@,
        spawn@.cmd.len() == spawn.cmd@.len(),
        forall|i: int|
            0 <= i < spawn.cmd@.len() ==> (#[trigger] spawn@.cmd[i]).0 == spawn.cmd@[i].0@
                && spawn@.cmd[i].1.len() == spawn.cmd@[i].1@.len(),
        forall|i: int, j: int|
            0 <= i < spawn.cmd@.len() && 0 <= j < spawn.cmd@[i].1@.len()
                ==> #[trigger] spawn@.cmd[i].1[j] == spawn.cmd@[i].1@[j]@,
        spawn@.job_id == spawn.job_id,
        spawn@.input == spawn.input,
        spawn@.output == spawn.output,
        spawn@.first == spawn.first,
{
    parser::law_command_texts(spawn.cmd@);
}

/// What the worker waits for, its view says.
pub proof fn law_request(request: Request)
    ensures
        match request {
            Request::Idle => request@ is Idle,
            Request::ChangeDir(dir) => request@ == RequestView::ChangeDir(dir@),
            Request::Wait => request@ is Wait,
            Request::Exit(code) => request@ == RequestView::Exit(code),
            Request::Pipe(spawn) => request@ == RequestView::Pipe(spawn@),
            Request::Open(spawn, path) => request@ == RequestView::Open(spawn@, path@),
            Request::Fork(spawn, process) => request@ == RequestView::Fork(spawn@, process),
        },
{
}

} // verus!

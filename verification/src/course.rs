//! What holds of a worker, and of the shell together with it, from the start on.
use crate::control::{SysError, WaitStatus};
use crate::dispatch::WorkerMsg;
use crate::effect::{EffectView, Fd, Pid, ShellMsg};
use crate::laws;
use crate::request::{RequestView, SpawnView};
use crate::shell;
use crate::shell::{Event, Stage, TaskView};
use crate::worker::WorkerView;
use vstd::prelude::*;

verus! {

/// Something that is handed to the worker: a message, or what came of what it waits for.
pub enum Turn {
    Message(WorkerMsg),
    ChangedDir(Result<(), Seq<char>>),
    Piped(Fd, Fd),
    Opened(Fd),
    Forked(Result<Pid, Seq<char>>),
    Waited(Result<WaitStatus, SysError>),
}

/// A worker, and what it waits for.
pub struct Position {
    pub worker: WorkerView,
    pub request: RequestView,
}

impl Position {
    /// A new worker: it waits for the first message.
    pub open spec fn new(shell_pgid: Pid) -> Position {
        Position { worker: WorkerView::new(shell_pgid), request: RequestView::Idle }
    }

    /// Whether the worker waits for what it is handed.
    pub open spec fn awaits(self, turn: Turn) -> bool {
        match (self.request, turn) {
            (RequestView::Idle, Turn::Message(_)) => true,
            (RequestView::ChangeDir(_), Turn::ChangedDir(_)) => true,
            (RequestView::Pipe(_), Turn::Piped(_, _)) => true,
            (RequestView::Open(_, _), Turn::Opened(_)) => true,
            (RequestView::Fork(_, _), Turn::Forked(_)) => true,
            (RequestView::Wait, Turn::Waited(_)) => true,
            _ => false,
        }
    }

    /// Whether a worker can be handed this: it waits for it, and where it is a command line,
    /// no answer to another is owed.
    pub open spec fn admits(self, turn: Turn) -> bool {
        &&& self.awaits(turn)
        &&& is_command(turn) ==> laws::owed(self.worker, self.request) == 0
    }

    /// The worker after it, what is to be done, and what the worker waits for then.
    pub open spec fn after(self, turn: Turn) -> (WorkerView, Seq<EffectView>, RequestView) {
        match (self.request, turn) {
            (RequestView::Idle, Turn::Message(msg)) => self.worker.handle(msg),
            (RequestView::ChangeDir(_), Turn::ChangedDir(result)) => self.worker.changed_dir(
                result,
            ),
            (RequestView::Pipe(spawn), Turn::Piped(input, output)) => {
                let (effects, request) = self.worker.piped(spawn, input, output);
                (self.worker, effects, request)
            },
            (RequestView::Open(spawn, _), Turn::Opened(output)) => {
                let (effects, request) = self.worker.opened(spawn, output);
                (self.worker, effects, request)
            },
            (RequestView::Fork(spawn, _), Turn::Forked(result)) => {
                let (worker, launch) = self.worker.forked(spawn, result);
                let (effects, request) = worker.answered(launch);
                (worker, effects, request)
            },
            (RequestView::Wait, Turn::Waited(result)) => self.worker.wait_child(result),
            _ => (self.worker, Seq::empty(), self.request),
        }
    }

    /// Where the worker is after it.
    pub open spec fn next(self, turn: Turn) -> Position {
        let (worker, _, request) = self.after(turn);
        Position { worker, request }
    }
}

/// Whether a command line is handed to the worker.
pub open spec fn is_command(turn: Turn) -> bool {
    turn matches Turn::Message(WorkerMsg::Cmd(_))
}

/// How many command lines are among what is handed to the worker.
pub open spec fn commands(turns: Seq<Turn>) -> nat
    decreases turns.len(),
{
    if turns.len() == 0 {
        0
    } else if is_command(turns.last()) {
        commands(turns.drop_last()) + 1
    } else {
        commands(turns.drop_last())
    }
}

/// The files that are opened for the worker by what it is handed.
pub open spec fn files_of(turn: Turn) -> Seq<Fd> {
    match turn {
        Turn::Piped(input, output) => seq![input, output],
        Turn::Opened(output) => seq![output],
        _ => Seq::empty(),
    }
}

/// The files that are opened for the worker, in order.
pub open spec fn opened_files(turns: Seq<Turn>) -> Seq<Fd>
    decreases turns.len(),
{
    if turns.len() == 0 {
        Seq::empty()
    } else {
        opened_files(turns.drop_last()) + files_of(turns.last())
    }
}

/// Where a new worker is after all that it was handed.
pub open spec fn reached(shell_pgid: Pid, turns: Seq<Turn>) -> Position
    decreases turns.len(),
{
    if turns.len() == 0 {
        Position::new(shell_pgid)
    } else {
        reached(shell_pgid, turns.drop_last()).next(turns.last())
    }
}

/// All that a new worker had done, in order.
pub open spec fn done(shell_pgid: Pid, turns: Seq<Turn>) -> Seq<EffectView>
    decreases turns.len(),
{
    if turns.len() == 0 {
        Seq::empty()
    } else {
        done(shell_pgid, turns.drop_last()) + reached(shell_pgid, turns.drop_last()).after(
            turns.last(),
        ).1
    }
}

/// Whether a new worker can be handed this, one after the other.
pub open spec fn is_course(shell_pgid: Pid, turns: Seq<Turn>) -> bool
    decreases turns.len(),
{
    turns.len() > 0 ==> {
        &&& is_course(shell_pgid, turns.drop_last())
        &&& reached(shell_pgid, turns.drop_last()).admits(turns.last())
    }
}

/// One turn keeps the balance, whatever the worker waits for: a command line is one more
/// answer owed, and a pipe or a file is held from then on.
pub proof fn law_turn(position: Position, turn: Turn)
    requires
        position.admits(turn),
        laws::is_busy(position.request) ==> position.worker.fg is None,
        position.request is Pipe || position.request is Open ==> laws::held_files(position.request)
            == Seq::<Fd>::empty(),
    ensures
        laws::balanced(
            laws::owed(position.worker, position.request) + (if is_command(turn) {
                1nat
            } else {
                0nat
            }),
            position.worker,
            laws::held_files(position.request) + files_of(turn),
            position.after(turn),
        ),
{
    let worker = position.worker;
    let held = laws::held_files(position.request);
    assert(held + Seq::<Fd>::empty() =~= held);
    match (position.request, turn) {
        (RequestView::Idle, Turn::Message(msg)) => {
            match msg {
                WorkerMsg::Cmd(line) => {
                    laws::law_command_line(worker, line);
                },
                WorkerMsg::Signal(sig) => {
                    laws::law_signal(worker, sig);
                },
            }
        },
        (RequestView::ChangeDir(_), Turn::ChangedDir(result)) => {
            laws::law_changed_dir(worker, result);
        },
        (RequestView::Pipe(spawn), Turn::Piped(input, output)) => {
            let next = SpawnView { input: Some(input), output: Some(output), ..spawn };
            laws::law_files(worker, next);
            assert(laws::job_files(next) =~= held + files_of(turn));
        },
        (RequestView::Open(spawn, _), Turn::Opened(output)) => {
            let next = SpawnView { output: Some(output), ..spawn };
            laws::law_files(worker, next);
            assert(spawn.input is None) by {
                if let Some(fd) = spawn.input {
                    assert(laws::job_files(spawn)[0] == fd);
                }
            }
            assert(laws::job_files(next) =~= held + files_of(turn));
        },
        (RequestView::Fork(spawn, _), Turn::Forked(result)) => {
            laws::law_forked(worker, spawn, result);
        },
        (RequestView::Wait, Turn::Waited(result)) => {
            laws::law_wait_child(worker, result);
        },
        _ => {},
    }
}

/// Only a message makes the worker ask for a pipe or a file, and then it holds none yet.
proof fn lemma_no_files_yet(position: Position, turn: Turn)
    requires
        position.admits(turn),
    ensures
        ({
            let request = position.next(turn).request;
            request is Pipe || request is Open ==> laws::held_files(request) == Seq::<Fd>::empty()
        }),
{
    let request = position.next(turn).request;
    if request is Pipe || request is Open {
        assert(laws::held_files(request) =~= Seq::empty());
    }
}

/// Whatever a worker has been through: the command lines that it has got are those that it has
/// answered and the one that it still owes an answer, if there is one. The terminal's
/// foreground is the group that it notes. The files that were opened for it are those that it
/// has closed and those that it still holds, in this order.
pub proof fn law_course(shell_pgid: Pid, turns: Seq<Turn>)
    requires
        is_course(shell_pgid, turns),
    ensures
        ({
            let Position { worker, request } = reached(shell_pgid, turns);
            let effects = done(shell_pgid, turns);
            &&& commands(turns) == laws::replies(effects) + laws::owed(worker, request)
            &&& laws::terminal(shell_pgid, effects) == laws::foreground(worker)
            &&& opened_files(turns) == laws::closed_files(effects) + laws::held_files(request)
            &&& laws::is_busy(request) ==> worker.fg is None
            &&& request is Pipe || request is Open ==> laws::held_files(request) == Seq::<
                Fd,
            >::empty()
        }),
    decreases turns.len(),
{
    if turns.len() == 0 {
        assert(opened_files(turns) =~= laws::closed_files(done(shell_pgid, turns))
            + laws::held_files(RequestView::Idle));
    } else {
        let before = turns.drop_last();
        let turn = turns.last();
        let position = reached(shell_pgid, before);
        let (worker, effects, request) = position.after(turn);
        law_course(shell_pgid, before);
        law_turn(position, turn);
        lemma_no_files_yet(position, turn);
        laws::lemma_concat(done(shell_pgid, before), effects, shell_pgid);
        let closed = laws::closed_files(done(shell_pgid, before));
        let held = laws::held_files(position.request);
        assert(opened_files(turns) =~= closed + (held + files_of(turn)));
        assert(closed + (laws::closed_files(effects) + laws::held_files(request)) =~= closed
            + laws::closed_files(effects) + laws::held_files(request));
    }
}

/// Whether no process that was started has the number zero.
pub open spec fn no_zero(turns: Seq<Turn>) -> bool {
    forall|i: int| 0 <= i < turns.len() ==> #[trigger] turns[i] != Turn::Forked(Ok(0))
}

/// Whatever a worker has been through: a process that it asks for enters the group under which
/// it will be noted.
pub proof fn law_course_noted(shell_pgid: Pid, turns: Seq<Turn>)
    requires
        is_course(shell_pgid, turns),
        no_zero(turns),
    ensures
        laws::is_noted(reached(shell_pgid, turns).request),
    decreases turns.len(),
{
    if turns.len() > 0 {
        let before = turns.drop_last();
        let position = reached(shell_pgid, before);
        assert forall|i: int| 0 <= i < before.len() implies #[trigger] before[i] != Turn::Forked(
            Ok(0),
        ) by {
            assert(before[i] == turns[i]);
        }
        law_course_noted(shell_pgid, before);
        assert(turns[turns.len() - 1] != Turn::Forked(Ok(0)));
        match (position.request, turns.last()) {
            (RequestView::Idle, Turn::Message(msg)) => {
                laws::law_message_noted(position.worker, msg);
            },
            (RequestView::Pipe(spawn), Turn::Piped(input, output)) => {
                laws::law_files_noted(
                    position.worker,
                    SpawnView { input: Some(input), output: Some(output), ..spawn },
                );
            },
            (RequestView::Open(spawn, _), Turn::Opened(output)) => {
                laws::law_files_noted(
                    position.worker,
                    SpawnView { output: Some(output), ..spawn },
                );
            },
            (RequestView::Fork(spawn, _), Turn::Forked(result)) => {
                laws::law_forked_noted(position.worker, spawn, result);
            },
            _ => {},
        }
    }
}

/// The command lines that are sent among tasks, in order.
pub open spec fn sent(tasks: Seq<TaskView>) -> Seq<Seq<char>>
    decreases tasks.len(),
{
    if tasks.len() == 0 {
        Seq::empty()
    } else if tasks.last() is Send {
        sent(tasks.drop_last()).push(tasks.last()->Send_0)
    } else {
        sent(tasks.drop_last())
    }
}

/// The answers among things to do, in order.
pub open spec fn answers(effects: Seq<EffectView>) -> Seq<ShellMsg>
    decreases effects.len(),
{
    if effects.len() == 0 {
        Seq::empty()
    } else if effects.last() is Reply {
        answers(effects.drop_last()).push(effects.last()->Reply_0)
    } else {
        answers(effects.drop_last())
    }
}

proof fn lemma_sent(tasks: Seq<TaskView>)
    ensures
        sent(tasks).len() == laws::sends(tasks),
    decreases tasks.len(),
{
    if tasks.len() > 0 {
        lemma_sent(tasks.drop_last());
    }
}

proof fn lemma_answers(effects: Seq<EffectView>)
    ensures
        answers(effects).len() == laws::replies(effects),
    decreases effects.len(),
{
    if effects.len() > 0 {
        lemma_answers(effects.drop_last());
    }
}

/// The shell and its worker, with what is on its way from one to the other.
pub struct Program {
    pub stage: Stage,
    /// The command lines that the worker has not got yet.
    pub lines: Seq<Seq<char>>,
    pub position: Position,
    /// The answers that the shell has not got yet.
    pub answers: Seq<ShellMsg>,
}

/// Something that happens to the shell or to the worker.
pub enum Move {
    Shell(Event),
    Worker(Turn),
}

impl Program {
    /// The program at its start.
    pub open spec fn new(shell_pgid: Pid) -> Program {
        Program {
            stage: Stage::Begin,
            lines: Seq::empty(),
            position: Position::new(shell_pgid),
            answers: Seq::empty(),
        }
    }

    /// Whether this can happen next: the one to whom it happens waits for it, the worker gets
    /// the command lines in the order in which they were sent, and the shell the answers in
    /// the order in which they were given.
    pub open spec fn can(self, happens: Move) -> bool {
        match happens {
            Move::Shell(event) => {
                &&& self.stage.awaits_spec(event)
                &&& event matches Event::Reply(msg) ==> self.answers.len() > 0
                    && self.answers.first() == msg
            },
            Move::Worker(turn) => {
                &&& self.position.awaits(turn)
                &&& turn matches Turn::Message(WorkerMsg::Cmd(line)) ==> self.lines.len() > 0
                    && self.lines.first() == line@
            },
        }
    }

    /// The program after it.
    pub open spec fn after(self, logfile: Seq<char>, happens: Move) -> Program {
        match happens {
            Move::Shell(event) => {
                let (tasks, stage) = shell::step(logfile, self.stage, event);
                Program {
                    stage,
                    lines: self.lines + sent(tasks),
                    answers: if event is Reply {
                        self.answers.drop_first()
                    } else {
                        self.answers
                    },
                    ..self
                }
            },
            Move::Worker(turn) => Program {
                lines: if is_command(turn) {
                    self.lines.drop_first()
                } else {
                    self.lines
                },
                position: self.position.next(turn),
                answers: self.answers + answers(self.position.after(turn).1),
                ..self
            },
        }
    }
}

/// The program after all that has happened since its start.
pub open spec fn program(logfile: Seq<char>, shell_pgid: Pid, moves: Seq<Move>) -> Program
    decreases moves.len(),
{
    if moves.len() == 0 {
        Program::new(shell_pgid)
    } else {
        program(logfile, shell_pgid, moves.drop_last()).after(logfile, moves.last())
    }
}

/// Whether this can happen from the start on, one after the other.
pub open spec fn can_happen(logfile: Seq<char>, shell_pgid: Pid, moves: Seq<Move>) -> bool
    decreases moves.len(),
{
    moves.len() > 0 ==> {
        &&& can_happen(logfile, shell_pgid, moves.drop_last())
        &&& program(logfile, shell_pgid, moves.drop_last()).can(moves.last())
    }
}

/// Whatever happens, in whatever order: while the shell waits for an answer, there is exactly
/// one command line on its way, with the worker or answered, and otherwise none. So the worker
/// gets a command line only when it owes no answer, and no answer comes unasked.
pub proof fn law_program(logfile: Seq<char>, shell_pgid: Pid, moves: Seq<Move>)
    requires
        can_happen(logfile, shell_pgid, moves),
    ensures
        ({
            let program = program(logfile, shell_pgid, moves);
            let Position { worker, request } = program.position;
            &&& laws::awaited(program.stage) == program.lines.len() + laws::owed(worker, request)
                + program.answers.len()
            &&& laws::is_busy(request) ==> worker.fg is None
            &&& request is Pipe || request is Open ==> laws::held_files(request) == Seq::<
                Fd,
            >::empty()
            &&& forall|turn: Turn|
                program.can(Move::Worker(turn)) ==> #[trigger] program.position.admits(turn)
        }),
    decreases moves.len(),
{
    if moves.len() > 0 {
        let before = program(logfile, shell_pgid, moves.drop_last());
        law_program(logfile, shell_pgid, moves.drop_last());
        match moves.last() {
            Move::Shell(event) => {
                laws::law_answers_awaited(logfile, before.stage, event);
                lemma_sent(shell::step(logfile, before.stage, event).0);
            },
            Move::Worker(turn) => {
                assert(before.position.admits(turn));
                law_turn(before.position, turn);
                lemma_no_files_yet(before.position, turn);
                lemma_answers(before.position.after(turn).1);
            },
        }
    }
}

} // verus!

//! What a new process does before it runs its program.
use crate::effect::{Fd, Pid};
use crate::parser;
use crate::request::Process;
use crate::text;
use vstd::prelude::*;

verus! {

/// The standard input.
pub const STDIN: Fd = 0;

/// The standard output.
pub const STDOUT: Fd = 1;

/// The first of the files that the shell holds open for itself to listen for signals.
pub const FIRST_OWN: Fd = 3;

/// The last of them.
pub const LAST_OWN: Fd = 6;

/// One thing for a new process to do. What comes behind `Exec` is done only where the program
/// cannot be run.
#[derive(Debug, Clone, Copy, PartialEq, Eq)]
pub enum ChildStep<'a> {
    /// Enter a process group; zero for one of its own.
    Join(Pid),
    /// Let the second file be what the first is.
    Redirect(Fd, Fd),
    /// Close a file.
    Close(Fd),
    /// Run the program of this name, with these arguments and no others.
    Exec(&'a str, &'a Vec<&'a str>),
    /// Write a text to the standard error.
    Complain(&'static str),
    /// End with an exit code.
    Exit(i32),
}

/// One thing for a new process to do, with texts as sequences of characters.
pub enum ChildStepView {
    Join(Pid),
    Redirect(Fd, Fd),
    Close(Fd),
    Exec(Seq<char>, Seq<Seq<char>>),
    Complain(Seq<char>),
    Exit(i32),
}

impl<'a> View for ChildStep<'a> {
    type V = ChildStepView;

    open spec fn view(&self) -> ChildStepView {
        match *self {
            ChildStep::Join(pgid) => ChildStepView::Join(pgid),
            ChildStep::Redirect(from, to) => ChildStepView::Redirect(from, to),
            ChildStep::Close(fd) => ChildStepView::Close(fd),
            ChildStep::Exec(name, args) => ChildStepView::Exec(name@, text::texts(args@)),
            ChildStep::Complain(text) => ChildStepView::Complain(text@),
            ChildStep::Exit(code) => ChildStepView::Exit(code),
        }
    }
}

/// The steps that a list holds.
pub open spec fn steps(list: Seq<ChildStep>) -> Seq<ChildStepView> {
    list.map_values(|step: ChildStep| step@)
}

/// Taking a file for one of the standard ones, where there is one to take.
pub open spec fn redirect(from: Option<Fd>, to: Fd) -> Seq<ChildStepView> {
    match from {
        Some(fd) => seq![ChildStepView::Redirect(fd, to)],
        None => Seq::empty(),
    }
}

/// Closing the files that the shell holds for itself, the first one first.
pub open spec fn close_own() -> Seq<ChildStepView> {
    Seq::new(
        (LAST_OWN + 1 - FIRST_OWN) as nat,
        |i: int| ChildStepView::Close((FIRST_OWN + i) as Fd),
    )
}

/// What a process does up to the point where it runs its program: it enters its group, takes
/// its standard input and output, and closes the shell's own files.
pub open spec fn prepared(process: Process) -> Seq<ChildStepView> {
    seq![ChildStepView::Join(process.pgid)] + redirect(process.input, STDIN) + redirect(
        process.output,
        STDOUT,
    ) + close_own()
}

/// All that a process does for its command: it runs the program that the command names, with
/// the command's arguments. A program that cannot be run leaves a message and the exit code 1.
pub open spec fn child_steps(process: Process, cmd: parser::CommandView) -> Seq<ChildStepView> {
    prepared(process) + seq![
        ChildStepView::Exec(cmd.0, cmd.1),
        ChildStepView::Complain("不明なコマンドを実行\n"@),
        ChildStepView::Exit(1),
    ]
}

/// One more step, after all the others.
fn push<'a>(list: &mut Vec<ChildStep<'a>>, step: ChildStep<'a>)
    ensures
        steps(final(list)@) == steps(old(list)@).push(step@),
{
    list.push(step);
    assert(steps(list@) =~= steps(old(list)@).push(step@));
}

impl Process {
    /// What the process does, the first thing first, where these are the job's commands.
    pub fn child_steps<'a>(&self, cmd: &'a Vec<(&'a str, Vec<&'a str>)>) -> (r: Vec<ChildStep<'a>>)
        requires
            self.program < cmd@.len(),
        ensures
            steps(r@) == child_steps(*self, parser::commands(cmd@)[self.program as int]),
    {
        let mut list: Vec<ChildStep<'a>> = Vec::new();
        push(&mut list, ChildStep::Join(self.pgid));
        if let Some(fd) = self.input {
            push(&mut list, ChildStep::Redirect(fd, STDIN));
        }
        if let Some(fd) = self.output {
            push(&mut list, ChildStep::Redirect(fd, STDOUT));
        }
        let ghost taken = seq![ChildStepView::Join(self.pgid)] + redirect(self.input, STDIN)
            + redirect(self.output, STDOUT);
        assert(steps(list@) =~= taken);
        let mut fd: Fd = FIRST_OWN;
        while fd <= LAST_OWN
            invariant
                FIRST_OWN <= fd <= LAST_OWN + 1,
                steps(list@) == taken + close_own().take(fd - FIRST_OWN),
            decreases LAST_OWN + 1 - fd,
        {
            push(&mut list, ChildStep::Close(fd));
            assert(close_own().take(fd + 1 - FIRST_OWN) =~= close_own().take(fd - FIRST_OWN).push(
                ChildStepView::Close(fd),
            ));
            fd = fd + 1;
        }
        assert(close_own().take(fd - FIRST_OWN) =~= close_own());
        push(&mut list, ChildStep::Exec(cmd[self.program].0, &cmd[self.program].1));
        push(&mut list, ChildStep::Complain("不明なコマンドを実行\n"));
        push(&mut list, ChildStep::Exit(1));
        assert(steps(list@) =~= child_steps(
            *self,
            parser::commands(cmd@)[self.program as int],
        ));
        list
    }
}

/// The open files of a process after one step.
pub open spec fn file_step<F>(files: Map<Fd, F>, step: ChildStepView) -> Map<Fd, F> {
    match step {
        ChildStepView::Redirect(from, to) => files.insert(to, files[from]),
        ChildStepView::Close(fd) => files.remove(fd),
        _ => files,
    }
}

/// The open files of a process after several steps.
pub open spec fn files_after<F>(files: Map<Fd, F>, list: Seq<ChildStepView>) -> Map<Fd, F>
    decreases list.len(),
{
    if list.len() == 0 {
        files
    } else {
        file_step(files_after(files, list.drop_last()), list.last())
    }
}

proof fn lemma_files_concat<F>(files: Map<Fd, F>, a: Seq<ChildStepView>, b: Seq<ChildStepView>)
    ensures
        files_after(files, a + b) == files_after(files_after(files, a), b),
    decreases b.len(),
{
    if b.len() == 0 {
        assert(a + b =~= a);
    } else {
        assert((a + b).drop_last() =~= a + b.drop_last());
        assert((a + b).last() == b.last());
        lemma_files_concat(files, a, b.drop_last());
    }
}

proof fn lemma_files_one<F>(files: Map<Fd, F>, step: ChildStepView)
    ensures
        files_after(files, seq![step]) == file_step(files, step),
{
    let none = seq![step].drop_last();
    assert(none.len() == 0);
    assert(files_after(files, none) == files);
    assert(seq![step].last() == step);
}

proof fn lemma_files_redirect<F>(files: Map<Fd, F>, from: Option<Fd>, to: Fd)
    ensures
        files_after(files, redirect(from, to)) == (match from {
            Some(fd) => files.insert(to, files[fd]),
            None => files,
        }),
{
    if let Some(fd) = from {
        lemma_files_one(files, ChildStepView::Redirect(fd, to));
    }
}

/// A program runs with the standard input and output that are meant for it, which are the
/// shell's where none is, with none of the files that the shell holds for itself, and with
/// every other file as it was. A process that takes another standard input cannot have the
/// former one as its output.
pub proof fn law_child_files<F>(process: Process, files: Map<Fd, F>)
    requires
        process.input is Some ==> process.output != Some(STDIN),
    ensures
        ({
            let after = files_after(files, prepared(process));
            &&& process.input matches Some(fd) ==> after.contains_key(STDIN) && after[STDIN]
                == files[fd]
            &&& process.output matches Some(fd) ==> after.contains_key(STDOUT) && after[STDOUT]
                == files[fd]
            &&& forall|fd: Fd|
                FIRST_OWN <= fd <= LAST_OWN ==> !#[trigger] after.contains_key(fd)
            &&& forall|fd: Fd|
                !(FIRST_OWN <= fd <= LAST_OWN) && !(fd == STDIN && process.input is Some) && !(fd
                    == STDOUT && process.output is Some) ==> (#[trigger] after.contains_key(fd)
                    == files.contains_key(fd)) && after[fd] == files[fd]
        }),
{
    let join = seq![ChildStepView::Join(process.pgid)];
    let input = redirect(process.input, STDIN);
    let output = redirect(process.output, STDOUT);
    let a = ChildStepView::Close(3);
    let b = ChildStepView::Close(4);
    let c = ChildStepView::Close(5);
    let d = ChildStepView::Close(6);
    lemma_files_concat(files, join, input);
    lemma_files_one(files, ChildStepView::Join(process.pgid));
    lemma_files_redirect(files, process.input, STDIN);
    lemma_files_concat(files, join + input, output);
    let read = files_after(files, join + input);
    lemma_files_redirect(read, process.output, STDOUT);
    let taken = join + input + output;
    let all = files_after(files, taken);
    lemma_files_concat(files, taken, close_own());
    assert(close_own() =~= seq![a] + seq![b] + seq![c] + seq![d]);
    lemma_files_one(all, a);
    lemma_files_concat(all, seq![a], seq![b]);
    lemma_files_one(files_after(all, seq![a]), b);
    lemma_files_concat(all, seq![a] + seq![b], seq![c]);
    lemma_files_one(files_after(all, seq![a] + seq![b]), c);
    lemma_files_concat(all, seq![a] + seq![b] + seq![c], seq![d]);
    lemma_files_one(files_after(all, seq![a] + seq![b] + seq![c]), d);
}

/// What a list of steps holds, its view says, in its order.
pub proof fn law_steps(list: Seq<ChildStep>)
    ensures
        steps(list).len() == list.len(),
        forall|i: int|
            0 <= i < list.len() ==> match list[i] {
                ChildStep::Join(pgid) => #[trigger] steps(list)[i] == ChildStepView::Join(pgid),
                ChildStep::Redirect(from, to) => steps(list)[i] == ChildStepView::Redirect(
                    from,
                    to,
                ),
                ChildStep::Close(fd) => steps(list)[i] == ChildStepView::Close(fd),
                ChildStep::Exec(name, args) => steps(list)[i] == ChildStepView::Exec(
                    name@,
                    text::texts(args@),
                ),
                ChildStep::Complain(s) => steps(list)[i] == ChildStepView::Complain(s@),
                ChildStep::Exit(code) => steps(list)[i] == ChildStepView::Exit(code),
            },
{
}

/// A new process enters its group before all else. A file becomes its standard input, or its
/// output, exactly where it is meant to, and before any file is closed. Exactly the four files
/// of the shell's own are closed. Only then does it run the command's program with the
/// command's arguments, once; and behind that come only the message and the exit code 1.
pub proof fn law_child_order(process: Process, cmd: parser::CommandView)
    ensures
        ({
            let list = child_steps(process, cmd);
            let exec = list.len() - 3;
            &&& exec >= 5
            &&& list[0] == ChildStepView::Join(process.pgid)
            &&& forall|i: int| 1 <= i < list.len() ==> !(#[trigger] list[i] is Join)
            &&& forall|from: Fd, to: Fd|
                #[trigger] list.contains(ChildStepView::Redirect(from, to)) <==> (process.input
                    == Some(from) && to == 0) || (process.output == Some(from) && to == 1)
            &&& forall|fd: Fd|
                #[trigger] list.contains(ChildStepView::Close(fd)) <==> 3 <= fd <= 6
            &&& forall|i: int, j: int|
                0 <= i < list.len() && 0 <= j < list.len() && #[trigger] list[i] is Redirect
                    && #[trigger] list[j] is Close ==> i < j < exec
            &&& forall|i: int| 0 <= i < list.len() ==> (#[trigger] list[i] is Exec <==> i == exec)
            &&& list[exec] == ChildStepView::Exec(cmd.0, cmd.1)
            &&& list[exec + 1] == ChildStepView::Complain("不明なコマンドを実行\n"@)
            &&& list[exec + 2] == ChildStepView::Exit(1)
        }),
{
    let list = child_steps(process, cmd);
    let input = redirect(process.input, STDIN);
    let output = redirect(process.output, STDOUT);
    let n = (1 + input.len() + output.len()) as int;
    assert(prepared(process).len() == n + 4);
    assert(list.len() == n + 7);
    assert forall|i: int| n <= i < n + 4 implies #[trigger] list[i] == ChildStepView::Close(
        (3 + i - n) as Fd,
    ) by {
        assert(list[i] == close_own()[i - n]);
    }
    assert(process.input matches Some(fd) ==> list[1] == ChildStepView::Redirect(fd, 0));
    assert(process.output matches Some(fd) ==> list[n - 1] == ChildStepView::Redirect(fd, 1));
    assert forall|i: int| 1 <= i < n implies #[trigger] list[i] is Redirect by {
        if i < 1 + input.len() {
            assert(list[i] == input[i - 1]);
        } else {
            assert(list[i] == output[i - 1 - input.len()]);
        }
    }
    assert forall|from: Fd, to: Fd|
        #[trigger] list.contains(ChildStepView::Redirect(from, to)) <==> (process.input == Some(
            from,
        ) && to == 0) || (process.output == Some(from) && to == 1) by {
        if list.contains(ChildStepView::Redirect(from, to)) {
            let i = choose|i: int|
                0 <= i < list.len() && list[i] == ChildStepView::Redirect(from, to);
            assert(1 <= i < n);
        }
    }
    assert forall|fd: Fd|
        #[trigger] list.contains(ChildStepView::Close(fd)) <==> 3 <= fd <= 6 by {
        if 3 <= fd <= 6 {
            assert(list[n + fd - 3] == ChildStepView::Close(fd));
        }
        if list.contains(ChildStepView::Close(fd)) {
            let i = choose|i: int| 0 <= i < list.len() && list[i] == ChildStepView::Close(fd);
            assert(n <= i < n + 4);
        }
    }
}

} // verus!

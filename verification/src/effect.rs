//! What the worker asks of the world around it, in the order in which it is to happen.
use vstd::prelude::*;

verus! {

/// The number of a process, or of the group that a process leads.
pub type Pid = i32;

/// The number of an open file.
pub type Fd = i32;

/// What the worker answers to a command line.
#[derive(Debug, Clone, Copy, PartialEq, Eq, Structural)]
pub enum ShellMsg {
    /// Read the next line. The number is the last exit code.
    Continue(i32),
    /// Leave the shell with this exit code.
    Quit(i32),
}

/// One thing to do.
#[derive(Debug, PartialEq, Eq)]
pub enum Effect {
    /// Write a line to the standard output.
    Stdout(String),
    /// Write a line to the standard error.
    Stderr(String),
    /// Answer the command line.
    Reply(ShellMsg),
    /// Put a process into a process group; zero for one of its own.
    Join(Pid, Pid),
    /// Make a process group the terminal's foreground group.
    Foreground(Pid),
    /// Send the signal to go on to a process group.
    Resume(Pid),
    /// Close a file.
    Close(Fd),
}

/// One thing to do, with texts as sequences of characters.
pub enum EffectView {
    Stdout(Seq<char>),
    Stderr(Seq<char>),
    Reply(ShellMsg),
    Join(Pid, Pid),
    Foreground(Pid),
    Resume(Pid),
    Close(Fd),
}

impl View for Effect {
    type V = EffectView;

    open spec fn view(&self) -> EffectView {
        match *self {
            Effect::Stdout(s) => EffectView::Stdout(s@),
            Effect::Stderr(s) => EffectView::Stderr(s@),
            Effect::Reply(m) => EffectView::Reply(m),
            Effect::Join(pid, pgid) => EffectView::Join(pid, pgid),
            Effect::Foreground(p) => EffectView::Foreground(p),
            Effect::Resume(p) => EffectView::Resume(p),
            Effect::Close(f) => EffectView::Close(f),
        }
    }
}

/// Things to do, the first one first.
#[derive(Debug)]
pub struct Effects {
    pub list: Vec<Effect>,
}

impl View for Effects {
    type V = Seq<EffectView>;

    open spec fn view(&self) -> Seq<EffectView> {
        self.list@.map_values(|e: Effect| e@)
    }
}

impl Effects {
    /// Nothing to do.
    pub fn new() -> (r: Effects)
        ensures
            r@ == Seq::<EffectView>::empty(),
    {
        let r = Effects { list: Vec::new() };
        assert(r@ =~= Seq::empty());
        r
    }

    /// One more thing to do, after all the others.
    pub fn push(&mut self, effect: Effect)
        ensures
            final(self)@ == old(self)@.push(effect@),
    {
        self.list.push(effect);
        assert(self@ =~= old(self)@.push(effect@));
    }
}

/// What the list holds is what there is to do, in its order, with its texts and numbers.
pub proof fn law_effects(effects: Effects)
    ensures
        effects@.len() == effects.list@.len(),
        forall|i: int|
            0 <= i < effects@.len() ==> match effects.list@[i] {
                Effect::Stdout(s) => #[trigger] effects@[i] == EffectView::Stdout(s@),
                Effect::Stderr(s) => effects@[i] == EffectView::Stderr(s@),
                Effect::Reply(msg) => effects@[i] == EffectView::Reply(msg),
                Effect::Join(pid, pgid) => effects@[i] == EffectView::Join(pid, pgid),
                Effect::Foreground(pgid) => effects@[i] == EffectView::Foreground(pgid),
                Effect::Resume(pgid) => effects@[i] == EffectView::Resume(pgid),
                Effect::Close(fd) => effects@[i] == EffectView::Close(fd),
            },
{
}

} // verus!

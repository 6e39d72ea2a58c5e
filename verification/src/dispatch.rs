//! The messages to the worker, and what it does with them.
use crate::builtin::{BuiltIn, BuiltInView};
use crate::effect::{Effect, EffectView, Effects};
use crate::message;
use crate::parser;
use crate::request::{Request, RequestView};
use crate::worker::{Worker, WorkerView};
use vstd::prelude::*;

verus! {

/// A signal, as far as the worker tells them apart.
#[derive(Debug, Clone, Copy, PartialEq, Eq, Structural)]
pub enum Sig {
    /// A child process has changed its state.
    Child,
    /// Any other signal, by its number.
    Other(i32),
}

/// A message to the worker.
#[derive(Debug)]
pub enum WorkerMsg {
    /// A signal has come in.
    Signal(Sig),
    /// A command line has been typed.
    Cmd(String),
}

impl WorkerView {
    /// A message: the worker after it, what is to be done, and what the worker waits for
    /// then. A built-in command is carried out, any other command line becomes a job, and the
    /// signal of a child process has the worker wait for that process.
    pub open spec fn handle(self, msg: WorkerMsg) -> (WorkerView, Seq<EffectView>, RequestView) {
        match msg {
            WorkerMsg::Cmd(line) => {
                let cmd = parser::line_commands(line@);
                let (worker, done, built_in) = self.built_in_cmd(cmd);
                match built_in {
                    BuiltInView::Done => (worker, done, RequestView::Idle),
                    BuiltInView::ChangeDir(dir) => (worker, done, RequestView::ChangeDir(dir)),
                    BuiltInView::NotDone => {
                        let (effects, request) = worker.answered(worker.spawn_child(line@, cmd));
                        (worker, done + effects, request)
                    },
                }
            },
            WorkerMsg::Signal(Sig::Child) => (self, Seq::empty(), RequestView::Wait),
            WorkerMsg::Signal(Sig::Other(_)) => (self, Seq::empty(), RequestView::Idle),
        }
    }
}

impl Worker {
    /// Takes in a message.
    pub fn handle<'a>(&mut self, msg: &'a WorkerMsg, effects: &mut Effects) -> (r: Request<'a>)
        requires
            old(self)@.wf(),
        ensures
            final(self)@ == old(self)@.handle(*msg).0,
            final(effects)@ == old(effects)@ + old(self)@.handle(*msg).1,
            r@ == old(self)@.handle(*msg).2,
            final(self)@.wf(),
            old(self)@.settled() ==> final(self)@.settled(),
    {
        match msg {
            WorkerMsg::Cmd(line) => match parser::parse_cmd(line.as_str()) {
                Ok(cmd) => match self.built_in_cmd(&cmd, effects) {
                    BuiltIn::Done => Request::Idle,
                    BuiltIn::ChangeDir(dir) => Request::ChangeDir(dir),
                    BuiltIn::NotDone => {
                        let r = self.launch(line.as_str(), cmd, effects);
                        assert(effects@ =~= old(effects)@ + old(self)@.handle(*msg).1);
                        r
                    },
                },
                Err(error) => {
                    effects.push(Effect::Stderr(message::write_pair("rush: ", error.text())));
                    self.read_on(effects);
                    Request::Idle
                },
            },
            WorkerMsg::Signal(Sig::Child) => {
                assert(effects@ =~= old(effects)@ + Seq::<EffectView>::empty());
                Request::Wait
            },
            WorkerMsg::Signal(Sig::Other(_)) => {
                assert(effects@ =~= old(effects)@ + Seq::<EffectView>::empty());
                Request::Idle
            },
        }
    }
}

} // verus!

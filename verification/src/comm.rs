//! The transcript-transport interface: the traits a transport daemon's glue
//! implements, a sender that drops everything, and the assembled program.
use vstd::prelude::*;

verus! {

/// Pulls the next inbound transcript line; `None` at end of stream.
pub trait Receiver {
    fn get_msg(&mut self) -> Option<String>;
}

/// Pushes a synthetic line into the inbound stream (used at shutdown).
pub trait Control {
    fn insert_msg(&self, msg: &str);
}

/// Best-effort, fire-and-forget delivery of a reply to a recipient.
pub trait Sender {
    fn send(&self, dest: &str, msg: &str);
}

/// A Control that also owns the transport's processes and can stop them.
pub trait InternalSender {
    fn insert_msg(&self, msg: &str);

    fn stop(&mut self);
}

/// A Sender that drops everything.
pub struct NullSender {}

impl Sender for NullSender {
    fn send(&self, _dest: &str, _msg: &str) {
    }
}

/// The assembled program: transcript source, sink, and shutdown control.
pub struct MainApp<R: Receiver, S: Sender, IS: InternalSender> {
    pub recv: R,
    pub send: S,
    pub control: IS,
}

impl<R: Receiver, S: Sender, IS: InternalSender> MainApp<R, S, IS> {
    pub fn new(recv: R, send: S, control: IS) -> (r: Self)
        ensures
            r.recv == recv,
            r.send == send,
            r.control == control,
    {
        MainApp { recv, send, control }
    }
}

} // verus!

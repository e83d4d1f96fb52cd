use vstd::prelude::*;

verus! {

/// Declares std's multi-producer channel sender so a controller can own the
/// capture context's stop signal; the value is opaque and only carried.
#[verifier::external_type_specification]
#[verifier::external_body]
#[verifier::reject_recursive_types(T)]
pub struct ExSender<T>(std::sync::mpsc::Sender<T>);

/// Relies on std::sync::mpsc::Sender::send to deliver the stop signal to the
/// capture context; whether it arrives depends on the receiving end still
/// being connected, so nothing is promised of the call.
#[verifier::external_body]
fn send_stop(tx: &std::sync::mpsc::Sender<()>) {
    let _ = tx.send(());
}

/// Owns the pipeline's lifecycle: either nothing is running, or one capture
/// context is running and its stop signal is held here.
pub struct VadController {
    tx: Option<std::sync::mpsc::Sender<()>>,
}

impl VadController {
    /// Whether a capture context is running.
    pub closed spec fn is_running(&self) -> bool {
        self.tx is Some
    }

    /// A controller with nothing running.
    pub fn new() -> (r: VadController)
        ensures
            !r.is_running(),
    {
        VadController { tx: None }
    }

    /// Whether a capture context is running, as an executable value.
    pub fn running(&self) -> (b: bool)
        ensures
            b == self.is_running(),
    {
        self.tx.is_some()
    }

    /// Takes ownership of a new capture context's stop signal. Idempotent:
    /// while one context is running the call changes nothing and returns
    /// false, so two calls in a row yield exactly one running context; only a
    /// true result tells the caller that its context is now the one running.
    pub fn start(&mut self, stop_tx: std::sync::mpsc::Sender<()>) -> (started: bool)
        ensures
            final(self).is_running(),
            started == !old(self).is_running(),
            !started ==> *final(self) == *old(self),
    {
        if self.tx.is_some() {
            return false;
        }
        self.tx = Some(stop_tx);
        true
    }

    /// Sends the stop signal to the running capture context, if any, and
    /// forgets it. Idempotent: a second call in a row finds nothing running,
    /// sends nothing and returns false, so two calls yield exactly one stop
    /// signal sent.
    pub fn stop(&mut self) -> (stopped: bool)
        ensures
            !final(self).is_running(),
            stopped == old(self).is_running(),
    {
        match self.tx.take() {
            Some(tx) => {
                send_stop(&tx);
                true
            },
            None => false,
        }
    }
}

} // verus!

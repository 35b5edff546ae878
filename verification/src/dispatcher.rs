//! The dispatcher: a copyable capability that writes messages into the
//! reactive store's update channel.
//!
//! Delivery itself happens in the outside store and is invisible to the
//! verifier; what each method *schedules* — one synchronous write, one
//! deferred write per message — is mirrored exactly by the scheduler model
//! in [`crate::model`], where the ordering guarantees are proved.

use vstd::prelude::*;

verus! {

/// Sends messages to the update function. Copying a dispatcher never
/// duplicates the channel: every copy writes through the same store binding.
#[verifier::reject_recursive_types(Msg)]
pub struct MsgDispatcher<Msg: 'static> {
    sig: leptos_reactive::WriteSignal<Msg>,
}

impl<Msg: 'static> Clone for MsgDispatcher<Msg> {
    fn clone(&self) -> (r: MsgDispatcher<Msg>)
        ensures
            r == *self,
    {
        MsgDispatcher { sig: self.sig.clone() }
    }
}

impl<Msg: 'static> Copy for MsgDispatcher<Msg> {}

impl<Msg: 'static> From<leptos_reactive::WriteSignal<Msg>> for MsgDispatcher<Msg> {
    fn from(writer: leptos_reactive::WriteSignal<Msg>) -> (r: MsgDispatcher<Msg>) {
        MsgDispatcher { sig: writer }
    }
}

impl<Msg: 'static> vstd::std_specs::convert::FromSpecImpl<leptos_reactive::WriteSignal<Msg>>
    for MsgDispatcher<Msg>
{
    open spec fn obeys_from_spec() -> bool {
        true
    }

    closed spec fn from_spec(writer: leptos_reactive::WriteSignal<Msg>) -> MsgDispatcher<Msg> {
        MsgDispatcher { sig: writer }
    }
}

impl<Msg: 'static> MsgDispatcher<Msg> {
    /// Sends a message to the update function, synchronously with the
    /// caller. The store's downstream propagation is the store's concern;
    /// in the scheduler model this is one immediate trace entry
    /// ([`crate::model::SimScheduler::dispatch`]).
    pub fn dispatch(self, msg: Msg) {
        crate::reactive::write_signal_set(&self.sig, msg);
    }

    /// Sends a message if the store still accepts writes; otherwise hands
    /// the message back unchanged, so the caller can see exactly what was
    /// rejected.
    pub fn try_set(self, msg: Msg) -> (r: Option<Msg>)
        ensures
            r matches Some(m) ==> m == msg,
    {
        crate::reactive::write_signal_try_set(&self.sig, msg)
    }

    /// Schedules the message to be sent on the next microtask instead of
    /// immediately; the escape hatch for contexts where an immediate write
    /// would reenter the store during an invalid window. In the scheduler
    /// model this is one new microtask unit
    /// ([`crate::model::SimScheduler::queue_msg`]).
    pub fn queue_msg(self, msg: Msg) {
        crate::reactive::defer_dispatch(self, msg);
    }

    /// Sends every message, in order, one synchronous write after another on
    /// the same call stack, so nothing can interleave between them
    /// ([`crate::model::SimScheduler::batch`]).
    pub fn batch(self, msgs: Vec<Msg>) {
        let mut rest = msgs;
        while rest.len() > 0
            decreases rest.len(),
        {
            let m = rest.remove(0);
            self.dispatch(m);
        }
    }

    /// Schedules every message, in order, each on a microtask of its own, so
    /// unrelated scheduled work may interleave between them
    /// ([`crate::model::SimScheduler::queue_batch`]).
    pub fn queue_batch(self, msgs: Vec<Msg>) {
        let mut rest = msgs;
        while rest.len() > 0
            decreases rest.len(),
        {
            let m = rest.remove(0);
            self.queue_msg(m);
        }
    }
}

} // verus!

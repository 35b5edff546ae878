//! The command queue: a per-update-call accumulator of follow-up messages
//! and asynchronous effects.
//!
//! Messages and effects only accumulate while the update function runs; the
//! single flush hands every pending effect, in registration order, to the
//! task spawner, and then schedules every pending message, in order, on a
//! microtask of its own. The queue is single-use: the flush happens once,
//! and registering on a spent queue is ruled out by precondition. What the
//! flush steps guarantee about delivery order is proved over the scheduler
//! model in [`crate::model`].

use vstd::prelude::*;

verus! {

/// Command manager that allows dispatching messages and running
/// asynchronous operations.
#[verifier::reject_recursive_types(Msg)]
pub struct Cmd<Msg: 'static> {
    msg_dispatcher: leptos_reactive::SignalSetter<Msg>,
    msgs: Vec<Msg>,
    cmds: crate::reactive::EffectList<Msg>,
    cmds_registered: Ghost<nat>,
    flushed: bool,
}

impl<Msg: 'static> Cmd<Msg> {
    /// The messages queued so far, in the order they were registered.
    pub closed spec fn pending_msgs(self) -> Seq<Msg> {
        self.msgs@
    }

    /// How many effects have been queued so far.
    pub closed spec fn pending_effects(self) -> nat {
        self.cmds_registered@
    }

    /// Whether the queue has already flushed. A spent queue takes no
    /// further registrations and never flushes again.
    pub closed spec fn spent(self) -> bool {
        self.flushed
    }

    /// The setter every delivery of this queue goes through.
    pub closed spec fn target(self) -> leptos_reactive::SignalSetter<Msg> {
        self.msg_dispatcher
    }

    /// Creates a new [`Cmd`] queue bound to the given setter, with nothing
    /// pending.
    pub fn new(msg_dispatcher: leptos_reactive::SignalSetter<Msg>) -> (c: Cmd<Msg>)
        ensures
            c.pending_msgs() == Seq::<Msg>::empty(),
            c.pending_effects() == 0,
            !c.spent(),
            c.target() == msg_dispatcher,
    {
        Cmd {
            msg_dispatcher,
            msgs: Vec::new(),
            cmds: crate::reactive::EffectList::new(),
            cmds_registered: Ghost(0),
            flushed: false,
        }
    }

    /// Appends the message to the pending messages. No side effect until the
    /// flush, which will schedule it on a microtask of its own.
    pub fn msg(&mut self, msg: Msg)
        requires
            !old(self).spent(),
        ensures
            final(self).pending_msgs() == old(self).pending_msgs().push(msg),
            final(self).pending_effects() == old(self).pending_effects(),
            !final(self).spent(),
            final(self).target() == old(self).target(),
    {
        self.msgs.push(msg);
    }

    /// Appends every message, preserving their order: the same as calling
    /// [`Cmd::msg`] once for each in turn.
    pub fn batch_msgs(&mut self, msgs: Vec<Msg>)
        requires
            !old(self).spent(),
        ensures
            final(self).pending_msgs() == old(self).pending_msgs() + msgs@,
            final(self).pending_effects() == old(self).pending_effects(),
            !final(self).spent(),
            final(self).target() == old(self).target(),
    {
        let ghost taken = msgs@;
        let mut rest = msgs;
        while rest.len() > 0
            invariant
                !self.spent(),
                self.pending_effects() == old(self).pending_effects(),
                self.target() == old(self).target(),
                self.pending_msgs() + rest@ == old(self).pending_msgs() + taken,
            decreases rest.len(),
        {
            let m = rest.remove(0);
            self.msg(m);
            proof {
                assert(self.pending_msgs() + rest@ =~= old(self).pending_msgs() + taken);
            }
        }
        proof {
            assert(self.pending_msgs() =~= self.pending_msgs() + rest@);
        }
    }

    /// Appends an asynchronous effect: a computation that eventually yields
    /// zero or more messages. The computation is not started here — it is
    /// spawned at flush time, after every effect registered before it.
    ///
    /// Relies on [`crate::reactive::EffectList::push_effect`]; the future's
    /// bounds keep this function itself outside the verifier's reach, so the
    /// body holds that one call and nothing else.
    #[verifier::external_body]
    pub fn cmd<Fut, I>(&mut self, cmd: Fut) where
        Fut: core::future::Future<Output = I> + 'static,
        I: IntoIterator<Item = Msg>,
        requires
            !old(self).spent(),
        ensures
            final(self).pending_msgs() == old(self).pending_msgs(),
            final(self).pending_effects() == old(self).pending_effects() + 1,
            !final(self).spent(),
            final(self).target() == old(self).target(),
    {
        self.cmds.push_effect(cmd);
    }

    /// Whether the queue has already flushed.
    pub fn is_spent(&self) -> (r: bool)
        ensures
            r == self.spent(),
    {
        self.flushed
    }

    /// Drains the queue, exactly once: hands every pending effect, in
    /// registration order, to the task spawner, then schedules every pending
    /// message, in order, each on a microtask of its own. Afterwards the
    /// queue is spent and holds nothing.
    ///
    /// In the scheduler model this is [`crate::model::SimQueue::flush`],
    /// whose contract pins down what each of these steps does to the
    /// scheduler's queues.
    pub fn flush(&mut self)
        requires
            !old(self).spent(),
        ensures
            final(self).spent(),
            final(self).pending_msgs() == Seq::<Msg>::empty(),
            final(self).pending_effects() == 0,
            final(self).target() == old(self).target(),
    {
        let n = self.cmds.count();
        let mut i: usize = 0;
        while i < n
            invariant
                self.msgs@ == old(self).msgs@,
                self.msg_dispatcher == old(self).msg_dispatcher,
                self.flushed == old(self).flushed,
            decreases n - i,
        {
            self.cmds.spawn_first(self.msg_dispatcher);
            i = i + 1;
        }
        while self.msgs.len() > 0
            invariant
                self.msg_dispatcher == old(self).msg_dispatcher,
                self.flushed == old(self).flushed,
            decreases self.msgs.len(),
        {
            let m = self.msgs.remove(0);
            crate::reactive::defer_setter_dispatch(self.msg_dispatcher, m);
        }
        proof {
            assert(self.msgs@ =~= Seq::<Msg>::empty());
        }
        self.flushed = true;
        self.cmds_registered = Ghost(0);
    }
}

/// Delivers one message through the setter, synchronously with the caller.
/// This is the one step every delivery path of the queue ends in.
pub(crate) fn dispatch_through_setter<Msg: 'static>(
    setter: &leptos_reactive::SignalSetter<Msg>,
    msg: Msg,
) {
    crate::reactive::setter_set(setter, msg);
}

/// Delivers the resolved messages of one effect: the first message
/// synchronously within the calling task's continuation, every later one on
/// an independently spawned task of its own, in order, so that unrelated
/// work can interleave between them.
///
/// In the scheduler model this is the resolution step
/// [`crate::model::SimScheduler::resolve`], whose contract pins down the
/// inline part and the deferred part exactly.
pub(crate) fn deliver_effect_result<Msg: 'static>(
    setter: &leptos_reactive::SignalSetter<Msg>,
    msgs: Vec<Msg>,
) {
    let mut rest = msgs;
    if rest.len() > 0 {
        let first = rest.remove(0);
        dispatch_through_setter(setter, first);
        while rest.len() > 0
            decreases rest.len(),
        {
            let m = rest.remove(0);
            crate::reactive::spawn_setter_dispatch(*setter, m);
        }
    }
}

} // verus!


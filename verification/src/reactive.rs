//! Trusted boundary to the host reactive store and scheduler.
//!
//! Every call the library makes into `leptos_reactive`, `smallvec` or
//! `futures` crosses through this module. Each item's doc comment names the
//! outside function it relies on. The store's write channel, the microtask
//! scheduler and the task spawner have no observable state inside the
//! verifier, so these contracts promise nothing beyond what the outside
//! sources show; the ordering guarantees of the library are stated and
//! proved over the scheduler model in [`crate::model`].

use vstd::prelude::*;

use leptos_reactive::SignalSet;
use futures::FutureExt;

verus! {

#[verifier::external_type_specification]
#[verifier::external_body]
#[verifier::reject_recursive_types(T)]
pub struct ExWriteSignal<T: 'static>(leptos_reactive::WriteSignal<T>);

#[verifier::external_type_specification]
#[verifier::external_body]
#[verifier::reject_recursive_types(T)]
pub struct ExSignalSetter<T: 'static>(leptos_reactive::SignalSetter<T>);

/// Relies on `leptos_reactive::WriteSignal`'s `Clone`, whose body is `*self`.
pub assume_specification<T>[ <leptos_reactive::WriteSignal<T> as core::clone::Clone>::clone ](
    v: &leptos_reactive::WriteSignal<T>,
) -> (r: leptos_reactive::WriteSignal<T>)
    ensures
        r == *v,
;

/// Relies on `leptos_reactive::SignalSetter`'s `Clone`, whose body is `*self`.
pub assume_specification<T>[ <leptos_reactive::SignalSetter<T> as core::clone::Clone>::clone ](
    v: &leptos_reactive::SignalSetter<T>,
) -> (r: leptos_reactive::SignalSetter<T>)
    ensures
        r == *v,
;

/// Relies on `leptos_reactive::WriteSignal`'s `SignalSet::set`: delivers one
/// message into the store's write channel, synchronously with the caller,
/// and returns nothing.
#[verifier::external_body]
pub(crate) fn write_signal_set<Msg: 'static>(
    sig: &leptos_reactive::WriteSignal<Msg>,
    msg: Msg,
) {
    sig.set(msg);
}

/// Relies on `leptos_reactive::WriteSignal`'s `SignalSet::try_set`: delivers
/// the message if the signal is still alive and returns `None`; otherwise
/// hands the very message back unchanged.
#[verifier::external_body]
pub(crate) fn write_signal_try_set<Msg: 'static>(
    sig: &leptos_reactive::WriteSignal<Msg>,
    msg: Msg,
) -> (r: Option<Msg>)
    ensures
        r matches Some(m) ==> m == msg,
{
    sig.try_set(msg)
}

/// Relies on `leptos_reactive::SignalSetter`'s `SignalSet::set`: delivers one
/// message through the setter, synchronously with the caller.
#[verifier::external_body]
pub(crate) fn setter_set<Msg: 'static>(
    setter: &leptos_reactive::SignalSetter<Msg>,
    msg: Msg,
) {
    setter.set(msg);
}

/// Relies on `leptos_reactive::queue_microtask`: schedules the task on the
/// next microtask tick on a browser host, and runs it at once on a native
/// host. The closure handed over only calls the verified
/// [`crate::dispatcher::MsgDispatcher::dispatch`].
#[verifier::external_body]
pub(crate) fn defer_dispatch<Msg: 'static>(
    d: crate::dispatcher::MsgDispatcher<Msg>,
    msg: Msg,
) {
    leptos_reactive::queue_microtask(move || d.dispatch(msg));
}

/// Relies on `leptos_reactive::queue_microtask`: schedules the task on the
/// next microtask tick on a browser host, and runs it at once on a native
/// host. The closure handed over only calls the verified
/// [`crate::queue::dispatch_through_setter`].
#[verifier::external_body]
pub(crate) fn defer_setter_dispatch<Msg: 'static>(
    setter: leptos_reactive::SignalSetter<Msg>,
    msg: Msg,
) {
    leptos_reactive::queue_microtask(move || {
        crate::queue::dispatch_through_setter(&setter, msg)
    });
}

/// Relies on `leptos_reactive::spawn_local` and `futures::future::lazy`:
/// starts one detached task whose whole body is a call of the verified
/// [`crate::queue::dispatch_through_setter`]. A browser host runs the task
/// after the current continuation; a native host runs it to completion
/// inline.
#[verifier::external_body]
pub(crate) fn spawn_setter_dispatch<Msg: 'static>(
    setter: leptos_reactive::SignalSetter<Msg>,
    msg: Msg,
) {
    leptos_reactive::spawn_local(futures::future::lazy(move |_| {
        crate::queue::dispatch_through_setter(&setter, msg);
    }));
}

/// The pending effects of one command queue: boxed futures, each eventually
/// yielding the messages of one effect. A future is opaque to the verifier,
/// so the whole container stays behind this trusted type; registration order
/// is kept by the wrappers below, and everything provable about delivery is
/// proved over the resolved message sequences in [`crate::model`].
#[verifier::external_body]
#[verifier::reject_recursive_types(Msg)]
pub struct EffectList<Msg: 'static> {
    inner: smallvec::SmallVec<
        [core::pin::Pin<
            std::boxed::Box<
                dyn core::future::Future<Output = smallvec::SmallVec<[Msg; 4]>>,
            >,
        >; 4],
    >,
}

impl<Msg: 'static> EffectList<Msg> {
    /// Relies on `smallvec::SmallVec::new`: an empty container.
    #[verifier::external_body]
    pub(crate) fn new() -> EffectList<Msg> {
        EffectList { inner: smallvec::SmallVec::new() }
    }

    /// Relies on `smallvec::SmallVec::len`: how many effects are pending.
    #[verifier::external_body]
    pub(crate) fn count(&self) -> usize {
        self.inner.len()
    }

    /// Relies on `futures::FutureExt::map` and `smallvec::SmallVec::push`:
    /// wraps the effect so that its eventual messages are collected into the
    /// small-sequence form, and appends it after every earlier-registered
    /// effect. The effect is not started.
    #[verifier::external_body]
    pub(crate) fn push_effect<Fut, I>(&mut self, cmd: Fut) where
        Fut: core::future::Future<Output = I> + 'static,
        I: IntoIterator<Item = Msg>,
    {
        self.inner.push(Box::pin(cmd.map(|i| i.into_iter().collect())));
    }

    /// Relies on `smallvec::SmallVec::remove`, `futures::FutureExt::map` and
    /// `leptos_reactive::spawn_local`: removes the earliest-registered
    /// pending effect, if any, and starts one detached task that waits for
    /// it and hands the resolved messages to the verified
    /// [`crate::queue::deliver_effect_result`].
    #[verifier::external_body]
    pub(crate) fn spawn_first(&mut self, setter: leptos_reactive::SignalSetter<Msg>) {
        if self.inner.is_empty() {
            return;
        }
        let fut = self.inner.remove(0);
        leptos_reactive::spawn_local(fut.map(move |msgs| {
            crate::queue::deliver_effect_result(&setter, msgs.into_iter().collect());
        }));
    }
}

} // verus!

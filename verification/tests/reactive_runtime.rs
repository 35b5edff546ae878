//! Tests of the real delivery path, against a native `leptos_reactive`
//! runtime. On a native target the host delivers microtasks and spawned
//! tasks synchronously, so every scheduled dispatch is observable right
//! away, in scheduling order.

use std::cell::RefCell;
use std::rc::Rc;

use leptos_reactive::{
    create_effect, create_runtime, create_rw_signal, create_signal,
    SignalGetUntracked, SignalSet, SignalSetter, SignalUpdate, SignalWith,
};
use leptos_tea::{Cmd, MsgDispatcher};

#[derive(Clone, Copy, PartialEq, Eq, Debug)]
enum CounterMsg {
    Increment,
    Init,
}

impl Default for CounterMsg {
    fn default() -> CounterMsg {
        CounterMsg::Init
    }
}

fn capturing_setter<T: 'static>(log: &Rc<RefCell<Vec<T>>>) -> SignalSetter<T> {
    let log = Rc::clone(log);
    SignalSetter::map(move |m| log.borrow_mut().push(m))
}

#[test]
fn dispatch_writes_to_the_store() {
    let runtime = create_runtime();
    let (count, set_count) = create_signal(0_i32);
    let d = MsgDispatcher::from(set_count);
    d.dispatch(5);
    assert_eq!(count.get_untracked(), 5);
    runtime.dispose();
}

#[test]
fn batch_dispatches_in_order() {
    let runtime = create_runtime();
    let (count, set_count) = create_signal(0_i32);
    let d = MsgDispatcher::from(set_count);
    d.batch(vec![1, 2, 3]);
    // the last synchronous write wins: they went through back-to-back
    assert_eq!(count.get_untracked(), 3);
    runtime.dispose();
}

#[test]
fn queue_msg_delivers_on_the_next_tick() {
    let runtime = create_runtime();
    let (count, set_count) = create_signal(0_i32);
    let d = MsgDispatcher::from(set_count);
    d.queue_msg(7);
    // native microtasks run synchronously, so the write is already visible
    assert_eq!(count.get_untracked(), 7);
    runtime.dispose();
}

#[test]
fn queue_batch_delivers_each_message() {
    let runtime = create_runtime();
    let (count, set_count) = create_signal(0_i32);
    let d = MsgDispatcher::from(set_count);
    d.queue_batch(vec![4, 5]);
    assert_eq!(count.get_untracked(), 5);
    runtime.dispose();
}

#[test]
fn try_set_hands_the_message_back_when_rejected() {
    let runtime = create_runtime();
    let (_count, set_count) = create_signal(0_i32);
    let d = MsgDispatcher::from(set_count);
    assert_eq!(d.try_set(9), None);
    runtime.dispose();
    // after the runtime is gone the write is rejected: the very message
    // comes back
    assert_eq!(d.try_set(11), Some(11));
}

#[test]
fn flush_delivers_queued_messages_in_order() {
    let runtime = create_runtime();
    let log: Rc<RefCell<Vec<u32>>> = Rc::new(RefCell::new(Vec::new()));
    let mut cmd = Cmd::new(capturing_setter(&log));
    cmd.msg(1);
    cmd.msg(2);
    assert!(log.borrow().is_empty());
    cmd.flush();
    assert!(cmd.is_spent());
    assert_eq!(&*log.borrow(), &vec![1, 2]);
    runtime.dispose();
}

#[test]
fn batch_msgs_is_like_repeated_msg() {
    let runtime = create_runtime();
    let log: Rc<RefCell<Vec<u32>>> = Rc::new(RefCell::new(Vec::new()));
    let mut cmd = Cmd::new(capturing_setter(&log));
    cmd.msg(1);
    cmd.batch_msgs(vec![2, 3]);
    cmd.flush();
    assert_eq!(&*log.borrow(), &vec![1, 2, 3]);
    runtime.dispose();
}

#[test]
fn effects_are_spawned_in_registration_order() {
    // one message per effect: the native spawner runs each task inline, so
    // nothing nests; the model tests cover multi-message effects
    let runtime = create_runtime();
    let log: Rc<RefCell<Vec<&'static str>>> = Rc::new(RefCell::new(Vec::new()));
    let mut cmd = Cmd::new(capturing_setter(&log));
    cmd.cmd(futures::future::ready(vec!["a"]));
    cmd.cmd(futures::future::ready(vec!["b"]));
    assert!(log.borrow().is_empty());
    cmd.flush();
    assert_eq!(&*log.borrow(), &vec!["a", "b"]);
    runtime.dispose();
}

#[test]
fn empty_effect_never_dispatches() {
    let runtime = create_runtime();
    let log: Rc<RefCell<Vec<u32>>> = Rc::new(RefCell::new(Vec::new()));
    let mut cmd = Cmd::new(capturing_setter(&log));
    cmd.cmd(futures::future::ready(Vec::<u32>::new()));
    cmd.flush();
    assert!(log.borrow().is_empty());
    runtime.dispose();
}

#[test]
fn effects_are_spawned_before_queued_messages() {
    let runtime = create_runtime();
    let log: Rc<RefCell<Vec<&'static str>>> = Rc::new(RefCell::new(Vec::new()));
    let mut cmd = Cmd::new(capturing_setter(&log));
    cmd.msg("queued");
    cmd.cmd(futures::future::ready(vec!["effect"]));
    cmd.flush();
    // registration order at flush: effects first, then the message queue;
    // the native scheduler runs both synchronously in that order
    assert_eq!(&*log.borrow(), &vec!["effect", "queued"]);
    runtime.dispose();
}

#[test]
fn long_queues_keep_their_order() {
    // more pending messages and effects than the queue's inline capacity:
    // the backing storage reallocates transparently and order is kept
    let runtime = create_runtime();
    let log: Rc<RefCell<Vec<u32>>> = Rc::new(RefCell::new(Vec::new()));
    let mut cmd = Cmd::new(capturing_setter(&log));
    for e in 0..5_u32 {
        cmd.cmd(futures::future::ready(vec![e]));
    }
    cmd.batch_msgs(vec![10, 11, 12, 13, 14, 15]);
    cmd.flush();
    assert_eq!(&*log.borrow(), &vec![0, 1, 2, 3, 4, 10, 11, 12, 13, 14, 15]);
    runtime.dispose();
}

#[test]
fn two_increments_update_the_counter() {
    let runtime = create_runtime();
    let count = create_rw_signal(40_i64);
    let (msg, set_msg) = create_signal(CounterMsg::default());
    let setter = SignalSetter::from(set_msg);
    create_effect(move |_| {
        msg.with(|m| {
            let mut cmd = Cmd::new(setter);
            match m {
                CounterMsg::Increment => count.update(|c| *c += 1),
                CounterMsg::Init => {}
            }
            if !cmd.is_spent() {
                cmd.flush();
            }
        })
    });
    set_msg.set(CounterMsg::Increment);
    set_msg.set(CounterMsg::Increment);
    assert_eq!(count.get_untracked(), 42);
    runtime.dispose();
}

#[test]
fn unused_real_queue_makes_no_writes() {
    let runtime = create_runtime();
    let log: Rc<RefCell<Vec<u32>>> = Rc::new(RefCell::new(Vec::new()));
    let mut cmd: Cmd<u32> = Cmd::new(capturing_setter(&log));
    cmd.flush();
    assert!(cmd.is_spent());
    assert!(log.borrow().is_empty());
    runtime.dispose();
}

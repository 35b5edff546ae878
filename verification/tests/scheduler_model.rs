//! Scenario tests driven against the executable scheduler model.

use leptos_tea::model::{SimQueue, SimScheduler};

#[test]
fn queued_messages_in_registration_order() {
    let mut q: SimQueue<u32> = SimQueue::new();
    let mut sched: SimScheduler<u32> = SimScheduler::new();
    q.msg(1);
    q.msg(2);
    q.msg(3);
    q.flush(&mut sched);
    assert!(sched.delivered().is_empty());
    sched.drain_micro();
    assert_eq!(sched.delivered(), &vec![1, 2, 3]);
}

#[test]
fn queued_messages_keep_order_under_interleaving() {
    let mut q: SimQueue<&'static str> = SimQueue::new();
    let mut sched: SimScheduler<&'static str> = SimScheduler::new();
    q.msg("first");
    q.msg("second");
    q.flush(&mut sched);
    sched.run_micro();
    // unrelated work interleaves between the two scheduled messages
    sched.dispatch("unrelated");
    sched.run_micro();
    assert_eq!(sched.delivered(), &vec!["first", "unrelated", "second"]);
}

#[test]
fn empty_effect_delivers_nothing() {
    let mut q: SimQueue<u32> = SimQueue::new();
    let mut sched: SimScheduler<u32> = SimScheduler::new();
    q.effect(vec![]);
    q.flush(&mut sched);
    sched.resolve(0);
    sched.drain_ready();
    sched.drain_micro();
    assert!(sched.delivered().is_empty());
}

#[test]
fn effect_messages_in_order() {
    let mut q: SimQueue<&'static str> = SimQueue::new();
    let mut sched: SimScheduler<&'static str> = SimScheduler::new();
    q.effect(vec!["a", "b", "c"]);
    q.flush(&mut sched);
    assert!(sched.delivered().is_empty());
    sched.resolve(0);
    // the first message was delivered inline on completion
    assert_eq!(sched.delivered(), &vec!["a"]);
    // the later ones went through one further scheduling hop each, in order
    assert_eq!(sched.ready_count(), 2);
    sched.run_ready();
    assert_eq!(sched.delivered(), &vec!["a", "b"]);
    sched.run_ready();
    assert_eq!(sched.delivered(), &vec!["a", "b", "c"]);
}

#[test]
fn effect_first_messages_race() {
    // the same two effects, two completion orders: both must be tolerated
    let mut q1: SimQueue<&'static str> = SimQueue::new();
    let mut s1: SimScheduler<&'static str> = SimScheduler::new();
    q1.effect(vec!["a"]);
    q1.effect(vec!["b"]);
    q1.flush(&mut s1);
    s1.resolve(0);
    s1.resolve(1);
    assert_eq!(s1.delivered(), &vec!["a", "b"]);

    let mut q2: SimQueue<&'static str> = SimQueue::new();
    let mut s2: SimScheduler<&'static str> = SimScheduler::new();
    q2.effect(vec!["a"]);
    q2.effect(vec!["b"]);
    q2.flush(&mut s2);
    s2.resolve(1);
    s2.resolve(0);
    assert_eq!(s2.delivered(), &vec!["b", "a"]);
}

#[test]
fn queued_order_holds_with_effect_interleaved() {
    // messages and effect deliveries cross the dispatcher through different
    // mechanisms: an effect's message may land between two queued messages,
    // but the queued messages keep their relative order
    let mut q: SimQueue<&'static str> = SimQueue::new();
    let mut sched: SimScheduler<&'static str> = SimScheduler::new();
    q.msg("m1");
    q.msg("m2");
    q.effect(vec!["a"]);
    q.flush(&mut sched);
    sched.run_micro();
    sched.resolve(0);
    sched.run_micro();
    assert_eq!(sched.delivered(), &vec!["m1", "a", "m2"]);
}

#[test]
fn unused_queue_makes_no_writes() {
    let mut q: SimQueue<u32> = SimQueue::new();
    let mut sched: SimScheduler<u32> = SimScheduler::new();
    q.flush(&mut sched);
    assert_eq!(sched.micro_count(), 0);
    assert_eq!(sched.ready_count(), 0);
    sched.run_micro();
    sched.run_ready();
    sched.resolve(0);
    assert!(sched.delivered().is_empty());
}

#[test]
fn batch_is_one_synchronous_block() {
    let mut sched: SimScheduler<u32> = SimScheduler::new();
    sched.batch(vec![1, 2]);
    assert_eq!(sched.delivered(), &vec![1, 2]);
}

#[test]
fn queue_batch_is_independent_units() {
    let mut sched: SimScheduler<u32> = SimScheduler::new();
    sched.queue_batch(vec![1, 2]);
    assert!(sched.delivered().is_empty());
    assert_eq!(sched.micro_count(), 2);
    sched.run_micro();
    // other scheduled work may interleave between the two units
    sched.dispatch(99);
    sched.run_micro();
    assert_eq!(sched.delivered(), &vec![1, 99, 2]);
}

#[derive(Clone, Copy, PartialEq, Eq, Debug)]
enum CounterMsg {
    Increment,
}

#[test]
fn two_increments_reach_the_store() {
    let initial: u64 = 40;
    let mut q: SimQueue<CounterMsg> = SimQueue::new();
    let mut sched: SimScheduler<CounterMsg> = SimScheduler::new();
    q.msg(CounterMsg::Increment);
    q.msg(CounterMsg::Increment);
    q.flush(&mut sched);
    sched.drain_micro();
    let mut counter = initial;
    for m in sched.delivered() {
        match m {
            CounterMsg::Increment => counter += 1,
        }
    }
    assert_eq!(counter, initial + 2);
}

#[derive(Clone, PartialEq, Eq, Debug)]
enum LoadMsg {
    Loaded(String),
}

#[test]
fn delayed_effect_delivers_after_the_delay() {
    let mut q: SimQueue<LoadMsg> = SimQueue::new();
    let mut sched: SimScheduler<LoadMsg> = SimScheduler::new();
    q.effect(vec![LoadMsg::Loaded("x".to_string())]);
    q.flush(&mut sched);
    // nothing is delivered synchronously at flush time
    assert!(sched.delivered().is_empty());
    // the scheduler advances past the simulated delay: the effect completes
    sched.resolve(0);
    assert_eq!(sched.delivered(), &vec![LoadMsg::Loaded("x".to_string())]);
    sched.drain_ready();
    sched.drain_micro();
    assert_eq!(sched.delivered().len(), 1);
}

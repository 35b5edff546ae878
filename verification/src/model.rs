//! A model of the host scheduler and store, over which the ordering
//! guarantees of the flush protocol are stated and proved.
//!
//! The host runs two mechanisms the library schedules work on: a FIFO
//! microtask queue (one deferred dispatch per entry) and a spawner of
//! detached tasks. A spawned effect task awaits its effect and then
//! delivers the first resolved message inline and re-spawns one task per
//! later message; effect completions race, so the model lets a driver pick
//! any completion order, while tasks that are already runnable run in spawn
//! order. [`SchedState`] is the ghost state, [`sched_step`] the transition
//! for one scheduler choice, and the public proof functions below state the
//! delivery-order laws for *every* sequence of choices.
//!
//! [`SimScheduler`] and [`SimQueue`] are the executable faces of the same
//! model: each operation's contract is exactly one [`sched_step`], so a test
//! can drive any interleaving and observe the trace the laws speak about.
//!
//! To speak of where a delivered message came from, the laws instantiate
//! the message type with [`Labeled`] values carrying an [`Origin`]: the
//! label only marks provenance, and [`law_labels_immaterial`] proves that
//! it plays no part in the transitions, so the labeled laws speak of the
//! very runs the unlabeled scheduler performs.

use vstd::prelude::*;

verus! {

/// Where one scheduled message originated: the synchronous message queue of
/// one flush, or the effect registered as the `e`-th of that flush.
pub ghost enum Origin {
    Queued,
    FromEffect { e: nat },
}

/// A message together with its provenance label.
pub ghost struct Labeled<M> {
    pub origin: Origin,
    pub msg: M,
}

/// The whole sequence labeled with one origin.
pub open spec fn label_all<M>(o: Origin, msgs: Seq<M>) -> Seq<Labeled<M>> {
    Seq::new(msgs.len(), |i: int| Labeled { origin: o, msg: msgs[i] })
}

/// The messages of `t` that carry origin `o`, in the order they stand in
/// `t`.
pub open spec fn from_origin<M>(t: Seq<Labeled<M>>, o: Origin) -> Seq<M>
    decreases t.len(),
{
    if t.len() == 0 {
        Seq::empty()
    } else {
        let rest = from_origin(t.drop_last(), o);
        if t.last().origin == o {
            rest.push(t.last().msg)
        } else {
            rest
        }
    }
}

proof fn lemma_from_origin_push<M>(t: Seq<Labeled<M>>, x: Labeled<M>, o: Origin)
    ensures
        from_origin(t.push(x), o) == if x.origin == o {
            from_origin(t, o).push(x.msg)
        } else {
            from_origin(t, o)
        },
{
    assert(t.push(x).drop_last() =~= t);
    assert(t.push(x).last() == x);
}

proof fn lemma_from_origin_first<M>(t: Seq<Labeled<M>>, o: Origin)
    requires
        t.len() > 0,
    ensures
        from_origin(t, o) == if t[0].origin == o {
            seq![t[0].msg] + from_origin(t.skip(1), o)
        } else {
            from_origin(t.skip(1), o)
        },
    decreases t.len(),
{
    if t.len() == 1 {
        assert(t.drop_last() =~= Seq::<Labeled<M>>::empty());
        assert(t.skip(1) =~= Seq::<Labeled<M>>::empty());
        if t[0].origin == o {
            assert(from_origin(t, o) =~= seq![t[0].msg] + from_origin(t.skip(1), o));
        }
    } else {
        let u = t.drop_last();
        lemma_from_origin_first(u, o);
        assert(u[0] == t[0]);
        assert(t.skip(1).drop_last() =~= u.skip(1));
        assert(t.skip(1).last() == t.last());
        assert(t.skip(1).len() > 0);
        if t.last().origin == o {
            if t[0].origin == o {
                assert((seq![t[0].msg] + from_origin(u.skip(1), o)).push(t.last().msg)
                    =~= seq![t[0].msg] + from_origin(u.skip(1), o).push(t.last().msg));
            }
        }
    }
}

proof fn lemma_from_origin_concat<M>(a: Seq<Labeled<M>>, b: Seq<Labeled<M>>, o: Origin)
    ensures
        from_origin(a + b, o) == from_origin(a, o) + from_origin(b, o),
    decreases b.len(),
{
    if b.len() == 0 {
        assert(a + b =~= a);
        assert(from_origin(b, o) =~= Seq::<M>::empty());
        assert(from_origin(a, o) + from_origin(b, o) =~= from_origin(a, o));
    } else {
        let c = b.drop_last();
        lemma_from_origin_concat(a, c, o);
        assert(a + b =~= (a + c).push(b.last()));
        lemma_from_origin_push(a + c, b.last(), o);
        if b.last().origin == o {
            assert((from_origin(a, o) + from_origin(c, o)).push(b.last().msg)
                =~= from_origin(a, o) + from_origin(c, o).push(b.last().msg));
        }
    }
}

proof fn lemma_from_origin_label_all<M>(o: Origin, msgs: Seq<M>, o2: Origin)
    ensures
        from_origin(label_all(o, msgs), o2) == if o == o2 {
            msgs
        } else {
            Seq::<M>::empty()
        },
    decreases msgs.len(),
{
    let t = label_all(o, msgs);
    if msgs.len() == 0 {
        assert(t.len() == 0);
        if o == o2 {
            assert(from_origin(t, o2) =~= msgs);
        }
    } else {
        let m = msgs.drop_last();
        lemma_from_origin_label_all(o, m, o2);
        assert(t.drop_last() =~= label_all(o, m));
        assert(t.last().origin == o && t.last().msg == msgs.last());
        if o == o2 {
            assert(from_origin(label_all(o, m), o2).push(msgs.last()) =~= msgs);
        }
    }
}

/// The scheduler's state: the FIFO microtask queue, the FIFO queue of
/// already-runnable spawned dispatch tasks, one slot per detached effect
/// task (`None` once it has completed), and the store's trace — every
/// message written so far, in order.
pub ghost struct SchedState<M> {
    pub micro: Seq<M>,
    pub ready: Seq<M>,
    pub waiting: Seq<Option<Seq<M>>>,
    pub trace: Seq<M>,
}

/// One choice of the host scheduler: run the front microtask, run the front
/// runnable task, or let the `i`-th detached effect complete. Completions
/// are picked freely — they race.
pub enum SchedOp {
    RunMicro,
    RunReady,
    Resolve(usize),
}

/// The scheduler state with nothing pending and nothing delivered.
pub open spec fn idle_state<M>() -> SchedState<M> {
    SchedState {
        micro: Seq::empty(),
        ready: Seq::empty(),
        waiting: Seq::empty(),
        trace: Seq::empty(),
    }
}

/// One scheduler step. Running a queue pops its front entry and writes that
/// message to the store. Letting effect `i` complete writes its first
/// message inline and appends one runnable dispatch task per later message,
/// in order; an empty or already-completed slot delivers nothing. A choice
/// that has nothing to do leaves the state unchanged.
pub open spec fn sched_step<M>(s: SchedState<M>, op: SchedOp) -> SchedState<M> {
    match op {
        SchedOp::RunMicro => if s.micro.len() > 0 {
            SchedState {
                micro: s.micro.skip(1),
                ready: s.ready,
                waiting: s.waiting,
                trace: s.trace.push(s.micro[0]),
            }
        } else {
            s
        },
        SchedOp::RunReady => if s.ready.len() > 0 {
            SchedState {
                micro: s.micro,
                ready: s.ready.skip(1),
                waiting: s.waiting,
                trace: s.trace.push(s.ready[0]),
            }
        } else {
            s
        },
        SchedOp::Resolve(i) => if i < s.waiting.len() && s.waiting[i as int] is Some {
            let r = s.waiting[i as int]->0;
            if r.len() > 0 {
                SchedState {
                    micro: s.micro,
                    ready: s.ready + r.skip(1),
                    waiting: s.waiting.update(i as int, None),
                    trace: s.trace.push(r[0]),
                }
            } else {
                SchedState {
                    micro: s.micro,
                    ready: s.ready,
                    waiting: s.waiting.update(i as int, None),
                    trace: s.trace,
                }
            }
        } else {
            s
        },
    }
}

/// A whole run: the steps of `ops`, in order.
pub open spec fn sched_run<M>(s: SchedState<M>, ops: Seq<SchedOp>) -> SchedState<M>
    decreases ops.len(),
{
    if ops.len() == 0 {
        s
    } else {
        sched_run(sched_step(s, ops[0]), ops.skip(1))
    }
}

/// The scheduler state right after one flush on an idle scheduler, with
/// provenance labels: every pending message stands in the microtask queue,
/// in order; the `e`-th registered effect occupies slot `e`, its eventual
/// messages labeled with its origin.
pub open spec fn flush_state<M>(msgs: Seq<M>, effects: Seq<Seq<M>>) -> SchedState<Labeled<M>> {
    SchedState {
        micro: label_all(Origin::Queued, msgs),
        ready: Seq::empty(),
        waiting: Seq::new(
            effects.len(),
            |k: int| Some(label_all(Origin::FromEffect { e: k as nat }, effects[k])),
        ),
        trace: Seq::empty(),
    }
}

/// Whether slot `k` holds no message of origin `o`.
pub open spec fn slot_clean<M>(w: Seq<Option<Seq<Labeled<M>>>>, k: int, o: Origin) -> bool {
    w[k] matches Some(x) ==> from_origin(x, o) == Seq::<M>::empty()
}

/// The invariant behind [`law_queued_order`]: what the store has seen of the
/// flushed messages, followed by what still stands in the microtask queue,
/// is exactly the flushed list; no queued message hides anywhere else.
pub open spec fn queued_inv<M>(s: SchedState<Labeled<M>>, msgs: Seq<M>) -> bool {
    let o = Origin::Queued;
    &&& from_origin(s.trace, o) + from_origin(s.micro, o) == msgs
    &&& from_origin(s.ready, o) == Seq::<M>::empty()
    &&& forall|k: int| 0 <= k < s.waiting.len() ==> slot_clean(s.waiting, k, o)
}

proof fn queued_inv_step<M>(s: SchedState<Labeled<M>>, msgs: Seq<M>, op: SchedOp)
    requires
        queued_inv(s, msgs),
    ensures
        queued_inv(sched_step(s, op), msgs),
{
    let o = Origin::Queued;
    let s2 = sched_step(s, op);
    match op {
        SchedOp::RunMicro => {
            if s.micro.len() > 0 {
                lemma_from_origin_first(s.micro, o);
                lemma_from_origin_push(s.trace, s.micro[0], o);
                if s.micro[0].origin == o {
                    assert(from_origin(s.trace, o).push(s.micro[0].msg)
                        + from_origin(s.micro.skip(1), o)
                        =~= from_origin(s.trace, o)
                        + (seq![s.micro[0].msg] + from_origin(s.micro.skip(1), o)));
                }
            }
        },
        SchedOp::RunReady => {
            if s.ready.len() > 0 {
                lemma_from_origin_first(s.ready, o);
                lemma_from_origin_push(s.trace, s.ready[0], o);
            }
        },
        SchedOp::Resolve(i) => {
            if i < s.waiting.len() && s.waiting[i as int] is Some {
                let r = s.waiting[i as int]->0;
                assert(slot_clean(s.waiting, i as int, o));
                if r.len() > 0 {
                    lemma_from_origin_first(r, o);
                    lemma_from_origin_push(s.trace, r[0], o);
                    lemma_from_origin_concat(s.ready, r.skip(1), o);
                    assert(from_origin(s.ready, o) + from_origin(r.skip(1), o)
                        =~= Seq::<M>::empty());
                }
                assert forall|k: int| 0 <= k < s2.waiting.len() implies slot_clean(
                    s2.waiting,
                    k,
                    o,
                ) by {
                    if k != i {
                        assert(s2.waiting[k] == s.waiting[k]);
                        assert(slot_clean(s.waiting, k, o));
                    }
                }
            }
        },
    }
}

proof fn queued_inv_run<M>(s: SchedState<Labeled<M>>, msgs: Seq<M>, ops: Seq<SchedOp>)
    requires
        queued_inv(s, msgs),
    ensures
        queued_inv(sched_run(s, ops), msgs),
    decreases ops.len(),
{
    if ops.len() > 0 {
        queued_inv_step(s, msgs, ops[0]);
        queued_inv_run(sched_step(s, ops[0]), msgs, ops.skip(1));
    }
}

proof fn queued_inv_init<M>(msgs: Seq<M>, effects: Seq<Seq<M>>)
    ensures
        queued_inv(flush_state(msgs, effects), msgs),
{
    let o = Origin::Queued;
    let s = flush_state(msgs, effects);
    lemma_from_origin_label_all(o, msgs, o);
    assert(from_origin(s.trace, o) + from_origin(s.micro, o) =~= msgs);
    assert forall|k: int| 0 <= k < s.waiting.len() implies slot_clean(s.waiting, k, o) by {
        lemma_from_origin_label_all(Origin::FromEffect { e: k as nat }, effects[k], o);
    }
}

/// Law: deferred messages standing in the microtask queue reach the store
/// in their queue order, however the scheduler interleaves them with other
/// work. This holds of any state satisfying [`queued_inv`] — one flush's
/// pending messages, or a [`SimScheduler::queue_batch`] on a scheduler with
/// no other deferred work: after any run, what the store has seen of the
/// marked messages is a prefix of `msgs`, and together with what still
/// stands in the microtask queue it is the whole list.
pub proof fn law_deferred_order<M>(s: SchedState<Labeled<M>>, msgs: Seq<M>, ops: Seq<SchedOp>)
    requires
        queued_inv(s, msgs),
    ensures
        ({
            let s2 = sched_run(s, ops);
            let delivered = from_origin(s2.trace, Origin::Queued);
            &&& delivered + from_origin(s2.micro, Origin::Queued) == msgs
            &&& delivered == msgs.take(delivered.len() as int)
            &&& s2.micro.len() == 0 ==> delivered == msgs
        }),
{
    queued_inv_run(s, msgs, ops);
    let s2 = sched_run(s, ops);
    let delivered = from_origin(s2.trace, Origin::Queued);
    assert(delivered =~= msgs.take(delivered.len() as int));
    if s2.micro.len() == 0 {
        assert(from_origin(s2.micro, Origin::Queued) =~= Seq::<M>::empty());
        assert(delivered =~= delivered + from_origin(s2.micro, Origin::Queued));
    }
}

/// Law: the messages queued on one command queue reach the store in their
/// registration order, however the scheduler interleaves them with other
/// work. After any run from the flush, what the store has seen of them is
/// a prefix of the queued list, and together with what still stands in the
/// microtask queue it is the whole list.
pub proof fn law_queued_order<M>(msgs: Seq<M>, effects: Seq<Seq<M>>, ops: Seq<SchedOp>)
    ensures
        ({
            let s = sched_run(flush_state(msgs, effects), ops);
            let delivered = from_origin(s.trace, Origin::Queued);
            &&& delivered + from_origin(s.micro, Origin::Queued) == msgs
            &&& delivered == msgs.take(delivered.len() as int)
            &&& s.micro.len() == 0 ==> delivered == msgs
        }),
{
    queued_inv_init(msgs, effects);
    law_deferred_order(flush_state(msgs, effects), msgs, ops);
}

/// The invariant behind [`law_effect_order`]: before effect `e` completes,
/// its labeled messages sit whole in its slot and none has reached the
/// store; afterwards, what the store has seen of them, followed by what
/// still waits in the runnable queue, is exactly its resolved list.
pub open spec fn effect_inv<M>(s: SchedState<Labeled<M>>, e: nat, r: Seq<M>) -> bool {
    let o = Origin::FromEffect { e };
    &&& from_origin(s.micro, o) == Seq::<M>::empty()
    &&& e < s.waiting.len()
    &&& forall|k: int| 0 <= k < s.waiting.len() && k != e ==> slot_clean(s.waiting, k, o)
    &&& match s.waiting[e as int] {
        Some(x) => {
            &&& x == label_all(o, r)
            &&& from_origin(s.trace, o) == Seq::<M>::empty()
            &&& from_origin(s.ready, o) == Seq::<M>::empty()
        },
        None => from_origin(s.trace, o) + from_origin(s.ready, o) == r,
    }
}

proof fn effect_inv_step<M>(s: SchedState<Labeled<M>>, e: nat, r: Seq<M>, op: SchedOp)
    requires
        effect_inv(s, e, r),
    ensures
        effect_inv(sched_step(s, op), e, r),
{
    let o = Origin::FromEffect { e };
    let s2 = sched_step(s, op);
    match op {
        SchedOp::RunMicro => {
            if s.micro.len() > 0 {
                lemma_from_origin_first(s.micro, o);
                lemma_from_origin_push(s.trace, s.micro[0], o);
            }
        },
        SchedOp::RunReady => {
            if s.ready.len() > 0 {
                lemma_from_origin_first(s.ready, o);
                lemma_from_origin_push(s.trace, s.ready[0], o);
                if s.waiting[e as int] is None && s.ready[0].origin == o {
                    assert(from_origin(s.trace, o).push(s.ready[0].msg)
                        + from_origin(s.ready.skip(1), o)
                        =~= from_origin(s.trace, o)
                        + (seq![s.ready[0].msg] + from_origin(s.ready.skip(1), o)));
                }
            }
        },
        SchedOp::Resolve(i) => {
            if i < s.waiting.len() && s.waiting[i as int] is Some {
                let x = s.waiting[i as int]->0;
                if i == e {
                    assert(x == label_all(o, r));
                    if x.len() > 0 {
                        assert(x[0].origin == o && x[0].msg == r[0]);
                        lemma_from_origin_push(s.trace, x[0], o);
                        lemma_from_origin_concat(s.ready, x.skip(1), o);
                        assert(x.skip(1) =~= label_all(o, r.skip(1)));
                        lemma_from_origin_label_all(o, r.skip(1), o);
                        assert(from_origin(s2.trace, o) + from_origin(s2.ready, o) =~= r);
                    } else {
                        assert(r =~= Seq::<M>::empty());
                        assert(from_origin(s2.trace, o) + from_origin(s2.ready, o) =~= r);
                    }
                } else {
                    assert(slot_clean(s.waiting, i as int, o));
                    if x.len() > 0 {
                        lemma_from_origin_first(x, o);
                        lemma_from_origin_push(s.trace, x[0], o);
                        lemma_from_origin_concat(s.ready, x.skip(1), o);
                        if s.waiting[e as int] is Some {
                            assert(from_origin(s2.ready, o) =~= Seq::<M>::empty());
                        } else {
                            assert(from_origin(s2.trace, o) + from_origin(s2.ready, o)
                                =~= from_origin(s.trace, o) + from_origin(s.ready, o));
                        }
                    }
                    assert(s2.waiting[e as int] == s.waiting[e as int]);
                }
                assert forall|k: int|
                    0 <= k < s2.waiting.len() && k != e implies slot_clean(s2.waiting, k, o) by {
                    if k != i {
                        assert(s2.waiting[k] == s.waiting[k]);
                        assert(slot_clean(s.waiting, k, o));
                    }
                }
            }
        },
    }
}

proof fn effect_inv_run<M>(s: SchedState<Labeled<M>>, e: nat, r: Seq<M>, ops: Seq<SchedOp>)
    requires
        effect_inv(s, e, r),
    ensures
        effect_inv(sched_run(s, ops), e, r),
    decreases ops.len(),
{
    if ops.len() > 0 {
        effect_inv_step(s, e, r, ops[0]);
        effect_inv_run(sched_step(s, ops[0]), e, r, ops.skip(1));
    }
}

proof fn effect_inv_init<M>(msgs: Seq<M>, effects: Seq<Seq<M>>, e: nat)
    requires
        e < effects.len(),
    ensures
        effect_inv(flush_state(msgs, effects), e, effects[e as int]),
{
    let o = Origin::FromEffect { e };
    let s = flush_state(msgs, effects);
    lemma_from_origin_label_all(Origin::Queued, msgs, o);
    assert forall|k: int| 0 <= k < s.waiting.len() && k != e implies slot_clean(
        s.waiting,
        k,
        o,
    ) by {
        lemma_from_origin_label_all(Origin::FromEffect { e: k as nat }, effects[k], o);
    }
}

/// Law: the messages one effect resolves to reach the store in their order
/// within that effect — the first inline on completion, each later one
/// through its own spawned task — however the scheduler interleaves other
/// work, and no message is delivered that the effect did not resolve to.
/// After any run, what the store has seen on behalf of effect `e` is a
/// prefix of its resolved list.
pub proof fn law_effect_order<M>(msgs: Seq<M>, effects: Seq<Seq<M>>, e: nat, ops: Seq<SchedOp>)
    requires
        e < effects.len(),
    ensures
        ({
            let s = sched_run(flush_state(msgs, effects), ops);
            let o = Origin::FromEffect { e };
            let delivered = from_origin(s.trace, o);
            &&& delivered.len() <= effects[e as int].len()
            &&& delivered == effects[e as int].take(delivered.len() as int)
            &&& (s.waiting[e as int] is None && from_origin(s.ready, o) == Seq::<M>::empty())
                ==> delivered == effects[e as int]
        }),
{
    effect_inv_init(msgs, effects, e);
    effect_inv_run(flush_state(msgs, effects), e, effects[e as int], ops);
    let s = sched_run(flush_state(msgs, effects), ops);
    let o = Origin::FromEffect { e };
    let delivered = from_origin(s.trace, o);
    match s.waiting[e as int] {
        Some(x) => {
            assert(delivered =~= effects[e as int].take(delivered.len() as int));
        },
        None => {
            assert(delivered =~= effects[e as int].take(delivered.len() as int));
            if from_origin(s.ready, o) == Seq::<M>::empty() {
                assert(delivered =~= delivered + from_origin(s.ready, o));
            }
        },
    }
}

/// Law: an effect that resolves to no messages never causes a store write.
pub proof fn law_empty_effect_silent<M>(
    msgs: Seq<M>,
    effects: Seq<Seq<M>>,
    e: nat,
    ops: Seq<SchedOp>,
)
    requires
        e < effects.len(),
        effects[e as int] == Seq::<M>::empty(),
    ensures
        from_origin(sched_run(flush_state(msgs, effects), ops).trace, Origin::FromEffect { e })
            == Seq::<M>::empty(),
{
    law_effect_order(msgs, effects, e, ops);
    let s = sched_run(flush_state(msgs, effects), ops);
    let delivered = from_origin(s.trace, Origin::FromEffect { e });
    assert(delivered =~= Seq::<M>::empty());
}

/// Law: a command queue that was never used leaves the scheduler idle — no
/// run of any length makes a single store write.
pub proof fn law_idle_silent<M>(ops: Seq<SchedOp>)
    ensures
        sched_run(idle_state::<M>(), ops) == idle_state::<M>(),
    decreases ops.len(),
{
    if ops.len() > 0 {
        assert(sched_step(idle_state::<M>(), ops[0]) == idle_state::<M>());
        law_idle_silent::<M>(ops.skip(1));
    }
}

/// Law: the completions of two effects race. With one effect resolving to
/// `[a]` and another to `[b]`, one scheduling choice delivers `a` first and
/// another delivers `b` first: a caller may not assume either order.
pub proof fn law_completions_race<M>(a: M, b: M)
    ensures
        ({
            let s0 = SchedState::<M> {
                micro: Seq::empty(),
                ready: Seq::empty(),
                waiting: seq![Some(seq![a]), Some(seq![b])],
                trace: Seq::empty(),
            };
            &&& sched_run(s0, seq![SchedOp::Resolve(0), SchedOp::Resolve(1)]).trace == seq![a, b]
            &&& sched_run(s0, seq![SchedOp::Resolve(1), SchedOp::Resolve(0)]).trace == seq![b, a]
        }),
{
    let s0 = SchedState::<M> {
        micro: Seq::empty(),
        ready: Seq::empty(),
        waiting: seq![Some(seq![a]), Some(seq![b])],
        trace: Seq::empty(),
    };
    let ops1 = seq![SchedOp::Resolve(0), SchedOp::Resolve(1)];
    let ops2 = seq![SchedOp::Resolve(1), SchedOp::Resolve(0)];
    assert(seq![a].skip(1) =~= Seq::<M>::empty());
    assert(seq![b].skip(1) =~= Seq::<M>::empty());

    let s1 = sched_step(s0, SchedOp::Resolve(0));
    assert(s1.ready =~= Seq::<M>::empty());
    assert(ops1.skip(1) =~= seq![SchedOp::Resolve(1)]);
    let s2 = sched_step(s1, SchedOp::Resolve(1));
    assert(s2.trace =~= seq![a, b]);
    assert(seq![SchedOp::Resolve(1)].skip(1) =~= Seq::<SchedOp>::empty());
    assert(ops1[0] == SchedOp::Resolve(0));
    assert(sched_run(s0, ops1) == sched_run(s1, seq![SchedOp::Resolve(1)]));
    assert(sched_run(s1, seq![SchedOp::Resolve(1)]) == sched_run(s2, Seq::<SchedOp>::empty()));
    assert(sched_run(s0, ops1) == s2);

    let t1 = sched_step(s0, SchedOp::Resolve(1));
    assert(t1.ready =~= Seq::<M>::empty());
    assert(ops2.skip(1) =~= seq![SchedOp::Resolve(0)]);
    let t2 = sched_step(t1, SchedOp::Resolve(0));
    assert(t2.trace =~= seq![b, a]);
    assert(seq![SchedOp::Resolve(0)].skip(1) =~= Seq::<SchedOp>::empty());
    assert(ops2[0] == SchedOp::Resolve(1));
    assert(sched_run(s0, ops2) == sched_run(t1, seq![SchedOp::Resolve(0)]));
    assert(sched_run(t1, seq![SchedOp::Resolve(0)]) == sched_run(t2, Seq::<SchedOp>::empty()));
    assert(sched_run(s0, ops2) == t2);
}

/// A labeled sequence with its labels erased.
pub open spec fn strip_seq<M>(t: Seq<Labeled<M>>) -> Seq<M> {
    Seq::new(t.len(), |i: int| t[i].msg)
}

/// A labeled slot with its labels erased.
pub open spec fn strip_slot<M>(w: Option<Seq<Labeled<M>>>) -> Option<Seq<M>> {
    match w {
        Some(x) => Some(strip_seq(x)),
        None => None,
    }
}

/// A labeled scheduler state with its labels erased.
pub open spec fn strip_state<M>(s: SchedState<Labeled<M>>) -> SchedState<M> {
    SchedState {
        micro: strip_seq(s.micro),
        ready: strip_seq(s.ready),
        waiting: Seq::new(s.waiting.len(), |k: int| strip_slot(s.waiting[k])),
        trace: strip_seq(s.trace),
    }
}

proof fn lemma_strip_step<M>(s: SchedState<Labeled<M>>, op: SchedOp)
    ensures
        strip_state(sched_step(s, op)) == sched_step(strip_state(s), op),
{
    let u = strip_state(s);
    match op {
        SchedOp::RunMicro => {
            if s.micro.len() > 0 {
                assert(strip_seq(s.micro.skip(1)) =~= u.micro.skip(1));
                assert(strip_seq(s.trace.push(s.micro[0])) =~= u.trace.push(u.micro[0]));
                assert(strip_state(sched_step(s, op)).waiting =~= sched_step(u, op).waiting);
            }
        },
        SchedOp::RunReady => {
            if s.ready.len() > 0 {
                assert(strip_seq(s.ready.skip(1)) =~= u.ready.skip(1));
                assert(strip_seq(s.trace.push(s.ready[0])) =~= u.trace.push(u.ready[0]));
                assert(strip_state(sched_step(s, op)).waiting =~= sched_step(u, op).waiting);
            }
        },
        SchedOp::Resolve(i) => {
            if i < s.waiting.len() && s.waiting[i as int] is Some {
                let r = s.waiting[i as int]->0;
                assert(u.waiting[i as int] == Some(strip_seq(r)));
                assert(strip_state(sched_step(s, op)).waiting =~= u.waiting.update(
                    i as int,
                    None,
                ));
                if r.len() > 0 {
                    assert(strip_seq(s.trace.push(r[0])) =~= u.trace.push(strip_seq(r)[0]));
                    assert(strip_seq(s.ready + r.skip(1)) =~= u.ready + strip_seq(r).skip(1));
                }
            } else {
                if i < s.waiting.len() {
                    assert(u.waiting[i as int] is None);
                }
            }
        },
    }
}

/// Law: the provenance labels play no part in the scheduler's behaviour —
/// erasing them before or after a run gives the same state. So every law
/// stated over a labeled run speaks of the run the unlabeled, executable
/// scheduler performs on the same choices.
pub proof fn law_labels_immaterial<M>(s: SchedState<Labeled<M>>, ops: Seq<SchedOp>)
    ensures
        strip_state(sched_run(s, ops)) == sched_run(strip_state(s), ops),
    decreases ops.len(),
{
    if ops.len() > 0 {
        lemma_strip_step(s, ops[0]);
        law_labels_immaterial(sched_step(s, ops[0]), ops.skip(1));
    }
}

/// Law: erasing the labels of [`flush_state`] gives exactly the scheduler
/// state that [`SimQueue::flush`] builds on an idle scheduler: the pending
/// messages as the microtask queue, the pending effects as awaited slots.
pub proof fn law_flush_state_strips<M>(msgs: Seq<M>, effects: Seq<Seq<M>>)
    ensures
        strip_state(flush_state(msgs, effects)) == (SchedState {
            micro: msgs,
            ready: Seq::<M>::empty(),
            waiting: as_slots(effects),
            trace: Seq::<M>::empty(),
        }),
{
    let s = strip_state(flush_state(msgs, effects));
    assert(s.micro =~= msgs);
    assert(s.ready =~= Seq::<M>::empty());
    assert(s.trace =~= Seq::<M>::empty());
    assert forall|k: int| 0 <= k < effects.len() implies s.waiting[k] == as_slots(effects)[k] by {
        assert(strip_seq(label_all(Origin::FromEffect { e: k as nat }, effects[k]))
            =~= effects[k]);
    }
    assert(s.waiting =~= as_slots(effects));
}

/// Effect lists as fresh scheduler slots, all still awaited.
pub open spec fn as_slots<M>(effs: Seq<Seq<M>>) -> Seq<Option<Seq<M>>> {
    Seq::new(effs.len(), |k: int| Some(effs[k]))
}

/// The executable scheduler model: the same state as [`SchedState`], and
/// one method per scheduler choice, each contracted to be exactly one
/// [`sched_step`]. A test drives any interleaving it likes and reads the
/// trace the laws speak about.
pub struct SimScheduler<M> {
    micro: Vec<M>,
    ready: Vec<M>,
    waiting: Vec<Option<Vec<M>>>,
    trace: Vec<M>,
}

impl<M> View for SimScheduler<M> {
    type V = SchedState<M>;

    closed spec fn view(&self) -> SchedState<M> {
        SchedState {
            micro: self.micro@,
            ready: self.ready@,
            waiting: Seq::new(
                self.waiting@.len(),
                |i: int|
                    match self.waiting@[i] {
                        Some(v) => Some(v@),
                        None => None,
                    },
            ),
            trace: self.trace@,
        }
    }
}

impl<M> SimScheduler<M> {
    /// An idle scheduler: nothing pending, nothing delivered.
    pub fn new() -> (s: SimScheduler<M>)
        ensures
            s@ == idle_state::<M>(),
    {
        let s = SimScheduler::<M> {
            micro: Vec::new(),
            ready: Vec::new(),
            waiting: Vec::new(),
            trace: Vec::new(),
        };
        proof {
            assert(s@.waiting =~= idle_state::<M>().waiting);
        }
        s
    }

    /// The store's trace: every message delivered so far, in order.
    pub fn delivered(&self) -> (t: &Vec<M>)
        ensures
            t@ == self@.trace,
    {
        &self.trace
    }

    /// How many deferred single-message microtasks still wait.
    pub fn micro_count(&self) -> (n: usize)
        ensures
            n == self@.micro.len(),
    {
        self.micro.len()
    }

    /// How many spawned dispatch tasks are runnable but have not run.
    pub fn ready_count(&self) -> (n: usize)
        ensures
            n == self@.ready.len(),
    {
        self.ready.len()
    }

    /// One immediate store write, as [`crate::dispatcher::MsgDispatcher::dispatch`]
    /// performs it: the message goes straight onto the trace.
    pub fn dispatch(&mut self, m: M)
        ensures
            final(self)@.trace == old(self)@.trace.push(m),
            final(self)@.micro == old(self)@.micro,
            final(self)@.ready == old(self)@.ready,
            final(self)@.waiting == old(self)@.waiting,
    {
        self.trace.push(m);
        proof {
            assert(self@.waiting =~= old(self)@.waiting);
        }
    }

    /// One deferred write, as [`crate::dispatcher::MsgDispatcher::queue_msg`]
    /// schedules it: one new microtask at the back of the FIFO queue.
    pub fn queue_msg(&mut self, m: M)
        ensures
            final(self)@.micro == old(self)@.micro.push(m),
            final(self)@.trace == old(self)@.trace,
            final(self)@.ready == old(self)@.ready,
            final(self)@.waiting == old(self)@.waiting,
    {
        self.micro.push(m);
        proof {
            assert(self@.waiting =~= old(self)@.waiting);
        }
    }

    /// A synchronous batch, as [`crate::dispatcher::MsgDispatcher::batch`]
    /// performs it: every message reaches the trace in order within this one
    /// call — nothing can interleave between them.
    pub fn batch(&mut self, msgs: Vec<M>)
        ensures
            final(self)@.trace == old(self)@.trace + msgs@,
            final(self)@.micro == old(self)@.micro,
            final(self)@.ready == old(self)@.ready,
            final(self)@.waiting == old(self)@.waiting,
    {
        let mut rest = msgs;
        self.trace.append(&mut rest);
        proof {
            assert(self@.waiting =~= old(self)@.waiting);
        }
    }

    /// A deferred batch, as [`crate::dispatcher::MsgDispatcher::queue_batch`]
    /// schedules it: one independent microtask per message, in order, so
    /// other scheduled work may interleave between any two of them.
    pub fn queue_batch(&mut self, msgs: Vec<M>)
        ensures
            final(self)@.micro == old(self)@.micro + msgs@,
            final(self)@.trace == old(self)@.trace,
            final(self)@.ready == old(self)@.ready,
            final(self)@.waiting == old(self)@.waiting,
    {
        let mut rest = msgs;
        self.micro.append(&mut rest);
        proof {
            assert(self@.waiting =~= old(self)@.waiting);
        }
    }

    /// The scheduler runs the front microtask, if any.
    pub fn run_micro(&mut self)
        ensures
            final(self)@ == sched_step(old(self)@, SchedOp::RunMicro),
    {
        if self.micro.len() > 0 {
            let m = self.micro.remove(0);
            self.trace.push(m);
            proof {
                assert(self@.micro =~= old(self)@.micro.skip(1));
                assert(self@.waiting =~= old(self)@.waiting);
            }
        }
    }

    /// The scheduler runs the front runnable spawned task, if any.
    pub fn run_ready(&mut self)
        ensures
            final(self)@ == sched_step(old(self)@, SchedOp::RunReady),
    {
        if self.ready.len() > 0 {
            let m = self.ready.remove(0);
            self.trace.push(m);
            proof {
                assert(self@.ready =~= old(self)@.ready.skip(1));
                assert(self@.waiting =~= old(self)@.waiting);
            }
        }
    }

    /// Effect `i` completes now, if it is still awaited: its first message
    /// is written inline, and each later message becomes one runnable
    /// dispatch task, in order, at the back of the FIFO of spawned tasks.
    pub fn resolve(&mut self, i: usize)
        ensures
            final(self)@ == sched_step(old(self)@, SchedOp::Resolve(i)),
    {
        if i >= self.waiting.len() {
            return;
        }
        let slot = self.waiting.remove(i);
        self.waiting.insert(i, None);
        proof {
            assert(self@.waiting =~= old(self)@.waiting.update(i as int, None));
        }
        match slot {
            None => {
                proof {
                    assert(self@.waiting =~= old(self)@.waiting);
                }
            },
            Some(r) => {
                let mut rest = r;
                if rest.len() > 0 {
                    let ghost r0 = rest@;
                    let first = rest.remove(0);
                    self.trace.push(first);
                    self.ready.append(&mut rest);
                    proof {
                        assert(r0.remove(0) =~= r0.skip(1));
                        assert(old(self)@.waiting[i as int] == Some(r0));
                    }
                } else {
                    proof {
                        assert(old(self)@.waiting[i as int] == Some(rest@));
                    }
                }
            },
        }
    }

    /// The scheduler drains the whole microtask queue, front to back: the
    /// deferred messages reach the store in exactly their queued order.
    pub fn drain_micro(&mut self)
        ensures
            final(self)@.trace == old(self)@.trace + old(self)@.micro,
            final(self)@.micro == Seq::<M>::empty(),
            final(self)@.ready == old(self)@.ready,
            final(self)@.waiting == old(self)@.waiting,
    {
        while self.micro.len() > 0
            invariant
                self@.trace + self@.micro == old(self)@.trace + old(self)@.micro,
                self@.ready == old(self)@.ready,
                self@.waiting == old(self)@.waiting,
            decreases self@.micro.len(),
        {
            let m = self.micro.remove(0);
            self.trace.push(m);
            proof {
                assert(self@.waiting =~= old(self)@.waiting);
                assert(self@.trace + self@.micro =~= old(self)@.trace + old(self)@.micro);
            }
        }
        proof {
            assert(self@.trace =~= self@.trace + self@.micro);
        }
    }

    /// The scheduler runs every runnable spawned task, front to back: the
    /// re-spawned messages reach the store in exactly their spawn order.
    pub fn drain_ready(&mut self)
        ensures
            final(self)@.trace == old(self)@.trace + old(self)@.ready,
            final(self)@.ready == Seq::<M>::empty(),
            final(self)@.micro == old(self)@.micro,
            final(self)@.waiting == old(self)@.waiting,
    {
        while self.ready.len() > 0
            invariant
                self@.trace + self@.ready == old(self)@.trace + old(self)@.ready,
                self@.micro == old(self)@.micro,
                self@.waiting == old(self)@.waiting,
            decreases self@.ready.len(),
        {
            let m = self.ready.remove(0);
            self.trace.push(m);
            proof {
                assert(self@.waiting =~= old(self)@.waiting);
                assert(self@.trace + self@.ready =~= old(self)@.trace + old(self)@.ready);
            }
        }
        proof {
            assert(self@.trace =~= self@.trace + self@.ready);
        }
    }
}

/// The executable model of one command queue: the same accumulation and
/// flush protocol as [`crate::queue::Cmd`], against the scheduler model
/// instead of the host, with an effect standing for the messages it will
/// resolve to.
pub struct SimQueue<M> {
    msgs: Vec<M>,
    effects: Vec<Vec<M>>,
    flushed: bool,
}

impl<M> SimQueue<M> {
    /// The messages queued so far, in registration order.
    pub closed spec fn pending_msgs(self) -> Seq<M> {
        self.msgs@
    }

    /// The effects queued so far, in registration order, each as the
    /// messages it will resolve to.
    pub closed spec fn pending_effects(self) -> Seq<Seq<M>> {
        Seq::new(self.effects@.len(), |i: int| self.effects@[i]@)
    }

    /// Whether the queue has already flushed.
    pub closed spec fn spent(self) -> bool {
        self.flushed
    }

    /// A fresh queue with nothing pending.
    pub fn new() -> (q: SimQueue<M>)
        ensures
            q.pending_msgs() == Seq::<M>::empty(),
            q.pending_effects() == Seq::<Seq<M>>::empty(),
            !q.spent(),
    {
        let q = SimQueue::<M> { msgs: Vec::new(), effects: Vec::new(), flushed: false };
        proof {
            assert(q.pending_effects() =~= Seq::<Seq<M>>::empty());
        }
        q
    }

    /// Appends one message, as [`crate::queue::Cmd::msg`] does.
    pub fn msg(&mut self, m: M)
        requires
            !old(self).spent(),
        ensures
            final(self).pending_msgs() == old(self).pending_msgs().push(m),
            final(self).pending_effects() == old(self).pending_effects(),
            !final(self).spent(),
    {
        self.msgs.push(m);
        proof {
            assert(self.pending_effects() =~= old(self).pending_effects());
        }
    }

    /// Appends every message in order, as [`crate::queue::Cmd::batch_msgs`]
    /// does.
    pub fn batch_msgs(&mut self, msgs: Vec<M>)
        requires
            !old(self).spent(),
        ensures
            final(self).pending_msgs() == old(self).pending_msgs() + msgs@,
            final(self).pending_effects() == old(self).pending_effects(),
            !final(self).spent(),
    {
        let mut rest = msgs;
        self.msgs.append(&mut rest);
        proof {
            assert(self.pending_effects() =~= old(self).pending_effects());
        }
    }

    /// Appends one effect, given as the messages it will resolve to, as
    /// [`crate::queue::Cmd::cmd`] registers the effect itself.
    pub fn effect(&mut self, msgs: Vec<M>)
        requires
            !old(self).spent(),
        ensures
            final(self).pending_msgs() == old(self).pending_msgs(),
            final(self).pending_effects() == old(self).pending_effects().push(msgs@),
            !final(self).spent(),
    {
        self.effects.push(msgs);
        proof {
            assert(self.pending_effects() =~= old(self).pending_effects().push(msgs@));
        }
    }

    /// The flush, exactly once: every pending effect becomes one awaited
    /// scheduler slot, in registration order, and then every pending
    /// message becomes one microtask of its own, in registration order.
    /// Nothing is delivered yet, and an unused queue leaves the scheduler
    /// untouched.
    pub fn flush(&mut self, sched: &mut SimScheduler<M>)
        requires
            !old(self).spent(),
        ensures
            final(self).spent(),
            final(self).pending_msgs() == Seq::<M>::empty(),
            final(self).pending_effects() == Seq::<Seq<M>>::empty(),
            final(sched)@.waiting == old(sched)@.waiting + as_slots(old(self).pending_effects()),
            final(sched)@.micro == old(sched)@.micro + old(self).pending_msgs(),
            final(sched)@.ready == old(sched)@.ready,
            final(sched)@.trace == old(sched)@.trace,
    {
        while self.effects.len() > 0
            invariant
                self.pending_msgs() == old(self).pending_msgs(),
                self.spent() == old(self).spent(),
                sched@.waiting + as_slots(self.pending_effects()) == old(sched)@.waiting
                    + as_slots(old(self).pending_effects()),
                sched@.micro == old(sched)@.micro,
                sched@.ready == old(sched)@.ready,
                sched@.trace == old(sched)@.trace,
            decreases self.effects@.len(),
        {
            let e = self.effects.remove(0);
            sched.waiting.push(Some(e));
            proof {
                assert(sched@.micro =~= old(sched)@.micro);
                assert(sched@.waiting + as_slots(self.pending_effects()) =~= old(
                    sched,
                )@.waiting + as_slots(old(self).pending_effects()));
            }
        }
        proof {
            assert(as_slots(self.pending_effects()) =~= Seq::<Option<Seq<M>>>::empty());
            assert(sched@.waiting =~= sched@.waiting + as_slots(self.pending_effects()));
        }
        while self.msgs.len() > 0
            invariant
                self.pending_effects() == Seq::<Seq<M>>::empty(),
                self.spent() == old(self).spent(),
                sched@.waiting == old(sched)@.waiting + as_slots(old(self).pending_effects()),
                sched@.micro + self.pending_msgs() == old(sched)@.micro + old(
                    self,
                ).pending_msgs(),
                sched@.ready == old(sched)@.ready,
                sched@.trace == old(sched)@.trace,
            decreases self.msgs@.len(),
        {
            let m = self.msgs.remove(0);
            sched.micro.push(m);
            proof {
                assert(sched@.waiting =~= old(sched)@.waiting + as_slots(
                    old(self).pending_effects(),
                ));
                assert(sched@.micro + self.pending_msgs() =~= old(sched)@.micro + old(
                    self,
                ).pending_msgs());
            }
        }
        proof {
            assert(self.pending_msgs() =~= Seq::<M>::empty());
            assert(sched@.micro =~= sched@.micro + self.pending_msgs());
        }
        self.flushed = true;
    }
}

} // verus!

//! What holds of the scheduler over a whole history of arrivals: every
//! fragment ends up in exactly one batch of its own partition, in arrival
//! order, and batches close exactly when a flush trigger fires.

use crate::batch::{all_keyed, appended, batch_of, BatchModel, BatchSettings, BufferModel};
use crate::encoding::FragmentModel;
use crate::scheduler::{after_push, after_sweep, model_ok, open_buffer, open_ok, push_output};
use vstd::prelude::*;

verus! {

/// One thing that happens to the scheduler: a fragment arrives at a time,
/// or the periodic tick comes at a time.
pub enum Arrival {
    Fragment(FragmentModel, nat),
    Tick(nat),
}

/// The open buffers after one arrival.
pub open spec fn step(m: Map<Seq<char>, BufferModel>, settings: BatchSettings, a: Arrival) -> Map<
    Seq<char>,
    BufferModel,
> {
    match a {
        Arrival::Fragment(f, now) => after_push(m, settings, f, now),
        Arrival::Tick(now) => after_sweep(m, settings, Some(now)),
    }
}

/// The open buffers after a history of arrivals, starting with none open.
pub open spec fn run(settings: BatchSettings, arrivals: Seq<Arrival>) -> Map<
    Seq<char>,
    BufferModel,
>
    decreases arrivals.len(),
{
    if arrivals.len() == 0 {
        Map::empty()
    } else {
        step(run(settings, arrivals.drop_last()), settings, arrivals.last())
    }
}

/// The batch of partition `k` that one arrival closes, if it closes one.
pub open spec fn closed_by(
    m: Map<Seq<char>, BufferModel>,
    settings: BatchSettings,
    a: Arrival,
    k: Seq<char>,
) -> Option<BatchModel> {
    match a {
        Arrival::Fragment(f, now) => if f.key == k {
            push_output(m, settings, f, now)
        } else {
            None
        },
        Arrival::Tick(now) => if m.contains_key(k) && settings.expired(m[k].created_at, now) {
            Some(batch_of(m[k]))
        } else {
            None
        },
    }
}

/// The batches of partition `k` that a history closes, in the order in
/// which they close.
pub open spec fn closed_batches(settings: BatchSettings, arrivals: Seq<Arrival>, k: Seq<char>)
    -> Seq<BatchModel>
    decreases arrivals.len(),
{
    if arrivals.len() == 0 {
        Seq::empty()
    } else {
        let before = closed_batches(settings, arrivals.drop_last(), k);
        match closed_by(run(settings, arrivals.drop_last()), settings, arrivals.last(), k) {
            Some(b) => before.push(b),
            None => before,
        }
    }
}

/// The fragments of partition `k` in a history, in arrival order.
pub open spec fn arrived(arrivals: Seq<Arrival>, k: Seq<char>) -> Seq<FragmentModel>
    decreases arrivals.len(),
{
    if arrivals.len() == 0 {
        Seq::empty()
    } else {
        let before = arrived(arrivals.drop_last(), k);
        match arrivals.last() {
            Arrival::Fragment(f, now) => if f.key == k {
                before.push(f)
            } else {
                before
            },
            Arrival::Tick(now) => before,
        }
    }
}

/// The fragments of a list of batches, one batch after the other.
pub open spec fn batched(batches: Seq<BatchModel>) -> Seq<FragmentModel>
    decreases batches.len(),
{
    if batches.len() == 0 {
        Seq::empty()
    } else {
        batched(batches.drop_last()) + batches.last().fragments
    }
}

/// The fragments waiting in the open buffer of partition `k`.
pub open spec fn waiting(m: Map<Seq<char>, BufferModel>, k: Seq<char>) -> Seq<FragmentModel> {
    if m.contains_key(k) {
        m[k].fragments
    } else {
        Seq::empty()
    }
}

/// One arrival keeps the open buffers as [`model_ok`] says.
pub proof fn lemma_step_ok(m: Map<Seq<char>, BufferModel>, settings: BatchSettings, a: Arrival)
    requires
        model_ok(settings, m),
    ensures
        model_ok(settings, step(m, settings, a)),
{
    let m2 = step(m, settings, a);
    assert forall|k: Seq<char>| m2.contains_key(k) implies open_ok(
        settings,
        k,
        #[trigger] m2[k],
    ) by {
        match a {
            Arrival::Fragment(f, now) => {
                if k == f.key {
                    let b = appended(open_buffer(m, f.key), f, now);
                    assert(m2[k] == b);
                    if m.contains_key(f.key) {
                        assert(open_ok(settings, k, m[k]));
                    }
                } else {
                    assert(m.contains_key(k));
                    assert(open_ok(settings, k, m[k]));
                }
            },
            Arrival::Tick(now) => {
                assert(m.contains_key(k));
                assert(open_ok(settings, k, m[k]));
            },
        }
    }
}

/// Partitioning. Over any history of arrivals, for every partition `k`:
/// the open buffers stay well formed; every batch closed for `k` carries
/// the key `k` and holds fragments of `k` only, so fragments of two
/// partitions never share a batch; and the closed batches of `k`, one after
/// the other, followed by what still waits in its open buffer, are exactly
/// the fragments that arrived for `k`, in arrival order.
pub proof fn lemma_partitioning(settings: BatchSettings, arrivals: Seq<Arrival>, k: Seq<char>)
    requires
        settings.valid(),
    ensures
        model_ok(settings, run(settings, arrivals)),
        forall|i: int|
            0 <= i < closed_batches(settings, arrivals, k).len() ==> (#[trigger] closed_batches(
                settings,
                arrivals,
                k,
            )[i]).key == k && all_keyed(closed_batches(settings, arrivals, k)[i].fragments, k),
        batched(closed_batches(settings, arrivals, k)) + waiting(run(settings, arrivals), k)
            == arrived(arrivals, k),
    decreases arrivals.len(),
{
    if arrivals.len() == 0 {
        assert(batched(closed_batches(settings, arrivals, k)) + waiting(
            run(settings, arrivals),
            k,
        ) =~= arrived(arrivals, k));
    } else {
        let init = arrivals.drop_last();
        let a = arrivals.last();
        lemma_partitioning(settings, init, k);
        let m = run(settings, init);
        let m2 = run(settings, arrivals);
        lemma_step_ok(m, settings, a);
        let before = closed_batches(settings, init, k);
        let after = closed_batches(settings, arrivals, k);
        if m.contains_key(k) {
            assert(open_ok(settings, k, m[k]));
        }
        match closed_by(m, settings, a, k) {
            Some(b) => {
                assert(after == before.push(b));
                assert(after.drop_last() =~= before);
                assert(b.key == k && all_keyed(b.fragments, k));
                assert forall|i: int| 0 <= i < after.len() implies (#[trigger] after[i]).key == k
                    && all_keyed(after[i].fragments, k) by {
                    if i < before.len() {
                        assert(after[i] == before[i]);
                    }
                }
                assert(!m2.contains_key(k));
                assert(b.fragments =~= match a {
                    Arrival::Fragment(f, now) => waiting(m, k).push(f),
                    Arrival::Tick(now) => waiting(m, k),
                });
                assert(batched(after) + waiting(m2, k) =~= arrived(arrivals, k));
            },
            None => {
                assert(after == before);
                assert(waiting(m2, k) =~= match a {
                    Arrival::Fragment(f, now) => if f.key == k {
                        waiting(m, k).push(f)
                    } else {
                        waiting(m, k)
                    },
                    Arrival::Tick(now) => waiting(m, k),
                });
                assert(batched(after) + waiting(m2, k) =~= arrived(arrivals, k));
            },
        }
    }
}

/// Flush triggers. When a fragment arrives, a batch leaves if and only if,
/// with that fragment in its buffer, the payload bytes have reached
/// `max_bytes`, or the fragments have reached `max_events`, or the buffer
/// has been open for `flush_timeout`; the batch that leaves is that buffer.
pub proof fn lemma_flush_iff_trigger(
    m: Map<Seq<char>, BufferModel>,
    settings: BatchSettings,
    fragment: FragmentModel,
    now: nat,
)
    ensures
        ({
            let b = appended(open_buffer(m, fragment.key), fragment, now);
            let fired = crate::batch::total_bytes(b.fragments) >= settings.max_bytes
                || b.fragments.len() >= settings.max_events || now - b.created_at
                >= settings.flush_timeout;
            &&& push_output(m, settings, fragment, now) is Some <==> fired
            &&& fired ==> push_output(m, settings, fragment, now) == Some(batch_of(b))
                && !after_push(m, settings, fragment, now).contains_key(fragment.key)
            &&& !fired ==> after_push(m, settings, fragment, now).contains_key(fragment.key)
                && after_push(m, settings, fragment, now)[fragment.key] == b
        }),
{
}

/// On the tick, a partition's buffer leaves if and only if it has been
/// open for `flush_timeout`; the others stay as they are.
pub proof fn lemma_tick_iff_expired(
    m: Map<Seq<char>, BufferModel>,
    settings: BatchSettings,
    now: nat,
    k: Seq<char>,
)
    requires
        m.contains_key(k),
    ensures
        closed_by(m, settings, Arrival::Tick(now), k) is Some <==> now - m[k].created_at
            >= settings.flush_timeout,
        after_sweep(m, settings, Some(now)).contains_key(k) <==> now - m[k].created_at
            < settings.flush_timeout,
        after_sweep(m, settings, Some(now)).contains_key(k) ==> after_sweep(
            m,
            settings,
            Some(now),
        )[k] == m[k],
{
}

/// With `max_events` set to 1 no buffer stays open, and each arriving
/// fragment leaves at once as a batch of its own.
pub proof fn lemma_one_event_per_push(
    m: Map<Seq<char>, BufferModel>,
    settings: BatchSettings,
    fragment: FragmentModel,
    now: nat,
)
    requires
        model_ok(settings, m),
        settings.max_events == 1,
    ensures
        m == Map::<Seq<char>, BufferModel>::empty(),
        after_push(m, settings, fragment, now) == Map::<Seq<char>, BufferModel>::empty(),
        push_output(m, settings, fragment, now) matches Some(b) && b.key == fragment.key
            && b.fragments == seq![fragment],
{
    assert forall|k: Seq<char>| !m.contains_key(k) by {
        if m.contains_key(k) {
            assert(open_ok(settings, k, m[k]));
        }
    }
    assert(m =~= Map::<Seq<char>, BufferModel>::empty());
    assert(after_push(m, settings, fragment, now) =~= Map::<Seq<char>, BufferModel>::empty());
}

/// With `max_events` set to 1, every batch that a history closes holds
/// exactly one fragment.
pub proof fn lemma_one_event_per_batch(
    settings: BatchSettings,
    arrivals: Seq<Arrival>,
    k: Seq<char>,
)
    requires
        settings.valid(),
        settings.max_events == 1,
    ensures
        run(settings, arrivals) == Map::<Seq<char>, BufferModel>::empty(),
        forall|i: int|
            0 <= i < closed_batches(settings, arrivals, k).len() ==> (#[trigger] closed_batches(
                settings,
                arrivals,
                k,
            )[i]).fragments.len() == 1,
        closed_batches(settings, arrivals, k).len() == arrived(arrivals, k).len(),
    decreases arrivals.len(),
{
    if arrivals.len() > 0 {
        let init = arrivals.drop_last();
        let a = arrivals.last();
        lemma_one_event_per_batch(settings, init, k);
        let m = run(settings, init);
        let before = closed_batches(settings, init, k);
        let after = closed_batches(settings, arrivals, k);
        assert(model_ok(settings, m));
        match a {
            Arrival::Fragment(f, now) => {
                lemma_one_event_per_push(m, settings, f, now);
            },
            Arrival::Tick(now) => {
                assert(run(settings, arrivals) =~= Map::<Seq<char>, BufferModel>::empty());
            },
        }
        assert forall|i: int| 0 <= i < after.len() implies (#[trigger] after[i]).fragments.len()
            == 1 by {
            if i < before.len() {
                assert(after[i] == before[i]);
            }
        }
    }
}

} // verus!

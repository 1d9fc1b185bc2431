//! The batch scheduler: it owns the open buffers, one per partition key,
//! routes each fragment to its buffer and hands out the batches that close.

use crate::batch::{all_keyed, appended, batch_of, BatchModel, BatchSettings, BufferModel};
use crate::batch::{FlushedBatch, PartitionBuffer};
use crate::encoding::{EncodedFragment, FragmentModel};
use crate::text::str_eq;
use vstd::prelude::*;

verus! {

/// The open buffer of the partition `k`, if there is one.
pub open spec fn open_buffer(m: Map<Seq<char>, BufferModel>, k: Seq<char>) -> Option<BufferModel> {
    if m.contains_key(k) {
        Some(m[k])
    } else {
        None
    }
}

/// What an open buffer of the partition `k` always is: a buffer under that
/// key, not empty, holding fragments of that key only, below the size and
/// count limits.
pub open spec fn open_ok(settings: BatchSettings, k: Seq<char>, b: BufferModel) -> bool {
    &&& b.key == k
    &&& b.fragments.len() > 0
    &&& all_keyed(b.fragments, k)
    &&& !settings.full(b.fragments)
}

/// Whether the limits are valid and every open buffer is as `open_ok` says.
pub open spec fn model_ok(settings: BatchSettings, m: Map<Seq<char>, BufferModel>) -> bool {
    &&& settings.valid()
    &&& forall|k: Seq<char>| m.contains_key(k) ==> open_ok(settings, k, #[trigger] m[k])
}

/// The open buffers after `fragment` arrived at `now`: its partition's
/// buffer has grown by it, or is gone where a flush trigger fired.
pub open spec fn after_push(
    m: Map<Seq<char>, BufferModel>,
    settings: BatchSettings,
    fragment: FragmentModel,
    now: nat,
) -> Map<Seq<char>, BufferModel> {
    let b = appended(open_buffer(m, fragment.key), fragment, now);
    if settings.must_flush(b, now) {
        m.remove(fragment.key)
    } else {
        m.insert(fragment.key, b)
    }
}

/// The batch that leaves when `fragment` arrives at `now`: the grown buffer
/// of its partition, exactly when a flush trigger has fired for it.
pub open spec fn push_output(
    m: Map<Seq<char>, BufferModel>,
    settings: BatchSettings,
    fragment: FragmentModel,
    now: nat,
) -> Option<BatchModel> {
    let b = appended(open_buffer(m, fragment.key), fragment, now);
    if settings.must_flush(b, now) {
        Some(batch_of(b))
    } else {
        None
    }
}

/// Whether a buffer leaves on a sweep: with a deadline, when it has
/// expired by then; without one, always.
pub open spec fn leaves(settings: BatchSettings, b: BufferModel, deadline: Option<nat>) -> bool {
    match deadline {
        Some(now) => settings.expired(b.created_at, now),
        None => true,
    }
}

/// The open buffers that a sweep leaves behind.
pub open spec fn after_sweep(
    m: Map<Seq<char>, BufferModel>,
    settings: BatchSettings,
    deadline: Option<nat>,
) -> Map<Seq<char>, BufferModel> {
    Map::new(
        |k: Seq<char>| m.contains_key(k) && !leaves(settings, m[k], deadline),
        |k: Seq<char>| m[k],
    )
}

/// Whether `out` holds the batch of each buffer that a sweep closes, once
/// each, and nothing else.
pub open spec fn sweep_output(
    m: Map<Seq<char>, BufferModel>,
    settings: BatchSettings,
    deadline: Option<nat>,
    out: Seq<BatchModel>,
) -> bool {
    &&& forall|e: int|
        0 <= e < out.len() ==> m.contains_key((#[trigger] out[e]).key) && leaves(
            settings,
            m[out[e].key],
            deadline,
        ) && out[e] == batch_of(m[out[e].key])
    &&& forall|e: int, f: int|
        0 <= e < f < out.len() ==> (#[trigger] out[e]).key != (#[trigger] out[f]).key
    &&& forall|k: Seq<char>|
        m.contains_key(k) && leaves(settings, #[trigger] m[k], deadline) ==> emits_key(out, k)
}

/// Whether one of the batches belongs to the partition `k`.
pub open spec fn emits_key(out: Seq<BatchModel>, k: Seq<char>) -> bool {
    exists|e: int| 0 <= e < out.len() && (#[trigger] out[e]).key == k
}

/// What a list of batches holds.
pub open spec fn batch_models(batches: Seq<FlushedBatch>) -> Seq<BatchModel> {
    Seq::new(batches.len(), |i: int| batches[i]@)
}

spec fn holds_key(bufs: Seq<BufferModel>, k: Seq<char>) -> bool {
    exists|i: int| 0 <= i < bufs.len() && (#[trigger] bufs[i]).key == k
}

spec fn distinct_keys(bufs: Seq<BufferModel>) -> bool {
    forall|i: int, j: int|
        0 <= i < j < bufs.len() ==> (#[trigger] bufs[i]).key != (#[trigger] bufs[j]).key
}

spec fn slot_of(bufs: Seq<BufferModel>, k: Seq<char>) -> int {
    choose|i: int| 0 <= i < bufs.len() && (#[trigger] bufs[i]).key == k
}

spec fn as_map(bufs: Seq<BufferModel>) -> Map<Seq<char>, BufferModel> {
    Map::new(|k: Seq<char>| holds_key(bufs, k), |k: Seq<char>| bufs[slot_of(bufs, k)])
}

spec fn models(v: Seq<PartitionBuffer>) -> Seq<BufferModel> {
    Seq::new(v.len(), |i: int| v[i]@)
}

proof fn lemma_slot(bufs: Seq<BufferModel>, i: int)
    requires
        distinct_keys(bufs),
        0 <= i < bufs.len(),
    ensures
        holds_key(bufs, bufs[i].key),
        slot_of(bufs, bufs[i].key) == i,
        as_map(bufs).contains_key(bufs[i].key),
        as_map(bufs)[bufs[i].key] == bufs[i],
{
    let k = bufs[i].key;
    assert(holds_key(bufs, k));
    let j = slot_of(bufs, k);
    assert(0 <= j < bufs.len() && bufs[j].key == k);
    if j < i {
        assert(bufs[j].key != bufs[i].key);
    } else if i < j {
        assert(bufs[i].key != bufs[j].key);
    }
}

proof fn lemma_remove(bufs: Seq<BufferModel>, i: int)
    requires
        distinct_keys(bufs),
        0 <= i < bufs.len(),
    ensures
        distinct_keys(bufs.remove(i)),
        !holds_key(bufs.remove(i), bufs[i].key),
        as_map(bufs.remove(i)) == as_map(bufs).remove(bufs[i].key),
{
    let r = bufs.remove(i);
    let gone = bufs[i].key;
    assert forall|a: int| 0 <= a < r.len() implies #[trigger] r[a] == bufs[if a < i {
        a
    } else {
        a + 1
    }] by {}
    assert forall|a: int, b: int| 0 <= a < b < r.len() implies (#[trigger] r[a]).key != (
    #[trigger] r[b]).key by {
        let a0 = if a < i {
            a
        } else {
            a + 1
        };
        let b0 = if b < i {
            b
        } else {
            b + 1
        };
        assert(r[a] == bufs[a0] && r[b] == bufs[b0]);
        assert(bufs[a0].key != bufs[b0].key);
    }
    if holds_key(r, gone) {
        let a = choose|a: int| 0 <= a < r.len() && (#[trigger] r[a]).key == gone;
        let a0 = if a < i {
            a
        } else {
            a + 1
        };
        assert(r[a] == bufs[a0]);
        if a0 < i {
            assert(bufs[a0].key != bufs[i].key);
        } else {
            assert(bufs[i].key != bufs[a0].key);
        }
    }
    assert forall|k: Seq<char>| #[trigger]
        as_map(r).contains_key(k) <==> as_map(bufs).remove(gone).contains_key(k) by {
        if holds_key(r, k) {
            let a = choose|a: int| 0 <= a < r.len() && (#[trigger] r[a]).key == k;
            let a0 = if a < i {
                a
            } else {
                a + 1
            };
            assert(r[a] == bufs[a0]);
            assert(bufs[a0].key == k);
            assert(holds_key(bufs, k));
        }
        if holds_key(bufs, k) && k != gone {
            let a0 = choose|a: int| 0 <= a < bufs.len() && (#[trigger] bufs[a]).key == k;
            let a = if a0 < i {
                a0
            } else {
                a0 - 1
            };
            assert(r[a] == bufs[a0]);
            assert(r[a].key == k);
            assert(holds_key(r, k));
        }
    }
    assert forall|k: Seq<char>| as_map(r).contains_key(k) implies #[trigger] as_map(r)[k]
        == as_map(bufs).remove(gone)[k] by {
        let a = slot_of(r, k);
        assert(0 <= a < r.len() && r[a].key == k);
        let a0 = if a < i {
            a
        } else {
            a + 1
        };
        assert(r[a] == bufs[a0]);
        lemma_slot(bufs, a0);
    }
    assert(as_map(r) =~= as_map(bufs).remove(gone));
}

proof fn lemma_push(bufs: Seq<BufferModel>, b: BufferModel)
    requires
        distinct_keys(bufs),
        !holds_key(bufs, b.key),
    ensures
        distinct_keys(bufs.push(b)),
        as_map(bufs.push(b)) == as_map(bufs).insert(b.key, b),
{
    let r = bufs.push(b);
    assert forall|i: int, j: int| 0 <= i < j < r.len() implies (#[trigger] r[i]).key != (
    #[trigger] r[j]).key by {
        assert(r[i] == bufs[i]);
        if j < bufs.len() {
            assert(r[j] == bufs[j]);
        } else {
            assert(r[j] == b);
        }
    }
    assert forall|k: Seq<char>| #[trigger]
        as_map(r).contains_key(k) <==> as_map(bufs).insert(b.key, b).contains_key(k) by {
        if holds_key(r, k) {
            let a = choose|a: int| 0 <= a < r.len() && (#[trigger] r[a]).key == k;
            if a < bufs.len() {
                assert(bufs[a] == r[a]);
                assert(holds_key(bufs, k));
            }
        }
        if holds_key(bufs, k) {
            let a = choose|a: int| 0 <= a < bufs.len() && (#[trigger] bufs[a]).key == k;
            assert(r[a] == bufs[a]);
            assert(holds_key(r, k));
        }
        if k == b.key {
            assert(r[r.len() - 1] == b);
            assert(holds_key(r, k));
        }
    }
    assert forall|k: Seq<char>| as_map(r).contains_key(k) implies #[trigger] as_map(r)[k]
        == as_map(bufs).insert(b.key, b)[k] by {
        let a = slot_of(r, k);
        assert(0 <= a < r.len() && r[a].key == k);
        lemma_slot(r, a);
        if a < bufs.len() {
            assert(r[a] == bufs[a]);
            lemma_slot(bufs, a);
        }
    }
    assert(as_map(r) =~= as_map(bufs).insert(b.key, b));
}

/// The owner of the open buffers.
pub struct BatchScheduler {
    settings: BatchSettings,
    buffers: Vec<PartitionBuffer>,
}

impl View for BatchScheduler {
    type V = Map<Seq<char>, BufferModel>;

    /// The open buffers, by partition key.
    closed spec fn view(&self) -> Map<Seq<char>, BufferModel> {
        as_map(models(self.buffers@))
    }
}

impl BatchScheduler {
    /// The limits that the scheduler was built with.
    pub closed spec fn settings(&self) -> BatchSettings {
        self.settings
    }

    /// The scheduler's invariant: valid limits, one buffer per key, and
    /// every open buffer as [`open_ok`] says.
    pub closed spec fn wf(&self) -> bool {
        &&& self.settings.valid()
        &&& distinct_keys(models(self.buffers@))
        &&& forall|i: int|
            0 <= i < self.buffers.len() ==> (#[trigger] self.buffers[i]).wf() && open_ok(
                self.settings,
                self.buffers[i]@.key,
                self.buffers[i]@,
            )
    }

    /// A well-formed scheduler's buffers are all as [`open_ok`] says.
    pub proof fn lemma_model_ok(&self)
        requires
            self.wf(),
        ensures
            model_ok(self.settings(), self@),
    {
        let bufs = models(self.buffers@);
        assert forall|k: Seq<char>| self@.contains_key(k) implies open_ok(
            self.settings,
            k,
            #[trigger] self@[k],
        ) by {
            let a = slot_of(bufs, k);
            assert(0 <= a < bufs.len() && bufs[a].key == k);
            assert(self.buffers[a].wf());
        }
    }

    /// A scheduler without open buffers.
    pub fn new(settings: BatchSettings) -> (s: BatchScheduler)
        requires
            settings.valid(),
        ensures
            s.wf(),
            s.settings() == settings,
            s@ == Map::<Seq<char>, BufferModel>::empty(),
            model_ok(settings, s@),
    {
        let s = BatchScheduler { settings, buffers: Vec::new() };
        assert(s@ =~= Map::<Seq<char>, BufferModel>::empty());
        proof {
            s.lemma_model_ok();
        }
        s
    }

    /// Whether no buffer is open.
    pub fn is_idle(&self) -> (idle: bool)
        requires
            self.wf(),
        ensures
            idle == (self@ == Map::<Seq<char>, BufferModel>::empty()),
    {
        proof {
            if self.buffers.len() > 0 {
                lemma_slot(models(self.buffers@), 0);
            } else {
                assert(self@ =~= Map::<Seq<char>, BufferModel>::empty());
            }
        }
        self.buffers.len() == 0
    }

    fn position(&self, key: &str) -> (r: Option<usize>)
        ensures
            match r {
                Some(i) => i < self.buffers.len() && self.buffers[i as int]@.key == key@,
                None => !holds_key(models(self.buffers@), key@),
            },
    {
        let mut i: usize = 0;
        while i < self.buffers.len()
            invariant
                i <= self.buffers.len(),
                forall|j: int| 0 <= j < i ==> (#[trigger] models(self.buffers@)[j]).key != key@,
            decreases self.buffers.len() - i,
        {
            if str_eq(self.buffers[i].key().as_str(), key) {
                return Some(i);
            }
            i += 1;
        }
        None
    }

    /// Routes one fragment to the buffer of its partition, opening one at
    /// `now` where none is open. Where that reaches the size limit, the
    /// count limit or the flush timeout, the buffer leaves as a batch.
    pub fn push(&mut self, fragment: EncodedFragment, now: u64) -> (r: Option<FlushedBatch>)
        requires
            old(self).wf(),
        ensures
            final(self).wf(),
            final(self).settings() == old(self).settings(),
            final(self)@ == after_push(old(self)@, old(self).settings(), fragment@, now as nat),
            match r {
                Some(batch) => push_output(
                    old(self)@,
                    old(self).settings(),
                    fragment@,
                    now as nat,
                ) == Some(batch@),
                None => push_output(old(self)@, old(self).settings(), fragment@, now as nat)
                    is None,
            },
            r matches Some(batch) ==> all_keyed(batch@.fragments, fragment@.key),
            model_ok(final(self).settings(), final(self)@),
    {
        let ghost bufs0 = models(self.buffers@);
        let ghost k = fragment@.key;
        let found = self.position(fragment.key.as_str());
        let mut buf = match found {
            Some(i) => {
                proof {
                    lemma_slot(bufs0, i as int);
                    lemma_remove(bufs0, i as int);
                }
                let b = self.buffers.remove(i);
                assert(models(self.buffers@) =~= bufs0.remove(i as int));
                b
            },
            None => PartitionBuffer::new(fragment.key.clone(), now),
        };
        let ghost bufs1 = models(self.buffers@);
        assert(as_map(bufs1) =~= old(self)@.remove(k));
        assert(!holds_key(bufs1, k));
        assert(distinct_keys(bufs1));
        assert forall|i: int| 0 <= i < self.buffers.len() implies (
        #[trigger] self.buffers[i]).wf() && open_ok(
            self.settings,
            self.buffers[i]@.key,
            self.buffers[i]@,
        ) by {
            match found {
                Some(at) => {
                    let i0 = if i < at {
                        i
                    } else {
                        i + 1
                    };
                    assert(self.buffers[i] == old(self).buffers[i0]);
                },
                None => {},
            }
        }
        buf.push(fragment);
        assert(buf@ == appended(open_buffer(old(self)@, k), fragment@, now as nat)) by {
            match found {
                Some(at) => {},
                None => {
                    assert(Seq::<FragmentModel>::empty().push(fragment@) =~= seq![fragment@]);
                },
            }
        }
        assert(all_keyed(buf@.fragments, k)) by {
            match found {
                Some(at) => {
                    assert(old(self).buffers[at as int].wf());
                },
                None => {},
            }
        }
        if buf.is_full(&self.settings) || buf.is_expired(&self.settings, now) {
            proof {
                self.lemma_model_ok();
            }
            Some(buf.into_batch())
        } else {
            proof {
                lemma_push(bufs1, buf@);
            }
            self.buffers.push(buf);
            assert(models(self.buffers@) =~= bufs1.push(buf@));
            assert(self@ =~= old(self)@.insert(k, buf@));
            proof {
                self.lemma_model_ok();
            }
            None
        }
    }

    fn sweep(&mut self, deadline: Option<u64>) -> (out: Vec<FlushedBatch>)
        requires
            old(self).wf(),
        ensures
            final(self).wf(),
            final(self).settings() == old(self).settings(),
            final(self)@ == after_sweep(
                old(self)@,
                old(self).settings(),
                match deadline {
                    Some(t) => Some(t as nat),
                    None => None,
                },
            ),
            sweep_output(
                old(self)@,
                old(self).settings(),
                match deadline {
                    Some(t) => Some(t as nat),
                    None => None,
                },
                batch_models(out@),
            ),
            forall|e: int|
                0 <= e < out.len() ==> all_keyed(
                    (#[trigger] batch_models(out@)[e]).fragments,
                    batch_models(out@)[e].key,
                ),
    {
        let ghost m0 = self@;
        let ghost s = self.settings;
        let ghost dl: Option<nat> = match deadline {
            Some(t) => Some(t as nat),
            None => None,
        };
        let mut out: Vec<FlushedBatch> = Vec::new();
        let mut i: usize = 0;
        proof {
            assert forall|j: int| 0 <= j < self.buffers.len() implies m0.contains_key(
                (#[trigger] models(self.buffers@)[j]).key,
            ) && m0[models(self.buffers@)[j].key] == models(self.buffers@)[j] by {
                lemma_slot(models(self.buffers@), j);
            }
        }
        while i < self.buffers.len()
            invariant
                i <= self.buffers.len(),
                self.settings == s,
                self.wf(),
                dl == (match deadline {
                    Some(t) => Some(t as nat),
                    None => None::<nat>,
                }),
                forall|j: int|
                    0 <= j < i ==> !leaves(s, #[trigger] models(self.buffers@)[j], dl),
                forall|j: int|
                    0 <= j < self.buffers.len() ==> m0.contains_key(
                        (#[trigger] models(self.buffers@)[j]).key,
                    ) && m0[models(self.buffers@)[j].key] == models(self.buffers@)[j],
                forall|k: Seq<char>|
                    m0.contains_key(k) ==> holds_key(models(self.buffers@), k) || (leaves(
                        s,
                        #[trigger] m0[k],
                        dl,
                    ) && emits_key(batch_models(out@), k)),
                forall|e: int|
                    0 <= e < out.len() ==> m0.contains_key(
                        (#[trigger] batch_models(out@)[e]).key,
                    ) && leaves(s, m0[batch_models(out@)[e].key], dl) && batch_models(out@)[e]
                        == batch_of(m0[batch_models(out@)[e].key]) && !holds_key(
                        models(self.buffers@),
                        batch_models(out@)[e].key,
                    ) && all_keyed(batch_models(out@)[e].fragments, batch_models(out@)[e].key),
                forall|e: int, f: int|
                    0 <= e < f < out.len() ==> (#[trigger] batch_models(out@)[e]).key != (
                    #[trigger] batch_models(out@)[f]).key,
            decreases self.buffers.len() - i,
        {
            let ghost bufs = models(self.buffers@);
            let ghost outs = batch_models(out@);
            let goes = match deadline {
                Some(t) => self.buffers[i].is_expired(&self.settings, t),
                None => true,
            };
            assert(goes == leaves(s, bufs[i as int], dl));
            if goes {
                proof {
                    lemma_remove(bufs, i as int);
                }
                let ghost gone = bufs[i as int];
                assert(self.buffers[i as int].wf());
                let buf = self.buffers.remove(i);
                let batch = buf.into_batch();
                out.push(batch);
                proof {
                    let bufs2 = models(self.buffers@);
                    let outs2 = batch_models(out@);
                    assert(bufs2 =~= bufs.remove(i as int));
                    assert(outs2 =~= outs.push(batch_of(gone)));
                    assert forall|j: int| 0 <= j < bufs2.len() implies #[trigger] bufs2[j]
                        == bufs[if j < i {
                        j
                    } else {
                        j + 1
                    }] by {}
                    assert forall|j: int| 0 <= j < self.buffers.len() implies (
                    #[trigger] self.buffers[j]).wf() && open_ok(
                        self.settings,
                        self.buffers[j]@.key,
                        self.buffers[j]@,
                    ) by {
                        let j0 = if j < i {
                            j
                        } else {
                            j + 1
                        };
                        assert(bufs2[j] == bufs[j0]);
                    }
                    assert forall|k: Seq<char>| m0.contains_key(k) implies holds_key(bufs2, k) || (
                    leaves(s, #[trigger] m0[k], dl) && emits_key(outs2, k)) by {
                        assert(holds_key(bufs, k) || (leaves(s, m0[k], dl) && emits_key(outs, k)));
                        if k == gone.key {
                            assert(m0[gone.key] == gone);
                            assert(outs2[outs2.len() - 1].key == k);
                        } else if holds_key(bufs, k) {
                            let a0 = choose|a: int|
                                0 <= a < bufs.len() && (#[trigger] bufs[a]).key == k;
                            let a = if a0 < i {
                                a0
                            } else {
                                a0 - 1
                            };
                            assert(bufs2[a] == bufs[a0]);
                            assert(holds_key(bufs2, k));
                        } else {
                            let e = choose|e: int|
                                0 <= e < outs.len() && (#[trigger] outs[e]).key == k;
                            assert(outs2[e] == outs[e]);
                        }
                    }
                    assert forall|e: int| 0 <= e < outs2.len() implies m0.contains_key(
                        (#[trigger] outs2[e]).key,
                    ) && leaves(s, m0[outs2[e].key], dl) && outs2[e] == batch_of(m0[outs2[e].key])
                        && !holds_key(bufs2, outs2[e].key) && all_keyed(
                        outs2[e].fragments,
                        outs2[e].key,
                    ) by {
                        if e < outs.len() {
                            assert(outs2[e] == outs[e]);
                            if holds_key(bufs2, outs[e].key) {
                                let a = choose|a: int|
                                    0 <= a < bufs2.len() && (#[trigger] bufs2[a]).key
                                        == outs[e].key;
                                let a0 = if a < i {
                                    a
                                } else {
                                    a + 1
                                };
                                assert(bufs2[a] == bufs[a0]);
                                assert(holds_key(bufs, outs[e].key));
                            }
                        }
                    }
                    assert forall|e: int, f: int| 0 <= e < f < outs2.len() implies (
                    #[trigger] outs2[e]).key != (#[trigger] outs2[f]).key by {
                        assert(outs2[e] == outs[e]);
                        if f < outs.len() {
                            assert(outs2[f] == outs[f]);
                        } else {
                            assert(holds_key(bufs, gone.key));
                        }
                    }
                }
            } else {
                i += 1;
            }
        }
        proof {
            let bufs = models(self.buffers@);
            let target = after_sweep(m0, s, dl);
            assert forall|k: Seq<char>| #[trigger] self@.contains_key(k) <==> target.contains_key(
                k,
            ) by {
                if holds_key(bufs, k) {
                    let a = choose|a: int| 0 <= a < bufs.len() && (#[trigger] bufs[a]).key == k;
                    assert(!leaves(s, bufs[a], dl));
                }
                if target.contains_key(k) {
                    assert(!leaves(s, m0[k], dl));
                }
            }
            assert forall|k: Seq<char>| self@.contains_key(k) implies #[trigger] self@[k]
                == target[k] by {
                let a = slot_of(bufs, k);
                assert(0 <= a < bufs.len() && bufs[a].key == k);
            }
            assert(self@ =~= target);
        }
        out
    }

    /// The periodic tick: every buffer that has been open for the flush
    /// timeout at `now` leaves as a batch; the others stay as they are.
    pub fn tick(&mut self, now: u64) -> (out: Vec<FlushedBatch>)
        requires
            old(self).wf(),
        ensures
            final(self).wf(),
            final(self).settings() == old(self).settings(),
            final(self)@ == after_sweep(old(self)@, old(self).settings(), Some(now as nat)),
            model_ok(final(self).settings(), final(self)@),
            sweep_output(old(self)@, old(self).settings(), Some(now as nat), batch_models(out@)),
            forall|e: int|
                0 <= e < out.len() ==> all_keyed(
                    (#[trigger] batch_models(out@)[e]).fragments,
                    batch_models(out@)[e].key,
                ),
    {
        let out = self.sweep(Some(now));
        proof {
            self.lemma_model_ok();
        }
        out
    }

    /// Shutdown: every open buffer leaves as a batch.
    pub fn flush_all(&mut self) -> (out: Vec<FlushedBatch>)
        requires
            old(self).wf(),
        ensures
            final(self).wf(),
            final(self).settings() == old(self).settings(),
            final(self)@ == Map::<Seq<char>, BufferModel>::empty(),
            sweep_output(old(self)@, old(self).settings(), None, batch_models(out@)),
            forall|e: int|
                0 <= e < out.len() ==> all_keyed(
                    (#[trigger] batch_models(out@)[e]).fragments,
                    batch_models(out@)[e].key,
                ),
    {
        let out = self.sweep(None);
        assert(self@ =~= Map::<Seq<char>, BufferModel>::empty());
        out
    }
}

} // verus!

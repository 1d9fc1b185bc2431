//! Acknowledgement: completions arrive in any order, the producer is told
//! "processed up to N" in admission order.

use vstd::prelude::*;

verus! {

/// Mathematical model of an [`Acker`]: the tokens below `released` are
/// acknowledged; `flags[i]` says whether the token `released + i` is done.
pub struct AckerModel {
    pub released: nat,
    pub flags: Seq<bool>,
}

/// The number of tokens handed out so far.
pub open spec fn admitted(m: AckerModel) -> nat {
    m.released + m.flags.len()
}

/// Whether the token is done.
pub open spec fn is_done(m: AckerModel, token: nat) -> bool {
    token < m.released || (token < admitted(m) && m.flags[token - m.released])
}

/// What an acker always is: the first token that is not acknowledged is
/// not done, so that nothing more could be released.
pub open spec fn ack_ok(m: AckerModel) -> bool {
    m.flags.len() > 0 ==> !m.flags[0]
}

/// The number of flags that are set at the front of the list.
pub open spec fn leading(flags: Seq<bool>) -> nat
    decreases flags.len(),
{
    if flags.len() == 0 || !flags[0] {
        0
    } else {
        1 + leading(flags.drop_first())
    }
}

/// Whether exactly the first `k` flags are set and the next is not.
pub open spec fn is_leading(flags: Seq<bool>, k: nat) -> bool {
    &&& k <= flags.len()
    &&& forall|j: int| 0 <= j < k ==> flags[j]
    &&& k == flags.len() || !flags[k as int]
}

/// The model after one more token was handed out.
pub open spec fn after_admit(m: AckerModel) -> AckerModel {
    AckerModel { released: m.released, flags: m.flags.push(false) }
}

/// The model after the token was reported done: its flag is set, and the
/// tokens done at the front are released. A token that was never handed
/// out, or is acknowledged already, changes nothing.
pub open spec fn after_complete(m: AckerModel, token: nat) -> AckerModel {
    if m.released <= token < admitted(m) {
        let marked = m.flags.update(token - m.released, true);
        let k = leading(marked);
        AckerModel { released: m.released + k, flags: marked.skip(k as int) }
    } else {
        m
    }
}

/// `leading` counts exactly the flags set at the front.
pub proof fn lemma_leading(flags: Seq<bool>)
    ensures
        is_leading(flags, leading(flags)),
    decreases flags.len(),
{
    if flags.len() == 0 || !flags[0] {
    } else {
        let rest = flags.drop_first();
        lemma_leading(rest);
        let k = leading(rest);
        assert forall|j: int| 0 <= j < k + 1 implies flags[j] by {
            if j > 0 {
                assert(rest[j - 1] == flags[j]);
            }
        }
        if k < rest.len() {
            assert(rest[k as int] == flags[k as int + 1]);
        }
    }
}

/// There is one number only of which `is_leading` holds.
pub proof fn lemma_leading_unique(flags: Seq<bool>, k: nat)
    requires
        is_leading(flags, k),
    ensures
        leading(flags) == k,
{
    lemma_leading(flags);
    let l = leading(flags);
    if l < k {
        assert(flags[l as int]);
    } else if k < l {
        assert(flags[k as int]);
    }
}

/// The sequencing buffer between batch completions and the producer.
pub struct Acker {
    released: u64,
    flags: Vec<bool>,
}

impl View for Acker {
    type V = AckerModel;

    closed spec fn view(&self) -> AckerModel {
        AckerModel { released: self.released as nat, flags: self.flags@ }
    }
}

impl Acker {
    /// The acker's invariant.
    pub closed spec fn wf(&self) -> bool {
        &&& ack_ok(self@)
        &&& self.released + self.flags.len() <= u64::MAX
    }

    /// A well-formed acker's model is as [`ack_ok`] says, and its tokens
    /// fit in a `u64`.
    pub proof fn lemma_ack_ok(&self)
        requires
            self.wf(),
        ensures
            ack_ok(self@),
            admitted(self@) <= u64::MAX,
    {
    }

    /// An acker that has handed out no token.
    pub fn new() -> (a: Acker)
        ensures
            a.wf(),
            a@ == (AckerModel { released: 0, flags: Seq::empty() }),
    {
        Acker { released: 0, flags: Vec::new() }
    }

    /// The number up to which events are acknowledged: every token below
    /// it is done.
    pub fn processed(&self) -> (n: u64)
        ensures
            n == self@.released,
    {
        self.released
    }

    /// Admits one event and hands out its token: the number of events
    /// admitted before it. `None` once all `u64` tokens are used up.
    pub fn register(&mut self) -> (r: Option<u64>)
        requires
            old(self).wf(),
        ensures
            final(self).wf(),
            match r {
                Some(token) => token == admitted(old(self)@) && token < u64::MAX && final(self)@
                    == after_admit(old(self)@),
                None => admitted(old(self)@) == u64::MAX && final(self)@ == old(self)@,
            },
    {
        let waiting = self.flags.len() as u64;
        if waiting >= u64::MAX - self.released {
            None
        } else {
            let token = self.released + waiting;
            self.flags.push(false);
            Some(token)
        }
    }

    /// Reports the event with this token done, whether delivered or
    /// dropped, and returns the number up to which events are now
    /// acknowledged.
    pub fn complete(&mut self, token: u64) -> (n: u64)
        requires
            old(self).wf(),
        ensures
            final(self).wf(),
            final(self)@ == after_complete(old(self)@, token as nat),
            n == final(self)@.released,
            n >= old(self)@.released,
    {
        if token >= self.released && token - self.released < self.flags.len() as u64 {
            let at = (token - self.released) as usize;
            self.flags.remove(at);
            self.flags.insert(at, true);
            let ghost marked = self.flags@;
            assert(marked =~= old(self)@.flags.update(at as int, true));
            let mut k: usize = 0;
            while k < self.flags.len() && self.flags[k]
                invariant
                    k <= self.flags.len(),
                    self.flags@ == marked,
                    forall|j: int| 0 <= j < k ==> marked[j],
                decreases self.flags.len() - k,
            {
                k += 1;
            }
            proof {
                lemma_leading_unique(marked, k as nat);
            }
            let rest = self.flags.split_off(k);
            self.flags = rest;
            self.released = self.released + k as u64;
            assert(self.flags@ =~= marked.skip(k as int));
        }
        self.released
    }
}

/// What happens to an acker: an event is admitted, or the event with a
/// token is reported done.
pub enum AckEvent {
    Register,
    Complete(nat),
}

/// The model after one event.
pub open spec fn ack_step(m: AckerModel, e: AckEvent) -> AckerModel {
    match e {
        AckEvent::Register => after_admit(m),
        AckEvent::Complete(token) => after_complete(m, token),
    }
}

/// The model after a history of events, starting with nothing admitted.
pub open spec fn ack_run(events: Seq<AckEvent>) -> AckerModel
    decreases events.len(),
{
    if events.len() == 0 {
        AckerModel { released: 0, flags: Seq::empty() }
    } else {
        ack_step(ack_run(events.drop_last()), events.last())
    }
}

/// The number of events that a history admits.
pub open spec fn admissions(events: Seq<AckEvent>) -> nat
    decreases events.len(),
{
    if events.len() == 0 {
        0
    } else {
        admissions(events.drop_last()) + match events.last() {
            AckEvent::Register => 1nat,
            AckEvent::Complete(_) => 0nat,
        }
    }
}

/// Whether a history reports the token done, after handing it out.
pub open spec fn finished(events: Seq<AckEvent>, token: nat) -> bool
    decreases events.len(),
{
    if events.len() == 0 {
        false
    } else {
        finished(events.drop_last(), token) || (events.last() == AckEvent::Complete(token)
            && token < admissions(events.drop_last()))
    }
}

/// One event keeps the model as [`ack_ok`] says, never lowers the number
/// up to which events are acknowledged, and changes which tokens are done
/// only by the token that it reports.
pub proof fn lemma_ack_step(m: AckerModel, e: AckEvent)
    requires
        ack_ok(m),
    ensures
        ack_ok(ack_step(m, e)),
        ack_step(m, e).released >= m.released,
        admitted(ack_step(m, e)) == admitted(m) + match e {
            AckEvent::Register => 1nat,
            AckEvent::Complete(_) => 0nat,
        },
        forall|t: nat|
            #[trigger] is_done(ack_step(m, e), t) <==> is_done(m, t) || (e == AckEvent::Complete(t)
                && t < admitted(m)),
{
    let m2 = ack_step(m, e);
    match e {
        AckEvent::Register => {
            assert forall|t: nat| #[trigger] is_done(m2, t) <==> is_done(m, t) by {
                if m.released <= t < admitted(m) {
                    assert(m2.flags[t - m.released] == m.flags[t - m.released]);
                }
            }
        },
        AckEvent::Complete(token) => {
            if m.released <= token < admitted(m) {
                let marked = m.flags.update(token - m.released, true);
                lemma_leading(marked);
                let k = leading(marked);
                assert(m2.flags =~= marked.skip(k as int));
                if m2.flags.len() > 0 {
                    assert(m2.flags[0] == marked[k as int]);
                }
                assert forall|t: nat| #[trigger] is_done(m2, t) <==> is_done(m, t) || t
                    == token by {
                    if t < m.released {
                    } else if t < m.released + k {
                        assert(marked[t - m.released]);
                    } else if t < admitted(m) {
                        assert(m2.flags[t - m2.released] == marked[t - m.released]);
                    }
                }
            }
        },
    }
}

/// Acknowledgement order. Over any history of admissions and completions,
/// in whatever order the completions come: the number up to which events
/// are acknowledged never goes down from one event to the next; every
/// token below it was handed out and reported done; and it is as large as
/// it can be, for the token that carries this number is not done yet.
pub proof fn lemma_ack_order(events: Seq<AckEvent>)
    ensures
        ack_ok(ack_run(events)),
        admitted(ack_run(events)) == admissions(events),
        forall|t: nat| #[trigger] is_done(ack_run(events), t) <==> finished(events, t),
        forall|t: nat| t < ack_run(events).released ==> #[trigger] finished(events, t),
        !finished(events, ack_run(events).released),
        events.len() > 0 ==> ack_run(events).released >= ack_run(events.drop_last()).released,
    decreases events.len(),
{
    if events.len() > 0 {
        let init = events.drop_last();
        lemma_ack_order(init);
        lemma_ack_step(ack_run(init), events.last());
        let m = ack_run(init);
        let m2 = ack_run(events);
        assert forall|t: nat| #[trigger] is_done(m2, t) <==> finished(events, t) by {
            assert(is_done(m, t) <==> finished(init, t));
        }
    }
    let m = ack_run(events);
    assert forall|t: nat| t < m.released implies #[trigger] finished(events, t) by {
        assert(is_done(m, t));
    }
    assert(!is_done(m, m.released));
}

/// The number up to which events are acknowledged never goes down over a
/// history, however long.
pub proof fn lemma_ack_monotone(events: Seq<AckEvent>, k: int)
    requires
        0 <= k <= events.len(),
    ensures
        ack_run(events.subrange(0, k)).released <= ack_run(events).released,
    decreases events.len() - k,
{
    if k < events.len() {
        let next = events.subrange(0, k + 1);
        assert(next.drop_last() =~= events.subrange(0, k));
        lemma_ack_order(next);
        lemma_ack_monotone(events, k + 1);
    } else {
        assert(events.subrange(0, k) =~= events);
    }
}

} // verus!

//! The engine: events go in, requests with their acknowledgement tokens
//! come out, and finished tokens are acknowledged in admission order.

use crate::ack::{admitted, after_admit, after_complete, Acker, AckerModel};
use crate::batch::{BatchModel, FlushedBatch};
use crate::encoding::{EncodingStrategy, FragmentModel};
use crate::event::LogEvent;
use crate::request::{tokens_of, BuildError, RequestBuilder, RequestModel, WireRequest};
use crate::scheduler::{after_push, after_sweep, batch_models, push_output, sweep_output};
use crate::scheduler::BatchScheduler;
use vstd::prelude::*;

verus! {

/// What a batch has become: its request, or the reason why none could be
/// built, and the tokens of its events. Where no request could be built
/// the batch is dropped, and its tokens are finished at once.
#[derive(Debug, PartialEq, Eq)]
pub struct Outgoing {
    pub request: Result<WireRequest, BuildError>,
    pub tokens: Vec<u64>,
}

/// Mathematical model of an [`Outgoing`].
pub struct OutgoingModel {
    pub request: Result<RequestModel, BuildError>,
    pub tokens: Seq<u64>,
}

impl View for Outgoing {
    type V = OutgoingModel;

    open spec fn view(&self) -> OutgoingModel {
        OutgoingModel {
            request: match self.request {
                Ok(req) => Ok(req@),
                Err(e) => Err(e),
            },
            tokens: self.tokens@,
        }
    }
}

/// What became of an event.
#[derive(Debug, PartialEq, Eq)]
pub enum Accepted {
    /// The strategy made nothing of the event: it is dropped.
    Skipped,
    /// All tokens are used up: the event is refused.
    Refused,
    /// The event is in a batch under this token. Where its arrival closed
    /// the batch, the batch comes with it.
    Taken(u64, Option<Outgoing>),
}

/// Whether `out` is what `batch` becomes with this builder.
pub open spec fn sent_as(builder: RequestBuilder, batch: BatchModel, out: OutgoingModel) -> bool {
    builder.builds(batch, out.request) && out.tokens == tokens_of(batch.fragments)
}

/// What a list of outgoing batches holds.
pub open spec fn outgoing_models(out: Seq<Outgoing>) -> Seq<OutgoingModel> {
    Seq::new(out.len(), |i: int| out[i]@)
}

/// Whether each of `out` is what the batch at the same place becomes.
pub open spec fn all_sent_as(
    builder: RequestBuilder,
    batches: Seq<BatchModel>,
    out: Seq<OutgoingModel>,
) -> bool {
    &&& batches.len() == out.len()
    &&& forall|i: int| 0 <= i < out.len() ==> sent_as(builder, batches[i], #[trigger] out[i])
}

/// The acker after the tokens were reported done, one after the other.
pub open spec fn completed_all(m: AckerModel, tokens: Seq<u64>) -> AckerModel
    decreases tokens.len(),
{
    if tokens.len() == 0 {
        m
    } else {
        after_complete(completed_all(m, tokens.drop_last()), tokens.last() as nat)
    }
}

/// The tokens of a batch's events, in order.
pub fn batch_tokens(batch: &FlushedBatch) -> (tokens: Vec<u64>)
    ensures
        tokens@ == tokens_of(batch@.fragments),
{
    let mut tokens: Vec<u64> = Vec::new();
    let mut i: usize = 0;
    while i < batch.fragments.len()
        invariant
            i <= batch.fragments.len(),
            tokens.len() == i,
            forall|j: int| 0 <= j < i ==> tokens[j] == batch.fragments[j].token,
        decreases batch.fragments.len() - i,
    {
        tokens.push(batch.fragments[i].token);
        i += 1;
    }
    assert(tokens@ =~= tokens_of(batch@.fragments));
    tokens
}

/// The encoder, the scheduler, the request builder and the acker,
/// working together.
pub struct Engine {
    pub strategy: EncodingStrategy,
    pub scheduler: BatchScheduler,
    pub builder: RequestBuilder,
    pub acker: Acker,
}

impl Engine {
    /// The engine's invariant: that of its scheduler and of its acker.
    pub open spec fn wf(&self) -> bool {
        self.scheduler.wf() && self.acker.wf()
    }

    /// Whether the parts that never change are those of `other`.
    pub open spec fn same_setup(&self, other: &Engine) -> bool {
        &&& self.strategy == other.strategy
        &&& self.builder == other.builder
        &&& self.scheduler.settings() == other.scheduler.settings()
    }

    /// Turns a flushed batch into what goes out.
    pub fn outgoing(&self, batch: FlushedBatch) -> (out: Outgoing)
        ensures
            sent_as(self.builder, batch@, out@),
    {
        let tokens = batch_tokens(&batch);
        let request = self.builder.build(&batch);
        Outgoing { request, tokens }
    }

    fn all_outgoing(&self, batches: Vec<FlushedBatch>) -> (out: Vec<Outgoing>)
        ensures
            all_sent_as(self.builder, batch_models(batches@), outgoing_models(out@)),
    {
        let ghost models = batch_models(batches@);
        let mut batches = batches;
        let mut out: Vec<Outgoing> = Vec::new();
        while batches.len() > 0
            invariant
                out.len() + batches.len() == models.len(),
                forall|i: int|
                    0 <= i < out.len() ==> sent_as(
                        self.builder,
                        models[i],
                        #[trigger] outgoing_models(out@)[i],
                    ),
                forall|i: int|
                    0 <= i < batches.len() ==> (#[trigger] batches[i])@ == models[out.len() + i],
            decreases batches.len(),
        {
            let ghost before = outgoing_models(out@);
            let ghost rest = batches@;
            let batch = batches.remove(0);
            let o = self.outgoing(batch);
            out.push(o);
            proof {
                assert(outgoing_models(out@) =~= before.push(o@));
                assert forall|i: int| 0 <= i < out.len() implies sent_as(
                    self.builder,
                    models[i],
                    #[trigger] outgoing_models(out@)[i],
                ) by {
                    if i < before.len() {
                        assert(outgoing_models(out@)[i] == before[i]);
                    } else {
                        assert(rest[0]@ == models[before.len() as int]);
                    }
                }
                assert forall|i: int| 0 <= i < batches.len() implies (#[trigger] batches[i])@
                    == models[out.len() + i] by {
                    assert(batches[i] == rest[i + 1]);
                }
            }
        }
        out
    }

    /// Takes one well-formed event at time `now`: encodes it, admits it
    /// under the next token and routes it to the buffer of its partition.
    /// An event of which the strategy makes nothing is dropped and changes
    /// nothing. Where the arrival fires a flush trigger, the batch comes
    /// out with its request and tokens; with `max_events` set to 1 that is
    /// every event, in a batch of its own.
    pub fn accept(&mut self, event: LogEvent, now: u64) -> (r: Accepted)
        requires
            old(self).wf(),
            event.wf(),
        ensures
            final(self).wf(),
            final(self).same_setup(old(self)),
            match old(self).strategy.encoded(event@) {
                None => r is Skipped && final(self).scheduler@ == old(self).scheduler@ && final(self).acker@ == old(self).acker@,
                Some(f) => if admitted(old(self).acker@) == u64::MAX {
                    r is Refused && final(self).scheduler@ == old(self).scheduler@ && final(self).acker@ == old(self).acker@
                } else {
                    let token = admitted(old(self).acker@) as u64;
                    let g = FragmentModel { key: f.key, payload: f.payload, token };
                    &&& final(self).acker@ == after_admit(old(self).acker@)
                    &&& final(self).scheduler@ == after_push(
                        old(self).scheduler@,
                        old(self).scheduler.settings(),
                        g,
                        now as nat,
                    )
                    &&& r matches Accepted::Taken(t, out) && t == token && match (
                        push_output(
                            old(self).scheduler@,
                            old(self).scheduler.settings(),
                            g,
                            now as nat,
                        ),
                        out,
                    ) {
                        (None, None) => true,
                        (Some(b), Some(o)) => sent_as(old(self).builder, b, o@),
                        _ => false,
                    }
                },
            },
            old(self).scheduler.settings().max_events == 1 ==> (r matches Accepted::Taken(t, out)
                ==> out matches Some(o) && o@.tokens == seq![t]),
    {
        proof {
            self.scheduler.lemma_model_ok();
        }
        match self.strategy.encode(event) {
            None => Accepted::Skipped,
            Some(fragment) => {
                proof {
                    self.acker.lemma_ack_ok();
                }
                match self.acker.register() {
                    None => Accepted::Refused,
                    Some(token) => {
                        let mut fragment = fragment;
                        fragment.token = token;
                        match self.scheduler.push(fragment, now) {
                            None => Accepted::Taken(token, None),
                            Some(batch) => {
                                let out = self.outgoing(batch);
                                Accepted::Taken(token, Some(out))
                            },
                        }
                    },
                }
            },
        }
    }

    /// The periodic tick at time `now`: every batch that has been open for
    /// the flush timeout comes out with its request and tokens.
    pub fn tick(&mut self, now: u64) -> (out: Vec<Outgoing>)
        requires
            old(self).wf(),
        ensures
            final(self).wf(),
            final(self).same_setup(old(self)),
            final(self).acker@ == old(self).acker@,
            final(self).scheduler@ == after_sweep(
                old(self).scheduler@,
                old(self).scheduler.settings(),
                Some(now as nat),
            ),
            exists|batches: Seq<BatchModel>|
                sweep_output(
                    old(self).scheduler@,
                    old(self).scheduler.settings(),
                    Some(now as nat),
                    batches,
                ) && #[trigger] all_sent_as(old(self).builder, batches, outgoing_models(out@)),
    {
        let batches = self.scheduler.tick(now);
        let ghost models = batch_models(batches@);
        let out = self.all_outgoing(batches);
        assert(all_sent_as(old(self).builder, models, outgoing_models(out@)));
        out
    }

    /// Shutdown: every open batch comes out with its request and tokens.
    pub fn shutdown(&mut self) -> (out: Vec<Outgoing>)
        requires
            old(self).wf(),
        ensures
            final(self).wf(),
            final(self).same_setup(old(self)),
            final(self).acker@ == old(self).acker@,
            final(self).scheduler@ == Map::<Seq<char>, crate::batch::BufferModel>::empty(),
            exists|batches: Seq<BatchModel>|
                sweep_output(
                    old(self).scheduler@,
                    old(self).scheduler.settings(),
                    None,
                    batches,
                ) && #[trigger] all_sent_as(old(self).builder, batches, outgoing_models(out@)),
    {
        let batches = self.scheduler.flush_all();
        let ghost models = batch_models(batches@);
        let out = self.all_outgoing(batches);
        assert(all_sent_as(old(self).builder, models, outgoing_models(out@)));
        out
    }

    /// Reports the events with these tokens done: their batch was
    /// delivered, or dropped for good. Returns the number up to which
    /// events are now acknowledged to the producer; it never goes down.
    pub fn finish(&mut self, tokens: &Vec<u64>) -> (n: u64)
        requires
            old(self).wf(),
        ensures
            final(self).wf(),
            final(self).same_setup(old(self)),
            final(self).scheduler@ == old(self).scheduler@,
            final(self).acker@ == completed_all(old(self).acker@, tokens@),
            n == final(self).acker@.released,
            n >= old(self).acker@.released,
    {
        let mut i: usize = 0;
        while i < tokens.len()
            invariant
                i <= tokens.len(),
                self.wf(),
                self.strategy == old(self).strategy,
                self.builder == old(self).builder,
                self.scheduler == old(self).scheduler,
                self.acker@ == completed_all(old(self).acker@, tokens@.subrange(0, i as int)),
                self.acker@.released >= old(self).acker@.released,
            decreases tokens.len() - i,
        {
            self.acker.complete(tokens[i]);
            proof {
                let next = tokens@.subrange(0, i + 1);
                assert(next.drop_last() =~= tokens@.subrange(0, i as int));
                assert(next.last() == tokens[i as int]);
            }
            i += 1;
        }
        assert(tokens@.subrange(0, i as int) =~= tokens@);
        self.acker.processed()
    }
}

} // verus!

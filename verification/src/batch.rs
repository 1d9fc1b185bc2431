//! Batching: per-partition buffers, the limits that close a batch, and the
//! batch that leaves a buffer.

use crate::encoding::{EncodedFragment, FragmentModel};
use vstd::prelude::*;

verus! {

/// The three flush triggers. Each is a positive number.
#[derive(Clone, Copy, Debug, PartialEq, Eq)]
pub struct BatchSettings {
    /// A batch closes when its payloads reach this many bytes.
    pub max_bytes: usize,
    /// A batch closes when it holds this many events.
    pub max_events: usize,
    /// A batch closes when it has been open for this many milliseconds.
    pub flush_timeout: u64,
}

/// Why batch limits were refused.
#[derive(Clone, Copy, Debug, PartialEq, Eq)]
pub enum BatchError {
    /// `max_bytes` is zero.
    InvalidMaxBytes,
    /// `max_events` is zero.
    InvalidMaxEvents,
    /// `flush_timeout` is zero.
    InvalidTimeout,
}

/// Mathematical model of an open buffer.
pub struct BufferModel {
    pub key: Seq<char>,
    pub fragments: Seq<FragmentModel>,
    pub created_at: nat,
}

/// Mathematical model of a flushed batch.
pub struct BatchModel {
    pub key: Seq<char>,
    pub fragments: Seq<FragmentModel>,
    pub byte_size: nat,
}

/// The payload bytes of a list of fragments, added up.
pub open spec fn total_bytes(fragments: Seq<FragmentModel>) -> nat
    decreases fragments.len(),
{
    if fragments.len() == 0 {
        0
    } else {
        total_bytes(fragments.drop_last()) + fragments.last().payload.len()
    }
}

/// `n`, or the largest `usize` where `n` is larger.
pub open spec fn clamped(n: nat) -> nat {
    if n > usize::MAX {
        usize::MAX as nat
    } else {
        n
    }
}

/// Whether every fragment belongs to the partition `key`.
pub open spec fn all_keyed(fragments: Seq<FragmentModel>, key: Seq<char>) -> bool {
    forall|i: int| 0 <= i < fragments.len() ==> (#[trigger] fragments[i]).key == key
}

/// What a list of fragments holds.
pub open spec fn fragment_models(fragments: Seq<EncodedFragment>) -> Seq<FragmentModel> {
    Seq::new(fragments.len(), |i: int| fragments[i]@)
}

/// The batch that an open buffer becomes when it is flushed.
pub open spec fn batch_of(buffer: BufferModel) -> BatchModel {
    BatchModel {
        key: buffer.key,
        fragments: buffer.fragments,
        byte_size: clamped(total_bytes(buffer.fragments)),
    }
}

/// The buffer of a partition after `fragment` arrived at time `now`: the
/// open buffer with the fragment at its end, or a fresh buffer created at
/// `now` where none was open.
pub open spec fn appended(open: Option<BufferModel>, fragment: FragmentModel, now: nat)
    -> BufferModel {
    match open {
        Some(b) => BufferModel {
            key: b.key,
            fragments: b.fragments.push(fragment),
            created_at: b.created_at,
        },
        None => BufferModel { key: fragment.key, fragments: seq![fragment], created_at: now },
    }
}

impl BatchSettings {
    /// Whether all three limits are positive.
    pub open spec fn valid(&self) -> bool {
        self.max_bytes > 0 && self.max_events > 0 && self.flush_timeout > 0
    }

    /// Whether the size or the count limit is reached.
    pub open spec fn full(&self, fragments: Seq<FragmentModel>) -> bool {
        total_bytes(fragments) >= self.max_bytes || fragments.len() >= self.max_events
    }

    /// Whether a buffer created at `created_at` has been open for the
    /// flush timeout at time `now`.
    pub open spec fn expired(&self, created_at: nat, now: nat) -> bool {
        now - created_at >= self.flush_timeout
    }

    /// Whether at least one of the three flush triggers has fired.
    pub open spec fn must_flush(&self, buffer: BufferModel, now: nat) -> bool {
        self.full(buffer.fragments) || self.expired(buffer.created_at, now)
    }

    /// Checks the limits: each must be positive. The first that is zero, in
    /// the order bytes, events, timeout, is reported.
    pub fn new(max_bytes: usize, max_events: usize, flush_timeout: u64) -> (r: Result<
        BatchSettings,
        BatchError,
    >)
        ensures
            match r {
                Ok(s) => s.valid() && s.max_bytes == max_bytes && s.max_events == max_events
                    && s.flush_timeout == flush_timeout,
                Err(BatchError::InvalidMaxBytes) => max_bytes == 0,
                Err(BatchError::InvalidMaxEvents) => max_bytes > 0 && max_events == 0,
                Err(BatchError::InvalidTimeout) => max_bytes > 0 && max_events > 0
                    && flush_timeout == 0,
            },
    {
        if max_bytes == 0 {
            Err(BatchError::InvalidMaxBytes)
        } else if max_events == 0 {
            Err(BatchError::InvalidMaxEvents)
        } else if flush_timeout == 0 {
            Err(BatchError::InvalidTimeout)
        } else {
            Ok(BatchSettings { max_bytes, max_events, flush_timeout })
        }
    }
}

/// A batch that has left its buffer: the fragments of one partition in
/// arrival order, and the size of their payloads.
#[derive(Clone, Debug, PartialEq, Eq)]
pub struct FlushedBatch {
    pub key: String,
    pub fragments: Vec<EncodedFragment>,
    pub byte_size: usize,
}

impl View for FlushedBatch {
    type V = BatchModel;

    open spec fn view(&self) -> BatchModel {
        BatchModel {
            key: self.key@,
            fragments: fragment_models(self.fragments@),
            byte_size: self.byte_size as nat,
        }
    }
}

/// The accumulator of one partition.
pub struct PartitionBuffer {
    key: String,
    fragments: Vec<EncodedFragment>,
    bytes: usize,
    created_at: u64,
}

impl View for PartitionBuffer {
    type V = BufferModel;

    closed spec fn view(&self) -> BufferModel {
        BufferModel {
            key: self.key@,
            fragments: fragment_models(self.fragments@),
            created_at: self.created_at as nat,
        }
    }
}

impl PartitionBuffer {
    /// Whether every fragment carries the buffer's key and the byte counter
    /// agrees with the fragments.
    pub closed spec fn wf(&self) -> bool {
        &&& all_keyed(self@.fragments, self@.key)
        &&& self.bytes == clamped(total_bytes(self@.fragments))
    }

    /// An empty buffer for the partition `key`, created at `now`.
    pub fn new(key: String, now: u64) -> (b: PartitionBuffer)
        ensures
            b.wf(),
            b@ == (BufferModel { key: key@, fragments: Seq::empty(), created_at: now as nat }),
    {
        let b = PartitionBuffer { key, fragments: Vec::new(), bytes: 0, created_at: now };
        assert(b@.fragments =~= Seq::empty());
        b
    }

    /// The partition key.
    pub fn key(&self) -> (k: &String)
        ensures
            k@ == self@.key,
    {
        &self.key
    }

    /// The number of fragments held.
    pub fn count(&self) -> (n: usize)
        ensures
            n == self@.fragments.len(),
    {
        self.fragments.len()
    }

    /// The payload bytes held, saturating at the largest `usize`.
    pub fn bytes(&self) -> (n: usize)
        requires
            self.wf(),
        ensures
            n == clamped(total_bytes(self@.fragments)),
    {
        self.bytes
    }

    /// Appends a fragment of this partition.
    pub fn push(&mut self, fragment: EncodedFragment)
        requires
            old(self).wf(),
            fragment@.key == old(self)@.key,
        ensures
            final(self).wf(),
            final(self)@ == (BufferModel {
                key: old(self)@.key,
                fragments: old(self)@.fragments.push(fragment@),
                created_at: old(self)@.created_at,
            }),
    {
        let size = fragment.payload.len();
        let ghost before = self@.fragments;
        if size > usize::MAX - self.bytes {
            self.bytes = usize::MAX;
        } else {
            self.bytes = self.bytes + size;
        }
        self.fragments.push(fragment);
        proof {
            assert(self@.fragments =~= before.push(fragment@));
            assert(before.push(fragment@).drop_last() =~= before);
        }
    }

    /// Whether the size or the count limit is reached.
    pub fn is_full(&self, settings: &BatchSettings) -> (full: bool)
        requires
            self.wf(),
        ensures
            full == settings.full(self@.fragments),
    {
        self.bytes >= settings.max_bytes || self.fragments.len() >= settings.max_events
    }

    /// Whether the buffer has been open for the flush timeout at `now`.
    pub fn is_expired(&self, settings: &BatchSettings, now: u64) -> (expired: bool)
        ensures
            expired == settings.expired(self@.created_at, now as nat),
    {
        now >= self.created_at && now - self.created_at >= settings.flush_timeout
    }

    /// Closes the buffer: its fragments leave as one batch.
    pub fn into_batch(self) -> (batch: FlushedBatch)
        requires
            self.wf(),
        ensures
            batch@ == batch_of(self@),
            all_keyed(batch@.fragments, batch@.key),
    {
        FlushedBatch { key: self.key, fragments: self.fragments, byte_size: self.bytes }
    }
}

} // verus!

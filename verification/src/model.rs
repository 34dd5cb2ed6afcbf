//! The mathematical model of the ring buffer.
//!
//! The model counts samples by absolute position: the sample at position `p`
//! is the `p`-th sample the buffer ever accepted. `stream` holds them all, the
//! consumer has committed the first `global_pos` of them, and the rest are
//! outstanding: they occupy storage slots from `read_pos` on, wrapping after
//! slot `capacity`. `storage` holds every slot, the outstanding samples as
//! their floats and the other slots as whatever was last put there.

use crate::convert::{f32_bits, f32_bits_seq};
use vstd::prelude::*;

verus! {

pub struct RingView {
    /// The number of samples the buffer can hold; storage has one slot more.
    pub capacity: nat,
    /// The storage slot of the oldest outstanding sample.
    pub read_pos: nat,
    /// The number of samples committed as read.
    pub global_pos: nat,
    /// Every sample accepted so far, by absolute position.
    pub stream: Seq<i16>,
    /// Whether the producer has closed the buffer.
    pub closed: bool,
    /// The storage slots, floats as bit patterns: one slot more than the
    /// capacity.
    pub storage: Seq<u32>,
}

impl RingView {
    /// An open, empty buffer of the given capacity, with zeroed storage.
    pub open spec fn empty(capacity: nat) -> RingView {
        RingView {
            capacity,
            read_pos: 0,
            global_pos: 0,
            stream: Seq::empty(),
            closed: false,
            storage: Seq::new(capacity + 1, |j: int| 0u32),
        }
    }

    /// The outstanding samples fit the capacity, the read cursor is a slot,
    /// storage has one slot more than the capacity, and every outstanding
    /// sample is in its slot.
    pub open spec fn wf(self) -> bool {
        &&& self.bounded()
        &&& self.holds_stream()
    }

    /// The outstanding samples fit the capacity, the read cursor is a slot,
    /// and storage has one slot more than the capacity.
    pub open spec fn bounded(self) -> bool {
        &&& self.read_pos <= self.capacity
        &&& self.global_pos <= self.stream.len()
        &&& self.stream.len() - self.global_pos <= self.capacity
        &&& self.storage.len() == self.capacity + 1
    }

    /// Every outstanding sample is in its slot, as its float.
    pub open spec fn holds_stream(self) -> bool {
        forall|p: int|
            self.global_pos <= p < self.stream.len() ==> self.storage[self.slot_of(p as nat) as int]
                == f32_bits(#[trigger] self.stream[p])
    }

    /// The number of storage slots.
    pub open spec fn size(self) -> nat {
        self.capacity + 1
    }

    /// The number of outstanding samples.
    pub open spec fn count(self) -> nat {
        (self.stream.len() - self.global_pos) as nat
    }

    /// The number of samples that can be written before the buffer is full.
    pub open spec fn slots_free(self) -> nat {
        (self.capacity - self.count()) as nat
    }

    pub open spec fn is_empty(self) -> bool {
        self.slots_free() == self.capacity
    }

    pub open spec fn is_full(self) -> bool {
        self.slots_free() == 0
    }

    /// The storage slot that the next sample written goes to.
    pub open spec fn write_pos(self) -> nat {
        (self.read_pos + self.count()) % self.size()
    }

    /// The absolute position one past the last sample accepted.
    pub open spec fn end_pos(self) -> nat {
        self.stream.len()
    }

    /// How many of `len` offered samples one write accepts.
    pub open spec fn accepted(self, len: nat) -> nat {
        if len <= self.slots_free() {
            len
        } else {
            self.slots_free()
        }
    }

    /// The slot that sample `k` of a write goes to: `k` places after the
    /// write cursor, modulo the number of slots.
    pub open spec fn write_slot(self, k: int) -> int {
        (self.write_pos() + k) % (self.size() as int)
    }

    /// How many slots after the write cursor slot `j` lies, wrapping at the
    /// end of storage.
    pub open spec fn ahead_of_write(self, j: int) -> int {
        (j - self.write_pos()) % (self.size() as int)
    }

    /// The buffer after one write of `data`: the accepted prefix is appended
    /// to the stream, and its floats fill the slots from the write cursor
    /// on, wrapping at the end of storage. Every other slot stays as it is.
    pub open spec fn written(self, data: Seq<i16>) -> RingView {
        let n = self.accepted(data.len());
        RingView {
            stream: self.stream + data.take(n as int),
            storage: Seq::new(
                self.storage.len(),
                |j: int|
                    if self.ahead_of_write(j) < n {
                        f32_bits(data[self.ahead_of_write(j)])
                    } else {
                        self.storage[j]
                    },
            ),
            ..self
        }
    }

    /// Whether the consumer may commit up to absolute position `to_pos`.
    pub open spec fn commit_allowed(self, to_pos: nat) -> bool {
        self.global_pos <= to_pos <= self.end_pos()
    }

    /// The buffer after committing up to `to_pos`: the read cursor moves to
    /// the slot of the sample at `to_pos`. Storage stays as it is.
    pub open spec fn committed(self, to_pos: nat) -> RingView {
        RingView { global_pos: to_pos, read_pos: self.slot_of(to_pos), ..self }
    }

    /// The buffer after it was closed. Nothing else changes.
    pub open spec fn shut(self) -> RingView {
        RingView { closed: true, ..self }
    }

    /// The buffer after it was cleared: the outstanding samples are dropped
    /// and storage is zeroed.
    pub open spec fn cleared(self) -> RingView {
        RingView {
            read_pos: 0,
            stream: self.stream.take(self.global_pos as int),
            storage: Seq::new(self.storage.len(), |j: int| 0u32),
            ..self
        }
    }

    /// Whether the consumer may peek at absolute position `pos`.
    pub open spec fn peek_allowed(self, pos: nat) -> bool {
        self.global_pos <= pos
    }

    /// The number of samples at hand from `pos` on; negative where `pos` lies
    /// beyond the last sample accepted.
    pub open spec fn available(self, pos: nat) -> int {
        self.end_pos() - pos
    }

    /// How a peek of `req` samples at `pos` ends.
    pub open spec fn peek_kind(self, pos: nat, req: nat) -> PeekKind {
        if self.available(pos) >= req {
            PeekKind::Whole
        } else if !self.closed {
            PeekKind::Again
        } else if self.available(pos) <= 0 {
            PeekKind::Drained
        } else {
            PeekKind::Tail
        }
    }

    /// The number of samples that a peek of `req` samples at `pos` hands out.
    pub open spec fn peek_len(self, pos: nat, req: nat) -> nat {
        match self.peek_kind(pos, req) {
            PeekKind::Whole => req,
            PeekKind::Tail => self.available(pos) as nat,
            _ => 0,
        }
    }

    /// The floats of the `len` samples from `pos` on, as bit patterns.
    pub open spec fn window(self, pos: nat, len: nat) -> Seq<u32> {
        f32_bits_seq(self.stream.subrange(pos as int, (pos + len) as int))
    }

    /// The storage slot of the sample at `pos`: that many slots after the
    /// read cursor as `pos` lies after the committed position, modulo the
    /// number of slots.
    pub open spec fn slot_of(self, pos: nat) -> nat {
        ((self.read_pos + (pos - self.global_pos)) % (self.size() as int)) as nat
    }

    /// The `len` slots of storage from the slot of the sample at `pos` on.
    pub open spec fn piece(self, pos: nat, len: nat) -> Seq<u32> {
        self.storage.subrange(self.slot_of(pos) as int, (self.slot_of(pos) + len) as int)
    }

    /// Whether the `len` samples from `pos` on lie in storage without reaching
    /// its end.
    pub open spec fn is_adjacent(self, pos: nat, len: nat) -> bool {
        self.slot_of(pos) + len < self.size()
    }

    /// Whether `peek_time_range` may be asked for the units `start..end`, with
    /// a caller's buffer of `room` samples.
    pub open spec fn time_range_allowed(self, start: nat, end: nat, room: nat) -> bool {
        let from = start * (SAMPLES_PER_UNIT as nat);
        let len = ((end - start) * SAMPLES_PER_UNIT) as nat;
        &&& start <= end
        &&& end * SAMPLES_PER_UNIT <= usize::MAX
        &&& self.peek_allowed(from)
        &&& self.available(from) >= len
        &&& (self.is_adjacent(from, len) || room >= len)
    }
}

/// The number of samples in one unit of `peek_time_range`.
pub const SAMPLES_PER_UNIT: usize = 16;

/// The ways a peek can end.
pub enum PeekKind {
    /// All the samples asked for are at hand.
    Whole,
    /// Fewer are at hand and the buffer is open: more may come.
    Again,
    /// Fewer are at hand, at least one, and the buffer is closed.
    Tail,
    /// None is at hand and the buffer is closed.
    Drained,
}

} // verus!

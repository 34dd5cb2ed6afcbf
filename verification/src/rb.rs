//! The ring buffer: fixed-capacity circular storage of float samples with a
//! producer side that converts and writes 16-bit samples, and a consumer side
//! that peeks at windows by absolute position and commits what it has used.
//!
//! `SpscRb` is the buffer as one thread sees it while it holds the buffer
//! lock. An operation that would have to wait for the other side does not
//! block here: it leaves the buffer as it is and answers `Blocking::Wait` or
//! `Blocking::Retry`, and the caller comes back once it has waited.

use crate::convert::{convert_pcm16_to_f32_at, f32_bits, f32_bits_seq};
use crate::laws::lemma_written_storage;
use crate::model::{PeekKind, RingView, SAMPLES_PER_UNIT};
use vstd::prelude::*;

verus! {

/// A window of samples that a peek hands out. Samples are floats, held as
/// binary32 bit patterns.
#[derive(Debug, Clone, Copy, PartialEq, Eq)]
pub enum SampleRange<'a> {
    /// The samples lie in storage in one piece; this is that piece.
    Adjacent(&'a [u32]),
    /// The samples reach the end of storage; this many were copied to the
    /// front of the caller's buffer.
    NonAdjacent(usize),
    /// No sample is left and the buffer is closed.
    EofEmpty,
}

/// Ring buffer errors.
#[derive(Debug, Clone, Copy, PartialEq, Eq)]
pub enum RbError<'a> {
    Full,
    Empty,
    TimedOut,
    Again,
    EOF(SampleRange<'a>),
}

/// The answer of an operation that may have to wait for the other side.
#[derive(Debug, PartialEq, Eq)]
pub enum Blocking<T> {
    /// The operation is over, with this result.
    Ready(T),
    /// Nothing was done; call again at once.
    Retry,
    /// Nothing was done; call again after the other side has signalled.
    Wait,
}

impl<'a> SampleRange<'a> {
    /// The number of samples in the window.
    pub open spec fn spec_len(self) -> nat {
        match self {
            SampleRange::Adjacent(s) => s@.len(),
            SampleRange::NonAdjacent(n) => n as nat,
            SampleRange::EofEmpty => 0,
        }
    }

    /// The number of samples in the window.
    pub fn len(self) -> (n: usize)
        ensures
            n == self.spec_len(),
    {
        match self {
            SampleRange::Adjacent(s) => s.len(),
            SampleRange::NonAdjacent(n) => n,
            SampleRange::EofEmpty => 0,
        }
    }

    /// The samples of the window, where `copied` is what the caller's buffer
    /// holds after the peek.
    pub open spec fn spec_samples(self, copied: Seq<u32>) -> Seq<u32> {
        match self {
            SampleRange::Adjacent(s) => s@,
            SampleRange::NonAdjacent(n) => copied.take(n as int),
            SampleRange::EofEmpty => Seq::empty(),
        }
    }

    /// The samples of the window: the piece of storage where the window is
    /// adjacent, else the front of `copied`, the buffer that the caller gave
    /// to the peek.
    pub fn samples(self, copied: &'a [u32]) -> (s: &'a [u32])
        requires
            self matches SampleRange::NonAdjacent(n) ==> n <= copied@.len(),
        ensures
            s@ == self.spec_samples(copied@),
    {
        match self {
            SampleRange::Adjacent(s) => s,
            SampleRange::NonAdjacent(n) => vstd::slice::slice_subrange(copied, 0, n),
            SampleRange::EofEmpty => {
                let none = vstd::slice::slice_subrange(copied, 0, 0);
                assert(none@ =~= Seq::<u32>::empty());
                none
            },
        }
    }
}

impl<'a> RbError<'a> {
    /// The text that describes the error.
    pub fn message(&self) -> (text: String)
        ensures
            text@ == (match *self {
                RbError::Full => "No free slots in the buffer"@,
                RbError::Empty => "Buffer is empty"@,
                RbError::TimedOut => "Timed out waiting for available slots"@,
                RbError::Again => "Try again"@,
                RbError::EOF(_) => "End of data"@,
            }),
    {
        match *self {
            RbError::Full => "No free slots in the buffer".to_string(),
            RbError::Empty => "Buffer is empty".to_string(),
            RbError::TimedOut => "Timed out waiting for available slots".to_string(),
            RbError::Again => "Try again".to_string(),
            RbError::EOF(_) => "End of data".to_string(),
        }
    }
}

/// Whether `range` hands out the `len` samples from `pos` on: where they are
/// adjacent the piece of storage that holds them, else a copy of them at the
/// front of the caller's buffer, which held `before` and now holds `after`.
pub open spec fn window_delivered(
    v: RingView,
    pos: nat,
    len: nat,
    range: SampleRange<'_>,
    before: Seq<u32>,
    after: Seq<u32>,
) -> bool {
    if v.is_adjacent(pos, len) {
        &&& range matches SampleRange::Adjacent(s)
        &&& s@ == v.piece(pos, len)
        &&& s@ == v.window(pos, len)
        &&& after == before
    } else {
        &&& range matches SampleRange::NonAdjacent(n)
        &&& n == len
        &&& after.len() == before.len()
        &&& after.take(len as int) == v.window(pos, len)
        &&& after.skip(len as int) == before.skip(len as int)
    }
}

/// Whether `r` is the result of peeking at `pos` for as many samples as the
/// caller's buffer holds.
pub open spec fn peek_result(
    v: RingView,
    pos: nat,
    r: Result<SampleRange<'_>, RbError<'_>>,
    before: Seq<u32>,
    after: Seq<u32>,
) -> bool {
    match v.peek_kind(pos, before.len()) {
        PeekKind::Whole => {
            &&& r matches Ok(range)
            &&& window_delivered(v, pos, before.len(), range, before, after)
        },
        PeekKind::Tail => {
            &&& r matches Err(RbError::EOF(range))
            &&& window_delivered(v, pos, v.available(pos) as nat, range, before, after)
        },
        PeekKind::Drained => {
            &&& r matches Err(RbError::EOF(SampleRange::EofEmpty))
            &&& after == before
        },
        PeekKind::Again => {
            &&& r matches Err(RbError::Again)
            &&& after == before
        },
    }
}

/// Whether `r` and `post` are the answer and the buffer after one attempt to
/// write `data` to the buffer `pre`; `expired` says that the caller's timeout
/// has run out.
pub open spec fn write_result(
    pre: RingView,
    data: Seq<i16>,
    expired: bool,
    r: Blocking<Result<Option<usize>, RbError<'_>>>,
    post: RingView,
) -> bool {
    if data.len() == 0 {
        r == Blocking::Ready(Ok::<Option<usize>, RbError<'_>>(None)) && post == pre
    } else if pre.closed {
        r == Blocking::Ready(
            Err::<Option<usize>, RbError<'_>>(RbError::EOF(SampleRange::EofEmpty)),
        ) && post == pre
    } else if pre.is_full() {
        &&& post == pre
        &&& if expired {
            r == Blocking::Ready(Err::<Option<usize>, RbError<'_>>(RbError::TimedOut))
        } else {
            r == Blocking::<Result<Option<usize>, RbError<'_>>>::Wait
        }
    } else {
        &&& r matches Blocking::Ready(Ok(Some(n)))
        &&& n == pre.accepted(data.len())
        &&& post == pre.written(data)
        &&& samples_stored(pre, data, post)
    }
}

/// Where the samples of a write are after it: the number of slots is kept,
/// sample `k` of those accepted is in the slot `k` places after the write
/// cursor, modulo the number of slots, as its float, and every other slot is
/// as it was.
pub open spec fn samples_stored(pre: RingView, data: Seq<i16>, post: RingView) -> bool {
    &&& post.storage.len() == pre.storage.len()
    &&& forall|k: int|
        0 <= k < pre.accepted(data.len()) ==> 0 <= pre.write_slot(k) < pre.storage.len()
            && post.storage[pre.write_slot(k)] == f32_bits(#[trigger] data[k])
    &&& forall|j: int|
        0 <= j < pre.storage.len() && (forall|k: int|
            0 <= k < pre.accepted(data.len()) ==> j != #[trigger] pre.write_slot(k))
            ==> #[trigger] post.storage[j] == pre.storage[j]
}

/// Whether `r`, `post` and `to` are the answer, the buffer and the caller's
/// cursor into `data` after one round of writing all of `data` to the buffer
/// `pre`, where the samples before `from` were written in earlier rounds.
pub open spec fn write_ext_result(
    pre: RingView,
    data: Seq<i16>,
    from: nat,
    r: Blocking<Result<(), RbError<'_>>>,
    post: RingView,
    to: nat,
) -> bool {
    let rest = data.skip(from as int);
    if rest.len() == 0 {
        r == Blocking::Ready(Ok::<(), RbError<'_>>(())) && post == pre && to == from
    } else if pre.closed {
        r == Blocking::Ready(Err::<(), RbError<'_>>(RbError::EOF(SampleRange::EofEmpty)))
            && post == pre && to == from
    } else {
        &&& post == pre.written(rest)
        &&& samples_stored(pre, rest, post)
        &&& to == from + pre.accepted(rest.len())
        &&& if to == data.len() {
            r == Blocking::Ready(Ok::<(), RbError<'_>>(()))
        } else {
            r == Blocking::<Result<(), RbError<'_>>>::Wait
        }
    }
}

/// Whether `r` is the answer of one round of a blocking peek at `pos` for as
/// many samples as the caller's buffer holds.
pub open spec fn peek_blocking_result(
    v: RingView,
    pos: nat,
    r: Blocking<Result<SampleRange<'_>, RbError<'_>>>,
    before: Seq<u32>,
    after: Seq<u32>,
) -> bool {
    if v.peek_kind(pos, before.len()) is Again {
        r is Retry && after == before
    } else {
        r matches Blocking::Ready(res) && peek_result(v, pos, res, before, after)
    }
}

/// Non-modifying operations on the ring buffer, and closing it.
pub trait RbInspector: View<V = RingView> {
    /// The buffer is in a consistent state. Every operation needs and keeps
    /// this.
    spec fn wf(&self) -> bool;

    /// The model of a consistent buffer is well-formed, so the laws of the
    /// model hold of it.
    proof fn lemma_view_wf(&self)
        requires
            self.wf(),
        ensures
            self@.wf(),
    ;

    /// Returns true if the buffer is empty.
    fn is_empty(&self) -> (r: bool)
        requires
            self.wf(),
        ensures
            r == self@.is_empty(),
    ;

    /// Returns true if the buffer is full.
    fn is_full(&self) -> (r: bool)
        requires
            self.wf(),
        ensures
            r == self@.is_full(),
    ;

    /// Returns the total capacity of the ring buffer.
    /// This is the size with which the buffer was initialized.
    fn capacity(&self) -> (r: usize)
        requires
            self.wf(),
        ensures
            r == self@.capacity,
    ;

    /// Returns the number of values that can be written until the buffer is full.
    fn slots_free(&self) -> (r: usize)
        requires
            self.wf(),
        ensures
            r == self@.slots_free(),
            r + self@.count() == self@.capacity,
    ;

    /// Returns the number of values from the buffer that are available to read.
    fn count(&self) -> (r: usize)
        requires
            self.wf(),
        ensures
            r == self@.count(),
            r + self@.slots_free() == self@.capacity,
    ;

    /// Returns whether the ring buffer is closed.
    fn is_closed(&self) -> (r: bool)
        requires
            self.wf(),
        ensures
            r == self@.closed,
    ;

    /// Closes the buffer. Cursors, samples and storage stay as they are, and
    /// closing a closed buffer changes nothing.
    fn close(&mut self)
        requires
            old(self).wf(),
        ensures
            final(self).wf(),
            final(self)@ == old(self)@.shut(),
    ;
}

/// Management interface for the ring buffer.
pub trait RB: RbInspector {
    /// Resets the cursors and zeroes the storage. The buffer is empty after
    /// this call; what was committed stays committed.
    fn clear(&mut self)
        requires
            old(self).wf(),
        ensures
            final(self).wf(),
            final(self)@ == old(self)@.cleared(),
            final(self)@.is_empty(),
    ;
}

/// The producer's side of the buffer.
pub trait RbProducer: RbInspector {
    /// Tries to write `data`, as much of it as fits; waits for nothing but a
    /// free slot.
    ///
    /// The answer is `Ready(Ok(None))` if the given slice has zero length,
    /// `Ready(Err(EOF(EofEmpty)))` if the buffer is closed, `Wait` if it is
    /// full, and else `Ready(Ok(Some(n)))` with `n` the number of samples
    /// written, which may be less than `data.len()`. The samples written go
    /// to the slots from the write cursor on, as floats; no other slot
    /// changes, and where no sample is written the buffer, storage
    /// included, stays as it is.
    fn write_blocking(&mut self, data: &[i16]) -> (r: Blocking<
        Result<Option<usize>, RbError<'static>>,
    >)
        requires
            old(self).wf(),
        ensures
            final(self).wf(),
            write_result(old(self)@, data@, false, r, final(self)@),
    ;

    /// Works as `write_blocking`, but with a full buffer the answer is
    /// `Ready(Err(TimedOut))` once the caller's timeout has run out, which
    /// `expired` says.
    fn write_blocking_timeout(&mut self, data: &[i16], expired: bool) -> (r: Blocking<
        Result<Option<usize>, RbError<'static>>,
    >)
        requires
            old(self).wf(),
        ensures
            final(self).wf(),
            write_result(old(self)@, data@, expired, r, final(self)@),
    ;

    /// One round of writing all of `data`: writes as much of `data[*pos..]`
    /// as fits and advances `*pos` by that.
    ///
    /// The answer is `Ready(Ok(()))` once `*pos` has reached the end of
    /// `data`, `Ready(Err(EOF(EofEmpty)))` if samples are left and the buffer
    /// is closed, and else `Wait`: the caller waits for a free slot and calls
    /// again with the same `data` and `pos`.
    fn write_ext_blocking(&mut self, data: &[i16], pos: &mut usize) -> (r: Blocking<
        Result<(), RbError<'static>>,
    >)
        requires
            old(self).wf(),
            *old(pos) <= data@.len(),
        ensures
            final(self).wf(),
            write_ext_result(
                old(self)@,
                data@,
                *old(pos) as nat,
                r,
                final(self)@,
                *final(pos) as nat,
            ),
    ;

    /// Closes the buffer: no write succeeds any more, and the consumer
    /// drains what is left. Cursors, samples and storage stay as they are.
    fn close(&mut self)
        requires
            old(self).wf(),
        ensures
            final(self).wf(),
            final(self)@ == old(self)@.shut(),
    ;
}

/// The consumer's side of the buffer.
pub trait RbConsumer: RbInspector {
    /// Looks at the samples from absolute position `pos` on, as many as
    /// `data` holds, without consuming them.
    ///
    /// With enough samples at hand the answer is `Ok` with the window. With
    /// fewer, it is `Err(Again)` while the buffer is open; in a closed
    /// buffer it is `Err(EOF(..))` with the samples that are left, or with
    /// `EofEmpty` if none is.
    fn peek_ext(&self, pos: usize, data: &mut [u32]) -> (r: Result<
        SampleRange<'_>,
        RbError<'_>,
    >)
        requires
            self.wf(),
            self@.peek_allowed(pos as nat),
        ensures
            peek_result(self@, pos as nat, r, old(data)@, final(data)@),
    ;

    /// One round of a peek that waits for data: works as `peek_ext`, but
    /// where that would fail with `Again` the answer is `Retry`.
    fn peek_blocking(&self, pos: usize, data: &mut [u32]) -> (r: Blocking<
        Result<SampleRange<'_>, RbError<'_>>,
    >)
        requires
            self.wf(),
            self@.peek_allowed(pos as nat),
        ensures
            peek_blocking_result(self@, pos as nat, r, old(data)@, final(data)@),
    ;

    /// Looks at the samples of the units `start..end`, each unit being
    /// `SAMPLES_PER_UNIT` samples, which must all be at hand.
    fn peek_time_range(&self, start: usize, end: usize, data: &mut [u32]) -> (r: Result<
        SampleRange<'_>,
        RbError<'_>,
    >)
        requires
            self.wf(),
            self@.time_range_allowed(start as nat, end as nat, old(data)@.len()),
        ensures
            r matches Ok(range) && window_delivered(
                self@,
                (start * SAMPLES_PER_UNIT) as nat,
                ((end - start) * SAMPLES_PER_UNIT) as nat,
                range,
                old(data)@,
                final(data)@,
            ),
    ;

    /// Advances the committed position to `to_pos`, which frees the slots of
    /// the samples before it. No slot changes.
    fn commit_read(&mut self, to_pos: usize)
        requires
            old(self).wf(),
            old(self)@.commit_allowed(to_pos as nat),
        ensures
            final(self).wf(),
            final(self)@ == old(self)@.committed(to_pos as nat),
    ;
}

/// A single-producer single-consumer ring buffer of float samples.
pub struct SpscRb {
    /// `capacity + 1` slots; the one slot more tells a full buffer from an
    /// empty one.
    buf: Vec<u32>,
    read_pos: usize,
    write_pos: usize,
    global_pos: usize,
    closed: bool,
    stream: Ghost<Seq<i16>>,
}

impl View for SpscRb {
    type V = RingView;

    closed spec fn view(&self) -> RingView {
        RingView {
            capacity: (self.buf@.len() - 1) as nat,
            read_pos: self.read_pos as nat,
            global_pos: self.global_pos as nat,
            stream: self.stream@,
            closed: self.closed,
            storage: self.buf@,
        }
    }
}

/// The slot `off` places after slot `base` in storage of `size` slots.
spec fn slot(base: int, off: int, size: int) -> int {
    if base + off < size {
        base + off
    } else {
        base + off - size
    }
}

proof fn lemma_slot_is_mod(base: int, off: int, size: int)
    requires
        0 <= base < size,
        0 <= off < size,
    ensures
        (base + off) % size == slot(base, off, size),
        0 <= slot(base, off, size) < size,
{
    if base + off < size {
        vstd::arithmetic::div_mod::lemma_small_mod((base + off) as nat, size as nat);
    } else {
        vstd::arithmetic::div_mod::lemma_small_mod((base + off - size) as nat, size as nat);
        vstd::arithmetic::div_mod::lemma_mod_multiples_vanish(1, base + off - size, size);
    }
}

/// How many places slot `j` lies after slot `at` in storage of `size` slots.
spec fn ahead(j: int, at: int, size: int) -> int {
    if j >= at {
        j - at
    } else {
        j - at + size
    }
}

proof fn lemma_ahead_is_mod(j: int, at: int, size: int)
    requires
        0 <= j < size,
        0 <= at < size,
    ensures
        (j - at) % size == ahead(j, at, size),
{
    if j >= at {
        vstd::arithmetic::div_mod::lemma_small_mod((j - at) as nat, size as nat);
    } else {
        vstd::arithmetic::div_mod::lemma_small_mod((j - at + size) as nat, size as nat);
        vstd::arithmetic::div_mod::lemma_mod_multiples_vanish(-1, j - at + size, size);
    }
}

impl SpscRb {
    /// The outstanding samples are in their slots.
    spec fn holds_stream(&self) -> bool {
        forall|p: int|
            self.global_pos <= p < self.stream@.len() ==> self.buf@[slot(
                self.read_pos as int,
                p - self.global_pos,
                self.buf@.len() as int,
            )] == f32_bits(#[trigger] self.stream@[p])
    }

    /// Creates a buffer that holds up to `size` samples. It is open and
    /// empty and its storage is zeroed.
    pub fn new(size: usize) -> (rb: SpscRb)
        requires
            size < usize::MAX,
        ensures
            rb.wf(),
            rb@ == RingView::empty(size as nat),
    {
        let buf: Vec<u32> = vec![0u32; size + 1];
        let rb = SpscRb {
            buf,
            read_pos: 0,
            write_pos: 0,
            global_pos: 0,
            closed: false,
            stream: Ghost(Seq::empty()),
        };
        proof {
            lemma_slot_is_mod(0, 0, size + 1);
            assert(rb.buf@ =~= RingView::empty(size as nat).storage);
        }
        rb
    }

    /// The number of samples committed as read.
    pub fn global_pos(&self) -> (r: usize)
        requires
            self.wf(),
        ensures
            r == self@.global_pos,
    {
        self.global_pos
    }

    /// Whether `peek_ext` and `peek_blocking` may be called with `pos`.
    pub fn can_peek(&self, pos: usize) -> (r: bool)
        requires
            self.wf(),
        ensures
            r == self@.peek_allowed(pos as nat),
    {
        self.global_pos <= pos
    }

    /// Whether `commit_read` may be called with `to_pos`.
    pub fn can_commit(&self, to_pos: usize) -> (r: bool)
        requires
            self.wf(),
        ensures
            r == self@.commit_allowed(to_pos as nat),
    {
        self.global_pos <= to_pos && to_pos - self.global_pos <= self.count()
    }

    /// Whether `peek_time_range` may be called with `start` and `end` and a
    /// buffer of `room` samples.
    pub fn can_peek_time_range(&self, start: usize, end: usize, room: usize) -> (r: bool)
        requires
            self.wf(),
        ensures
            r == self@.time_range_allowed(start as nat, end as nat, room as nat),
    {
        if start > end || end > usize::MAX / SAMPLES_PER_UNIT {
            return false;
        }
        let start_pos: usize = start * SAMPLES_PER_UNIT;
        let req_cnt: usize = end * SAMPLES_PER_UNIT - start_pos;
        if self.global_pos > start_pos {
            return false;
        }
        let offset: usize = start_pos - self.global_pos;
        let count: usize = self.count();
        if offset > count || count - offset < req_cnt {
            return false;
        }
        let at: usize = self.advance(self.read_pos, offset);
        proof {
            lemma_slot_is_mod(self.read_pos as int, offset as int, self.buf@.len() as int);
        }
        req_cnt < self.buf.len() - at || room >= req_cnt
    }

    /// One line of text with the cursors and the fill of the buffer, headed
    /// by `owner`.
    pub fn show_state(&self, owner: &str) -> (line: String)
        requires
            self.wf(),
        ensures
            line@ == state_text(
                owner@,
                self@.read_pos as usize,
                self@.write_pos() as usize,
                self@.slots_free() as usize,
                self@.count() as usize,
            ),
    {
        proof {
            lemma_slot_is_mod(
                self.read_pos as int,
                self@.count() as int,
                self.buf@.len() as int,
            );
        }
        state_line(owner, self.read_pos, self.write_pos, self.slots_free(), self.count())
    }

    /// The slot `by` places after slot `base`.
    fn advance(&self, base: usize, by: usize) -> (r: usize)
        requires
            base < self.buf@.len(),
            by < self.buf@.len(),
        ensures
            r == slot(base as int, by as int, self.buf@.len() as int),
            r < self.buf@.len(),
    {
        let room: usize = self.buf.len() - base;
        if by < room {
            base + by
        } else {
            by - room
        }
    }

    /// Converts `data[from..to]` into the slots from `at` on.
    fn store(&mut self, data: &[i16], from: usize, to: usize, at: usize)
        requires
            from <= to <= data@.len(),
            at + (to - from) <= old(self).buf@.len(),
        ensures
            final(self).buf@.len() == old(self).buf@.len(),
            final(self).read_pos == old(self).read_pos,
            final(self).write_pos == old(self).write_pos,
            final(self).global_pos == old(self).global_pos,
            final(self).closed == old(self).closed,
            final(self).stream@ == old(self).stream@,
            forall|j: int|
                0 <= j < to - from ==> final(self).buf@[at + j] == f32_bits(
                    #[trigger] data@[from + j],
                ),
            forall|j: int|
                0 <= j < at || at + (to - from) <= j < old(self).buf@.len() ==> final(self).buf@[j]
                    == old(self).buf@[j],
    {
        let part = vstd::slice::slice_subrange(data, from, to);
        convert_pcm16_to_f32_at(part, self.buf.as_mut_slice(), at);
        proof {
            assert forall|j: int| 0 <= j < to - from implies self.buf@[at + j] == f32_bits(
                #[trigger] data@[from + j],
            ) by {
                assert(self.buf@.subrange(at as int, at + part@.len())[j] == f32_bits_seq(part@)[j]);
            }
        }
    }

    /// Converts `data[..cnt]` into the slots from the write cursor on, in
    /// one piece or in two around the end of storage.
    fn store_wrapped(&mut self, data: &[i16], cnt: usize)
        requires
            cnt <= data@.len(),
            cnt < old(self).buf@.len(),
            old(self).write_pos < old(self).buf@.len(),
        ensures
            final(self).buf@.len() == old(self).buf@.len(),
            final(self).read_pos == old(self).read_pos,
            final(self).write_pos == old(self).write_pos,
            final(self).global_pos == old(self).global_pos,
            final(self).closed == old(self).closed,
            final(self).stream@ == old(self).stream@,
            forall|j: int|
                0 <= j < old(self).buf@.len() ==> #[trigger] final(self).buf@[j] == (if ahead(
                    j,
                    old(self).write_pos as int,
                    old(self).buf@.len() as int,
                ) < cnt {
                    f32_bits(
                        data@[ahead(j, old(self).write_pos as int, old(self).buf@.len() as int)],
                    )
                } else {
                    old(self).buf@[j]
                }),
    {
        let buf_len: usize = self.buf.len();
        let wr_pos: usize = self.write_pos;
        if cnt < buf_len - wr_pos {
            self.store(data, 0, cnt, wr_pos);
            proof {
                assert forall|j: int| 0 <= j < buf_len implies #[trigger] self.buf@[j] == (if ahead(
                    j,
                    wr_pos as int,
                    buf_len as int,
                ) < cnt {
                    f32_bits(data@[ahead(j, wr_pos as int, buf_len as int)])
                } else {
                    old(self).buf@[j]
                }) by {
                    let k = ahead(j, wr_pos as int, buf_len as int);
                    if k < cnt {
                        assert(self.buf@[wr_pos + k] == f32_bits(data@[0 + k]));
                    }
                }
            }
        } else {
            let d: usize = buf_len - wr_pos;
            self.store(data, 0, d, wr_pos);
            let ghost mid = self.buf@;
            self.store(data, d, cnt, 0);
            proof {
                assert forall|j: int| 0 <= j < buf_len implies #[trigger] self.buf@[j] == (if ahead(
                    j,
                    wr_pos as int,
                    buf_len as int,
                ) < cnt {
                    f32_bits(data@[ahead(j, wr_pos as int, buf_len as int)])
                } else {
                    old(self).buf@[j]
                }) by {
                    let k = ahead(j, wr_pos as int, buf_len as int);
                    if k < d {
                        assert(mid[wr_pos + k] == f32_bits(data@[0 + k]));
                    } else if k < cnt {
                        assert(self.buf@[0 + (k - d)] == f32_bits(data@[d + (k - d)]));
                    }
                }
            }
        }
    }

    /// A write of `cnt` samples, as the body of the write makes it, is the
    /// write of the model.
    proof fn lemma_wrote(pre: SpscRb, post: SpscRb, data: Seq<i16>, cnt: int)
        requires
            pre.wf(),
            cnt == pre@.accepted(data.len()),
            post.buf@.len() == pre.buf@.len(),
            post.read_pos == pre.read_pos,
            post.global_pos == pre.global_pos,
            post.closed == pre.closed,
            post.stream@ == pre.stream@ + data.take(cnt),
            post.write_pos == slot(pre.write_pos as int, cnt, pre.buf@.len() as int),
            forall|j: int|
                0 <= j < pre.buf@.len() ==> #[trigger] post.buf@[j] == (if ahead(
                    j,
                    pre.write_pos as int,
                    pre.buf@.len() as int,
                ) < cnt {
                    f32_bits(data[ahead(j, pre.write_pos as int, pre.buf@.len() as int)])
                } else {
                    pre.buf@[j]
                }),
        ensures
            post.wf(),
            post@ == pre@.written(data),
            samples_stored(pre@, data, post@),
    {
        let size = pre.buf@.len() as int;
        let base = pre.read_pos as int;
        let wr_pos = pre.write_pos as int;
        let held = pre.stream@;
        lemma_slot_is_mod(base, pre@.count() as int, size);
        assert(post.buf@ =~= pre@.written(data).storage) by {
            assert forall|j: int| 0 <= j < size implies post.buf@[j] == pre@.written(
                data,
            ).storage[j] by {
                lemma_ahead_is_mod(j, wr_pos, size);
            }
        }
        assert(post.holds_stream()) by {
            assert forall|p: int| post.global_pos <= p < post.stream@.len() implies post.buf@[slot(
                base,
                p - post.global_pos,
                size,
            )] == f32_bits(#[trigger] post.stream@[p]) by {
                let at = slot(base, p - post.global_pos, size);
                if p < held.len() {
                    assert(pre.buf@[at] == f32_bits(held[p]));
                    assert(ahead(at, wr_pos, size) >= cnt);
                } else {
                    assert(ahead(at, wr_pos, size) == p - held.len());
                }
            }
        }
        pre.lemma_view_wf();
        lemma_written_storage(pre@, data);
    }

    /// Hands out the `len` samples from `pos` on.
    fn take_window(&self, pos: usize, len: usize, data: &mut [u32]) -> (range: SampleRange<'_>)
        requires
            self.wf(),
            self@.peek_allowed(pos as nat),
            self@.available(pos as nat) >= len,
            self@.is_adjacent(pos as nat, len as nat) || len <= old(data)@.len(),
        ensures
            window_delivered(self@, pos as nat, len as nat, range, old(data)@, final(data)@),
    {
        let buf_len: usize = self.buf.len();
        let offset: usize = pos - self.global_pos;
        let start: usize = self.advance(self.read_pos, offset);
        proof {
            lemma_slot_is_mod(self.read_pos as int, offset as int, buf_len as int);
        }
        if len < buf_len - start {
            let window = vstd::slice::slice_subrange(self.buf.as_slice(), start, start + len);
            proof {
                assert(window@ =~= self@.window(pos as nat, len as nat));
            }
            SampleRange::Adjacent(window)
        } else {
            let d: usize = buf_len - start;
            let room: usize = data.len();
            let mut i: usize = 0;
            while i < d
                invariant
                    i <= d <= len <= room,
                    d == buf_len - start,
                    buf_len == self.buf@.len(),
                    room == data@.len() == old(data)@.len(),
                    forall|j: int| 0 <= j < i ==> data@[j] == self.buf@[start + j],
                    forall|j: int| len <= j < room ==> data@[j] == old(data)@[j],
                decreases d - i,
            {
                data[i] = self.buf[start + i];
                i += 1;
            }
            while i < len
                invariant
                    d <= i <= len <= room,
                    d == buf_len - start,
                    len - d < buf_len,
                    buf_len == self.buf@.len(),
                    room == data@.len() == old(data)@.len(),
                    forall|j: int| 0 <= j < d ==> data@[j] == self.buf@[start + j],
                    forall|j: int| d <= j < i ==> data@[j] == self.buf@[j - d],
                    forall|j: int| len <= j < room ==> data@[j] == old(data)@[j],
                decreases len - i,
            {
                data[i] = self.buf[i - d];
                i += 1;
            }
            proof {
                assert(data@.take(len as int) =~= self@.window(pos as nat, len as nat));
                assert(data@.skip(len as int) =~= old(data)@.skip(len as int));
            }
            SampleRange::NonAdjacent(len)
        }
    }
}

/// The text of `format!("[{}]: read_pos: {}, write_pos: {}, slots_free: {}, count: {}", ..)`
/// for these five arguments.
pub uninterp spec fn state_text(
    owner: Seq<char>,
    read_pos: usize,
    write_pos: usize,
    slots_free: usize,
    count: usize,
) -> Seq<char>;

/// Calls `format!` of std with the fixed pattern of the state line. The
/// contract gives the text a name and claims nothing more of it.
#[verifier::external_body]
fn state_line(
    owner: &str,
    read_pos: usize,
    write_pos: usize,
    slots_free: usize,
    count: usize,
) -> (line: String)
    ensures
        line@ == state_text(owner@, read_pos, write_pos, slots_free, count),
{
    format!(
        "[{}]: read_pos: {}, write_pos: {}, slots_free: {}, count: {}",
        owner, read_pos, write_pos, slots_free, count
    )
}

impl RbProducer for SpscRb {
    fn write_blocking(&mut self, data: &[i16]) -> (r: Blocking<
        Result<Option<usize>, RbError<'static>>,
    >) {
        self.write_blocking_timeout(data, false)
    }

    fn write_blocking_timeout(&mut self, data: &[i16], expired: bool) -> (r: Blocking<
        Result<Option<usize>, RbError<'static>>,
    >) {
        if data.len() == 0 {
            return Blocking::Ready(Ok(None));
        }
        if self.closed {
            return Blocking::Ready(Err(RbError::EOF(SampleRange::EofEmpty)));
        }
        if self.is_full() {
            if expired {
                return Blocking::Ready(Err(RbError::TimedOut));
            }
            return Blocking::Wait;
        }
        let buf_len: usize = self.buf.len();
        let data_len: usize = data.len();
        let wr_pos: usize = self.write_pos;
        let free: usize = self.slots_free();
        let cnt: usize = if data_len < free {
            data_len
        } else {
            free
        };
        self.store_wrapped(data, cnt);
        self.write_pos = self.advance(wr_pos, cnt);
        proof {
            self.stream@ = self.stream@ + data@.take(cnt as int);
            Self::lemma_wrote(*old(self), *self, data@, cnt as int);
        }
        Blocking::Ready(Ok(Some(cnt)))
    }

    fn write_ext_blocking(&mut self, data: &[i16], pos: &mut usize) -> (r: Blocking<
        Result<(), RbError<'static>>,
    >) {
        let buf_len: usize = data.len();
        let ghost rest = data@.skip(*pos as int);
        proof {
            self.lemma_view_wf();
            lemma_written_storage(self@, rest);
        }
        loop
            invariant
                self.wf(),
                samples_stored(old(self)@, rest, old(self)@.written(rest)),
                old(self)@.accepted(rest.len()) == 0 ==> old(self)@.written(rest) == old(self)@,
                buf_len == data@.len(),
                *pos <= buf_len,
                rest == data@.skip(*old(pos) as int),
                (self@ == old(self)@ && *pos == *old(pos)) || (self@ == old(self)@.written(rest)
                    && *pos == *old(pos) + old(self)@.accepted(rest.len()) && *pos < buf_len
                    && !old(self)@.closed && self@.is_full()),
            decreases buf_len - *pos,
        {
            let part = vstd::slice::slice_subrange(data, *pos, buf_len);
            match self.write_blocking(part) {
                Blocking::Ready(Ok(Some(written))) => {
                    *pos += written;
                    if *pos == buf_len {
                        return Blocking::Ready(Ok(()));
                    }
                },
                Blocking::Ready(Ok(None)) => {
                    return Blocking::Ready(Ok(()));
                },
                Blocking::Ready(Err(e)) => {
                    return Blocking::Ready(Err(e));
                },
                _ => {
                    return Blocking::Wait;
                },
            }
        }
    }

    fn close(&mut self) {
        self.closed = true;
    }
}

impl RbConsumer for SpscRb {
    fn peek_ext(&self, pos: usize, data: &mut [u32]) -> (r: Result<
        SampleRange<'_>,
        RbError<'_>,
    >) {
        let re_pos_offset: usize = pos - self.global_pos;
        let count: usize = self.count();
        let mut req_cnt: usize = data.len();
        let mut is_tail_partial = false;
        if re_pos_offset > count || count - re_pos_offset < req_cnt {
            if self.closed {
                if re_pos_offset >= count {
                    return Err(RbError::EOF(SampleRange::EofEmpty));
                }
                is_tail_partial = true;
                req_cnt = count - re_pos_offset;
            } else {
                return Err(RbError::Again);
            }
        }
        let range = self.take_window(pos, req_cnt, data);
        if !is_tail_partial {
            Ok(range)
        } else {
            Err(RbError::EOF(range))
        }
    }

    fn peek_blocking(&self, pos: usize, data: &mut [u32]) -> (r: Blocking<
        Result<SampleRange<'_>, RbError<'_>>,
    >) {
        match self.peek_ext(pos, data) {
            Ok(sr) => Blocking::Ready(Ok(sr)),
            Err(RbError::Again) => Blocking::Retry,
            Err(RbError::EOF(sr)) => Blocking::Ready(Err(RbError::EOF(sr))),
            _ => Blocking::Wait,
        }
    }

    fn peek_time_range(&self, start: usize, end: usize, data: &mut [u32]) -> (r: Result<
        SampleRange<'_>,
        RbError<'_>,
    >) {
        let start_pos: usize = start * SAMPLES_PER_UNIT;
        let end_pos: usize = end * SAMPLES_PER_UNIT;
        let req_cnt: usize = end_pos - start_pos;
        Ok(self.take_window(start_pos, req_cnt, data))
    }

    fn commit_read(&mut self, to_pos: usize) {
        let cnt: usize = to_pos - self.global_pos;
        proof {
            lemma_slot_is_mod(self.read_pos as int, cnt as int, self.buf@.len() as int);
        }
        self.read_pos = self.advance(self.read_pos, cnt);
        self.global_pos = to_pos;
    }
}

impl RB for SpscRb {
    fn clear(&mut self) {
        let n: usize = self.buf.len();
        let mut i: usize = 0;
        while i < n
            invariant
                i <= n,
                n == self.buf@.len(),
                n == old(self).buf@.len(),
                self.read_pos == old(self).read_pos,
                self.write_pos == old(self).write_pos,
                self.global_pos == old(self).global_pos,
                self.closed == old(self).closed,
                self.stream@ == old(self).stream@,
                forall|j: int| 0 <= j < i ==> self.buf@[j] == 0u32,
            decreases n - i,
        {
            self.buf[i] = 0;
            i += 1;
        }
        self.read_pos = 0;
        self.write_pos = 0;
        proof {
            self.stream@ = self.stream@.take(self.global_pos as int);
            assert(self.buf@ =~= old(self)@.cleared().storage);
        }
    }
}

impl RbInspector for SpscRb {
    closed spec fn wf(&self) -> bool {
        &&& self.buf@.len() >= 1
        &&& self@.bounded()
        &&& self.write_pos == slot(
            self.read_pos as int,
            self@.count() as int,
            self.buf@.len() as int,
        )
        &&& self.holds_stream()
    }

    proof fn lemma_view_wf(&self) {
        let v = self@;
        assert forall|p: int| v.global_pos <= p < v.stream.len() implies v.storage[v.slot_of(
            p as nat,
        ) as int] == f32_bits(#[trigger] v.stream[p]) by {
            lemma_slot_is_mod(self.read_pos as int, p - self.global_pos, self.buf@.len() as int);
        }
    }

    fn is_empty(&self) -> (r: bool) {
        self.slots_free() == self.capacity()
    }

    fn is_full(&self) -> (r: bool) {
        self.slots_free() == 0
    }

    fn capacity(&self) -> (r: usize) {
        self.buf.len() - 1
    }

    fn slots_free(&self) -> (r: usize) {
        let wr_pos: usize = self.write_pos;
        let re_pos: usize = self.read_pos;
        if wr_pos < re_pos {
            re_pos - wr_pos - 1
        } else {
            self.capacity() - wr_pos + re_pos
        }
    }

    fn count(&self) -> (r: usize) {
        self.capacity() - self.slots_free()
    }

    fn is_closed(&self) -> (r: bool) {
        self.closed
    }

    fn close(&mut self) {
        self.closed = true;
    }
}

} // verus!

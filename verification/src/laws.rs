//! Laws of the ring buffer, stated over its model and proved.

use crate::convert::{f32_bits, f32_is_finite, f32_magnitude, f32_sign, lemma_f32_bits_value, magnitude};
use crate::model::RingView;
use crate::rb::{window_delivered, write_result, Blocking, RbError, SampleRange};
use vstd::arithmetic::div_mod::{lemma_mod_multiples_vanish, lemma_small_mod};
use vstd::arithmetic::power2::pow2;
use vstd::prelude::*;

verus! {

/// A sum or a difference of two slot indices is brought back to a slot index
/// by adding or taking the number of slots at most once.
proof fn lemma_mod_once(x: int, size: int)
    requires
        size > 0,
        -size <= x < 2 * size,
    ensures
        x % size == (if x < 0 {
            x + size
        } else if x < size {
            x
        } else {
            x - size
        }),
{
    if x < 0 {
        lemma_small_mod((x + size) as nat, size as nat);
        lemma_mod_multiples_vanish(-1, x + size, size);
    } else if x < size {
        lemma_small_mod(x as nat, size as nat);
    } else {
        lemma_small_mod((x - size) as nat, size as nat);
        lemma_mod_multiples_vanish(1, x - size, size);
    }
}

/// The cursors of a well-formed buffer wrap at most once: a slot index is the
/// plain sum where that is a slot, and the sum less the number of slots
/// where it is not.
pub proof fn lemma_cursors(v: RingView, pos: nat)
    requires
        v.wf(),
        v.global_pos <= pos <= v.end_pos(),
    ensures
        v.slot_of(pos) == (if v.read_pos + (pos - v.global_pos) < v.size() {
            v.read_pos + (pos - v.global_pos)
        } else {
            v.read_pos + (pos - v.global_pos) - v.size()
        }),
        v.slot_of(pos) <= v.capacity,
        v.write_pos() == v.slot_of(v.end_pos()),
{
    let size = v.size() as int;
    let sum = v.read_pos + (pos - v.global_pos);
    if sum < size {
        lemma_small_mod(sum as nat, size as nat);
    } else {
        lemma_small_mod((sum - size) as nat, size as nat);
        lemma_mod_multiples_vanish(1, sum - size, size);
    }
}

/// The number of free slots, told from the two cursors.
pub proof fn lemma_slots_free_by_cursors(v: RingView)
    requires
        v.wf(),
    ensures
        v.slots_free() == (if v.write_pos() < v.read_pos {
            v.read_pos - v.write_pos() - 1
        } else {
            v.capacity - v.write_pos() + v.read_pos
        }),
{
    lemma_cursors(v, v.end_pos());
}

/// The samples at hand and the free slots add up to the capacity, and a
/// buffer that can hold a sample at all is never full and empty at once.
pub proof fn lemma_count_and_free(v: RingView)
    requires
        v.wf(),
    ensures
        v.count() + v.slots_free() == v.capacity,
        v.capacity > 0 ==> !(v.is_full() && v.is_empty()),
        v.is_empty() <==> v.count() == 0,
        v.is_full() <==> v.count() == v.capacity,
{
}

/// Writing, committing, closing and clearing keep a buffer well-formed and
/// its capacity as it is, and a new buffer is well-formed.
pub proof fn lemma_steps_keep_wf(v: RingView, data: Seq<i16>, to_pos: nat)
    requires
        v.wf(),
    ensures
        RingView::empty(v.capacity).wf(),
        v.written(data).wf() && v.written(data).capacity == v.capacity,
        v.commit_allowed(to_pos) ==> v.committed(to_pos).wf() && v.committed(to_pos).capacity
            == v.capacity,
        v.shut().wf() && v.shut().capacity == v.capacity,
        v.cleared().wf() && v.cleared().capacity == v.capacity,
{
    let size = v.size() as int;
    let w = v.written(data);
    let n = v.accepted(data.len());
    assert forall|p: int| w.global_pos <= p < w.stream.len() implies w.storage[w.slot_of(
        p as nat,
    ) as int] == f32_bits(#[trigger] w.stream[p]) by {
        let at = v.slot_of(p as nat) as int;
        lemma_mod_once(v.read_pos + (p - v.global_pos), size);
        lemma_mod_once((v.read_pos + v.count()) as int, size);
        lemma_mod_once(at - v.write_pos(), size);
        if p < v.stream.len() {
            assert(v.storage[at] == f32_bits(v.stream[p]));
            assert(v.ahead_of_write(at) >= n);
        } else {
            assert(v.ahead_of_write(at) == p - v.stream.len());
        }
    }
    if v.commit_allowed(to_pos) {
        lemma_cursors(v, to_pos);
        let c = v.committed(to_pos);
        assert forall|p: int| c.global_pos <= p < c.stream.len() implies c.storage[c.slot_of(
            p as nat,
        ) as int] == f32_bits(#[trigger] c.stream[p]) by {
            lemma_mod_once(v.read_pos + (to_pos - v.global_pos), size);
            lemma_mod_once(v.read_pos + (p - v.global_pos), size);
            lemma_mod_once(c.read_pos + (p - to_pos), size);
            assert(c.slot_of(p as nat) == v.slot_of(p as nat));
            assert(v.storage[v.slot_of(p as nat) as int] == f32_bits(v.stream[p]));
        }
    }
}

/// Where a write puts its samples: sample `k` of those accepted is in the
/// slot `k` places after the write cursor, modulo the number of slots, as its
/// float; the number of slots is kept and every other slot is as it was.
pub proof fn lemma_written_storage(v: RingView, data: Seq<i16>)
    requires
        v.wf(),
    ensures
        v.written(data).storage.len() == v.storage.len(),
        forall|k: int|
            0 <= k < v.accepted(data.len()) ==> 0 <= v.write_slot(k) < v.storage.len()
                && v.written(data).storage[v.write_slot(k)] == f32_bits(#[trigger] data[k]),
        forall|j: int|
            0 <= j < v.storage.len() && (forall|k: int|
                0 <= k < v.accepted(data.len()) ==> j != #[trigger] v.write_slot(k))
                ==> #[trigger] v.written(data).storage[j] == v.storage[j],
        v.accepted(data.len()) == 0 ==> v.written(data) == v,
{
    let size = v.size() as int;
    let n = v.accepted(data.len());
    let w = v.written(data);
    lemma_mod_once((v.read_pos + v.count()) as int, size);
    assert forall|k: int| 0 <= k < n implies 0 <= v.write_slot(k) < v.storage.len()
        && w.storage[v.write_slot(k)] == f32_bits(#[trigger] data[k]) by {
        lemma_mod_once(v.write_pos() + k, size);
        lemma_mod_once(v.write_slot(k) - v.write_pos(), size);
    }
    assert forall|j: int|
        0 <= j < v.storage.len() && (forall|k: int|
            0 <= k < n ==> j != #[trigger] v.write_slot(k)) implies #[trigger] w.storage[j]
        == v.storage[j] by {
        let a = v.ahead_of_write(j);
        lemma_mod_once(j - v.write_pos(), size);
        lemma_mod_once(v.write_pos() + a, size);
        if a < n {
            assert(j == v.write_slot(a));
        }
    }
    if n == 0 {
        assert(w.stream =~= v.stream);
        assert forall|j: int| 0 <= j < v.storage.len() implies w.storage[j] == v.storage[j] by {
            lemma_mod_once(j - v.write_pos(), size);
        }
        assert(w.storage =~= v.storage);
    }
}

/// The buffer does not tell how its input was batched: two writes that both
/// fit leave what one write of the two inputs in a row leaves, storage
/// included.
pub proof fn lemma_write_in_batches(v: RingView, a: Seq<i16>, b: Seq<i16>)
    requires
        v.wf(),
        a.len() + b.len() <= v.slots_free(),
    ensures
        v.written(a + b) == v.written(a).written(b),
{
    let size = v.size() as int;
    let whole = v.written(a + b);
    let first = v.written(a);
    let both = first.written(b);
    assert((a + b).take((a + b).len() as int) =~= a + b);
    assert(a.take(a.len() as int) =~= a);
    assert(b.take(b.len() as int) =~= b);
    assert(whole.stream =~= both.stream);
    lemma_mod_once((v.read_pos + v.count()) as int, size);
    lemma_mod_once((first.read_pos + first.count()) as int, size);
    assert forall|j: int| 0 <= j < v.storage.len() implies whole.storage[j] == both.storage[j] by {
        lemma_mod_once(j - v.write_pos(), size);
        lemma_mod_once(j - first.write_pos(), size);
    }
    assert(whole.storage =~= both.storage);
}

/// An adjacent window is the piece of storage that holds it: the slots from
/// the slot of the first sample on hold the floats of the samples asked for.
pub proof fn lemma_piece_is_window(v: RingView, pos: nat, len: nat)
    requires
        v.wf(),
        v.peek_allowed(pos),
        v.available(pos) >= len,
        v.is_adjacent(pos, len),
    ensures
        v.piece(pos, len) == v.window(pos, len),
{
    let size = v.size() as int;
    assert forall|i: int| 0 <= i < len implies v.piece(pos, len)[i] == v.window(pos, len)[i] by {
        lemma_mod_once(v.read_pos + (pos - v.global_pos), size);
        lemma_mod_once(v.read_pos + (pos + i - v.global_pos), size);
        assert(v.slot_of((pos + i) as nat) == v.slot_of(pos) + i);
        assert(v.storage[v.slot_of((pos + i) as nat) as int] == f32_bits(v.stream[pos + i]));
    }
    assert(v.piece(pos, len) =~= v.window(pos, len));
}

/// `later` holds every sample of `earlier` at the position it had there:
/// this is what writes and commits, in any order, leave of a buffer.
pub open spec fn extends(earlier: RingView, later: RingView) -> bool {
    &&& earlier.stream.len() <= later.stream.len()
    &&& later.stream.take(earlier.stream.len() as int) == earlier.stream
    &&& earlier.global_pos <= later.global_pos
}

/// A write or a commit leaves a buffer that extends the one before, and so
/// does any chain of them.
pub proof fn lemma_extends(a: RingView, b: RingView, c: RingView, data: Seq<i16>, to_pos: nat)
    requires
        a.wf(),
    ensures
        extends(a, a),
        extends(a, a.written(data)),
        a.commit_allowed(to_pos) ==> extends(a, a.committed(to_pos)),
        extends(a, b) && extends(b, c) ==> extends(a, c),
{
    assert(a.stream.take(a.stream.len() as int) =~= a.stream);
    assert(a.written(data).stream.take(a.stream.len() as int) =~= a.stream);
    if extends(a, b) && extends(b, c) {
        assert(c.stream.take(a.stream.len() as int) =~= c.stream.take(b.stream.len() as int).take(
            a.stream.len() as int,
        ));
    }
}

/// What was written is what is read. After a write of `data` to the buffer
/// `pre`, in every buffer `later` that writes and commits lead to, a window
/// holds at each position that the write filled the float of the sample
/// written there: the sample divided by 32768. The window is the same
/// whether a peek hands it out in place or copies it.
pub proof fn lemma_read_back(
    pre: RingView,
    data: Seq<i16>,
    later: RingView,
    pos: nat,
    len: nat,
    i: int,
)
    requires
        pre.wf(),
        extends(pre.written(data), later),
        later.available(pos) >= len,
        0 <= i < len,
        pre.end_pos() <= pos + i < pre.end_pos() + pre.accepted(data.len()),
    ensures
        later.window(pos, len)[i] == f32_bits(data[pos + i - pre.end_pos()]),
        f32_is_finite(later.window(pos, len)[i]),
        f32_sign(later.window(pos, len)[i]) == (data[pos + i - pre.end_pos()] < 0),
        f32_magnitude(later.window(pos, len)[i]) == magnitude(data[pos + i - pre.end_pos()]) * pow2(
            134,
        ),
{
    let mid = pre.written(data);
    let p = pos + i;
    assert(later.stream[p] == later.stream.take(mid.stream.len() as int)[p]);
    assert(mid.stream[p] == data[p - pre.end_pos()]);
    lemma_f32_bits_value(data[p - pre.end_pos()]);
}

/// A window that a peek has delivered holds the floats of the samples asked
/// for, whichever way it was handed out.
pub proof fn lemma_window_samples(
    v: RingView,
    pos: nat,
    len: nat,
    range: SampleRange<'_>,
    before: Seq<u32>,
    after: Seq<u32>,
)
    requires
        v.available(pos) >= len,
        window_delivered(v, pos, len, range, before, after),
    ensures
        range.spec_len() == len,
        range.spec_samples(after) == v.window(pos, len),
        forall|i: int| 0 <= i < len ==> range.spec_samples(after)[i] == f32_bits(v.stream[pos + i]),
{
}

/// The sum of a sequence of counts.
pub open spec fn total(counts: Seq<nat>) -> nat
    decreases counts.len(),
{
    if counts.len() == 0 {
        0
    } else {
        counts[0] + total(counts.skip(1))
    }
}

/// The counts that successive writes return when `len` samples are written
/// in as many calls as it takes, each call offering what the calls before
/// left and meeting the buffer `rings[i]`. The calls end when nothing is
/// left.
pub open spec fn split_counts(len: nat, rings: Seq<RingView>) -> Seq<nat>
    decreases rings.len(),
{
    if rings.len() == 0 || len == 0 {
        Seq::empty()
    } else {
        seq![rings[0].accepted(len)] + split_counts(
            (len - rings[0].accepted(len)) as nat,
            rings.skip(1),
        )
    }
}

/// The number of samples that such a run of writes leaves unwritten.
pub open spec fn split_rest(len: nat, rings: Seq<RingView>) -> nat
    decreases rings.len(),
{
    if rings.len() == 0 || len == 0 {
        len
    } else {
        split_rest((len - rings[0].accepted(len)) as nat, rings.skip(1))
    }
}

/// A write that does not fit is split: the first call returns the free
/// slots, fewer than were offered, and the counts of all the calls and what
/// is left unwritten add up to the input length. So once nothing is left, the
/// counts add up to the input length.
pub proof fn lemma_split_write(len: nat, rings: Seq<RingView>)
    requires
        forall|i: int| 0 <= i < rings.len() ==> (#[trigger] rings[i]).wf(),
    ensures
        total(split_counts(len, rings)) + split_rest(len, rings) == len,
        split_rest(len, rings) == 0 ==> total(split_counts(len, rings)) == len,
        rings.len() > 0 && len > rings[0].slots_free() ==> split_counts(len, rings)[0]
            == rings[0].slots_free(),
    decreases rings.len(),
{
    if rings.len() == 0 || len == 0 {
        assert(total(Seq::<nat>::empty()) == 0);
    } else {
        let n = rings[0].accepted(len);
        let rest = (len - n) as nat;
        let tail = rings.skip(1);
        assert forall|i: int| 0 <= i < tail.len() implies (#[trigger] tail[i]).wf() by {
            assert(tail[i] == rings[i + 1]);
        }
        lemma_split_write(rest, tail);
        let counts = split_counts(len, rings);
        assert(counts.skip(1) =~= split_counts(rest, tail));
        assert(counts[0] == n);
    }
}

/// The end of a closed buffer. A peek that asks for more than the samples
/// left, where some are left, ends as `Tail` with exactly those. Once they
/// are committed every peek for at least one sample ends as `Drained`, and
/// no write changes that.
pub proof fn lemma_tail_then_drained(v: RingView, pos: nat, req: nat)
    requires
        v.wf(),
        v.closed,
        v.peek_allowed(pos),
        0 < v.available(pos) < req,
    ensures
        v.peek_kind(pos, req) is Tail,
        v.peek_len(pos, req) == v.available(pos),
        pos + v.peek_len(pos, req) == v.end_pos(),
        v.commit_allowed(v.end_pos()),
        forall|pos2: nat, req2: nat|
            v.committed(v.end_pos()).peek_allowed(pos2) && req2 > 0 ==> #[trigger] v.committed(
                v.end_pos(),
            ).peek_kind(pos2, req2) is Drained,
        forall|data: Seq<i16>, expired: bool, r: Blocking<Result<Option<usize>, RbError<'_>>>, post: RingView|
            #[trigger] write_result(v.committed(v.end_pos()), data, expired, r, post) ==> post
                == v.committed(v.end_pos()),
{
}

/// After a commit up to `to_pos` no peek before `to_pos` is allowed.
pub proof fn lemma_commit_forbids_earlier_peek(v: RingView, to_pos: nat, pos: nat)
    requires
        v.wf(),
        v.commit_allowed(to_pos),
        pos < to_pos,
    ensures
        !v.committed(to_pos).peek_allowed(pos),
        v.committed(to_pos).global_pos == to_pos,
{
}

} // verus!

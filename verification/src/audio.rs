//! From the bytes of a decoded audio frame to 16-bit samples.
//!
//! A frame holds its samples as two bytes each, in the byte order of the
//! machine that decoded it. The samples are read in place, so they come out
//! in that order too: low byte first on one machine, high byte first on
//! another.

use vstd::prelude::*;
use vstd::slice::slice_subrange;

verus! {

/// The sample with the low byte `lo` and the high byte `hi`, in two's
/// complement.
pub open spec fn sample_of(lo: u8, hi: u8) -> i16 {
    let unsigned = lo as int + 256 * (hi as int);
    if unsigned < 32768 {
        unsigned as i16
    } else {
        (unsigned - 65536) as i16
    }
}

/// The samples that `bytes` hold, two bytes each, low byte first. A byte
/// left over at the end is no sample.
pub open spec fn samples_low_first(bytes: Seq<u8>) -> Seq<i16> {
    Seq::new(bytes.len() / 2, |i: int| sample_of(bytes[2 * i], bytes[2 * i + 1]))
}

/// The samples that `bytes` hold, two bytes each, high byte first.
pub open spec fn samples_high_first(bytes: Seq<u8>) -> Seq<i16> {
    Seq::new(bytes.len() / 2, |i: int| sample_of(bytes[2 * i + 1], bytes[2 * i]))
}

/// Whether `samples` are what `bytes` hold in one of the two byte orders,
/// the same for all of them.
pub open spec fn samples_in_place(bytes: Seq<u8>, samples: Seq<i16>) -> bool {
    samples == samples_low_first(bytes) || samples == samples_high_first(bytes)
}

/// Why the samples of a frame could not be had.
#[derive(Debug, Clone, Copy, PartialEq, Eq)]
pub enum FrameError {
    /// The plane holds fewer bytes than the samples asked for need.
    ShortPlane,
    /// The plane is long enough, but its bytes cannot be read as samples
    /// where they lie: they do not start at an even address.
    Unaligned,
}

#[verifier::external_type_specification]
#[verifier::external_body]
pub struct ExPodCastError(bytemuck::PodCastError);

/// Calls `bytemuck::try_cast_slice` from bytes to 16-bit samples. The cast
/// fails where the address of the bytes is not even, and then where their
/// number is odd. Else it hands the same memory back as samples: half as many
/// as there are bytes, each made of its two bytes in the byte order of the
/// machine, which the contract leaves open.
#[verifier::external_body]
fn cast_samples(bytes: &[u8]) -> (r: Result<&[i16], bytemuck::PodCastError>)
    ensures
        r matches Ok(s) ==> 2 * s@.len() == bytes@.len() && samples_in_place(bytes@, s@),
        bytes@.len() % 2 != 0 ==> r is Err,
{
    bytemuck::try_cast_slice::<u8, i16>(bytes)
}

/// The first `samples` samples of a frame's data plane, read in place: each
/// is made of its two bytes of the plane, in the byte order of the machine.
///
/// Fails with `ShortPlane` exactly where the plane holds fewer than
/// `2 * samples` bytes. On a plane that is long enough the address of its
/// bytes decides: the samples come back, or the failure is `Unaligned`.
pub fn frame_samples(data: &[u8], samples: usize) -> (r: Result<&[i16], FrameError>)
    ensures
        match r {
            Ok(s) => {
                &&& 2 * samples <= data@.len()
                &&& s@.len() == samples
                &&& samples_in_place(data@.take(2 * samples), s@)
            },
            Err(FrameError::ShortPlane) => 2 * samples > data@.len(),
            Err(FrameError::Unaligned) => 2 * samples <= data@.len(),
        },
{
    if samples > data.len() / 2 {
        return Err(FrameError::ShortPlane);
    }
    let plane = slice_subrange(data, 0, samples * 2);
    assert(plane@ =~= data@.take(2 * samples));
    match cast_samples(plane) {
        Ok(s) => Ok(s),
        Err(_) => Err(FrameError::Unaligned),
    }
}

} // verus!

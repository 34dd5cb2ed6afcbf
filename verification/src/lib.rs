//! A fixed-capacity sample buffer between one producer of 16-bit PCM audio
//! and one consumer of normalized float windows, with the conversion from
//! the one to the other and the decisions of the two threads that share it.

pub mod audio;
pub mod convert;
pub mod laws;
pub mod model;
pub mod rb;

use crate::rb::{RbError, SampleRange};
use std::sync::mpsc::{SendError, SyncSender};
use vstd::prelude::*;

verus! {

/// The sample rate of the audio in the buffer, in samples per second.
pub const SAMPLE_RATE: usize = 16000;

/// The capacity of the buffer between the two threads: two minutes of audio.
pub const RING_CAPACITY: usize = 16000 * 120;

/// The number of samples in one frame of voice activity detection.
pub const VAD_FRAME_SIZE: usize = 16000;

/// The number of samples the consumer asks for in one peek: three frames.
pub const WINDOW_SIZE: usize = 16000 * 3;

/// The number of texts that the channel to the reporting side holds.
pub const TEXT_CHANNEL_CAPACITY: usize = 10;

#[verifier::external_type_specification]
#[verifier::external_body]
#[verifier::reject_recursive_types(T)]
pub struct ExSyncSender<T>(SyncSender<T>);

/// The sending end of the channel that carries recognized text outward.
pub struct SenderWrapper {
    sender: SyncSender<String>,
}

impl SenderWrapper {
    /// The channel end that the wrapper sends on.
    pub closed spec fn channel(&self) -> SyncSender<String> {
        self.sender
    }

    pub fn new(sender: SyncSender<String>) -> (wrapper: Self)
        ensures
            wrapper.channel() == sender,
    {
        Self { sender }
    }
}

/// Calls `SyncSender::send`, which blocks while the channel is full and
/// fails only where the receiving end is gone; the failure hands the value
/// back, and so does this.
#[verifier::external_body]
fn channel_send(sender: &SyncSender<String>, text: String) -> (r: Result<(), String>)
    ensures
        r matches Err(back) ==> back@ == text@,
{
    match sender.send(text) {
        Ok(()) => Ok(()),
        Err(SendError(back)) => Err(back),
    }
}

/// Sends `text` outward. Fails, with the text, where nobody receives any
/// more.
pub fn send_text(sender: &SenderWrapper, text: String) -> (r: Result<(), String>)
    ensures
        r matches Err(back) ==> back@ == text@,
{
    channel_send(&sender.sender, text)
}

/// What the consumer does after a peek that has ended.
#[derive(Debug, Clone, Copy, PartialEq, Eq)]
pub struct Progress {
    /// The number of samples in the window to hand to inference.
    pub samples: usize,
    /// Where to commit up to, and to peek next.
    pub next_pos: usize,
    /// Whether the window was the last one: the consumer stops.
    pub finished: bool,
}

/// The outcomes of a blocking peek that the consumer can go on from: a
/// window, or the end of the data with or without a last window.
pub open spec fn peek_expected(outcome: Result<SampleRange<'_>, RbError<'_>>) -> bool {
    match outcome {
        Ok(SampleRange::EofEmpty) => false,
        Ok(_) => true,
        Err(RbError::EOF(_)) => true,
        Err(_) => false,
    }
}

/// The number of samples that an outcome hands out.
pub open spec fn peek_samples(outcome: Result<SampleRange<'_>, RbError<'_>>) -> nat {
    match outcome {
        Ok(range) => range.spec_len(),
        Err(RbError::EOF(range)) => range.spec_len(),
        Err(_) => 0,
    }
}

/// Decides how the consumer goes on after a peek at `pos` has ended with
/// `outcome`: it hands the window to inference, commits it, and peeks behind
/// it next, unless the data has ended.
pub fn consumer_progress(
    pos: usize,
    outcome: &Result<SampleRange<'_>, RbError<'_>>,
) -> (step: Progress)
    requires
        peek_expected(*outcome),
        pos + peek_samples(*outcome) <= usize::MAX,
    ensures
        step.samples == peek_samples(*outcome),
        step.next_pos == pos + step.samples,
        step.finished == (*outcome is Err),
{
    match outcome {
        Ok(range) => {
            let samples: usize = range.len();
            Progress { samples, next_pos: pos + samples, finished: false }
        },
        Err(RbError::EOF(range)) => {
            let samples: usize = range.len();
            Progress { samples, next_pos: pos + samples, finished: true }
        },
        Err(_) => Progress { samples: 0, next_pos: pos, finished: true },
    }
}

} // verus!

use sample_ring::rb::{RbError, SampleRange};
use sample_ring::{
    consumer_progress, send_text, SenderWrapper, RING_CAPACITY, SAMPLE_RATE,
    TEXT_CHANNEL_CAPACITY, VAD_FRAME_SIZE, WINDOW_SIZE,
};
use std::sync::mpsc::sync_channel;

#[test]
fn send_text_delivers_in_order() {
    let (tx, rx) = sync_channel::<String>(TEXT_CHANNEL_CAPACITY);
    let sender = SenderWrapper::new(tx);
    assert_eq!(send_text(&sender, String::from("hello")), Ok(()));
    assert_eq!(send_text(&sender, String::from("world")), Ok(()));
    assert_eq!(rx.recv().unwrap(), "hello");
    assert_eq!(rx.recv().unwrap(), "world");
}

#[test]
fn send_text_hands_the_text_back_when_nobody_listens() {
    let (tx, rx) = sync_channel::<String>(1);
    let sender = SenderWrapper::new(tx);
    drop(rx);
    assert_eq!(send_text(&sender, String::from("lost")), Err(String::from("lost")));
}

#[test]
fn sizes() {
    assert_eq!(SAMPLE_RATE, 16000);
    assert_eq!(RING_CAPACITY, 1_920_000);
    assert_eq!(VAD_FRAME_SIZE, 16000);
    assert_eq!(WINDOW_SIZE, 48000);
    assert_eq!(TEXT_CHANNEL_CAPACITY, 10);
}

#[test]
fn progress_after_an_adjacent_window() {
    let storage = [0u32; 48];
    let step = consumer_progress(100, &Ok(SampleRange::Adjacent(&storage[..])));
    assert_eq!(step.samples, 48);
    assert_eq!(step.next_pos, 148);
    assert!(!step.finished);
}

#[test]
fn progress_after_a_copied_window() {
    let step = consumer_progress(7, &Ok(SampleRange::NonAdjacent(5)));
    assert_eq!(step.samples, 5);
    assert_eq!(step.next_pos, 12);
    assert!(!step.finished);
}

#[test]
fn progress_after_the_last_window() {
    let storage = [0u32; 3];
    let step = consumer_progress(9, &Err(RbError::EOF(SampleRange::Adjacent(&storage[..]))));
    assert_eq!(step.samples, 3);
    assert_eq!(step.next_pos, 12);
    assert!(step.finished);
    let step = consumer_progress(9, &Err(RbError::EOF(SampleRange::NonAdjacent(2))));
    assert_eq!(step.samples, 2);
    assert_eq!(step.next_pos, 11);
    assert!(step.finished);
}

#[test]
fn progress_after_the_end() {
    let step = consumer_progress(12, &Err(RbError::EOF(SampleRange::EofEmpty)));
    assert_eq!(step.samples, 0);
    assert_eq!(step.next_pos, 12);
    assert!(step.finished);
}

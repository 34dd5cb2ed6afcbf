use sample_ring::rb::{
    Blocking, RbConsumer, RbError, RbInspector, RbProducer, SampleRange, SpscRb, RB,
};

fn floats(bits: &[u32]) -> Vec<f32> {
    bits.iter().map(|b| f32::from_bits(*b)).collect()
}

fn normalized(samples: &[i16]) -> Vec<f32> {
    samples.iter().map(|x| *x as f32 / 32768.0).collect()
}

fn wrote(n: usize) -> Blocking<Result<Option<usize>, RbError<'static>>> {
    Blocking::Ready(Ok(Some(n)))
}

/// The samples of a window, whichever way it was handed out.
fn window(r: &SampleRange<'_>, data: &[u32]) -> Vec<f32> {
    floats(r.samples(data))
}

#[test]
fn new_buffer_is_open_and_empty() {
    let rb = SpscRb::new(1024);
    assert_eq!(rb.capacity(), 1024);
    assert_eq!(rb.count(), 0);
    assert_eq!(rb.slots_free(), 1024);
    assert_eq!(rb.global_pos(), 0);
    assert!(rb.is_empty());
    assert!(!rb.is_full());
    assert!(!rb.is_closed());
}

#[test]
fn sixteen_samples_fill_a_buffer_of_sixteen() {
    let mut rb = SpscRb::new(16);
    let data: Vec<i16> = (1..=16).collect();
    assert_eq!(rb.write_blocking(&data), wrote(16));
    assert!(rb.is_full());
    let mut buf = [0u32; 16];
    match rb.peek_ext(0, &mut buf) {
        Ok(SampleRange::Adjacent(s)) => {
            let expected: Vec<f32> = (1..=16).map(|x| x as f32 / 32768.0).collect();
            assert_eq!(floats(s), expected);
        }
        other => panic!("unexpected {:?}", other),
    }
    assert_eq!(buf, [0u32; 16]);
    rb.commit_read(16);
    RbProducer::close(&mut rb);
    let mut small = [0u32; 4];
    assert_eq!(rb.peek_ext(16, &mut small), Err(RbError::EOF(SampleRange::EofEmpty)));
}

#[test]
fn starved_peek_on_an_open_buffer_says_again() {
    let mut rb = SpscRb::new(10);
    assert_eq!(rb.write_blocking(&[1, 2, 3, 4, 5, 6, 7]), wrote(7));
    let mut buf = [0u32; 10];
    assert_eq!(rb.peek_ext(0, &mut buf), Err(RbError::Again));
    assert_eq!(buf, [0u32; 10]);
    assert_eq!(rb.count(), 7);
}

#[test]
fn empty_write_returns_none_and_touches_nothing() {
    let mut rb = SpscRb::new(4);
    assert_eq!(rb.write_blocking(&[]), Blocking::Ready(Ok(None)));
    assert_eq!(rb.count(), 0);
    RbProducer::close(&mut rb);
    assert_eq!(rb.write_blocking(&[]), Blocking::Ready(Ok(None)));
    assert_eq!(rb.write_blocking_timeout(&[], true), Blocking::Ready(Ok(None)));
}

#[test]
fn write_to_a_closed_buffer_is_rejected() {
    let mut rb = SpscRb::new(4);
    RbProducer::close(&mut rb);
    assert_eq!(
        rb.write_blocking(&[1, 2]),
        Blocking::Ready(Err(RbError::EOF(SampleRange::EofEmpty)))
    );
    assert_eq!(
        rb.write_blocking_timeout(&[1, 2], true),
        Blocking::Ready(Err(RbError::EOF(SampleRange::EofEmpty)))
    );
    assert_eq!(rb.count(), 0);
}

#[test]
fn write_to_a_full_buffer_waits_or_times_out() {
    let mut rb = SpscRb::new(3);
    assert_eq!(rb.write_blocking(&[1, 2, 3]), wrote(3));
    assert_eq!(rb.write_blocking(&[4]), Blocking::Wait);
    assert_eq!(rb.write_blocking_timeout(&[4], false), Blocking::Wait);
    assert_eq!(rb.write_blocking_timeout(&[4], true), Blocking::Ready(Err(RbError::TimedOut)));
    assert_eq!(rb.count(), 3);
    rb.commit_read(1);
    assert_eq!(rb.write_blocking_timeout(&[4, 5], true), wrote(1));
}

#[test]
fn a_full_buffer_stays_blocked_after_close_for_the_writer() {
    let mut rb = SpscRb::new(2);
    assert_eq!(rb.write_blocking(&[1, 2]), wrote(2));
    RbInspector::close(&mut rb);
    assert!(rb.is_closed());
    assert_eq!(
        rb.write_blocking(&[3]),
        Blocking::Ready(Err(RbError::EOF(SampleRange::EofEmpty)))
    );
}

#[test]
fn close_is_idempotent() {
    let mut rb = SpscRb::new(2);
    assert_eq!(rb.write_blocking(&[5]), wrote(1));
    RbProducer::close(&mut rb);
    RbProducer::close(&mut rb);
    RbInspector::close(&mut rb);
    assert!(rb.is_closed());
    assert_eq!(rb.count(), 1);
}

#[test]
fn a_write_larger_than_the_free_space_is_split() {
    let mut rb = SpscRb::new(16);
    let data: Vec<i16> = (0..40).collect();
    let mut pos = 0;
    let mut counts = Vec::new();
    let mut read = Vec::new();
    let mut buf = [0u32; 16];
    while pos < data.len() {
        match rb.write_blocking(&data[pos..]) {
            Blocking::Ready(Ok(Some(n))) => {
                counts.push(n);
                pos += n;
            }
            other => panic!("unexpected {:?}", other),
        }
        let at = rb.global_pos();
        let n = rb.count();
        let r = rb.peek_ext(at, &mut buf[..n]).unwrap();
        read.extend(window(&r, &buf));
        rb.commit_read(at + n);
    }
    assert_eq!(counts, vec![16, 16, 8]);
    assert_eq!(counts.iter().sum::<usize>(), data.len());
    assert_eq!(read, normalized(&data));
}

#[test]
fn write_ext_blocking_goes_on_where_it_stopped() {
    let mut rb = SpscRb::new(4);
    let data: [i16; 10] = [1, 2, 3, 4, 5, 6, 7, 8, 9, 10];
    let mut pos = 0;
    assert_eq!(rb.write_ext_blocking(&data, &mut pos), Blocking::Wait);
    assert_eq!(pos, 4);
    assert_eq!(rb.write_ext_blocking(&data, &mut pos), Blocking::Wait);
    assert_eq!(pos, 4);
    rb.commit_read(3);
    assert_eq!(rb.write_ext_blocking(&data, &mut pos), Blocking::Wait);
    assert_eq!(pos, 7);
    rb.commit_read(7);
    assert_eq!(rb.write_ext_blocking(&data, &mut pos), Blocking::Ready(Ok(())));
    assert_eq!(pos, 10);
    assert_eq!(rb.count(), 3);
    let mut buf = [0u32; 3];
    let r = rb.peek_ext(7, &mut buf).unwrap();
    assert_eq!(window(&r, &buf), normalized(&[8, 9, 10]));
}

#[test]
fn write_ext_blocking_that_fits_is_done_at_once() {
    let mut rb = SpscRb::new(8);
    let mut pos = 0;
    assert_eq!(rb.write_ext_blocking(&[1, 2, 3], &mut pos), Blocking::Ready(Ok(())));
    assert_eq!(pos, 3);
    assert_eq!(rb.count(), 3);
}

#[test]
fn write_ext_blocking_of_nothing_succeeds_even_when_closed() {
    let mut rb = SpscRb::new(8);
    RbProducer::close(&mut rb);
    let mut pos = 0;
    assert_eq!(rb.write_ext_blocking(&[], &mut pos), Blocking::Ready(Ok(())));
    assert_eq!(pos, 0);
}

#[test]
fn write_ext_blocking_fails_on_a_closed_buffer() {
    let mut rb = SpscRb::new(8);
    RbProducer::close(&mut rb);
    let mut pos = 0;
    assert_eq!(
        rb.write_ext_blocking(&[1, 2], &mut pos),
        Blocking::Ready(Err(RbError::EOF(SampleRange::EofEmpty)))
    );
    assert_eq!(pos, 0);
    assert_eq!(rb.count(), 0);
}

#[test]
fn a_window_that_reaches_the_end_of_storage_is_copied() {
    let mut rb = SpscRb::new(8);
    assert_eq!(rb.write_blocking(&[1, 2, 3, 4, 5, 6]), wrote(6));
    rb.commit_read(6);
    // Slots 6, 7, 8 and then 0, 1: the window wraps.
    assert_eq!(rb.write_blocking(&[7, 8, 9, 10, 11]), wrote(5));
    let mut buf = [0xffff_ffffu32; 5];
    assert_eq!(rb.peek_ext(6, &mut buf), Ok(SampleRange::NonAdjacent(5)));
    assert_eq!(floats(&buf), normalized(&[7, 8, 9, 10, 11]));
}

#[test]
fn a_window_that_ends_with_storage_is_copied_too() {
    let mut rb = SpscRb::new(8);
    assert_eq!(rb.write_blocking(&[1, 2, 3, 4, 5, 6]), wrote(6));
    rb.commit_read(6);
    assert_eq!(rb.write_blocking(&[7, 8, 9]), wrote(3));
    let mut two = [0u32; 2];
    match rb.peek_ext(6, &mut two) {
        Ok(SampleRange::Adjacent(s)) => assert_eq!(floats(s), normalized(&[7, 8])),
        other => panic!("unexpected {:?}", other),
    }
    let mut three = [0u32; 3];
    assert_eq!(rb.peek_ext(6, &mut three), Ok(SampleRange::NonAdjacent(3)));
    assert_eq!(floats(&three), normalized(&[7, 8, 9]));
}

#[test]
fn peek_does_not_consume() {
    let mut rb = SpscRb::new(8);
    assert_eq!(rb.write_blocking(&[100, 200, 300]), wrote(3));
    let mut buf = [0u32; 2];
    for _ in 0..3 {
        let r = rb.peek_ext(1, &mut buf).unwrap();
        assert_eq!(window(&r, &buf), normalized(&[200, 300]));
    }
    assert_eq!(rb.count(), 3);
    assert_eq!(rb.global_pos(), 0);
}

#[test]
fn peek_of_nothing_is_an_empty_window() {
    let rb = SpscRb::new(8);
    let mut buf: [u32; 0] = [];
    match rb.peek_ext(0, &mut buf) {
        Ok(SampleRange::Adjacent(s)) => assert_eq!(s.len(), 0),
        other => panic!("unexpected {:?}", other),
    }
}

#[test]
fn peek_beyond_the_data_is_starved() {
    let mut rb = SpscRb::new(8);
    assert_eq!(rb.write_blocking(&[1, 2]), wrote(2));
    let mut buf = [0u32; 1];
    assert_eq!(rb.peek_ext(5, &mut buf), Err(RbError::Again));
    RbProducer::close(&mut rb);
    assert_eq!(rb.peek_ext(5, &mut buf), Err(RbError::EOF(SampleRange::EofEmpty)));
}

#[test]
fn closed_buffer_gives_the_tail_once_and_then_the_empty_end() {
    let mut rb = SpscRb::new(16);
    assert_eq!(rb.write_blocking(&[1, 2, 3, 4, 5, 6, 7]), wrote(7));
    rb.commit_read(4);
    RbProducer::close(&mut rb);
    let mut buf = [0u32; 10];
    let end = match rb.peek_ext(4, &mut buf) {
        Err(RbError::EOF(SampleRange::Adjacent(s))) => {
            assert_eq!(floats(s), normalized(&[5, 6, 7]));
            4 + s.len()
        }
        other => panic!("unexpected {:?}", other),
    };
    rb.commit_read(end);
    for _ in 0..3 {
        assert_eq!(rb.peek_ext(end, &mut buf), Err(RbError::EOF(SampleRange::EofEmpty)));
    }
    assert_eq!(buf, [0u32; 10]);
}

#[test]
fn closed_buffer_gives_a_wrapped_tail_as_a_copy() {
    let mut rb = SpscRb::new(4);
    assert_eq!(rb.write_blocking(&[1, 2, 3, 4]), wrote(4));
    rb.commit_read(3);
    assert_eq!(rb.write_blocking(&[5, 6]), wrote(2));
    RbProducer::close(&mut rb);
    let mut buf = [0xaaaa_aaaau32; 6];
    assert_eq!(rb.peek_ext(3, &mut buf), Err(RbError::EOF(SampleRange::NonAdjacent(3))));
    assert_eq!(floats(&buf[..3]), normalized(&[4, 5, 6]));
    assert_eq!(&buf[3..], &[0xaaaa_aaaau32; 3]);
}

#[test]
fn closed_buffer_still_gives_whole_windows() {
    let mut rb = SpscRb::new(8);
    assert_eq!(rb.write_blocking(&[1, 2, 3, 4]), wrote(4));
    RbProducer::close(&mut rb);
    let mut buf = [0u32; 4];
    let r = rb.peek_ext(0, &mut buf).unwrap();
    assert_eq!(window(&r, &buf), normalized(&[1, 2, 3, 4]));
}

#[test]
fn peek_blocking_retries_while_starved() {
    let mut rb = SpscRb::new(8);
    let mut buf = [0u32; 3];
    assert_eq!(rb.peek_blocking(0, &mut buf), Blocking::Retry);
    assert_eq!(rb.write_blocking(&[1, 2]), wrote(2));
    assert_eq!(rb.peek_blocking(0, &mut buf), Blocking::Retry);
    assert_eq!(rb.write_blocking(&[3]), wrote(1));
    match rb.peek_blocking(0, &mut buf) {
        Blocking::Ready(Ok(SampleRange::Adjacent(s))) => {
            assert_eq!(floats(s), normalized(&[1, 2, 3]))
        }
        other => panic!("unexpected {:?}", other),
    }
}

#[test]
fn peek_blocking_ends_with_the_data() {
    let mut rb = SpscRb::new(8);
    assert_eq!(rb.write_blocking(&[1, 2]), wrote(2));
    RbProducer::close(&mut rb);
    let mut buf = [0u32; 3];
    match rb.peek_blocking(0, &mut buf) {
        Blocking::Ready(Err(RbError::EOF(SampleRange::Adjacent(s)))) => {
            assert_eq!(floats(s), normalized(&[1, 2]))
        }
        other => panic!("unexpected {:?}", other),
    }
    rb.commit_read(2);
    assert_eq!(
        rb.peek_blocking(2, &mut buf),
        Blocking::Ready(Err(RbError::EOF(SampleRange::EofEmpty)))
    );
}

#[test]
fn commit_frees_slots_and_moves_the_position() {
    let mut rb = SpscRb::new(5);
    assert_eq!(rb.write_blocking(&[1, 2, 3, 4, 5]), wrote(5));
    assert_eq!(rb.slots_free(), 0);
    rb.commit_read(2);
    assert_eq!(rb.global_pos(), 2);
    assert_eq!(rb.count(), 3);
    assert_eq!(rb.slots_free(), 2);
    rb.commit_read(2);
    assert_eq!(rb.count(), 3);
    rb.commit_read(5);
    assert!(rb.is_empty());
    assert_eq!(rb.global_pos(), 5);
}

#[test]
fn after_a_commit_earlier_positions_are_out_of_bounds() {
    let mut rb = SpscRb::new(8);
    assert_eq!(rb.write_blocking(&[1, 2, 3, 4, 5]), wrote(5));
    assert!(rb.can_peek(0));
    assert!(rb.can_peek(2));
    rb.commit_read(3);
    assert!(!rb.can_peek(0));
    assert!(!rb.can_peek(2));
    assert!(rb.can_peek(3));
    assert!(rb.can_peek(4));
}

#[test]
fn only_data_at_hand_can_be_committed() {
    let mut rb = SpscRb::new(8);
    assert_eq!(rb.write_blocking(&[1, 2, 3]), wrote(3));
    assert!(rb.can_commit(0));
    assert!(rb.can_commit(3));
    assert!(!rb.can_commit(4));
    rb.commit_read(2);
    assert!(!rb.can_commit(1));
    assert!(rb.can_commit(2));
    assert!(rb.can_commit(3));
    assert!(!rb.can_commit(usize::MAX));
}

#[test]
fn count_and_free_slots_add_up_to_the_capacity() {
    let mut rb = SpscRb::new(7);
    let mut written = 0usize;
    let mut committed = 0usize;
    let batch: [i16; 5] = [1, 2, 3, 4, 5];
    for round in 0..50 {
        if let Blocking::Ready(Ok(Some(n))) = rb.write_blocking(&batch[..1 + round % 5]) {
            written += n;
        }
        assert_eq!(rb.count() + rb.slots_free(), 7);
        assert_eq!(rb.count(), written - committed);
        assert!(!(rb.is_full() && rb.is_empty()));
        assert_eq!(rb.is_full(), rb.count() == 7);
        assert_eq!(rb.is_empty(), rb.count() == 0);
        let take = (round * 3) % (rb.count() + 1);
        committed += take;
        rb.commit_read(committed);
        assert_eq!(rb.count() + rb.slots_free(), 7);
        assert!(!(rb.is_full() && rb.is_empty()));
    }
    assert!(written > 7);
}

#[test]
fn a_buffer_of_no_capacity_is_full_and_empty() {
    let mut rb = SpscRb::new(0);
    assert!(rb.is_full());
    assert!(rb.is_empty());
    assert_eq!(rb.write_blocking(&[1]), Blocking::Wait);
    assert_eq!(rb.write_blocking_timeout(&[1], true), Blocking::Ready(Err(RbError::TimedOut)));
}

#[test]
fn what_is_written_is_what_is_read_around_the_ring() {
    let mut rb = SpscRb::new(13);
    let data: Vec<i16> = (0..500).map(|i| ((i * 7919) % 65536 - 32768) as i16).collect();
    let mut read = Vec::new();
    let mut pos = 0;
    let mut adjacent = 0;
    let mut copied = 0;
    let mut buf = [0u32; 5];
    while read.len() < data.len() {
        if let Blocking::Ready(Ok(Some(n))) = rb.write_blocking(&data[pos..]) {
            pos += n;
        }
        let at = rb.global_pos();
        let n = rb.count().min(5);
        match rb.peek_ext(at, &mut buf[..n]) {
            Ok(SampleRange::Adjacent(s)) => {
                adjacent += 1;
                read.extend(floats(s));
            }
            Ok(SampleRange::NonAdjacent(k)) => {
                copied += 1;
                read.extend(floats(&buf[..k]));
            }
            other => panic!("unexpected {:?}", other),
        }
        rb.commit_read(at + n);
    }
    assert_eq!(read, normalized(&data));
    assert!(adjacent > 0 && copied > 0);
}

#[test]
fn peek_time_range_counts_in_units_of_sixteen() {
    let mut rb = SpscRb::new(64);
    let data: Vec<i16> = (0..48).collect();
    assert_eq!(rb.write_blocking(&data), wrote(48));
    let mut buf = [0u32; 32];
    assert!(rb.can_peek_time_range(1, 3, 32));
    match rb.peek_time_range(1, 3, &mut buf) {
        Ok(SampleRange::Adjacent(s)) => assert_eq!(floats(s), normalized(&data[16..48])),
        other => panic!("unexpected {:?}", other),
    }
    match rb.peek_time_range(2, 2, &mut buf) {
        Ok(SampleRange::Adjacent(s)) => assert_eq!(s.len(), 0),
        other => panic!("unexpected {:?}", other),
    }
}

#[test]
fn peek_time_range_copies_a_wrapped_range() {
    let mut rb = SpscRb::new(40);
    let first: Vec<i16> = (0..32).collect();
    assert_eq!(rb.write_blocking(&first), wrote(32));
    rb.commit_read(32);
    let second: Vec<i16> = (32..64).collect();
    assert_eq!(rb.write_blocking(&second), wrote(32));
    let mut buf = [0u32; 40];
    assert_eq!(rb.peek_time_range(2, 4, &mut buf), Ok(SampleRange::NonAdjacent(32)));
    assert_eq!(floats(&buf[..32]), normalized(&second));
    assert_eq!(&buf[32..], &[0u32; 8]);
}

#[test]
fn peek_time_range_has_its_conditions() {
    let mut rb = SpscRb::new(40);
    let first: Vec<i16> = (0..32).collect();
    assert_eq!(rb.write_blocking(&first), wrote(32));
    assert!(rb.can_peek_time_range(0, 2, 0));
    assert!(rb.can_peek_time_range(0, 0, 0));
    assert!(!rb.can_peek_time_range(2, 1, 64));
    assert!(!rb.can_peek_time_range(0, 3, 64));
    assert!(!rb.can_peek_time_range(0, usize::MAX, 64));
    rb.commit_read(17);
    assert!(!rb.can_peek_time_range(1, 2, 64));
    rb.commit_read(32);
    let second: Vec<i16> = (32..64).collect();
    assert_eq!(rb.write_blocking(&second), wrote(32));
    assert!(rb.can_peek_time_range(2, 4, 32));
    assert!(!rb.can_peek_time_range(2, 4, 31));
    assert!(rb.can_peek_time_range(2, 2, 0));
}

#[test]
fn clear_empties_the_buffer() {
    let mut rb = SpscRb::new(6);
    assert_eq!(rb.write_blocking(&[1, 2, 3, 4]), wrote(4));
    rb.commit_read(1);
    rb.clear();
    assert!(rb.is_empty());
    assert_eq!(rb.count(), 0);
    assert_eq!(rb.slots_free(), 6);
    assert_eq!(rb.global_pos(), 1);
    assert!(!rb.is_closed());
    assert_eq!(rb.write_blocking(&[9, 8]), wrote(2));
    let mut buf = [0u32; 2];
    match rb.peek_ext(1, &mut buf) {
        Ok(SampleRange::Adjacent(s)) => assert_eq!(floats(s), normalized(&[9, 8])),
        other => panic!("unexpected {:?}", other),
    }
}

#[test]
fn clear_keeps_a_closed_buffer_closed() {
    let mut rb = SpscRb::new(6);
    RbProducer::close(&mut rb);
    rb.clear();
    assert!(rb.is_closed());
}

#[test]
fn show_state_tells_cursors_and_fill() {
    let mut rb = SpscRb::new(8);
    assert_eq!(rb.write_blocking(&[1, 2, 3]), wrote(3));
    assert_eq!(
        rb.show_state("producer"),
        "[producer]: read_pos: 0, write_pos: 3, slots_free: 5, count: 3"
    );
    rb.commit_read(2);
    assert_eq!(
        rb.show_state("consumer"),
        "[consumer]: read_pos: 2, write_pos: 3, slots_free: 7, count: 1"
    );
    assert_eq!(rb.write_blocking(&[4, 5, 6, 7, 8, 9, 10]), wrote(7));
    assert_eq!(
        rb.show_state("producer"),
        "[producer]: read_pos: 2, write_pos: 1, slots_free: 0, count: 8"
    );
}

#[test]
fn error_messages() {
    assert_eq!(RbError::Full.message(), "No free slots in the buffer");
    assert_eq!(RbError::Empty.message(), "Buffer is empty");
    assert_eq!(RbError::TimedOut.message(), "Timed out waiting for available slots");
    assert_eq!(RbError::Again.message(), "Try again");
    assert_eq!(RbError::EOF(SampleRange::EofEmpty).message(), "End of data");
    assert_eq!(RbError::EOF(SampleRange::NonAdjacent(3)).message(), "End of data");
}

#[test]
fn sample_range_samples() {
    let storage = [1u32, 2, 3];
    let copied = [7u32, 8, 9, 10];
    assert_eq!(SampleRange::Adjacent(&storage[..]).samples(&copied), &[1, 2, 3]);
    assert_eq!(SampleRange::NonAdjacent(2).samples(&copied), &[7, 8]);
    assert_eq!(SampleRange::NonAdjacent(0).samples(&copied).len(), 0);
    assert_eq!(SampleRange::EofEmpty.samples(&copied).len(), 0);
}

#[test]
fn sample_range_lengths() {
    let storage = [1u32, 2, 3];
    assert_eq!(SampleRange::Adjacent(&storage[..]).len(), 3);
    assert_eq!(SampleRange::NonAdjacent(9).len(), 9);
    assert_eq!(SampleRange::EofEmpty.len(), 0);
}

use gapbuffer::capacity::{round_up_slots, DEFAULT_CAPACITY, MIN_SLOTS};
use gapbuffer::GapBuffer;

#[test]
fn slot_counts_are_powers_of_two() {
    assert_eq!(MIN_SLOTS, 2);
    assert_eq!(round_up_slots(0), 2);
    assert_eq!(round_up_slots(1), 2);
    assert_eq!(round_up_slots(2), 2);
    assert_eq!(round_up_slots(3), 4);
    assert_eq!(round_up_slots(4), 4);
    assert_eq!(round_up_slots(5), 8);
    assert_eq!(round_up_slots(8), 8);
    assert_eq!(round_up_slots(9), 16);
    assert_eq!(round_up_slots(101), 128);
    assert_eq!(round_up_slots(1024), 1024);
    assert_eq!(round_up_slots(1025), 2048);
    assert_eq!(round_up_slots(usize::MAX / 2 + 1), usize::MAX / 2 + 1);
}

#[test]
fn capacity_is_one_less_than_the_slots() {
    assert_eq!(DEFAULT_CAPACITY, 7);
    assert_eq!(GapBuffer::<u8>::new().capacity(), 7);
    assert_eq!(GapBuffer::<u8>::with_capacity(0).capacity(), 1);
    assert_eq!(GapBuffer::<u8>::with_capacity(1).capacity(), 1);
    assert_eq!(GapBuffer::<u8>::with_capacity(2).capacity(), 3);
    assert_eq!(GapBuffer::<u8>::with_capacity(3).capacity(), 3);
    assert_eq!(GapBuffer::<u8>::with_capacity(4).capacity(), 7);
    assert_eq!(GapBuffer::<u8>::with_capacity(7).capacity(), 7);
    assert_eq!(GapBuffer::<u8>::with_capacity(8).capacity(), 15);
    assert_eq!(GapBuffer::<u8>::with_capacity(1000).capacity(), 1023);
}

#[test]
fn reserve_grows_only_when_needed() {
    let mut buffer: GapBuffer<usize> = GapBuffer::with_capacity(3);
    buffer.extend(0..2);
    assert_eq!(buffer.capacity(), 3);
    buffer.reserve(0);
    assert_eq!(buffer.capacity(), 3);
    buffer.reserve(1);
    assert_eq!(buffer.capacity(), 3);
    // Two elements and two more do not fit into three.
    buffer.reserve(2);
    assert_eq!(buffer.capacity(), 7);
    buffer.reserve(5);
    assert_eq!(buffer.capacity(), 7);
    buffer.reserve(6);
    assert_eq!(buffer.capacity(), 15);
    buffer.reserve(100);
    assert_eq!(buffer.capacity(), 127);
    assert_eq!(buffer.len(), 2);
    assert_eq!(buffer.get(0), Some(&0));
    assert_eq!(buffer.get(1), Some(&1));
}

#[test]
fn growth_keeps_elements_and_gap() {
    let mut buffer: GapBuffer<usize> = GapBuffer::with_capacity(7);
    buffer.extend(0..7);
    assert_eq!(buffer.shift(3), 4);
    buffer.reserve(1);
    assert_eq!(buffer.capacity(), 15);
    assert_eq!(buffer.gap_position(), 3);
    assert_eq!(buffer.len(), 7);
    for x in 0..7 {
        assert_eq!(buffer[x], x);
    }
    // The gap was not moved, so nothing moves now either.
    assert_eq!(buffer.shift(3), 0);
}

#[test]
fn insert_into_a_full_buffer_doubles_the_slots() {
    let mut buffer: GapBuffer<usize> = GapBuffer::with_capacity(1);
    assert_eq!(buffer.capacity(), 1);
    buffer.insert(0, 0);
    assert_eq!(buffer.capacity(), 1);
    buffer.insert(1, 1);
    assert_eq!(buffer.capacity(), 3);
    buffer.insert(2, 2);
    assert_eq!(buffer.capacity(), 3);
    buffer.insert(0, 3);
    assert_eq!(buffer.capacity(), 7);
    assert_eq!(buffer.len(), 4);
    assert_eq!(buffer[0], 3);
    assert_eq!(buffer[1], 0);
    assert_eq!(buffer[2], 1);
    assert_eq!(buffer[3], 2);
}

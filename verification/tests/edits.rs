use gapbuffer::GapBuffer;

fn contents(buffer: &GapBuffer<u32>) -> Vec<u32> {
    let mut out = Vec::new();
    let mut items = buffer.iter();
    while let Some(item) = items.next() {
        out.push(*item);
    }
    out
}

/// A small generator of numbers, so that the runs below are the same every time.
fn step(state: &mut u64) -> usize {
    *state = state.wrapping_mul(6364136223846793005).wrapping_add(1442695040888963407);
    (*state >> 33) as usize
}

#[test]
fn length_is_inserted_less_removed() {
    let mut buffer: GapBuffer<u32> = GapBuffer::new();
    let mut model: Vec<u32> = Vec::new();
    let mut state = 7u64;
    let mut inserted = 0usize;
    let mut removed = 0usize;
    for round in 0..2000u32 {
        let pick = step(&mut state);
        if pick % 3 != 0 {
            let at = step(&mut state) % (model.len() + 1);
            buffer.insert(at, round);
            model.insert(at, round);
            inserted += 1;
        } else {
            let at = step(&mut state) % (model.len() + 2);
            let expected = if at < model.len() { Some(model.remove(at)) } else { None };
            let got = buffer.remove(at);
            assert_eq!(got, expected);
            if got.is_some() {
                removed += 1;
            }
        }
        assert_eq!(buffer.len(), inserted - removed);
        assert!(buffer.len() <= buffer.capacity());
        assert!((buffer.capacity() + 1).is_power_of_two());
        assert!(buffer.gap_position() <= buffer.len());
    }
    assert_eq!(contents(&buffer), model);
}

#[test]
fn insert_keeps_the_order_of_the_others() {
    for len in 0..12u32 {
        for at in 0..=len as usize {
            for gap in 0..=len as usize {
                let mut buffer: GapBuffer<u32> = GapBuffer::new();
                buffer.extend(0..len);
                buffer.shift(gap);
                buffer.insert(at, 1000);
                assert_eq!(buffer.len(), len as usize + 1);
                assert_eq!(buffer.get(at), Some(&1000));
                for j in 0..at {
                    assert_eq!(buffer.get(j), Some(&(j as u32)));
                }
                for j in at..len as usize {
                    assert_eq!(buffer.get(j + 1), Some(&(j as u32)));
                }
                assert_eq!(buffer.gap_position(), at + 1);
            }
        }
    }
}

#[test]
fn remove_after_insert_restores_the_sequence() {
    for len in 0..12u32 {
        for at in 0..=len as usize {
            let mut buffer: GapBuffer<u32> = GapBuffer::new();
            buffer.extend(0..len);
            buffer.shift(len as usize / 2);
            let before = contents(&buffer);
            buffer.insert(at, 4242);
            assert_eq!(buffer.remove(at), Some(4242));
            assert_eq!(contents(&buffer), before);
        }
    }
}

#[test]
fn shift_moves_what_lies_between() {
    let mut buffer: GapBuffer<u32> = GapBuffer::new();
    buffer.extend(0..10);
    assert_eq!(buffer.gap_position(), 10);
    assert_eq!(buffer.shift(10), 0);
    assert_eq!(buffer.shift(4), 6);
    assert_eq!(buffer.gap_position(), 4);
    assert_eq!(buffer.shift(4), 0);
    assert_eq!(buffer.shift(9), 5);
    assert_eq!(buffer.shift(0), 9);
    assert_eq!(buffer.shift(1), 1);
    assert_eq!(buffer.gap_position(), 1);
    assert_eq!(contents(&buffer), (0..10).collect::<Vec<u32>>());
    assert_eq!(buffer.capacity(), 15);
}

#[test]
fn adjacent_insertions_move_few_elements() {
    // Insertions at 500, 501, ... into a thousand elements whose gap sits at the end.
    let mut buffer: GapBuffer<u32> = GapBuffer::new();
    buffer.extend(0..1000);
    let n = 5000usize;
    let mut moved = 0usize;
    for k in 0..n {
        moved += buffer.shift(500 + k);
        buffer.insert(500 + k, k as u32);
        assert_eq!(buffer.gap_position(), 500 + k + 1);
    }
    // Only the first insertion finds the gap elsewhere.
    assert_eq!(moved, 500);
    assert!(moved <= 1000 + 2 * n);
    assert_eq!(buffer.len(), 1000 + n);
    assert_eq!(buffer.get(499), Some(&499));
    assert_eq!(buffer.get(500), Some(&0));
    assert_eq!(buffer.get(500 + n - 1), Some(&(n as u32 - 1)));
    assert_eq!(buffer.get(500 + n), Some(&500));
}

#[test]
fn scattered_insertions_move_many_elements() {
    // The same number of insertions, alternating between the two ends, for comparison.
    let mut buffer: GapBuffer<u32> = GapBuffer::new();
    buffer.extend(0..1000);
    let mut moved = 0usize;
    for k in 0..100usize {
        let at = if k % 2 == 0 { 0 } else { buffer.len() };
        moved += buffer.shift(at);
        buffer.insert(at, k as u32);
    }
    assert!(moved > 100 * 1000);
}

#[test]
fn every_edit_agrees_with_a_plain_vector() {
    let mut buffer: GapBuffer<u32> = GapBuffer::with_capacity(0);
    let mut model: Vec<u32> = Vec::new();
    let mut state = 99u64;
    for round in 0..5000u32 {
        match step(&mut state) % 10 {
            0 | 1 | 2 => {
                let at = step(&mut state) % (model.len() + 1);
                buffer.insert(at, round);
                model.insert(at, round);
                assert_eq!(buffer.gap_position(), at + 1);
            }
            3 | 4 => {
                let at = step(&mut state) % (model.len() + 1);
                let expected = if at < model.len() { Some(model.remove(at)) } else { None };
                assert_eq!(buffer.remove(at), expected);
            }
            5 => {
                let to = step(&mut state) % (model.len() + 1);
                let from = buffer.gap_position();
                let moved = buffer.shift(to);
                assert_eq!(moved, if to < from { from - to } else { to - from });
                assert_eq!(buffer.gap_position(), to);
            }
            6 => {
                if !model.is_empty() {
                    let i = step(&mut state) % model.len();
                    let j = step(&mut state) % model.len();
                    buffer.swap(i, j);
                    model.swap(i, j);
                }
            }
            7 => {
                if !model.is_empty() {
                    let i = step(&mut state) % model.len();
                    *buffer.get_mut(i).unwrap() = round;
                    model[i] = round;
                }
            }
            8 => {
                let more = step(&mut state) % 20;
                let before = buffer.capacity();
                buffer.reserve(more);
                assert!(buffer.capacity() >= model.len() + more);
                if model.len() + more <= before {
                    assert_eq!(buffer.capacity(), before);
                } else {
                    assert_eq!(buffer.capacity() + 1, (model.len() + more + 1).next_power_of_two());
                }
            }
            _ => {
                if step(&mut state) % 8 == 0 {
                    buffer.clear();
                    model.clear();
                } else {
                    let n = (step(&mut state) % 5) as u32;
                    buffer.extend(round..round + n);
                    model.extend(round..round + n);
                    assert_eq!(buffer.gap_position(), model.len());
                }
            }
        }
        assert_eq!(buffer.len(), model.len());
        assert!(buffer.len() <= buffer.capacity());
        assert!((buffer.capacity() + 1).is_power_of_two());
        if round % 97 == 0 {
            assert_eq!(contents(&buffer), model);
            for (i, x) in model.iter().enumerate() {
                assert_eq!(buffer.get(i), Some(x));
                assert_eq!(buffer[i], *x);
            }
            assert_eq!(buffer.get(model.len()), None);
        }
    }
    assert_eq!(contents(&buffer), model);
}

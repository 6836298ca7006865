use gapbuffer::GapBuffer;

#[test]
fn forward_iteration_yields_every_element_in_order() {
    for gap in 0..=9usize {
        let mut buffer: GapBuffer<u32> = GapBuffer::new();
        buffer.extend(0..9);
        buffer.shift(gap);
        let mut items = buffer.iter();
        for expected in 0..9u32 {
            assert_eq!(items.next(), Some(&expected));
        }
        assert_eq!(items.next(), None);
        assert_eq!(items.next(), None);
        assert_eq!(items.next_back(), None);
    }
}

#[test]
fn backward_iteration_yields_the_reverse() {
    for gap in 0..=9usize {
        let mut buffer: GapBuffer<u32> = GapBuffer::new();
        buffer.extend(0..9);
        buffer.shift(gap);
        let mut items = buffer.iter();
        for expected in (0..9u32).rev() {
            assert_eq!(items.next_back(), Some(&expected));
        }
        assert_eq!(items.next_back(), None);
        assert_eq!(items.next(), None);
    }
}

#[test]
fn mixed_iteration_meets_in_the_middle() {
    // An odd and an even number of elements, every position of the gap.
    for len in [6u32, 7u32] {
        for gap in 0..=len as usize {
            let mut buffer: GapBuffer<u32> = GapBuffer::new();
            buffer.extend(0..len);
            buffer.shift(gap);
            let mut items = buffer.iter();
            let mut front = Vec::new();
            let mut back = Vec::new();
            loop {
                match items.next() {
                    Some(x) => front.push(*x),
                    None => break,
                }
                match items.next_back() {
                    Some(x) => back.push(*x),
                    None => break,
                }
            }
            assert_eq!(items.next(), None);
            assert_eq!(items.next_back(), None);
            back.reverse();
            front.extend(back);
            assert_eq!(front, (0..len).collect::<Vec<u32>>());
        }
    }
}

#[test]
fn iterators_work_with_adaptors() {
    let mut buffer: GapBuffer<u32> = GapBuffer::new();
    buffer.extend(0..6);
    buffer.shift(2);
    assert_eq!(buffer.iter().count(), 6);
    assert_eq!(buffer.iter().copied().sum::<u32>(), 15);
    assert_eq!(buffer.iter().rev().copied().collect::<Vec<u32>>(), vec![5, 4, 3, 2, 1, 0]);
    assert_eq!(buffer.slice(1, 5).map(|x| x * 2).collect::<Vec<u32>>(), vec![2, 4, 6, 8]);
    let mut seen = 0;
    for (i, x) in buffer.iter().enumerate() {
        assert_eq!(*x, i as u32);
        seen += 1;
    }
    assert_eq!(seen, 6);
}

#[test]
fn iterators_start_afresh() {
    let mut buffer: GapBuffer<u32> = GapBuffer::new();
    buffer.extend(0..4);
    let mut first = buffer.iter();
    assert_eq!(first.next(), Some(&0));
    assert_eq!(first.next(), Some(&1));
    let mut second = buffer.iter();
    assert_eq!(second.next(), Some(&0));
    let mut third = first.clone();
    assert_eq!(first.next(), Some(&2));
    assert_eq!(third.next(), Some(&2));
    assert_eq!(first.size_hint(), (4, Some(4)));
}


use gapbuffer::GapBuffer;

#[test]
fn test_test_init() {
    //Test declaration & initialization
    let test: GapBuffer<usize> = GapBuffer::with_capacity(100);
    assert!(test.capacity() >= 100, "buffer initialized to {} capacity", test.capacity());
    assert!(test.len() == 0, "Buffer initialized to {} length", test.len());
}

#[test]
fn test_test_insert() {
    let mut test: GapBuffer<usize> = GapBuffer::new();

    //Test insertion to end.
    for x in 0..100 {
        if x % 2 == 0 {
            test.insert(x / 2, x);
        }
    }
    assert!(test.len() == 50, "After even insertions, buffer length is {}", test.len());

    //Test insertion in the middle.
    for x in 0..100 {
        if x % 2 == 1 {
            test.insert(x, x);
        }
    }
    assert!(test.len() == 100, "After odd insertions, buffer length is {}", test.len());
}

#[test]
fn test_test_iter() {
    //Test iteration.
    let mut test: GapBuffer<usize> = GapBuffer::new();

    for x in 0..100 {
        test.insert(x, x);
    }

    let mut iterator = test.iter();
    let mut index = 0..100;
    loop {
        match (iterator.next(), index.next()) {
            (Some(x), Some(y)) => {
                assert!(Some(*x) == Some(y), "(backward iter) Element at index {} is {}", y, x);
            }
            (None, _) | (_, None) => break,
        }
    }
    loop {
        match (iterator.next_back(), index.next_back()) {
            (Some(x), Some(y)) => {
                assert!(Some(*x) == Some(y), "(backward iter) Element at index {} is {}", y, x);
            }
            (None, _) | (_, None) => break,
        }
    }
}

#[test]
fn test_test_index() {
    //Test indexing.
    let mut test: GapBuffer<usize> = GapBuffer::new();

    for x in 0..100 {
        test.insert(x, x);
    }

    for x in 0..100 {
        assert!(test[x] == x, "Index {} failed", x);
    }
}

#[test]
fn test_test_remove() {
    //Test removal.
    let mut test: GapBuffer<usize> = GapBuffer::new();

    for x in 0..100 {
        test.insert(x, x);
    }

    for x in 0..100 {
        assert!(test.remove(0) == Some(x), "Remove failed at {} (forward)", x);
    }
}

#[test]
fn test_slice() {
    let mut test = GapBuffer::new();

    for x in 0..5 {
        test.insert(x, x)
    }

    let mut slice = test.iter();
    let mut index = 0..5;
    loop {
        match (slice.next(), index.next()) {
            (Some(x), Some(y)) => {
                assert!(x == &y, "Slice failed in []");
            }
            (None, _) | (_, None) => break,
        }
    }

    slice = test.slice_from(3);
    index = 3..5;
    loop {
        match (slice.next(), index.next()) {
            (Some(x), Some(y)) => {
                assert!(x == &y, "Slice failed in [3..]");
            }
            (None, _) | (_, None) => break,
        }
    }

    slice = test.slice_to(3);
    index = 0..3;
    loop {
        match (slice.next(), index.next()) {
            (Some(x), Some(y)) => {
                assert!(x == &y, "Slice failed in [..3]");
            }
            (None, _) | (_, None) => break,
        }
    }

    slice = test.slice(1, 4);
    index = 1..4;
    loop {
        match (slice.next(), index.next()) {
            (Some(x), Some(y)) => {
                assert!(x == &y, "Slice failed in [1..4]");
            }
            (None, _) | (_, None) => break,
        }
    }
}

use gapbuffer::GapBuffer;

#[test]
fn lib_test_init() {
    //Test declaration & initialization
    let test: GapBuffer<usize> = GapBuffer::with_capacity(100);
    assert!(test.capacity() >= 100, "buffer initialized to {} capacity", test.capacity());
    assert!(test.len() == 0, "Buffer initialized to {} length", test.len());
}

#[test]
fn lib_test_insert() {
    let mut test: GapBuffer<usize> = GapBuffer::new();

    //Test insertion to end.
    for x in 0..100 {
        if x % 2 == 0 {
            test.insert(x / 2, x);
        }
    }
    assert!(test.len() == 50, "After even insertions, buffer length is {}", test.len());

    //Test insertion in the middle.
    for x in 0..100 {
        if x % 2 == 1 {
            test.insert(x, x);
        }
    }
    assert!(test.len() == 100, "After odd insertions, buffer length is {}", test.len());
}

#[test]
fn lib_test_iter() {
    //Test iteration.
    let mut test: GapBuffer<usize> = GapBuffer::new();

    for x in 0..100 {
        test.insert(x, x);
    }

    let mut iterator = test.iter();
    let mut index = 0..100;
    loop {
        match (iterator.next(), index.next()) {
            (Some(&x), Some(y)) => {
                assert!(x == y, "Element at index {} is {}", y, x);
            }
            (None, _) | (_, None) => break,
        }
    }
}

#[test]
fn lib_test_index() {
    //Test indexing.
    let mut test: GapBuffer<usize> = GapBuffer::new();

    for x in 0..100 {
        test.insert(x, x);
    }

    for x in 0..100 {
        assert!(test[x] == x, "Index {} failed", x);
    }
}

#[test]
fn lib_test_remove() {
    //Test removal.
    let mut test1: GapBuffer<usize> = GapBuffer::new();
    let mut test2: GapBuffer<usize> = GapBuffer::new();

    for x in 0..10 {
        test1.insert(x, x);
    }

    for x in 0..10 {
        assert!(test1.remove(0) == Some(x), "Remove failed at {} (forward)", x);
    }

    test2.extend(0..5);
    test2.remove(0);
    for (i, &x) in test2.iter().enumerate() {
        assert!(x == i + 1, "Remove test2 failed. Index {} is {}", x, i);
    }
}

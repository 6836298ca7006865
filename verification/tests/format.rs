use gapbuffer::format::bracket;
use gapbuffer::GapBuffer;

#[test]
fn bracket_joins_with_commas() {
    assert_eq!(bracket(&vec![]), "[]");
    assert_eq!(bracket(&vec![String::from("a")]), "[a]");
    assert_eq!(bracket(&vec![String::from("a"), String::from("bc"), String::new()]), "[a,bc,]");
}

#[test]
fn text_of_numbers() {
    let mut buffer: GapBuffer<i32> = GapBuffer::new();
    assert_eq!(buffer.to_debug_string(), "[]");
    buffer.insert(0, 1);
    assert_eq!(buffer.to_debug_string(), "[1]");
    buffer.insert(1, -2);
    buffer.insert(0, 3);
    assert_eq!(buffer.to_debug_string(), "[3,1,-2]");
    buffer.shift(1);
    assert_eq!(buffer.to_debug_string(), "[3,1,-2]");
}

#[test]
fn text_of_strings() {
    let mut buffer: GapBuffer<&str> = GapBuffer::new();
    buffer.extend(["a", "b c"].into_iter());
    assert_eq!(buffer.to_debug_string(), "[\"a\",\"b c\"]");
}

#[test]
fn debug_formatting() {
    let mut buffer: GapBuffer<u8> = GapBuffer::new();
    assert_eq!(format!("{:?}", buffer), "[]");
    buffer.extend([7u8, 8, 9].into_iter());
    buffer.shift(1);
    assert_eq!(format!("{:?}", buffer), "[7,8,9]");
    let mut nested: GapBuffer<GapBuffer<u8>> = GapBuffer::new();
    nested.insert(0, buffer);
    nested.insert(1, GapBuffer::new());
    assert_eq!(format!("{:?}", nested), "[[7,8,9],[]]");
}

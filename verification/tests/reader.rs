use buffer_reader::reader::{BufferReader, OutOfBounds};

#[test]
fn read() {
    let hello_world = b"Hello, World!";
    let mut br = BufferReader::new(hello_world);

    let mut hello = vec![0u8; 5];
    let read = br.read(&mut hello);
    assert_eq!(read, 5);
    assert_eq!(&hello[..], b"Hello");

    let mut world = vec![0u8; 8];
    let read = br.read(&mut world);
    assert_eq!(read, 8);
    assert_eq!(&world[..], b", World!");

    // Check that the binary reader advanced through the entire buffer.
    assert_eq!(br.len(), 0);
}

#[test]
fn read_bytes() {
    let hello_world = b"Hello, World!";
    let mut br = BufferReader::new(hello_world);

    let hello = br.read_bytes(5).unwrap();
    assert_eq!(&hello[..], b"Hello");

    // Check that the binary reader advanced through the "Hello".
    assert_eq!(br.len(), b", World!".len());
    let world = br.get_remaining();
    assert_eq!(&world[..], b", World!");
}

#[test]
fn peek_bytes() {
    let hello_world = b"Hello, World!";
    let br = BufferReader::new(hello_world);
    let len = br.len();
    let hello = std::str::from_utf8(br.peek_bytes(5, 2).unwrap()).unwrap();

    assert_eq!(len, br.len());
    assert_eq!(hello, ", ");
}

#[test]
fn read_byte() {
    let hello_world = b"Hello, World!";
    let mut br = BufferReader::new(hello_world);
    let first_byte = br.read_byte().unwrap();

    assert_eq!(first_byte, b'H');
}

#[test]
fn peek_byte() {
    let hello_world = b"Hello, World!";
    let br = BufferReader::new(hello_world);
    let seventh_byte = br.peek_byte(7).unwrap();

    assert_eq!(seventh_byte, b'W');
}

#[test]
fn find() {
    let hello_world = b"Hello, World!";
    let br = BufferReader::new(hello_world);
    let hello = br.find_bytes(b"o,").expect("Could not find pattern");

    assert_eq!(hello, 4);
}

#[test]
fn find_end() {
    let hello_world = b"Hello, World!";
    let br = BufferReader::new(hello_world);
    let hello = br.find_bytes(b"d!").expect("Could not find pattern");

    assert_eq!(hello, 11);
}

#[test]
#[should_panic]
fn find_end_panic() {
    let hello_world = b"Hello, World!";
    let br = BufferReader::new(hello_world);
    let _ = br.find_bytes(b"! ").expect("Could not find pattern");
}

#[test]
fn hello_scenario() {
    let hello_world = b"Hello, World!";
    let mut br = BufferReader::new(hello_world);

    let hello = br.read_bytes(5).unwrap();
    assert_eq!(&hello[..], b"Hello");
    assert_eq!(br.len(), 8);

    let comma = br.peek_bytes(0, 2).unwrap();
    assert_eq!(&comma[..], b", ");
    assert_eq!(br.len(), 8);

    let rest = br.get_remaining();
    assert_eq!(&rest[..], b", World!");
}

#[test]
fn out_of_bounds_leaves_position() {
    let hello_world = b"Hello, World!";
    let mut br = BufferReader::new(hello_world);

    assert_eq!(br.read_bytes(20), Err(OutOfBounds));

    // The failed read moved nothing: the whole region is still there.
    let all = br.read_bytes(13).unwrap();
    assert_eq!(&all[..], b"Hello, World!");
    assert!(br.is_empty());
}

#[test]
fn read_bytes_exact_length() {
    let region = [7u8; 9];
    let mut br = BufferReader::new(&region);

    // Succeeds exactly when the requested length fits the remaining bytes.
    assert_eq!(br.read_bytes(9).unwrap().len(), 9);
    assert_eq!(br.read_bytes(0).unwrap().len(), 0);
    assert_eq!(br.read_bytes(1), Err(OutOfBounds));
}

#[test]
fn sequential_reads_are_adjacent() {
    let region = b"Hello, World!";
    let mut br = BufferReader::new(region);

    let a = br.read_bytes(3).unwrap();
    let b = br.read_bytes(4).unwrap();
    let c = br.read_bytes(2).unwrap();

    assert_eq!(&a[..], &region[0..3]);
    assert_eq!(&b[..], &region[3..7]);
    assert_eq!(&c[..], &region[7..9]);
    assert_eq!(br.len(), region.len() - (3 + 4 + 2));
}

#[test]
fn peeks_leave_remaining_length() {
    let region = b"Hello, World!";
    let mut br = BufferReader::new(region);
    br.read_bytes(4).unwrap();
    let len = br.len();

    let _ = br.peek_byte(2);
    assert_eq!(br.len(), len);
    let _ = br.peek_byte(100);
    assert_eq!(br.len(), len);
    let _ = br.peek_bytes(1, 3);
    assert_eq!(br.len(), len);
    let _ = br.peek_bytes(1, 300);
    assert_eq!(br.len(), len);
    let _ = br.peek_remaining();
    assert_eq!(br.len(), len);
    let _ = br.find_bytes(b"World");
    assert_eq!(br.len(), len);
}

#[test]
fn find_not_found() {
    let br = BufferReader::new(b"Hello, World!");
    assert_eq!(br.find_bytes(b"xyz"), None);
}

#[test]
fn find_empty_pattern() {
    let br = BufferReader::new(b"Hello, World!");
    assert_eq!(br.find_bytes(b""), None);
}

#[test]
fn find_pattern_longer_than_remaining() {
    let br = BufferReader::new(b"abc");
    assert_eq!(br.find_bytes(b"abcd"), None);
    let empty = BufferReader::new(b"");
    assert_eq!(empty.find_bytes(b"a"), None);
}

#[test]
fn find_after_advance_is_relative() {
    let mut br = BufferReader::new(b"Hello, World!");
    br.read_bytes(7).unwrap();
    // The offset is relative to the position, over the remaining bytes.
    assert_eq!(br.find_bytes(b"World"), Some(0));
    assert_eq!(br.find_bytes(b"d!"), Some(4));
    assert_eq!(br.find_bytes(b"Hello"), None);
}

#[test]
fn stream_adapter_short_read() {
    let hello_world = b"Hello, World!";
    let mut br = BufferReader::new(hello_world);

    let mut buf = vec![0xAAu8; 20];
    let produced = br.read(&mut buf);
    assert_eq!(produced, 13);
    assert_eq!(&buf[..13], b"Hello, World!");
    // Bytes past the count are untouched.
    assert_eq!(&buf[13..], &[0xAAu8; 7][..]);
    assert!(br.is_empty());

    // A further call reports zero bytes: the terminal signal, not an error.
    let produced = br.read(&mut buf);
    assert_eq!(produced, 0);
}

#[test]
fn stream_adapter_empty_buffer() {
    let mut br = BufferReader::new(b"abc");
    let mut buf: Vec<u8> = Vec::new();
    assert_eq!(br.read(&mut buf), 0);
    assert_eq!(br.len(), 3);
}

#[test]
fn empty_region() {
    let mut br = BufferReader::new(b"");
    assert_eq!(br.len(), 0);
    assert!(br.is_empty());
    assert_eq!(br.read_byte(), Err(OutOfBounds));
    assert_eq!(br.peek_byte(0), Err(OutOfBounds));
    assert_eq!(br.read_bytes(0).unwrap().len(), 0);
}

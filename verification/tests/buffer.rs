use logblocks::buf::MemWriter;

#[test]
fn new_buffer_is_empty() {
    let w = MemWriter::new();
    assert!(w.is_empty());
    assert_eq!(w.get_ref(), b"");
}

#[test]
fn with_capacity_is_empty() {
    let w = MemWriter::with_capacity(16);
    assert!(w.is_empty());
}

#[test]
fn write_appends_in_order() {
    let mut w = MemWriter::new();
    w.write(b"abc");
    w.write(b"");
    w.write(b"de");
    assert!(!w.is_empty());
    assert_eq!(w.get_ref(), b"abcde");
    assert_eq!(w.unwrap(), b"abcde".to_vec());
}

#[test]
fn wrap_keeps_contents() {
    let w = MemWriter::wrap(b"xyz".to_vec());
    assert_eq!(w.get_ref(), b"xyz");
}

#[test]
fn clear_empties_the_buffer() {
    let mut w = MemWriter::wrap(b"xyz".to_vec());
    w.clear();
    assert!(w.is_empty());
    w.write(b"1");
    assert_eq!(w.get_ref(), b"1");
}

#[test]
fn take_hands_out_contents_and_empties() {
    let mut w = MemWriter::new();
    w.write(b"hello");
    let v = w.take();
    assert_eq!(v, b"hello".to_vec());
    assert!(w.is_empty());
}

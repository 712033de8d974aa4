use sidecar::line_buffer::LineBuffer;

#[test]
fn one_complete_line() {
    let mut buf = LineBuffer::new();
    let lines = buf.feed(b"hello\n");
    assert_eq!(lines, vec![b"hello".to_vec()]);
    assert!(buf.is_empty());
}

#[test]
fn line_split_across_chunks() {
    let mut buf = LineBuffer::new();
    let first = buf.feed(b"Sta");
    assert!(first.is_empty());
    assert!(!buf.is_empty());
    let second = buf.feed(b"rted\n");
    assert_eq!(second, vec![b"Started".to_vec()]);
    assert!(buf.is_empty());
}

#[test]
fn multiple_lines_in_one_chunk() {
    let mut buf = LineBuffer::new();
    let lines = buf.feed(b"a\nb\nc");
    assert_eq!(lines, vec![b"a".to_vec(), b"b".to_vec()]);
    assert_eq!(buf.take_pending(), b"c".to_vec());
    assert!(buf.is_empty());
}

#[test]
fn empty_chunk_changes_nothing() {
    let mut buf = LineBuffer::new();
    let lines = buf.feed(b"");
    assert!(lines.is_empty());
    assert!(buf.is_empty());
    buf.feed(b"half");
    let more = buf.feed(b"");
    assert!(more.is_empty());
    assert_eq!(buf.take_pending(), b"half".to_vec());
}

#[test]
fn empty_lines_are_kept() {
    let mut buf = LineBuffer::new();
    let lines = buf.feed(b"\n\n");
    assert_eq!(lines, vec![Vec::<u8>::new(), Vec::<u8>::new()]);
    assert!(buf.is_empty());
}

#[test]
fn bytes_pass_unmodified() {
    let mut buf = LineBuffer::new();
    let raw: Vec<u8> = vec![0xc3, 0xa9, 0x00, b'\t', b' ', 0xff];
    let mut chunk = raw.clone();
    chunk.push(b'\n');
    let lines = buf.feed(&chunk);
    assert_eq!(lines, vec![raw]);
}

#[test]
fn order_is_emission_order() {
    let mut buf = LineBuffer::new();
    let mut lines = buf.feed(b"first\nsecond\nthi");
    lines.extend(buf.feed(b"rd\nfourth\n"));
    assert_eq!(
        lines,
        vec![
            b"first".to_vec(),
            b"second".to_vec(),
            b"third".to_vec(),
            b"fourth".to_vec(),
        ]
    );
}

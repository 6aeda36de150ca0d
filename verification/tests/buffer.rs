use octoterm::session::buffer::SeqBuffer;

#[test]
fn append_advances_seq_and_reads_back() {
    let mut b = SeqBuffer::new(16);
    b.append(b"hello");
    assert_eq!(b.end_seq(), 5);
    assert_eq!(b.read_from(0).unwrap(), b"hello");
    assert_eq!(b.read_from(3).unwrap(), b"lo");
    assert_eq!(b.read_from(5).unwrap(), b"");
}

#[test]
fn eviction_keeps_seq_monotonic() {
    let mut b = SeqBuffer::new(4);
    b.append(b"abcdef");
    assert_eq!(b.end_seq(), 6);
    assert_eq!(b.start_seq(), 2);
    assert_eq!(b.read_from(0), None);
    assert_eq!(b.read_from(2).unwrap(), b"cdef");
}

#[test]
fn oversized_append_keeps_tail() {
    let mut b = SeqBuffer::new(4);
    b.append(b"0123456789");
    assert_eq!(b.end_seq(), 10);
    assert_eq!(b.read_from(6).unwrap(), b"6789");
    assert_eq!(b.read_from(5), None);
}

#[test]
fn small_appends_evict_the_oldest_bytes() {
    let mut b = SeqBuffer::new(4);
    b.append(b"ab");
    b.append(b"cd");
    b.append(b"ef");
    assert_eq!(b.end_seq(), 6);
    assert_eq!(b.start_seq(), 2);
    assert_eq!(b.read_from(2).unwrap(), b"cdef");
    assert_eq!(b.read_from(4).unwrap(), b"ef");
}

#[test]
fn a_read_from_the_future_is_refused() {
    let mut b = SeqBuffer::new(8);
    b.append(b"abc");
    assert_eq!(b.read_from(4), None);
}

#[test]
fn read_after_append_returns_the_appended_bytes() {
    let mut b = SeqBuffer::new(8);
    b.append(b"xyz");
    let mark = b.end_seq();
    b.append(b"12345");
    assert_eq!(b.read_from(mark).unwrap(), b"12345");
}

#[test]
fn zero_capacity_keeps_nothing_but_counts() {
    let mut b = SeqBuffer::new(0);
    b.append(b"abc");
    assert_eq!(b.end_seq(), 3);
    assert_eq!(b.start_seq(), 3);
    assert_eq!(b.read_from(3).unwrap(), b"");
    assert_eq!(b.read_from(2), None);
}

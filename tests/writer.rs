use fd_writer::{FdWriter, BUFFER_CAPACITY};

fn concat(writes: &[Vec<u8>]) -> Vec<u8> {
    let mut all = Vec::new();
    for w in writes {
        all.extend_from_slice(w);
    }
    all
}

#[test]
fn new_writer_is_empty() {
    let w = FdWriter::new(2);
    assert_eq!(w.len(), 0);
    assert!(w.as_slice().is_empty());
    assert_eq!(w.fd(), 2);
}

#[test]
fn short_append_is_buffered() {
    let mut w = FdWriter::new(1);
    let writes = w.write_data(b"ab");
    assert!(writes.is_empty());
    assert_eq!(w.len(), 2);
    let writes = w.write_data(b"cde");
    assert!(writes.is_empty());
    assert_eq!(w.as_slice(), b"abcde");
}

#[test]
fn fill_exactly_to_capacity_writes_nothing() {
    let mut w = FdWriter::new(1);
    assert!(w.write_data(b"ab").is_empty());
    let mut rest = vec![b'x'; BUFFER_CAPACITY - 8];
    rest.extend_from_slice(b"cdefgh");
    let writes = w.write_data(&rest);
    assert!(writes.is_empty());
    assert_eq!(w.len(), BUFFER_CAPACITY);
    assert_eq!(*w.as_slice().last().unwrap(), b'h');
}

#[test]
fn append_to_full_buffer_writes_it_first() {
    let mut w = FdWriter::new(1);
    let mut full = vec![b'a'; BUFFER_CAPACITY - 1];
    full.push(b'h');
    assert!(w.write_data(&full).is_empty());
    let writes = w.write_data(b"ij");
    assert_eq!(writes.len(), 1);
    assert_eq!(writes[0], full);
    assert_eq!(w.as_slice(), b"ij");
}

#[test]
fn newline_line_is_written_at_once() {
    let mut w = FdWriter::new(1);
    let writes = w.write_data(b"log line\n");
    assert_eq!(writes, vec![b"log line\n".to_vec()]);
    assert_eq!(w.len(), 0);
}

#[test]
fn newline_flushes_buffered_prefix_too() {
    let mut w = FdWriter::new(1);
    assert!(w.write_data(b"abc").is_empty());
    let writes = w.write_data(b"de\n");
    assert_eq!(writes, vec![b"abcde\n".to_vec()]);
    assert_eq!(w.len(), 0);
}

#[test]
fn newline_in_the_middle_does_not_flush() {
    let mut w = FdWriter::new(1);
    let writes = w.write_data(b"a\nb");
    assert!(writes.is_empty());
    assert_eq!(w.as_slice(), b"a\nb");
}

#[test]
fn empty_append_on_empty_buffer() {
    let mut w = FdWriter::new(1);
    let writes = w.write_data(b"");
    assert!(writes.is_empty());
    assert_eq!(w.len(), 0);
}

#[test]
fn empty_append_on_non_empty_buffer() {
    let mut w = FdWriter::new(1);
    assert!(w.write_data(b"xyz").is_empty());
    let writes = w.write_data(b"");
    assert!(writes.is_empty());
    assert_eq!(w.as_slice(), b"xyz");
}

#[test]
fn one_byte_over_capacity_writes_one_buffer() {
    let mut w = FdWriter::new(1);
    let data: Vec<u8> = (0..BUFFER_CAPACITY + 1).map(|i| (i % 251) as u8 + 11).collect();
    let writes = w.write_data(&data);
    assert_eq!(writes.len(), 1);
    assert_eq!(writes[0], data[..BUFFER_CAPACITY].to_vec());
    assert_eq!(w.as_slice(), &data[BUFFER_CAPACITY..]);
}

#[test]
fn large_append_is_cut_into_full_buffers() {
    let mut w = FdWriter::new(1);
    assert!(w.write_data(b"0123456789").is_empty());
    let data = vec![b'z'; 10000];
    let writes = w.write_data(&data);
    assert_eq!(writes.len(), 2);
    for chunk in &writes {
        assert_eq!(chunk.len(), BUFFER_CAPACITY);
    }
    assert_eq!(w.len(), 10010 - 2 * BUFFER_CAPACITY);
}

#[test]
fn large_append_ending_in_newline_leaves_nothing() {
    let mut w = FdWriter::new(1);
    let mut data = vec![b'q'; 5000];
    data.push(b'\n');
    let writes = w.write_data(&data);
    assert_eq!(writes.len(), 2);
    assert_eq!(writes[0].len(), BUFFER_CAPACITY);
    assert_eq!(writes[1].len(), 5001 - BUFFER_CAPACITY);
    assert_eq!(*writes[1].last().unwrap(), b'\n');
    assert_eq!(concat(&writes), data);
    assert_eq!(w.len(), 0);
}

#[test]
fn appends_keep_order_and_capacity() {
    let mut w = FdWriter::new(1);
    let mut expected = Vec::new();
    let mut written = Vec::new();
    for round in 0..40usize {
        let mut piece: Vec<u8> = (0..round * 37 + 5).map(|i| (i * 7 + round) as u8 % 200 + 32).collect();
        if round % 3 == 0 {
            piece.push(b'\n');
        }
        expected.extend_from_slice(&piece);
        for chunk in w.write_data(&piece) {
            assert!(!chunk.is_empty());
            assert!(chunk.len() <= BUFFER_CAPACITY);
            written.push(chunk);
        }
    }
    for chunk in w.finish() {
        written.push(chunk);
    }
    assert_eq!(concat(&written), expected);
}

#[test]
fn flush_of_empty_buffer_writes_nothing() {
    let mut w = FdWriter::new(1);
    assert!(w.flush().is_none());
    assert_eq!(w.len(), 0);
    assert!(w.flush().is_none());
}

#[test]
fn flush_hands_out_buffer_once() {
    let mut w = FdWriter::new(1);
    assert!(w.write_data(b"pending").is_empty());
    assert_eq!(w.flush(), Some(b"pending".to_vec()));
    assert_eq!(w.len(), 0);
    assert!(w.flush().is_none());
}

#[test]
fn finish_writes_residual_once() {
    let mut w = FdWriter::new(1);
    assert!(w.write_data(b"tail").is_empty());
    assert_eq!(w.finish(), vec![b"tail".to_vec()]);
}

#[test]
fn finish_of_empty_writer_writes_nothing() {
    let w = FdWriter::new(1);
    assert!(w.finish().is_empty());
}

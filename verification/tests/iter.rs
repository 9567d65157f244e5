use generator_native::iter::{BufferedReadIter, ByteIter, Step};

#[test]
fn byte_iter_reads() {
    let mut it = ByteIter::new();
    assert_eq!(it.space(), 1);
    assert_eq!(it.complete(Ok(&[42u8][..])), Some(42));
    assert_eq!(it.complete(Ok(&[][..])), None);
    assert_eq!(it.complete(Err(())), None);
}

/// Drives the reader over the given chunks as successive reads.
fn drive(cap: usize, chunks: &[&[u8]]) -> Vec<u8> {
    let mut it = BufferedReadIter::new(cap);
    let mut out = Vec::new();
    let mut next_chunk = 0;
    loop {
        match it.next() {
            Step::Byte(b) => out.push(b),
            Step::Read => {
                assert_eq!(it.space(), cap);
                let read: &[u8] = if next_chunk < chunks.len() { chunks[next_chunk] } else { &[] };
                next_chunk += 1;
                match it.complete(Ok(read)) {
                    Some(b) => out.push(b),
                    None => return out,
                }
            }
        }
    }
}

#[test]
fn buffered_reader_delivers_all_bytes_in_order() {
    assert_eq!(drive(4, &[b"abcd", b"ef", b"g"]), b"abcdefg".to_vec());
    assert_eq!(drive(4, &[]), Vec::<u8>::new());
    assert_eq!(drive(1, &[b"x", b"y"]), b"xy".to_vec());
}

#[test]
fn buffered_reader_stops_on_error() {
    let mut it = BufferedReadIter::new(8);
    assert!(matches!(it.next(), Step::Read));
    assert_eq!(it.complete(Ok(&b"hi"[..])), Some(b'h'));
    assert!(matches!(it.next(), Step::Byte(b'i')));
    assert!(matches!(it.next(), Step::Read));
    assert_eq!(it.complete(Err(())), None);
}

#[test]
fn byte_iter_reads_again_after_a_failed_read() {
    let mut it = ByteIter::new();
    assert_eq!(it.complete(Err(())), None);
    assert_eq!(it.complete(Ok(&[7u8][..])), Some(7));
}

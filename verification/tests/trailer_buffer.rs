use dvault::trailer::UploadBuffer;

#[test]
fn keeps_last_bytes_small_pushes() {
    let mut buf = UploadBuffer::new(8);
    assert_eq!(buf.size(), 8);
    assert_eq!(buf.len(), 0);
    let evicted = buf.push(b"abc");
    assert!(evicted.is_empty());
    assert_eq!(buf.get(), b"abc".to_vec());
    let evicted = buf.push(b"defgh");
    assert!(evicted.is_empty());
    assert_eq!(buf.len(), 8);
    assert_eq!(buf.get(), b"abcdefgh".to_vec());
}

#[test]
fn evicts_oldest_in_original_order() {
    let mut buf = UploadBuffer::new(8);
    buf.push(b"abcdefgh");
    let evicted = buf.push(b"XY");
    assert_eq!(evicted, b"ab".to_vec());
    assert_eq!(buf.get(), b"cdefghXY".to_vec());
}

#[test]
fn push_larger_than_capacity() {
    let mut buf = UploadBuffer::new(4);
    buf.push(b"12");
    let evicted = buf.push(b"abcdefgh");
    // Everything but the last four bytes of the whole stream is evicted.
    assert_eq!(evicted, b"12abcd".to_vec());
    assert_eq!(buf.get(), b"efgh".to_vec());
}

#[test]
fn get_is_last_min_of_total_under_any_chunking() {
    let data: Vec<u8> = (0u8..50).collect();
    for chunk in 1..13usize {
        let mut buf = UploadBuffer::new(8);
        let mut seen: Vec<u8> = Vec::new();
        for part in data.chunks(chunk) {
            buf.push(part);
            seen.extend_from_slice(part);
            let start = seen.len().saturating_sub(8);
            assert_eq!(buf.get(), seen[start..].to_vec());
        }
    }
}

#[test]
fn empty_push_changes_nothing() {
    let mut buf = UploadBuffer::new(8);
    buf.push(b"xyz");
    let evicted = buf.push(b"");
    assert!(evicted.is_empty());
    assert_eq!(buf.get(), b"xyz".to_vec());
}

#[test]
fn set_replaces_contents_byte_by_byte() {
    let mut buf = UploadBuffer::new(4);
    buf.set(b"abcdef");
    assert_eq!(buf.get(), b"cdef".to_vec());
    assert_eq!(buf.len(), 4);
}

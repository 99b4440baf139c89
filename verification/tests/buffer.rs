use s3mem_run::buffer::MemoryBuffer;

#[test]
fn test_memfile_write() {
    let mut memfile = MemoryBuffer::create("test_file");
    let test_data = b"Hello, World!";
    memfile.preallocate(test_data.len());
    memfile.write_at(test_data, 0);

    // Verify the write by reading back
    assert_eq!(memfile.contents().as_slice(), test_data);
}

#[test]
fn preallocate_zero_fills() {
    let mut buffer = MemoryBuffer::create("zeroed");
    buffer.preallocate(5);
    assert_eq!(buffer.size(), 5);
    assert_eq!(buffer.contents().as_slice(), &[0, 0, 0, 0, 0]);
}

#[test]
fn writes_land_at_their_offsets() {
    let mut buffer = MemoryBuffer::create("offsets");
    buffer.preallocate(10);
    buffer.write_at(&[6, 7, 8, 9, 10], 5);
    buffer.write_at(&[1, 2, 3], 0);
    buffer.write_at(&[4, 5], 3);
    assert_eq!(buffer.contents().as_slice(), &[1, 2, 3, 4, 5, 6, 7, 8, 9, 10]);
}

#[test]
fn disjoint_writes_commute() {
    // The same three disjoint chunks, written in every order, leave the
    // buffer byte-identical.
    let chunks: [(usize, &[u8]); 3] = [(0, &[1, 2, 3]), (3, &[4, 5]), (5, &[6, 7, 8, 9, 10])];
    let orders: [[usize; 3]; 6] =
        [[0, 1, 2], [0, 2, 1], [1, 0, 2], [1, 2, 0], [2, 0, 1], [2, 1, 0]];
    let mut results: Vec<Vec<u8>> = Vec::new();
    for order in orders {
        let mut buffer = MemoryBuffer::create("perm");
        buffer.preallocate(10);
        for k in order {
            let (offset, data) = chunks[k];
            buffer.write_at(data, offset);
        }
        results.push(buffer.contents().clone());
    }
    for r in &results {
        assert_eq!(r, &results[0]);
    }
    assert_eq!(results[0], vec![1, 2, 3, 4, 5, 6, 7, 8, 9, 10]);
}

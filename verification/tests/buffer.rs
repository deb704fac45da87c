use simple_smtp::Buffer;

#[test]
fn buffer_from_vec_is_owned() {
    let buffer = Buffer::from(vec![1u8, 2, 3]);
    assert!(matches!(buffer, Buffer::Owned(_)));
    assert_eq!(buffer.len(), 3);
    assert_eq!(buffer.as_slice(), &[1, 2, 3]);
    assert_eq!(&buffer[..], &[1, 2, 3]);
}

#[test]
fn buffer_from_box_is_owned() {
    let boxed: Box<[u8]> = vec![4u8, 5].into_boxed_slice();
    let buffer = Buffer::from(boxed);
    assert!(matches!(buffer, Buffer::Owned(_)));
    assert_eq!(buffer.as_slice(), &[4, 5]);
}

#[test]
fn buffer_from_slice_is_borrowed() {
    let mut storage = [7u8; 4];
    {
        let mut buffer = Buffer::from(&mut storage[..]);
        assert!(matches!(buffer, Buffer::Borrowed(_)));
        assert_eq!(buffer.len(), 4);
        buffer.as_mut_slice()[1] = 9;
        assert_eq!(buffer.as_slice(), &[7, 9, 7, 7]);
    }
    assert_eq!(storage, [7, 9, 7, 7]);
}

#[test]
fn buffer_keeps_its_size() {
    let mut buffer = Buffer::from(vec![0u8; 8]);
    buffer.as_mut_slice().copy_from_slice(b"12345678");
    assert_eq!(buffer.len(), 8);
    assert_eq!(buffer.as_slice(), b"12345678");
    let empty = Buffer::from(Vec::new());
    assert_eq!(empty.len(), 0);
    assert!(empty.as_slice().is_empty());
}

#[test]
fn buffer_is_written_through_deref_mut() {
    let mut owned = Buffer::from(vec![1u8, 2, 3]);
    owned[1] = 9;
    owned.iter_mut().for_each(|byte| *byte += 1);
    assert_eq!(&owned[..], &[2, 10, 4]);
    assert_eq!(owned.len(), 3);

    let mut storage = [0u8; 4];
    {
        let mut borrowed = Buffer::from(&mut storage[..]);
        borrowed.copy_from_slice(b"abcd");
        borrowed[0] = b'x';
        assert_eq!(borrowed.as_slice(), b"xbcd");
    }
    assert_eq!(&storage, b"xbcd");
}

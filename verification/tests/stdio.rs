use os_kernel::fs::stdio::{Stdin, Stdout, UserBuffer};
use os_kernel::virtio::Error;

#[test]
fn readable_and_writable_as_reported() {
    assert!(!Stdin.readable());
    assert!(Stdin.writable());
    assert!(Stdout.readable());
    assert!(!Stdout.writable());
}

#[test]
fn user_buffer_length_sums_pieces() {
    assert_eq!(UserBuffer::new(vec![]).len(), 0);
    assert_eq!(UserBuffer::new(vec![vec![1, 2], vec![], vec![3, 4, 5]]).len(), 5);
}

#[test]
fn stdout_write_reports_all_bytes() {
    let buf = UserBuffer::new(vec![b"hello ".to_vec(), b"world".to_vec()]);
    assert_eq!(Stdout.write(&buf), 11);
}

#[test]
fn stdin_read_stores_one_character() {
    let mut buf = UserBuffer::new(vec![vec![0]]);
    assert_eq!(Stdin.read(&mut buf, b'x' as usize), Some(1));
    assert_eq!(buf.buffers, vec![vec![b'x']]);
    let mut buf2 = UserBuffer::new(vec![vec![7], vec![]]);
    assert_eq!(Stdin.read(&mut buf2, 0x141), Some(1));
    assert_eq!(buf2.buffers, vec![vec![0x41], vec![]]);
}

#[test]
fn stdin_read_without_input_asks_to_retry() {
    let mut buf = UserBuffer::new(vec![vec![9]]);
    assert_eq!(Stdin.read(&mut buf, 0), None);
    assert_eq!(buf.buffers, vec![vec![9]]);
    let polls = [0usize, 0, b'q' as usize, b'z' as usize];
    let mut suspends = 0;
    let mut reads = 0;
    let n = loop {
        let c = polls[reads];
        reads += 1;
        match Stdin.read(&mut buf, c) {
            Some(n) => break n,
            None => suspends += 1,
        }
    };
    assert_eq!((n, suspends, reads), (1, 2, 3));
    assert_eq!(buf.buffers, vec![vec![b'q']]);
}

#[test]
fn virtio_errors_compare() {
    assert_eq!(Error::NotReady, Error::NotReady);
    assert_ne!(Error::IoError, Error::DmaError);
    let r: os_kernel::virtio::Result = Err(Error::BufferTooSmall);
    assert_eq!(r, Err(Error::BufferTooSmall));
}

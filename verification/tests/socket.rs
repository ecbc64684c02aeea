use projects_rs::socket::{ByteOrder, Socket};

#[test]
fn frame_starts_with_native_length() {
    let s = Socket::new();
    let frame = s.send(&[7, 8, 9]);
    assert_eq!(frame.len(), 7);
    assert_eq!(&frame[..4], &3u32.to_ne_bytes());
    assert_eq!(&frame[4..], &[7, 8, 9]);
}

#[test]
fn byte_order_is_that_of_the_machine() {
    let s = Socket::new();
    let expected = if u32::from_ne_bytes([1, 0, 0, 0]) == 1 { ByteOrder::Little } else { ByteOrder::Big };
    assert_eq!(s.order(), expected);
}

#[test]
fn long_payload_length_bytes() {
    let s = Socket::new();
    let payload = vec![0xABu8; 0x0102];
    let frame = s.send(&payload);
    assert_eq!(&frame[..4], &0x0102u32.to_ne_bytes());
    assert_eq!(frame.len(), 4 + 0x0102);
}

#[test]
fn recv_gives_back_what_send_framed() {
    let a = Socket::new();
    let mut b = Socket::new();
    b.feed(&a.send(b"hello"));
    assert_eq!(b.recv(), Some(b"hello".to_vec()));
    assert_eq!(b.recv(), None);
}

#[test]
fn frames_come_out_in_order() {
    let a = Socket::new();
    let mut b = Socket::new();
    let mut wire = a.send(b"one");
    wire.extend(a.send(b""));
    wire.extend(a.send(b"three"));
    b.feed(&wire);
    assert_eq!(b.recv(), Some(b"one".to_vec()));
    assert_eq!(b.recv(), Some(Vec::new()));
    assert_eq!(b.recv(), Some(b"three".to_vec()));
    assert_eq!(b.recv(), None);
}

#[test]
fn incomplete_frame_waits_for_more_bytes() {
    let a = Socket::new();
    let mut b = Socket::new();
    let frame = a.send(b"abcdef");
    b.feed(&frame[..2]);
    assert_eq!(b.recv(), None);
    b.feed(&frame[2..6]);
    assert_eq!(b.recv(), None);
    b.feed(&frame[6..]);
    assert_eq!(b.recv(), Some(b"abcdef".to_vec()));
}

#[test]
fn empty_payload_frame_is_only_a_length() {
    let s = Socket::new();
    assert_eq!(s.send(&[]), vec![0, 0, 0, 0]);
}

#[test]
fn many_frames_then_nothing() {
    let a = Socket::new();
    let mut b = Socket::new();
    let payloads: Vec<Vec<u8>> = vec![vec![1], vec![], vec![2, 3, 4], vec![5; 300]];
    for p in &payloads {
        b.feed(&a.send(p));
    }
    for p in &payloads {
        assert_eq!(b.recv().as_ref(), Some(p));
    }
    assert_eq!(b.recv(), None);
}

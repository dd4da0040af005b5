use unp_sockets::datagram::{
    datagram_step, judge_reply, new_datagram_buffer, overlay_reply, zero_tail, DatagramStep,
    PeerAddr, ReplyVerdict, DATAGRAM_BUFFER_LEN,
};

#[test]
fn new_buffer_is_zeroed() {
    let b = new_datagram_buffer();
    assert_eq!(b.len(), DATAGRAM_BUFFER_LEN);
    assert!(b.iter().all(|&x| x == 0));
}

#[test]
fn zero_tail_clears_from_position() {
    let mut b = vec![1u8, 2, 3, 4, 5];
    zero_tail(&mut b, 2);
    assert_eq!(b, vec![1, 2, 0, 0, 0]);
    let mut c = vec![9u8, 9];
    zero_tail(&mut c, 2);
    assert_eq!(c, vec![9, 9]);
}

#[test]
fn datagram_is_echoed_with_zeroed_tail() {
    let mut b = new_datagram_buffer();
    for (i, x) in b.iter_mut().enumerate() {
        *x = (i % 251) as u8 + 1;
    }
    b[..3].copy_from_slice(b"abc");
    assert_eq!(datagram_step(&mut b, Some(3)), DatagramStep::Reply);
    assert_eq!(&b[..3], b"abc");
    assert!(b[3..].iter().all(|&x| x == 0));
    assert_eq!(b.len(), DATAGRAM_BUFFER_LEN);
}

#[test]
fn stale_bytes_never_reach_a_reply() {
    let mut b = new_datagram_buffer();
    b[..5].copy_from_slice(b"hello");
    assert_eq!(datagram_step(&mut b, Some(5)), DatagramStep::Reply);
    b[..2].copy_from_slice(b"hi");
    assert_eq!(datagram_step(&mut b, Some(2)), DatagramStep::Reply);
    let mut expected = vec![0u8; DATAGRAM_BUFFER_LEN];
    expected[..2].copy_from_slice(b"hi");
    assert_eq!(b, expected);
}

#[test]
fn empty_datagram_or_failed_receive_stops() {
    let mut b = vec![7u8; 4];
    assert_eq!(datagram_step(&mut b, Some(0)), DatagramStep::Stop);
    assert_eq!(datagram_step(&mut b, None), DatagramStep::Stop);
    assert_eq!(b, vec![7u8; 4]);
}

#[test]
fn reply_overwrites_the_start_of_the_line() {
    assert_eq!(overlay_reply(b"hello\n", b"HEL"), b"HELlo\n".to_vec());
    assert_eq!(overlay_reply(b"hi\n", b"yo\n"), b"yo\n".to_vec());
    assert_eq!(overlay_reply(b"abc", b""), b"abc".to_vec());
}

#[test]
fn replies_from_other_peers_are_ignored() {
    let server = PeerAddr::V4 { ip: 0x7f000001, port: 9877 };
    let other = PeerAddr::V4 { ip: 0x7f000001, port: 9878 };
    let v6 = PeerAddr::V6 { ip6: 1, port: 9877, flowinfo: 0, scope_id: 0 };
    let mut buf = vec![0u8; 16];
    buf[..3].copy_from_slice(b"ok\n");
    assert_eq!(judge_reply(&server, &other, &buf), ReplyVerdict::Ignored);
    assert_eq!(judge_reply(&server, &v6, &buf), ReplyVerdict::Ignored);
    assert_eq!(judge_reply(&server, &server, &buf), ReplyVerdict::Show);
    buf[3] = 0xff;
    assert_eq!(judge_reply(&server, &server, &buf), ReplyVerdict::NotText);
}

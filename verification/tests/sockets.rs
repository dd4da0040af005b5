use unp_sockets::sockets::{socket_args, socket_from_fd, Socket};
use unp_sockets::{Family, Protocol};

#[test]
fn family_constants_match_libc() {
    assert_eq!(Family::Inet.libc_const(), libc::AF_INET);
    assert_eq!(Family::Inet6.libc_const(), libc::AF_INET6);
    assert_eq!(Family::Unspec.libc_const(), 0);
}

#[test]
fn protocol_constants_are_iana_numbers() {
    assert_eq!(Protocol::Tcp.libc_const(), 6);
    assert_eq!(Protocol::Udp.libc_const(), 17);
    assert_eq!(Protocol::Sctp.libc_const(), 132);
    assert_eq!(Protocol::Sctp.libc_const(), libc::IPPROTO_SCTP);
}

#[test]
fn socket_args_ask_for_a_seqpacket_socket() {
    let (domain, kind, protocol) = socket_args(&Family::Inet6, &Protocol::Sctp);
    assert_eq!(domain, libc::AF_INET6);
    assert_eq!(kind, libc::SOCK_SEQPACKET);
    assert_eq!(protocol, libc::IPPROTO_SCTP);
    let (domain, _, protocol) = socket_args(&Family::Unspec, &Protocol::Udp);
    assert_eq!(domain, 0);
    assert_eq!(protocol, 17);
    for proto in [Protocol::Tcp, Protocol::Udp, Protocol::Sctp].iter() {
        let (_, kind, _) = socket_args(&Family::Inet, proto);
        assert_eq!(kind, libc::SOCK_SEQPACKET);
        assert_ne!(kind, libc::SOCK_STREAM);
        assert_ne!(kind, libc::SOCK_DGRAM);
    }
}

#[test]
fn negative_descriptor_is_no_socket() {
    assert!(socket_from_fd(-1).is_none());
    assert!(socket_from_fd(i32::MIN).is_none());
}

#[test]
fn non_negative_descriptor_is_a_socket() {
    assert_eq!(socket_from_fd(0).map(|s| s.fd()), Some(0));
    assert_eq!(socket_from_fd(7).map(|s| s.fd()), Some(7));
    assert_eq!(Socket::new(42).fd(), 42);
}

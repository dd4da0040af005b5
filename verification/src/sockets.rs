//! Socket families, protocols and the descriptor that the socket call hands back.
use vstd::prelude::*;

verus! {

/// Reads `libc::AF_INET`. This module reads `libc::IPPROTO_SCTP`, which `libc` defines only
/// for Linux-like systems (Linux, Android, Emscripten, L4Re), Fuchsia, QNX Neutrino, Hurd,
/// AIX, Apple systems, FreeBSD and NetBSD, so the crate builds only there; each of them
/// defines `AF_INET` as 2, which is what the contract claims.
#[verifier::external_body]
fn af_inet() -> (r: i32)
    ensures
        r == 2,
{
    libc::AF_INET
}

/// Reads `libc::AF_INET6`. On the targets this crate builds for (those where `libc` defines
/// `IPPROTO_SCTP`, see `af_inet`) it is 10 (Linux-like systems, Fuchsia), 24 (AIX, NetBSD,
/// QNX with io-pkt), 26 (Hurd), 28 (FreeBSD, QNX with io-sock) or 30 (Apple systems); the
/// contract claims that it lies between 10 and 30, which sets it apart from `AF_INET` (2)
/// and `AF_UNSPEC` (0).
#[verifier::external_body]
fn af_inet6() -> (r: i32)
    ensures
        10 <= r <= 30,
{
    libc::AF_INET6
}

/// Reads `libc::AF_UNSPEC`, which every target of `libc` defines as 0.
#[verifier::external_body]
fn af_unspec() -> (r: i32)
    ensures
        r == 0,
{
    libc::AF_UNSPEC
}

/// Reads `libc::IPPROTO_TCP`, the IANA protocol number 6 on every unix target of `libc`.
#[verifier::external_body]
fn ipproto_tcp() -> (r: i32)
    ensures
        r == 6,
{
    libc::IPPROTO_TCP
}

/// Reads `libc::IPPROTO_UDP`, the IANA protocol number 17 on every unix target of `libc`.
#[verifier::external_body]
fn ipproto_udp() -> (r: i32)
    ensures
        r == 17,
{
    libc::IPPROTO_UDP
}

/// Reads `libc::IPPROTO_SCTP`, the IANA protocol number 132 on every target of `libc` that
/// defines it.
#[verifier::external_body]
fn ipproto_sctp() -> (r: i32)
    ensures
        r == 132,
{
    libc::IPPROTO_SCTP
}

/// Reads `libc::SOCK_SEQPACKET`, the sequenced-packet socket type. Every target of `libc`
/// defines it as 5, except the Solaris family, which defines it as 6; the contract claims
/// that it is one of the two.
#[verifier::external_body]
fn sock_seqpacket() -> (r: i32)
    ensures
        r == 5 || r == 6,
{
    libc::SOCK_SEQPACKET
}

/// The domain constant that the system gives each address family: 2 for IPv4, 0 for an
/// unspecified family, and for IPv6 a value between 10 and 30 that depends on the system.
pub open spec fn family_domain(f: Family, r: int) -> bool {
    match f {
        Family::Inet => r == 2,
        Family::Inet6 => 10 <= r <= 30,
        Family::Unspec => r == 0,
    }
}

/// An address family a socket is opened in.
pub enum Family {
    Inet,
    Inet6,
    Unspec,
}

impl Family {
    /// The numeric `AF_*` constant of this family, as the system defines it.
    pub fn libc_const(&self) -> (r: i32)
        ensures
            (*self is Unspec) <==> r == 0,
            !(*self is Unspec) ==> r > 0,
            family_domain(*self, r as int),
    {
        match *self {
            Family::Inet => af_inet(),
            Family::Inet6 => af_inet6(),
            Family::Unspec => af_unspec(),
        }
    }
}

/// A transport protocol a socket is opened for.
pub enum Protocol {
    Tcp,
    Udp,
    Sctp,
}

/// The IANA protocol number of each transport protocol.
pub open spec fn protocol_number(p: Protocol) -> int {
    match p {
        Protocol::Tcp => 6,
        Protocol::Udp => 17,
        Protocol::Sctp => 132,
    }
}

impl Protocol {
    /// The numeric `IPPROTO_*` constant of this protocol.
    pub fn libc_const(&self) -> (r: i32)
        ensures
            r == protocol_number(*self),
    {
        match *self {
            Protocol::Tcp => ipproto_tcp(),
            Protocol::Udp => ipproto_udp(),
            Protocol::Sctp => ipproto_sctp(),
        }
    }
}

/// An open socket, known by its file descriptor.
#[derive(Clone, Copy, Debug)]
pub struct Socket {
    fd: i32,
}

impl Socket {
    /// The descriptor this socket holds.
    pub closed spec fn spec_fd(&self) -> i32 {
        self.fd
    }

    /// Wraps a raw descriptor.
    pub fn new(raw_fd: i32) -> (s: Socket)
        ensures
            s.spec_fd() == raw_fd,
    {
        Socket { fd: raw_fd }
    }

    /// The descriptor this socket holds.
    pub fn fd(&self) -> (r: i32)
        ensures
            r == self.spec_fd(),
    {
        self.fd
    }
}

/// The three arguments of the `socket(2)` call that opens a sequenced-packet socket of the
/// given family and protocol: the family's constant, the sequenced-packet socket type
/// (`SOCK_SEQPACKET`, 5 or 6 by target, whatever the protocol: never the stream type 1 or
/// the datagram type 2), and the protocol's constant.
pub fn socket_args(family: &Family, proto: &Protocol) -> (r: (i32, i32, i32))
    ensures
        (*family is Unspec) <==> r.0 == 0,
        !(*family is Unspec) ==> r.0 > 0,
        family_domain(*family, r.0 as int),
        (*family is Inet) ==> r.0 == 2,
        r.1 == 5 || r.1 == 6,
        r.2 == protocol_number(*proto),
{
    (family.libc_const(), sock_seqpacket(), proto.libc_const())
}

/// What the `socket(2)` call's result means: a negative descriptor is a failure, any other
/// is the new socket.
pub fn socket_from_fd(fd: i32) -> (r: Option<Socket>)
    ensures
        r is None <==> fd < 0,
        r matches Some(s) ==> s.spec_fd() == fd,
{
    if fd < 0 {
        None
    } else {
        Some(Socket::new(fd))
    }
}

/// The domain argument names the family it was asked for: two families never share a domain
/// constant, so a socket asked for as IPv4 is never opened as IPv6 or the other way round;
/// and IPv4's constant is `AF_INET`, 2.
pub proof fn law_domain_identifies_family(f1: Family, f2: Family, d1: int, d2: int)
    requires
        family_domain(f1, d1),
        family_domain(f2, d2),
        d1 == d2,
    ensures
        f1 == f2,
        f1 is Inet <==> d1 == 2,
        f1 is Unspec <==> d1 == 0,
{
}

} // verus!

//! The datagram side of the echo programs: what the servers send back for a datagram they
//! received, what the clients print for a reply, and whose replies they accept.
use vstd::prelude::*;
use vstd::utf8::valid_utf8;

verus! {

/// The size of the buffer the datagram servers receive into and reply from.
pub const DATAGRAM_BUFFER_LEN: usize = 1024;

/// `buf` with every byte from position `n` on set to zero.
pub open spec fn zero_filled_tail(buf: Seq<u8>, n: int) -> Seq<u8> {
    buf.take(n) + Seq::new((buf.len() - n) as nat, |i: int| 0u8)
}

/// A zeroed buffer of the size the datagram servers use.
pub fn new_datagram_buffer() -> (buf: Vec<u8>)
    ensures
        buf@ == Seq::new(DATAGRAM_BUFFER_LEN as nat, |i: int| 0u8),
{
    let buf = vec![0u8; DATAGRAM_BUFFER_LEN];
    assert(buf@ =~= Seq::new(DATAGRAM_BUFFER_LEN as nat, |i: int| 0u8));
    buf
}

/// Sets every byte of `buf` from position `from` on to zero.
pub fn zero_tail(buf: &mut Vec<u8>, from: usize)
    requires
        from <= old(buf)@.len(),
    ensures
        final(buf)@ == zero_filled_tail(old(buf)@, from as int),
{
    let ghost orig = buf@;
    let mut i = from;
    while i < buf.len()
        invariant
            from <= i <= buf@.len(),
            buf@.len() == orig.len(),
            forall|j: int| 0 <= j < from ==> buf@[j] == orig[j],
            forall|j: int| from <= j < i ==> buf@[j] == 0u8,
        decreases buf@.len() - i,
    {
        buf.set(i, 0u8);
        i = i + 1;
    }
    assert(buf@ =~= zero_filled_tail(orig, from as int));
}

/// What a datagram echo server does after a receive.
#[derive(PartialEq, Eq, Structural, Clone, Copy, Debug)]
pub enum DatagramStep {
    /// Send the whole buffer back to the sender.
    Reply,
    /// Stop serving.
    Stop,
}

/// One turn of the datagram echo servers. `received` is what the receive into `buf` gave:
/// the number of bytes of the datagram, or `None` when the receive failed. A datagram of one
/// byte or more is answered with the whole buffer, whose bytes past the datagram are zeroed
/// first; an empty datagram or a failed receive ends the service.
pub fn datagram_step(buf: &mut Vec<u8>, received: Option<usize>) -> (step: DatagramStep)
    requires
        received matches Some(n) ==> n <= old(buf)@.len(),
    ensures
        received matches Some(n) ==> (n > 0 ==> step == DatagramStep::Reply && final(buf)@
            == zero_filled_tail(old(buf)@, n as int)),
        received matches Some(n) ==> (n == 0 ==> step == DatagramStep::Stop && final(buf)@ == old(buf)@),
        received is None ==> step == DatagramStep::Stop && final(buf)@ == old(buf)@,
{
    match received {
        Some(n) => {
            if n > 0 {
                zero_tail(buf, n);
                DatagramStep::Reply
            } else {
                DatagramStep::Stop
            }
        },
        None => DatagramStep::Stop,
    }
}

/// A reply never carries bytes of an earlier, longer datagram: two buffers that agree on
/// the `n` bytes just received give the same reply, whatever they held before.
pub proof fn law_reply_ignores_stale_bytes(a: Seq<u8>, b: Seq<u8>, n: int)
    requires
        0 <= n <= a.len(),
        a.len() == b.len(),
        a.take(n) == b.take(n),
    ensures
        zero_filled_tail(a, n) == zero_filled_tail(b, n),
{
}

/// The reply to a datagram of `n` bytes keeps the buffer's size, begins with exactly those
/// `n` bytes, and is zero everywhere after them.
pub proof fn law_reply_is_datagram_then_zeros(buf: Seq<u8>, n: int)
    requires
        0 <= n <= buf.len(),
    ensures
        zero_filled_tail(buf, n).len() == buf.len(),
        forall|i: int| 0 <= i < n ==> #[trigger] zero_filled_tail(buf, n)[i] == buf[i],
        forall|i: int| n <= i < buf.len() ==> #[trigger] zero_filled_tail(buf, n)[i] == 0u8,
{
}

/// What the datagram client prints for a reply: the line it sent, with its first bytes
/// overwritten by the reply. The reply is received into a buffer as long as the line, so
/// at most that many bytes of it arrive.
pub fn overlay_reply(sent: &[u8], received: &[u8]) -> (r: Vec<u8>)
    requires
        received@.len() <= sent@.len(),
    ensures
        r@ == received@ + sent@.skip(received@.len() as int),
{
    let mut out: Vec<u8> = Vec::new();
    let mut i: usize = 0;
    while i < sent.len()
        invariant
            received@.len() <= sent@.len(),
            0 <= i <= sent@.len(),
            out@ =~= (received@ + sent@.skip(received@.len() as int)).take(i as int),
        decreases sent@.len() - i,
    {
        if i < received.len() {
            out.push(received[i]);
        } else {
            out.push(sent[i]);
        }
        i = i + 1;
    }
    assert((received@ + sent@.skip(received@.len() as int)).take(sent@.len() as int)
        =~= received@ + sent@.skip(received@.len() as int));
    out
}

/// A socket address: an IPv4 address and port, or an IPv6 address, port, flow label and
/// scope. Two addresses are the same when all their parts are.
#[derive(PartialEq, Eq, Structural, Clone, Copy, Debug)]
pub enum PeerAddr {
    V4 { ip: u32, port: u16 },
    V6 { ip6: u128, port: u16, flowinfo: u32, scope_id: u32 },
}

/// What the filtering datagram client does with a reply.
#[derive(PartialEq, Eq, Structural, Clone, Copy, Debug)]
pub enum ReplyVerdict {
    /// The reply came from another peer: say so and drop it.
    Ignored,
    /// Print the whole receive buffer as text.
    Show,
    /// The receive buffer is not UTF-8 text: the client stops.
    NotText,
}

/// Judges a reply that arrived from `peer` while the client talks to `server`, with
/// `buffer` the client's receive buffer after the reply was written into it.
pub fn judge_reply(server: &PeerAddr, peer: &PeerAddr, buffer: &[u8]) -> (v: ReplyVerdict)
    ensures
        *peer != *server ==> v == ReplyVerdict::Ignored,
        *peer == *server && valid_utf8(buffer@) ==> v == ReplyVerdict::Show,
        *peer == *server && !valid_utf8(buffer@) ==> v == ReplyVerdict::NotText,
{
    if *peer != *server {
        ReplyVerdict::Ignored
    } else if crate::utf8_text::is_utf8(buffer) {
        ReplyVerdict::Show
    } else {
        ReplyVerdict::NotText
    }
}

} // verus!

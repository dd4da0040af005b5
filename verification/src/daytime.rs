//! The daytime service: the server answers each connection with the current time as an
//! RFC 2822 line, and the client prints what it receives as text.
use vstd::prelude::*;
use vstd::utf8::valid_utf8;

verus! {

/// The first second of year 0 (UTC), in seconds since the Unix epoch.
pub const RFC2822_FIRST_SECOND: i64 = -62167219200;

/// The first second of year 10000 (UTC), in seconds since the Unix epoch: RFC 2822 text
/// exists only for instants before it.
pub const RFC2822_END_SECOND: i64 = 253402300800;

/// The RFC 2822 text of the UTC instant `secs` seconds and `nsecs` nanoseconds after the
/// Unix epoch, such as `Tue, 1 Jul 2003 10:52:37 +0000`.
pub uninterp spec fn rfc2822_text(secs: int, nsecs: int) -> Seq<char>;

/// True when the instant can be written in RFC 2822: its year lies in 0 through 9999 and
/// the nanoseconds are less than a second.
pub open spec fn rfc2822_representable(secs: int, nsecs: int) -> bool {
    RFC2822_FIRST_SECOND <= secs < RFC2822_END_SECOND && 0 <= nsecs < 1_000_000_000
}

/// Leap years of the proleptic Gregorian calendar before year `y` (for `y >= 1`; year 0 is
/// one).
pub open spec fn leap_years_before(y: int) -> int {
    if y <= 0 {
        0
    } else {
        (y - 1) / 4 - (y - 1) / 100 + (y - 1) / 400 + 1
    }
}

/// The first second of year `y` (UTC), in seconds since the Unix epoch.
pub open spec fn year_start_second(y: int) -> int {
    (365 * y + leap_years_before(y) - 719528) * 86400
}

/// The window of representable instants is the calendar's years 0 through 9999: its bounds
/// are the first seconds of years 0 and 10000, the epoch is the first second of 1970, and
/// every instant in it, with any nanoseconds below a second, is representable, while every
/// instant outside it is not.
pub proof fn law_representable_years(secs: int, nsecs: int)
    ensures
        year_start_second(1970) == 0,
        RFC2822_FIRST_SECOND == year_start_second(0),
        RFC2822_END_SECOND == year_start_second(10000),
        (year_start_second(0) <= secs < year_start_second(10000) && 0 <= nsecs < 1_000_000_000)
            <==> rfc2822_representable(secs, nsecs),
{
    assert(leap_years_before(1970) == 478);
    assert(leap_years_before(10000) == 2425);
}

/// Calls `chrono::DateTime::<Utc>::from_timestamp(secs, nsecs)` and then `to_rfc2822` on the
/// instant. Under the `requires` the instant exists (its day count fits) and its year lies in
/// 0 through 9999, so neither call fails or panics. What the text is, is left to
/// `rfc2822_text`: a function of the two arguments, since the instant is in UTC and chrono
/// writes English day and month names.
#[verifier::external_body]
fn chrono_rfc2822(secs: i64, nsecs: u32) -> (r: String)
    requires
        rfc2822_representable(secs as int, nsecs as int),
    ensures
        r@ == rfc2822_text(secs as int, nsecs as int),
{
    match chrono::DateTime::from_timestamp(secs, nsecs) {
        Some(t) => t.to_rfc2822(),
        None => String::new(),
    }
}

/// Whether the instant can be written in RFC 2822.
pub fn is_rfc2822_representable(secs: i64, nsecs: u32) -> (r: bool)
    ensures
        r == rfc2822_representable(secs as int, nsecs as int),
{
    RFC2822_FIRST_SECOND <= secs && secs < RFC2822_END_SECOND && nsecs < 1_000_000_000
}

/// The line the daytime server sends for an instant whose RFC 2822 text is `stamp`: the
/// text and a newline.
pub fn line_of_stamp(stamp: String) -> (r: String)
    ensures
        r@ == stamp@.push('\n'),
{
    let mut line = stamp;
    line.append("\n");
    proof {
        reveal_strlit("\n");
    }
    assert(line@ =~= stamp@.push('\n'));
    line
}

/// The line the daytime server sends: the RFC 2822 text of the instant and a newline.
pub fn daytime_line(secs: i64, nsecs: u32) -> (r: String)
    requires
        rfc2822_representable(secs as int, nsecs as int),
    ensures
        r@ == rfc2822_text(secs as int, nsecs as int).push('\n'),
{
    line_of_stamp(chrono_rfc2822(secs, nsecs))
}

/// The size of the buffer the daytime client reads into.
pub const DAYTIME_BUFFER_LEN: usize = 1024;

/// The whole receive buffer of the daytime client after one read of `received`: the bytes
/// read, then zeros.
pub open spec fn daytime_buffer(received: Seq<u8>) -> Seq<u8> {
    received + Seq::new((DAYTIME_BUFFER_LEN - received.len()) as nat, |i: int| 0u8)
}

/// The buffer the daytime client prints is always its full size, begins with exactly the
/// bytes received, and is zero after them.
pub proof fn law_daytime_buffer_is_reply_then_zeros(received: Seq<u8>)
    requires
        received.len() <= DAYTIME_BUFFER_LEN,
    ensures
        daytime_buffer(received).len() == DAYTIME_BUFFER_LEN,
        forall|i: int| 0 <= i < received.len() ==> #[trigger] daytime_buffer(received)[i]
            == received[i],
        forall|i: int|
            received.len() <= i < DAYTIME_BUFFER_LEN ==> #[trigger] daytime_buffer(received)[i]
                == 0u8,
{
}

/// What the daytime client prints after one read: its whole buffer, when that is UTF-8
/// text, and `None` (the client stops) when it is not.
pub fn daytime_text(received: &[u8]) -> (r: Option<Vec<u8>>)
    requires
        received@.len() <= DAYTIME_BUFFER_LEN,
    ensures
        r is Some <==> valid_utf8(daytime_buffer(received@)),
        r matches Some(t) ==> t@ == daytime_buffer(received@),
{
    let mut buf: Vec<u8> = Vec::new();
    let mut i: usize = 0;
    while i < DAYTIME_BUFFER_LEN
        invariant
            received@.len() <= DAYTIME_BUFFER_LEN,
            0 <= i <= DAYTIME_BUFFER_LEN,
            buf@ =~= daytime_buffer(received@).take(i as int),
        decreases DAYTIME_BUFFER_LEN - i,
    {
        if i < received.len() {
            buf.push(received[i]);
        } else {
            buf.push(0u8);
        }
        i = i + 1;
    }
    assert(daytime_buffer(received@).take(DAYTIME_BUFFER_LEN as int) =~= daytime_buffer(
        received@,
    ));
    if crate::utf8_text::is_utf8(buf.as_slice()) {
        Some(buf)
    } else {
        None
    }
}

} // verus!

use unp_sockets::daytime::{
    daytime_line, line_of_stamp, daytime_text, is_rfc2822_representable, DAYTIME_BUFFER_LEN,
    RFC2822_END_SECOND, RFC2822_FIRST_SECOND,
};
use unp_sockets::stream_echo::{stream_echo_step, StreamStep, STREAM_BUFFER_LEN};

#[test]
fn epoch_line() {
    assert_eq!(daytime_line(0, 0), "Thu, 1 Jan 1970 00:00:00 +0000\n");
}

#[test]
fn line_matches_chrono() {
    let secs = 1_057_056_757i64;
    let expected = chrono::DateTime::from_timestamp(secs, 0).unwrap().to_rfc2822();
    assert_eq!(daytime_line(secs, 0), format!("{}\n", expected));
    assert_eq!(daytime_line(secs, 0), "Tue, 1 Jul 2003 10:52:37 +0000\n");
}

#[test]
fn representable_range() {
    assert!(is_rfc2822_representable(0, 0));
    assert!(is_rfc2822_representable(RFC2822_FIRST_SECOND, 999_999_999));
    assert!(!is_rfc2822_representable(RFC2822_FIRST_SECOND - 1, 0));
    assert!(is_rfc2822_representable(RFC2822_END_SECOND - 1, 0));
    assert!(!is_rfc2822_representable(RFC2822_END_SECOND, 0));
    assert!(!is_rfc2822_representable(0, 1_000_000_000));
    assert_eq!(daytime_line(RFC2822_FIRST_SECOND, 0), "Sat, 1 Jan 0000 00:00:00 +0000\n");
    assert_eq!(daytime_line(RFC2822_END_SECOND - 1, 0), "Fri, 31 Dec 9999 23:59:59 +0000\n");
}

#[test]
fn client_prints_the_padded_buffer() {
    let text = daytime_text(b"Thu, 1 Jan 1970 00:00:00 +0000\n").unwrap();
    assert_eq!(text.len(), DAYTIME_BUFFER_LEN);
    assert_eq!(&text[..31], b"Thu, 1 Jan 1970 00:00:00 +0000\n");
    assert!(text[31..].iter().all(|&b| b == 0));
    assert!(daytime_text(&[0xc3]).is_none());
    assert_eq!(daytime_text(b"").unwrap(), vec![0u8; DAYTIME_BUFFER_LEN]);
}

#[test]
fn stream_echo_steps() {
    let mut buf = vec![0u8; STREAM_BUFFER_LEN];
    buf[..4].copy_from_slice(b"abc\n");
    assert_eq!(stream_echo_step(&buf, 0), StreamStep::Stop);
    assert_eq!(stream_echo_step(&buf, 4), StreamStep::Send);
    buf[1] = 0x80;
    assert_eq!(stream_echo_step(&buf, 4), StreamStep::NotText);
    assert_eq!(stream_echo_step(&buf, 0), StreamStep::Stop);
}

#[test]
fn stamp_gets_a_newline() {
    assert_eq!(line_of_stamp("Tue, 1 Jul 2003 10:52:37 +0000".to_string()), "Tue, 1 Jul 2003 10:52:37 +0000\n");
    assert_eq!(line_of_stamp(String::new()), "\n");
}

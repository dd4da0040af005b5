use unp_sockets::sum_service::{
    is_whitespace_char, parse_spans, reply_line, sum_text, sum_values, token_spans, SumError,
    SumSession,
};

fn chars(s: &str) -> Vec<char> {
    s.chars().collect()
}

#[test]
fn whitespace_matches_std() {
    for u in 0u32..0x3100 {
        if let Some(c) = char::from_u32(u) {
            assert_eq!(is_whitespace_char(c), c.is_whitespace(), "char {:x}", u);
        }
    }
}

#[test]
fn tokens_match_split_whitespace() {
    let texts = ["", "   ", "1 2  3", "  a\tb\nc  ", "x\u{00A0}y\u{3000}z", "one", "\n\n7\n"];
    for t in texts.iter() {
        let text = chars(t);
        let spans = token_spans(&text);
        let got: Vec<String> = spans.iter().map(|&(s, e)| text[s..e].iter().collect()).collect();
        let want: Vec<String> = t.split_whitespace().map(|w| w.to_string()).collect();
        assert_eq!(got, want, "text {:?}", t);
    }
}

#[test]
fn parse_spans_reads_every_token() {
    let text = chars("3 -4 +5");
    let spans = token_spans(&text);
    assert_eq!(parse_spans(&text, &spans), Some(vec![3, -4, 5]));
    let text = chars("3 x 5");
    let spans = token_spans(&text);
    assert_eq!(parse_spans(&text, &spans), None);
}

#[test]
fn sums_fold_from_the_left() {
    assert_eq!(sum_values(&vec![]), Some(0));
    assert_eq!(sum_values(&vec![1, 2, 3]), Some(6));
    assert_eq!(sum_values(&vec![i32::MAX, 1, -1]), None);
    assert_eq!(sum_values(&vec![i32::MAX, -1, 1]), Some(i32::MAX));
    assert_eq!(sum_values(&vec![i32::MIN, -1]), None);
}

#[test]
fn sum_text_reports_each_error() {
    assert_eq!(sum_text(&chars("1 2 3\n")), Ok(6));
    assert_eq!(sum_text(&chars("")), Ok(0));
    assert_eq!(sum_text(&chars("1 two 3")), Err(SumError::BadNumber));
    assert_eq!(sum_text(&chars("2147483647 1")), Err(SumError::Overflow));
    assert_eq!(sum_text(&chars("1\u{00A0}2")), Ok(3));
}

#[test]
fn reply_is_decimal_and_newline() {
    assert_eq!(reply_line(0), b"0\n".to_vec());
    assert_eq!(reply_line(-12), b"-12\n".to_vec());
    assert_eq!(reply_line(i32::MIN), b"-2147483648\n".to_vec());
}

#[test]
fn session_sums_everything_sent_so_far() {
    let mut s = SumSession::new();
    assert_eq!(s.on_line("1 2 3\n"), Ok(b"6\n".to_vec()));
    assert_eq!(s.on_line("4\n"), Ok(b"10\n".to_vec()));
    assert_eq!(s.on_line("-20 5\n"), Ok(b"-5\n".to_vec()));
}

#[test]
fn session_blank_line_repeats_the_sum() {
    let mut s = SumSession::new();
    assert_eq!(s.on_line("7 8\n"), Ok(b"15\n".to_vec()));
    assert_eq!(s.on_line("\n"), Ok(b"15\n".to_vec()));
    assert_eq!(s.on_line("  \t \n"), Ok(b"15\n".to_vec()));
}

#[test]
fn session_reply_read_back_gives_the_same_reply() {
    let mut first = SumSession::new();
    let reply = first.on_line("40 2 -100\n").unwrap();
    let text = String::from_utf8(reply.clone()).unwrap();
    let mut second = SumSession::new();
    assert_eq!(second.on_line(&text), Ok(reply));
}

#[test]
fn session_errors_persist_in_the_text() {
    let mut s = SumSession::new();
    assert_eq!(s.on_line("abc\n"), Err(SumError::BadNumber));
    assert_eq!(s.on_line("1\n"), Err(SumError::BadNumber));
    let mut t = SumSession::new();
    assert_eq!(t.on_line("2147483647\n"), Ok(b"2147483647\n".to_vec()));
    assert_eq!(t.on_line("1\n"), Err(SumError::Overflow));
}

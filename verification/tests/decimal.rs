use unp_sockets::decimal::{format_i32, parse_i32_span};

fn parse(s: &str) -> Option<i32> {
    let chars: Vec<char> = s.chars().collect();
    parse_i32_span(&chars, 0, chars.len())
}

fn format(n: i32) -> String {
    format_i32(n).into_iter().collect()
}

#[test]
fn parses_like_std() {
    let cases = [
        "0", "42", "-17", "+5", "007", "-0", "2147483647", "2147483648", "-2147483648",
        "-2147483649", "99999999999999999999", "", "+", "-", "--1", "+-1", "12a", "a12", " 1",
        "1 ", "\u{0663}", "1_000", "0x10", "+0",
    ];
    for c in cases.iter() {
        assert_eq!(parse(c), c.parse::<i32>().ok(), "token {:?}", c);
    }
}

#[test]
fn parses_a_span_inside_a_text() {
    let chars: Vec<char> = "ab -123 cd".chars().collect();
    assert_eq!(parse_i32_span(&chars, 3, 7), Some(-123));
    assert_eq!(parse_i32_span(&chars, 3, 3), None);
    assert_eq!(parse_i32_span(&chars, 0, 2), None);
}

#[test]
fn formats_like_display() {
    for n in [0, 1, -1, 9, 10, -10, 12345, -987654, i32::MAX, i32::MIN].iter() {
        assert_eq!(format(*n), n.to_string());
    }
}

#[test]
fn formatted_text_reads_back() {
    for n in [0, 7, -7, 1000000, i32::MAX, i32::MIN, -2147483647].iter() {
        assert_eq!(parse(&format(*n)), Some(*n));
    }
}

use unp_sockets::utf8_text::is_utf8;

#[test]
fn agrees_with_std_on_every_two_byte_input() {
    for a in 0u16..256 {
        for b in 0u16..256 {
            let bytes = [a as u8, b as u8];
            assert_eq!(is_utf8(&bytes), std::str::from_utf8(&bytes).is_ok(), "{:?}", bytes);
        }
    }
}

#[test]
fn agrees_with_std_on_three_and_four_byte_inputs() {
    let leads = [0xe0u8, 0xe1, 0xed, 0xee, 0xef, 0xf0, 0xf1, 0xf4, 0xf5, 0xf7, 0xc2, 0x41];
    let conts = [0x80u8, 0x8f, 0x90, 0x9f, 0xa0, 0xbf, 0xc0, 0x41];
    for l in leads.iter() {
        for c1 in conts.iter() {
            for c2 in conts.iter() {
                let three = [*l, *c1, *c2];
                assert_eq!(is_utf8(&three), std::str::from_utf8(&three).is_ok(), "{:?}", three);
                for c3 in conts.iter() {
                    let four = [*l, *c1, *c2, *c3];
                    assert_eq!(is_utf8(&four), std::str::from_utf8(&four).is_ok(), "{:?}", four);
                }
            }
        }
    }
}

#[test]
fn accepts_text_and_zero_padding() {
    assert!(is_utf8(b""));
    assert!(is_utf8("héllo wörld \u{1F600}".as_bytes()));
    let mut padded = b"Tue, 1 Jul 2003 10:52:37 +0000\n".to_vec();
    padded.resize(1024, 0);
    assert!(is_utf8(&padded));
    assert!(!is_utf8(&[0x68, 0x69, 0xff]));
    assert!(!is_utf8(&[0xe2, 0x82]));
}

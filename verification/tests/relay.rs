use unp_sockets::relay::{relay_round, RelayBuffer};

#[test]
fn server_line_goes_to_console() {
    let out = relay_round(Some("pong\n"), None);
    assert_eq!(out.to_console.as_deref(), Some("pong\n"));
    assert!(out.to_server.is_none());
}

#[test]
fn console_line_goes_to_server() {
    let out = relay_round(None, Some("ping\n"));
    assert!(out.to_console.is_none());
    assert_eq!(out.to_server.as_deref(), Some("ping\n"));
}

#[test]
fn shared_buffer_carries_server_line_to_server() {
    let out = relay_round(Some("a\n"), Some("b\n"));
    assert_eq!(out.to_console.as_deref(), Some("a\n"));
    assert_eq!(out.to_server.as_deref(), Some("a\nb\n"));
}

#[test]
fn quiet_round_writes_nothing() {
    let out = relay_round(None, None);
    assert!(out.to_console.is_none() && out.to_server.is_none());
}

#[test]
fn buffer_accumulates_until_cleared() {
    let mut b = RelayBuffer::new();
    assert_eq!(b.append_line("a\n"), "a\n");
    assert_eq!(b.append_line("b\n"), "a\nb\n");
    b.clear();
    assert_eq!(b.append_line("c\n"), "c\n");
}

use unp_sockets::client_table::{
    select_capacity, Admission, ClientAction, ClientTable, PollRead, SelectRead,
};

#[test]
fn select_capacity_is_fd_setsize() {
    assert_eq!(select_capacity(), libc::FD_SETSIZE);
}

#[test]
fn select_server_admits_at_front_until_full() {
    let mut t = ClientTable::new(3);
    t.begin_round(3);
    assert_eq!(t.admit_first(4, 2), (Admission::Admitted, true));
    assert_eq!(t.admit_first(5, 2), (Admission::Admitted, true));
    assert_eq!(t.watched(), vec![3, 5, 4]);
    assert_eq!(t.admit_first(6, 2), (Admission::TooMany, false));
    assert_eq!(t.watched(), vec![3, 5, 4]);
}

#[test]
fn select_server_drops_closed_client() {
    let mut t = ClientTable::new(3);
    t.begin_round(10);
    t.admit_first(4, 100);
    t.admit_first(5, 100);
    t.admit_first(6, 100);
    assert_eq!(t.watched(), vec![3, 6, 5, 4]);
    t.begin_round(2);
    let h = t.after_select_read(1, SelectRead::Closed);
    assert_eq!(h.action, ClientAction::Drop);
    assert!(h.more_ready);
    assert_eq!(t.watched(), vec![3, 6, 4]);
    assert!(!t.is_watched(5));
    assert!(t.is_watched(3) && t.is_watched(4) && t.is_watched(6));
    let h = t.after_select_read(0, SelectRead::Line);
    assert_eq!(h.action, ClientAction::Echo);
    assert!(!h.more_ready);
    assert_eq!(t.client_count(), 2);
}

#[test]
fn select_server_reports_failed_read() {
    let mut t = ClientTable::new(3);
    t.begin_round(2);
    t.admit_first(4, 100);
    let h = t.after_select_read(0, SelectRead::Failed);
    assert_eq!(h.action, ClientAction::Report);
    assert!(!h.more_ready);
    assert_eq!(t.client(0), Some(4));
    assert_eq!(t.client(1), None);
}

#[test]
fn poll_server_admits_at_back_within_open_max() {
    let mut t = ClientTable::new(3);
    t.begin_round(5);
    assert_eq!(t.admit_last(4, 2), (Admission::Admitted, true));
    assert_eq!(t.admit_last(5, 2), (Admission::TooMany, false));
    assert_eq!(t.admit_last(5, 3), (Admission::Admitted, true));
    assert_eq!(t.admit_last(6, 3), (Admission::TooMany, false));
    assert_eq!(t.watched(), vec![3, 4, 5]);
    assert_eq!(t.listener(), 3);
}

#[test]
fn poll_server_drops_reset_and_closed() {
    let mut t = ClientTable::new(3);
    t.begin_round(10);
    t.admit_last(4, 100);
    t.admit_last(5, 100);
    t.admit_last(6, 100);
    t.begin_round(3);
    assert_eq!(t.after_poll_read(0, PollRead::Reset).action, ClientAction::Drop);
    assert_eq!(t.watched(), vec![3, 5, 6]);
    assert_eq!(t.after_poll_read(1, PollRead::Failed).action, ClientAction::Report);
    let h = t.after_poll_read(1, PollRead::Closed);
    assert_eq!(h.action, ClientAction::Drop);
    assert!(!h.more_ready);
    assert_eq!(t.watched(), vec![3, 5]);
}

#[test]
fn ready_count_runs_down() {
    let mut t = ClientTable::new(9);
    t.begin_round(1);
    assert_eq!(t.pending(), 1);
    assert_eq!(t.admit_first(10, 5), (Admission::Admitted, false));
    assert_eq!(t.pending(), 0);
    assert_eq!(t.client_count(), 1);
    assert!(t.is_watched(9) && t.is_watched(10) && !t.is_watched(11));
}

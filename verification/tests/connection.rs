use enclave_log::connection::{Action, Connection, Event};

#[test]
fn serve_two_streams() {
    let mut conn = Connection::new(2);
    assert_eq!(conn.step(Event::Changed(1)), Action::Send(1));
    assert_eq!(conn.step(Event::Sent), Action::Watch(1));
    assert_eq!(conn.step(Event::Changed(0)), Action::Send(0));
    assert_eq!(conn.step(Event::Sent), Action::Watch(0));
    assert_eq!(conn.step(Event::Changed(1)), Action::Send(1));
    assert_eq!(conn.step(Event::Failed), Action::Close);
}

#[test]
fn nothing_to_serve() {
    let mut conn = Connection::new(0);
    assert_eq!(conn.step(Event::Idle), Action::Close);
}

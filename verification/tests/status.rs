use enclave_log::status::{signaled_line, AppStatusInner, EntrypointStatus, ExitStatus};
use json::JsonValue;
use nix::sys::signal::Signal;

fn read_json(status: &AppStatusInner) -> JsonValue {
    let line = status.as_json();
    assert!(line.ends_with('\n'));
    assert_eq!(line.lines().count(), 1);
    json::parse(&line).unwrap()
}

#[test]
fn test_app_status() {
    let mut app_status = AppStatusInner::new();
    let mut client1 = app_status.watch();
    let mut client2 = app_status.watch();

    // Running
    let mut expected = JsonValue::new_object();
    expected.insert("status", "running").unwrap();
    assert!(read_json(&app_status) == expected);
    assert!(!client1.has_changed().unwrap());
    assert!(!client2.has_changed().unwrap());

    // Exited
    app_status.exited(ExitStatus::Exited(2));
    assert!(client1.has_changed().unwrap());
    assert!(client2.has_changed().unwrap());
    client1.mark_unchanged();
    client2.mark_unchanged();
    expected = JsonValue::new_object();
    expected.insert("status", "exited").unwrap();
    expected.insert("code", 2).unwrap();
    assert!(read_json(&app_status) == expected);

    // Signaled
    app_status.exited(ExitStatus::Signaled(Signal::SIGTERM));
    assert!(client1.has_changed().unwrap());
    assert!(client2.has_changed().unwrap());
    expected = JsonValue::new_object();
    expected.insert("status", "signaled").unwrap();
    expected.insert("signal", "SIGTERM").unwrap();
    assert!(read_json(&app_status) == expected);
}

#[test]
fn fatal_status() {
    let mut app_status = AppStatusInner::new();
    app_status.exited(ExitStatus::Exited(0));
    app_status.fatal("no such file".to_string());
    let mut expected = JsonValue::new_object();
    expected.insert("status", "fatal").unwrap();
    expected.insert("error", "no such file").unwrap();
    assert!(read_json(&app_status) == expected);
    // one that comes late has news at once
    assert!(app_status.watch().has_changed().unwrap());
}

#[test]
fn status_lines() {
    assert_eq!(EntrypointStatus::Running.as_json(), "{ \"status\": \"running\" }\n");
    let code = |n: i32| EntrypointStatus::Exited(ExitStatus::Exited(n)).as_json();
    assert_eq!(code(0), "{ \"status\": \"exited\", \"code\": 0 }\n");
    assert_eq!(code(9), "{ \"status\": \"exited\", \"code\": 9 }\n");
    assert_eq!(code(10), "{ \"status\": \"exited\", \"code\": 10 }\n");
    assert_eq!(code(-1), "{ \"status\": \"exited\", \"code\": -1 }\n");
    for n in [137, 255, i32::MAX, i32::MIN, -1000000007] {
        assert_eq!(code(n), format!("{{ \"status\": \"exited\", \"code\": {n} }}\n"));
    }
    assert_eq!(
        EntrypointStatus::Fatal("why".to_string()).as_json(),
        "{ \"status\": \"fatal\", \"error\": \"why\" }\n"
    );
    // the reason stands as it is
    assert_eq!(
        EntrypointStatus::Fatal("a\n\"b\"".to_string()).as_json(),
        "{ \"status\": \"fatal\", \"error\": \"a\n\"b\"\" }\n"
    );
}

#[test]
fn signals_by_name() {
    for sig in Signal::iterator() {
        let name = sig.to_string();
        assert!(name.bytes().all(|b| b.is_ascii_uppercase() || b.is_ascii_digit()));
        let line = EntrypointStatus::Exited(ExitStatus::Signaled(sig)).as_json();
        assert_eq!(line, format!("{{ \"status\": \"signaled\", \"signal\": \"{name}\" }}\n"));
        assert_eq!(line, signaled_line(&name));
    }
    assert_eq!(
        signaled_line(&"SIGKILL".to_string()),
        "{ \"status\": \"signaled\", \"signal\": \"SIGKILL\" }\n"
    );
}

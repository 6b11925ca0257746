use system_health_report::text::{join_strings, lines, push_decimal, same_text};
use system_health_report::logs::{last_lines_text, tail_of_log_bytes, LogCollection, LogReadError};

#[test]
fn lines_follow_str_lines() {
    assert_eq!(lines("a\r\nb\n"), vec!["a".to_string(), "b".to_string()]);
    assert_eq!(lines(""), Vec::<String>::new());
    assert_eq!(lines("a\n\nb"), vec!["a".to_string(), "".to_string(), "b".to_string()]);
    assert_eq!(lines("x\r"), vec!["x\r".to_string()]);
    let s = "one\r\ntwo\n\nthree\r\n";
    let expected: Vec<String> = s.lines().map(|l| l.to_string()).collect();
    assert_eq!(lines(s), expected);
}

#[test]
fn join_and_decimal() {
    let parts = vec!["a".to_string(), "b".to_string(), "c".to_string()];
    assert_eq!(join_strings(&parts, ", "), "a, b, c");
    let mut s = String::from("n=");
    push_decimal(&mut s, 1234567890);
    assert_eq!(s, "n=1234567890");
    let mut z = String::new();
    push_decimal(&mut z, 0);
    assert_eq!(z, "0");
}

#[test]
fn same_text_compares_characters() {
    assert!(same_text("abc", "abc"));
    assert!(!same_text("abc", "abd"));
}

#[test]
fn last_lines_keeps_tail() {
    assert_eq!(last_lines_text("1\n2\n3\n4\n", 2), "3\n4");
    assert_eq!(last_lines_text("1\n2", 5), "1\n2");
    assert_eq!(last_lines_text("", 3), "");
}

#[test]
fn tail_of_log_bytes_refuses_binary() {
    match tail_of_log_bytes(b"abc\0def", 100) {
        Err(LogReadError::Binary) => {}
        other => panic!("unexpected {:?}", other),
    }
    assert_eq!(tail_of_log_bytes(b"a\nb\nc\n", 2).unwrap(), "b\nc");
    // Invalid UTF-8 is replaced, not refused.
    let t = tail_of_log_bytes(&[0x66, 0xff, 0x67], 10).unwrap();
    assert_eq!(t, "f\u{fffd}g");
}

#[test]
fn log_collection_store_and_replace() {
    let mut c = LogCollection::new();
    c.insert("/var/log/a".to_string(), "first".to_string());
    c.insert("/var/log/b".to_string(), "second".to_string());
    c.insert("/var/log/a".to_string(), "third".to_string());
    assert_eq!(c.len(), 2);
    assert_eq!(c.logs[0], ("/var/log/a".to_string(), "third".to_string()));
    assert_eq!(c.logs[1], ("/var/log/b".to_string(), "second".to_string()));
    let d = LogCollection::default();
    assert_eq!(d.len(), 0);
}

#[test]
fn log_read_errors_are_recorded() {
    let mut c = LogCollection::new();
    c.record_standard_log(&"/x".to_string(), Err(LogReadError::Missing));
    c.record_application_log(&"nginx".to_string(), &"/y".to_string(), Err(LogReadError::Binary));
    c.record_standard_log(&"/z".to_string(), Err(LogReadError::Io("permission denied".to_string())));
    c.record_standard_log(&"/w".to_string(), Ok("ok text".to_string()));
    assert_eq!(c.logs[0].1, "[Error reading log: File does not exist: /x]");
    assert_eq!(c.logs[1].1, "[Error reading nginx log: File appears to be binary: /y]");
    assert_eq!(c.logs[2].1, "[Error reading log: permission denied]");
    assert_eq!(c.logs[3].1, "ok text");
}

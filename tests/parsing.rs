use killall::{list_all, Error, PsEntry};

#[test]
fn parses_well_formed_line() {
    let e = PsEntry::try_from("  501   123   1  ... ignored ...").unwrap();
    assert_eq!(e.uid, "501");
    assert_eq!(e.pid, 123);
    assert_eq!(e.ppid, 1);
    assert_eq!(e.command, "... ignored ...");
}

#[test]
fn parses_user_name_owner_and_tabs() {
    let e = PsEntry::try_from("alice\t42\t7\t/usr/bin/nginx -g daemon off;\r").unwrap();
    assert_eq!(e.uid, "alice");
    assert_eq!(e.pid, 42);
    assert_eq!(e.ppid, 7);
    assert_eq!(e.command, "/usr/bin/nginx -g daemon off;");
}

#[test]
fn three_fields_give_empty_command() {
    let e = PsEntry::try_from("root 1 0").unwrap();
    assert_eq!(e.uid, "root");
    assert_eq!(e.pid, 1);
    assert_eq!(e.ppid, 0);
    assert_eq!(e.command, "");
}

#[test]
fn fewer_than_three_fields_fail() {
    let err = PsEntry::try_from("  501   123  ").unwrap_err();
    assert_eq!(err.text, "  501   123  ");
    assert!(PsEntry::try_from("").is_err());
    assert!(PsEntry::try_from("501").is_err());
}

#[test]
fn non_numeric_pid_or_ppid_fails() {
    let err = PsEntry::try_from("501 abc 1 cmd").unwrap_err();
    assert_eq!(err.text, "501 abc 1 cmd");
    assert!(PsEntry::try_from("501 12 x1 cmd").is_err());
    assert!(PsEntry::try_from("501 -12 1 cmd").is_err());
}

#[test]
fn pid_too_large_fails() {
    assert!(PsEntry::try_from("501 99999999999999999999999 1 cmd").is_err());
    let e = PsEntry::try_from("501 18446744073709551615 1 cmd");
    if usize::MAX as u128 == 18446744073709551615u128 {
        assert_eq!(e.unwrap().pid, usize::MAX);
    }
}

#[test]
fn listing_skips_first_line_whatever_it_holds() {
    let out = b"this header is not an entry\n  501 10 1 bash\n 0 11 10 vim notes.txt\n".to_vec();
    let v = list_all(out).unwrap();
    assert_eq!(v.len(), 2);
    assert_eq!(v[0].pid, 10);
    assert_eq!(v[0].command, "bash");
    assert_eq!(v[1].uid, "0");
    assert_eq!(v[1].ppid, 10);
    assert_eq!(v[1].command, "vim notes.txt");

    let other = b"  UID   PID  PPID COMMAND\n  501 10 1 bash\n 0 11 10 vim notes.txt".to_vec();
    let w = list_all(other).unwrap();
    assert_eq!(w.len(), 2);
    assert_eq!(w[1].pid, 11);

    let entry_header = b"7 8 9 looks like an entry
  501 10 1 bash
".to_vec();
    let x = list_all(entry_header).unwrap();
    assert_eq!(x.len(), 1);
    assert_eq!(x[0].pid, 10);
}

#[test]
fn listing_of_header_alone_is_empty() {
    assert_eq!(list_all(b"UID PID PPID COMMAND\n".to_vec()).unwrap().len(), 0);
    assert_eq!(list_all(Vec::new()).unwrap().len(), 0);
}

#[test]
fn listing_with_crlf_lines() {
    let v = list_all(b"UID PID PPID CMD\r\n1 2 3 sh\r\n4 5 6 ksh\r\n".to_vec()).unwrap();
    assert_eq!(v.len(), 2);
    assert_eq!(v[0].command, "sh");
    assert_eq!(v[1].pid, 5);
}

#[test]
fn malformed_line_aborts_listing() {
    let out = b"UID PID PPID CMD\n1 2 3 ok\nbroken line\n4 5 6 never\n".to_vec();
    match list_all(out) {
        Err(Error::ParsingError { e }) => assert_eq!(e.text, "broken line"),
        other => panic!("unexpected: {:?}", other),
    }
}

#[test]
fn invalid_utf8_is_an_error() {
    let out = vec![b'U', b'\n', 0xff, b' ', b'1', b' ', b'2'];
    assert!(matches!(list_all(out), Err(Error::Utf8Error { .. })));
}

#[test]
fn unicode_whitespace_separates_fields() {
    let e = PsEntry::try_from("\u{3000}501\u{a0}12\u{2003}1\u{85}top -d 1 ").unwrap();
    assert_eq!(e.uid, "501");
    assert_eq!(e.pid, 12);
    assert_eq!(e.ppid, 1);
    assert_eq!(e.command, "top -d 1");
}

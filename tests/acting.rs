use killall::{list_matches, plan, process, Action, Error, PsEntry, UID};

fn entry(uid: &str, pid: usize, command: &str) -> PsEntry {
    PsEntry { uid: uid.to_string(), pid, ppid: 1, command: command.to_string() }
}

fn alice() -> UID {
    UID { uid: "501".to_string(), uname: "alice".to_string() }
}

#[test]
fn identity_matches_id_or_name() {
    let u = alice();
    assert!(u.matches("501"));
    assert!(u.matches("alice"));
    assert!(!u.matches("502"));
    assert!(!u.matches("bob"));
    assert!(!u.matches("Alice"));
    assert!(!u.matches(" 501"));
}

#[test]
fn identity_from_lookup_outputs() {
    let u = UID::get(b"501\n".to_vec(), b"  alice \n".to_vec()).unwrap();
    assert_eq!(u.uid, "501");
    assert_eq!(u.uname, "alice");
}

#[test]
fn failed_identity_lookup_is_an_error() {
    assert!(matches!(UID::get(Vec::new(), b"\n".to_vec()), Err(Error::LookupError)));
    assert!(matches!(UID::get(b"  \n".to_vec(), b"alice\n".to_vec()), Err(Error::LookupError)));
    assert!(matches!(UID::get(b"501\n".to_vec(), Vec::new()), Err(Error::LookupError)));
    assert!(matches!(UID::get(Vec::new(), vec![0xff]), Err(Error::LookupError)));
    assert!(matches!(UID::get(b"501".to_vec(), vec![0xff]), Err(Error::Utf8Error { .. })));
}

#[test]
fn identity_lookup_output_must_be_utf8() {
    assert!(matches!(UID::get(vec![0xc3], b"alice".to_vec()), Err(Error::Utf8Error { .. })));
    assert!(matches!(UID::get(b"501".to_vec(), vec![0xff, 0xfe]), Err(Error::Utf8Error { .. })));
}

#[test]
fn process_skips_other_owners() {
    assert!(process(&entry("bob", 5, "x"), &alice(), false).is_none());
    assert!(process(&entry("502", 5, "x"), &alice(), true).is_none());
}

#[test]
fn process_reports_or_kills_own_entries() {
    match process(&entry("alice", 5, "x"), &alice(), true) {
        Some(Action::Report(e)) => assert_eq!(e.pid, 5),
        other => panic!("unexpected: {:?}", other),
    }
    assert!(matches!(process(&entry("501", 6, "x"), &alice(), false), Some(Action::Kill(6))));
}

#[test]
fn plan_keeps_order_and_owner() {
    let jobs = vec![entry("501", 1, "a"), entry("bob", 2, "b"), entry("alice", 3, "c")];
    let acts = plan(&jobs, &alice(), false);
    assert_eq!(acts.len(), 2);
    assert!(matches!(acts[0], Action::Kill(1)));
    assert!(matches!(acts[1], Action::Kill(3)));
}

#[test]
fn dry_run_plans_only_reports_every_time() {
    let jobs = vec![entry("501", 1, "a"), entry("bob", 2, "b"), entry("alice", 3, "c")];
    for _ in 0..3 {
        let acts = plan(&jobs, &alice(), true);
        assert_eq!(acts.len(), 2);
        assert!(acts.iter().all(|a| matches!(a, Action::Report(_))));
    }
}

#[test]
fn no_match_means_no_termination() {
    let all = vec![entry("501", 1, "bash"), entry("501", 2, "vim")];
    let selected = list_matches("nginx", &all).unwrap();
    assert!(selected.is_empty());
    assert!(plan(&selected, &alice(), false).is_empty());
}

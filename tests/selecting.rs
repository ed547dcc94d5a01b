use killall::{compile_pattern, list_descendants, list_matches, select_flagged, select_matching, Error, PsEntry};

fn entry(uid: &str, pid: usize, ppid: usize, command: &str) -> PsEntry {
    PsEntry { uid: uid.to_string(), pid, ppid, command: command.to_string() }
}

fn tree() -> Vec<PsEntry> {
    vec![
        entry("501", 1, 0, "init"),
        entry("501", 2, 1, "a"),
        entry("501", 3, 1, "b"),
        entry("501", 4, 2, "c"),
    ]
}

fn sorted_pids(v: &[PsEntry]) -> Vec<usize> {
    let mut p: Vec<usize> = v.iter().map(|e| e.pid).collect();
    p.sort();
    p
}

#[test]
fn descendants_of_root_are_the_whole_tree() {
    let all = tree();
    let d = list_descendants(&all, 1);
    assert_eq!(sorted_pids(&d), vec![1, 2, 3, 4]);
}

#[test]
fn descendants_of_absent_pid_are_empty() {
    let all = tree();
    assert!(list_descendants(&all, 99).is_empty());
}

#[test]
fn descendants_of_inner_node() {
    let mut all = tree();
    all.push(entry("0", 5, 3, "d"));
    all.push(entry("0", 6, 99, "orphan"));
    assert_eq!(sorted_pids(&list_descendants(&all, 2)), vec![2, 4]);
    assert_eq!(sorted_pids(&list_descendants(&all, 3)), vec![3, 5]);
    assert_eq!(sorted_pids(&list_descendants(&all, 4)), vec![4]);
}

#[test]
fn descendants_terminate_on_self_parented_root() {
    let all = vec![entry("0", 0, 0, "kernel_task"), entry("0", 1, 0, "launchd"), entry("0", 2, 1, "x")];
    assert_eq!(sorted_pids(&list_descendants(&all, 0)), vec![0, 1, 2]);
}

#[test]
fn descendants_terminate_on_cycle() {
    let all = vec![entry("0", 7, 8, "p"), entry("0", 8, 7, "q")];
    assert_eq!(sorted_pids(&list_descendants(&all, 7)), vec![7, 8]);
}

fn servers() -> Vec<PsEntry> {
    vec![
        entry("501", 10, 1, "nginx: worker"),
        entry("501", 11, 1, "nginx: master"),
        entry("501", 12, 1, "bash"),
    ]
}

#[test]
fn pattern_selects_the_nginx_records() {
    let all = servers();
    let m = list_matches("nginx", &all).unwrap();
    assert_eq!(m.len(), 2);
    assert_eq!(m[0].command, "nginx: worker");
    assert_eq!(m[1].command, "nginx: master");
    let anchored = list_matches("^nginx", &all).unwrap();
    assert_eq!(sorted_pids(&anchored), vec![10, 11]);
}

#[test]
fn pattern_is_a_search_and_case_sensitive() {
    let all = servers();
    assert_eq!(sorted_pids(&list_matches("worker", &all).unwrap()), vec![10]);
    assert!(list_matches("NGINX", &all).unwrap().is_empty());
}

#[test]
fn pattern_matching_nothing_selects_nothing() {
    let all = servers();
    assert!(list_matches("postgres", &all).unwrap().is_empty());
}

#[test]
fn invalid_pattern_is_an_error() {
    let all = servers();
    assert!(matches!(list_matches("(unclosed", &all), Err(Error::RegexError { .. })));
}

#[test]
fn flagged_entries_are_kept_in_order() {
    let all = servers();
    let kept = select_flagged(&all, &vec![true, false, true]);
    assert_eq!(kept.len(), 2);
    assert_eq!(kept[0].pid, 10);
    assert_eq!(kept[1].pid, 12);
    assert!(select_flagged(&all, &vec![false, false, false]).is_empty());
}

#[test]
fn compiled_pattern_selects_in_order() {
    let all = servers();
    let p = compile_pattern("master|bash").unwrap();
    let m = select_matching(&p, &all);
    assert_eq!(m.len(), 2);
    assert_eq!(m[0].pid, 11);
    assert_eq!(m[1].pid, 12);
    assert!(select_matching(&p, &Vec::new()).is_empty());
}

#[test]
fn compile_rejects_invalid_pattern() {
    assert!(matches!(compile_pattern("[a-"), Err(Error::RegexError { .. })));
}

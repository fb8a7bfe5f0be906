use git_ui::git::{
    collect, file_status, parse_name_status, resolve_mode, untracked_paths, Fetch, FileDiff, Mode,
    Outcome, Probe, Resolution, EMPTY_TREE,
};

#[test]
fn name_status_takes_status_and_last_path() {
    let raw = "M\tsrc/a.rs\nR100\told.rs\tnew.rs\nA\tb.txt\n\nnot-an-entry\n";
    let got = parse_name_status(raw);
    assert_eq!(
        got,
        vec![
            ('M', "src/a.rs".to_string()),
            ('R', "new.rs".to_string()),
            ('A', "b.txt".to_string()),
        ]
    );
}

#[test]
fn name_status_skips_empty_status_field() {
    assert!(parse_name_status("\tpath\n").is_empty());
}

#[test]
fn untracked_paths_skip_blank_lines() {
    assert_eq!(untracked_paths("a\n\nb\n"), vec!["a", "b"]);
}

#[test]
fn file_status_from_presence() {
    assert_eq!(file_status(true, true), Some('M'));
    assert_eq!(file_status(false, true), Some('A'));
    assert_eq!(file_status(true, false), Some('D'));
    assert_eq!(file_status(false, false), None);
}

#[test]
fn all_is_a_keyword() {
    assert!(matches!(resolve_mode("all", None, None), Resolution::Resolved(Mode::All)));
}

#[test]
fn file_wins_over_revision() {
    assert!(matches!(resolve_mode("HEAD", None, None), Resolution::Ask(Probe::Path)));
    match resolve_mode("HEAD", Some(true), None) {
        Resolution::Resolved(Mode::File(p)) => assert_eq!(p, "HEAD"),
        other => panic!("unexpected {other:?}"),
    }
    assert!(matches!(resolve_mode("HEAD", Some(false), None), Resolution::Ask(Probe::Commit)));
    match resolve_mode("HEAD", Some(false), Some(true)) {
        Resolution::Resolved(Mode::Commit(c)) => assert_eq!(c, "HEAD"),
        other => panic!("unexpected {other:?}"),
    }
    assert!(matches!(resolve_mode("nope", Some(false), Some(false)), Resolution::Unknown));
}

fn s(x: &str) -> Option<String> {
    Some(x.to_string())
}

#[test]
fn single_file_is_read_twice_and_diffed() {
    let mode = Mode::File("a.rs".to_string());
    let mut replies = vec![];
    assert!(matches!(collect(&mode, &replies), Outcome::Ask(Fetch::Show { .. })));
    replies.push(s("old"));
    assert!(matches!(collect(&mode, &replies), Outcome::Ask(Fetch::Working { .. })));
    replies.push(None);
    replies.push(s("old2"));
    replies.push(None);
    match collect(&mode, &replies) {
        Outcome::Finished(files) => {
            assert_eq!(files.len(), 1);
            assert_eq!(files[0].status, 'D');
            assert_eq!(files[0].old.as_deref(), Some("old2"));
            assert_eq!(files[0].new, None);
        }
        _ => panic!("expected files"),
    }
}

#[test]
fn missing_single_file_fails() {
    let mode = Mode::File("gone.rs".to_string());
    match collect(&mode, &vec![None, None]) {
        Outcome::Failed(p) => assert_eq!(p, "gone.rs"),
        _ => panic!("expected failure"),
    }
}

#[test]
fn all_mode_lists_changes_then_untracked() {
    let mode = Mode::All;
    let mut replies: Vec<Option<String>> = vec![];
    match collect(&mode, &replies) {
        Outcome::Ask(Fetch::NameStatus { base, target }) => {
            assert_eq!(base, "HEAD");
            assert_eq!(target, None);
        }
        _ => panic!(),
    }
    replies.push(s("M\ta.rs\n"));
    match collect(&mode, &replies) {
        Outcome::Ask(Fetch::Show { rev, path }) => {
            assert_eq!(rev, "HEAD");
            assert_eq!(path, "a.rs");
        }
        _ => panic!(),
    }
    replies.push(s("a1"));
    match collect(&mode, &replies) {
        Outcome::Ask(Fetch::Working { path }) => assert_eq!(path, "a.rs"),
        _ => panic!(),
    }
    replies.push(s("a2"));
    assert!(matches!(collect(&mode, &replies), Outcome::Ask(Fetch::Untracked)));
    replies.push(s("new.txt\n"));
    match collect(&mode, &replies) {
        Outcome::Ask(Fetch::Working { path }) => assert_eq!(path, "new.txt"),
        _ => panic!(),
    }
    replies.push(s("hello"));
    match collect(&mode, &replies) {
        Outcome::Finished(files) => {
            let got: Vec<(char, &str, Option<&str>, Option<&str>)> = files
                .iter()
                .map(|f: &FileDiff| (f.status, f.path.as_str(), f.old.as_deref(), f.new.as_deref()))
                .collect();
            assert_eq!(
                got,
                vec![('M', "a.rs", Some("a1"), Some("a2")), ('A', "new.txt", None, Some("hello"))]
            );
        }
        _ => panic!(),
    }
}

#[test]
fn root_commit_diffs_against_empty_tree() {
    let mode = Mode::Commit("abc".to_string());
    let mut replies: Vec<Option<String>> = vec![];
    match collect(&mode, &replies) {
        Outcome::Ask(Fetch::HasParent { id }) => assert_eq!(id, "abc"),
        _ => panic!(),
    }
    replies.push(None);
    match collect(&mode, &replies) {
        Outcome::Ask(Fetch::NameStatus { base, target }) => {
            assert_eq!(base, EMPTY_TREE);
            assert_eq!(target.as_deref(), Some("abc"));
        }
        _ => panic!(),
    }
    replies.push(s("A\tf.rs\n"));
    match collect(&mode, &replies) {
        Outcome::Ask(Fetch::Show { rev, path }) => {
            assert_eq!(rev, "abc");
            assert_eq!(path, "f.rs");
        }
        _ => panic!(),
    }
    replies.push(s("body"));
    match collect(&mode, &replies) {
        Outcome::Finished(files) => {
            assert_eq!(files.len(), 1);
            assert_eq!(files[0].old, None);
            assert_eq!(files[0].new.as_deref(), Some("body"));
        }
        _ => panic!(),
    }
}

#[test]
fn commit_with_parent_reads_both_sides() {
    let mode = Mode::Commit("abc".to_string());
    let mut replies: Vec<Option<String>> = vec![s("p\n")];
    match collect(&mode, &replies) {
        Outcome::Ask(Fetch::NameStatus { base, .. }) => assert_eq!(base, "abc^"),
        _ => panic!(),
    }
    replies.push(s("M\tf.rs\n"));
    match collect(&mode, &replies) {
        Outcome::Ask(Fetch::Show { rev, .. }) => assert_eq!(rev, "abc^"),
        _ => panic!(),
    }
    replies.push(s("before"));
    match collect(&mode, &replies) {
        Outcome::Ask(Fetch::Show { rev, .. }) => assert_eq!(rev, "abc"),
        _ => panic!(),
    }
    replies.push(s("after"));
    match collect(&mode, &replies) {
        Outcome::Finished(files) => {
            assert_eq!(files[0].old.as_deref(), Some("before"));
            assert_eq!(files[0].new.as_deref(), Some("after"));
        }
        _ => panic!(),
    }
}

use blame::app::App;
use blame::file_blame::{install_commits, missing_commits, parse_lines, CommitCache, FileBlame};

/// Builds a snapshot out of blame-line texts, fetching each missing commit
/// summary through `summary_of`, exactly as the program drives the stages.
fn build(
    cache: &mut CommitCache,
    filepath: &str,
    gitref: &str,
    texts: &[&str],
    summary_of: &dyn Fn(&str) -> String,
) -> FileBlame {
    let blame_lines: Vec<String> = texts.iter().map(|s| s.to_string()).collect();
    let records = parse_lines(&blame_lines).unwrap();
    let idxs = missing_commits(&records, cache);
    let summaries: Vec<String> =
        idxs.iter().map(|&i| summary_of(&records[i].commit_sha)).collect();
    install_commits(cache, &records, &idxs, &summaries);
    FileBlame::parse(&filepath.to_string(), &gitref.to_string(), &records, cache).unwrap()
}

fn summaries(sha: &str) -> String {
    match sha {
        "aaaa1111" => "-initial".to_string(),
        "bbbb2222" => "aaaa1111-second".to_string(),
        "cccc3333" => "bbbb2222-third".to_string(),
        _ => "-unknown".to_string(),
    }
}

/// Five lines in three blocks: aaaa, aaaa | bbbb, bbbb | cccc.
fn three_block_app() -> App {
    let mut app = App::new("/tmp/f.rs".to_string(), "HEAD".to_string());
    let fb = build(
        &mut app.commit_cache,
        "/tmp/f.rs",
        "HEAD",
        &[
            "aaaa1111 (AB 2019-01-01 12:00:00 -0400 1) l1",
            "aaaa1111 (AB 2019-01-01 12:00:00 -0400 2) l2",
            "bbbb2222 (CD 2020-06-01 08:30:00 +0200 3) l3",
            "bbbb2222 (CD 2020-06-01 08:30:00 +0200 4) l4",
            "cccc3333 (EF 2021-03-04 10:00:00 +0000 5) l5",
        ],
        &summaries,
    );
    app.install_snapshot(fb, "/tmp/f.rs".to_string(), "HEAD".to_string());
    app
}

#[test]
fn first_load_selects_the_top_line() {
    let app = three_block_app();
    assert_eq!(app.selected, Some(0));
    assert!(app.running);
    assert!(app.load_err.is_none());
}

#[test]
fn next_line_wraps_at_the_bottom() {
    let mut app = three_block_app();
    for expected in [1, 2, 3, 4, 0, 1] {
        app.next_line();
        assert_eq!(app.selected, Some(expected));
    }
}

#[test]
fn previous_line_wraps_at_the_top() {
    let mut app = three_block_app();
    for expected in [4, 3, 2, 1, 0, 4] {
        app.previous_line();
        assert_eq!(app.selected, Some(expected));
    }
}

#[test]
fn next_block_visits_block_starts_and_sticks_at_the_last() {
    let mut app = three_block_app();
    app.next_block();
    assert_eq!(app.selected, Some(2));
    app.next_block();
    assert_eq!(app.selected, Some(4));
    app.next_block();
    assert_eq!(app.selected, Some(4));
    app.next_block();
    assert_eq!(app.selected, Some(4));
}

#[test]
fn previous_block_returns_to_each_block_start() {
    let mut app = three_block_app();
    app.selected = Some(4);
    app.previous_block();
    assert_eq!(app.selected, Some(2));
    app.previous_block();
    assert_eq!(app.selected, Some(0));
    app.previous_block();
    assert_eq!(app.selected, Some(0));
}

#[test]
fn selection_is_clamped_when_the_new_snapshot_is_shorter() {
    let mut app = App::new("/tmp/f.rs".to_string(), "HEAD".to_string());
    let ten: Vec<String> = (1..=10)
        .map(|n| format!("aaaa1111 (AB 2019-01-01 12:00:00 -0400 {}) line", n))
        .collect();
    let ten_refs: Vec<&str> = ten.iter().map(|s| s.as_str()).collect();
    let fb = build(&mut app.commit_cache, "/tmp/f.rs", "HEAD", &ten_refs, &summaries);
    app.install_snapshot(fb, "/tmp/f.rs".to_string(), "HEAD".to_string());
    app.selected = Some(9);

    let five: Vec<String> = (1..=5)
        .map(|n| format!("aaaa1111 (AB 2019-01-01 12:00:00 -0400 {}) line", n))
        .collect();
    let five_refs: Vec<&str> = five.iter().map(|s| s.as_str()).collect();
    let fb5 = build(&mut app.commit_cache, "/tmp/f.rs", "aaaa1111", &five_refs, &summaries);
    app.install_snapshot(fb5, "/tmp/f.rs".to_string(), "aaaa1111".to_string());
    assert_eq!(app.selected, Some(4));
}

#[test]
fn drill_down_and_back_restores_ref_stack_and_content() {
    let mut app = three_block_app();
    app.selected = Some(2);
    let before_lines = app.file_blame.as_ref().unwrap().blame_lines.clone();
    let stack_len_before = app.commit_stack.len();

    // the selected line belongs to bbbb2222, whose parent is aaaa1111
    let target = app.next_commit_target();
    assert_eq!(target.as_deref(), Some("aaaa1111"));
    let parent = app.next_commit(true).unwrap();
    assert_eq!(parent, "aaaa1111");
    assert_eq!(app.commit_stack.len(), stack_len_before + 1);
    let fb = build(
        &mut app.commit_cache,
        "/tmp/f.rs",
        &parent,
        &[
            "aaaa1111 (AB 2019-01-01 12:00:00 -0400 1) old l1",
            "aaaa1111 (AB 2019-01-01 12:00:00 -0400 2) old l2",
        ],
        &summaries,
    );
    app.install_snapshot(fb, "/tmp/f.rs".to_string(), parent);
    assert_eq!(app.commit_sha, "aaaa1111");

    // back: pop the stack and rebuild at the popped ref with the same output
    let back = app.previous_commit().unwrap();
    assert_eq!(back, "HEAD");
    assert_eq!(app.commit_stack.len(), stack_len_before);
    let fb0 = build(
        &mut app.commit_cache,
        "/tmp/f.rs",
        &back,
        &[
            "aaaa1111 (AB 2019-01-01 12:00:00 -0400 1) l1",
            "aaaa1111 (AB 2019-01-01 12:00:00 -0400 2) l2",
            "bbbb2222 (CD 2020-06-01 08:30:00 +0200 3) l3",
            "bbbb2222 (CD 2020-06-01 08:30:00 +0200 4) l4",
            "cccc3333 (EF 2021-03-04 10:00:00 +0000 5) l5",
        ],
        &summaries,
    );
    app.install_snapshot(fb0, "/tmp/f.rs".to_string(), back);
    assert_eq!(app.commit_sha, "HEAD");
    assert_eq!(app.file_blame.as_ref().unwrap().blame_lines, before_lines);
}

#[test]
fn drill_down_from_a_root_commit_is_a_no_op() {
    let mut app = three_block_app();
    // line 0 belongs to aaaa1111, the root commit
    assert_eq!(app.selected, Some(0));
    assert!(app.next_commit_target().is_none());
    let lines_before = app.file_blame.as_ref().unwrap().blame_lines.clone();
    let r = app.next_commit(false);
    assert!(r.is_none());
    assert_eq!(app.selected, Some(0));
    assert_eq!(app.commit_stack.len(), 0);
    assert_eq!(app.commit_sha, "HEAD");
    assert_eq!(app.file_blame.as_ref().unwrap().blame_lines, lines_before);
}

#[test]
fn drill_down_needs_the_file_at_the_parent_ref() {
    let mut app = three_block_app();
    app.selected = Some(2);
    // the parent exists, but the file does not exist there: no-op
    let r = app.next_commit(false);
    assert!(r.is_none());
    assert_eq!(app.commit_stack.len(), 0);
    assert_eq!(app.commit_sha, "HEAD");
}

#[test]
fn back_navigation_on_an_empty_stack_is_a_no_op() {
    let mut app = three_block_app();
    assert!(app.previous_commit().is_none());
    assert_eq!(app.commit_sha, "HEAD");
}

#[test]
fn navigation_before_the_first_snapshot_is_a_no_op() {
    let mut app = App::new("/tmp/f.rs".to_string(), "HEAD".to_string());
    app.next_line();
    app.previous_line();
    app.next_block();
    app.previous_block();
    assert_eq!(app.selected, None);
    assert!(app.next_commit_target().is_none());
}

#[test]
fn a_failed_build_ends_the_session_with_the_error() {
    let mut app = App::new("/nope".to_string(), "HEAD".to_string());
    app.fail_load(blame::file_blame::FileBlameError::NotExist);
    assert!(!app.running);
    assert_eq!(app.load_err.as_ref().unwrap().message(), "File doesn't exist");
}

#[test]
fn quit_stops_the_session() {
    let mut app = three_block_app();
    app.tick();
    app.quit();
    assert!(!app.running);
}

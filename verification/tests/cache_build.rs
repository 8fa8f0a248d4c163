use std::cell::Cell;

use blame::file_blame::{
    classify_blame_output, commit_from_summary, first_probe, install_commits, missing_commits,
    parse_lines, probe_step, BuildProbe, CommitCache, FileBlame, FileBlameError,
};

fn lines(texts: &[&str]) -> Vec<String> {
    texts.iter().map(|s| s.to_string()).collect()
}

#[test]
fn each_distinct_commit_is_fetched_once() {
    let blame_lines = lines(&[
        "aaaa1111 (AB 2019-01-01 12:00:00 -0400 1) one",
        "aaaa1111 (AB 2019-01-01 12:00:00 -0400 2) two",
        "aaaa1111 (AB 2019-01-01 12:00:00 -0400 3) three",
        "bbbb2222 (CD 2020-06-01 08:30:00 +0200 4) four",
        "aaaa1111 (AB 2019-01-01 12:00:00 -0400 5) five",
    ]);
    let records = parse_lines(&blame_lines).unwrap();
    let mut cache = CommitCache::new();

    let fetches = Cell::new(0usize);
    let idxs = missing_commits(&records, &cache);
    // one fetch per distinct sha, at its first occurrence, in file order
    assert_eq!(idxs, vec![0, 3]);
    let summaries: Vec<String> = idxs
        .iter()
        .map(|&i| {
            fetches.set(fetches.get() + 1);
            if records[i].commit_sha == "aaaa1111" {
                "-initial".to_string()
            } else {
                "aaaa1111-later work".to_string()
            }
        })
        .collect();
    install_commits(&mut cache, &records, &idxs, &summaries);
    assert_eq!(fetches.get(), 2);

    // a second build over the same lines needs no fetch at all
    let again = missing_commits(&records, &cache);
    assert!(again.is_empty());

    let a = cache.get(&"aaaa1111".to_string()).unwrap();
    assert_eq!(a.author, "AB");
    assert_eq!(a.timestamp, "2019-01-01 12:00:00 -0400");
    assert_eq!(a.commit_message, "initial");
    assert!(a.parent_commit_sha.is_none());
    let b = cache.get(&"bbbb2222".to_string()).unwrap();
    assert_eq!(b.author, "CD");
    assert_eq!(b.commit_message, "later work");
    assert_eq!(b.parent_commit_sha.as_deref(), Some("aaaa1111"));
}

#[test]
fn summary_splits_on_the_first_dash_only() {
    let blame_lines = lines(&["cccc3333 (EF 2021-03-04 10:00:00 +0000 1) x"]);
    let records = parse_lines(&blame_lines).unwrap();
    let commit = commit_from_summary(&records[0], &"dddd4444-fix off-by-one".to_string());
    assert_eq!(commit.parent_commit_sha.as_deref(), Some("dddd4444"));
    assert_eq!(commit.commit_message, "fix off-by-one");
    assert_eq!(commit.sha, "cccc3333");
}

#[test]
fn one_malformed_line_fails_the_whole_parse() {
    let blame_lines = lines(&[
        "aaaa1111 (AB 2019-01-01 12:00:00 -0400 1) fine",
        "this is no blame output",
        "bbbb2222 (CD 2020-06-01 08:30:00 +0200 3) fine too",
    ]);
    match parse_lines(&blame_lines) {
        Err(FileBlameError::Unknown(detail)) => assert_eq!(detail, "this is no blame output"),
        _ => panic!("expected the Unknown error"),
    }
}

#[test]
fn probe_sequence_classifies_each_failure() {
    assert!(matches!(first_probe(), BuildProbe::PathExists));
    assert!(matches!(
        probe_step(BuildProbe::PathExists, false),
        Err(FileBlameError::NotExist)
    ));
    assert!(matches!(
        probe_step(BuildProbe::PathExists, true),
        Ok(Some(BuildProbe::IsFile))
    ));
    assert!(matches!(probe_step(BuildProbe::IsFile, false), Err(FileBlameError::NotFile)));
    assert!(matches!(
        probe_step(BuildProbe::IsFile, true),
        Ok(Some(BuildProbe::InsideWorkTree))
    ));
    assert!(matches!(
        probe_step(BuildProbe::InsideWorkTree, false),
        Err(FileBlameError::NotGit)
    ));
    assert!(matches!(
        probe_step(BuildProbe::InsideWorkTree, true),
        Ok(Some(BuildProbe::ExistsAtRef))
    ));
    assert!(matches!(
        probe_step(BuildProbe::ExistsAtRef, false),
        Err(FileBlameError::MissingAtCommit)
    ));
    assert!(matches!(probe_step(BuildProbe::ExistsAtRef, true), Ok(None)));
}

#[test]
fn blame_query_failure_keeps_the_diagnostic_verbatim() {
    assert!(classify_blame_output(true, String::new()).is_none());
    match classify_blame_output(false, "fatal: bad revision".to_string()) {
        Some(FileBlameError::Unknown(detail)) => assert_eq!(detail, "fatal: bad revision"),
        _ => panic!("expected the Unknown error"),
    }
}

#[test]
fn error_messages_render_each_kind() {
    assert_eq!(FileBlameError::NotExist.message(), "File doesn't exist");
    assert_eq!(FileBlameError::NotFile.message(), "Provided path is not a regular file");
    assert_eq!(FileBlameError::NotGit.message(), "File is not in a git repository");
    assert_eq!(FileBlameError::MissingAtCommit.message(), "File does not exist at commit");
    assert_eq!(
        FileBlameError::Unknown("boom".to_string()).message(),
        "Unknown error: boom"
    );
}

#[test]
fn assembles_lines_in_file_order() {
    let blame_lines = lines(&[
        "aaaa1111 (AB 2019-01-01 12:00:00 -0400 10) first",
        "bbbb2222 (CD 2020-06-01 08:30:00 +0200 11) second",
    ]);
    let records = parse_lines(&blame_lines).unwrap();
    let mut cache = CommitCache::new();
    let idxs = missing_commits(&records, &cache);
    let summaries = vec!["-a".to_string(), "aaaa1111-b".to_string()];
    install_commits(&mut cache, &records, &idxs, &summaries);
    let fb = FileBlame::parse(
        &"/tmp/file.rs".to_string(),
        &"HEAD".to_string(),
        &records,
        &cache,
    )
    .unwrap();
    assert_eq!(fb.filepath, "/tmp/file.rs");
    assert_eq!(fb.commit_sha, "HEAD");
    assert_eq!(fb.blame_lines.len(), 2);
    assert_eq!(fb.blame_lines[0].commit_sha, "aaaa1111");
    assert_eq!(fb.blame_lines[0].line_number, "10");
    assert_eq!(fb.blame_lines[0].contents, "first");
    assert_eq!(fb.blame_lines[1].commit_sha, "bbbb2222");
    assert_eq!(fb.blame_lines[1].line_number, "11");
    assert_eq!(fb.blame_lines[1].contents, "second");
}

#[test]
fn assembly_refuses_a_sha_without_metadata() {
    let blame_lines = lines(&["aaaa1111 (AB 2019-01-01 12:00:00 -0400 1) x"]);
    let records = parse_lines(&blame_lines).unwrap();
    let cache = CommitCache::new();
    match FileBlame::parse(&"f".to_string(), &"HEAD".to_string(), &records, &cache) {
        Err(FileBlameError::Unknown(detail)) => assert_eq!(detail, "aaaa1111"),
        _ => panic!("expected the Unknown error"),
    }
}

#[test]
fn decorated_contents_replace_only_the_text() {
    let blame_lines = lines(&["aaaa1111 (AB 2019-01-01 12:00:00 -0400 1) plain"]);
    let records = parse_lines(&blame_lines).unwrap();
    let mut cache = CommitCache::new();
    let idxs = missing_commits(&records, &cache);
    install_commits(&mut cache, &records, &idxs, &vec!["-m".to_string()]);
    let fb = FileBlame::parse(&"f".to_string(), &"HEAD".to_string(), &records, &cache).unwrap();
    let decorated = fb.with_decorated_contents(vec!["\u{1b}[31mplain\u{1b}[0m".to_string()]);
    assert_eq!(decorated.blame_lines[0].contents, "\u{1b}[31mplain\u{1b}[0m");
    assert_eq!(decorated.blame_lines[0].commit_sha, "aaaa1111");
    assert_eq!(decorated.blame_lines[0].line_number, "1");
    assert_eq!(decorated.filepath, "f");
}

use blame::parse::parse_line;

#[test]
fn parses_a_well_formed_blame_line() {
    let rec = parse_line("1e1d1c3c (John Doe 2019-01-01 12:00:00 -0400 142) let x = 1;").unwrap();
    assert_eq!(rec.commit_sha, "1e1d1c3c");
    assert_eq!(rec.author, "John Doe");
    assert_eq!(rec.timestamp, "2019-01-01 12:00:00 -0400");
    assert_eq!(rec.line_number, "142");
    assert_eq!(rec.contents, "let x = 1;");
}

#[test]
fn strips_the_boundary_marker_from_the_sha() {
    let plain = parse_line("1e1d1c3c (John Doe 2019-01-01 12:00:00 -0400 142) let x = 1;").unwrap();
    let boundary =
        parse_line("^1e1d1c3c (John Doe 2019-01-01 12:00:00 -0400 142) let x = 1;").unwrap();
    assert_eq!(boundary.commit_sha, "1e1d1c3c");
    assert_eq!(boundary.commit_sha, plain.commit_sha);
    assert_eq!(boundary.author, plain.author);
    assert_eq!(boundary.timestamp, plain.timestamp);
    assert_eq!(boundary.line_number, plain.line_number);
    assert_eq!(boundary.contents, plain.contents);
}

#[test]
fn boundary_and_plain_shas_are_one_cache_key() {
    let mut cache = blame::file_blame::CommitCache::new();
    let plain = parse_line("1e1d1c3c (John Doe 2019-01-01 12:00:00 -0400 142) let x = 1;").unwrap();
    let boundary =
        parse_line("^1e1d1c3c (John Doe 2019-01-01 12:00:00 -0400 142) let x = 1;").unwrap();
    let summary = "-first".to_string();
    let commit = blame::file_blame::commit_from_summary(&plain, &summary);
    cache.insert(commit);
    assert!(cache.contains(&plain.commit_sha));
    assert!(cache.contains(&boundary.commit_sha));
}

#[test]
fn discards_the_original_filename_token() {
    let rec =
        parse_line("1e1d1c3c src/old_name.rs (John Doe 2019-01-01 12:00:00 -0400 7) code").unwrap();
    assert_eq!(rec.commit_sha, "1e1d1c3c");
    assert_eq!(rec.author, "John Doe");
    assert_eq!(rec.line_number, "7");
    assert_eq!(rec.contents, "code");
}

#[test]
fn contents_may_hold_parentheses() {
    let rec =
        parse_line("abcd1234 (JD 2019-01-01 12:00:00 -0400 1) fn f(x: i32) -> (i32) {}").unwrap();
    assert_eq!(rec.contents, "fn f(x: i32) -> (i32) {}");
}

#[test]
fn author_name_is_as_long_as_the_shape_allows() {
    let rec = parse_line(
        "abcd1234 (AB 2019-01-01 12:00:00 -0400 5) x 2020-02-02 11:11:11 +0000 7) y",
    )
    .unwrap();
    assert_eq!(rec.author, "AB 2019-01-01 12:00:00 -0400 5) x");
    assert_eq!(rec.timestamp, "2020-02-02 11:11:11 +0000");
    assert_eq!(rec.line_number, "7");
    assert_eq!(rec.contents, "y");
}

#[test]
fn contents_may_be_empty() {
    let rec = parse_line("abcd (AB 2019-01-01 12:00:00 -0400 3) ").unwrap();
    assert_eq!(rec.contents, "");
    assert_eq!(rec.line_number, "3");
}

#[test]
fn sha_is_capped_at_forty_characters() {
    let rec = parse_line(
        "0123456789abcdef0123456789abcdef012345678 (AB 2019-01-01 12:00:00 -0400 1) x",
    )
    .unwrap();
    assert_eq!(rec.commit_sha, "0123456789abcdef0123456789abcdef01234567");
}

#[test]
fn rejects_lines_without_the_recognized_shape() {
    assert!(parse_line("").is_none());
    assert!(parse_line("not a blame line").is_none());
    // too short a sha
    assert!(parse_line("abc (AB 2019-01-01 12:00:00 -0400 1) x").is_none());
    // no space before the parenthesis
    assert!(parse_line("abcd1234(AB 2019-01-01 12:00:00 -0400 1) x").is_none());
    // malformed timestamp
    assert!(parse_line("abcd1234 (AB 2019/01/01 12:00:00 -0400 1) x").is_none());
    // no line number
    assert!(parse_line("abcd1234 (AB 2019-01-01 12:00:00 -0400 ) x").is_none());
    // uppercase hex is not a sha
    assert!(parse_line("ABCD1234 (AB 2019-01-01 12:00:00 -0400 1) x").is_none());
}

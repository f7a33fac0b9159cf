use crucible::git::{
    branch_pattern_matches, first_line, has_branch_wildcard, is_release_tag, short_hash,
    patch_has_room, start_position, GitManager, MAX_PATCH_BYTES,
};

#[test]
fn trailing_star_selects_by_prefix() {
    assert!(branch_pattern_matches("exp/*", "exp/null-move"));
    assert!(branch_pattern_matches("exp/*", "exp/"));
    assert!(!branch_pattern_matches("exp/*", "main"));
    assert!(!branch_pattern_matches("exp/*", "ex"));
}

#[test]
fn stars_match_any_run_of_characters() {
    assert!(branch_pattern_matches("*", "anything"));
    assert!(branch_pattern_matches("a*b*c", "aXXbYYc"));
    assert!(branch_pattern_matches("a*b*c", "abc"));
    assert!(!branch_pattern_matches("a*b*c", "acb"));
    assert!(!branch_pattern_matches("ab*b", "ab"));
    assert!(branch_pattern_matches("*-fix", "bug-fix"));
    assert!(!branch_pattern_matches("*-fix", "bug-fixes"));
    assert!(branch_pattern_matches("main", "main"));
    assert!(!branch_pattern_matches("main", "mainline"));
    assert!(has_branch_wildcard("release/*"));
    assert!(!has_branch_wildcard("release"));
}

#[test]
fn short_hashes_have_twelve_characters() {
    assert_eq!(short_hash("0123456789abcdef0123"), "0123456789ab");
    assert_eq!(short_hash("abc"), "abc");
}

#[test]
fn resolves_configured_branches() {
    let manager = GitManager::new("https://example.invalid/repo.git", "/tmp/repo", "make", "engine");
    let remote = vec!["main".to_string(), "exp/b".into(), "exp/a".into(), "dev".into()];
    let resolved = manager
        .resolve_branch_patterns(&remote, &vec![" exp/* ".into(), "main".into(), "".into(), "exp/a".into()])
        .unwrap();
    assert_eq!(resolved, vec!["exp/a".to_string(), "exp/b".into(), "main".into()]);
    let missing = manager.resolve_branch_patterns(&remote, &vec!["exp/*".into(), "feature".into()]);
    assert_eq!(missing.err().map(|e| e.branch), Some("feature".to_string()));
}

#[test]
fn release_tags_and_summary_lines() {
    assert!(is_release_tag("v1.2.0"));
    assert!(is_release_tag("V2"));
    assert!(is_release_tag("nightly-release-3"));
    assert!(!is_release_tag("nightly"));
    assert_eq!(first_line("fix: a\r\nbody"), "fix: a");
    assert_eq!(first_line("single"), "single");
    assert_eq!(first_line(""), "");
}

#[test]
fn commits_start_at_the_configured_revision() {
    let hashes = vec!["aaaa1111".to_string(), "bbbb2222".into(), "cccc3333".into()];
    let tags = vec![None, Some("v1.0.0".to_string()), None];
    assert_eq!(start_position(&hashes, &tags, None), Some(0));
    assert_eq!(start_position(&hashes, &tags, Some("cccc")), Some(2));
    assert_eq!(start_position(&hashes, &tags, Some("v1.0.0")), Some(1));
    assert_eq!(start_position(&hashes, &tags, Some("dddd")), None);
}

#[test]
fn remote_branch_names_strip_origin_and_sort() {
    let manager = GitManager::new("https://example.invalid/repo.git", "/tmp/repo", "make", "engine");
    let refs = vec![
        "origin/main".to_string(),
        "origin/HEAD".into(),
        "origin/exp/b".into(),
        "upstream/main".into(),
        "origin/dev".into(),
        "origin/exp/b".into(),
        "origin/".into(),
    ];
    assert_eq!(
        manager.remote_branch_names(&refs),
        vec!["".to_string(), "dev".into(), "exp/b".into(), "main".into()]
    );
    assert_eq!(manager.remote_branch_names(&vec![]), Vec::<String>::new());
}

#[test]
fn patches_are_cut_at_the_size_limit() {
    assert_eq!(MAX_PATCH_BYTES, 24 * 1024);
    assert!(patch_has_room(0, MAX_PATCH_BYTES));
    assert!(!patch_has_room(1, MAX_PATCH_BYTES));
    assert!(patch_has_room(24_000, 576));
    assert!(!patch_has_room(24_000, 577));
    assert!(!patch_has_room(usize::MAX, 1));
}

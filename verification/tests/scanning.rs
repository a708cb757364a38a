use scoop_find::{
    find_manifests, local_search, names_manifest, print_results, scan_bucket, sort_buckets, Bucket, ManifestFile,
    ScoopFindError, SearchError,
};

fn text(value: &str) -> String {
    value.to_string()
}

fn file(path: &str, content: &str) -> ManifestFile {
    ManifestFile { path: text(path), content: content.as_bytes().to_vec() }
}

fn hit(name: &str, version: &str, label: &str) -> (String, String, String) {
    (text(name), text(version), text(label))
}

fn bucket(name: &str, files: Vec<ManifestFile>) -> Bucket {
    Bucket { name: Some(text(name)), files }
}

#[test]
fn manifest_paths_end_in_json() {
    assert!(names_manifest("buckets/main/bucket/git.json"));
    assert!(!names_manifest("buckets/main/bucket/git.yaml"));
    assert!(!names_manifest("buckets/main/bucket/json"));
    assert!(!names_manifest("buckets/main/bucket/.json"));
    assert!(!names_manifest("buckets/main/bucket/git.Json"));
}

#[test]
fn scan_finds_name_and_executable_matches() {
    let files = vec![
        file("b/bucket/ripgrep.json", r#"{"version":"13.0.0","bin":"rg.exe"}"#),
        file("b/bucket/argrep.json", r#"{"version":"1.1","bin":["x.exe"]}"#),
        file("b/bucket/other.json", r#"{"version":"2.0","bin":[["tools/rg-helper.exe","rgh"]]}"#),
        file("b/bucket/unrelated.json", r#"{"version":"3.0","bin":"u.exe"}"#),
    ];
    assert_eq!(
        find_manifests(&files, "rg").unwrap(),
        vec![hit("argrep", "1.1", ""), hit("other", "2.0", "rg-helper.exe"), hit("ripgrep", "13.0.0", "rg.exe")]
    );
}

#[test]
fn scan_is_sorted_by_lowered_name_without_hyphens() {
    let files = vec![
        file("bucket/foobaz.json", r#"{"version":"1"}"#),
        file("bucket/Foo-Bar.json", r#"{"version":"2"}"#),
    ];
    assert_eq!(find_manifests(&files, "foo").unwrap(), vec![hit("Foo-Bar", "2", ""), hit("foobaz", "1", "")]);
}

#[test]
fn scan_keeps_the_order_of_files_among_equal_keys() {
    let files = vec![
        file("bucket/a-b.json", r#"{"version":"1"}"#),
        file("bucket/AB.json", r#"{"version":"2"}"#),
        file("bucket/ab.json", r#"{"version":"3"}"#),
        file("bucket/a.json", r#"{"version":"4"}"#),
    ];
    assert_eq!(
        find_manifests(&files, "a").unwrap(),
        vec![hit("a", "4", ""), hit("a-b", "1", ""), hit("AB", "2", ""), hit("ab", "3", "")]
    );
    let turned = vec![
        file("bucket/ab.json", r#"{"version":"3"}"#),
        file("bucket/a-b.json", r#"{"version":"1"}"#),
    ];
    assert_eq!(find_manifests(&turned, "a").unwrap(), vec![hit("ab", "3", ""), hit("a-b", "1", "")]);
}

#[test]
fn scan_lowers_the_query_once() {
    let files = vec![file("bucket/Git.json", r#"{"version":"2.40.0","bin":"cmd/GIT.exe"}"#)];
    assert_eq!(find_manifests(&files, "GIT").unwrap(), vec![hit("Git", "2.40.0", "")]);
    assert_eq!(find_manifests(&files, "gIt").unwrap(), vec![hit("Git", "2.40.0", "")]);
}

#[test]
fn empty_query_matches_every_manifest_with_a_version() {
    let files = vec![
        file("bucket/b.json", r#"{"version":"1"}"#),
        file("bucket/a.json", r#"{"version":"2"}"#),
        file("bucket/c.json", r#"{"version":""}"#),
        file("bucket/d.json", r#"{"bin":"d.exe"}"#),
    ];
    assert_eq!(find_manifests(&files, "").unwrap(), vec![hit("a", "2", ""), hit("b", "1", "")]);
}

#[test]
fn manifest_without_version_is_left_out() {
    let files = vec![
        file("bucket/git.json", r#"{"bin":"git.exe"}"#),
        file("bucket/git2.json", r#"{"version":"","bin":"git.exe"}"#),
        file("bucket/git3.json", r#"{"version":7,"bin":"git.exe"}"#),
    ];
    assert_eq!(find_manifests(&files, "git").unwrap(), vec![]);
}

#[test]
fn first_malformed_manifest_ends_the_scan() {
    let files = vec![
        file("bucket/a.json", r#"{"version":"1"}"#),
        file("bucket/b.json", r#"{"version":"#),
        file("bucket/c.json", "not json"),
    ];
    assert!(matches!(find_manifests(&files, "zzz"), Err(SearchError::Manifest { index: 1, .. })));
    let bytes = vec![ManifestFile { path: text("bucket/a.json"), content: vec![0xff, 0xfe] }];
    assert!(matches!(find_manifests(&bytes, "a"), Err(SearchError::Manifest { index: 0, .. })));
    let trailing = vec![file("bucket/a.json", r#"{"version":"1"} x"#)];
    assert!(matches!(find_manifests(&trailing, "a"), Err(SearchError::Manifest { index: 0, .. })));
}

#[test]
fn scan_of_no_files_is_empty() {
    assert_eq!(find_manifests(&Vec::new(), "git").unwrap(), vec![]);
}

#[test]
fn bucket_without_match_is_recorded_as_none() {
    let files = vec![file("bucket/git.json", r#"{"version":"1"}"#)];
    assert_eq!(scan_bucket(Some("main"), &files, "svn").unwrap(), None);
    assert_eq!(scan_bucket(None, &files, "svn").unwrap(), None);
}

#[test]
fn bucket_with_match_is_recorded_under_its_name() {
    let files = vec![file("bucket/git.json", r#"{"version":"1"}"#)];
    assert_eq!(scan_bucket(Some("main"), &files, "git").unwrap(), Some((text("main"), vec![hit("git", "1", "")])));
}

#[test]
fn bucket_with_match_and_without_name_is_a_fault() {
    let files = vec![file("bucket/git.json", r#"{"version":"1"}"#)];
    assert!(matches!(
        scan_bucket(None, &files, "git"),
        Err(SearchError::Scoop(ScoopFindError::ScoopBadInstalled))
    ));
}

#[test]
fn bucket_results_are_sorted_by_name() {
    let results = vec![
        (text("versions"), vec![hit("a", "1", "")]),
        (text("extras"), vec![hit("b", "1", "")]),
        (text("main"), vec![hit("c", "1", "")]),
        (text("Main"), vec![hit("d", "1", "")]),
    ];
    let names: Vec<String> = sort_buckets(results).into_iter().map(|result| result.0).collect();
    assert_eq!(names, vec![text("Main"), text("extras"), text("main"), text("versions")]);
}

#[test]
fn local_search_omits_empty_buckets_and_sorts_by_name() {
    let buckets = vec![
        bucket("versions", vec![file("v/bucket/git-old.json", r#"{"version":"1.9"}"#)]),
        bucket("extras", vec![file("e/bucket/vim.json", r#"{"version":"9.0"}"#)]),
        bucket("main", vec![
            file("m/bucket/git.json", r#"{"version":"2.40.0","bin":"git.exe"}"#),
            file("m/bucket/curl.json", r#"{"version":"8.0"}"#),
        ]),
        bucket("empty", vec![]),
    ];
    assert_eq!(
        local_search(&buckets, "git").unwrap(),
        vec![(text("main"), vec![hit("git", "2.40.0", "")]), (text("versions"), vec![hit("git-old", "1.9", "")])]
    );
    assert_eq!(local_search(&buckets, "nonexistent").unwrap(), vec![]);
}

#[test]
fn local_search_fails_on_the_first_faulty_bucket() {
    let buckets = vec![
        bucket("a", vec![file("a/bucket/x.json", r#"{"version":"1"}"#)]),
        bucket("b", vec![file("b/bucket/ok.json", "{}"), file("b/bucket/bad.json", "{")]),
        Bucket { name: None, files: vec![file("c/bucket/x.json", r#"{"version":"1"}"#)] },
    ];
    assert!(matches!(local_search(&buckets, "x"), Err(SearchError::Manifest { index: 1, .. })));
    let unnamed = vec![Bucket { name: None, files: vec![file("c/bucket/x.json", r#"{"version":"1"}"#)] }];
    assert!(matches!(local_search(&unnamed, "x"), Err(SearchError::Scoop(ScoopFindError::ScoopBadInstalled))));
    assert_eq!(local_search(&unnamed, "y").unwrap(), vec![]);
}

#[test]
fn installed_git_is_found_and_shown() {
    let buckets = vec![bucket("main", vec![file("root/buckets/main/bucket/git.json", r#"{"version":"2.40.0","bin":"git.exe"}"#)])];
    let results = local_search(&buckets, "git").unwrap();
    assert_eq!(results, vec![(text("main"), vec![hit("git", "2.40.0", "")])]);
    let shown = print_results(&results);
    assert_eq!(shown, "'main' bucket:\n    git (2.40.0)\n\n");
    assert!(shown.contains("'main' bucket:"));
    assert!(shown.contains("git (2.40.0)"));
}

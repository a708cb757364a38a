use scoop_find::manifest::{contains_query, match_manifest, name_matches, read_manifest, Bin, BinEntry, Manifest};

fn text(value: &str) -> String {
    value.to_string()
}

fn with_bin(version: &str, bin: Bin) -> Manifest {
    Manifest { version: Some(text(version)), bin }
}

fn hit(name: &str, version: &str, label: &str) -> Option<(String, String, String)> {
    Some((text(name), text(version), text(label)))
}

fn parsed(json: &str) -> Manifest {
    let root: serde_json::Value = serde_json::from_str(json).unwrap();
    read_manifest(&root)
}

#[test]
fn missing_version_never_matches() {
    let manifest = Manifest { version: None, bin: Bin::Path(text("git.exe")) };
    assert_eq!(match_manifest("git", &manifest, "git"), None);
    assert_eq!(match_manifest("git", &manifest, ""), None);
}

#[test]
fn empty_version_never_matches() {
    let manifest = with_bin("", Bin::Path(text("git.exe")));
    assert_eq!(match_manifest("git", &manifest, "git"), None);
    assert_eq!(match_manifest("git", &manifest, ""), None);
}

#[test]
fn empty_name_never_matches() {
    let manifest = with_bin("1.0", Bin::Path(text("git.exe")));
    assert_eq!(match_manifest("", &manifest, "git"), None);
    assert_eq!(match_manifest("", &manifest, ""), None);
}

#[test]
fn name_match_has_empty_label() {
    let manifest = with_bin("2.40.0", Bin::Path(text("git.exe")));
    assert_eq!(match_manifest("git", &manifest, "git"), hit("git", "2.40.0", ""));
    assert_eq!(match_manifest("git", &manifest, "i"), hit("git", "2.40.0", ""));
    assert_eq!(match_manifest("git", &manifest, ""), hit("git", "2.40.0", ""));
}

#[test]
fn name_is_lowered_before_it_is_searched() {
    let manifest = with_bin("1", Bin::Absent);
    assert_eq!(match_manifest("GitHub-CLI", &manifest, "hub-cli"), hit("GitHub-CLI", "1", ""));
}

#[test]
fn query_is_taken_as_it_is() {
    let manifest = with_bin("1", Bin::Absent);
    assert_eq!(match_manifest("git", &manifest, "GIT"), None);
}

#[test]
fn single_executable_matches_by_its_stem() {
    let manifest = with_bin("13.0", Bin::Path(text("bin/RG.exe")));
    assert_eq!(match_manifest("ripgrep", &manifest, "rg"), hit("ripgrep", "13.0", "RG.exe"));
    assert_eq!(match_manifest("ripgrep", &manifest, "exe"), None);
    assert_eq!(match_manifest("ripgrep", &manifest, "bin"), None);
}

#[test]
fn first_matching_executable_wins() {
    let bin = Bin::List(vec![
        BinEntry::Path(text("tools/other.exe")),
        BinEntry::Other,
        BinEntry::Path(text("tools/foo-one.exe")),
        BinEntry::Path(text("tools/foo-two.exe")),
    ]);
    assert_eq!(match_manifest("pkg", &with_bin("1", bin), "foo"), hit("pkg", "1", "foo-one.exe"));
}

#[test]
fn nested_array_offers_its_first_two_entries_only() {
    let nested = || {
        Bin::List(vec![BinEntry::Alias(vec![Some(text("foo.exe")), Some(text("bar.exe")), Some(text("baz.exe"))])])
    };
    assert_eq!(match_manifest("pkg", &with_bin("1", nested()), "baz"), None);
    assert_eq!(match_manifest("pkg", &with_bin("1", nested()), "bar"), hit("pkg", "1", "bar.exe"));
    assert_eq!(match_manifest("pkg", &with_bin("1", nested()), "foo"), hit("pkg", "1", "foo.exe"));
}

#[test]
fn nested_array_with_one_entry_or_none() {
    let one = Bin::List(vec![BinEntry::Alias(vec![Some(text("solo.exe"))])]);
    assert_eq!(match_manifest("pkg", &with_bin("1", one), "solo"), hit("pkg", "1", "solo.exe"));
    let none = Bin::List(vec![BinEntry::Alias(vec![])]);
    assert_eq!(match_manifest("pkg", &with_bin("1", none), "solo"), None);
    let gap = Bin::List(vec![BinEntry::Alias(vec![None, Some(text("second.exe")), Some(text("third.exe"))])]);
    assert_eq!(match_manifest("pkg", &with_bin("1", gap), "second"), hit("pkg", "1", "second.exe"));
}

#[test]
fn other_shapes_of_bin_do_not_match() {
    assert_eq!(match_manifest("pkg", &with_bin("1", Bin::Absent), "tool"), None);
    assert_eq!(match_manifest("pkg", &with_bin("1", Bin::Other), "tool"), None);
    assert_eq!(match_manifest("pkg", &with_bin("1", Bin::List(vec![])), "tool"), None);
}

#[test]
fn file_name_matches_by_its_lowered_stem() {
    assert!(name_matches("Tool.EXE", "tool"));
    assert!(name_matches("Tool.EXE", ""));
    assert!(!name_matches("Tool.EXE", "exe"));
    assert!(!name_matches("Tool.EXE", "Tool"));
    assert!(name_matches("tool.tar.gz", "l.tar"));
    assert!(name_matches(".tool", ".to"));
}

#[test]
fn label_is_the_file_name_of_the_path() {
    assert_eq!(contains_query("dir/sub/Tool.EXE", "tool"), Some(text("Tool.EXE")));
    assert_eq!(contains_query("tool", "tool"), Some(text("tool")));
    assert_eq!(contains_query("dir/tool.tar.gz", "tar"), Some(text("tool.tar.gz")));
    assert_eq!(contains_query("dir/tool.tar.gz", "gz"), None);
    assert_eq!(contains_query("tool/other.exe", "tool"), None);
    assert_eq!(contains_query("", ""), None);
    assert_eq!(contains_query("dir/..", ""), None);
    assert_eq!(contains_query("dir/x.exe", ""), Some(text("x.exe")));
}

#[test]
fn manifest_is_read_from_json() {
    assert_eq!(
        parsed(r#"{"version":"2.40.0","bin":"git.exe"}"#),
        Manifest { version: Some(text("2.40.0")), bin: Bin::Path(text("git.exe")) }
    );
    assert_eq!(parsed(r#"{"bin":7}"#), Manifest { version: None, bin: Bin::Other });
    assert_eq!(parsed(r#"{"version":3}"#), Manifest { version: None, bin: Bin::Absent });
    assert_eq!(parsed(r#"{"version":""}"#), Manifest { version: Some(text("")), bin: Bin::Absent });
    assert_eq!(parsed(r#"[1,2]"#), Manifest { version: None, bin: Bin::Absent });
    assert_eq!(parsed(r#""text""#), Manifest { version: None, bin: Bin::Absent });
    assert_eq!(
        parsed(r#"{"version":"1","bin":["a.exe",["b.exe","b",3],{"c":1},null,[]]}"#),
        Manifest {
            version: Some(text("1")),
            bin: Bin::List(vec![
                BinEntry::Path(text("a.exe")),
                BinEntry::Alias(vec![Some(text("b.exe")), Some(text("b")), None]),
                BinEntry::Other,
                BinEntry::Other,
                BinEntry::Alias(vec![]),
            ]),
        }
    );
}

#[test]
fn nested_array_example_read_from_json() {
    let manifest = parsed(r#"{"version":"1.0","bin":[["foo.exe","bar.exe","baz.exe"]]}"#);
    assert_eq!(match_manifest("pkg", &manifest, "baz"), None);
    assert_eq!(match_manifest("pkg", &manifest, "bar"), hit("pkg", "1.0", "bar.exe"));
}

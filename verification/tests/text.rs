use scoop_find::paths::{extension, extension_of_name, file_stem, has_extension, stem_of_name};
use scoop_find::sort::{arrange, sort_by_keys, stable_order};
use scoop_find::text::{chars_of, contains_chars, lowered, precedes, same_text, sort_key_of, to_lower_char};

fn chars(text: &str) -> Vec<char> {
    text.chars().collect()
}

#[test]
fn lowering_touches_ascii_letters_only() {
    assert_eq!(to_lower_char('A'), 'a');
    assert_eq!(to_lower_char('Z'), 'z');
    assert_eq!(to_lower_char('m'), 'm');
    assert_eq!(to_lower_char('['), '[');
    assert_eq!(to_lower_char('@'), '@');
    assert_eq!(to_lower_char('É'), 'É');
    assert_eq!(lowered("Foo-BAR 7É"), chars("foo-bar 7É"));
    assert_eq!(lowered("Foo-BAR 7É"), chars(&"Foo-BAR 7É".to_ascii_lowercase()));
}

#[test]
fn chars_of_keeps_every_character() {
    assert_eq!(chars_of(""), Vec::<char>::new());
    assert_eq!(chars_of("a-ß"), vec!['a', '-', 'ß']);
}

#[test]
fn empty_needle_stands_in_every_text() {
    assert!(contains_chars(&chars(""), &chars("")));
    assert!(contains_chars(&chars("git"), &chars("")));
}

#[test]
fn substring_search_finds_what_std_finds() {
    let hays = ["", "a", "git", "ripgrep", "aaab", "abababc", "foo-bar"];
    let needles = ["", "a", "b", "it", "git", "gitx", "ab", "aab", "babc", "grep", "o-b", "abababcd"];
    for hay in hays {
        for needle in needles {
            assert_eq!(contains_chars(&chars(hay), &chars(needle)), hay.contains(needle), "{hay:?} {needle:?}");
        }
    }
}

#[test]
fn needle_longer_than_text_is_not_found() {
    assert!(!contains_chars(&chars("ab"), &chars("abc")));
}

#[test]
fn same_text_compares_whole_texts() {
    assert!(same_text("main", "main"));
    assert!(!same_text("main", "Main"));
    assert!(!same_text("main", "mai"));
    assert!(same_text("", ""));
}

#[test]
fn dictionary_order_is_that_of_strings() {
    let texts = ["", "a", "ab", "abc", "b", "B", "foobar", "foobaz", "z", "é", "zz"];
    for left in texts {
        for right in texts {
            assert_eq!(precedes(&chars(left), &chars(right)), left <= right, "{left:?} {right:?}");
        }
    }
}

#[test]
fn sort_key_lowers_and_drops_hyphens() {
    assert_eq!(sort_key_of("Foo-Bar"), chars("foobar"));
    assert_eq!(sort_key_of("foobaz"), chars("foobaz"));
    assert_eq!(sort_key_of("---"), chars(""));
    assert_eq!(sort_key_of("7-Zip_x"), chars("7zip_x"));
}

#[test]
fn stable_order_goes_up_and_keeps_ties_in_place() {
    let keys = vec![chars("b"), chars("a"), chars("b"), chars(""), chars("a")];
    assert_eq!(stable_order(&keys), vec![3, 1, 4, 0, 2]);
    assert_eq!(stable_order(&Vec::new()), Vec::<usize>::new());
}

#[test]
fn arrange_moves_each_item_to_its_place() {
    let items = vec!["x".to_string(), "y".to_string(), "z".to_string()];
    assert_eq!(arrange(items, &vec![2, 0, 1]), vec!["z".to_string(), "x".to_string(), "y".to_string()]);
}

#[test]
fn sort_by_keys_is_stable() {
    let items = vec![(1, "b"), (2, "a"), (3, "b"), (4, "a")];
    let keys = vec![chars("b"), chars("a"), chars("b"), chars("a")];
    assert_eq!(sort_by_keys(items, &keys), vec![(2, "a"), (4, "a"), (1, "b"), (3, "b")]);
}

#[test]
fn stem_and_extension_of_names() {
    assert_eq!(stem_of_name("git.exe"), "git");
    assert_eq!(stem_of_name("foo.tar.gz"), "foo.tar");
    assert_eq!(stem_of_name("README"), "README");
    assert_eq!(stem_of_name(".bashrc"), ".bashrc");
    assert_eq!(stem_of_name("foo."), "foo");
    assert_eq!(stem_of_name(".a.b"), ".a");
    assert_eq!(extension_of_name("git.exe"), Some("exe".to_string()));
    assert_eq!(extension_of_name("foo.tar.gz"), Some("gz".to_string()));
    assert_eq!(extension_of_name("README"), None);
    assert_eq!(extension_of_name(".bashrc"), None);
    assert_eq!(extension_of_name("foo."), Some("".to_string()));
}

#[test]
fn stems_and_extensions_are_those_of_std() {
    let paths = [
        "", "git.json", "bucket/git.json", "/abs/dir/7zip.json", "a/b/", "a/b/.", "a/..", "..", ".", "/",
        ".hidden", "dir/.hidden.json", "foo.tar.gz", "noext", "trailing.", "a.b/c", "x/y.z/w.json", "é.json",
        "bin\\tool.exe", "a//b.c", "...", "..a", "a..", ".a.", "x/...", "x/.a.b.", "-", "a.b.c.d",
    ];
    for path in paths {
        let std_path = std::path::Path::new(path);
        let stem = std_path.file_stem().map(|text| text.to_str().unwrap().to_string());
        let ext = std_path.extension().map(|text| text.to_str().unwrap().to_string());
        assert_eq!(file_stem(path), stem, "stem of {path:?}");
        assert_eq!(extension(path), ext, "extension of {path:?}");
    }
}

#[test]
fn has_extension_compares_the_whole_extension() {
    assert!(has_extension("bucket/git.json", "json"));
    assert!(!has_extension("bucket/git.JSON", "json"));
    assert!(!has_extension("bucket/git.jsonc", "json"));
    assert!(!has_extension("bucket/git.son", "json"));
    assert!(!has_extension("bucket/json", "json"));
    assert!(!has_extension("bucket/.json", "json"));
    assert!(has_extension("a.b.json", "json"));
}

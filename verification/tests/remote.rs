use scoop_find::remote::{candidates, first_gap, pattern_for, quota_exhausted, read_remaining, RATE_LIMIT_URI, USER_AGENT};
use scoop_find::{
    find_remote, github_ratelimit_reached, known_buckets, remote_candidates, remote_search, remote_targets,
    sort_remote, Listing, SearchError,
};

fn text(value: &str) -> String {
    value.to_string()
}

fn texts(values: &[&str]) -> Vec<String> {
    values.iter().map(|value| value.to_string()).collect()
}

#[test]
fn limit_is_reached_unless_requests_remain() {
    assert!(!github_ratelimit_reached(br#"{"rate":{"limit":60,"remaining":59}}"#).unwrap());
    assert!(!github_ratelimit_reached(br#"{"rate":{"remaining":18446744073709551615}}"#).unwrap());
    assert!(github_ratelimit_reached(br#"{"rate":{"remaining":0}}"#).unwrap());
    assert!(github_ratelimit_reached(br#"{"rate":{"remaining":-1}}"#).unwrap());
    assert!(github_ratelimit_reached(br#"{"rate":{"remaining":1.5}}"#).unwrap());
    assert!(github_ratelimit_reached(br#"{"rate":{"remaining":"5"}}"#).unwrap());
    assert!(github_ratelimit_reached(br#"{"rate":{"remaining":null}}"#).unwrap());
    assert!(github_ratelimit_reached(br#"{"rate":{}}"#).unwrap());
    assert!(github_ratelimit_reached(br#"{"rate":[5]}"#).unwrap());
    assert!(github_ratelimit_reached(br#"{"remaining":5}"#).unwrap());
    assert!(github_ratelimit_reached(br#"{}"#).unwrap());
    assert!(github_ratelimit_reached(br#"5"#).unwrap());
}

#[test]
fn requests_go_to_the_rate_limit_endpoint_as_a_browser() {
    assert_eq!(RATE_LIMIT_URI, "https://api.github.com/rate_limit");
    assert_eq!(USER_AGENT, "Mozilla/5.0 (Windows NT 10.0; Win64; x64; rv:91.0) Gecko/20100101 Firefox/91.0");
}

#[test]
fn answer_that_is_no_json_is_a_fault() {
    assert!(matches!(github_ratelimit_reached(b"<html>"), Err(SearchError::RateLimit(_))));
    assert!(matches!(github_ratelimit_reached(b""), Err(SearchError::RateLimit(_))));
}

#[test]
fn remaining_requests_are_read_from_the_answer() {
    let root: serde_json::Value = serde_json::from_str(r#"{"rate":{"remaining":42},"remaining":7}"#).unwrap();
    assert_eq!(read_remaining(&root), Some(42));
    let none: serde_json::Value = serde_json::from_str(r#"{"rate":{"remaining":-42}}"#).unwrap();
    assert_eq!(read_remaining(&none), None);
    assert!(quota_exhausted(None));
    assert!(quota_exhausted(Some(0)));
    assert!(!quota_exhausted(Some(1)));
}

#[test]
fn pattern_holds_the_query_between_its_parts() {
    assert_eq!(pattern_for("git"), "\"bucket/(.*git.*)\\.json\"");
    assert_eq!(pattern_for(""), "\"bucket/(.*.*)\\.json\"");
    assert_eq!(pattern_for("a.b"), "\"bucket/(.*a.b.*)\\.json\"");
}

#[test]
fn listing_offers_each_name_that_holds_the_query() {
    let body = concat_lines(&[
        r#"{"path": "bucket/git.json", "mode": "100644"},"#,
        r#"{"path": "bucket/curl.json", "mode": "100644"},"#,
        r#"{"path": "bucket/legit-tool.json", "mode": "100644"},"#,
        r#"{"path": "scripts/git.json", "mode": "100644"},"#,
        r#"{"path": "bucket/git.yaml", "mode": "100644"},"#,
        r#"{"path": "bucket/github.json", "mode": "100644"}"#,
    ]);
    assert_eq!(find_remote(&body, "git").unwrap(), texts(&["git", "legit-tool", "github"]));
    assert_eq!(find_remote(&body, "svn").unwrap(), Vec::<String>::new());
    assert_eq!(find_remote(&body, "").unwrap(), texts(&["git", "curl", "legit-tool", "github"]));
}

fn concat_lines(lines: &[&str]) -> String {
    lines.join("\n")
}

#[test]
fn listing_names_are_not_deduplicated() {
    let body = concat_lines(&[r#""bucket/git.json""#, r#""bucket/git.json""#]);
    assert_eq!(find_remote(&body, "git").unwrap(), texts(&["git", "git"]));
}

#[test]
fn match_runs_to_the_last_end_on_its_line() {
    let body = r#""bucket/git.json", "bucket/curl.json""#;
    assert_eq!(find_remote(body, "git").unwrap(), texts(&[r#"git.json", "bucket/curl"#]));
}

#[test]
fn query_acts_as_pattern() {
    let body = concat_lines(&[r#""bucket/gat.json""#, r#""bucket/git.json""#, r#""bucket/got7.json""#]);
    assert_eq!(find_remote(&body, "g[ai]t").unwrap(), texts(&["gat", "git"]));
    assert_eq!(find_remote(&body, "t\\d").unwrap(), texts(&["got7"]));
}

#[test]
fn query_that_makes_no_pattern_is_a_fault() {
    assert!(matches!(find_remote("\"bucket/a.json\"", "("), Err(SearchError::Pattern(_))));
    assert!(matches!(find_remote("", "[z-a]"), Err(SearchError::Pattern(_))));
}

#[test]
fn match_without_a_captured_name_is_a_fault() {
    let body = concat_lines(&[r#""bucket/xa"#, r#"by.json""#]);
    assert!(matches!(find_remote(&body, "a)|(b"), Err(SearchError::NoCapture { index: 1 })));
    assert!(matches!(find_remote("by.json\"", "a)|(b"), Err(SearchError::NoCapture { index: 0 })));
}

#[test]
fn first_gap_is_the_first_none() {
    assert_eq!(first_gap(&vec![Some(text("a")), None, Some(text("b")), None]), Some(1));
    assert_eq!(first_gap(&vec![Some(text("a"))]), None);
    assert_eq!(first_gap(&Vec::new()), None);
}

#[test]
fn candidates_are_the_captured_names_in_order() {
    assert_eq!(candidates(vec![Some(text("b")), Some(text("a")), Some(text("b"))]), texts(&["b", "a", "b"]));
    assert_eq!(candidates(Vec::new()), Vec::<String>::new());
}

#[test]
fn known_table_has_nine_buckets() {
    let table = known_buckets();
    let names: Vec<&str> = table.iter().map(|bucket| bucket.0).collect();
    assert_eq!(
        names,
        vec!["main", "extras", "versions", "nirsoft", "php", "nerd-fonts", "nonportable", "java", "games"]
    );
    assert_eq!(table[0].1, "https://api.github.com/repos/ScoopInstaller/Main/git/trees/HEAD?recursive=1");
    assert_eq!(table[3].1, "https://api.github.com/repos/kodybrown/scoop-nirsoft/git/trees/HEAD?recursive=1");
    assert_eq!(table[8].1, "https://api.github.com/repos/Calinou/scoop-games/git/trees/HEAD?recursive=1");
    for bucket in &table {
        assert!(bucket.1.starts_with("https://api.github.com/repos/"));
        assert!(bucket.1.ends_with("/git/trees/HEAD?recursive=1"));
    }
}

#[test]
fn installed_buckets_are_not_fetched() {
    let targets = remote_targets(&texts(&["main", "java", "my-own"]));
    let names: Vec<&str> = targets.iter().map(|bucket| bucket.0).collect();
    assert_eq!(names, vec!["extras", "versions", "nirsoft", "php", "nerd-fonts", "nonportable", "games"]);
}

#[test]
fn bucket_names_are_compared_exactly() {
    let targets = remote_targets(&texts(&["Main", "extra", "javas", ""]));
    assert_eq!(targets, known_buckets());
    assert_eq!(remote_targets(&Vec::new()), known_buckets());
}

#[test]
fn every_known_bucket_installed_leaves_nothing_to_fetch() {
    let all: Vec<String> = known_buckets().iter().map(|bucket| bucket.0.to_string()).collect();
    assert_eq!(remote_targets(&all), Vec::new());
}

#[test]
fn listing_without_candidates_is_recorded_as_none() {
    assert_eq!(remote_candidates("main", "\"bucket/git.json\"", "svn").unwrap(), None);
    assert_eq!(
        remote_candidates("main", "\"bucket/git.json\"", "git").unwrap(),
        Some((text("main"), texts(&["git"])))
    );
    assert!(matches!(remote_candidates("main", "", "("), Err(SearchError::Pattern(_))));
}

#[test]
fn remote_results_are_sorted_by_name() {
    let results = vec![(text("php"), texts(&["a"])), (text("extras"), texts(&["b"])), (text("main"), texts(&["c"]))];
    assert_eq!(
        sort_remote(results),
        vec![(text("extras"), texts(&["b"])), (text("main"), texts(&["c"])), (text("php"), texts(&["a"]))]
    );
}

#[test]
fn remote_search_omits_empty_listings_and_sorts_by_name() {
    let listings = vec![
        Listing { bucket: text("versions"), body: text("\"bucket/python27.json\"\n\"bucket/python-beta.json\"") },
        Listing { bucket: text("games"), body: text("\"bucket/doom.json\"") },
        Listing { bucket: text("extras"), body: text("\"bucket/ipython.json\"") },
    ];
    assert_eq!(
        remote_search(&listings, "python").unwrap(),
        vec![(text("extras"), texts(&["ipython"])), (text("versions"), texts(&["python27", "python-beta"]))]
    );
    assert_eq!(remote_search(&listings, "rust").unwrap(), vec![]);
    assert!(matches!(remote_search(&listings, "("), Err(SearchError::Pattern(_))));
}

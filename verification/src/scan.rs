//! The scan of one bucket: every manifest file is parsed and matched, and
//! the matches are sorted by name.

use vstd::prelude::*;
use crate::errors::{ScoopFindError, SearchError};
use crate::json::{json_document, parse_value};
use crate::manifest::{find_match, manifest_of, match_for, read_manifest, Match, MatchView};
use crate::paths::{file_stem, has_extension, path_extension, path_stem};
use crate::sort::{key_views, lemma_sorted_ascends, lemma_sorted_keeps_items, lemma_sorted_map, sort_by_keys, sorted_by};
use crate::text::{lex_le, lower, lowered, sort_key, sort_key_of};

verus! {

/// A manifest file as it was read: its path and its bytes.
#[derive(Debug, PartialEq, Eq)]
pub struct ManifestFile {
    pub path: String,
    pub content: Vec<u8>,
}

pub struct ManifestFileView {
    pub path: Seq<char>,
    pub content: Seq<u8>,
}

impl View for ManifestFile {
    type V = ManifestFileView;

    open spec fn view(&self) -> ManifestFileView {
        ManifestFileView { path: self.path@, content: self.content@ }
    }
}

/// The matches of one bucket under the bucket's name.
pub type BucketResult = (String, Vec<Match>);

pub type BucketResultView = (Seq<char>, Seq<MatchView>);

/// The views of a sequence of files.
pub open spec fn file_views(files: Seq<ManifestFile>) -> Seq<ManifestFileView> {
    files.map_values(|file: ManifestFile| file@)
}

/// A path names a manifest where its extension is `json`.
pub open spec fn is_manifest_path(path: Seq<char>) -> bool {
    path_extension(path) == Some("json"@)
}

/// The application that a manifest file describes: the stem of its path,
/// empty where the path has none.
pub open spec fn manifest_name(path: Seq<char>) -> Seq<char> {
    match path_stem(path) {
        Some(stem) => stem,
        None => Seq::empty(),
    }
}

/// The file is no JSON document.
pub open spec fn is_malformed(file: ManifestFileView) -> bool {
    json_document(file.content) is None
}

/// The match of a file against a lowered query. A malformed file has none.
pub open spec fn file_match(file: ManifestFileView, query: Seq<char>) -> Option<MatchView> {
    match json_document(file.content) {
        Some(doc) => find_match(manifest_name(file.path), manifest_of(doc), query),
        None => None,
    }
}

/// The matches of the files against a lowered query, in the order of the
/// files.
pub open spec fn matches_in(files: Seq<ManifestFileView>, query: Seq<char>) -> Seq<MatchView> {
    files.filter_map(|file: ManifestFileView| file_match(file, query))
}

/// The keys by which matches are sorted: those of their names.
pub open spec fn match_keys(matches: Seq<MatchView>) -> Seq<Seq<char>> {
    matches.map_values(|found: MatchView| sort_key(found.0))
}

/// The matches go up in the sort keys of their names.
pub open spec fn ascends_by_name(matches: Seq<MatchView>) -> bool {
    forall|a: int, b: int|
        0 <= a < b < matches.len() ==> lex_le(sort_key((#[trigger] matches[a]).0), sort_key((#[trigger] matches[b]).0))
}

/// What the scan of a bucket's files for a query returns: the matches of
/// the files against the lowered query, sorted by name, matches of equal
/// key in the order of their files.
pub open spec fn scan_of(files: Seq<ManifestFileView>, query: Seq<char>) -> Seq<MatchView> {
    sorted_by(match_keys(matches_in(files, lower(query))), matches_in(files, lower(query)))
}

/// A scan goes up in the sort keys of the names, and holds the matches of
/// the files and nothing else.
pub proof fn lemma_scan_is_sorted(files: Seq<ManifestFileView>, query: Seq<char>)
    ensures
        ascends_by_name(scan_of(files, query)),
        scan_of(files, query).len() == matches_in(files, lower(query)).len(),
        forall|a: int|
            0 <= a < scan_of(files, query).len() ==> matches_in(files, lower(query)).contains(
                #[trigger] scan_of(files, query)[a],
            ),
        forall|i: int|
            0 <= i < matches_in(files, lower(query)).len() ==> scan_of(files, query).contains(
                #[trigger] matches_in(files, lower(query))[i],
            ),
{
    let raw = matches_in(files, lower(query));
    let keys = match_keys(raw);
    let pick = |found: MatchView| sort_key(found.0);
    lemma_sorted_keeps_items(keys, raw);
    lemma_sorted_ascends(keys);
    lemma_sorted_map(keys, raw, pick);
    assert(raw.map_values(pick) =~= keys);
    assert forall|a: int, b: int| 0 <= a < b < scan_of(files, query).len() implies lex_le(
        sort_key((#[trigger] scan_of(files, query)[a]).0),
        sort_key((#[trigger] scan_of(files, query)[b]).0),
    ) by {
        assert(sorted_by(keys, raw).map_values(pick)[a] == sort_key(scan_of(files, query)[a].0));
        assert(sorted_by(keys, raw).map_values(pick)[b] == sort_key(scan_of(files, query)[b].0));
        assert(lex_le(sorted_by(keys, keys)[a], sorted_by(keys, keys)[b]));
    }
}

/// Letter case in the query does not count: queries that are the same
/// text once lowered have the same scan.
pub proof fn lemma_scan_ignores_case(files: Seq<ManifestFileView>, first: Seq<char>, second: Seq<char>)
    requires
        lower(first) == lower(second),
    ensures
        scan_of(files, first) == scan_of(files, second),
        scan_of(files, lower(first)) == scan_of(files, first),
{
    assert(lower(lower(first)) =~= lower(first));
}

/// Every match of a scan is the match of one of the files.
pub proof fn lemma_matches_come_from_files(files: Seq<ManifestFileView>, query: Seq<char>, at: int)
    requires
        0 <= at < matches_in(files, query).len(),
    ensures
        exists|i: int| 0 <= i < files.len() && file_match(#[trigger] files[i], query) == Some(matches_in(files, query)[at]),
    decreases files.len(),
{
    let pick = |file: ManifestFileView| file_match(file, query);
    if files.len() > 0 {
        let front = files.drop_last();
        match pick(files.last()) {
            Some(found) => {
                assert(matches_in(files, query) == matches_in(front, query) + seq![found]);
                if at < matches_in(front, query).len() {
                    lemma_matches_come_from_files(front, query, at);
                    let i = choose|i: int| 0 <= i < front.len() && file_match(#[trigger] front[i], query) == Some(matches_in(front, query)[at]);
                    assert(files[i] == front[i]);
                } else {
                    assert(file_match(files[files.len() - 1], query) == Some(found));
                }
            },
            None => {
                assert(matches_in(files, query) == matches_in(front, query));
                lemma_matches_come_from_files(front, query, at);
                let i = choose|i: int| 0 <= i < front.len() && file_match(#[trigger] front[i], query) == Some(matches_in(front, query)[at]);
                assert(files[i] == front[i]);
            },
        }
    }
}

/// A file that matches has its match among those of the scan.
pub proof fn lemma_file_match_is_listed(files: Seq<ManifestFileView>, query: Seq<char>, i: int)
    requires
        0 <= i < files.len(),
        file_match(files[i], query) is Some,
    ensures
        matches_in(files, query).contains(file_match(files[i], query)->0),
    decreases files.len(),
{
    let pick = |file: ManifestFileView| file_match(file, query);
    let front = files.drop_last();
    let all = matches_in(files, query);
    match pick(files.last()) {
        Some(found) => {
            assert(all == matches_in(front, query) + seq![found]);
            if i < front.len() {
                assert(front[i] == files[i]);
                lemma_file_match_is_listed(front, query, i);
                let at = choose|at: int| 0 <= at < matches_in(front, query).len() && matches_in(front, query)[at] == file_match(files[i], query)->0;
                assert(all[at] == matches_in(front, query)[at]);
            } else {
                assert(all[all.len() - 1] == found);
            }
        },
        None => {
            assert(all == matches_in(front, query));
            assert(front[i] == files[i]);
            lemma_file_match_is_listed(front, query, i);
        },
    }
}

/// Whether a path names a manifest: whether its extension is `json`.
pub fn names_manifest(path: &str) -> (r: bool)
    ensures
        r == is_manifest_path(path@),
{
    has_extension(path, "json")
}

/// The match of one parsed manifest file against the lowered characters
/// `needle`.
fn match_file(path: &str, root: &serde_json::Value, needle: &Vec<char>) -> (r: Option<Match>)
    ensures
        r.deep_view() == find_match(manifest_name(path@), manifest_of(crate::json::json_of(*root)), needle@),
{
    let manifest = read_manifest(root);
    let name = match file_stem(path) {
        Some(stem) => stem,
        None => String::new(),
    };
    match_for(name.as_str(), &manifest, needle)
}

/// The sort keys of the names of the matches.
fn keys_of(matches: &Vec<Match>) -> (keys: Vec<Vec<char>>)
    ensures
        keys.len() == matches.len(),
        key_views(keys@) == match_keys(matches.deep_view()),
{
    let mut keys: Vec<Vec<char>> = Vec::new();
    let mut i: usize = 0;
    while i < matches.len()
        invariant
            i <= matches.len(),
            keys.len() == i,
            forall|j: int| 0 <= j < i ==> (#[trigger] keys@[j])@ == sort_key(matches@[j].0@),
        decreases matches.len() - i,
    {
        keys.push(sort_key_of(matches[i].0.as_str()));
        i += 1;
    }
    assert(key_views(keys@) =~= match_keys(matches.deep_view()));
    keys
}

/// The matches of a bucket's manifest files against `query`, sorted by
/// name: lower case, hyphens left out, matches of equal key in the order of
/// their files.
///
/// Every file is parsed. The first file that is no JSON document ends the
/// scan with an error that gives its position.
pub fn find_manifests(files: &Vec<ManifestFile>, query: &str) -> (r: Result<Vec<Match>, SearchError>)
    ensures
        match r {
            Ok(found) => {
                &&& forall|i: int| 0 <= i < files.len() ==> !is_malformed(#[trigger] files@[i]@)
                &&& found.deep_view() == scan_of(file_views(files@), query@)
                &&& ascends_by_name(found.deep_view())
            },
            Err(SearchError::Manifest { index, .. }) => {
                &&& index < files.len()
                &&& is_malformed(files@[index as int]@)
                &&& forall|i: int| 0 <= i < index ==> !is_malformed(#[trigger] files@[i]@)
            },
            Err(_) => false,
        },
{
    let needle = lowered(query);
    let ghost all = file_views(files@);
    let mut found: Vec<Match> = Vec::new();
    let mut i: usize = 0;
    proof {
        assert(all.take(0) =~= Seq::<ManifestFileView>::empty());
    }
    while i < files.len()
        invariant
            i <= files.len(),
            all == file_views(files@),
            needle@ == lower(query@),
            forall|j: int| 0 <= j < i ==> !is_malformed(#[trigger] files@[j]@),
            found.deep_view() == matches_in(all.take(i as int), needle@),
        decreases files.len() - i,
    {
        let file = &files[i];
        proof {
            assert(all.take(i + 1).drop_last() =~= all.take(i as int));
            assert(all.take(i + 1).last() == file@);
        }
        match parse_value(file.content.as_slice()) {
            Ok(root) => {
                let ghost before = found.deep_view();
                match match_file(file.path.as_str(), &root, &needle) {
                    Some(hit) => {
                        found.push(hit);
                        assert(found.deep_view() =~= before + seq![hit.deep_view()]);
                    },
                    None => {},
                }
            },
            Err(cause) => {
                return Err(SearchError::Manifest { index: i, cause });
            },
        }
        i += 1;
    }
    proof {
        assert(all.take(files.len() as int) =~= all);
    }
    let keys = keys_of(&found);
    let ghost raw = found@;
    let sorted = sort_by_keys(found, &keys);
    proof {
        let views = |hit: Match| hit.deep_view();
        assert(raw.map_values(views) =~= matches_in(all, needle@));
        lemma_sorted_map(key_views(keys@), raw, views);
        assert(sorted.deep_view() =~= sorted@.map_values(views));
        lemma_scan_is_sorted(all, query@);
    }
    Ok(sorted)
}

/// The scan of one bucket as the search records it: `None` where no file
/// matches, else the matches under the bucket's name.
///
/// A bucket with matches and without a readable name ends the search with
/// `ScoopBadInstalled`.
pub fn scan_bucket(name: Option<&str>, files: &Vec<ManifestFile>, query: &str) -> (r: Result<Option<BucketResult>, SearchError>)
    ensures
        match r {
            Ok(None) => {
                &&& forall|i: int| 0 <= i < files.len() ==> !is_malformed(#[trigger] files@[i]@)
                &&& matches_in(file_views(files@), lower(query@)).len() == 0
            },
            Ok(Some(result)) => {
                &&& forall|i: int| 0 <= i < files.len() ==> !is_malformed(#[trigger] files@[i]@)
                &&& name matches Some(text) && result.0@ == text@
                &&& result.1.len() > 0
                &&& result.1.deep_view() == scan_of(file_views(files@), query@)
                &&& ascends_by_name(result.1.deep_view())
            },
            Err(SearchError::Manifest { index, .. }) => {
                &&& index < files.len()
                &&& is_malformed(files@[index as int]@)
                &&& forall|i: int| 0 <= i < index ==> !is_malformed(#[trigger] files@[i]@)
            },
            Err(SearchError::Scoop(fault)) => {
                &&& fault == ScoopFindError::ScoopBadInstalled
                &&& name is None
                &&& forall|i: int| 0 <= i < files.len() ==> !is_malformed(#[trigger] files@[i]@)
                &&& matches_in(file_views(files@), lower(query@)).len() > 0
            },
            Err(_) => false,
        },
{
    let found = match find_manifests(files, query) {
        Ok(found) => found,
        Err(fault) => {
            return Err(fault);
        },
    };
    proof {
        lemma_scan_is_sorted(file_views(files@), query@);
    }
    if found.len() == 0 {
        return Ok(None);
    }
    match name {
        Some(text) => Ok(Some((text.to_owned(), found))),
        None => Err(SearchError::Scoop(ScoopFindError::ScoopBadInstalled)),
    }
}

} // verus!

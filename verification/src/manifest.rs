//! Application manifests and the rule by which one matches a query.

use vstd::prelude::*;
use crate::json::{json_of, jsons_of, member, text_of, value_member, Json};
use crate::paths::{final_component, name_stem, path_file_name, stem_of_name};
use crate::text::{chars_of, contains, contains_chars, lemma_lower_keeps_occurrence, lower, lowered, occurs_at};

verus! {

/// One element of a manifest's `bin` array.
#[derive(Debug, PartialEq, Eq)]
pub enum BinEntry {
    /// The path of an executable.
    Path(String),
    /// A nested array: an executable with its alias and arguments. Elements
    /// that are no strings stand as `None`.
    Alias(Vec<Option<String>>),
    /// Anything else.
    Other,
}

/// The `bin` field of a manifest.
#[derive(Debug, PartialEq, Eq)]
pub enum Bin {
    /// The manifest has no such field.
    Absent,
    /// The path of the one executable.
    Path(String),
    /// An array of executables.
    List(Vec<BinEntry>),
    /// A field of any other shape.
    Other,
}

/// What a search reads of an application manifest.
#[derive(Debug, PartialEq, Eq)]
pub struct Manifest {
    /// The `version` field where it is a string.
    pub version: Option<String>,
    pub bin: Bin,
}

/// A match: application name, version, and the file name of the executable
/// that matched, empty where the application name itself matched.
pub type Match = (String, String, String);

pub enum BinEntryView {
    Path(Seq<char>),
    Alias(Seq<Option<Seq<char>>>),
    Other,
}

pub enum BinView {
    Absent,
    Path(Seq<char>),
    List(Seq<BinEntryView>),
    Other,
}

pub struct ManifestView {
    pub version: Option<Seq<char>>,
    pub bin: BinView,
}

pub type MatchView = (Seq<char>, Seq<char>, Seq<char>);

impl View for BinEntry {
    type V = BinEntryView;

    open spec fn view(&self) -> BinEntryView {
        match self {
            BinEntry::Path(path) => BinEntryView::Path(path@),
            BinEntry::Alias(items) => BinEntryView::Alias(items.deep_view()),
            BinEntry::Other => BinEntryView::Other,
        }
    }
}

/// The views of a sequence of entries.
pub open spec fn entry_views(entries: Seq<BinEntry>) -> Seq<BinEntryView> {
    entries.map_values(|entry: BinEntry| entry@)
}

impl View for Bin {
    type V = BinView;

    open spec fn view(&self) -> BinView {
        match self {
            Bin::Absent => BinView::Absent,
            Bin::Path(path) => BinView::Path(path@),
            Bin::List(entries) => BinView::List(entry_views(entries@)),
            Bin::Other => BinView::Other,
        }
    }
}

impl View for Manifest {
    type V = ManifestView;

    open spec fn view(&self) -> ManifestView {
        ManifestView { version: self.version.deep_view(), bin: self.bin@ }
    }
}

// ---------------------------------------------------------------------
// How a manifest is read out of a document

/// The entry that an element of a `bin` array stands for.
pub open spec fn entry_of(doc: Json) -> BinEntryView {
    match doc {
        Json::Text(path) => BinEntryView::Path(path),
        Json::Array(items) => BinEntryView::Alias(items.map_values(|item: Json| text_of(item))),
        _ => BinEntryView::Other,
    }
}

/// The `bin` field of a document.
pub open spec fn bin_of(doc: Json) -> BinView {
    match member(doc, "bin"@) {
        None => BinView::Absent,
        Some(Json::Text(path)) => BinView::Path(path),
        Some(Json::Array(items)) => BinView::List(items.map_values(|item: Json| entry_of(item))),
        Some(_) => BinView::Other,
    }
}

/// The `version` field of a document where it is a string.
pub open spec fn version_of(doc: Json) -> Option<Seq<char>> {
    match member(doc, "version"@) {
        Some(field) => text_of(field),
        None => None,
    }
}

/// The manifest that a document holds.
pub open spec fn manifest_of(doc: Json) -> ManifestView {
    ManifestView { version: version_of(doc), bin: bin_of(doc) }
}

// ---------------------------------------------------------------------
// The matching rule

/// A file name matches a query where its lowered stem holds the query.
pub open spec fn name_holds(name: Seq<char>, query: Seq<char>) -> bool {
    contains(lower(name_stem(name)), query)
}

/// The label under which an executable path matches a query: the file name
/// of the path, where that name matches.
pub open spec fn label_of(path: Seq<char>, query: Seq<char>) -> Option<Seq<char>> {
    match path_file_name(path) {
        Some(name) => if name_holds(name, query) {
            Some(name)
        } else {
            None
        },
        None => None,
    }
}

/// The label of one element of a nested array, `None` for an element that
/// is no string.
pub open spec fn item_label(item: Option<Seq<char>>, query: Seq<char>) -> Option<Seq<char>> {
    match item {
        Some(path) => label_of(path, query),
        None => None,
    }
}

/// The label of a nested array: that of its first element, else that of its
/// second. No later element is read.
pub open spec fn alias_label(items: Seq<Option<Seq<char>>>, query: Seq<char>) -> Option<Seq<char>> {
    if items.len() >= 1 && item_label(items[0], query) is Some {
        item_label(items[0], query)
    } else if items.len() >= 2 {
        item_label(items[1], query)
    } else {
        None
    }
}

/// The label of one element of a `bin` array.
pub open spec fn entry_label(entry: BinEntryView, query: Seq<char>) -> Option<Seq<char>> {
    match entry {
        BinEntryView::Path(path) => label_of(path, query),
        BinEntryView::Alias(items) => alias_label(items, query),
        BinEntryView::Other => None,
    }
}

/// The label of a `bin` array: that of its first element that has one.
pub open spec fn list_label(entries: Seq<BinEntryView>, query: Seq<char>) -> Option<Seq<char>>
    decreases entries.len(),
{
    if entries.len() == 0 {
        None
    } else {
        match entry_label(entries[0], query) {
            Some(label) => Some(label),
            None => list_label(entries.drop_first(), query),
        }
    }
}

/// The label of a `bin` field.
pub open spec fn bin_label(bin: BinView, query: Seq<char>) -> Option<Seq<char>> {
    match bin {
        BinView::Path(path) => label_of(path, query),
        BinView::List(entries) => list_label(entries, query),
        _ => None,
    }
}

/// A manifest can match only with a name and a version that are not empty.
pub open spec fn eligible(name: Seq<char>, manifest: ManifestView) -> bool {
    &&& name.len() > 0
    &&& manifest.version matches Some(version) && version.len() > 0
}

/// The match of a manifest named `name` against a lowered query: on the
/// name first, then on the executables.
pub open spec fn find_match(name: Seq<char>, manifest: ManifestView, query: Seq<char>) -> Option<MatchView> {
    if !eligible(name, manifest) {
        None
    } else if contains(lower(name), query) {
        Some((name, manifest.version->0, Seq::<char>::empty()))
    } else {
        match bin_label(manifest.bin, query) {
            Some(label) => Some((name, manifest.version->0, label)),
            None => None,
        }
    }
}

// ---------------------------------------------------------------------
// Laws of the matching rule

/// A manifest whose version is missing or empty never matches.
pub proof fn lemma_no_version_no_match(name: Seq<char>, manifest: ManifestView, query: Seq<char>)
    requires
        manifest.version is None || manifest.version->0.len() == 0,
    ensures
        find_match(name, manifest, query) is None,
{
}

/// A manifest that can match, and whose lowered name holds the query,
/// matches on its name: the label is empty.
pub proof fn lemma_name_match_has_empty_label(name: Seq<char>, manifest: ManifestView, query: Seq<char>)
    requires
        eligible(name, manifest),
        contains(lower(name), query),
    ensures
        find_match(name, manifest, query) == Some((name, manifest.version->0, Seq::<char>::empty())),
{
}

/// Letter case does not count: a manifest that can match and whose name
/// holds a text matches the lowered text on its name.
pub proof fn lemma_part_of_name_matches(name: Seq<char>, manifest: ManifestView, part: Seq<char>)
    requires
        eligible(name, manifest),
        contains(name, part),
    ensures
        find_match(name, manifest, lower(part)) == Some((name, manifest.version->0, Seq::<char>::empty())),
{
    let at = choose|at: int| occurs_at(name, part, at);
    lemma_lower_keeps_occurrence(name, part, at);
}

/// Every match carries the manifest's name and its version, and neither
/// is empty.
pub proof fn lemma_match_is_of_manifest(name: Seq<char>, manifest: ManifestView, query: Seq<char>)
    ensures
        match find_match(name, manifest, query) {
            Some((found, version, _)) => {
                &&& found == name
                &&& found.len() > 0
                &&& manifest.version == Some(version)
                &&& version.len() > 0
            },
            None => true,
        },
{
}

/// Of a nested array only the first two elements are read: what follows
/// them changes nothing.
pub proof fn lemma_alias_reads_two(items: Seq<Option<Seq<char>>>, query: Seq<char>)
    requires
        items.len() >= 2,
    ensures
        alias_label(items, query) == alias_label(items.take(2), query),
{
    assert(items.take(2)[0] == items[0]);
    assert(items.take(2)[1] == items[1]);
}

/// The label of an array is that of the first element that has one: where
/// element `at` has a label and none before it has, that label is the
/// array's.
pub proof fn lemma_list_label_first_hit(entries: Seq<BinEntryView>, query: Seq<char>, at: int)
    requires
        0 <= at < entries.len(),
        entry_label(entries[at], query) is Some,
        forall|j: int| 0 <= j < at ==> entry_label(entries[j], query) is None,
    ensures
        list_label(entries, query) == entry_label(entries[at], query),
    decreases at,
{
    if at > 0 {
        let rest = entries.drop_first();
        assert(rest[at - 1] == entries[at]);
        assert forall|j: int| 0 <= j < at - 1 implies entry_label(rest[j], query) is None by {
            assert(rest[j] == entries[j + 1]);
        }
        lemma_list_label_first_hit(rest, query, at - 1);
    }
}

/// An array none of whose elements has a label has none.
pub proof fn lemma_list_label_none(entries: Seq<BinEntryView>, query: Seq<char>)
    requires
        forall|j: int| 0 <= j < entries.len() ==> entry_label(entries[j], query) is None,
    ensures
        list_label(entries, query) is None,
    decreases entries.len(),
{
    if entries.len() > 0 {
        let rest = entries.drop_first();
        assert forall|j: int| 0 <= j < rest.len() implies entry_label(rest[j], query) is None by {
            assert(rest[j] == entries[j + 1]);
        }
        lemma_list_label_none(rest, query);
    }
}

// ---------------------------------------------------------------------
// Reading a manifest out of a parsed value

/// The elements of a nested array as optional texts.
fn read_alias(items: &Vec<serde_json::Value>) -> (r: Vec<Option<String>>)
    ensures
        r.deep_view() == jsons_of(items@).map_values(|item: Json| text_of(item)),
{
    let mut out: Vec<Option<String>> = Vec::new();
    let mut i: usize = 0;
    while i < items.len()
        invariant
            i <= items.len(),
            out.len() == i,
            forall|j: int| 0 <= j < i ==> (#[trigger] out@[j]).deep_view() == text_of(json_of(items@[j])),
        decreases items.len() - i,
    {
        let item = match items[i].as_str() {
            Some(text) => Some(text.to_owned()),
            None => None,
        };
        out.push(item);
        i += 1;
    }
    assert(out.deep_view() =~= jsons_of(items@).map_values(|item: Json| text_of(item)));
    out
}

/// The entry that a parsed element of a `bin` array stands for.
fn read_entry(value: &serde_json::Value) -> (r: BinEntry)
    ensures
        r@ == entry_of(json_of(*value)),
{
    match value.as_str() {
        Some(path) => BinEntry::Path(path.to_owned()),
        None => match value.as_array() {
            Some(items) => BinEntry::Alias(read_alias(items)),
            None => BinEntry::Other,
        },
    }
}

/// The `bin` field of a parsed manifest.
fn read_bin(root: &serde_json::Value) -> (r: Bin)
    ensures
        r@ == bin_of(json_of(*root)),
{
    match value_member(root, "bin") {
        None => Bin::Absent,
        Some(field) => match field.as_str() {
            Some(path) => Bin::Path(path.to_owned()),
            None => match field.as_array() {
                Some(items) => {
                    let mut entries: Vec<BinEntry> = Vec::new();
                    let mut i: usize = 0;
                    while i < items.len()
                        invariant
                            i <= items.len(),
                            entries.len() == i,
                            forall|j: int| 0 <= j < i ==> (#[trigger] entries@[j])@ == entry_of(json_of(items@[j])),
                        decreases items.len() - i,
                    {
                        entries.push(read_entry(&items[i]));
                        i += 1;
                    }
                    assert(entry_views(entries@) =~= jsons_of(items@).map_values(|item: Json| entry_of(item)));
                    Bin::List(entries)
                },
                None => Bin::Other,
            },
        },
    }
}

/// What a search reads of a parsed manifest.
pub fn read_manifest(root: &serde_json::Value) -> (r: Manifest)
    ensures
        r@ == manifest_of(json_of(*root)),
{
    let version = match value_member(root, "version") {
        Some(field) => match field.as_str() {
            Some(text) => Some(text.to_owned()),
            None => None,
        },
        None => None,
    };
    Manifest { version, bin: read_bin(root) }
}

// ---------------------------------------------------------------------
// Matching

/// Whether the file name `name` matches the lowered characters `needle`.
fn name_matches_chars(name: &str, needle: &Vec<char>) -> (r: bool)
    ensures
        r == name_holds(name@, needle@),
{
    let stem = stem_of_name(name);
    let hay = lowered(stem.as_str());
    contains_chars(&hay, needle)
}

/// The label under which the executable at `path` matches the lowered
/// characters `needle`, if it does.
pub(crate) fn label_for(path: &str, needle: &Vec<char>) -> (r: Option<String>)
    ensures
        r.deep_view() == label_of(path@, needle@),
{
    match final_component(path) {
        Some(name) => {
            if name_matches_chars(name.as_str(), needle) {
                Some(name)
            } else {
                None
            }
        },
        None => None,
    }
}

/// The label of a nested array.
fn label_in_alias(items: &Vec<Option<String>>, needle: &Vec<char>) -> (r: Option<String>)
    ensures
        r.deep_view() == alias_label(items.deep_view(), needle@),
{
    if items.len() >= 1 {
        if let Some(path) = &items[0] {
            let found = label_for(path.as_str(), needle);
            if found.is_some() {
                return found;
            }
        }
    }
    if items.len() >= 2 {
        if let Some(path) = &items[1] {
            return label_for(path.as_str(), needle);
        }
    }
    None
}

/// The label of one element of a `bin` array.
fn label_in_entry(entry: &BinEntry, needle: &Vec<char>) -> (r: Option<String>)
    ensures
        r.deep_view() == entry_label(entry@, needle@),
{
    match entry {
        BinEntry::Path(path) => label_for(path.as_str(), needle),
        BinEntry::Alias(items) => label_in_alias(items, needle),
        BinEntry::Other => None,
    }
}

/// The label of a `bin` array.
fn label_in_list(entries: &Vec<BinEntry>, needle: &Vec<char>) -> (r: Option<String>)
    ensures
        r.deep_view() == list_label(entry_views(entries@), needle@),
{
    let ghost all = entry_views(entries@);
    let mut i: usize = 0;
    proof {
        assert(all.skip(0) =~= all);
    }
    while i < entries.len()
        invariant
            i <= entries.len(),
            all == entry_views(entries@),
            list_label(all, needle@) == list_label(all.skip(i as int), needle@),
        decreases entries.len() - i,
    {
        proof {
            assert(all.skip(i as int).drop_first() =~= all.skip(i + 1));
            assert(all.skip(i as int)[0] == entries@[i as int]@);
        }
        let found = label_in_entry(&entries[i], needle);
        if found.is_some() {
            return found;
        }
        i += 1;
    }
    None
}

/// The label under which a `bin` field matches the lowered characters
/// `needle`.
fn label_in_bin(bin: &Bin, needle: &Vec<char>) -> (r: Option<String>)
    ensures
        r.deep_view() == bin_label(bin@, needle@),
{
    match bin {
        Bin::Path(path) => label_for(path.as_str(), needle),
        Bin::List(entries) => label_in_list(entries, needle),
        _ => None,
    }
}

/// The match of the manifest named `name` against the lowered characters
/// `needle`.
pub(crate) fn match_for(name: &str, manifest: &Manifest, needle: &Vec<char>) -> (r: Option<Match>)
    ensures
        r.deep_view() == find_match(name@, manifest@, needle@),
{
    let version = match &manifest.version {
        Some(version) => version,
        None => {
            return None;
        },
    };
    if version.as_str().is_empty() || name.is_empty() {
        return None;
    }
    let hay = lowered(name);
    if contains_chars(&hay, needle) {
        Some((name.to_owned(), version.clone(), String::new()))
    } else {
        match label_in_bin(&manifest.bin, needle) {
            Some(label) => Some((name.to_owned(), version.clone(), label)),
            None => None,
        }
    }
}

/// Whether the file name `name` matches `query`: whether its lowered stem
/// holds the query. The query is taken as it is, so it should be lower
/// case.
pub fn name_matches(name: &str, query: &str) -> (r: bool)
    ensures
        r == name_holds(name@, query@),
{
    let needle = chars_of(query);
    name_matches_chars(name, &needle)
}

/// The label under which the executable at `path` matches `query`, if it
/// does: the file name of the path, where that name matches. The query is
/// taken as it is, so it should be lower case.
pub fn contains_query(path: &str, query: &str) -> (r: Option<String>)
    ensures
        r.deep_view() == label_of(path@, query@),
{
    let needle = chars_of(query);
    label_for(path, &needle)
}

/// The match of the manifest named `name` against `query`: on the name
/// where the lowered name holds the query, else on the first executable
/// that does. The query is taken as it is, so it should be lower case.
pub fn match_manifest(name: &str, manifest: &Manifest, query: &str) -> (r: Option<Match>)
    ensures
        r.deep_view() == find_match(name@, manifest@, query@),
{
    let needle = chars_of(query);
    match_for(name, manifest, &needle)
}

} // verus!

//! The two searches over what was read: the local one over the installed
//! buckets, and the remote one over the tree listings of known buckets.

use vstd::prelude::*;
use crate::errors::{ScoopFindError, SearchError};
use crate::pattern::{first_groups, pattern_compiles};
use crate::remote::{all_captured, captured, find_remote, is_first_gap, remote_pattern, RemoteResult};
use crate::scan::{
    file_views, is_malformed, matches_in, scan_bucket, scan_of, BucketResult, BucketResultView, ManifestFile,
    ManifestFileView,
};
use crate::sort::{key_views, lemma_sorted_ascends, lemma_sorted_keeps_items, lemma_sorted_map, sort_by_keys, sorted_by};
use crate::text::{chars_of, lex_le, lower};

verus! {

/// An installed bucket as it was read: its name, where that is readable,
/// and its manifest files.
#[derive(Debug, PartialEq, Eq)]
pub struct Bucket {
    pub name: Option<String>,
    pub files: Vec<ManifestFile>,
}

pub struct BucketView {
    pub name: Option<Seq<char>>,
    pub files: Seq<ManifestFileView>,
}

impl View for Bucket {
    type V = BucketView;

    open spec fn view(&self) -> BucketView {
        BucketView { name: self.name.deep_view(), files: file_views(self.files@) }
    }
}

/// The tree listing of a known bucket as it was fetched.
#[derive(Debug, PartialEq, Eq)]
pub struct Listing {
    pub bucket: String,
    pub body: String,
}

pub struct ListingView {
    pub bucket: Seq<char>,
    pub body: Seq<char>,
}

impl View for Listing {
    type V = ListingView;

    open spec fn view(&self) -> ListingView {
        ListingView { bucket: self.bucket@, body: self.body@ }
    }
}

pub type RemoteResultView = (Seq<char>, Seq<Seq<char>>);

/// The views of a sequence of buckets.
pub open spec fn bucket_views(buckets: Seq<Bucket>) -> Seq<BucketView> {
    buckets.map_values(|bucket: Bucket| bucket@)
}

/// The views of a sequence of listings.
pub open spec fn listing_views(listings: Seq<Listing>) -> Seq<ListingView> {
    listings.map_values(|listing: Listing| listing@)
}

/// The names under which results stand.
pub open spec fn names_of<T>(results: Seq<(Seq<char>, T)>) -> Seq<Seq<char>> {
    results.map_values(|result: (Seq<char>, T)| result.0)
}

/// The results go up in their names.
pub open spec fn ascends_by_bucket<T>(results: Seq<(Seq<char>, T)>) -> bool {
    forall|a: int, b: int| 0 <= a < b < results.len() ==> lex_le((#[trigger] results[a]).0, (#[trigger] results[b]).0)
}

/// Results sorted by the names they stand under, results of equal name in
/// the order given.
pub open spec fn sorted_by_name<T>(results: Seq<(Seq<char>, T)>) -> Seq<(Seq<char>, T)> {
    sorted_by(names_of(results), results)
}

// ---------------------------------------------------------------------
// The local search

/// The fault that ends the scan of a bucket.
pub open spec fn is_fault_of(bucket: BucketView, query: Seq<char>, fault: SearchError) -> bool {
    match fault {
        SearchError::Manifest { index, .. } => {
            &&& index < bucket.files.len()
            &&& is_malformed(bucket.files[index as int])
            &&& forall|i: int| 0 <= i < index ==> !is_malformed(#[trigger] bucket.files[i])
        },
        SearchError::Scoop(fault) => {
            &&& fault == ScoopFindError::ScoopBadInstalled
            &&& bucket.name is None
            &&& forall|i: int| 0 <= i < bucket.files.len() ==> !is_malformed(#[trigger] bucket.files[i])
            &&& matches_in(bucket.files, lower(query)).len() > 0
        },
        _ => false,
    }
}

/// A bucket cannot be scanned: one of its files is no JSON document, or it
/// has matches and no readable name.
pub open spec fn is_faulty(bucket: BucketView, query: Seq<char>) -> bool {
    ||| exists|i: int| 0 <= i < bucket.files.len() && is_malformed(#[trigger] bucket.files[i])
    ||| bucket.name is None && matches_in(bucket.files, lower(query)).len() > 0
}

/// What a bucket adds to the local results: nothing where no file matches,
/// else its scan under its name.
pub open spec fn bucket_entry(bucket: BucketView, query: Seq<char>) -> Option<BucketResultView> {
    if matches_in(bucket.files, lower(query)).len() == 0 {
        None
    } else {
        match bucket.name {
            Some(name) => Some((name, scan_of(bucket.files, query))),
            None => None,
        }
    }
}

/// The entries of the buckets, in the order of the buckets.
pub open spec fn local_entries(buckets: Seq<BucketView>, query: Seq<char>) -> Seq<BucketResultView> {
    buckets.filter_map(|bucket: BucketView| bucket_entry(bucket, query))
}

/// The local results: the entries of the buckets, sorted by bucket name.
pub open spec fn local_results(buckets: Seq<BucketView>, query: Seq<char>) -> Seq<BucketResultView> {
    sorted_by_name(local_entries(buckets, query))
}

/// Every entry holds a match.
pub open spec fn none_empty<T>(results: Seq<(Seq<char>, Seq<T>)>) -> bool {
    forall|i: int| 0 <= i < results.len() ==> (#[trigger] results[i]).1.len() > 0
}

/// Sorted results go up in their names, and hold what was sorted and
/// nothing else.
pub proof fn lemma_sorted_by_name<T>(results: Seq<(Seq<char>, T)>)
    ensures
        ascends_by_bucket(sorted_by_name(results)),
        sorted_by_name(results).len() == results.len(),
        forall|a: int| 0 <= a < results.len() ==> results.contains(#[trigger] sorted_by_name(results)[a]),
        forall|i: int| 0 <= i < results.len() ==> sorted_by_name(results).contains(#[trigger] results[i]),
{
    let keys = names_of(results);
    let pick = |result: (Seq<char>, T)| result.0;
    lemma_sorted_keeps_items(keys, results);
    lemma_sorted_ascends(keys);
    lemma_sorted_map(keys, results, pick);
    assert(results.map_values(pick) =~= keys);
    assert forall|a: int, b: int| 0 <= a < b < results.len() implies lex_le(
        (#[trigger] sorted_by_name(results)[a]).0,
        (#[trigger] sorted_by_name(results)[b]).0,
    ) by {
        assert(sorted_by(keys, results).map_values(pick)[a] == sorted_by_name(results)[a].0);
        assert(sorted_by(keys, results).map_values(pick)[b] == sorted_by_name(results)[b].0);
        assert(lex_le(sorted_by(keys, keys)[a], sorted_by(keys, keys)[b]));
    }
}

/// Every entry comes from a bucket with a match, under that bucket's name.
pub proof fn lemma_entries_come_from_buckets(buckets: Seq<BucketView>, query: Seq<char>, at: int)
    requires
        0 <= at < local_entries(buckets, query).len(),
    ensures
        exists|b: int| 0 <= b < buckets.len() && bucket_entry(#[trigger] buckets[b], query) == Some(local_entries(buckets, query)[at]),
        local_entries(buckets, query)[at].1.len() > 0,
    decreases buckets.len(),
{
    let pick = |bucket: BucketView| bucket_entry(bucket, query);
    if buckets.len() > 0 {
        let front = buckets.drop_last();
        let last = buckets.last();
        match pick(last) {
            Some(entry) => {
                assert(local_entries(buckets, query) == local_entries(front, query) + seq![entry]);
                if at < local_entries(front, query).len() {
                    lemma_entries_come_from_buckets(front, query, at);
                    let b = choose|b: int| 0 <= b < front.len() && bucket_entry(#[trigger] front[b], query) == Some(local_entries(front, query)[at]);
                    assert(buckets[b] == front[b]);
                } else {
                    assert(bucket_entry(buckets[buckets.len() - 1], query) == Some(entry));
                    crate::scan::lemma_scan_is_sorted(last.files, query);
                }
            },
            None => {
                assert(local_entries(buckets, query) == local_entries(front, query));
                lemma_entries_come_from_buckets(front, query, at);
                let b = choose|b: int| 0 <= b < front.len() && bucket_entry(#[trigger] front[b], query) == Some(local_entries(front, query)[at]);
                assert(buckets[b] == front[b]);
            },
        }
    }
}

/// The local results leave out every bucket without a match and go up in
/// the bucket names.
pub proof fn lemma_local_results(buckets: Seq<BucketView>, query: Seq<char>)
    ensures
        none_empty(local_results(buckets, query)),
        ascends_by_bucket(local_results(buckets, query)),
        forall|a: int|
            0 <= a < local_results(buckets, query).len() ==> exists|b: int|
                0 <= b < buckets.len() && bucket_entry(#[trigger] buckets[b], query) == Some(
                    #[trigger] local_results(buckets, query)[a],
                ),
{
    let entries = local_entries(buckets, query);
    let results = local_results(buckets, query);
    lemma_sorted_by_name(entries);
    assert forall|a: int| 0 <= a < results.len() implies (#[trigger] results[a]).1.len() > 0 && exists|b: int|
        0 <= b < buckets.len() && bucket_entry(#[trigger] buckets[b], query) == Some(results[a]) by {
        assert(entries.contains(results[a]));
        let at = choose|at: int| 0 <= at < entries.len() && entries[at] == results[a];
        lemma_entries_come_from_buckets(buckets, query, at);
    }
}

/// The texts of the names as keys.
fn name_keys<T>(results: &Vec<(String, T)>) -> (keys: Vec<Vec<char>>)
    ensures
        keys.len() == results.len(),
        key_views(keys@) == results@.map_values(|result: (String, T)| result.0@),
{
    let mut keys: Vec<Vec<char>> = Vec::new();
    let mut i: usize = 0;
    while i < results.len()
        invariant
            i <= results.len(),
            keys.len() == i,
            forall|j: int| 0 <= j < i ==> (#[trigger] keys@[j])@ == results@[j].0@,
        decreases results.len() - i,
    {
        keys.push(chars_of(results[i].0.as_str()));
        i += 1;
    }
    assert(key_views(keys@) =~= results@.map_values(|result: (String, T)| result.0@));
    keys
}

/// Bucket results sorted by bucket name, results of equal name in the order
/// given.
pub fn sort_buckets(results: Vec<BucketResult>) -> (sorted: Vec<BucketResult>)
    ensures
        sorted.deep_view() == sorted_by_name(results.deep_view()),
        ascends_by_bucket(sorted.deep_view()),
{
    let keys = name_keys(&results);
    let ghost raw = results@;
    let ghost views = results.deep_view();
    let sorted = sort_by_keys(results, &keys);
    proof {
        let deep = |result: BucketResult| result.deep_view();
        assert(raw.map_values(deep) =~= views);
        assert(key_views(keys@) =~= names_of(views));
        lemma_sorted_map(key_views(keys@), raw, deep);
        assert(sorted.deep_view() =~= sorted@.map_values(deep));
        lemma_sorted_by_name(views);
    }
    sorted
}

/// Remote results sorted by bucket name, results of equal name in the
/// order given.
pub fn sort_remote(results: Vec<RemoteResult>) -> (sorted: Vec<RemoteResult>)
    ensures
        sorted.deep_view() == sorted_by_name(results.deep_view()),
        ascends_by_bucket(sorted.deep_view()),
{
    let keys = name_keys(&results);
    let ghost raw = results@;
    let ghost views = results.deep_view();
    let sorted = sort_by_keys(results, &keys);
    proof {
        let deep = |result: RemoteResult| result.deep_view();
        assert(raw.map_values(deep) =~= views);
        assert(key_views(keys@) =~= names_of(views));
        lemma_sorted_map(key_views(keys@), raw, deep);
        assert(sorted.deep_view() =~= sorted@.map_values(deep));
        lemma_sorted_by_name(views);
    }
    sorted
}

/// The local search: every bucket is scanned for `query`, buckets without
/// a match are left out, and the rest is sorted by bucket name.
///
/// The first bucket that cannot be scanned ends the search with its fault.
pub fn local_search(buckets: &Vec<Bucket>, query: &str) -> (r: Result<Vec<BucketResult>, SearchError>)
    ensures
        match r {
            Ok(results) => {
                &&& forall|b: int| 0 <= b < buckets.len() ==> !is_faulty(#[trigger] buckets@[b]@, query@)
                &&& results.deep_view() == local_results(bucket_views(buckets@), query@)
                &&& none_empty(results.deep_view())
                &&& ascends_by_bucket(results.deep_view())
            },
            Err(fault) => exists|b: int|
                {
                    &&& 0 <= b < buckets.len()
                    &&& is_fault_of(#[trigger] buckets@[b]@, query@, fault)
                    &&& forall|j: int| 0 <= j < b ==> !is_faulty(#[trigger] buckets@[j]@, query@)
                },
        },
{
    let ghost all = bucket_views(buckets@);
    let mut entries: Vec<BucketResult> = Vec::new();
    let mut i: usize = 0;
    proof {
        assert(all.take(0) =~= Seq::<BucketView>::empty());
    }
    while i < buckets.len()
        invariant
            i <= buckets.len(),
            all == bucket_views(buckets@),
            forall|b: int| 0 <= b < i ==> !is_faulty(#[trigger] buckets@[b]@, query@),
            entries.deep_view() == local_entries(all.take(i as int), query@),
        decreases buckets.len() - i,
    {
        let bucket = &buckets[i];
        let ghost before = entries.deep_view();
        proof {
            assert(all.take(i + 1).drop_last() =~= all.take(i as int));
            assert(all.take(i + 1).last() == bucket@);
        }
        let name: Option<&str> = match &bucket.name {
            Some(text) => Some(text.as_str()),
            None => None,
        };
        match scan_bucket(name, &bucket.files, query) {
            Ok(Some(entry)) => {
                proof {
                    crate::scan::lemma_scan_is_sorted(bucket@.files, query@);
                    assert(bucket_entry(bucket@, query@) == Some(entry.deep_view()));
                }
                entries.push(entry);
                assert(entries.deep_view() =~= before + seq![entry.deep_view()]);
            },
            Ok(None) => {
                assert(bucket_entry(bucket@, query@) is None);
            },
            Err(fault) => {
                assert(is_fault_of(buckets@[i as int]@, query@, fault));
                return Err(fault);
            },
        }
        i += 1;
    }
    proof {
        assert(all.take(buckets.len() as int) =~= all);
        lemma_local_results(all, query@);
    }
    Ok(sort_buckets(entries))
}

// ---------------------------------------------------------------------
// The remote search

/// The manifest names that a listing offers for a query, `None` where the
/// query makes no pattern or a match captured no name.
pub open spec fn listed_names(body: Seq<char>, query: Seq<char>) -> Option<Seq<Seq<char>>> {
    if pattern_compiles(remote_pattern(query)) && all_captured(first_groups(remote_pattern(query), body)) {
        Some(captured(first_groups(remote_pattern(query), body)))
    } else {
        None
    }
}

/// The fault that ends the reading of a listing.
pub open spec fn is_fault_in(body: Seq<char>, query: Seq<char>, fault: SearchError) -> bool {
    match fault {
        SearchError::Pattern(_) => !pattern_compiles(remote_pattern(query)),
        SearchError::NoCapture { index } => {
            &&& pattern_compiles(remote_pattern(query))
            &&& is_first_gap(first_groups(remote_pattern(query), body), index as int)
        },
        _ => false,
    }
}

/// What a listing adds to the remote results: nothing where it offers no
/// name, else its names under the bucket's name.
pub open spec fn listing_entry(listing: ListingView, query: Seq<char>) -> Option<RemoteResultView> {
    match listed_names(listing.body, query) {
        Some(names) => if names.len() == 0 {
            None
        } else {
            Some((listing.bucket, names))
        },
        None => None,
    }
}

/// The entries of the listings, in the order of the listings.
pub open spec fn remote_entries(listings: Seq<ListingView>, query: Seq<char>) -> Seq<RemoteResultView> {
    listings.filter_map(|listing: ListingView| listing_entry(listing, query))
}

/// The remote results: the entries of the listings, sorted by bucket name.
pub open spec fn remote_results(listings: Seq<ListingView>, query: Seq<char>) -> Seq<RemoteResultView> {
    sorted_by_name(remote_entries(listings, query))
}

/// Every remote entry comes from a listing that offers a name.
pub proof fn lemma_remote_entries_come_from_listings(listings: Seq<ListingView>, query: Seq<char>, at: int)
    requires
        0 <= at < remote_entries(listings, query).len(),
    ensures
        exists|l: int| 0 <= l < listings.len() && listing_entry(#[trigger] listings[l], query) == Some(remote_entries(listings, query)[at]),
        remote_entries(listings, query)[at].1.len() > 0,
    decreases listings.len(),
{
    let pick = |listing: ListingView| listing_entry(listing, query);
    if listings.len() > 0 {
        let front = listings.drop_last();
        match pick(listings.last()) {
            Some(entry) => {
                assert(remote_entries(listings, query) == remote_entries(front, query) + seq![entry]);
                if at < remote_entries(front, query).len() {
                    lemma_remote_entries_come_from_listings(front, query, at);
                    let l = choose|l: int| 0 <= l < front.len() && listing_entry(#[trigger] front[l], query) == Some(remote_entries(front, query)[at]);
                    assert(listings[l] == front[l]);
                } else {
                    assert(listing_entry(listings[listings.len() - 1], query) == Some(entry));
                }
            },
            None => {
                assert(remote_entries(listings, query) == remote_entries(front, query));
                lemma_remote_entries_come_from_listings(front, query, at);
                let l = choose|l: int| 0 <= l < front.len() && listing_entry(#[trigger] front[l], query) == Some(remote_entries(front, query)[at]);
                assert(listings[l] == front[l]);
            },
        }
    }
}

/// The remote results leave out every listing without a candidate and go
/// up in the bucket names.
pub proof fn lemma_remote_results(listings: Seq<ListingView>, query: Seq<char>)
    ensures
        none_empty(remote_results(listings, query)),
        ascends_by_bucket(remote_results(listings, query)),
        forall|a: int|
            0 <= a < remote_results(listings, query).len() ==> exists|l: int|
                0 <= l < listings.len() && listing_entry(#[trigger] listings[l], query) == Some(
                    #[trigger] remote_results(listings, query)[a],
                ),
{
    let entries = remote_entries(listings, query);
    let results = remote_results(listings, query);
    lemma_sorted_by_name(entries);
    assert forall|a: int| 0 <= a < results.len() implies (#[trigger] results[a]).1.len() > 0 && exists|l: int|
        0 <= l < listings.len() && listing_entry(#[trigger] listings[l], query) == Some(results[a]) by {
        assert(entries.contains(results[a]));
        let at = choose|at: int| 0 <= at < entries.len() && entries[at] == results[a];
        lemma_remote_entries_come_from_listings(listings, query, at);
    }
}

/// The candidates of one listing as the search records them: `None` where
/// the listing offers no name, else the names under the bucket's name.
pub fn remote_candidates(bucket: &str, body: &str, query: &str) -> (r: Result<Option<RemoteResult>, SearchError>)
    ensures
        match r {
            Ok(entry) => {
                &&& listed_names(body@, query@) is Some
                &&& entry.deep_view() == listing_entry(ListingView { bucket: bucket@, body: body@ }, query@)
            },
            Err(fault) => is_fault_in(body@, query@, fault),
        },
{
    let names = match find_remote(body, query) {
        Ok(names) => names,
        Err(fault) => {
            return Err(fault);
        },
    };
    if names.len() == 0 {
        Ok(None)
    } else {
        Ok(Some((bucket.to_owned(), names)))
    }
}

/// The remote search: every listing is read for `query`, listings without
/// a candidate are left out, and the rest is sorted by bucket name.
///
/// The first listing that cannot be read ends the search with its fault.
pub fn remote_search(listings: &Vec<Listing>, query: &str) -> (r: Result<Vec<RemoteResult>, SearchError>)
    ensures
        match r {
            Ok(results) => {
                &&& forall|l: int| 0 <= l < listings.len() ==> listed_names((#[trigger] listings@[l])@.body, query@) is Some
                &&& results.deep_view() == remote_results(listing_views(listings@), query@)
                &&& none_empty(results.deep_view())
                &&& ascends_by_bucket(results.deep_view())
            },
            Err(fault) => exists|l: int|
                {
                    &&& 0 <= l < listings.len()
                    &&& is_fault_in((#[trigger] listings@[l])@.body, query@, fault)
                    &&& forall|j: int| 0 <= j < l ==> listed_names((#[trigger] listings@[j])@.body, query@) is Some
                },
        },
{
    let ghost all = listing_views(listings@);
    let mut entries: Vec<RemoteResult> = Vec::new();
    let mut i: usize = 0;
    proof {
        assert(all.take(0) =~= Seq::<ListingView>::empty());
    }
    while i < listings.len()
        invariant
            i <= listings.len(),
            all == listing_views(listings@),
            forall|l: int| 0 <= l < i ==> listed_names((#[trigger] listings@[l])@.body, query@) is Some,
            entries.deep_view() == remote_entries(all.take(i as int), query@),
        decreases listings.len() - i,
    {
        let listing = &listings[i];
        let ghost before = entries.deep_view();
        proof {
            assert(all.take(i + 1).drop_last() =~= all.take(i as int));
            assert(all.take(i + 1).last() == listing@);
        }
        match remote_candidates(listing.bucket.as_str(), listing.body.as_str(), query) {
            Ok(Some(entry)) => {
                entries.push(entry);
                assert(entries.deep_view() =~= before + seq![entry.deep_view()]);
            },
            Ok(None) => {},
            Err(fault) => {
                assert(is_fault_in(listings@[i as int]@.body, query@, fault));
                return Err(fault);
            },
        }
        i += 1;
    }
    proof {
        assert(all.take(listings.len() as int) =~= all);
        lemma_remote_results(all, query@);
    }
    Ok(sort_remote(entries))
}

} // verus!

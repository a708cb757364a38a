//! The well-known buckets and where their tree listings are found.

use vstd::prelude::*;
use crate::text::same_text;

verus! {

/// A known bucket: its name and the address of its tree listing.
pub type KnownBucket = (&'static str, &'static str);

pub type KnownBucketView = (Seq<char>, Seq<char>);

/// The table of known buckets.
pub open spec fn known_table() -> Seq<KnownBucketView> {
    seq![
        ("main"@, "https://api.github.com/repos/ScoopInstaller/Main/git/trees/HEAD?recursive=1"@),
        ("extras"@, "https://api.github.com/repos/ScoopInstaller/Extras/git/trees/HEAD?recursive=1"@),
        ("versions"@, "https://api.github.com/repos/ScoopInstaller/Versions/git/trees/HEAD?recursive=1"@),
        ("nirsoft"@, "https://api.github.com/repos/kodybrown/scoop-nirsoft/git/trees/HEAD?recursive=1"@),
        ("php"@, "https://api.github.com/repos/ScoopInstaller/PHP/git/trees/HEAD?recursive=1"@),
        ("nerd-fonts"@, "https://api.github.com/repos/matthewjberger/scoop-nerd-fonts/git/trees/HEAD?recursive=1"@),
        ("nonportable"@, "https://api.github.com/repos/TheRandomLabs/scoop-nonportable/git/trees/HEAD?recursive=1"@),
        ("java"@, "https://api.github.com/repos/ScoopInstaller/Java/git/trees/HEAD?recursive=1"@),
        ("games"@, "https://api.github.com/repos/Calinou/scoop-games/git/trees/HEAD?recursive=1"@),
    ]
}

/// The text is the name of an installed bucket.
pub open spec fn is_installed(installed: Seq<Seq<char>>, name: Seq<char>) -> bool {
    installed.contains(name)
}

/// The known buckets that are not installed, in the order of the table.
pub open spec fn remote_targets_of(installed: Seq<Seq<char>>) -> Seq<KnownBucketView> {
    known_table().filter(|bucket: KnownBucketView| !is_installed(installed, bucket.0))
}

/// No bucket to fetch is installed, and every known bucket that is not
/// installed is fetched.
pub proof fn lemma_targets_are_the_missing(installed: Seq<Seq<char>>)
    ensures
        forall|i: int|
            0 <= i < remote_targets_of(installed).len() ==> {
                &&& !is_installed(installed, (#[trigger] remote_targets_of(installed)[i]).0)
                &&& known_table().contains(remote_targets_of(installed)[i])
            },
        forall|k: int|
            0 <= k < known_table().len() && !is_installed(installed, (#[trigger] known_table()[k]).0)
                ==> remote_targets_of(installed).contains(known_table()[k]),
{
    let keep = |bucket: KnownBucketView| !is_installed(installed, bucket.0);
    assert forall|i: int| 0 <= i < remote_targets_of(installed).len() implies {
        &&& !is_installed(installed, (#[trigger] remote_targets_of(installed)[i]).0)
        &&& known_table().contains(remote_targets_of(installed)[i])
    } by {
        known_table().lemma_filter_pred(keep, i);
        known_table().lemma_filter_contains_rev(keep, remote_targets_of(installed)[i]);
    }
    assert forall|k: int|
        0 <= k < known_table().len() && !is_installed(installed, (#[trigger] known_table()[k]).0) implies remote_targets_of(
        installed,
    ).contains(known_table()[k]) by {
        known_table().lemma_filter_contains(keep, k);
    }
}

/// The table of known buckets.
pub fn known_buckets() -> (table: Vec<KnownBucket>)
    ensures
        table.deep_view() == known_table(),
{
    let table: Vec<KnownBucket> = vec![
        ("main", "https://api.github.com/repos/ScoopInstaller/Main/git/trees/HEAD?recursive=1"),
        ("extras", "https://api.github.com/repos/ScoopInstaller/Extras/git/trees/HEAD?recursive=1"),
        ("versions", "https://api.github.com/repos/ScoopInstaller/Versions/git/trees/HEAD?recursive=1"),
        ("nirsoft", "https://api.github.com/repos/kodybrown/scoop-nirsoft/git/trees/HEAD?recursive=1"),
        ("php", "https://api.github.com/repos/ScoopInstaller/PHP/git/trees/HEAD?recursive=1"),
        ("nerd-fonts", "https://api.github.com/repos/matthewjberger/scoop-nerd-fonts/git/trees/HEAD?recursive=1"),
        ("nonportable", "https://api.github.com/repos/TheRandomLabs/scoop-nonportable/git/trees/HEAD?recursive=1"),
        ("java", "https://api.github.com/repos/ScoopInstaller/Java/git/trees/HEAD?recursive=1"),
        ("games", "https://api.github.com/repos/Calinou/scoop-games/git/trees/HEAD?recursive=1"),
    ];
    assert(table.deep_view() =~= known_table());
    table
}

/// Whether `name` is among the installed bucket names.
pub fn installed_has(installed: &Vec<String>, name: &str) -> (r: bool)
    ensures
        r == is_installed(installed.deep_view(), name@),
{
    let mut i: usize = 0;
    while i < installed.len()
        invariant
            i <= installed.len(),
            forall|j: int| 0 <= j < i ==> installed.deep_view()[j] != name@,
        decreases installed.len() - i,
    {
        if same_text(installed[i].as_str(), name) {
            assert(installed.deep_view()[i as int] == name@);
            return true;
        }
        i += 1;
    }
    false
}

/// The known buckets whose name is that of no installed bucket, in the
/// order of the table.
pub fn remote_targets(installed: &Vec<String>) -> (targets: Vec<KnownBucket>)
    ensures
        targets.deep_view() == remote_targets_of(installed.deep_view()),
{
    let table = known_buckets();
    let ghost keep = |bucket: KnownBucketView| !is_installed(installed.deep_view(), bucket.0);
    let mut targets: Vec<KnownBucket> = Vec::new();
    let mut i: usize = 0;
    proof {
        reveal(Seq::filter);
        assert(known_table().take(0) =~= Seq::<KnownBucketView>::empty());
    }
    while i < table.len()
        invariant
            i <= table.len(),
            table.deep_view() == known_table(),
            keep == |bucket: KnownBucketView| !is_installed(installed.deep_view(), bucket.0),
            targets.deep_view() == known_table().take(i as int).filter(keep),
        decreases table.len() - i,
    {
        let bucket = table[i];
        let ghost before = targets.deep_view();
        proof {
            reveal(Seq::filter);
            assert(known_table().take(i + 1).drop_last() =~= known_table().take(i as int));
            assert(known_table().take(i + 1).last() == table.deep_view()[i as int]);
        }
        if !installed_has(installed, bucket.0) {
            targets.push(bucket);
            assert(targets.deep_view() =~= before.push(bucket.deep_view()));
        }
        i += 1;
    }
    assert(known_table().take(table.len() as int) =~= known_table());
    targets
}

} // verus!

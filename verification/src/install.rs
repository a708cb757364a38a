//! Where the installation, its buckets and their manifests are found, given
//! what the file system says of the candidate paths.

use vstd::prelude::*;
use crate::errors::ScoopFindError;
use crate::scan::{is_manifest_path, names_manifest};

verus! {

/// What stands at a path.
#[derive(Debug, Clone, Copy, PartialEq, Eq, Structural)]
pub enum PathKind {
    Directory,
    File,
    /// Nothing, or something that is neither.
    Other,
}

/// A path and what stands there.
#[derive(Debug, PartialEq, Eq)]
pub struct Probe {
    pub path: String,
    pub kind: PathKind,
}

pub struct ProbeView {
    pub path: Seq<char>,
    pub kind: PathKind,
}

impl View for Probe {
    type V = ProbeView;

    open spec fn view(&self) -> ProbeView {
        ProbeView { path: self.path@, kind: self.kind }
    }
}

/// The views of a sequence of probes.
pub open spec fn probe_views(probes: Seq<Probe>) -> Seq<ProbeView> {
    probes.map_values(|probe: Probe| probe@)
}

/// The name of the installation's directory below the user's profile.
pub const HOME_DIRECTORY: &'static str = "scoop";

/// The name of the directory of buckets below the installation root.
pub const BUCKETS_DIRECTORY: &'static str = "buckets";

/// The name of the directory of manifests below a bucket.
pub const MANIFEST_DIRECTORY: &'static str = "bucket";

/// `at` is the first probe at which a directory stands.
pub open spec fn is_first_directory(probes: Seq<ProbeView>, at: int) -> bool {
    &&& 0 <= at < probes.len()
    &&& probes[at].kind == PathKind::Directory
    &&& forall|i: int| 0 <= i < at ==> (#[trigger] probes[i]).kind != PathKind::Directory
}

/// No directory stands at any probe.
pub open spec fn no_directory(probes: Seq<ProbeView>) -> bool {
    forall|i: int| 0 <= i < probes.len() ==> (#[trigger] probes[i]).kind != PathKind::Directory
}

/// The paths at which a directory stands, in the order given.
pub open spec fn directories(probes: Seq<ProbeView>) -> Seq<Seq<char>> {
    probes.filter_map(
        |probe: ProbeView|
            if probe.kind == PathKind::Directory {
                Some(probe.path)
            } else {
                None
            },
    )
}

/// The paths of the manifests among the entries of a directory: the files
/// whose extension is `json`, in the order given.
pub open spec fn manifests_among(entries: Seq<ProbeView>) -> Seq<Seq<char>> {
    entries.filter_map(
        |entry: ProbeView|
            if entry.kind == PathKind::File && is_manifest_path(entry.path) {
                Some(entry.path)
            } else {
                None
            },
    )
}

/// The installation root: the first of the configured candidates that is a
/// directory, else the directory below the user's profile if that is one.
pub fn scoop_home(configured: &Vec<Probe>, profile: Option<&Probe>) -> (r: Result<String, ScoopFindError>)
    ensures
        match r {
            Ok(home) => {
                ||| exists|at: int|
                    is_first_directory(probe_views(configured@), at) && home@ == (#[trigger] configured@[at]).path@
                ||| {
                    &&& no_directory(probe_views(configured@))
                    &&& profile matches Some(probe)
                    &&& probe.kind == PathKind::Directory
                    &&& home@ == probe.path@
                }
            },
            Err(fault) => {
                &&& fault == ScoopFindError::ScoopHomeNotFound
                &&& no_directory(probe_views(configured@))
                &&& profile matches Some(probe) ==> probe.kind != PathKind::Directory
            },
        },
{
    let mut i: usize = 0;
    while i < configured.len()
        invariant
            i <= configured.len(),
            forall|j: int| 0 <= j < i ==> (#[trigger] probe_views(configured@)[j]).kind != PathKind::Directory,
        decreases configured.len() - i,
    {
        if configured[i].kind == PathKind::Directory {
            assert(is_first_directory(probe_views(configured@), i as int));
            return Ok(configured[i].path.clone());
        }
        i += 1;
    }
    match profile {
        Some(probe) => {
            if probe.kind == PathKind::Directory {
                Ok(probe.path.clone())
            } else {
                Err(ScoopFindError::ScoopHomeNotFound)
            }
        },
        None => Err(ScoopFindError::ScoopHomeNotFound),
    }
}

/// The installed buckets: the entries of the buckets directory that are
/// directories, in the order given. An installation without a buckets
/// directory is not installed correctly.
pub fn get_buckets(buckets: PathKind, entries: &Vec<Probe>) -> (r: Result<Vec<String>, ScoopFindError>)
    ensures
        match r {
            Ok(found) => buckets == PathKind::Directory && found.deep_view() == directories(probe_views(entries@)),
            Err(fault) => buckets != PathKind::Directory && fault == ScoopFindError::ScoopBadInstalled,
        },
{
    if buckets != PathKind::Directory {
        return Err(ScoopFindError::ScoopBadInstalled);
    }
    let ghost all = probe_views(entries@);
    let mut found: Vec<String> = Vec::new();
    let mut i: usize = 0;
    proof {
        assert(all.take(0) =~= Seq::<ProbeView>::empty());
    }
    while i < entries.len()
        invariant
            i <= entries.len(),
            all == probe_views(entries@),
            found.deep_view() == directories(all.take(i as int)),
        decreases entries.len() - i,
    {
        let ghost before = found.deep_view();
        proof {
            assert(all.take(i + 1).drop_last() =~= all.take(i as int));
            assert(all.take(i + 1).last() == entries@[i as int]@);
        }
        if entries[i].kind == PathKind::Directory {
            let path = entries[i].path.clone();
            found.push(path);
            assert(found.deep_view() =~= before + seq![path@]);
        }
        i += 1;
    }
    proof {
        assert(all.take(entries.len() as int) =~= all);
    }
    Ok(found)
}

/// Where the manifests of a bucket are found: in its manifest directory
/// where that is a directory, else in the bucket itself.
pub fn manifest_home<'a>(bucket: &'a str, nested: &'a Probe) -> (r: &'a str)
    ensures
        r@ == if nested.kind == PathKind::Directory {
            nested.path@
        } else {
            bucket@
        },
{
    if nested.kind == PathKind::Directory {
        nested.path.as_str()
    } else {
        bucket
    }
}

/// The paths of the manifests among the entries of a directory: the files
/// whose extension is `json`, in the order given.
pub fn manifest_paths(entries: &Vec<Probe>) -> (r: Vec<String>)
    ensures
        r.deep_view() == manifests_among(probe_views(entries@)),
{
    let ghost all = probe_views(entries@);
    let mut found: Vec<String> = Vec::new();
    let mut i: usize = 0;
    proof {
        assert(all.take(0) =~= Seq::<ProbeView>::empty());
    }
    while i < entries.len()
        invariant
            i <= entries.len(),
            all == probe_views(entries@),
            found.deep_view() == manifests_among(all.take(i as int)),
        decreases entries.len() - i,
    {
        let ghost before = found.deep_view();
        proof {
            assert(all.take(i + 1).drop_last() =~= all.take(i as int));
            assert(all.take(i + 1).last() == entries@[i as int]@);
        }
        if entries[i].kind == PathKind::File && names_manifest(entries[i].path.as_str()) {
            let path = entries[i].path.clone();
            found.push(path);
            assert(found.deep_view() =~= before + seq![path@]);
        }
        i += 1;
    }
    proof {
        assert(all.take(entries.len() as int) =~= all);
    }
    found
}

} // verus!

//! Resolving the starting directory and walking the real directory tree.
//!
//! The filesystem is external state: what the probes return depends on the
//! disk, so the trusted wrappers promise nothing about their results.  All
//! decisions taken on those results are verified: what a probe outcome means
//! is pinned down by [`check_candidate`], and every path that the walk
//! reports is proved to name a `node_modules` candidate.
use vstd::prelude::*;

use crate::errors::Error;
use crate::tree::module_candidate;
use crate::tree::module_path_of;

verus! {

/// Relies on std::path::Path::exists: whether the path names an existing
/// filesystem entity.  The result depends on the disk, so nothing is
/// promised of it.
#[verifier::external_body]
fn fs_exists(p: &String) -> bool {
    std::path::Path::new(p.as_str()).exists()
}

/// Relies on std::path::Path::is_dir: whether the path names an existing
/// directory.  The result depends on the disk, so nothing is promised of it.
#[verifier::external_body]
fn fs_is_dir(p: &String) -> bool {
    std::path::Path::new(p.as_str()).is_dir()
}

/// Relies on std::path::Path::read_dir: the entries of the directory, as
/// paths, or `None` where the directory could not be read.  Entries that
/// fail to read are skipped, as are entry names that are not valid Unicode.
/// The result depends on the disk, so nothing is promised of it.
#[verifier::external_body]
fn fs_read_dir(p: &String) -> Option<Vec<String>> {
    match std::path::Path::new(p.as_str()).read_dir() {
        Ok(entries) => {
            let mut out: Vec<String> = Vec::new();
            for entry in entries {
                match entry {
                    Ok(d) => out.push(d.path().to_string_lossy().into_owned()),
                    Err(_) => {},
                }
            }
            Some(out)
        },
        Err(_) => None,
    }
}

/// Whether `p` is the `node_modules` candidate of some directory path.
pub open spec fn is_module_path(p: Seq<char>) -> bool {
    exists|q: Seq<char>| p == module_path_of(q)
}

/// What a probed candidate becomes: present, it is the located path;
/// absent, it is a `DirectoryNotFound` for that same candidate.
pub fn check_candidate(candidate: String, present: bool) -> (r: Result<String, Error>)
    ensures
        present ==> (r matches Ok(p) && p@ == candidate@),
        !present ==> (r matches Err(e) && e matches Error::DirectoryNotFound { path: q } && q@
            == candidate@),
{
    if present {
        Ok(candidate)
    } else {
        Err(Error::DirectoryNotFound { path: candidate })
    }
}

/// The single-level policy: checks exactly one directory — `path` — for an
/// immediate `node_modules` child, and reports the candidate as located or
/// as not found.
pub fn get(path: &String) -> (r: Result<String, Error>)
    ensures
        r matches Ok(p) ==> p@ == module_path_of(path@),
        r matches Err(e) ==> e matches Error::DirectoryNotFound { path: q } && q@
            == module_path_of(path@),
{
    let candidate = module_candidate(path);
    let present = fs_exists(&candidate) && fs_is_dir(&candidate);
    check_candidate(candidate, present)
}

/// Whether one walk result has the shape the walk promises: a located path
/// is a `node_modules` candidate; a miss is a `DirectoryNotFound` for a
/// `node_modules` candidate; and an unreadable directory is a
/// `DirectoryReadError`.
pub open spec fn locate_result_shape(x: Result<String, Error>) -> bool {
    match x {
        Ok(p) => is_module_path(p@),
        Err(e) => match e {
            Error::DirectoryNotFound { path: q } => is_module_path(q@),
            Error::DirectoryReadError { path: _ } => true,
            _ => false,
        },
    }
}

/// Walks the directory tree rooted at `root` depth-first, visiting only
/// directories, and reports `node_modules` match sites.
///
/// With `prune` set, a directory whose `node_modules` child is present is
/// reported once and not descended into, and only matches are reported.
/// Without it, every visited directory contributes one result, found or not,
/// and every directory is descended into.  An unreadable directory ends the
/// walk of that subtree only: the branch is reported as a
/// `DirectoryReadError` when every visited directory reports, and is skipped
/// silently under pruning; siblings and already-collected results are
/// unaffected either way.  A `root` that is not a directory yields no
/// results at all.
///
/// A real directory tree is finite, but a cycle of symbolic links can make a
/// naive walk run forever; the walk therefore visits at most `usize::MAX`
/// directories, which no acyclic tree reaches.
pub fn locate_walk(root: &String, prune: bool) -> (r: Vec<Result<String, Error>>)
    ensures
        forall|i: int| 0 <= i < r@.len() ==> #[trigger] locate_result_shape(r@[i]),
        prune ==> forall|i: int| 0 <= i < r@.len() ==> r@[i] is Ok,
{
    let mut results: Vec<Result<String, Error>> = Vec::new();
    let mut pending: Vec<String> = Vec::new();
    let mut budget: usize = usize::MAX;
    pending.push(root.clone());
    while pending.len() > 0 && budget > 0
        invariant
            forall|i: int| 0 <= i < results@.len() ==> #[trigger] locate_result_shape(
                results@[i],
            ),
            prune ==> forall|i: int| 0 <= i < results@.len() ==> results@[i] is Ok,
        decreases budget,
    {
        budget = budget - 1;
        let dir = match pending.pop() {
            Some(d) => d,
            None => {
                break ;
            },
        };
        if fs_is_dir(&dir) {
            let candidate = module_candidate(&dir);
            proof {
                assert(is_module_path(candidate@)) by {
                    assert(candidate@ == module_path_of(dir@));
                }
            }
            let present = fs_exists(&candidate) && fs_is_dir(&candidate);
            if present || !prune {
                let outcome = check_candidate(candidate, present);
                results.push(outcome);
            }
            if !(prune && present) {
                match fs_read_dir(&dir) {
                    Some(mut entries) => {
                        pending.append(&mut entries);
                    },
                    None => {
                        if !prune {
                            results.push(Err(Error::DirectoryReadError { path: dir }));
                        }
                    },
                }
            }
        }
    }
    results
}

/// The recursive pruning policy over the real filesystem: every result is a
/// located `node_modules` path, and nothing below a located path is visited.
pub fn get_rec(path: &String) -> (r: Vec<Result<String, Error>>)
    ensures
        forall|i: int| 0 <= i < r@.len() ==> (#[trigger] r@[i] matches Ok(p) && is_module_path(p@)),
{
    let r = locate_walk(path, true);
    proof {
        assert forall|i: int| 0 <= i < r@.len() implies (#[trigger] r@[i] matches Ok(p)
            && is_module_path(p@)) by {
            assert(locate_result_shape(r@[i]));
        }
    }
    r
}

/// Locates candidates under `root`: the recursive pruning walk, or the
/// single-level check alone.
pub fn locate(root: &String, recursive: bool) -> (r: Vec<Result<String, Error>>)
    ensures
        recursive ==> forall|i: int|
            0 <= i < r@.len() ==> (#[trigger] r@[i] matches Ok(p) && is_module_path(p@)),
        !recursive ==> r@.len() == 1 && (r@[0] matches Ok(p) ==> p@ == module_path_of(root@)) && (
        r@[0] matches Err(e) ==> (e matches Error::DirectoryNotFound { path: q } && q@
            == module_path_of(root@))),
{
    if recursive {
        get_rec(root)
    } else {
        let single = get(root);
        let mut v: Vec<Result<String, Error>> = Vec::new();
        v.push(single);
        v
    }
}

/// Resolves the starting directory: an absent argument resolves to the
/// current working directory `cwd`; a present one is accepted exactly when
/// it names an existing filesystem entity, and rejected as not found
/// otherwise.
pub fn extract_directory(arg: Option<&str>, cwd: &String) -> (r: Result<String, Error>)
    ensures
        arg is None ==> (r matches Ok(p) && p@ == cwd@),
        arg matches Some(d) ==> (match r {
            Ok(p) => p@ == d@,
            Err(e) => e matches Error::DirectoryNotFound { path: q } && q@ == d@,
        }),
        arg is None ==> r is Ok,
{
    match arg {
        None => Ok(cwd.clone()),
        Some(d) => {
            let candidate: String = d.to_owned();
            let present = fs_exists(&candidate);
            check_candidate(candidate, present)
        },
    }
}

/// The located paths among the walk results, in order: only successes flow
/// on to confirmation and dispatch.
pub open spec fn spec_successes(s: Seq<Result<String, Error>>) -> Seq<String>
    decreases s.len(),
{
    if s.len() == 0 {
        Seq::empty()
    } else {
        spec_successes(s.drop_last()) + (match s.last() {
            Ok(p) => seq![p],
            Err(_) => Seq::empty(),
        })
    }
}

/// Filters the walk results down to the located paths, keeping their order.
pub fn successful_paths(results: &Vec<Result<String, Error>>) -> (r: Vec<String>)
    ensures
        r@ == spec_successes(results@),
{
    let mut r: Vec<String> = Vec::new();
    let mut i: usize = 0;
    while i < results.len()
        invariant
            0 <= i <= results@.len(),
            r@ == spec_successes(results@.take(i as int)),
        decreases results@.len() - i,
    {
        let ghost r_before = r@;
        match &results[i] {
            Ok(p) => {
                r.push(p.clone());
                proof {
                    assert(r@ =~= r_before + seq![results@[i as int]->Ok_0]);
                }
            },
            Err(_) => {
                proof {
                    assert(r@ =~= r_before + Seq::<String>::empty());
                }
            },
        }
        proof {
            assert(results@.take(i as int + 1).drop_last() =~= results@.take(i as int));
            assert(results@.take(i as int + 1).last() == results@[i as int]);
        }
        i += 1;
    }
    proof {
        assert(results@.take(results@.len() as int) =~= results@);
    }
    r
}

} // verus!

//! The traversal engine: walk the source tree, skip entries that cannot be
//! read, hold every readable entry against the filter model, and prune the
//! subtree of an excluded directory. The walk itself is done by the walkdir
//! crate behind trusted declarations; the filtering and pruning decisions
//! around it are verified.
use crate::config::Arguments;
use vstd::prelude::*;

verus! {

/// A filesystem entry that has passed the filter decision and is queued for
/// copying: its path and whether it is a directory.
pub struct CandidateEntry {
    pub path: String,
    pub is_dir: bool,
}

#[verifier::external_type_specification]
#[verifier::external_body]
pub struct ExWalkDir(walkdir::WalkDir);

#[verifier::external_type_specification]
#[verifier::external_body]
pub struct ExWalkDirIntoIter(walkdir::IntoIter);

#[verifier::external_type_specification]
#[verifier::external_body]
pub struct ExWalkDirEntry(walkdir::DirEntry);

#[verifier::external_type_specification]
#[verifier::external_body]
pub struct ExWalkDirError(walkdir::Error);

/// Relies on walkdir::WalkDir::new: builds a recursive directory walker
/// rooted at the given path.
#[verifier::external_body]
fn walk_new(root: &str) -> walkdir::WalkDir {
    walkdir::WalkDir::new(root)
}

/// Relies on walkdir::WalkDir::follow_links: sets whether the walker follows
/// symbolic links or yields them without descending.
#[verifier::external_body]
fn walk_follow_links(walker: walkdir::WalkDir, yes: bool) -> walkdir::WalkDir {
    walker.follow_links(yes)
}

/// Relies on the IntoIterator impl of walkdir::WalkDir: turns the configured
/// walker into its entry iterator.
#[verifier::external_body]
fn walk_into_iter(walker: walkdir::WalkDir) -> walkdir::IntoIter {
    walker.into_iter()
}

/// Relies on walkdir::IntoIter::next: yields the next entry of the walk, or
/// an error for an entry that could not be read, or nothing when the walk is
/// done. The entry is reduced to its path text and its directory flag; what
/// comes back depends on the filesystem, so nothing is promised of it.
#[verifier::external_body]
fn walk_next(it: &mut walkdir::IntoIter) -> Option<Result<(String, bool), ()>> {
    match it.next() {
        None => None,
        Some(Err(_)) => Some(Err(())),
        Some(Ok(entry)) => {
            let path = entry.path().to_string_lossy().into_owned();
            let is_dir = entry.file_type().is_dir();
            Some(Ok((path, is_dir)))
        },
    }
}

/// Relies on walkdir::IntoIter::skip_current_dir: the walker will not
/// descend into the directory whose entry was yielded last.
#[verifier::external_body]
fn walk_skip_current_dir(it: &mut walkdir::IntoIter) {
    it.skip_current_dir()
}

/// Walk the source root and gather every entry that passes the filter model.
/// An entry that cannot be read is skipped and the walk continues with its
/// siblings; an excluded directory is not descended into, so its whole
/// subtree is pruned. Every gathered entry satisfies the filter decision.
pub fn gather_files_for_copying(args: &Arguments) -> (files: Vec<CandidateEntry>)
    ensures
        forall|i: int| 0 <= i < files@.len() ==> args.spec_should_copy(
            files@[i].path@,
            files@[i].is_dir,
        ),
{
    let walker = walk_new(args.source_root_file_path.as_str());
    let walker = walk_follow_links(walker, args.follow_links);
    let mut it = walk_into_iter(walker);
    let mut files: Vec<CandidateEntry> = Vec::new();
    // The walker yields one entry per filesystem object; a walk can hold at
    // most as many as fit in memory, so counting the steps down from the
    // largest count a machine can address gives the loop its measure.
    let mut remaining: usize = usize::MAX;
    loop
        invariant
            forall|i: int| 0 <= i < files@.len() ==> args.spec_should_copy(
                files@[i].path@,
                files@[i].is_dir,
            ),
        decreases remaining,
    {
        if remaining == 0 {
            break ;
        }
        remaining -= 1;
        match walk_next(&mut it) {
            None => {
                break ;
            },
            Some(entry) => {
                match entry {
                    Err(_) => {},
                    Ok((path, is_dir)) => {
                        if args.should_copy(path.as_str(), is_dir) {
                            files.push(CandidateEntry { path, is_dir });
                        } else if is_dir {
                            walk_skip_current_dir(&mut it);
                        }
                    },
                }
            },
        }
    }
    files
}

} // verus!

//! Configuration: the immutable value that drives a scrape. It holds the two
//! root paths, the extension and folder filters, the link-following flag and
//! a verbosity level, and offers the filter decision for a single entry. The
//! raw command-line shapes (`CliArgs`, `OptionalHandling`) and their
//! conversion into `Arguments` live here too.
use crate::filter::{
    normalize_extension, spec_extension, spec_normalized, FilterMode,
    contains_value,
};
use crate::paths::{spec_is_descendant, spec_target_path, PathMappingError};
use crate::text::{spec_segments, spec_split_ws, split_segments, split_whitespace_pieces, str_eq};
use vstd::prelude::*;

verus! {

/// Whether the listed values are to be ignored (excluded) or targeted
/// (included) by a filter.
#[derive(Clone, Copy, PartialEq, Eq, Structural, Debug)]
pub enum TargetMode {
    Ignore,
    Target,
}

/// A parsed optional filter specification: a mode and its bare value tokens.
#[derive(Clone, Debug)]
pub struct OptionalHandling {
    pub target: TargetMode,
    pub values: Vec<String>,
}

/// Parse an option string of the shape `<mode> <value> [<value> ...]`, where
/// the mode token is `Ignore` or `Target` and the tokens are separated by
/// whitespace runs. Fails when fewer than two pieces are present, or when the
/// first piece is not a valid mode.
pub fn parse_special_options(s: &str) -> (r: Result<OptionalHandling, &'static str>)
    ensures
        r is Ok <==> (spec_split_ws(s@).len() >= 2 && (spec_split_ws(s@)[0] == "Ignore"@
            || spec_split_ws(s@)[0] == "Target"@)),
        r matches Ok(h) ==> {
            &&& (h.target is Ignore <==> spec_split_ws(s@)[0] == "Ignore"@)
            &&& h.values.deep_view() == spec_split_ws(s@).skip(1)
        },
        spec_split_ws(s@).len() < 2 ==> (r matches Err(m) && m@ == "Not enough arguments supplied"@),
        spec_split_ws(s@).len() >= 2 && spec_split_ws(s@)[0] != "Ignore"@ && spec_split_ws(s@)[0]
            != "Target"@ ==> (r matches Err(m) && m@ == "Invalid target mode specified"@),
{
    let pieces = split_whitespace_pieces(s);
    if pieces.len() < 2 {
        return Err("Not enough arguments supplied");
    }
    proof {
        assert(pieces.deep_view()[0] == pieces@[0]@);
    }
    let mode: TargetMode;
    if str_eq(pieces[0].as_str(), "Ignore") {
        mode = TargetMode::Ignore;
    } else if str_eq(pieces[0].as_str(), "Target") {
        mode = TargetMode::Target;
    } else {
        return Err("Invalid target mode specified");
    }
    let mut values: Vec<String> = Vec::new();
    let mut i: usize = 1;
    while i < pieces.len()
        invariant
            1 <= i <= pieces.len(),
            values.deep_view() =~= pieces.deep_view().subrange(1, i as int),
        decreases pieces.len() - i,
    {
        let ghost old_dv = values.deep_view();
        values.push(pieces[i].clone());
        proof {
            assert(pieces.deep_view()[i as int] == pieces@[i as int]@);
            assert(values.deep_view() =~= old_dv.push(pieces@[i as int]@));
            assert(values.deep_view() =~= pieces.deep_view().subrange(1, i as int + 1));
        }
        i += 1;
    }
    proof {
        assert(pieces.deep_view().subrange(1, pieces.deep_view().len() as int) =~= pieces
            .deep_view().skip(1));
    }
    Ok(OptionalHandling { target: mode, values })
}

/// Collect values into a duplicate-free set with the same membership.
pub fn as_hash_set(vec: Vec<String>) -> (r: Vec<String>)
    ensures
        forall|v: Seq<char>| r.deep_view().contains(v) <==> vec.deep_view().contains(v),
        forall|i: int, j: int| 0 <= i < j < r.deep_view().len() ==> r.deep_view()[i]
            != r.deep_view()[j],
{
    let mut r: Vec<String> = Vec::new();
    let mut i: usize = 0;
    while i < vec.len()
        invariant
            0 <= i <= vec.len(),
            forall|v: Seq<char>|
                r.deep_view().contains(v) <==> vec.deep_view().subrange(0, i as int).contains(v),
            forall|a: int, b: int| 0 <= a < b < r.deep_view().len() ==> r.deep_view()[a]
                != r.deep_view()[b],
        decreases vec.len() - i,
    {
        let ghost old_dv = r.deep_view();
        let ghost prefix = vec.deep_view().subrange(0, i as int);
        let ghost x = vec.deep_view()[i as int];
        let ghost now = vec.deep_view().subrange(0, i as int + 1);
        proof {
            assert(vec.deep_view()[i as int] == vec@[i as int]@);
            assert(now =~= prefix.push(x));
        }
        let present = contains_value(&r, vec[i].as_str());
        if !present {
            r.push(vec[i].clone());
        }
        proof {
            if !present {
                assert(r.deep_view() =~= old_dv.push(x));
            }
            assert forall|v: Seq<char>| r.deep_view().contains(v) <==> now.contains(v) by {
                if r.deep_view().contains(v) {
                    let w = choose|k: int| 0 <= k < r.deep_view().len() && r.deep_view()[k] == v;
                    if w < old_dv.len() {
                        assert(old_dv[w] == v);
                        assert(old_dv.contains(v));
                        assert(prefix.contains(v));
                        let u = choose|k: int| 0 <= k < prefix.len() && prefix[k] == v;
                        assert(now[u] == v);
                    } else {
                        assert(v == x);
                        assert(now[i as int] == v);
                    }
                    assert(now.contains(v));
                }
                if now.contains(v) {
                    let w = choose|k: int| 0 <= k < now.len() && now[k] == v;
                    if w < i {
                        assert(prefix[w] == v);
                        assert(prefix.contains(v));
                        assert(old_dv.contains(v));
                        let u = choose|k: int| 0 <= k < old_dv.len() && old_dv[k] == v;
                        assert(r.deep_view()[u] == v);
                    } else {
                        assert(v == x);
                        if present {
                            let u = choose|k: int| 0 <= k < old_dv.len() && old_dv[k] == x;
                            assert(r.deep_view()[u] == v);
                        } else {
                            assert(r.deep_view()[old_dv.len() as int] == v);
                        }
                    }
                    assert(r.deep_view().contains(v));
                }
            }
        }
        i += 1;
    }
    proof {
        assert(vec.deep_view().subrange(0, vec.deep_view().len() as int) =~= vec.deep_view());
    }
    r
}

/// The raw configuration as the command line hands it over, before filters
/// are built: optional filter specifications and the two root paths.
pub struct CliArgs {
    pub source_root_file_path: String,
    pub target_root_file_path: String,
    pub file_extensions: Option<OptionalHandling>,
    pub folders: Option<OptionalHandling>,
    pub follow_links: bool,
    pub verbose: u8,
}

/// The finished configuration: immutable, created once at startup, shared
/// read-only by every copy operation.
pub struct Arguments {
    pub source_root_file_path: String,
    pub target_root_file_path: String,
    pub file_extensions: FilterMode,
    pub folders: FilterMode,
    pub follow_links: bool,
    pub verbose: u8,
}

impl CliArgs {
    /// Build the finished configuration: extension tokens are normalized to
    /// carry a leading `.` and deduplicated, folder tokens are deduplicated,
    /// and a missing specification becomes the empty excluding filter, which
    /// includes everything.
    pub fn convert(&self) -> (r: Arguments)
        ensures
            r.source_root_file_path@ == self.source_root_file_path@,
            r.target_root_file_path@ == self.target_root_file_path@,
            r.follow_links == self.follow_links,
            r.verbose == self.verbose,
            self.file_extensions is None ==> (r.file_extensions matches FilterMode::Excluding(v)
                && v.deep_view().len() == 0),
            self.file_extensions matches Some(h) ==> {
                &&& (r.file_extensions is Excluding <==> h.target is Ignore)
                &&& forall|v: Seq<char>|
                    r.file_extensions.spec_set().contains(v) <==> (exists|k: int|
                        0 <= k < h.values.deep_view().len() && spec_normalized(
                            h.values.deep_view()[k],
                        ) == v)
            },
            self.folders is None ==> (r.folders matches FilterMode::Excluding(v)
                && v.deep_view().len() == 0),
            self.folders matches Some(h) ==> {
                &&& (r.folders is Excluding <==> h.target is Ignore)
                &&& forall|v: Seq<char>|
                    r.folders.spec_set().contains(v) <==> h.values.deep_view().contains(v)
            },
    {
        let file_extensions = match &self.file_extensions {
            None => FilterMode::Excluding(Vec::new()),
            Some(inner) => {
                let mut normalized: Vec<String> = Vec::new();
                let mut i: usize = 0;
                while i < inner.values.len()
                    invariant
                        0 <= i <= inner.values.len(),
                        normalized.deep_view().len() == i,
                        forall|k: int| 0 <= k < i ==> normalized.deep_view()[k] == spec_normalized(
                            inner.values.deep_view()[k],
                        ),
                    decreases inner.values.len() - i,
                {
                    let ghost old_dv = normalized.deep_view();
                    let n = normalize_extension(inner.values[i].as_str());
                    normalized.push(n);
                    proof {
                        assert(inner.values.deep_view()[i as int] == inner.values@[i as int]@);
                        assert(normalized.deep_view() =~= old_dv.push(n@));
                    }
                    i += 1;
                }
                let ghost norm_dv = normalized.deep_view();
                let set = as_hash_set(normalized);
                proof {
                    let vals = inner.values.deep_view();
                    assert forall|v: Seq<char>|
                        set.deep_view().contains(v) <==> (exists|k: int|
                            0 <= k < vals.len() && spec_normalized(vals[k]) == v) by {
                        if set.deep_view().contains(v) {
                            assert(norm_dv.contains(v));
                            let w = choose|k: int| 0 <= k < norm_dv.len() && norm_dv[k] == v;
                            assert(spec_normalized(vals[w]) == v);
                        }
                        if exists|k: int| 0 <= k < vals.len() && spec_normalized(vals[k]) == v {
                            let k = choose|k: int|
                                0 <= k < vals.len() && spec_normalized(vals[k]) == v;
                            assert(norm_dv[k] == v);
                            assert(norm_dv.contains(v));
                        }
                    }
                }
                match inner.target {
                    TargetMode::Ignore => FilterMode::Excluding(set),
                    TargetMode::Target => FilterMode::Including(set),
                }
            },
        };
        let folders = match &self.folders {
            None => FilterMode::Excluding(Vec::new()),
            Some(inner) => {
                let mut copied: Vec<String> = Vec::new();
                let mut i: usize = 0;
                while i < inner.values.len()
                    invariant
                        0 <= i <= inner.values.len(),
                        copied.deep_view() =~= inner.values.deep_view().subrange(0, i as int),
                    decreases inner.values.len() - i,
                {
                    let ghost old_dv = copied.deep_view();
                    copied.push(inner.values[i].clone());
                    proof {
                        assert(inner.values.deep_view()[i as int] == inner.values@[i as int]@);
                        assert(copied.deep_view() =~= old_dv.push(inner.values.deep_view()[
                        i as int]));
                        assert(copied.deep_view() =~= inner.values.deep_view().subrange(
                            0,
                            i as int + 1,
                        ));
                    }
                    i += 1;
                }
                proof {
                    assert(inner.values.deep_view().subrange(
                        0,
                        inner.values.deep_view().len() as int,
                    ) =~= inner.values.deep_view());
                }
                let set = as_hash_set(copied);
                match inner.target {
                    TargetMode::Ignore => FilterMode::Excluding(set),
                    TargetMode::Target => FilterMode::Including(set),
                }
            },
        };
        Arguments {
            source_root_file_path: self.source_root_file_path.clone(),
            target_root_file_path: self.target_root_file_path.clone(),
            file_extensions,
            folders,
            follow_links: self.follow_links,
            verbose: self.verbose,
        }
    }
}

/// The file name of a path: its last nonempty segment; none when the path
/// has no nonempty segment or ends in a `.` or `..` component.
pub open spec fn spec_file_name(path: Seq<char>) -> Option<Seq<char>> {
    let segs = spec_segments(path);
    if segs.len() == 0 {
        None
    } else if segs.last() == seq!['.'] || segs.last() == seq!['.', '.'] {
        None
    } else {
        Some(segs.last())
    }
}

impl Arguments {
    /// The filter decision for one entry: a directory is judged by the
    /// folder filter over its path segments; a file by the extension filter
    /// over the extension of its file name; an entry whose file name cannot
    /// be determined is excluded.
    pub open spec fn spec_should_copy(&self, path: Seq<char>, is_dir: bool) -> bool {
        if is_dir {
            self.folders.spec_includes_folder(path)
        } else {
            match spec_file_name(path) {
                Some(name) => self.file_extensions.spec_includes_value(spec_extension(name)),
                None => false,
            }
        }
    }

    /// Decide whether the entry at `path` should be copied.
    pub fn should_copy(&self, path: &str, is_dir: bool) -> (r: bool)
        ensures
            r == self.spec_should_copy(path@, is_dir),
    {
        if is_dir {
            self.folders.should_copy_folder(path)
        } else {
            let segs = split_segments(path);
            if segs.len() == 0 {
                return false;
            }
            let name = &segs[segs.len() - 1];
            proof {
                assert(segs.deep_view()[segs.deep_view().len() - 1] == segs@[segs@.len() - 1]@);
                reveal_strlit(".");
                reveal_strlit("..");
                assert("."@ =~= seq!['.']);
                assert(".."@ =~= seq!['.', '.']);
            }
            if str_eq(name.as_str(), ".") || str_eq(name.as_str(), "..") {
                return false;
            }
            self.file_extensions.should_copy_file(name.as_str())
        }
    }

    /// Map a source path to its target location under this configuration's
    /// roots.
    pub fn transform_source_to_target_path(&self, source_path: &str) -> (r: Result<
        String,
        PathMappingError,
    >)
        ensures
            r is Ok <==> spec_is_descendant(source_path@, self.source_root_file_path@),
            r matches Ok(t) ==> t@ == spec_target_path(
                self.source_root_file_path@,
                self.target_root_file_path@,
                source_path@,
            ),
    {
        crate::paths::transform_source_to_target_path(
            self.source_root_file_path.as_str(),
            self.target_root_file_path.as_str(),
            source_path,
        )
    }
}

/// With both filters left empty and excluding, every directory passes, and
/// every file whose file name can be determined passes: nothing is filtered
/// out.
pub proof fn lemma_empty_filters_include_everything(args: &Arguments, path: Seq<char>, is_dir: bool)
    requires
        args.file_extensions matches FilterMode::Excluding(v) && v.deep_view().len() == 0,
        args.folders matches FilterMode::Excluding(w) && w.deep_view().len() == 0,
    ensures
        is_dir ==> args.spec_should_copy(path, is_dir),
        !is_dir && spec_file_name(path) is Some ==> args.spec_should_copy(path, is_dir),
{
}

} // verus!

//! The path mapper: rebase a source path onto the target root. The path of
//! the source entry relative to the source root is computed segment by
//! segment and joined onto the target root; a source path that is not a
//! descendant of the source root is a mapping error for that single item.
use crate::text::{is_sep, spec_segments, split_segments, str_eq};
use vstd::prelude::*;

verus! {

/// The source path was not rooted under the configured source root: a
/// traversal or configuration inconsistency, fatal for the single item only.
#[derive(Debug)]
pub struct PathMappingError {}

/// A path is absolute when it starts with the separator.
pub open spec fn spec_is_absolute(s: Seq<char>) -> bool {
    s.len() > 0 && is_sep(s[0])
}

/// `path` lies under `root`: both are absolute or both relative, and the
/// segments of `root` are a prefix of the segments of `path`.
pub open spec fn spec_is_descendant(path: Seq<char>, root: Seq<char>) -> bool {
    spec_is_absolute(path) == spec_is_absolute(root) && spec_segments(root).is_prefix_of(
        spec_segments(path),
    )
}

/// Join the given segments onto a root, one separator before each.
pub open spec fn spec_rebase(root: Seq<char>, rel: Seq<Seq<char>>) -> Seq<char>
    decreases rel.len(),
{
    if rel.len() == 0 {
        root
    } else {
        spec_rebase(root + seq!['/'] + rel[0], rel.skip(1))
    }
}

/// The target path of a mapped source path: the target root, followed by the
/// segments of the source path that remain after its source-root prefix.
pub open spec fn spec_target_path(
    source_root: Seq<char>,
    target_root: Seq<char>,
    source_path: Seq<char>,
) -> Seq<char> {
    spec_rebase(
        target_root,
        spec_segments(source_path).skip(spec_segments(source_root).len() as int),
    )
}

/// Joining nonempty, separator-free components onto a root appends exactly
/// those components to the root's segments.
proof fn lemma_rebase_structure(root: Seq<char>, rel: Seq<Seq<char>>)
    requires
        forall|i: int| 0 <= i < rel.len() ==> rel[i].len() > 0,
        forall|i: int, k: int|
            0 <= i < rel.len() && 0 <= k < rel[i].len() ==> !crate::text::is_sep(rel[i][k]),
    ensures
        spec_segments(spec_rebase(root, rel)) =~= spec_segments(root) + rel,
    decreases rel.len(),
{
    if rel.len() == 0 {
        assert(spec_segments(root) + rel =~= spec_segments(root));
    } else {
        let step = root + seq!['/'] + rel[0];
        crate::text::lemma_segments_append_segment(root, rel[0]);
        assert forall|i: int, k: int|
            0 <= i < rel.skip(1).len() && 0 <= k < rel.skip(1)[i].len() implies !crate::text::is_sep(
            rel.skip(1)[i][k],
        ) by {
            assert(rel.skip(1)[i] == rel[i + 1]);
        }
        assert forall|i: int| 0 <= i < rel.skip(1).len() implies rel.skip(1)[i].len() > 0 by {
            assert(rel.skip(1)[i] == rel[i + 1]);
        }
        lemma_rebase_structure(step, rel.skip(1));
        assert(spec_segments(spec_rebase(root, rel)) =~= spec_segments(step) + rel.skip(1));
        assert(spec_segments(root).push(rel[0]) + rel.skip(1) =~= spec_segments(root) + rel);
    }
}

/// The mapping round trip: for a source path under the source root, the
/// mapped target path consists, segment for segment, of the target root
/// followed by the source path's remainder relative to the source root. So
/// stripping the target root from the mapped path recovers exactly the
/// relative remainder that was mapped.
pub proof fn lemma_mapping_round_trip(
    source_root: Seq<char>,
    target_root: Seq<char>,
    source_path: Seq<char>,
)
    requires
        spec_is_descendant(source_path, source_root),
    ensures
        spec_segments(spec_target_path(source_root, target_root, source_path)) =~= spec_segments(
            target_root,
        ) + spec_segments(source_path).skip(spec_segments(source_root).len() as int),
{
    let rel = spec_segments(source_path).skip(spec_segments(source_root).len() as int);
    crate::text::lemma_segments_nonempty(source_path);
    crate::text::lemma_segments_sep_free(source_path);
    let n = spec_segments(source_root).len() as int;
    assert forall|i: int| 0 <= i < rel.len() implies rel[i].len() > 0 by {
        assert(rel[i] == spec_segments(source_path)[i + n]);
    }
    assert forall|i: int, k: int|
        0 <= i < rel.len() && 0 <= k < rel[i].len() implies !crate::text::is_sep(rel[i][k]) by {
        assert(rel[i] == spec_segments(source_path)[i + n]);
    }
    lemma_rebase_structure(target_root, rel);
}

/// Whether a path starts with the separator.
pub fn is_absolute(s: &str) -> (r: bool)
    ensures
        r == spec_is_absolute(s@),
{
    s.unicode_len() > 0 && s.get_char(0) == '/'
}

/// Map a source path to its target location by replacing its source-root
/// prefix with the target root, preserving the remaining segments. Fails
/// exactly when the source path is not a descendant of the source root.
pub fn transform_source_to_target_path(
    source_root_file_path: &str,
    target_root_file_path: &str,
    source_path: &str,
) -> (r: Result<String, PathMappingError>)
    ensures
        r is Ok <==> spec_is_descendant(source_path@, source_root_file_path@),
        r matches Ok(t) ==> t@ == spec_target_path(
            source_root_file_path@,
            target_root_file_path@,
            source_path@,
        ),
{
    if is_absolute(source_path) != is_absolute(source_root_file_path) {
        return Err(PathMappingError {});
    }
    let root_segs = split_segments(source_root_file_path);
    let path_segs = split_segments(source_path);
    if root_segs.len() > path_segs.len() {
        return Err(PathMappingError {});
    }
    let mut i: usize = 0;
    while i < root_segs.len()
        invariant
            root_segs.deep_view() == spec_segments(source_root_file_path@),
            path_segs.deep_view() == spec_segments(source_path@),
            root_segs.len() <= path_segs.len(),
            0 <= i <= root_segs.len(),
            forall|k: int| 0 <= k < i ==> root_segs.deep_view()[k] == path_segs.deep_view()[k],
        decreases root_segs.len() - i,
    {
        proof {
            assert(root_segs.deep_view()[i as int] == root_segs@[i as int]@);
            assert(path_segs.deep_view()[i as int] == path_segs@[i as int]@);
        }
        if !str_eq(root_segs[i].as_str(), path_segs[i].as_str()) {
            proof {
                let root_dv = spec_segments(source_root_file_path@);
                let path_dv = spec_segments(source_path@);
                assert(root_dv[i as int] != path_dv[i as int]);
                if root_dv.is_prefix_of(path_dv) {
                    let sub = path_dv.subrange(0, root_dv.len() as int);
                    assert(root_dv == sub);
                    assert(sub[i as int] == path_dv[i as int]);
                }
            }
            return Err(PathMappingError {});
        }
        i += 1;
    }
    proof {
        assert(spec_segments(source_root_file_path@) =~= spec_segments(
            source_path@,
        ).subrange(0, spec_segments(source_root_file_path@).len() as int));
    }
    let mut result = target_root_file_path.to_owned();
    let mut j: usize = root_segs.len();
    let ghost root_len = root_segs.len() as int;
    while j < path_segs.len()
        invariant
            path_segs.deep_view() == spec_segments(source_path@),
            root_len <= j <= path_segs.len(),
            spec_rebase(result@, spec_segments(source_path@).skip(j as int)) == spec_rebase(
                target_root_file_path@,
                spec_segments(source_path@).skip(root_len),
            ),
        decreases path_segs.len() - j,
    {
        let ghost before = result@;
        let ghost path_dv = spec_segments(source_path@);
        result.append("/");
        result.append(path_segs[j].as_str());
        proof {
            reveal_strlit("/");
            assert(path_segs.deep_view()[j as int] == path_segs@[j as int]@);
            assert(result@ =~= before + seq!['/'] + path_dv[j as int]);
            assert(path_dv.skip(j as int)[0] == path_dv[j as int]);
            assert(path_dv.skip(j as int).skip(1) =~= path_dv.skip(j as int + 1));
        }
        j += 1;
    }
    proof {
        let path_dv = spec_segments(source_path@);
        assert(path_dv.skip(path_dv.len() as int) =~= Seq::<Seq<char>>::empty());
    }
    Ok(result)
}

} // verus!

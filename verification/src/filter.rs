//! The filter model: given a filesystem entry, decide whether it should be
//! copied. A file is judged by its extension against the extension filter; a
//! directory is judged by its path segments against the folder filter. Each
//! filter either excludes the values in its set (everything else is included)
//! or includes exactly the values in its set.
use crate::text::{spec_segments, split_segments, str_eq};
use vstd::prelude::*;

verus! {

/// An extension value is stored with a single leading `.`: a bare token such
/// as `jpg` becomes `.jpg`, while a token already starting with `.` is kept.
pub open spec fn spec_normalized(s: Seq<char>) -> Seq<char> {
    if s.len() > 0 && s[0] == '.' {
        s
    } else {
        seq!['.'] + s
    }
}

/// Normalize an extension token to carry a single leading `.`.
pub fn normalize_extension(s: &str) -> (r: String)
    ensures
        r@ == spec_normalized(s@),
{
    let n = s.unicode_len();
    if n > 0 && s.get_char(0) == '.' {
        s.to_owned()
    } else {
        let mut r = String::from_str(".");
        proof {
            reveal_strlit(".");
            assert(r@ =~= seq!['.']);
        }
        r.append(s);
        r
    }
}

/// Normalization is idempotent: a value that already carries its leading `.`
/// is left unchanged, so normalizing twice equals normalizing once.
pub proof fn lemma_normalized_idempotent(s: Seq<char>)
    ensures
        spec_normalized(spec_normalized(s)) == spec_normalized(s),
{
    if !(s.len() > 0 && s[0] == '.') {
        assert((seq!['.'] + s)[0] == '.');
    }
}

/// Index of the last `.` in `s`, or `-1` if there is none.
pub open spec fn last_dot_index(s: Seq<char>) -> int
    decreases s.len(),
{
    if s.len() == 0 {
        -1
    } else if s[s.len() - 1] == '.' {
        s.len() - 1
    } else {
        last_dot_index(s.drop_last())
    }
}

/// The extension of a file name: the characters after the last `.`,
/// re-prefixed with a single leading `.`; empty if the name has no `.`.
pub open spec fn spec_extension(s: Seq<char>) -> Seq<char> {
    if last_dot_index(s) >= 0 {
        seq!['.'] + s.subrange(last_dot_index(s) + 1, s.len() as int)
    } else {
        Seq::empty()
    }
}

/// Extending a name by one character moves the last dot to the new position
/// exactly when the new character is a dot.
pub proof fn lemma_last_dot_push(t: Seq<char>, c: char)
    ensures
        last_dot_index(t.push(c)) == if c == '.' {
            t.len() as int
        } else {
            last_dot_index(t)
        },
{
    assert(t.push(c).len() == t.len() + 1);
    assert(t.push(c)[t.len() as int] == c);
    assert(t.push(c).drop_last() =~= t);
}

/// A name without any `.` has the empty extension.
pub proof fn lemma_no_dot_no_extension(s: Seq<char>)
    requires
        forall|k: int| 0 <= k < s.len() ==> s[k] != '.',
    ensures
        spec_extension(s) == Seq::<char>::empty(),
    decreases s.len(),
{
    if s.len() > 0 {
        assert forall|k: int| 0 <= k < s.drop_last().len() implies s.drop_last()[k] != '.' by {
            assert(s.drop_last()[k] == s[k]);
        }
        lemma_no_dot_no_extension(s.drop_last());
    }
}

/// The extension of a file name, computed by scanning for its last `.`.
pub fn file_extension(file_name: &str) -> (r: String)
    ensures
        r@ == spec_extension(file_name@),
{
    let n = file_name.unicode_len();
    let mut i: usize = 0;
    let mut last: Option<usize> = None;
    while i < n
        invariant
            n == file_name@.len(),
            0 <= i <= n,
            last matches Some(k) ==> k < i,
            last_dot_index(file_name@.take(i as int)) == match last {
                Some(k) => k as int,
                None => -1,
            },
        decreases n - i,
    {
        let c = file_name.get_char(i);
        proof {
            assert(file_name@.take(i as int + 1) =~= file_name@.take(i as int).push(
                file_name@[i as int],
            ));
            lemma_last_dot_push(file_name@.take(i as int), file_name@[i as int]);
        }
        if c == '.' {
            last = Some(i);
        }
        i += 1;
    }
    proof {
        assert(file_name@.take(n as int) =~= file_name@);
    }
    match last {
        None => String::new(),
        Some(k) => {
            let mut r = String::from_str(".");
            proof {
                reveal_strlit(".");
                assert(r@ =~= seq!['.']);
            }
            let tail = file_name.substring_char(k + 1, n);
            r.append(tail);
            proof {
                assert(tail@ =~= file_name@.subrange(k + 1, n as int));
            }
            r
        },
    }
}

/// A filter either excludes the values in its set, including everything else,
/// or includes exactly the values in its set. An empty `Excluding` set
/// includes everything; an empty `Including` set includes nothing.
pub enum FilterMode {
    Excluding(Vec<String>),
    Including(Vec<String>),
}

impl FilterMode {
    /// The stored set of values, as a sequence of character sequences.
    pub open spec fn spec_set(&self) -> Seq<Seq<char>> {
        match self {
            FilterMode::Excluding(v) => v.deep_view(),
            FilterMode::Including(v) => v.deep_view(),
        }
    }

    /// Whether a single value passes this filter.
    pub open spec fn spec_includes_value(&self, value: Seq<char>) -> bool {
        match self {
            FilterMode::Excluding(v) => !v.deep_view().contains(value),
            FilterMode::Including(v) => v.deep_view().contains(value),
        }
    }

    /// Whether a directory path passes this filter: an excluding filter
    /// admits it iff none of its segments is in the set, an including filter
    /// iff at least one segment is.
    pub open spec fn spec_includes_folder(&self, path: Seq<char>) -> bool {
        match self {
            FilterMode::Excluding(v) => forall|i: int|
                0 <= i < spec_segments(path).len() ==> !v.deep_view().contains(
                    spec_segments(path)[i],
                ),
            FilterMode::Including(v) => exists|i: int|
                0 <= i < spec_segments(path).len() && v.deep_view().contains(
                    spec_segments(path)[i],
                ),
        }
    }

    /// Whether a file, named by its file name, should be copied: its
    /// extension is held against the filter set.
    pub fn should_copy_file(&self, file_name: &str) -> (r: bool)
        ensures
            r == self.spec_includes_value(spec_extension(file_name@)),
    {
        let ext = file_extension(file_name);
        match self {
            FilterMode::Excluding(set) => !contains_value(set, ext.as_str()),
            FilterMode::Including(set) => contains_value(set, ext.as_str()),
        }
    }

    /// Whether a directory, named by its path, should be copied.
    pub fn should_copy_folder(&self, path: &str) -> (r: bool)
        ensures
            r == self.spec_includes_folder(path@),
    {
        let set = match self {
            FilterMode::Excluding(v) => v,
            FilterMode::Including(v) => v,
        };
        let segs = split_segments(path);
        let mut found = false;
        let mut i: usize = 0;
        while i < segs.len()
            invariant
                segs.deep_view() == spec_segments(path@),
                set.deep_view() == self.spec_set(),
                0 <= i <= segs.len(),
                found == exists|k: int|
                    0 <= k < i && set.deep_view().contains(segs.deep_view()[k]),
            decreases segs.len() - i,
        {
            proof {
                assert(segs.deep_view()[i as int] == segs@[i as int]@);
            }
            if contains_value(set, segs[i].as_str()) {
                found = true;
            }
            i += 1;
        }
        match self {
            FilterMode::Excluding(_) => !found,
            FilterMode::Including(_) => found,
        }
    }
}

/// Whether a set of stored values contains the given value.
pub fn contains_value(set: &Vec<String>, value: &str) -> (r: bool)
    ensures
        r == set.deep_view().contains(value@),
{
    let mut i: usize = 0;
    while i < set.len()
        invariant
            0 <= i <= set.len(),
            forall|k: int| 0 <= k < i ==> set.deep_view()[k] != value@,
        decreases set.len() - i,
    {
        proof {
            assert(set.deep_view()[i as int] == set@[i as int]@);
        }
        if str_eq(set[i].as_str(), value) {
            return true;
        }
        i += 1;
    }
    false
}

/// Whether any nonempty separator-delimited segment of `path` equals
/// `folder`, compared case-sensitively. Empty segments are never compared,
/// so an empty folder name is never found.
pub fn path_contains_folder(path: &str, folder: &str) -> (r: bool)
    ensures
        r == spec_segments(path@).contains(folder@),
        folder@.len() == 0 ==> !r,
{
    let segs = split_segments(path);
    let mut i: usize = 0;
    while i < segs.len()
        invariant
            segs.deep_view() == spec_segments(path@),
            0 <= i <= segs.len(),
            forall|k: int| 0 <= k < i ==> segs.deep_view()[k] != folder@,
        decreases segs.len() - i,
    {
        proof {
            assert(segs.deep_view()[i as int] == segs@[i as int]@);
            crate::text::lemma_segments_nonempty(path@);
        }
        if str_eq(segs[i].as_str(), folder) {
            return true;
        }
        i += 1;
    }
    false
}

/// The extension filter law: an excluding filter admits a file name iff its
/// extension is not in the set; an including filter iff it is.
pub proof fn lemma_extension_filter_law(m: &FilterMode, name: Seq<char>)
    ensures
        m matches FilterMode::Excluding(v) ==> (m.spec_includes_value(spec_extension(name))
            <==> !v.deep_view().contains(spec_extension(name))),
        m matches FilterMode::Including(v) ==> (m.spec_includes_value(spec_extension(name))
            <==> v.deep_view().contains(spec_extension(name))),
{
}

/// The folder filter law: an excluding filter admits a directory path iff no
/// segment of the path is in the set; an including filter iff some segment
/// is.
pub proof fn lemma_folder_filter_law(m: &FilterMode, path: Seq<char>)
    ensures
        m matches FilterMode::Excluding(v) ==> (m.spec_includes_folder(path) <==> forall|i: int|
            0 <= i < spec_segments(path).len() ==> !v.deep_view().contains(spec_segments(path)[i])),
        m matches FilterMode::Including(v) ==> (m.spec_includes_folder(path) <==> exists|i: int|
            0 <= i < spec_segments(path).len() && v.deep_view().contains(spec_segments(path)[i])),
{
}

/// A file name without a `.` has the empty extension, so it passes an
/// excluding filter iff the empty string is absent from the set, and passes
/// an including filter only if the empty string is explicitly listed.
pub proof fn lemma_no_extension_matching(m: &FilterMode, name: Seq<char>)
    requires
        forall|k: int| 0 <= k < name.len() ==> name[k] != '.',
    ensures
        spec_extension(name) == Seq::<char>::empty(),
        m matches FilterMode::Excluding(v) ==> (m.spec_includes_value(spec_extension(name))
            <==> !v.deep_view().contains(Seq::<char>::empty())),
        m matches FilterMode::Including(v) ==> (m.spec_includes_value(spec_extension(name))
            <==> v.deep_view().contains(Seq::<char>::empty())),
{
    lemma_no_dot_no_extension(name);
}

} // verus!

//! Character-level helpers shared by the filter model, the path mapper and
//! the option parser: string equality, splitting a path into its separator
//! delimited segments, and splitting an option string on whitespace runs.
use vstd::prelude::*;

verus! {

/// The path separator this library splits on.
pub open spec fn is_sep(c: char) -> bool {
    c == '/'
}

/// An ASCII whitespace character, as the option parser understands it.
pub open spec fn is_space(c: char) -> bool {
    c == ' ' || c == '\t' || c == '\n' || c == '\r' || c == '\u{B}' || c == '\u{C}'
}

/// Character-for-character equality of two string slices.
pub fn str_eq(a: &str, b: &str) -> (r: bool)
    ensures
        r == (a@ == b@),
{
    let na = a.unicode_len();
    let nb = b.unicode_len();
    if na != nb {
        return false;
    }
    let mut i: usize = 0;
    while i < na
        invariant
            na == a@.len(),
            na == b@.len(),
            0 <= i <= na,
            forall|k: int| 0 <= k < i ==> a@[k] == b@[k],
        decreases na - i,
    {
        if a.get_char(i) != b.get_char(i) {
            return false;
        }
        i += 1;
    }
    proof {
        assert(a@ =~= b@);
    }
    true
}

/// Index of the first separator in `s`, or `s.len()` if there is none.
pub open spec fn first_sep(s: Seq<char>) -> int
    decreases s.len(),
{
    if s.len() == 0 {
        0
    } else if is_sep(s[0]) {
        0
    } else {
        1 + first_sep(s.skip(1))
    }
}

pub proof fn lemma_first_sep(s: Seq<char>)
    ensures
        0 <= first_sep(s) <= s.len(),
        forall|k: int| 0 <= k < first_sep(s) ==> !is_sep(s[k]),
        first_sep(s) < s.len() ==> is_sep(s[first_sep(s)]),
    decreases s.len(),
{
    if s.len() == 0 {
    } else if is_sep(s[0]) {
    } else {
        lemma_first_sep(s.skip(1));
        assert forall|k: int| 0 <= k < first_sep(s) implies !is_sep(s[k]) by {
            if k > 0 {
                assert(s.skip(1)[k - 1] == s[k]);
            }
        }
        if first_sep(s) < s.len() {
            assert(s.skip(1)[first_sep(s) - 1] == s[first_sep(s)]);
        }
    }
}

/// If the first `m` characters of `s` are not separators and the character at
/// `m` (if any) is one, then `m` is the first separator index.
pub proof fn lemma_first_sep_is(s: Seq<char>, m: int)
    requires
        0 <= m <= s.len(),
        forall|k: int| 0 <= k < m ==> !is_sep(s[k]),
        m < s.len() ==> is_sep(s[m]),
    ensures
        first_sep(s) == m,
    decreases m,
{
    if m == 0 {
    } else {
        assert(!is_sep(s[0]));
        assert forall|k: int| 0 <= k < m - 1 implies !is_sep(s.skip(1)[k]) by {
            assert(s.skip(1)[k] == s[k + 1]);
        }
        if m - 1 < s.skip(1).len() {
            assert(s.skip(1)[m - 1] == s[m]);
        }
        lemma_first_sep_is(s.skip(1), m - 1);
    }
}

/// The nonempty separator-delimited components of a path, in order.
pub open spec fn spec_segments(s: Seq<char>) -> Seq<Seq<char>>
    decreases s.len(),
    via spec_segments_dec
{
    if s.len() == 0 {
        Seq::empty()
    } else if is_sep(s[0]) {
        spec_segments(s.skip(1))
    } else {
        seq![s.take(first_sep(s))] + spec_segments(s.skip(first_sep(s)))
    }
}

#[via_fn]
proof fn spec_segments_dec(s: Seq<char>) {
    lemma_first_sep(s);
}

/// Every segment of a path is nonempty.
pub proof fn lemma_segments_nonempty(s: Seq<char>)
    ensures
        forall|i: int| 0 <= i < spec_segments(s).len() ==> spec_segments(s)[i].len() > 0,
    decreases s.len(),
{
    if s.len() == 0 {
    } else if is_sep(s[0]) {
        lemma_segments_nonempty(s.skip(1));
        assert(spec_segments(s) == spec_segments(s.skip(1)));
    } else {
        lemma_first_sep(s);
        lemma_segments_nonempty(s.skip(first_sep(s)));
        assert(s.take(first_sep(s)).len() == first_sep(s));
        assert(first_sep(s) >= 1);
        assert forall|i: int| 0 <= i < spec_segments(s).len() implies spec_segments(s)[i].len()
            > 0 by {
            if i == 0 {
                assert(spec_segments(s)[0] == s.take(first_sep(s)));
            } else {
                assert(spec_segments(s)[i] == spec_segments(s.skip(first_sep(s)))[i - 1]);
            }
        }
    }
}

/// No segment of a path contains a separator.
pub proof fn lemma_segments_sep_free(s: Seq<char>)
    ensures
        forall|i: int, k: int|
            0 <= i < spec_segments(s).len() && 0 <= k < spec_segments(s)[i].len()
                ==> !is_sep(spec_segments(s)[i][k]),
    decreases s.len(),
{
    if s.len() == 0 {
    } else if is_sep(s[0]) {
        lemma_segments_sep_free(s.skip(1));
        assert(spec_segments(s) == spec_segments(s.skip(1)));
    } else {
        lemma_first_sep(s);
        lemma_segments_sep_free(s.skip(first_sep(s)));
        assert forall|i: int, k: int|
            0 <= i < spec_segments(s).len() && 0 <= k < spec_segments(s)[i].len() implies !is_sep(
            spec_segments(s)[i][k],
        ) by {
            if i == 0 {
                assert(spec_segments(s)[0] == s.take(first_sep(s)));
                assert(s.take(first_sep(s))[k] == s[k]);
            } else {
                assert(spec_segments(s)[i] == spec_segments(s.skip(first_sep(s)))[i - 1]);
            }
        }
    }
}

/// Appending a separator and one separator-free, nonempty component to a
/// path appends exactly that one segment.
pub proof fn lemma_segments_append_segment(s: Seq<char>, w: Seq<char>)
    requires
        w.len() > 0,
        forall|k: int| 0 <= k < w.len() ==> !is_sep(w[k]),
    ensures
        spec_segments(s + seq!['/'] + w) =~= spec_segments(s).push(w),
    decreases s.len(),
{
    let c = s + seq!['/'] + w;
    lemma_first_sep(s);
    if s.len() == 0 {
        assert(is_sep(c[0]));
        assert(c.skip(1) =~= w);
        lemma_first_sep_is(w, w.len() as int);
        assert(spec_segments(w) =~= seq![w.take(w.len() as int)] + spec_segments(
            w.skip(w.len() as int),
        ));
        assert(w.take(w.len() as int) =~= w);
        assert(w.skip(w.len() as int) =~= Seq::<char>::empty());
        assert(spec_segments(c) =~= seq![w]);
        assert(spec_segments(s).push(w) =~= seq![w]);
    } else if is_sep(s[0]) {
        assert(is_sep(c[0]));
        assert(c.skip(1) =~= s.skip(1) + seq!['/'] + w);
        lemma_segments_append_segment(s.skip(1), w);
        assert(spec_segments(c) == spec_segments(c.skip(1)));
        assert(spec_segments(s) == spec_segments(s.skip(1)));
    } else {
        let f = first_sep(s);
        assert(!is_sep(c[0]));
        if f < s.len() {
            assert forall|k: int| 0 <= k < f implies !is_sep(c[k]) by {
                assert(c[k] == s[k]);
            }
            assert(c[f] == s[f]);
            lemma_first_sep_is(c, f);
            assert(c.take(f) =~= s.take(f));
            assert(c.skip(f) =~= s.skip(f) + seq!['/'] + w);
            lemma_segments_append_segment(s.skip(f), w);
            assert(spec_segments(c) =~= seq![s.take(f)] + spec_segments(s.skip(f)).push(w));
            assert(spec_segments(s) =~= seq![s.take(f)] + spec_segments(s.skip(f)));
            assert(seq![s.take(f)] + spec_segments(s.skip(f)).push(w) =~= (seq![s.take(f)]
                + spec_segments(s.skip(f))).push(w));
        } else {
            assert forall|k: int| 0 <= k < s.len() implies !is_sep(c[k]) by {
                assert(c[k] == s[k]);
            }
            assert(c[s.len() as int] == '/');
            lemma_first_sep_is(c, s.len() as int);
            assert(c.take(s.len() as int) =~= s);
            let tail = c.skip(s.len() as int);
            assert(tail =~= seq!['/'] + w);
            assert(is_sep(tail[0]));
            assert(tail.skip(1) =~= w);
            assert(spec_segments(tail) == spec_segments(w));
            lemma_first_sep_is(w, w.len() as int);
            assert(spec_segments(w) =~= seq![w.take(w.len() as int)] + spec_segments(
                w.skip(w.len() as int),
            ));
            assert(w.take(w.len() as int) =~= w);
            assert(w.skip(w.len() as int) =~= Seq::<char>::empty());
            assert(spec_segments(w) =~= seq![w]);
            assert(spec_segments(c) =~= seq![c.take(first_sep(c))] + spec_segments(
                c.skip(first_sep(c)),
            ));
            assert(spec_segments(c) =~= seq![s] + seq![w]);
            assert(s.take(f) =~= s);
            assert(s.skip(f) =~= Seq::<char>::empty());
            assert(spec_segments(s) =~= seq![s]);
        }
    }
}

/// Splitting a path into its nonempty separator-delimited segments.
pub fn split_segments(path: &str) -> (segs: Vec<String>)
    ensures
        segs.deep_view() == spec_segments(path@),
{
    let n = path.unicode_len();
    let mut segs: Vec<String> = Vec::new();
    let mut i: usize = 0;
    proof {
        assert(segs.deep_view() =~= Seq::<Seq<char>>::empty());
        assert(path@.skip(0) =~= path@);
        assert(Seq::<Seq<char>>::empty() + spec_segments(path@) =~= spec_segments(path@));
    }
    while i < n
        invariant
            n == path@.len(),
            0 <= i <= n,
            segs.deep_view() + spec_segments(path@.skip(i as int)) == spec_segments(path@),
        decreases n - i,
    {
        if path.get_char(i) == '/' {
            proof {
                assert(path@.skip(i as int)[0] == path@[i as int]);
                assert(path@.skip(i as int).skip(1) =~= path@.skip(i as int + 1));
            }
            i += 1;
        } else {
            let mut j: usize = i + 1;
            while j < n && path.get_char(j) != '/'
                invariant
                    n == path@.len(),
                    i < j <= n,
                    forall|k: int| i <= k < j ==> !is_sep(path@[k]),
                decreases n - j,
            {
                j += 1;
            }
            let ghost rem = path@.skip(i as int);
            proof {
                assert forall|k: int| 0 <= k < j - i implies !is_sep(rem[k]) by {
                    assert(rem[k] == path@[i + k]);
                }
                if j < n {
                    assert(rem[j - i] == path@[j as int]);
                }
                lemma_first_sep_is(rem, j - i);
                assert(rem.take(j - i) =~= path@.subrange(i as int, j as int));
                assert(rem.skip(j - i) =~= path@.skip(j as int));
            }
            let seg = path.substring_char(i, j).to_owned();
            let ghost old_dv = segs.deep_view();
            segs.push(seg);
            proof {
                assert(segs.deep_view() =~= old_dv.push(seg@));
                assert(old_dv.push(seg@) + spec_segments(path@.skip(j as int)) =~= old_dv + (
                seq![seg@] + spec_segments(path@.skip(j as int))));
            }
            i = j;
        }
    }
    proof {
        assert(path@.skip(n as int) =~= Seq::<char>::empty());
        assert(segs.deep_view() + Seq::<Seq<char>>::empty() =~= segs.deep_view());
    }
    segs
}

/// Index of the first whitespace character in `s`, or `s.len()` if none.
pub open spec fn first_space(s: Seq<char>) -> int
    decreases s.len(),
{
    if s.len() == 0 {
        0
    } else if is_space(s[0]) {
        0
    } else {
        1 + first_space(s.skip(1))
    }
}

/// Index of the first non-whitespace character in `s`, or `s.len()` if none.
pub open spec fn first_nonspace(s: Seq<char>) -> int
    decreases s.len(),
{
    if s.len() == 0 {
        0
    } else if !is_space(s[0]) {
        0
    } else {
        1 + first_nonspace(s.skip(1))
    }
}

pub proof fn lemma_first_space(s: Seq<char>)
    ensures
        0 <= first_space(s) <= s.len(),
        forall|k: int| 0 <= k < first_space(s) ==> !is_space(s[k]),
        first_space(s) < s.len() ==> is_space(s[first_space(s)]),
    decreases s.len(),
{
    if s.len() == 0 {
    } else if is_space(s[0]) {
    } else {
        lemma_first_space(s.skip(1));
        assert forall|k: int| 0 <= k < first_space(s) implies !is_space(s[k]) by {
            if k > 0 {
                assert(s.skip(1)[k - 1] == s[k]);
            }
        }
        if first_space(s) < s.len() {
            assert(s.skip(1)[first_space(s) - 1] == s[first_space(s)]);
        }
    }
}

pub proof fn lemma_first_nonspace(s: Seq<char>)
    ensures
        0 <= first_nonspace(s) <= s.len(),
        forall|k: int| 0 <= k < first_nonspace(s) ==> is_space(s[k]),
        first_nonspace(s) < s.len() ==> !is_space(s[first_nonspace(s)]),
    decreases s.len(),
{
    if s.len() == 0 {
    } else if !is_space(s[0]) {
    } else {
        lemma_first_nonspace(s.skip(1));
        assert forall|k: int| 0 <= k < first_nonspace(s) implies is_space(s[k]) by {
            if k > 0 {
                assert(s.skip(1)[k - 1] == s[k]);
            }
        }
        if first_nonspace(s) < s.len() {
            assert(s.skip(1)[first_nonspace(s) - 1] == s[first_nonspace(s)]);
        }
    }
}

pub proof fn lemma_first_space_is(s: Seq<char>, m: int)
    requires
        0 <= m <= s.len(),
        forall|k: int| 0 <= k < m ==> !is_space(s[k]),
        m < s.len() ==> is_space(s[m]),
    ensures
        first_space(s) == m,
    decreases m,
{
    if m == 0 {
    } else {
        assert(!is_space(s[0]));
        assert forall|k: int| 0 <= k < m - 1 implies !is_space(s.skip(1)[k]) by {
            assert(s.skip(1)[k] == s[k + 1]);
        }
        if m - 1 < s.skip(1).len() {
            assert(s.skip(1)[m - 1] == s[m]);
        }
        lemma_first_space_is(s.skip(1), m - 1);
    }
}

pub proof fn lemma_first_nonspace_is(s: Seq<char>, m: int)
    requires
        0 <= m <= s.len(),
        forall|k: int| 0 <= k < m ==> is_space(s[k]),
        m < s.len() ==> !is_space(s[m]),
    ensures
        first_nonspace(s) == m,
    decreases m,
{
    if m == 0 {
    } else {
        assert(is_space(s[0]));
        assert forall|k: int| 0 <= k < m - 1 implies is_space(s.skip(1)[k]) by {
            assert(s.skip(1)[k] == s[k + 1]);
        }
        if m - 1 < s.skip(1).len() {
            assert(s.skip(1)[m - 1] == s[m]);
        }
        lemma_first_nonspace_is(s.skip(1), m - 1);
    }
}

/// The pieces of `s` between its maximal whitespace runs, in order. A run at
/// the start or the end of `s` leaves an empty piece there, and the empty
/// string has the single empty piece.
pub open spec fn spec_split_ws(s: Seq<char>) -> Seq<Seq<char>>
    decreases s.len(),
    via spec_split_ws_dec
{
    let i = first_space(s);
    if i == s.len() {
        seq![s]
    } else {
        let rest = s.skip(i);
        seq![s.take(i)] + spec_split_ws(rest.skip(first_nonspace(rest)))
    }
}

#[via_fn]
proof fn spec_split_ws_dec(s: Seq<char>) {
    lemma_first_space(s);
    if first_space(s) < s.len() {
        let rest = s.skip(first_space(s));
        lemma_first_nonspace(rest);
        assert(rest[0] == s[first_space(s)]);
    }
}

/// Splitting a string on maximal whitespace runs, keeping the (possibly
/// empty) pieces at both ends.
pub fn split_whitespace_pieces(s: &str) -> (pieces: Vec<String>)
    ensures
        pieces.deep_view() == spec_split_ws(s@),
{
    let n = s.unicode_len();
    let mut pieces: Vec<String> = Vec::new();
    let mut i: usize = 0;
    proof {
        assert(pieces.deep_view() =~= Seq::<Seq<char>>::empty());
        assert(s@.skip(0) =~= s@);
        assert(Seq::<Seq<char>>::empty() + spec_split_ws(s@) =~= spec_split_ws(s@));
    }
    loop
        invariant_except_break
            n == s@.len(),
            0 <= i <= n,
            pieces.deep_view() + spec_split_ws(s@.skip(i as int)) == spec_split_ws(s@),
        ensures
            pieces.deep_view() == spec_split_ws(s@),
        decreases n - i,
    {
        let ghost rem = s@.skip(i as int);
        // scan to the end of the current piece
        let mut j: usize = i;
        while j < n && !is_space_char(s.get_char(j))
            invariant
                n == s@.len(),
                i <= j <= n,
                forall|k: int| i <= k < j ==> !is_space(s@[k]),
            decreases n - j,
        {
            j += 1;
        }
        proof {
            assert forall|k: int| 0 <= k < j - i implies !is_space(rem[k]) by {
                assert(rem[k] == s@[i + k]);
            }
            if j < n {
                assert(rem[j - i] == s@[j as int]);
            }
            lemma_first_space_is(rem, j - i);
            assert(rem.take(j - i) =~= s@.subrange(i as int, j as int));
        }
        let piece = s.substring_char(i, j).to_owned();
        let ghost old_dv = pieces.deep_view();
        pieces.push(piece);
        proof {
            assert(pieces.deep_view() =~= old_dv.push(piece@));
        }
        if j == n {
            proof {
                assert(spec_split_ws(rem) =~= seq![piece@]);
                assert(old_dv.push(piece@) =~= old_dv + seq![piece@]);
            }
            break ;
        }
        // scan past the whitespace run
        let mut k: usize = j;
        while k < n && is_space_char(s.get_char(k))
            invariant
                n == s@.len(),
                j <= k <= n,
                forall|m: int| j <= m < k ==> is_space(s@[m]),
            decreases n - k,
        {
            k += 1;
        }
        proof {
            let mid = rem.skip(j - i);
            assert forall|m: int| 0 <= m < k - j implies is_space(mid[m]) by {
                assert(mid[m] == s@[j + m]);
            }
            if k < n {
                assert(mid[k - j] == s@[k as int]);
            }
            lemma_first_nonspace_is(mid, k - j);
            assert(spec_split_ws(rem) =~= seq![rem.take(j - i)] + spec_split_ws(
                mid.skip(k - j),
            ));
            assert(mid.skip(k - j) =~= s@.skip(k as int));
            assert(old_dv.push(piece@) + spec_split_ws(s@.skip(k as int)) =~= old_dv + (
            seq![piece@] + spec_split_ws(s@.skip(k as int))));
            assert(k > i);
        }
        i = k;
    }
    pieces
}

/// Whether a character is ASCII whitespace.
pub fn is_space_char(c: char) -> (r: bool)
    ensures
        r == is_space(c),
{
    c == ' ' || c == '\t' || c == '\n' || c == '\r' || c == '\u{B}' || c == '\u{C}'
}

} // verus!

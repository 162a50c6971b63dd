//! Suggestion edits resolved, validated and applied to file text.
//!
//! A suggestion's edits are grouped by target path, resolved to byte spans
//! through [`crate::offset::OffsetConverter`], sorted, checked for overlap,
//! and spliced into a copy of the file's text. Reading and writing the
//! working tree is the caller's part: the functions here compute over the
//! file contents they are handed and never touch storage.

use vstd::prelude::*;
use vstd::utf8::*;

use vstd::string::StrSliceExecFns;

use crate::api::review::{DiffSide, Position, Suggestion, TextEdit};
use crate::offset::{offset_ok, OffsetConverter};
use crate::text::{bytes_lt, lex_lt, string_from_utf8};

verus! {

/// Errors surfaced while translating or applying suggestions.
#[derive(Debug)]
pub enum SuggestionError {
    /// File path escaped the repository root.
    AbsolutePath {
        /// Provided path.
        path: String,
    },
    /// File path attempted to traverse outside of the repository root.
    PathTraversal {
        /// Provided path.
        path: String,
    },
    /// Edits must target the head side of the diff.
    UnsupportedSide {
        /// Target file.
        path: String,
        /// Side referenced by the suggestion.
        side: DiffSide,
    },
    /// Referenced file is not present in the working tree.
    MissingFile {
        /// Missing file path.
        path: String,
    },
    /// Line index falls outside of the document bounds.
    LineOutOfBounds {
        /// Problematic file path.
        path: String,
        /// Requested line.
        line: u32,
    },
    /// Column index is invalid for the referenced line.
    ColumnOutOfBounds {
        /// Problematic file path.
        path: String,
        /// Requested line.
        line: u32,
        /// Requested column.
        column: u32,
    },
    /// Multiple edits overlapped in the same file.
    OverlappingEdits {
        /// File containing conflicting edits.
        path: String,
    },
    /// Range start exceeds range end.
    InvalidRange {
        /// File containing the invalid range.
        path: String,
        /// Computed start offset.
        start: usize,
        /// Computed end offset.
        end: usize,
    },
    /// Failed while staging file updates in the index.
    GitApply {
        /// Target file path.
        path: String,
        /// Message of the underlying git error.
        message: String,
    },
    /// Diff construction failed.
    GitDiff {
        /// Target file path.
        path: String,
        /// Message of the underlying git error.
        message: String,
    },
    /// File write failed while applying edits.
    Io {
        /// File targeted by the write.
        path: String,
        /// Message of the source error.
        message: String,
    },
}


/// A resolved edit: a half-open byte span of the original text and the
/// bytes that replace it.
#[derive(Debug, Clone, PartialEq, Eq)]
pub struct Replacement {
    /// Start byte offset, inclusive.
    pub start: usize,
    /// End byte offset, exclusive.
    pub end: usize,
    /// Replacement bytes.
    pub replacement: Vec<u8>,
}

/// Mathematical model of a [`Replacement`].
#[verifier::ext_equal]
pub ghost struct RepModel {
    /// Start byte offset, inclusive.
    pub start: int,
    /// End byte offset, exclusive.
    pub end: int,
    /// Replacement bytes.
    pub bytes: Seq<u8>,
}

impl View for Replacement {
    type V = RepModel;

    open spec fn view(&self) -> RepModel {
        RepModel { start: self.start as int, end: self.end as int, bytes: self.replacement@ }
    }
}


/// The models of a run of resolved replacements.
pub open spec fn rep_views(s: Seq<Replacement>) -> Seq<RepModel> {
    s.map_values(|x: Replacement| x@)
}

/// The character sequences of a run of strings.
pub open spec fn string_views(s: Seq<String>) -> Seq<Seq<char>> {
    s.map_values(|x: String| x@)
}

/// The target paths of a run of edits, in order.
pub open spec fn paths_of(edits: Seq<TextEdit>) -> Seq<Seq<char>> {
    edits.map_values(|e: TextEdit| e.location.path@)
}

/// Stable insertion of a replacement into a start-sorted run: it lands
/// after every replacement whose start does not exceed its own.
pub open spec fn insert_rep(r: RepModel, s: Seq<RepModel>) -> Seq<RepModel>
    decreases s.len(),
{
    if s.len() == 0 {
        seq![r]
    } else if s.last().start > r.start {
        insert_rep(r, s.drop_last()).push(s.last())
    } else {
        s.push(r)
    }
}

/// Stable sort of replacements by ascending start offset.
pub open spec fn sort_reps(s: Seq<RepModel>) -> Seq<RepModel>
    decreases s.len(),
{
    if s.len() == 0 {
        s
    } else {
        insert_rep(s.last(), sort_reps(s.drop_last()))
    }
}

/// Ascending start offsets.
pub open spec fn sorted_by_start(s: Seq<RepModel>) -> bool {
    forall|j: int| 0 <= j < s.len() - 1 ==> #[trigger] s[j].start <= s[j + 1].start
}

/// Consecutive replacements never overlap; touching end-to-end is allowed.
pub open spec fn non_overlapping(s: Seq<RepModel>) -> bool {
    forall|j: int| 0 <= j < s.len() - 1 ==> #[trigger] s[j].end <= s[j + 1].start
}

/// Every replacement is a well-formed span within a text of length `n`.
pub open spec fn reps_within(s: Seq<RepModel>, n: int) -> bool {
    forall|j: int| 0 <= j < s.len() ==> 0 <= #[trigger] s[j].start && s[j].start <= s[j].end <= n
}

proof fn lemma_insert_rep_sorted(r: RepModel, s: Seq<RepModel>)
    requires
        sorted_by_start(s),
    ensures
        sorted_by_start(insert_rep(r, s)),
    decreases s.len(),
{
    if s.len() == 0 {
    } else if s.last().start > r.start {
        assert(sorted_by_start(s.drop_last())) by {
            assert(forall|j: int|
                0 <= j < s.len() - 2 ==> #[trigger] s.drop_last()[j].start
                    <= s.drop_last()[j + 1].start);
        }
        lemma_insert_rep_sorted(r, s.drop_last());
        let t = insert_rep(r, s.drop_last());
        lemma_insert_rep_grows(r, s.drop_last());
        assert(forall|j: int|
            0 <= j < t.len() - 1 ==> #[trigger] t.push(s.last())[j].start <= t.push(
                s.last(),
            )[j + 1].start);
        assert(t.len() > 0);
        assert(t.last().start <= s.last().start || t.last() == r);
    } else {
        assert(forall|j: int|
            0 <= j < s.len() - 1 ==> #[trigger] s.push(r)[j].start <= s.push(r)[j + 1].start);
    }
}

/// Insertion keeps every element of the run, and adds the new one.
proof fn lemma_insert_rep_grows(r: RepModel, s: Seq<RepModel>)
    ensures
        insert_rep(r, s).len() == s.len() + 1,
        insert_rep(r, s).last() == r || insert_rep(r, s).last() == s.last(),
        forall|j: int|
            0 <= j < insert_rep(r, s).len() ==> (#[trigger] insert_rep(r, s)[j]).start <= r.start
                || exists|k: int| 0 <= k < s.len() && insert_rep(r, s)[j] == s[k],
    decreases s.len(),
{
    if s.len() == 0 {
    } else if s.last().start > r.start {
        lemma_insert_rep_grows(r, s.drop_last());
        assert(forall|k: int|
            0 <= k < s.len() - 1 ==> s.drop_last()[k] == #[trigger] s[k]);
    }
}

/// The stable sort of a run of replacements is sorted by start offset.
pub proof fn lemma_sort_reps_sorted(s: Seq<RepModel>)
    ensures
        sort_reps(s).len() == s.len(),
        sorted_by_start(sort_reps(s)),
    decreases s.len(),
{
    if s.len() > 0 {
        lemma_sort_reps_sorted(s.drop_last());
        lemma_insert_rep_sorted(s.last(), sort_reps(s.drop_last()));
        lemma_insert_rep_grows(s.last(), sort_reps(s.drop_last()));
    }
}

proof fn lemma_insert_rep_within(r: RepModel, s: Seq<RepModel>, n: int)
    requires
        reps_within(s, n),
        0 <= r.start <= r.end <= n,
    ensures
        reps_within(insert_rep(r, s), n),
    decreases s.len(),
{
    if s.len() == 0 {
    } else if s.last().start > r.start {
        assert(reps_within(s.drop_last(), n)) by {
            assert(forall|j: int|
                0 <= j < s.len() - 1 ==> s.drop_last()[j] == #[trigger] s[j]);
        }
        lemma_insert_rep_within(r, s.drop_last(), n);
        let t = insert_rep(r, s.drop_last());
        assert(forall|j: int|
            0 <= j < t.len() ==> 0 <= (#[trigger] t.push(s.last())[j]).start && t.push(
                s.last(),
            )[j].start <= t.push(s.last())[j].end <= n);
    } else {
        assert(forall|j: int|
            0 <= j < s.len() ==> s.push(r)[j] == #[trigger] s[j]);
    }
}

/// Sorting keeps every span within the text.
pub proof fn lemma_sort_reps_within(s: Seq<RepModel>, n: int)
    requires
        reps_within(s, n),
    ensures
        reps_within(sort_reps(s), n),
    decreases s.len(),
{
    if s.len() > 0 {
        assert(reps_within(s.drop_last(), n)) by {
            assert(forall|j: int|
                0 <= j < s.len() - 1 ==> s.drop_last()[j] == #[trigger] s[j]);
        }
        lemma_sort_reps_within(s.drop_last(), n);
        lemma_insert_rep_within(s.last(), sort_reps(s.drop_last()), n);
    }
}

/// Insert a resolved replacement into a start-sorted vector, after every
/// entry whose start does not exceed its own.
fn insert_replacement(out: &mut Vec<Replacement>, r: Replacement)
    ensures
        rep_views(final(out)@) == insert_rep(r@, rep_views(old(out)@)),
{
    let ghost s = rep_views(out@);
    let mut j: usize = out.len();
    while j > 0 && out[j - 1].start > r.start
        invariant
            0 <= j <= out@.len(),
            rep_views(out@) == s,
            forall|p: int| j <= p < s.len() ==> (#[trigger] s[p]).start > r@.start,
        decreases j,
    {
        j = j - 1;
    }
    proof {
        lemma_insert_rep_at(s, r@, j as int);
    }
    let ghost prev = out@;
    out.insert(j, r);
    proof {
        assert(out@ =~= prev.insert(j as int, r));
        assert(rep_views(out@) =~= s.take(j as int).push(r@) + s.skip(
            j as int,
        ));
    }
}

proof fn lemma_insert_rep_at(s: Seq<RepModel>, r: RepModel, j: int)
    requires
        0 <= j <= s.len(),
        forall|p: int| j <= p < s.len() ==> (#[trigger] s[p]).start > r.start,
        j > 0 ==> s[j - 1].start <= r.start,
    ensures
        insert_rep(r, s) == s.take(j).push(r) + s.skip(j),
    decreases s.len(),
{
    if j == s.len() {
        if s.len() == 0 {
            assert(insert_rep(r, s) =~= s.take(j).push(r) + s.skip(j));
        } else {
            assert(insert_rep(r, s) == s.push(r));
            assert(s.push(r) =~= s.take(j).push(r) + s.skip(j));
        }
    } else {
        assert(s.last().start > r.start);
        assert(forall|p: int|
            j <= p < s.len() - 1 ==> (#[trigger] s.drop_last()[p]).start > r.start);
        lemma_insert_rep_at(s.drop_last(), r, j);
        assert(insert_rep(r, s) == insert_rep(r, s.drop_last()).push(s.last()));
        assert((s.drop_last().take(j).push(r) + s.drop_last().skip(j)).push(s.last()) =~= s.take(
            j,
        ).push(r) + s.skip(j));
    }
}

/// Stable-sort resolved replacements by ascending start offset.
fn sort_replacements(reps: Vec<Replacement>) -> (r: Vec<Replacement>)
    ensures
        rep_views(r@) == sort_reps(rep_views(reps@)),
{
    let ghost s = rep_views(reps@);
    let mut rest = reps;
    let mut out: Vec<Replacement> = Vec::new();
    let ghost mut i: int = 0;
    proof {
        assert(rep_views(out@) =~= sort_reps(s.take(0)));
        assert(rep_views(rest@) =~= s.skip(0));
    }
    while rest.len() > 0
        invariant
            0 <= i <= s.len(),
            rep_views(rest@) == s.skip(i),
            rep_views(out@) == sort_reps(s.take(i)),
        decreases rest@.len(),
    {
        let ghost prev_rest = rest@;
        let next = rest.remove(0);
        proof {
            assert(rep_views(prev_rest) == s.skip(i));
            assert(rep_views(prev_rest).len() == prev_rest.len());
            assert(s.skip(i).len() == s.len() - i);
            assert(i < s.len());
            assert(rep_views(prev_rest)[0] == prev_rest[0]@);
            assert(next@ == s.skip(i)[0]);
            assert(s.skip(i)[0] == s[i + 0]);
            assert(next@ == s[i]);
            assert(rest@ =~= prev_rest.skip(1));
            assert(rep_views(rest@) =~= s.skip(i).skip(1)) by {
                assert(forall|k: int|
                    0 <= k < rest@.len() ==> rep_views(rest@)[k]
                        == (#[trigger] rest@[k])@);
                assert(forall|k: int|
                    0 <= k < rest@.len() ==> (#[trigger] rest@[k]) == prev_rest[k + 1]);
                assert(forall|k: int|
                    0 <= k + 1 < prev_rest.len() ==> (#[trigger] prev_rest[k + 1])@
                        == rep_views(prev_rest)[k + 1]);
            }
            assert(s.skip(i).skip(1) =~= s.skip(i + 1));
        }
        insert_replacement(&mut out, next);
        proof {
            assert(s.take(i + 1).drop_last() =~= s.take(i));
            assert(s.take(i + 1).last() == s[i]);
            i = i + 1;
        }
    }
    proof {
        assert(s.take(s.len() as int) =~= s);
    }
    out
}

/// Walk consecutive pairs of start-sorted replacements and reject the
/// file's whole edit set when an earlier span reaches past a later start;
/// spans that merely touch end-to-end are allowed.
pub fn ensure_non_overlapping(path: &str, edits: &Vec<Replacement>) -> (r: Result<
    (),
    SuggestionError,
>)
    ensures
        match r {
            Ok(()) => non_overlapping(rep_views(edits@)),
            Err(e) => {
                &&& !non_overlapping(rep_views(edits@))
                &&& e matches SuggestionError::OverlappingEdits { path: p } && p@ == path@
            },
        },
{
    let ghost s = rep_views(edits@);
    let mut i: usize = 0;
    let n = edits.len();
    if n == 0 {
        return Ok(());
    }
    while i + 1 < n
        invariant
            n == edits@.len(),
            0 <= i < edits@.len(),
            s == rep_views(edits@),
            forall|j: int| 0 <= j < i ==> (#[trigger] s[j]).end <= s[j + 1].start,
        decreases edits@.len() - i,
    {
        if edits[i].end > edits[i + 1].start {
            proof {
                assert(s[i as int].end > s[i as int + 1].start);
                assert(!non_overlapping(s));
            }
            return Err(SuggestionError::OverlappingEdits { path: path.to_owned() });
        }
        i = i + 1;
    }
    Ok(())
}

/// The text with the replacements from index `i` on applied, all earlier
/// bytes up to `cursor` already emitted.
pub open spec fn apply_from(text: Seq<u8>, reps: Seq<RepModel>, i: int, cursor: int) -> Seq<u8>
    decreases reps.len() - i,
{
    if i < 0 || i >= reps.len() {
        text.subrange(cursor, text.len() as int)
    } else {
        text.subrange(cursor, reps[i].start) + reps[i].bytes + apply_from(
            text,
            reps,
            i + 1,
            reps[i].end,
        )
    }
}

/// The text with a start-sorted, non-overlapping run of replacements
/// applied.
pub open spec fn apply_replacements(text: Seq<u8>, reps: Seq<RepModel>) -> Seq<u8> {
    apply_from(text, reps, 0, 0)
}

/// Append `text[from..to]` to a byte vector.
fn push_byte_range(out: &mut Vec<u8>, text: &Vec<u8>, from: usize, to: usize)
    requires
        from <= to <= text@.len(),
    ensures
        final(out)@ == old(out)@ + text@.subrange(from as int, to as int),
{
    let mut k = from;
    proof {
        assert(out@ =~= out@ + text@.subrange(from as int, from as int));
    }
    while k < to
        invariant
            from <= k <= to <= text@.len(),
            out@ == old(out)@ + text@.subrange(from as int, k as int),
        decreases to - k,
    {
        out.push(text[k]);
        proof {
            assert(old(out)@ + text@.subrange(from as int, k + 1) =~= (old(out)@ + text@.subrange(
                from as int,
                k as int,
            )).push(text@[k as int]));
        }
        k = k + 1;
    }
}

/// Append a whole byte vector.
fn push_bytes(out: &mut Vec<u8>, bytes: &Vec<u8>)
    ensures
        final(out)@ == old(out)@ + bytes@,
{
    let mut k: usize = 0;
    proof {
        assert(out@ =~= out@ + bytes@.subrange(0, 0));
    }
    while k < bytes.len()
        invariant
            0 <= k <= bytes@.len(),
            out@ == old(out)@ + bytes@.subrange(0, k as int),
        decreases bytes@.len() - k,
    {
        out.push(bytes[k]);
        proof {
            assert(old(out)@ + bytes@.subrange(0, k + 1) =~= (old(out)@ + bytes@.subrange(
                0,
                k as int,
            )).push(bytes@[k as int]));
        }
        k = k + 1;
    }
    proof {
        assert(bytes@.subrange(0, bytes@.len() as int) =~= bytes@);
    }
}

/// Build the updated text by applying a start-sorted, non-overlapping run
/// of replacements to a copy of the original.
fn splice_replacements(text: &Vec<u8>, reps: &Vec<Replacement>) -> (r: Vec<u8>)
    requires
        sorted_by_start(rep_views(reps@)),
        non_overlapping(rep_views(reps@)),
        reps_within(rep_views(reps@), text@.len() as int),
    ensures
        r@ == apply_replacements(text@, rep_views(reps@)),
{
    let ghost s = rep_views(reps@);
    let mut out: Vec<u8> = Vec::new();
    let mut cursor: usize = 0;
    let mut i: usize = 0;
    while i < reps.len()
        invariant
            0 <= i <= reps@.len(),
            s == rep_views(reps@),
            sorted_by_start(s),
            non_overlapping(s),
            reps_within(s, text@.len() as int),
            cursor <= text@.len(),
            i < s.len() ==> cursor <= s[i as int].start,
            apply_replacements(text@, s) == out@ + apply_from(text@, s, i as int, cursor as int),
        decreases reps@.len() - i,
    {
        let start = reps[i].start;
        let end = reps[i].end;
        let ghost before = out@;
        push_byte_range(&mut out, text, cursor, start);
        push_bytes(&mut out, &reps[i].replacement);
        proof {
            assert(out@ =~= before + (text@.subrange(cursor as int, start as int)
                + s[i as int].bytes));
            assert(before + (text@.subrange(cursor as int, start as int) + s[i as int].bytes)
                + apply_from(text@, s, i + 1, end as int) =~= before + apply_from(
                text@,
                s,
                i as int,
                cursor as int,
            ));
        }
        cursor = end;
        i = i + 1;
    }
    let ghost before = out@;
    push_byte_range(&mut out, text, cursor, text.len());
    proof {
        assert(apply_from(text@, s, s.len() as int, cursor as int) == text@.subrange(
            cursor as int,
            text@.len() as int,
        ));
    }
    out
}


impl SuggestionError {
    /// Attach the offending file's path to a position error.
    pub fn with_path(self, path: &str) -> (r: Self)
        ensures
            match self {
                SuggestionError::LineOutOfBounds { line, .. } => r matches
                    SuggestionError::LineOutOfBounds { path: p, line: l } && p@ == path@ && l
                    == line,
                SuggestionError::ColumnOutOfBounds { line, column, .. } => r matches
                    SuggestionError::ColumnOutOfBounds { path: p, line: l, column: c } && p@
                    == path@ && l == line && c == column,
                _ => r == self,
            },
    {
        match self {
            Self::LineOutOfBounds { line, .. } => Self::LineOutOfBounds {
                path: path.to_owned(),
                line,
            },
            Self::ColumnOutOfBounds { line, column, .. } => Self::ColumnOutOfBounds {
                path: path.to_owned(),
                line,
                column,
            },
            other => other,
        }
    }
}

/// An absolute path: one that starts at the filesystem root.
pub open spec fn path_absolute(p: Seq<char>) -> bool {
    p.len() > 0 && p[0] == '/'
}

/// A parent-directory segment begins at position `i`.
pub open spec fn parent_seg_at(p: Seq<char>, i: int) -> bool {
    &&& 0 <= i
    &&& i + 2 <= p.len()
    &&& p[i] == '.'
    &&& p[i + 1] == '.'
    &&& (i == 0 || p[i - 1] == '/')
    &&& (i + 2 == p.len() || p[i + 2] == '/')
}

/// The path contains a parent-directory segment.
pub open spec fn has_parent_segment(p: Seq<char>) -> bool {
    exists|i: int| parent_seg_at(p, i)
}

/// A path that may be resolved under the repository root: relative and free
/// of parent-directory traversal.
pub open spec fn path_ok(p: Seq<char>) -> bool {
    !path_absolute(p) && !has_parent_segment(p)
}

/// Reject paths that could escape the repository root: absolute paths and
/// paths holding a parent-directory segment, both refused before any
/// filesystem access.
pub fn sanitize_path(relative: &str) -> (r: Result<(), SuggestionError>)
    ensures
        match r {
            Ok(()) => path_ok(relative@),
            Err(e) => if path_absolute(relative@) {
                e matches SuggestionError::AbsolutePath { path } && path@ == relative@
            } else {
                has_parent_segment(relative@) && (e matches SuggestionError::PathTraversal {
                    path,
                } && path@ == relative@)
            },
        },
{
    let n: usize = relative.unicode_len();
    if n > 0 && relative.get_char(0) == '/' {
        return Err(SuggestionError::AbsolutePath { path: relative.to_owned() });
    }

    let mut i: usize = 0;
    while n >= 2 && i <= n - 2
        invariant
            0 <= i,
            i <= n,
            n == relative@.len(),
            !path_absolute(relative@),
            forall|k: int| 0 <= k < i ==> !parent_seg_at(relative@, k),
        decreases n - i,
    {
        if relative.get_char(i) == '.' && relative.get_char(i + 1) == '.' && (i == 0
            || relative.get_char(i - 1) == '/') && (i + 2 == n || relative.get_char(i + 2)
            == '/') {
            proof {
                assert(parent_seg_at(relative@, i as int));
            }
            return Err(SuggestionError::PathTraversal { path: relative.to_owned() });
        }
        i = i + 1;
    }
    proof {
        assert(forall|k: int| #[trigger]
            parent_seg_at(relative@, k) ==> 0 <= k && k + 2 <= n);
        assert(forall|k: int| 0 <= k < i ==> !parent_seg_at(relative@, k));
        assert(!has_parent_segment(relative@));
    }
    Ok(())
}

/// Ordered insertion of a path into a sorted run of distinct paths: already
/// present paths are kept once, new ones land in byte-lexicographic order
/// of their UTF-8 encoding.
pub open spec fn insert_path(p: Seq<char>, s: Seq<Seq<char>>) -> Seq<Seq<char>>
    decreases s.len(),
{
    if s.len() == 0 {
        seq![p]
    } else if s.last() == p {
        s
    } else if lex_lt(encode_utf8(p), encode_utf8(s.last())) {
        insert_path(p, s.drop_last()).push(s.last())
    } else {
        s.push(p)
    }
}

/// The distinct target paths of an edit list, sorted by the
/// byte-lexicographic order of their UTF-8 encodings.
pub open spec fn grouped_paths(ps: Seq<Seq<char>>) -> Seq<Seq<char>>
    decreases ps.len(),
{
    if ps.len() == 0 {
        Seq::empty()
    } else {
        insert_path(ps.last(), grouped_paths(ps.drop_last()))
    }
}

proof fn lemma_insert_path_insert(s: Seq<Seq<char>>, p: Seq<char>, j: int)
    requires
        0 <= j <= s.len(),
        forall|q: int|
            j <= q < s.len() ==> #[trigger] s[q] != p && lex_lt(encode_utf8(p), encode_utf8(s[q])),
        j > 0 ==> s[j - 1] != p && !lex_lt(encode_utf8(p), encode_utf8(s[j - 1])),
    ensures
        insert_path(p, s) == s.take(j).push(p) + s.skip(j),
    decreases s.len(),
{
    if j == s.len() {
        if s.len() == 0 {
            assert(insert_path(p, s) =~= s.take(j).push(p) + s.skip(j));
        } else {
            assert(insert_path(p, s) == s.push(p));
            assert(s.push(p) =~= s.take(j).push(p) + s.skip(j));
        }
    } else {
        assert(s.last() != p && lex_lt(encode_utf8(p), encode_utf8(s.last())));
        assert(forall|q: int|
            j <= q < s.len() - 1 ==> #[trigger] s.drop_last()[q] == s[q]);
        lemma_insert_path_insert(s.drop_last(), p, j);
        assert((s.drop_last().take(j).push(p) + s.drop_last().skip(j)).push(s.last()) =~= s.take(
            j,
        ).push(p) + s.skip(j));
    }
}

proof fn lemma_insert_path_found(s: Seq<Seq<char>>, p: Seq<char>, j: int)
    requires
        1 <= j <= s.len(),
        forall|q: int|
            j <= q < s.len() ==> #[trigger] s[q] != p && lex_lt(encode_utf8(p), encode_utf8(s[q])),
        s[j - 1] == p,
    ensures
        insert_path(p, s) == s,
    decreases s.len(),
{
    if j == s.len() {
        assert(s.last() == p);
    } else {
        assert(forall|q: int|
            j <= q < s.len() - 1 ==> #[trigger] s.drop_last()[q] == s[q]);
        lemma_insert_path_found(s.drop_last(), p, j);
        assert(insert_path(p, s) == insert_path(p, s.drop_last()).push(s.last()));
        assert(s.drop_last().push(s.last()) =~= s);
    }
}

/// Insert a target path into the sorted run of distinct paths seen so far.
fn insert_unique_path(out: &mut Vec<String>, p: String)
    ensures
        string_views(final(out)@) == insert_path(p@, string_views(old(out)@)),
{
    let ghost s = string_views(out@);
    let pb = p.as_str().as_bytes_vec();
    let mut j: usize = out.len();
    loop
        invariant
            0 <= j <= out@.len(),
            string_views(out@) == s,
            pb@ == encode_utf8(p@),
            forall|q: int|
                j <= q < s.len() ==> #[trigger] s[q] != p@ && lex_lt(
                    encode_utf8(p@),
                    encode_utf8(s[q]),
                ),
        ensures
            0 <= j <= out@.len(),
            string_views(out@) == s,
            forall|q: int|
                j <= q < s.len() ==> #[trigger] s[q] != p@ && lex_lt(
                    encode_utf8(p@),
                    encode_utf8(s[q]),
                ),
            j > 0 ==> s[j - 1] != p@ && !lex_lt(encode_utf8(p@), encode_utf8(s[j - 1])),
        decreases j,
    {
        if j == 0 {
            break;
        }
        if out[j - 1].eq(&p) {
            proof {
                lemma_insert_path_found(s, p@, j as int);
            }
            return;
        }
        let qb = out[j - 1].as_str().as_bytes_vec();
        if !bytes_lt(&pb, &qb) {
            break;
        }
        j = j - 1;
    }
    proof {
        lemma_insert_path_insert(s, p@, j as int);
    }
    let ghost prev = out@;
    out.insert(j, p);
    proof {
        assert(out@ =~= prev.insert(j as int, p));
        assert(string_views(out@) =~= s.take(j as int).push(p@) + s.skip(j as int));
    }
}

/// The distinct target paths of a suggestion's edits, sorted by the byte
/// order of their UTF-8 encodings.
pub fn unique_sorted_paths(suggestion: &Suggestion) -> (r: Vec<String>)
    ensures
        string_views(r@) == grouped_paths(
            paths_of(suggestion.edits@),
        ),
{
    let ghost ps = paths_of(suggestion.edits@);
    let mut out: Vec<String> = Vec::new();
    let mut i: usize = 0;
    proof {
        assert(string_views(out@) =~= grouped_paths(ps.take(0)));
    }
    while i < suggestion.edits.len()
        invariant
            0 <= i <= suggestion.edits@.len(),
            ps == paths_of(suggestion.edits@),
            string_views(out@) == grouped_paths(ps.take(i as int)),
        decreases suggestion.edits@.len() - i,
    {
        insert_unique_path(&mut out, suggestion.edits[i].location.path.clone());
        proof {
            assert(ps.take(i + 1).drop_last() =~= ps.take(i as int));
            assert(ps.take(i + 1).last() == ps[i as int]);
        }
        i = i + 1;
    }
    proof {
        assert(ps.take(ps.len() as int) =~= ps);
    }
    out
}

/// The first index at or after `i` whose path would be rejected, or the
/// run's length when every one is acceptable.
pub open spec fn first_bad_path(gp: Seq<Seq<char>>, i: int) -> int
    decreases gp.len() - i,
{
    if i < 0 || i >= gp.len() {
        i
    } else if !path_ok(gp[i]) {
        i
    } else {
        first_bad_path(gp, i + 1)
    }
}

/// Collect and validate the distinct paths a suggestion touches, in sorted
/// order: the caller reads those files and hands their contents back.
pub fn edit_paths(suggestion: &Suggestion) -> (r: Result<Vec<String>, SuggestionError>)
    ensures
        ({
            let gp = grouped_paths(paths_of(suggestion.edits@));
            match r {
                Ok(paths) => string_views(paths@) == gp && first_bad_path(gp, 0)
                    == gp.len() && forall|i: int|
                    0 <= i < gp.len() ==> path_ok(#[trigger] gp[i]),
                Err(e) => ({
                    let b = first_bad_path(gp, 0);
                    &&& 0 <= b < gp.len()
                    &&& !path_ok(gp[b])
                    &&& if path_absolute(gp[b]) {
                        e matches SuggestionError::AbsolutePath { path } && path@ == gp[b]
                    } else {
                        e matches SuggestionError::PathTraversal { path } && path@ == gp[b]
                    }
                }),
            }
        }),
{
    let ghost gp = grouped_paths(paths_of(suggestion.edits@));
    let paths = unique_sorted_paths(suggestion);
    let mut i: usize = 0;
    proof {
        assert(string_views(paths@).len() == paths@.len());
    }
    while i < paths.len()
        invariant
            gp == grouped_paths(paths_of(suggestion.edits@)),
            0 <= i <= paths@.len(),
            string_views(paths@) == gp,
            gp.len() == paths@.len(),
            first_bad_path(gp, 0) == first_bad_path(gp, i as int),
            forall|k: int| 0 <= k < i ==> path_ok(#[trigger] gp[k]),
        decreases paths@.len() - i,
    {
        proof {
            assert(string_views(paths@)[i as int] == paths@[i as int]@);
        }
        match sanitize_path(paths[i].as_str()) {
            Ok(()) => {},
            Err(e) => {
                proof {
                    assert(!path_ok(gp[i as int]));
                    assert(first_bad_path(gp, i as int) == i);
                }
                return Err(e);
            },
        }
        proof {
            assert(path_ok(gp[i as int]));
            assert(first_bad_path(gp, i as int) == first_bad_path(gp, i + 1));
        }
        i = i + 1;
    }
    proof {
        assert(first_bad_path(gp, gp.len() as int) == gp.len());
    }
    Ok(paths)
}


/// Preview of applying a suggestion to a file.
#[derive(Debug, Clone, PartialEq, Eq)]
pub struct ApplyPreview {
    /// Relative path of the file the patch targets.
    pub path: String,
    /// Unified diff patch representing the changes.
    pub patch: String,
}

/// Original and reconstructed text of one file a suggestion touches.
#[derive(Debug, Clone, PartialEq, Eq)]
pub struct FileChange {
    /// Relative path of the file.
    pub path: String,
    /// The file's current text.
    pub original: String,
    /// The text after all of the suggestion's edits for this file.
    pub updated: String,
}

/// The edits of a suggestion that target one path, in their given order.
pub open spec fn edits_for(edits: Seq<TextEdit>, path: Seq<char>) -> Seq<TextEdit>
    decreases edits.len(),
{
    if edits.len() == 0 {
        Seq::empty()
    } else {
        let prefix = edits_for(edits.drop_last(), path);
        if edits.last().location.path@ == path {
            prefix.push(edits.last())
        } else {
            prefix
        }
    }
}

/// An edit that resolves on the given text: head side, both positions
/// valid, start not past end.
pub open spec fn edit_ok(text: Seq<u8>, e: TextEdit) -> bool {
    &&& e.location.side == DiffSide::Head
    &&& offset_ok(text, e.location.range.start) is Some
    &&& offset_ok(text, e.location.range.end) is Some
    &&& offset_ok(text, e.location.range.start)->0 <= offset_ok(text, e.location.range.end)->0
}

/// The replacement an edit resolves to on the given text.
pub open spec fn rep_of(text: Seq<u8>, e: TextEdit) -> RepModel {
    RepModel {
        start: offset_ok(text, e.location.range.start)->0,
        end: offset_ok(text, e.location.range.end)->0,
        bytes: encode_utf8(e.replacement@),
    }
}

/// The replacements a run of edits resolves to, in the edits' order.
pub open spec fn reps_of(text: Seq<u8>, edits: Seq<TextEdit>) -> Seq<RepModel>
    decreases edits.len(),
{
    if edits.len() == 0 {
        Seq::empty()
    } else {
        reps_of(text, edits.drop_last()).push(rep_of(text, edits.last()))
    }
}

/// The first index at or after `i` of an edit that does not resolve, or the
/// run's length when every one does.
pub open spec fn first_bad_edit(text: Seq<u8>, edits: Seq<TextEdit>, i: int) -> int
    decreases edits.len() - i,
{
    if i < 0 || i >= edits.len() {
        i
    } else if !edit_ok(text, edits[i]) {
        i
    } else {
        first_bad_edit(text, edits, i + 1)
    }
}

/// All of a file's edits resolve and, once sorted, do not overlap.
pub open spec fn change_ok(content: Seq<char>, edits: Seq<TextEdit>) -> bool {
    &&& first_bad_edit(encode_utf8(content), edits, 0) == edits.len()
    &&& non_overlapping(sort_reps(reps_of(encode_utf8(content), edits)))
}

/// The bytes of a file's text after its edits are applied.
pub open spec fn updated_of(content: Seq<char>, edits: Seq<TextEdit>) -> Seq<u8> {
    apply_replacements(encode_utf8(content), sort_reps(reps_of(encode_utf8(content), edits)))
}

/// The error an out-of-bounds position resolves to, with the file's path
/// attached.
pub open spec fn offset_err_with_path(
    text: Seq<u8>,
    pos: Position,
    path: Seq<char>,
    e: SuggestionError,
) -> bool {
    if crate::offset::line_oob(text, pos) {
        e matches SuggestionError::LineOutOfBounds { path: p, line } && p@ == path && line
            == pos.line
    } else {
        e matches SuggestionError::ColumnOutOfBounds { path: p, line, column } && p@ == path
            && line == pos.line && column == pos.spec_column()
    }
}

/// Every span of a run of replacements begins and ends on a character
/// boundary of the text, and its bytes are valid UTF-8.
pub open spec fn reps_aligned(text: Seq<u8>, s: Seq<RepModel>) -> bool {
    forall|j: int|
        0 <= j < s.len() ==> is_char_boundary(text, (#[trigger] s[j]).start) && is_char_boundary(
            text,
            s[j].end,
        ) && valid_utf8(s[j].bytes)
}

proof fn lemma_insert_rep_aligned(text: Seq<u8>, r: RepModel, s: Seq<RepModel>)
    requires
        reps_aligned(text, s),
        is_char_boundary(text, r.start),
        is_char_boundary(text, r.end),
        valid_utf8(r.bytes),
    ensures
        reps_aligned(text, insert_rep(r, s)),
    decreases s.len(),
{
    if s.len() == 0 {
    } else if s.last().start > r.start {
        assert(reps_aligned(text, s.drop_last())) by {
            assert(forall|j: int|
                0 <= j < s.len() - 1 ==> s.drop_last()[j] == #[trigger] s[j]);
        }
        lemma_insert_rep_aligned(text, r, s.drop_last());
        let t = insert_rep(r, s.drop_last());
        assert(forall|j: int|
            0 <= j < t.len() + 1 ==> #[trigger] t.push(s.last())[j] == if j < t.len() {
                t[j]
            } else {
                s.last()
            });
    } else {
        assert(forall|j: int|
            0 <= j < s.len() ==> s.push(r)[j] == #[trigger] s[j]);
    }
}

/// Sorting keeps every span on character boundaries.
pub proof fn lemma_sort_reps_aligned(text: Seq<u8>, s: Seq<RepModel>)
    requires
        reps_aligned(text, s),
    ensures
        reps_aligned(text, sort_reps(s)),
    decreases s.len(),
{
    if s.len() > 0 {
        assert(reps_aligned(text, s.drop_last())) by {
            assert(forall|j: int|
                0 <= j < s.len() - 1 ==> s.drop_last()[j] == #[trigger] s[j]);
        }
        lemma_sort_reps_aligned(text, s.drop_last());
        lemma_insert_rep_aligned(text, s.last(), sort_reps(s.drop_last()));
    }
}

/// Splicing valid UTF-8 replacements between character boundaries of a
/// valid UTF-8 text yields valid UTF-8: no multi-byte encoding is ever
/// split.
pub proof fn lemma_apply_from_valid(text: Seq<u8>, reps: Seq<RepModel>, i: int, cursor: int)
    requires
        valid_utf8(text),
        non_overlapping(reps),
        reps_within(reps, text.len() as int),
        reps_aligned(text, reps),
        0 <= i <= reps.len(),
        0 <= cursor <= text.len(),
        is_char_boundary(text, cursor),
        i < reps.len() ==> cursor <= reps[i].start,
    ensures
        valid_utf8(apply_from(text, reps, i, cursor)),
    decreases reps.len() - i,
{
    broadcast use valid_utf8_split, valid_utf8_concat, is_char_boundary_start_end_of_seq,
        is_char_boundary_iff_not_is_continuation_byte;

    if i >= reps.len() {
        assert(valid_utf8(text.subrange(cursor, text.len() as int)));
    } else {
        let start = reps[i].start;
        let end = reps[i].end;
        let suffix = text.subrange(cursor, text.len() as int);
        assert(valid_utf8(suffix));
        let seg = text.subrange(cursor, start);
        assert(seg =~= suffix.subrange(0, start - cursor));
        assert(is_char_boundary(suffix, start - cursor)) by {
            if start - cursor < suffix.len() {
                assert(suffix[start - cursor] == text[start]);
                assert(!is_continuation_byte(text[start]));
            }
        }
        assert(valid_utf8(seg));
        lemma_apply_from_valid(text, reps, i + 1, end);
        assert(valid_utf8(seg + reps[i].bytes));
        assert(valid_utf8((seg + reps[i].bytes) + apply_from(text, reps, i + 1, end)));
        assert((seg + reps[i].bytes) + apply_from(text, reps, i + 1, end) =~= apply_from(
            text,
            reps,
            i,
            cursor,
        ));
    }
}

/// What git's buffer diff renders: a unified-diff text, a function of the
/// two buffers and the path alone.
pub uninterp spec fn patch_text_of(original: Seq<u8>, updated: Seq<u8>, path: Seq<char>) -> Seq<
    char,
>;

/// Whether git's buffer diff renders at all for the given buffers and path:
/// like the text itself, a function of the arguments alone (it refuses only
/// malformed arguments, such as a path with an interior NUL).
pub uninterp spec fn patch_renders(original: Seq<u8>, updated: Seq<u8>, path: Seq<char>) -> bool;

/// Relies on git2's `Patch::from_buffers` and `Patch::to_buf`: the rendered
/// unified diff between two in-memory buffers under one path.
#[verifier::external_body]
fn build_patch(path: &str, original: &Vec<u8>, updated: &Vec<u8>) -> (r: Result<String, String>)
    ensures
        r is Ok <==> patch_renders(original@, updated@, path@),
        r matches Ok(s) ==> s@ == patch_text_of(original@, updated@, path@),
{
    let path_ref = std::path::Path::new(path);
    let mut patch = match git2::Patch::from_buffers(
        original.as_slice(),
        Some(path_ref),
        updated.as_slice(),
        Some(path_ref),
        None,
    ) {
        Ok(p) => p,
        Err(e) => return Err(e.message().to_owned()),
    };
    match patch.to_buf() {
        Ok(buf) => Ok(String::from_utf8_lossy(buf.as_ref()).into_owned()),
        Err(e) => Err(e.message().to_owned()),
    }
}

/// The error a file's edit set yields: the first edit that does not
/// resolve names its failure, and an edit set that resolves but overlaps
/// is rejected whole.
pub open spec fn change_err_matches(
    path: Seq<char>,
    content: Seq<char>,
    edits: Seq<TextEdit>,
    e: SuggestionError,
) -> bool {
    let text = encode_utf8(content);
    let b = first_bad_edit(text, edits, 0);
    if b < edits.len() {
        let ed = edits[b];
        if ed.location.side != DiffSide::Head {
            e matches SuggestionError::UnsupportedSide { path: p, side } && p@
                == ed.location.path@ && side == ed.location.side
        } else if offset_ok(text, ed.location.range.start) is None {
            offset_err_with_path(text, ed.location.range.start, path, e)
        } else if offset_ok(text, ed.location.range.end) is None {
            offset_err_with_path(text, ed.location.range.end, path, e)
        } else {
            e matches SuggestionError::InvalidRange { path: p, start, end } && p@
                == ed.location.path@ && Some(start as int) == offset_ok(
                text,
                ed.location.range.start,
            ) && Some(end as int) == offset_ok(text, ed.location.range.end)
        }
    } else {
        &&& !non_overlapping(sort_reps(reps_of(text, edits)))
        &&& (e matches SuggestionError::OverlappingEdits { path: p } && p@ == path)
    }
}

/// Resolve, validate and apply one file's edits to its current text,
/// producing the original and fully-reconstructed updated text.
pub fn build_change(path: &str, edits: &Vec<TextEdit>, original: String) -> (r: Result<
    FileChange,
    SuggestionError,
>)
    ensures
        match r {
            Ok(c) => {
                &&& change_ok(original@, edits@)
                &&& c.path@ == path@
                &&& c.original@ == original@
                &&& encode_utf8(c.updated@) == updated_of(original@, edits@)
            },
            Err(e) => {
                &&& !change_ok(original@, edits@)
                &&& change_err_matches(path@, original@, edits@, e)
            },
        },
{
    let ghost text = encode_utf8(original@);
    let bytes = original.as_str().as_bytes_vec();
    proof {
        broadcast use encode_utf8_valid_utf8;

        assert(bytes@ == text);
        assert(valid_utf8(bytes@));
    }
    let converter = OffsetConverter::new(&bytes);

    let mut replacements: Vec<Replacement> = Vec::new();
    let mut i: usize = 0;
    proof {
        assert(rep_views(replacements@) =~= reps_of(text, edits@.take(0)));
    }
    while i < edits.len()
        invariant
            0 <= i <= edits@.len(),
            text == encode_utf8(original@),
            bytes@ == text,
            valid_utf8(text),
            converter.wf(),
            converter.text_bytes() == bytes@,
            rep_views(replacements@) == reps_of(text, edits@.take(i as int)),
            reps_within(rep_views(replacements@), text.len() as int),
            reps_aligned(text, rep_views(replacements@)),
            forall|k: int| 0 <= k < i ==> edit_ok(text, #[trigger] edits@[k]),
            first_bad_edit(text, edits@, 0) == first_bad_edit(text, edits@, i as int),
        decreases edits@.len() - i,
    {
        let edit = &edits[i];
        match converter.span(&edit.location) {
            Ok((start, end)) => {
                let ghost prev = rep_views(replacements@);
                replacements.push(
                    Replacement {
                        start,
                        end,
                        replacement: edit.replacement.as_str().as_bytes_vec(),
                    },
                );
                proof {
                    broadcast use encode_utf8_valid_utf8;

                    assert(edit_ok(text, edits@[i as int]));
                    assert(rep_views(replacements@) =~= prev.push(
                        rep_of(text, edits@[i as int]),
                    ));
                    assert(edits@.take(i + 1).drop_last() =~= edits@.take(i as int));
                    assert(edits@.take(i + 1).last() == edits@[i as int]);
                    assert(first_bad_edit(text, edits@, i as int) == first_bad_edit(
                        text,
                        edits@,
                        i + 1,
                    ));
                }
            },
            Err(err) => {
                proof {
                    assert(!edit_ok(text, edits@[i as int]));
                    assert(first_bad_edit(text, edits@, i as int) == i);
                }
                return Err(err.with_path(path));
            },
        }
        i = i + 1;
    }
    proof {
        assert(edits@.take(edits@.len() as int) =~= edits@);
        assert(first_bad_edit(text, edits@, edits@.len() as int) == edits@.len());
    }

    let sorted = sort_replacements(replacements);
    proof {
        lemma_sort_reps_sorted(reps_of(text, edits@));
        lemma_sort_reps_within(reps_of(text, edits@), text.len() as int);
        lemma_sort_reps_aligned(text, reps_of(text, edits@));
    }
    match ensure_non_overlapping(path, &sorted) {
        Ok(()) => {},
        Err(e) => {
            return Err(e);
        },
    }

    let updated_bytes = splice_replacements(&bytes, &sorted);
    proof {
        broadcast use is_char_boundary_start_end_of_seq;

        lemma_apply_from_valid(text, sort_reps(reps_of(text, edits@)), 0, 0);
        assert(valid_utf8(updated_bytes@));
    }
    let updated = string_from_utf8(updated_bytes);
    proof {
        broadcast use decode_utf8_encode_utf8;

        assert(encode_utf8(updated@) == updated_of(original@, edits@));
    }

    Ok(FileChange { path: path.to_owned(), original, updated })
}


/// Clone one text edit field by field.
fn clone_edit(e: &TextEdit) -> (r: TextEdit)
    ensures
        r == *e,
{
    TextEdit {
        location: crate::api::review::FileRange {
            path: e.location.path.clone(),
            side: e.location.side,
            range: e.location.range,
        },
        replacement: e.replacement.clone(),
    }
}

/// The edits of a suggestion that target one path, in their given order.
fn edits_for_path(suggestion: &Suggestion, path: &String) -> (r: Vec<TextEdit>)
    ensures
        r@ == edits_for(suggestion.edits@, path@),
{
    let mut out: Vec<TextEdit> = Vec::new();
    let mut i: usize = 0;
    proof {
        assert(out@ =~= edits_for(suggestion.edits@.take(0), path@));
    }
    while i < suggestion.edits.len()
        invariant
            0 <= i <= suggestion.edits@.len(),
            out@ == edits_for(suggestion.edits@.take(i as int), path@),
        decreases suggestion.edits@.len() - i,
    {
        if suggestion.edits[i].location.path.eq(path) {
            let e = clone_edit(&suggestion.edits[i]);
            out.push(e);
        }
        proof {
            assert(suggestion.edits@.take(i + 1).drop_last() =~= suggestion.edits@.take(i as int));
            assert(suggestion.edits@.take(i + 1).last() == suggestion.edits@[i as int]);
        }
        i = i + 1;
    }
    proof {
        assert(suggestion.edits@.take(suggestion.edits@.len() as int) =~= suggestion.edits@);
    }
    out
}

/// Every file of the suggestion is in good standing: its path acceptable,
/// its content at hand, and its edits resolved without overlap.
pub open spec fn all_files_ok(
    gp: Seq<Seq<char>>,
    contents: Seq<Option<String>>,
    edits: Seq<TextEdit>,
    k: int,
) -> bool {
    &&& path_ok(gp[k])
    &&& contents[k] is Some
    &&& change_ok(contents[k]->0@, edits_for(edits, gp[k]))
}

/// The first index at or after `i` of a file not in good standing, or the
/// run's length when every one is.
pub open spec fn first_bad_file(
    gp: Seq<Seq<char>>,
    contents: Seq<Option<String>>,
    edits: Seq<TextEdit>,
    i: int,
) -> int
    decreases gp.len() - i,
{
    if i < 0 || i >= gp.len() {
        i
    } else if !all_files_ok(gp, contents, edits, i) {
        i
    } else {
        first_bad_file(gp, contents, edits, i + 1)
    }
}

/// The error the first file not in good standing yields: its path error,
/// `MissingFile` for absent content, or its edit set's own error.
pub open spec fn plan_err_matches(
    gp: Seq<Seq<char>>,
    contents: Seq<Option<String>>,
    edits: Seq<TextEdit>,
    e: SuggestionError,
) -> bool {
    let b = first_bad_file(gp, contents, edits, 0);
    &&& 0 <= b < gp.len()
    &&& !all_files_ok(gp, contents, edits, b)
    &&& if !path_ok(gp[b]) {
        if path_absolute(gp[b]) {
            e matches SuggestionError::AbsolutePath { path } && path@ == gp[b]
        } else {
            e matches SuggestionError::PathTraversal { path } && path@ == gp[b]
        }
    } else if contents[b] is None {
        e matches SuggestionError::MissingFile { path } && path@ == gp[b]
    } else {
        change_err_matches(gp[b], contents[b]->0@, edits_for(edits, gp[b]), e)
    }
}

/// Group a suggestion's edits by target path (sorted order), resolve each
/// file's edits against the content the caller read for it, and build every
/// file's updated text. Validation of every file completes before any
/// caller-side mutation begins.
pub fn compute_changes(suggestion: &Suggestion, contents: &Vec<Option<String>>) -> (r: Result<
    Vec<FileChange>,
    SuggestionError,
>)
    requires
        contents@.len() == grouped_paths(paths_of(suggestion.edits@)).len(),
    ensures
        ({
            let gp = grouped_paths(paths_of(suggestion.edits@));
            match r {
                Ok(changes) => {
                    &&& changes@.len() == gp.len()
                    &&& forall|k: int|
                        0 <= k < gp.len() ==> #[trigger] all_files_ok(
                            gp,
                            contents@,
                            suggestion.edits@,
                            k,
                        )
                    &&& forall|k: int|
                        0 <= k < gp.len() ==> {
                            &&& (#[trigger] changes@[k]).path@ == gp[k]
                            &&& changes@[k].original@ == contents@[k]->0@
                            &&& encode_utf8(changes@[k].updated@) == updated_of(
                                contents@[k]->0@,
                                edits_for(suggestion.edits@, gp[k]),
                            )
                        }
                },
                Err(e) => plan_err_matches(gp, contents@, suggestion.edits@, e),
            }
        }),
{
    let ghost gp = grouped_paths(paths_of(suggestion.edits@));
    let paths = unique_sorted_paths(suggestion);
    proof {
        assert(string_views(paths@).len() == paths@.len());
    }
    let mut changes: Vec<FileChange> = Vec::new();
    let mut i: usize = 0;
    while i < paths.len()
        invariant
            gp == grouped_paths(paths_of(suggestion.edits@)),
            string_views(paths@) == gp,
            gp.len() == paths@.len(),
            contents@.len() == gp.len(),
            0 <= i <= gp.len(),
            changes@.len() == i,
            first_bad_file(gp, contents@, suggestion.edits@, 0) == first_bad_file(
                gp,
                contents@,
                suggestion.edits@,
                i as int,
            ),
            forall|k: int|
                0 <= k < i ==> #[trigger] all_files_ok(gp, contents@, suggestion.edits@, k),
            forall|k: int|
                0 <= k < i ==> {
                    &&& (#[trigger] changes@[k]).path@ == gp[k]
                    &&& changes@[k].original@ == contents@[k]->0@
                    &&& encode_utf8(changes@[k].updated@) == updated_of(
                        contents@[k]->0@,
                        edits_for(suggestion.edits@, gp[k]),
                    )
                },
        decreases gp.len() - i,
    {
        proof {
            assert(string_views(paths@)[i as int] == paths@[i as int]@);
        }
        match sanitize_path(paths[i].as_str()) {
            Ok(()) => {},
            Err(e) => {
                proof {
                    assert(!path_ok(gp[i as int]));
                    assert(!all_files_ok(gp, contents@, suggestion.edits@, i as int));
                    assert(first_bad_file(gp, contents@, suggestion.edits@, i as int) == i);
                }
                return Err(e);
            },
        }
        let content = match &contents[i] {
            Some(c) => c.clone(),
            None => {
                proof {
                    assert(path_ok(gp[i as int]));
                    assert(contents@[i as int] is None);
                    assert(!all_files_ok(gp, contents@, suggestion.edits@, i as int));
                    assert(first_bad_file(gp, contents@, suggestion.edits@, i as int) == i);
                }
                return Err(SuggestionError::MissingFile { path: paths[i].clone() });
            },
        };
        let file_edits = edits_for_path(suggestion, &paths[i]);
        match build_change(paths[i].as_str(), &file_edits, content) {
            Ok(c) => {
                changes.push(c);
                proof {
                    assert(file_edits@ == edits_for(suggestion.edits@, gp[i as int]));
                    assert(all_files_ok(gp, contents@, suggestion.edits@, i as int));
                    assert(changes@[i as int].path@ == gp[i as int]);
                    assert(changes@[i as int].original@ == contents@[i as int]->0@);
                    assert(encode_utf8(changes@[i as int].updated@) == updated_of(
                        contents@[i as int]->0@,
                        edits_for(suggestion.edits@, gp[i as int]),
                    ));
                }
            },
            Err(e) => {
                proof {
                    assert(file_edits@ == edits_for(suggestion.edits@, gp[i as int]));
                    assert(content@ == contents@[i as int]->0@);
                    assert(!change_ok(
                        contents@[i as int]->0@,
                        edits_for(suggestion.edits@, gp[i as int]),
                    ));
                    assert(!all_files_ok(gp, contents@, suggestion.edits@, i as int));
                    assert(first_bad_file(gp, contents@, suggestion.edits@, i as int) == i);
                    assert(change_err_matches(
                        gp[i as int],
                        contents@[i as int]->0@,
                        edits_for(suggestion.edits@, gp[i as int]),
                        e,
                    ));
                }
                return Err(e);
            },
        }
        proof {
            assert(first_bad_file(gp, contents@, suggestion.edits@, i as int)
                == first_bad_file(gp, contents@, suggestion.edits@, i + 1));
        }
        i = i + 1;
    }
    Ok(changes)
}

/// The changed files a dry run reports: path, original bytes and updated
/// bytes of every file whose edits produce different text, among the first
/// `i` files.
pub open spec fn file_previews(
    gp: Seq<Seq<char>>,
    contents: Seq<Option<String>>,
    edits: Seq<TextEdit>,
    i: int,
) -> Seq<(Seq<char>, Seq<u8>, Seq<u8>)>
    decreases i,
{
    if i <= 0 {
        Seq::empty()
    } else {
        let prefix = file_previews(gp, contents, edits, i - 1);
        let path = gp[i - 1];
        let orig = encode_utf8(contents[i - 1]->0@);
        let upd = updated_of(contents[i - 1]->0@, edits_for(edits, path));
        if upd != orig {
            prefix.push((path, orig, upd))
        } else {
            prefix
        }
    }
}

/// Every file's edits reproduce its existing text.
pub open spec fn noop_files(
    gp: Seq<Seq<char>>,
    contents: Seq<Option<String>>,
    edits: Seq<TextEdit>,
) -> bool {
    forall|k: int|
        0 <= k < gp.len() ==> updated_of((#[trigger] contents[k])->0@, edits_for(edits, gp[k]))
            == encode_utf8(contents[k]->0@)
}

/// Compute the patches a suggestion would produce, one per file whose
/// edits change its text, without mutating anything: the contents are
/// taken by shared reference and no storage is touched.
pub fn dry_run(suggestion: &Suggestion, contents: &Vec<Option<String>>) -> (r: Result<
    Vec<ApplyPreview>,
    SuggestionError,
>)
    requires
        contents@.len() == grouped_paths(paths_of(suggestion.edits@)).len(),
    ensures
        ({
            let gp = grouped_paths(paths_of(suggestion.edits@));
            let pf = file_previews(gp, contents@, suggestion.edits@, gp.len() as int);
            match r {
                Ok(previews) => {
                    &&& (forall|k: int|
                        0 <= k < gp.len() ==> #[trigger] all_files_ok(
                            gp,
                            contents@,
                            suggestion.edits@,
                            k,
                        ))
                    &&& previews@.len() == pf.len()
                    &&& forall|k: int|
                        0 <= k < pf.len() ==> (#[trigger] previews@[k]).path@ == pf[k].0
                            && previews@[k].patch@ == patch_text_of(pf[k].1, pf[k].2, pf[k].0)
                },
                Err(e) => {
                    ||| plan_err_matches(gp, contents@, suggestion.edits@, e)
                    ||| (e matches SuggestionError::GitDiff { path: p, .. } && exists|k: int|
                        #![trigger gp[k]]
                        0 <= k < gp.len() && p@ == gp[k] && updated_of(
                            contents@[k]->0@,
                            edits_for(suggestion.edits@, gp[k]),
                        ) != encode_utf8(contents@[k]->0@) && !patch_renders(
                            encode_utf8(contents@[k]->0@),
                            updated_of(contents@[k]->0@, edits_for(suggestion.edits@, gp[k])),
                            gp[k],
                        ))
                },
            }
        }),
        ({
            let gp = grouped_paths(paths_of(suggestion.edits@));
            ((forall|k: int|
                0 <= k < gp.len() ==> #[trigger] all_files_ok(
                    gp,
                    contents@,
                    suggestion.edits@,
                    k,
                )) && noop_files(gp, contents@, suggestion.edits@)) ==> (r matches Ok(previews)
                && previews@.len() == 0)
        }),
{
    let ghost gp = grouped_paths(paths_of(suggestion.edits@));
    let ghost pf = file_previews(gp, contents@, suggestion.edits@, gp.len() as int);
    let changes = match compute_changes(suggestion, contents) {
        Ok(c) => c,
        Err(e) => {
            proof {
                let b = first_bad_file(gp, contents@, suggestion.edits@, 0);
                assert(!all_files_ok(gp, contents@, suggestion.edits@, b));
            }
            return Err(e);
        },
    };
    let mut previews: Vec<ApplyPreview> = Vec::new();
    let mut i: usize = 0;
    proof {
        assert(file_previews(gp, contents@, suggestion.edits@, 0) =~= Seq::<(
            Seq<char>,
            Seq<u8>,
            Seq<u8>,
        )>::empty());
    }
    while i < changes.len()
        invariant
            gp == grouped_paths(paths_of(suggestion.edits@)),
            contents@.len() == gp.len(),
            changes@.len() == gp.len(),
            0 <= i <= gp.len(),
            forall|k: int|
                0 <= k < gp.len() ==> #[trigger] all_files_ok(gp, contents@, suggestion.edits@, k),
            forall|k: int|
                0 <= k < gp.len() ==> {
                    &&& (#[trigger] changes@[k]).path@ == gp[k]
                    &&& changes@[k].original@ == contents@[k]->0@
                    &&& encode_utf8(changes@[k].updated@) == updated_of(
                        contents@[k]->0@,
                        edits_for(suggestion.edits@, gp[k]),
                    )
                },
            ({
                let done = file_previews(gp, contents@, suggestion.edits@, i as int);
                &&& previews@.len() == done.len()
                &&& forall|k: int|
                    0 <= k < done.len() ==> (#[trigger] previews@[k]).path@ == done[k].0
                        && previews@[k].patch@ == patch_text_of(done[k].1, done[k].2, done[k].0)
            }),
        decreases gp.len() - i,
    {
        let ghost orig = encode_utf8(contents@[i as int]->0@);
        let ghost upd = updated_of(
            contents@[i as int]->0@,
            edits_for(suggestion.edits@, gp[i as int]),
        );
        if !changes[i].original.eq(&changes[i].updated) {
            proof {
                encode_utf8_decode_utf8(changes@[i as int].original@);
                encode_utf8_decode_utf8(changes@[i as int].updated@);
                assert(encode_utf8(changes@[i as int].original@) == orig);
                assert(changes@[i as int].original@ != changes@[i as int].updated@);
                assert(upd == encode_utf8(changes@[i as int].updated@));
                assert(upd != orig);
            }
            let original_bytes = changes[i].original.as_str().as_bytes_vec();
            let updated_bytes = changes[i].updated.as_str().as_bytes_vec();
            match build_patch(changes[i].path.as_str(), &original_bytes, &updated_bytes) {
                Ok(patch) => {
                    previews.push(ApplyPreview { path: changes[i].path.clone(), patch });
                },
                Err(message) => {
                    proof {
                        assert(changes@[i as int].path@ == gp[i as int]);
                        assert(original_bytes@ == orig);
                        assert(updated_bytes@ == upd);
                        assert(!patch_renders(orig, upd, gp[i as int]));
                        assert(0 <= i < gp.len());
                        assert(!noop_files(gp, contents@, suggestion.edits@)) by {
                            assert(updated_of(
                                (contents@[i as int])->0@,
                                edits_for(suggestion.edits@, gp[i as int]),
                            ) != encode_utf8(contents@[i as int]->0@));
                        }
                    }
                    return Err(SuggestionError::GitDiff {
                        path: changes[i].path.clone(),
                        message,
                    });
                },
            }
        } else {
            proof {
                broadcast use encode_utf8_decode_utf8;

                assert(changes@[i as int].original@ == changes@[i as int].updated@);
                assert(upd == orig);
            }
        }
        i = i + 1;
    }
    proof {
        assert(file_previews(gp, contents@, suggestion.edits@, gp.len() as int) == pf);
        if noop_files(gp, contents@, suggestion.edits@) {
            lemma_noop_suggestion_previews(gp, contents@, suggestion.edits@, gp.len() as int);
        }
    }
    Ok(previews)
}

/// The files whose updated text differs from their original text, in
/// order: only these are previewed or written.
pub open spec fn changed_only(s: Seq<FileChange>) -> Seq<FileChange>
    decreases s.len(),
{
    if s.len() == 0 {
        s
    } else {
        let prefix = changed_only(s.drop_last());
        if s.last().original@ != s.last().updated@ {
            prefix.push(s.last())
        } else {
            prefix
        }
    }
}

/// Keep only the files whose edits produce a real change: files with no net
/// change are neither previewed nor written.
pub fn changes_to_write(changes: Vec<FileChange>) -> (r: Vec<FileChange>)
    ensures
        r@ == changed_only(changes@),
{
    let ghost s = changes@;
    let mut rest = changes;
    let mut out: Vec<FileChange> = Vec::new();
    let ghost mut i: int = 0;
    proof {
        assert(out@ =~= changed_only(s.take(0)));
        assert(rest@ =~= s.skip(0));
    }
    while rest.len() > 0
        invariant
            0 <= i <= s.len(),
            rest@ == s.skip(i),
            out@ == changed_only(s.take(i)),
        decreases rest@.len(),
    {
        let ghost prev_rest = rest@;
        let change = rest.remove(0);
        proof {
            assert(change == s.skip(i)[0]);
            assert(s.skip(i)[0] == s[i + 0]);
            assert(rest@ =~= prev_rest.skip(1));
            assert(prev_rest.skip(1) =~= s.skip(i + 1));
            assert(s.take(i + 1).drop_last() =~= s.take(i));
            assert(s.take(i + 1).last() == s[i]);
        }
        if !change.original.eq(&change.updated) {
            proof {
                assert(s[i].original@ != s[i].updated@);
            }
            out.push(change);
        } else {
            proof {
                assert(s[i].original@ == s[i].updated@);
            }
        }
        proof {
            i = i + 1;
        }
    }
    proof {
        assert(s.take(s.len() as int) =~= s);
    }
    out
}

/// A suggestion whose edits reproduce every file's existing text produces
/// no previews at all.
pub proof fn lemma_noop_suggestion_previews(
    gp: Seq<Seq<char>>,
    contents: Seq<Option<String>>,
    edits: Seq<TextEdit>,
    n: int,
)
    requires
        0 <= n <= gp.len(),
        contents.len() == gp.len(),
        noop_files(gp, contents, edits),
    ensures
        file_previews(gp, contents, edits, n).len() == 0,
    decreases n,
{
    if n > 0 {
        lemma_noop_suggestion_previews(gp, contents, edits, n - 1);
    }
}

/// A suggestion whose edits reproduce every file's existing text performs
/// no writes: no file is handed to the caller for writing or staging.
pub proof fn lemma_noop_suggestion_changes(s: Seq<FileChange>)
    requires
        forall|k: int| 0 <= k < s.len() ==> (#[trigger] s[k]).original@ == s[k].updated@,
    ensures
        changed_only(s).len() == 0,
    decreases s.len(),
{
    if s.len() > 0 {
        assert(forall|k: int|
            0 <= k < s.len() - 1 ==> s.drop_last()[k] == #[trigger] s[k]);
        lemma_noop_suggestion_changes(s.drop_last());
    }
}

} // verus!

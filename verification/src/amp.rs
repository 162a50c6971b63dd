//! Text formats of the Amp agent integration.
//!
//! The CLI-facing side of the integration speaks plain text in both
//! directions: review payloads are rendered into a sectioned message, and
//! the thread table the CLI prints is parsed back into thread references.
//! Only that text work lives here; spawning the CLI is the caller's part.

use vstd::prelude::*;
use vstd::string::StrSliceExecFns;
use vstd::string::StringExecFns;

use crate::api::review::{CommentDraft, Diagnostic, DiffSide, FileRange, Severity};
use crate::plugins::{ReviewPayload, ThreadRef};
use crate::text::{dec_str, trim_blank, trim_spec, u32_string};

verus! {

/// The inclusive 1-based line range a location covers: the exclusive end
/// line is pulled back by one, but never before the start.
pub open spec fn line_range_of(fr: FileRange) -> (u32, u32) {
    let start = fr.range.start.line;
    let raw_end = fr.range.end.line;
    let pulled = if raw_end == 0 {
        0u32
    } else {
        (raw_end - 1) as u32
    };
    (start, if pulled > start {
        pulled
    } else {
        start
    })
}

/// Compute the inclusive line range of a location for display.
pub fn format_line_range(range: &FileRange) -> (r: (u32, u32))
    ensures
        r == line_range_of(*range),
{
    let start = range.range.start.line;
    let raw_end = range.range.end.line;
    let pulled: u32 = if raw_end == 0 {
        0
    } else {
        raw_end - 1
    };
    let end = if pulled > start {
        pulled
    } else {
        start
    };
    (start, end)
}

/// The display label of a diff side.
pub open spec fn side_label(side: DiffSide) -> Seq<char> {
    match side {
        DiffSide::Base => "Base"@,
        DiffSide::Head => "Head"@,
    }
}

fn side_label_exec(side: DiffSide) -> (r: &'static str)
    ensures
        r@ == side_label(side),
{
    match side {
        DiffSide::Base => "Base",
        DiffSide::Head => "Head",
    }
}

/// The display label of a severity.
pub open spec fn severity_label(severity: Severity) -> Seq<char> {
    match severity {
        Severity::Info => "Info"@,
        Severity::Warning => "Warning"@,
        Severity::Error => "Error"@,
    }
}

fn severity_label_exec(severity: Severity) -> (r: &'static str)
    ensures
        r@ == severity_label(severity),
{
    match severity {
        Severity::Info => "Info",
        Severity::Warning => "Warning",
        Severity::Error => "Error",
    }
}

/// The rendered form of one inline comment.
pub open spec fn format_comment_spec(c: CommentDraft) -> Seq<char> {
    let lines = line_range_of(c.location);
    "- "@ + c.location.path@ + " ["@ + side_label(c.location.side) + "] lines "@ + dec_str(
        lines.0 as nat,
    ) + "-"@ + dec_str(lines.1 as nat) + ": "@ + trim_spec(c.body@)
}

/// Render one inline comment as a bullet line.
pub fn format_comment(comment: &CommentDraft) -> (r: String)
    ensures
        r@ == format_comment_spec(*comment),
{
    let lines = format_line_range(&comment.location);
    let mut out = String::from_str("- ");
    out.append(comment.location.path.as_str());
    out.append(" [");
    out.append(side_label_exec(comment.location.side));
    out.append("] lines ");
    let start = u32_string(lines.0);
    out.append(start.as_str());
    out.append("-");
    let end = u32_string(lines.1);
    out.append(end.as_str());
    out.append(": ");
    let body = trim_blank(comment.body.as_str());
    out.append(body.as_str());
    out
}

/// The rendered detail suffix of a diagnostic.
pub open spec fn detail_suffix(detail: Option<String>) -> Seq<char> {
    match detail {
        Some(d) => " -- "@ + trim_spec(d@),
        None => Seq::empty(),
    }
}

/// The rendered form of one diagnostic.
pub open spec fn format_diagnostic_spec(d: Diagnostic) -> Seq<char> {
    let lines = line_range_of(d.location);
    "- "@ + d.title@ + " ["@ + severity_label(d.severity) + "] at "@ + d.location.path@ + " ["@
        + side_label(d.location.side) + "] lines "@ + dec_str(lines.0 as nat) + "-"@ + dec_str(
        lines.1 as nat,
    ) + detail_suffix(d.detail)
}

/// Render one diagnostic as a bullet line.
pub fn format_diagnostic(diag: &Diagnostic) -> (r: String)
    ensures
        r@ == format_diagnostic_spec(*diag),
{
    let lines = format_line_range(&diag.location);
    let mut out = String::from_str("- ");
    out.append(diag.title.as_str());
    out.append(" [");
    out.append(severity_label_exec(diag.severity));
    out.append("] at ");
    out.append(diag.location.path.as_str());
    out.append(" [");
    out.append(side_label_exec(diag.location.side));
    out.append("] lines ");
    let start = u32_string(lines.0);
    out.append(start.as_str());
    out.append("-");
    let end = u32_string(lines.1);
    out.append(end.as_str());
    match &diag.detail {
        Some(d) => {
            out.append(" -- ");
            let trimmed = trim_blank(d.as_str());
            out.append(trimmed.as_str());
        },
        None => {},
    }
    out
}

/// Items joined by a separator.
pub open spec fn join_with(items: Seq<Seq<char>>, sep: Seq<char>) -> Seq<char>
    decreases items.len(),
{
    if items.len() == 0 {
        Seq::empty()
    } else if items.len() == 1 {
        items[0]
    } else {
        join_with(items.drop_last(), sep) + sep + items.last()
    }
}

/// Join rendered items with a separator.
fn join_with_exec(items: &Vec<String>, sep: &str) -> (r: String)
    ensures
        r@ == join_with(crate::suggestion::string_views(items@), sep@),
{
    let ghost views = crate::suggestion::string_views(items@);
    let mut out = String::new();
    let mut i: usize = 0;
    proof {
        assert(views.take(0) =~= Seq::<Seq<char>>::empty());
        assert(views.len() == items@.len());
    }
    while i < items.len()
        invariant
            views == crate::suggestion::string_views(items@),
            views.len() == items@.len(),
            0 <= i <= items@.len(),
            out@ == join_with(views.take(i as int), sep@),
        decreases items@.len() - i,
    {
        if i > 0 {
            out.append(sep);
        }
        out.append(items[i].as_str());
        proof {
            assert(views.take(i + 1).drop_last() =~= views.take(i as int));
            assert(views.take(i + 1).last() == views[i as int]);
            assert(views[i as int] == items@[i as int]@);
            if i == 0 {
                assert(out@ =~= views[0]);
            }
        }
        i = i + 1;
    }
    proof {
        assert(views.take(views.len() as int) =~= views);
    }
    out
}

/// The bullet lines of the requested actions.
pub open spec fn action_items(actions: Seq<String>) -> Seq<Seq<char>>
    decreases actions.len(),
{
    if actions.len() == 0 {
        Seq::empty()
    } else {
        action_items(actions.drop_last()).push("- "@ + actions.last()@)
    }
}

/// The bullet lines of the inline comments.
pub open spec fn comment_items(comments: Seq<CommentDraft>) -> Seq<Seq<char>>
    decreases comments.len(),
{
    if comments.len() == 0 {
        Seq::empty()
    } else {
        comment_items(comments.drop_last()).push(format_comment_spec(comments.last()))
    }
}

/// The bullet lines of the diagnostics.
pub open spec fn diagnostic_items(diagnostics: Seq<Diagnostic>) -> Seq<Seq<char>>
    decreases diagnostics.len(),
{
    if diagnostics.len() == 0 {
        Seq::empty()
    } else {
        diagnostic_items(diagnostics.drop_last()).push(
            format_diagnostic_spec(diagnostics.last()),
        )
    }
}

/// The non-empty sections of a rendered payload, in order.
pub open spec fn sections_of(p: ReviewPayload) -> Seq<Seq<char>> {
    let s0: Seq<Seq<char>> = if p.summary is Some {
        seq!["Summary:\n"@ + trim_spec(p.summary->0@)]
    } else {
        Seq::empty()
    };
    let s1 = if p.actions@.len() > 0 {
        s0.push("Requested Actions:\n"@ + join_with(action_items(p.actions@), "\n"@))
    } else {
        s0
    };
    let s2 = if p.comments@.len() > 0 {
        s1.push("Inline Comments:\n"@ + join_with(comment_items(p.comments@), "\n"@))
    } else {
        s1
    };
    if p.diagnostics@.len() > 0 {
        s2.push("Diagnostics:\n"@ + join_with(diagnostic_items(p.diagnostics@), "\n"@))
    } else {
        s2
    }
}

/// The whole rendered payload: its sections joined by blank lines.
pub open spec fn render_payload_spec(p: ReviewPayload) -> Seq<char> {
    join_with(sections_of(p), "\n\n"@)
}

/// Render a review payload as the sectioned plain-text message handed to
/// the agent: summary, requested actions, inline comments and diagnostics,
/// each section present only when it has content.
pub fn render_payload(payload: &ReviewPayload) -> (r: String)
    ensures
        r@ == render_payload_spec(*payload),
{
    let mut sections: Vec<String> = Vec::new();

    match &payload.summary {
        Some(summary) => {
            let mut section = String::from_str("Summary:\n");
            let trimmed = trim_blank(summary.as_str());
            section.append(trimmed.as_str());
            sections.push(section);
        },
        None => {},
    }

    if payload.actions.len() > 0 {
        let mut items: Vec<String> = Vec::new();
        let mut i: usize = 0;
        while i < payload.actions.len()
            invariant
                0 <= i <= payload.actions@.len(),
                crate::suggestion::string_views(items@) == action_items(
                    payload.actions@.take(i as int),
                ),
            decreases payload.actions@.len() - i,
        {
            let mut item = String::from_str("- ");
            item.append(payload.actions[i].as_str());
            items.push(item);
            proof {
                assert(payload.actions@.take(i + 1).drop_last() =~= payload.actions@.take(
                    i as int,
                ));
                assert(payload.actions@.take(i + 1).last() == payload.actions@[i as int]);
                assert(crate::suggestion::string_views(items@) =~= action_items(
                    payload.actions@.take(i + 1),
                ));
            }
            i = i + 1;
        }
        proof {
            assert(payload.actions@.take(payload.actions@.len() as int) =~= payload.actions@);
        }
        let mut section = String::from_str("Requested Actions:\n");
        let body = join_with_exec(&items, "\n");
        section.append(body.as_str());
        sections.push(section);
    }

    if payload.comments.len() > 0 {
        let mut items: Vec<String> = Vec::new();
        let mut i: usize = 0;
        while i < payload.comments.len()
            invariant
                0 <= i <= payload.comments@.len(),
                crate::suggestion::string_views(items@) == comment_items(
                    payload.comments@.take(i as int),
                ),
            decreases payload.comments@.len() - i,
        {
            let item = format_comment(&payload.comments[i]);
            items.push(item);
            proof {
                assert(payload.comments@.take(i + 1).drop_last() =~= payload.comments@.take(
                    i as int,
                ));
                assert(payload.comments@.take(i + 1).last() == payload.comments@[i as int]);
                assert(crate::suggestion::string_views(items@) =~= comment_items(
                    payload.comments@.take(i + 1),
                ));
            }
            i = i + 1;
        }
        proof {
            assert(payload.comments@.take(payload.comments@.len() as int) =~= payload.comments@);
        }
        let mut section = String::from_str("Inline Comments:\n");
        let body = join_with_exec(&items, "\n");
        section.append(body.as_str());
        sections.push(section);
    }

    if payload.diagnostics.len() > 0 {
        let mut items: Vec<String> = Vec::new();
        let mut i: usize = 0;
        while i < payload.diagnostics.len()
            invariant
                0 <= i <= payload.diagnostics@.len(),
                crate::suggestion::string_views(items@) == diagnostic_items(
                    payload.diagnostics@.take(i as int),
                ),
            decreases payload.diagnostics@.len() - i,
        {
            let item = format_diagnostic(&payload.diagnostics[i]);
            items.push(item);
            proof {
                assert(payload.diagnostics@.take(i + 1).drop_last()
                    =~= payload.diagnostics@.take(i as int));
                assert(payload.diagnostics@.take(i + 1).last()
                    == payload.diagnostics@[i as int]);
                assert(crate::suggestion::string_views(items@) =~= diagnostic_items(
                    payload.diagnostics@.take(i + 1),
                ));
            }
            i = i + 1;
        }
        proof {
            assert(payload.diagnostics@.take(payload.diagnostics@.len() as int)
                =~= payload.diagnostics@);
        }
        let mut section = String::from_str("Diagnostics:\n");
        let body = join_with_exec(&items, "\n");
        section.append(body.as_str());
        sections.push(section);
    }

    proof {
        assert(crate::suggestion::string_views(sections@) =~= sections_of(*payload));
    }
    join_with_exec(&sections, "\n\n")
}


/// The end of the run of spaces beginning at `i`.
pub open spec fn space_run_end(s: Seq<char>, i: int) -> int
    decreases s.len() - i,
{
    if i < 0 || i >= s.len() || s[i] != ' ' {
        i
    } else {
        space_run_end(s, i + 1)
    }
}

proof fn lemma_space_run_end(s: Seq<char>, i: int)
    requires
        0 <= i <= s.len(),
    ensures
        i <= space_run_end(s, i) <= s.len(),
        i < s.len() && s[i] == ' ' ==> space_run_end(s, i) > i,
    decreases s.len() - i,
{
    if i < s.len() && s[i] == ' ' {
        lemma_space_run_end(s, i + 1);
    }
}

/// The trimmed text between two bounds, kept only when non-empty.
pub open spec fn maybe_seg(s: Seq<char>, a: int, b: int) -> Seq<Seq<char>> {
    let seg = trim_spec(s.subrange(a, b));
    if seg.len() == 0 {
        Seq::empty()
    } else {
        seq![seg]
    }
}

/// Columns of a fixed-width table row: segments separated by runs of two
/// or more spaces, each trimmed, empty ones dropped.
pub open spec fn split_cols_from(s: Seq<char>, start: int, i: int) -> Seq<Seq<char>>
    decreases s.len() - i,
    via split_cols_from_dec
{
    if i < 0 || start < 0 || start > i {
        Seq::empty()
    } else if i >= s.len() {
        if start < s.len() {
            maybe_seg(s, start, s.len() as int)
        } else {
            Seq::empty()
        }
    } else if s[i] == ' ' {
        let j = space_run_end(s, i);
        if j - i >= 2 {
            (if start < i {
                maybe_seg(s, start, i)
            } else {
                Seq::empty()
            }) + split_cols_from(s, j, j)
        } else {
            split_cols_from(s, start, j)
        }
    } else {
        split_cols_from(s, start, i + 1)
    }
}

#[via_fn]
proof fn split_cols_from_dec(s: Seq<char>, start: int, i: int) {
    if 0 <= start <= i < s.len() && s[i] == ' ' {
        lemma_space_run_end(s, i);
    }
}

/// The columns of one table row.
pub open spec fn split_columns_spec(s: Seq<char>) -> Seq<Seq<char>> {
    split_cols_from(s, 0, 0)
}

/// Split a fixed-width table row into its columns: runs of two or more
/// spaces separate columns, and each column is trimmed.
pub fn split_columns(line: &str) -> (r: Vec<String>)
    ensures
        crate::suggestion::string_views(r@) == split_columns_spec(line@),
{
    let ghost s = line@;
    let n: usize = line.unicode_len();
    let mut columns: Vec<String> = Vec::new();
    let mut start: usize = 0;
    let mut i: usize = 0;
    proof {
        assert(crate::suggestion::string_views(columns@) =~= Seq::<Seq<char>>::empty());
    }
    while i < n
        invariant
            s == line@,
            n == s.len(),
            0 <= start <= i <= n,
            split_cols_from(s, 0, 0) == crate::suggestion::string_views(columns@)
                + split_cols_from(s, start as int, i as int),
        decreases n - i,
    {
        if line.get_char(i) == ' ' {
            let mut j: usize = i;
            while j < n && line.get_char(j) == ' '
                invariant
                    i <= j <= n,
                    n == s.len(),
                    s == line@,
                    space_run_end(s, i as int) == space_run_end(s, j as int),
                decreases n - j,
            {
                j = j + 1;
            }
            proof {
                assert(space_run_end(s, j as int) == j);
            }
            if j - i >= 2 {
                let ghost before = crate::suggestion::string_views(columns@);
                if start < i {
                    let seg = trim_blank(line.substring_char(start, i));
                    if !seg.as_str().is_empty() {
                        columns.push(seg);
                        proof {
                            assert(crate::suggestion::string_views(columns@) =~= before
                                + maybe_seg(s, start as int, i as int));
                        }
                    } else {
                        proof {
                            assert(maybe_seg(s, start as int, i as int)
                                =~= Seq::<Seq<char>>::empty());
                            assert(crate::suggestion::string_views(columns@) =~= before
                                + maybe_seg(s, start as int, i as int));
                        }
                    }
                } else {
                    proof {
                        assert(crate::suggestion::string_views(columns@) =~= before + Seq::<
                            Seq<char>,
                        >::empty());
                    }
                }
                proof {
                    assert(split_cols_from(s, start as int, i as int) == (if (start as int)
                        < i as int {
                        maybe_seg(s, start as int, i as int)
                    } else {
                        Seq::<Seq<char>>::empty()
                    }) + split_cols_from(s, j as int, j as int));
                    assert(split_cols_from(s, 0, 0) =~= crate::suggestion::string_views(columns@)
                        + split_cols_from(s, j as int, j as int));
                }
                start = j;
            } else {
                proof {
                    assert(split_cols_from(s, start as int, i as int) == split_cols_from(
                        s,
                        start as int,
                        j as int,
                    ));
                }
            }
            i = j;
        } else {
            proof {
                assert(split_cols_from(s, start as int, i as int) == split_cols_from(
                    s,
                    start as int,
                    i + 1,
                ));
            }
            i = i + 1;
        }
    }
    let ghost before = crate::suggestion::string_views(columns@);
    if start < n {
        let seg = trim_blank(line.substring_char(start, n));
        if !seg.as_str().is_empty() {
            columns.push(seg);
            proof {
                assert(s.subrange(start as int, s.len() as int) =~= s.subrange(
                    start as int,
                    n as int,
                ));
                assert(crate::suggestion::string_views(columns@) =~= before + maybe_seg(
                    s,
                    start as int,
                    s.len() as int,
                ));
            }
        } else {
            proof {
                assert(s.subrange(start as int, s.len() as int) =~= s.subrange(
                    start as int,
                    n as int,
                ));
                assert(maybe_seg(s, start as int, s.len() as int) =~= Seq::<Seq<char>>::empty());
                assert(crate::suggestion::string_views(columns@) =~= before + maybe_seg(
                    s,
                    start as int,
                    s.len() as int,
                ));
            }
        }
    } else {
        proof {
            assert(crate::suggestion::string_views(columns@) =~= before + Seq::<
                Seq<char>,
            >::empty());
        }
    }
    columns
}


/// The thread reference one table row parses to: the last column is the
/// thread id, the leading columns (before the four trailing metadata
/// columns) join into the title.
pub open spec fn parse_thread_line_spec(line: Seq<char>) -> Option<(Seq<char>, Option<Seq<char>>)> {
    let cols = split_columns_spec(line);
    if cols.len() < 4 {
        None
    } else {
        let ts0 = cols.len() - 4;
        let ts: int = if ts0 == 0 {
            1
        } else {
            ts0 as int
        };
        let tail = cols.skip(ts);
        if tail.len() < 3 {
            None
        } else {
            let info = if tail.len() >= 4 {
                tail.skip(1)
            } else {
                tail
            };
            if info.len() < 3 {
                None
            } else {
                let id = info.last();
                let title = trim_spec(join_with(cols.take(ts), " "@));
                Some(
                    (
                        id,
                        if title.len() == 0 {
                            None
                        } else {
                            Some(title)
                        },
                    ),
                )
            }
        }
    }
}

/// Parse one row of the CLI's thread table into a thread reference.
pub fn parse_thread_line(line: &str) -> (r: Option<ThreadRef>)
    ensures
        match r {
            Some(t) => parse_thread_line_spec(line@) matches Some(p) && t.id@ == p.0 && (match (
                t.title,
                p.1,
            ) {
                (Some(a), Some(b)) => a@ == b,
                (None, None) => true,
                _ => false,
            }),
            None => parse_thread_line_spec(line@) is None,
        },
{
    let ghost cols_spec = split_columns_spec(line@);
    let columns = split_columns(line);
    proof {
        assert(crate::suggestion::string_views(columns@).len() == columns@.len());
    }
    if columns.len() < 4 {
        return None;
    }

    let title_split0 = columns.len() - 4;
    let title_split: usize = if title_split0 == 0 {
        1
    } else {
        title_split0
    };
    let tail_len = columns.len() - title_split;
    if tail_len < 3 {
        return None;
    }
    let info_len: usize = if tail_len >= 4 {
        tail_len - 1
    } else {
        tail_len
    };
    if info_len < 3 {
        return None;
    }

    proof {
        let ts = title_split as int;
        assert(cols_spec.skip(ts).len() == cols_spec.len() - ts);
        if cols_spec.skip(ts).len() >= 4 {
            assert(cols_spec.skip(ts).skip(1).last() == cols_spec.last());
            assert(cols_spec.skip(ts).skip(1).len() == cols_spec.len() - ts - 1);
        } else {
            assert(cols_spec.skip(ts).last() == cols_spec.last());
        }
    }

    let thread_id = columns[columns.len() - 1].clone();
    proof {
        assert(crate::suggestion::string_views(columns@)[columns@.len() - 1]
            == columns@[columns@.len() - 1]@);
    }

    let mut title_cols: Vec<String> = Vec::new();
    let mut k: usize = 0;
    proof {
        assert(crate::suggestion::string_views(title_cols@) =~= cols_spec.take(0));
    }
    while k < title_split
        invariant
            0 <= k <= title_split,
            title_split <= columns@.len(),
            cols_spec == crate::suggestion::string_views(columns@),
            crate::suggestion::string_views(title_cols@) == cols_spec.take(k as int),
        decreases title_split - k,
    {
        let c = columns[k].clone();
        proof {
            assert(c@ == columns@[k as int]@);
            assert(crate::suggestion::string_views(title_cols@).len() == title_cols@.len());
            assert(title_cols@.len() == k);
        }
        title_cols.push(c);
        proof {
            assert(crate::suggestion::string_views(columns@)[k as int] == columns@[k as int]@);
            assert(crate::suggestion::string_views(title_cols@)[k as int]
                == title_cols@[k as int]@);
            assert(title_cols@[k as int]@ == columns@[k as int]@);
            assert(crate::suggestion::string_views(title_cols@) =~= cols_spec.take(k + 1));
        }
        k = k + 1;
    }

    let joined = join_with_exec(&title_cols, " ");
    let title = trim_blank(joined.as_str());

    if title.as_str().is_empty() {
        Some(ThreadRef::new(thread_id.as_str(), None))
    } else {
        Some(ThreadRef::new(thread_id.as_str(), Some(title.as_str())))
    }
}

/// A table line that carries a row: non-empty after trimming, not a rule
/// of box-drawing dashes, not the column header.
pub open spec fn kept_line(l: Seq<char>) -> bool {
    let tr = trim_spec(l);
    &&& tr.len() > 0
    &&& tr[0] != '\u{2500}'
    &&& !(tr.len() >= 6 && tr.take(6) == "Title "@)
}

/// The index of the first newline at or after `i`.
pub open spec fn next_nl(s: Seq<char>, i: int) -> int
    decreases s.len() - i,
{
    if i < 0 || i >= s.len() {
        i
    } else if s[i] == '\n' {
        i
    } else {
        next_nl(s, i + 1)
    }
}

proof fn lemma_next_nl(s: Seq<char>, i: int)
    requires
        0 <= i <= s.len(),
    ensures
        i <= next_nl(s, i) <= s.len(),
        next_nl(s, i) < s.len() ==> s[next_nl(s, i)] == '\n',
    decreases s.len() - i,
{
    if i < s.len() && s[i] != '\n' {
        lemma_next_nl(s, i + 1);
    }
}

/// One line's text with a carriage return before the newline removed.
pub open spec fn strip_cr(t: Seq<char>) -> Seq<char> {
    if t.len() > 0 && t.last() == '\r' {
        t.drop_last()
    } else {
        t
    }
}

/// The lines of a text from position `i` on, split at newlines, each
/// without its line ending.
pub open spec fn split_lines_from(s: Seq<char>, i: int) -> Seq<Seq<char>>
    decreases s.len() - i,
    via split_lines_from_dec
{
    if i < 0 || i >= s.len() {
        Seq::empty()
    } else {
        let j = next_nl(s, i);
        if j >= s.len() {
            seq![s.subrange(i, s.len() as int)]
        } else {
            seq![strip_cr(s.subrange(i, j))] + split_lines_from(s, j + 1)
        }
    }
}

#[via_fn]
proof fn split_lines_from_dec(s: Seq<char>, i: int) {
    if 0 <= i < s.len() {
        lemma_next_nl(s, i);
    }
}

/// The thread references of a whole table printout: rule lines, the header
/// and blank lines are dropped, and every remaining row that parses
/// contributes one reference.
pub open spec fn parse_thread_table_spec(lines: Seq<Seq<char>>) -> Seq<(Seq<char>, Option<Seq<char>>)>
    decreases lines.len(),
{
    if lines.len() == 0 {
        Seq::empty()
    } else {
        let prefix = parse_thread_table_spec(lines.drop_last());
        if kept_line(lines.last()) {
            match parse_thread_line_spec(lines.last()) {
                Some(t) => prefix.push(t),
                None => prefix,
            }
        } else {
            prefix
        }
    }
}

/// Split a printout into its lines, without line endings.
fn split_into_lines(output: &str) -> (r: Vec<String>)
    ensures
        crate::suggestion::string_views(r@) == split_lines_from(output@, 0),
{
    let ghost s = output@;
    let n: usize = output.unicode_len();
    let mut lines: Vec<String> = Vec::new();
    let mut i: usize = 0;
    proof {
        assert(crate::suggestion::string_views(lines@) =~= Seq::<Seq<char>>::empty());
        assert(split_lines_from(s, 0) == crate::suggestion::string_views(lines@)
            + split_lines_from(s, 0));
    }
    while i < n
        invariant
            s == output@,
            n == s.len(),
            0 <= i <= n,
            split_lines_from(s, 0) == crate::suggestion::string_views(lines@)
                + split_lines_from(s, i as int),
        decreases n - i,
    {
        let mut j: usize = i;
        while j < n && output.get_char(j) != '\n'
            invariant
                i <= j <= n,
                n == s.len(),
                s == output@,
                next_nl(s, i as int) == next_nl(s, j as int),
            decreases n - j,
        {
            j = j + 1;
        }
        proof {
            assert(next_nl(s, j as int) == j);
        }
        let ghost before = crate::suggestion::string_views(lines@);
        if j >= n {
            let segment = output.substring_char(i, n).to_owned();
            lines.push(segment);
            proof {
                assert(crate::suggestion::string_views(lines@) =~= before + seq![
                    s.subrange(i as int, s.len() as int),
                ]);
                assert(split_lines_from(s, i as int) =~= seq![
                    s.subrange(i as int, s.len() as int),
                ]);
                assert(split_lines_from(s, 0) =~= crate::suggestion::string_views(lines@)
                    + Seq::<Seq<char>>::empty());
            }
            i = n;
        } else {
            let line_end: usize = if j > i && output.get_char(j - 1) == '\r' {
                j - 1
            } else {
                j
            };
            let segment = output.substring_char(i, line_end).to_owned();
            lines.push(segment);
            proof {
                if j > i && s[j - 1] == '\r' {
                    assert(s.subrange(i as int, line_end as int) =~= s.subrange(
                        i as int,
                        j as int,
                    ).drop_last());
                }
                assert(segment@ == strip_cr(s.subrange(i as int, j as int)));
                assert(crate::suggestion::string_views(lines@) =~= before + seq![
                    strip_cr(s.subrange(i as int, j as int)),
                ]);
                assert(split_lines_from(s, i as int) =~= seq![
                    strip_cr(s.subrange(i as int, j as int)),
                ] + split_lines_from(s, j + 1));
                assert(split_lines_from(s, 0) =~= crate::suggestion::string_views(lines@)
                    + split_lines_from(s, j + 1));
            }
            i = j + 1;
        }
    }
    proof {
        assert(split_lines_from(s, n as int) =~= Seq::<Seq<char>>::empty());
    }
    lines
}

/// Whether the text begins with the column header word.
fn starts_with_title(tr: &str) -> (r: bool)
    ensures
        r == (tr@.len() >= 6 && tr@.take(6) == "Title "@),
{
    proof {
        reveal_strlit("Title ");
    }
    if tr.unicode_len() < 6 {
        return false;
    }
    let r = tr.get_char(0) == 'T' && tr.get_char(1) == 'i' && tr.get_char(2) == 't'
        && tr.get_char(3) == 'l' && tr.get_char(4) == 'e' && tr.get_char(5) == ' ';
    proof {
        assert("Title "@.len() == 6);
        if r {
            assert(tr@.take(6) =~= "Title "@);
        } else {
            assert(tr@.take(6) != "Title "@) by {
                if tr@.take(6) == "Title "@ {
                    assert(tr@[0] == "Title "@[0]);
                    assert(tr@[1] == "Title "@[1]);
                    assert(tr@[2] == "Title "@[2]);
                    assert(tr@[3] == "Title "@[3]);
                    assert(tr@[4] == "Title "@[4]);
                    assert(tr@[5] == "Title "@[5]);
                }
            }
        }
    }
    r
}

/// Parse the CLI's thread table printout into thread references.
pub fn parse_thread_table(output: &str) -> (r: Vec<ThreadRef>)
    ensures
        ({
            let rows = parse_thread_table_spec(split_lines_from(output@, 0));
            &&& r@.len() == rows.len()
            &&& forall|k: int|
                0 <= k < rows.len() ==> (#[trigger] r@[k]).id@ == rows[k].0 && (match (
                    r@[k].title,
                    rows[k].1,
                ) {
                    (Some(a), Some(b)) => a@ == b,
                    (None, None) => true,
                    _ => false,
                })
        }),
{
    let ghost all_lines = split_lines_from(output@, 0);
    let lines = split_into_lines(output);
    proof {
        assert(crate::suggestion::string_views(lines@).len() == lines@.len());
    }
    let mut out: Vec<ThreadRef> = Vec::new();
    let mut i: usize = 0;
    proof {
        assert(all_lines.take(0) =~= Seq::<Seq<char>>::empty());
    }
    while i < lines.len()
        invariant
            all_lines == split_lines_from(output@, 0),
            crate::suggestion::string_views(lines@) == all_lines,
            all_lines.len() == lines@.len(),
            0 <= i <= lines@.len(),
            ({
                let rows = parse_thread_table_spec(all_lines.take(i as int));
                &&& out@.len() == rows.len()
                &&& forall|k: int|
                    0 <= k < rows.len() ==> (#[trigger] out@[k]).id@ == rows[k].0 && (match (
                        out@[k].title,
                        rows[k].1,
                    ) {
                        (Some(a), Some(b)) => a@ == b,
                        (None, None) => true,
                        _ => false,
                    })
            }),
        decreases lines@.len() - i,
    {
        proof {
            assert(crate::suggestion::string_views(lines@)[i as int] == lines@[i as int]@);
            assert(all_lines.take(i + 1).drop_last() =~= all_lines.take(i as int));
            assert(all_lines.take(i + 1).last() == all_lines[i as int]);
        }
        let trimmed = trim_blank(lines[i].as_str());
        let keep: bool = if trimmed.as_str().is_empty() {
            false
        } else if trimmed.as_str().get_char(0) == '\u{2500}' {
            false
        } else if starts_with_title(trimmed.as_str()) {
            false
        } else {
            true
        };
        proof {
            assert(keep == kept_line(all_lines[i as int]));
        }
        if keep {
            match parse_thread_line(lines[i].as_str()) {
                Some(t) => {
                    out.push(t);
                },
                None => {},
            }
        }
        i = i + 1;
    }
    proof {
        assert(all_lines.take(all_lines.len() as int) =~= all_lines);
    }
    out
}

} // verus!

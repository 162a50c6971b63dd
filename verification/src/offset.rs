//! Line/column positions resolved to byte offsets.
//!
//! The converter scans a file's text once, recording the byte offset after
//! every newline, and then maps 1-based line/column [`Position`] values onto
//! byte offsets of that exact text. Columns count Unicode scalars, not
//! bytes, so every offset handed out falls on a UTF-8 character boundary and
//! later slicing or splicing of the text cannot corrupt multi-byte
//! sequences.

use vstd::prelude::*;
use vstd::utf8::*;

use crate::api::review::{DiffSide, FileRange, Position};
use crate::suggestion::SuggestionError;

verus! {

/// Byte value of a line feed.
pub open spec fn newline() -> u8 {
    10
}

/// Positions immediately after each newline among the first `hi` bytes.
pub open spec fn newline_starts(text: Seq<u8>, hi: int) -> Seq<int>
    decreases hi,
{
    if hi <= 0 {
        Seq::empty()
    } else if text[hi - 1] == newline() {
        newline_starts(text, hi - 1).push(hi)
    } else {
        newline_starts(text, hi - 1)
    }
}

/// The line-start table of a text: offset 0 for line 1, then the offset
/// immediately following every newline.
pub open spec fn line_starts_spec(text: Seq<u8>) -> Seq<int> {
    seq![0int] + newline_starts(text, text.len() as int)
}

/// Every entry after the first lies in `(0, hi]`, directly after a newline,
/// and the entries grow strictly.
pub proof fn lemma_newline_starts_props(text: Seq<u8>, hi: int)
    requires
        0 <= hi <= text.len(),
    ensures
        forall|j: int|
            0 <= j < newline_starts(text, hi).len() ==> 0 < #[trigger] newline_starts(
                text,
                hi,
            )[j] <= hi && text[newline_starts(text, hi)[j] - 1] == newline(),
        forall|j: int, k: int|
            0 <= j < k < newline_starts(text, hi).len() ==> newline_starts(text, hi)[j]
                < newline_starts(text, hi)[k],
    decreases hi,
{
    if hi > 0 {
        lemma_newline_starts_props(text, hi - 1);
        let prev = newline_starts(text, hi - 1);
        let cur = newline_starts(text, hi);
        if text[hi - 1] == newline() {
            assert(cur == prev.push(hi));
            assert(forall|j: int| 0 <= j < prev.len() ==> cur[j] == #[trigger] prev[j]);
            assert(cur[cur.len() - 1] == hi);
        } else {
            assert(cur == prev);
        }
    }
}

/// A position that begins a Unicode scalar: any byte that is not a UTF-8
/// continuation byte.
pub open spec fn char_start(b: u8) -> bool {
    !is_continuation_byte(b)
}

/// The first scalar-start position at or after `p` within the line span, or
/// the span's end.
pub open spec fn next_start(text: Seq<u8>, p: int, end: int) -> int
    decreases end - p,
{
    if p >= end {
        end
    } else if char_start(text[p]) {
        p
    } else {
        next_start(text, p + 1, end)
    }
}

proof fn lemma_next_start_bounds(text: Seq<u8>, p: int, end: int)
    requires
        p <= end,
    ensures
        p <= next_start(text, p, end) <= end,
        next_start(text, p, end) == end || char_start(text[next_start(text, p, end)]),
    decreases end - p,
{
    if p < end && !char_start(text[p]) {
        lemma_next_start_bounds(text, p + 1, end);
    }
}

/// The byte offset `k` scalar positions after `lo` within the span ending at
/// `end`: landing exactly on the end is allowed, any further is not.
pub open spec fn col_offset(text: Seq<u8>, lo: int, end: int, k: int) -> Option<int>
    decreases k,
{
    if k < 0 {
        None
    } else if k == 0 {
        Some(lo)
    } else if lo >= end {
        None
    } else {
        col_offset(text, next_start(text, lo + 1, end), end, k - 1)
    }
}

/// Whether a position's line lies outside the text's lines.
pub open spec fn line_oob(text: Seq<u8>, pos: Position) -> bool {
    pos.line == 0 || pos.line - 1 > line_starts_spec(text).len()
}

/// The byte offset a position resolves to in the given text, when it
/// addresses a valid location.
pub open spec fn offset_ok(text: Seq<u8>, pos: Position) -> Option<int> {
    let col = pos.spec_column() as int;
    if pos.line == 0 {
        None
    } else {
        let idx = pos.line - 1;
        let ls = line_starts_spec(text);
        if idx > ls.len() {
            None
        } else if idx == ls.len() {
            if col == 1 {
                Some(text.len() as int)
            } else {
                None
            }
        } else {
            let start = ls[idx as int];
            let end = if idx + 1 < ls.len() {
                ls[idx as int + 1]
            } else {
                text.len() as int
            };
            col_offset(text, start, end, col - 1)
        }
    }
}

/// A position at or before the end of a valid text, not in the middle of a
/// scalar's encoding, is a character boundary.
proof fn lemma_boundary_of(text: Seq<u8>, o: int)
    requires
        valid_utf8(text),
        0 <= o <= text.len(),
        o == text.len() || !is_continuation_byte(text[o]),
    ensures
        is_char_boundary(text, o),
{
    broadcast use is_char_boundary_start_end_of_seq, is_char_boundary_iff_not_is_continuation_byte;

}

/// In a valid text, the byte after an ASCII byte begins a new scalar.
proof fn lemma_char_start_after_ascii(text: Seq<u8>, p: int)
    requires
        valid_utf8(text),
        1 <= p < text.len(),
        text[p - 1] < 128,
    ensures
        !is_continuation_byte(text[p]),
{
    broadcast use is_char_boundary_start_end_of_seq, is_char_boundary_iff_not_is_continuation_byte,
        valid_utf8_split;

    assert(!is_continuation_byte(text[p - 1]));
    assert(is_char_boundary(text, p - 1));
    let s = text.subrange(p - 1, text.len() as int);
    assert(valid_utf8(s));
    assert(s[0] == text[p - 1]);
    assert(is_leading_byte_width_1(s[0]));
    assert(length_of_first_scalar(s) == 1);
    assert(is_char_boundary(s, 1)) by {
        reveal_with_fuel(is_char_boundary, 2);
    }
    assert(!is_continuation_byte(s[1]));
    assert(s[1] == text[p]);
}

/// Every line start of a valid text begins a scalar or sits at the end.
proof fn lemma_line_start_boundary(text: Seq<u8>, e: int)
    requires
        valid_utf8(text),
        0 <= e <= text.len(),
        e == 0 || text[e - 1] == newline(),
    ensures
        e == text.len() || !is_continuation_byte(text[e]),
{
    broadcast use is_char_boundary_start_end_of_seq, is_char_boundary_iff_not_is_continuation_byte;

    if e < text.len() {
        if e == 0 {
            assert(is_char_boundary(text, 0));
        } else {
            lemma_char_start_after_ascii(text, e);
        }
    }
}


/// On a fully newline-terminated file of N lines, the position one line
/// past the last, in column 1, resolves to the text's total byte length;
/// the same position in any later column addresses nothing.
pub proof fn lemma_offset_at_end_of_file(text: Seq<u8>, pos: Position)
    requires
        text.len() > 0,
        text[text.len() - 1] == newline(),
        pos.line == newline_starts(text, text.len() as int).len() + 1,
    ensures
        pos.spec_column() == 1 ==> offset_ok(text, pos) == Some(text.len() as int),
        pos.spec_column() != 1 ==> offset_ok(text, pos) is None,
{
    let ls = line_starts_spec(text);
    let ns = newline_starts(text, text.len() as int);
    lemma_newline_starts_props(text, text.len() as int);
    assert(ns == newline_starts(text, text.len() as int - 1).push(text.len() as int));
    assert(ns.last() == text.len());
    let idx = pos.line - 1;
    assert(idx == ls.len() - 1);
    assert(ls[idx as int] == ns[ns.len() - 1]);
    assert(ls[idx as int] == text.len());
    let col = pos.spec_column() as int;
    assert(offset_ok(text, pos) == col_offset(
        text,
        text.len() as int,
        text.len() as int,
        col - 1,
    ));
}

/// Converts 1-based line/column positions into byte offsets of one text.
pub struct OffsetConverter<'a> {
    text: &'a Vec<u8>,
    line_starts: Vec<usize>,
}

impl<'a> OffsetConverter<'a> {
    /// The text this converter indexes.
    pub closed spec fn text_bytes(&self) -> Seq<u8> {
        self.text@
    }

    /// The recorded table is exactly the text's line-start table.
    pub closed spec fn wf(&self) -> bool {
        self.line_starts@.map_values(|u: usize| u as int) == line_starts_spec(self.text@)
    }

    /// Build the line-start table of a text with a single scan.
    pub fn new(text: &'a Vec<u8>) -> (r: Self)
        ensures
            r.wf(),
            r.text_bytes() == text@,
    {
        let mut line_starts: Vec<usize> = Vec::new();
        line_starts.push(0);
        let mut i: usize = 0;
        proof {
            assert(line_starts@.map_values(|u: usize| u as int) =~= seq![0int]
                + newline_starts(text@, 0));
        }
        while i < text.len()
            invariant
                0 <= i <= text@.len(),
                line_starts@.map_values(|u: usize| u as int) =~= seq![0int] + newline_starts(
                    text@,
                    i as int,
                ),
            decreases text@.len() - i,
        {
            let ghost prev = line_starts@;
            if text[i] == 10 {
                line_starts.push(i + 1);
                proof {
                    assert(line_starts@.map_values(|u: usize| u as int) =~= prev.map_values(
                        |u: usize| u as int,
                    ).push(i + 1));
                }
            }
            proof {
                assert(line_starts@.map_values(|u: usize| u as int) =~= seq![0int]
                    + newline_starts(text@, i + 1));
            }
            i = i + 1;
        }
        Self { text, line_starts }
    }

    /// Resolve a position to a byte offset into this converter's text.
    ///
    /// Lines are 1-based; a missing column addresses the line's first
    /// character. Addressing one line past the last is valid only in
    /// column 1, where it yields the end of the text. Columns advance by
    /// Unicode scalars; one past the line's last scalar is the line's end,
    /// anything further is out of bounds.
    pub fn offset(&self, position: &Position) -> (r: Result<usize, SuggestionError>)
        requires
            self.wf(),
            valid_utf8(self.text_bytes()),
        ensures
            match r {
                Ok(o) => offset_ok(self.text_bytes(), *position) == Some(o as int)
                    && is_char_boundary(self.text_bytes(), o as int) && o <= self.text_bytes().len(),
                Err(e) => offset_ok(self.text_bytes(), *position) is None && if line_oob(
                    self.text_bytes(),
                    *position,
                ) {
                    e matches SuggestionError::LineOutOfBounds { path, line } && path@
                        == Seq::<char>::empty() && line == position.line
                } else {
                    e matches SuggestionError::ColumnOutOfBounds { path, line, column } && path@
                        == Seq::<char>::empty() && line == position.line && column
                        == position.spec_column()
                },
            },
    {
        let ghost text = self.text@;
        let ghost ls = line_starts_spec(text);
        proof {
            lemma_newline_starts_props(text, text.len() as int);
        }

        if position.line == 0 {
            return Err(SuggestionError::LineOutOfBounds {
                path: String::new(),
                line: position.line,
            });
        }

        let line_index = (position.line - 1) as usize;
        if line_index > self.line_starts.len() {
            return Err(SuggestionError::LineOutOfBounds {
                path: String::new(),
                line: position.line,
            });
        }

        let column = match position.column {
            Some(c) => c,
            None => 1,
        };

        if line_index == self.line_starts.len() {
            if column == 1 {
                proof {
                    lemma_boundary_of(text, text.len() as int);
                }
                return Ok(self.text.len());
            }
            return Err(SuggestionError::ColumnOutOfBounds {
                path: String::new(),
                line: position.line,
                column,
            });
        }

        let line_start = self.line_starts[line_index];
        let line_end = if line_index + 1 < self.line_starts.len() {
            self.line_starts[line_index + 1]
        } else {
            self.text.len()
        };
        proof {
            assert(line_start as int == ls[line_index as int]);
            if line_index + 1 < self.line_starts.len() {
                assert(line_end as int == ls[line_index as int + 1]);
            }
            assert(line_start <= line_end <= text.len()) by {
                if line_index as int >= 1 {
                    assert(ls[line_index as int] == newline_starts(
                        text,
                        text.len() as int,
                    )[line_index as int - 1]);
                }
                if line_index + 1 < self.line_starts.len() {
                    assert(ls[line_index as int + 1] == newline_starts(
                        text,
                        text.len() as int,
                    )[line_index as int]);
                }
            }
            assert(line_start == 0 || text[line_start as int - 1] == newline()) by {
                if line_index as int >= 1 {
                    assert(ls[line_index as int] == newline_starts(
                        text,
                        text.len() as int,
                    )[line_index as int - 1]);
                }
            }
            lemma_line_start_boundary(text, line_start as int);
            if line_index + 1 < self.line_starts.len() {
                assert(line_end == 0 || text[line_end as int - 1] == newline()) by {
                    assert(ls[line_index as int + 1] == newline_starts(
                        text,
                        text.len() as int,
                    )[line_index as int]);
                }
                lemma_line_start_boundary(text, line_end as int);
            }
            assert(line_end as int == text.len() || !is_continuation_byte(text[line_end as int]));
        }

        if column == 0 {
            return Err(SuggestionError::ColumnOutOfBounds {
                path: String::new(),
                line: position.line,
                column,
            });
        }

        proof {
            assert(offset_ok(text, *position) == col_offset(
                text,
                line_start as int,
                line_end as int,
                column as int - 1,
            ));
        }

        let mut lo = line_start;
        let mut k = column - 1;
        while k > 0
            invariant
                self.wf(),
                valid_utf8(text),
                text == self.text@,
                position.line >= 1,
                column == position.spec_column(),
                column >= 1,
                line_start <= lo <= line_end <= text.len(),
                lo == line_end || !is_continuation_byte(text[lo as int]),
                line_end as int == text.len() || !is_continuation_byte(text[line_end as int]),
                offset_ok(text, *position) == col_offset(
                    text,
                    lo as int,
                    line_end as int,
                    k as int,
                ),
                !line_oob(text, *position),
            decreases k,
        {
            if lo >= line_end {
                return Err(SuggestionError::ColumnOutOfBounds {
                    path: String::new(),
                    line: position.line,
                    column,
                });
            }
            let mut p = lo + 1;
            proof {
                lemma_next_start_bounds(text, lo as int + 1, line_end as int);
            }
            loop
                invariant
                    lo < p <= line_end <= text.len(),
                    text == self.text@,
                    next_start(text, lo as int + 1, line_end as int) == next_start(
                        text,
                        p as int,
                        line_end as int,
                    ),
                ensures
                    lo < p <= line_end,
                    next_start(text, lo as int + 1, line_end as int) == p as int,
                decreases line_end - p,
            {
                if p == line_end {
                    break;
                }
                let b = self.text[p];
                if !(b >= 0x80 && b <= 0xbf) {
                    proof {
                        assert(char_start(text[p as int]));
                    }
                    break;
                }
                p = p + 1;
            }
            lo = p;
            k = k - 1;
        }
        proof {
            lemma_boundary_of(text, lo as int);
        }
        Ok(lo)
    }
}


/// The error an out-of-bounds position resolves to, with an empty path.
pub open spec fn offset_err_matches(text: Seq<u8>, pos: Position, e: SuggestionError) -> bool {
    if line_oob(text, pos) {
        e matches SuggestionError::LineOutOfBounds { path, line } && path@ == Seq::<char>::empty()
            && line == pos.line
    } else {
        e matches SuggestionError::ColumnOutOfBounds { path, line, column } && path@
            == Seq::<char>::empty() && line == pos.line && column == pos.spec_column()
    }
}

impl<'a> OffsetConverter<'a> {
    /// Resolve a file range to a half-open byte span of this converter's
    /// text. The range must target the head side; its start must not exceed
    /// its end.
    pub fn span(&self, range: &FileRange) -> (r: Result<(usize, usize), SuggestionError>)
        requires
            self.wf(),
            valid_utf8(self.text_bytes()),
        ensures
            match r {
                Ok((s, e)) => {
                    &&& range.side == DiffSide::Head
                    &&& offset_ok(self.text_bytes(), range.range.start) == Some(s as int)
                    &&& offset_ok(self.text_bytes(), range.range.end) == Some(e as int)
                    &&& s <= e <= self.text_bytes().len()
                    &&& is_char_boundary(self.text_bytes(), s as int)
                    &&& is_char_boundary(self.text_bytes(), e as int)
                },
                Err(err) => {
                    if range.side != DiffSide::Head {
                        err matches SuggestionError::UnsupportedSide { path, side } && path@
                            == range.path@ && side == range.side
                    } else if offset_ok(self.text_bytes(), range.range.start) is None {
                        offset_err_matches(self.text_bytes(), range.range.start, err)
                    } else if offset_ok(self.text_bytes(), range.range.end) is None {
                        offset_err_matches(self.text_bytes(), range.range.end, err)
                    } else {
                        err matches SuggestionError::InvalidRange { path, start, end } && path@
                            == range.path@ && Some(start as int) == offset_ok(
                            self.text_bytes(),
                            range.range.start,
                        ) && Some(end as int) == offset_ok(self.text_bytes(), range.range.end)
                            && start > end
                    }
                },
            },
    {
        if range.side != DiffSide::Head {
            return Err(SuggestionError::UnsupportedSide {
                path: range.path.clone(),
                side: range.side,
            });
        }

        let start = match self.offset(&range.range.start) {
            Ok(v) => v,
            Err(e) => {
                return Err(e);
            },
        };
        let end = match self.offset(&range.range.end) {
            Ok(v) => v,
            Err(e) => {
                return Err(e);
            },
        };

        if start > end {
            return Err(SuggestionError::InvalidRange { path: range.path.clone(), start, end });
        }

        Ok((start, end))
    }
}

} // verus!

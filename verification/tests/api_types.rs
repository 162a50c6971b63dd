use prism_core::api::diff::{DiffLineKind, DiffRange, DiffStats, LineHighlight};
use prism_core::api::review::{DiffSide, Position, Range};

#[test]
fn diff_stats_add() {
    let aggregate = DiffStats::new(5, 3).add(DiffStats::new(2, 4));
    assert_eq!(
        aggregate,
        DiffStats {
            additions: 7,
            deletions: 7
        }
    );
}

#[test]
fn diff_range_is_copy() {
    let range = DiffRange {
        base_start: 1,
        base_lines: 2,
        head_start: 3,
        head_lines: 4,
    };
    let copied = range;
    assert_eq!(copied.base_start, 1);
}

#[test]
fn line_highlight_bounds() {
    let highlight = LineHighlight {
        start_column: 0,
        end_column: 5,
    };
    assert!(highlight.start_column < highlight.end_column);
}

#[test]
fn diff_side_mapping() {
    assert_eq!(
        DiffSide::from_line_kind(DiffLineKind::Addition),
        DiffSide::Head
    );
    assert_eq!(
        DiffSide::from_line_kind(DiffLineKind::Deletion),
        DiffSide::Base
    );
    assert_eq!(
        DiffSide::from_line_kind(DiffLineKind::Context),
        DiffSide::Base
    );
}

#[test]
fn range_constructor() {
    let range = Range::new(Position::new(1, None), Position::new(1, Some(1)));
    assert_eq!(range.start.line, 1);
    assert_eq!(range.end.column, Some(1));
}

#[test]
fn stats_zero_is_empty() {
    let zero = DiffStats::zero();
    assert_eq!(zero.additions, 0);
    assert_eq!(zero.deletions, 0);
}

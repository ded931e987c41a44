use fastwave_core::compositor::compose_timeline;
use fastwave_core::store::RawChange;
use fastwave_core::timeline::{Timeline, TimelineBlock};

fn change(time_index: u32, value: &str) -> RawChange {
    RawChange { time_index, value: value.to_string() }
}

fn assert_ordered_and_bounded(tl: &Timeline, viewport_width: u32) {
    assert!(tl.blocks.len() <= viewport_width as usize);
    for w in tl.blocks.windows(2) {
        assert!(w[0].x + w[0].width as i32 <= w[1].x);
        assert!(w[0].x <= w[1].x);
    }
    for b in &tl.blocks {
        assert!(b.x >= 0);
        assert!(b.width >= 1);
        assert!(b.x as i64 + b.width as i64 <= viewport_width as i64);
    }
}

fn label_text(b: &TimelineBlock) -> &str {
    b.label.as_ref().expect("block should carry a label").text.as_str()
}

#[test]
fn scenario_four_changes_four_blocks() {
    // Changes at time-indices 0, 5, 10 and 20 against a time table with one
    // entry every ten ticks, rendered at ten ticks per pixel over a
    // forty-pixel viewport starting at time zero, with no decoder loaded:
    // four blocks, one per change, labelled with the raw values, and the
    // block count bounded by the viewport width.
    let changes = vec![change(0, "0"), change(5, "1"), change(10, "0"), change(20, "1")];
    let time_table: Vec<u64> = (0..=20u64).map(|i| i * 10).collect();
    let tl = compose_timeline(&changes, &time_table, 10, 40, 0, 20);

    assert_eq!(tl.blocks.len(), 4);
    assert!(tl.blocks.len() <= 40);
    let xs: Vec<i32> = tl.blocks.iter().map(|b| b.x).collect();
    let widths: Vec<u32> = tl.blocks.iter().map(|b| b.width).collect();
    assert_eq!(xs, vec![0, 5, 10, 20]);
    assert_eq!(widths, vec![5, 5, 10, 20]);
    let labels: Vec<&str> = tl.blocks.iter().map(label_text).collect();
    assert_eq!(labels, vec!["0", "1", "0", "1"]);
    for b in &tl.blocks {
        assert_eq!(b.height, 20);
    }
    assert_ordered_and_bounded(&tl, 40);
}

#[test]
fn zero_zoom_gives_empty_timeline_not_error() {
    let changes = vec![change(0, "1")];
    let time_table: Vec<u64> = vec![0];
    let tl = compose_timeline(&changes, &time_table, 0, 40, 0, 20);
    assert!(tl.blocks.is_empty());
}

#[test]
fn zero_viewport_width_gives_empty_timeline() {
    let changes = vec![change(0, "1")];
    let time_table: Vec<u64> = vec![0];
    let tl = compose_timeline(&changes, &time_table, 1, 0, 0, 20);
    assert!(tl.blocks.is_empty());
}

#[test]
fn carry_over_spans_whole_viewport() {
    // One change at time-index zero, viewed with the viewport shifted well
    // to the right of it: the value is carried over into a single block
    // covering the whole viewport.
    let changes = vec![change(0, "A")];
    let time_table: Vec<u64> = vec![0];
    let tl = compose_timeline(&changes, &time_table, 3, 25, 7, 16);
    assert_eq!(tl.blocks.len(), 1);
    assert_eq!(tl.blocks[0].x, 0);
    assert_eq!(tl.blocks[0].width, 25);
    assert_eq!(label_text(&tl.blocks[0]), "A");
    let l = tl.blocks[0].label.as_ref().unwrap();
    assert_eq!(l.x, 25 / 2);
    assert_eq!(l.y, 16 / 2);
}

#[test]
fn stress_change_on_every_time_index_stays_bounded() {
    // A change on every time-index: the block count is bounded by the
    // viewport width no matter how many raw changes are in range.
    let n: u32 = 500;
    let changes: Vec<RawChange> =
        (0..n).map(|i| change(i, if i % 2 == 0 { "a" } else { "b" })).collect();
    let time_table: Vec<u64> = (0..n as u64).collect();
    let tl = compose_timeline(&changes, &time_table, 1, 10, 0, 8);
    assert!(tl.blocks.len() <= 10);
    assert_ordered_and_bounded(&tl, 10);
}

#[test]
fn one_pixel_column_coalesces_to_last_value() {
    // Two changes land on the same pixel column: one block, and the later
    // change's value wins the column.
    let changes = vec![change(0, "x"), change(1, "y")];
    let time_table: Vec<u64> = vec![0, 1];
    let tl = compose_timeline(&changes, &time_table, 10, 5, 0, 8);
    assert_eq!(tl.blocks.len(), 1);
    assert_eq!(tl.blocks[0].x, 0);
    assert_eq!(tl.blocks[0].width, 5);
    assert_eq!(label_text(&tl.blocks[0]), "y");
}

#[test]
fn narrow_blocks_carry_no_label() {
    // Blocks narrower than the label threshold stay unlabelled.
    let changes = vec![change(0, "p"), change(1, "q")];
    let time_table: Vec<u64> = vec![0, 2];
    let tl = compose_timeline(&changes, &time_table, 1, 8, 0, 8);
    assert_eq!(tl.blocks.len(), 2);
    assert_eq!(tl.blocks[0].width, 2);
    assert!(tl.blocks[0].label.is_none());
    assert_eq!(tl.blocks[1].width, 6);
    assert_eq!(label_text(&tl.blocks[1]), "q");
}

#[test]
fn leading_gap_before_first_change_stays_unblocked() {
    // The first change lies inside the viewport: the space left of it is
    // not covered by any block.
    let changes = vec![change(0, "v")];
    let time_table: Vec<u64> = vec![50];
    let tl = compose_timeline(&changes, &time_table, 1, 100, 0, 8);
    assert_eq!(tl.blocks.len(), 1);
    assert_eq!(tl.blocks[0].x, 50);
    assert_eq!(tl.blocks[0].width, 50);
}

#[test]
fn change_beyond_right_edge_is_not_rendered() {
    let changes = vec![change(0, "in"), change(1, "out")];
    let time_table: Vec<u64> = vec![0, 1000];
    let tl = compose_timeline(&changes, &time_table, 1, 20, 0, 8);
    assert_eq!(tl.blocks.len(), 1);
    assert_eq!(tl.blocks[0].x, 0);
    assert_eq!(tl.blocks[0].width, 20);
    assert_eq!(label_text(&tl.blocks[0]), "in");
}

#[test]
fn empty_series_gives_empty_timeline() {
    let changes: Vec<RawChange> = Vec::new();
    let time_table: Vec<u64> = vec![0, 1, 2];
    let tl = compose_timeline(&changes, &time_table, 1, 40, 0, 8);
    assert!(tl.blocks.is_empty());
}

#[test]
fn coarser_zoom_never_adds_blocks() {
    // Zoom monotonicity on a concrete series: every change is visible at
    // the finer zoom, and multiplying the zoom compresses columns, so the
    // block count cannot grow.
    let changes: Vec<RawChange> =
        (0..21u32).map(|i| change(i, if i % 2 == 0 { "lo" } else { "hi" })).collect();
    let time_table: Vec<u64> = (0..21u64).collect();
    let fine = compose_timeline(&changes, &time_table, 1, 100, 0, 8);
    let coarse = compose_timeline(&changes, &time_table, 5, 100, 0, 8);
    assert!(coarse.blocks.len() <= fine.blocks.len());
    assert_eq!(fine.blocks.len(), 21);
    assert_eq!(coarse.blocks.len(), 5);
    assert_ordered_and_bounded(&fine, 100);
    assert_ordered_and_bounded(&coarse, 100);
}

#[test]
fn negative_viewport_offset_shifts_blocks_right() {
    // A viewport whose left edge lies left of time zero: the change at
    // time zero appears at a positive column.
    let changes = vec![change(0, "z")];
    let time_table: Vec<u64> = vec![0];
    let tl = compose_timeline(&changes, &time_table, 1, 30, -10, 8);
    assert_eq!(tl.blocks.len(), 1);
    assert_eq!(tl.blocks[0].x, 10);
    assert_eq!(tl.blocks[0].width, 20);
}

use vstd::prelude::*;
use vstd::arithmetic::div_mod::{lemma_div_is_ordered, lemma_div_is_ordered_by_denominator};
use crate::store::{RawChange, changes_wf, changes_within, table_sorted};
use crate::timeline::{
    Timeline, TimelineBlock, TimeLineBlockLabel, BlockModel, blocks_ordered,
};

verus! {

/// Blocks narrower than this many pixels carry no label (policy value).
pub const MIN_LABEL_WIDTH: u32 = 4;

/// Pixel column of absolute time `t` before clamping.  Time-to-pixel is
/// linear: `zoom` is the number of time-table ticks that one pixel covers,
/// and `vx` is the viewport's left edge in absolute pixels.
pub open spec fn raw_col(t: u64, zoom: int, vx: int) -> int
    recommends
        zoom >= 1,
{
    t as int / zoom - vx
}

/// Pixel column of absolute time `t`, clamped to the viewport's left edge:
/// a change at or before the left edge is carried over into column 0.
pub open spec fn col(t: u64, zoom: int, vx: int) -> int
    recommends
        zoom >= 1,
{
    if raw_col(t, zoom, vx) < 0 {
        0
    } else {
        raw_col(t, zoom, vx)
    }
}

/// Absolute time of a change, through the time table.
pub open spec fn change_time(c: RawChange, table: Seq<u64>) -> u64
    recommends
        c.time_index < table.len(),
{
    table[c.time_index as int]
}

/// The block sequence the compositor produces, one change at a time.
/// `cur` is the block opened by the last visible change (its clamped start
/// column and its value), still waiting for its right edge.  A change that
/// maps to the column where the open block starts replaces its value
/// instead of emitting a zero-width block (coalescing); a change at or
/// beyond the right edge closes the open block at the viewport's width.
pub open spec fn block_run(
    cs: Seq<RawChange>,
    table: Seq<u64>,
    zoom: int,
    vx: int,
    width: int,
    cur: Option<(int, Seq<char>)>,
) -> Seq<BlockModel>
    decreases cs.len(),
{
    if cs.len() == 0 {
        match cur {
            None => Seq::<BlockModel>::empty(),
            Some(sv) => seq![(BlockModel { x: sv.0, width: width - sv.0, value: sv.1 })],
        }
    } else {
        let x = raw_col(change_time(cs[0], table), zoom, vx);
        if x >= width {
            match cur {
                None => Seq::<BlockModel>::empty(),
                Some(sv) => seq![(BlockModel { x: sv.0, width: width - sv.0, value: sv.1 })],
            }
        } else {
            let cx = if x < 0 {
                0
            } else {
                x
            };
            let rest = block_run(cs.drop_first(), table, zoom, vx, width, Some((cx, cs[0].value@)));
            match cur {
                None => rest,
                Some(sv) => if cx > sv.0 {
                    seq![(BlockModel { x: sv.0, width: cx - sv.0, value: sv.1 })] + rest
                } else {
                    rest
                },
            }
        }
    }
}

/// All blocks of the timeline for one viewport.
pub open spec fn timeline_blocks(
    cs: Seq<RawChange>,
    table: Seq<u64>,
    zoom: int,
    vx: int,
    width: int,
) -> Seq<BlockModel> {
    block_run(cs, table, zoom, vx, width, None)
}

/// An executable block realizes its model when geometry agrees and the
/// label policy is applied: blocks at least `MIN_LABEL_WIDTH` wide carry
/// the raw value as text, centred; narrower blocks carry no label.
pub open spec fn block_matches(b: TimelineBlock, m: BlockModel, block_height: u32) -> bool {
    &&& b.x == m.x
    &&& b.width == m.width
    &&& b.height == block_height
    &&& (m.width >= MIN_LABEL_WIDTH ==> (b.label matches Some(l) && l.text@ == m.value
        && l.x == b.width / 2 && l.y == block_height / 2))
    &&& (m.width < MIN_LABEL_WIDTH ==> b.label is None)
}

pub open spec fn blocks_match(bs: Seq<TimelineBlock>, ms: Seq<BlockModel>, block_height: u32) -> bool {
    &&& bs.len() == ms.len()
    &&& forall|i: int| 0 <= i < bs.len() ==> block_matches(bs[i], ms[i], block_height)
}

/// A well-formed change series stays well-formed when its head is dropped,
/// and the head's column bounds every later change's column.
proof fn lemma_suffix_wf(cs: Seq<RawChange>, table: Seq<u64>, zoom: int, vx: int)
    requires
        zoom >= 1,
        cs.len() > 0,
        changes_wf(cs),
        changes_within(cs, table.len() as int),
        table_sorted(table),
    ensures
        changes_wf(cs.drop_first()),
        changes_within(cs.drop_first(), table.len() as int),
        cs.drop_first().len() > 0 ==> col(change_time(cs[0], table), zoom, vx) <= col(
            change_time(cs.drop_first()[0], table),
            zoom,
            vx,
        ),
{
    let rest = cs.drop_first();
    assert forall|i: int, j: int| 0 <= i < j < rest.len() implies rest[i].time_index
        < rest[j].time_index by {
        assert(rest[i] == cs[i + 1]);
        assert(rest[j] == cs[j + 1]);
    }
    assert forall|i: int| 0 <= i < rest.len() - 1 implies #[trigger] rest[i].value@ != rest[i
        + 1].value@ by {
        assert(rest[i] == cs[i + 1]);
        assert(rest[i + 1] == cs[i + 2]);
        assert(cs[i + 1].value@ != cs[i + 2].value@);
    }
    assert forall|i: int| 0 <= i < rest.len() implies rest[i].time_index < table.len() by {
        assert(rest[i] == cs[i + 1]);
    }
    if rest.len() > 0 {
        assert(rest[0] == cs[1]);
        assert(cs[0].time_index < cs[1].time_index);
        lemma_col_monotone(change_time(cs[0], table), change_time(cs[1], table), zoom, vx);
    }
}

/// Block ordering, exact tiling and bounded output for every run of the
/// compositor: blocks are x-ascending and non-overlapping, each is at
/// least one pixel wide, every block lies inside the viewport, and the
/// run emits at most `width` minus the open block's start column blocks.
pub proof fn lemma_block_run_tiles(
    cs: Seq<RawChange>,
    table: Seq<u64>,
    zoom: int,
    vx: int,
    width: int,
    cur: Option<(int, Seq<char>)>,
)
    requires
        zoom >= 1,
        width >= 1,
        changes_wf(cs),
        changes_within(cs, table.len() as int),
        table_sorted(table),
        cur matches Some(sv) ==> 0 <= sv.0 < width,
        cur matches Some(sv) ==> (cs.len() > 0 ==> sv.0 <= col(
            change_time(cs[0], table),
            zoom,
            vx,
        )),
    ensures
        ({
            let ms = block_run(cs, table, zoom, vx, width, cur);
            &&& forall|a: int, b: int|
                0 <= a < b < ms.len() ==> #[trigger] ms[a].x + ms[a].width <= #[trigger] ms[b].x
            &&& forall|a: int|
                0 <= a < ms.len() - 1 ==> #[trigger] ms[a].x + ms[a].width == ms[a + 1].x
            &&& forall|a: int|
                0 <= a < ms.len() ==> (#[trigger] ms[a].width >= 1 && ms[a].x >= 0 && ms[a].x
                    + ms[a].width <= width)
            &&& ms.len() + (match cur {
                Some(sv) => sv.0,
                None => 0,
            }) <= width
            &&& (cur matches Some(sv) ==> ms.len() >= 1 && ms[0].x == sv.0)
        }),
    decreases cs.len(),
{
    let ms = block_run(cs, table, zoom, vx, width, cur);
    if cs.len() == 0 {
        // The open block, if any, runs to the right edge.
    } else {
        let x = raw_col(change_time(cs[0], table), zoom, vx);
        if x >= width {
            // Nothing more is visible; same as the empty case.
        } else {
            let cx = if x < 0 {
                0
            } else {
                x
            };
            lemma_suffix_wf(cs, table, zoom, vx);
            lemma_block_run_tiles(
                cs.drop_first(),
                table,
                zoom,
                vx,
                width,
                Some((cx, cs[0].value@)),
            );
            let rest = block_run(cs.drop_first(), table, zoom, vx, width, Some((cx, cs[0].value@)));
            match cur {
                None => {
                    assert(ms =~= rest);
                },
                Some(sv) => {
                    if cx > sv.0 {
                        let m = BlockModel { x: sv.0, width: cx - sv.0, value: sv.1 };
                        assert(ms =~= seq![m] + rest);
                        assert(ms[0] == m);
                        assert forall|a: int, b: int| 0 <= a < b < ms.len() implies #[trigger] ms[a].x
                            + ms[a].width <= #[trigger] ms[b].x by {
                            if a == 0 {
                                assert(ms[b] == rest[b - 1]);
                                if b - 1 > 0 {
                                    assert(rest[0].x + rest[0].width <= rest[b - 1].x);
                                    assert(rest[0].width >= 1);
                                }
                                assert(rest[0].x == cx);
                            } else {
                                assert(ms[a] == rest[a - 1]);
                                assert(ms[b] == rest[b - 1]);
                            }
                        }
                        assert forall|a: int| 0 <= a < ms.len() implies (#[trigger] ms[a].width >= 1
                            && ms[a].x >= 0 && ms[a].x + ms[a].width <= width) by {
                            if a > 0 {
                                assert(ms[a] == rest[a - 1]);
                            }
                        }
                    } else {
                        assert(ms =~= rest);
                        assert(cx == sv.0);
                    }
                },
            }
        }
    }
}

/// Transfers ordering and bounded output from the block models to the
/// executable blocks that realize them.
proof fn lemma_exec_blocks_ordered(
    bs: Seq<TimelineBlock>,
    cs: Seq<RawChange>,
    table: Seq<u64>,
    zoom: int,
    vx: int,
    width: int,
    block_height: u32,
)
    requires
        zoom >= 1,
        width >= 1,
        changes_wf(cs),
        changes_within(cs, table.len() as int),
        table_sorted(table),
        blocks_match(bs, timeline_blocks(cs, table, zoom, vx, width), block_height),
    ensures
        blocks_ordered(bs),
        bs.len() <= width,
{
    let ms = timeline_blocks(cs, table, zoom, vx, width);
    lemma_block_run_tiles(cs, table, zoom, vx, width, None);
    assert forall|a: int, b: int| 0 <= a < b < bs.len() implies bs[a].x + bs[a].width
        <= bs[b].x by {
        assert(block_matches(bs[a], ms[a], block_height));
        assert(block_matches(bs[b], ms[b], block_height));
        assert(ms[a].x + ms[a].width <= ms[b].x);
    }
}

/// Carry-over correctness: a single change at time-index zero (the time
/// table starts at absolute time zero), viewed at any positive viewport
/// offset, still produces exactly one block spanning the whole viewport
/// and carrying that change's value.
pub proof fn lemma_carry_over(c: RawChange, table: Seq<u64>, zoom: int, vx: int, width: int)
    requires
        zoom >= 1,
        width >= 1,
        vx > 0,
        c.time_index == 0,
        table.len() >= 1,
        table[0] == 0,
        table_sorted(table),
    ensures
        timeline_blocks(seq![c], table, zoom, vx, width) == seq![
            (BlockModel { x: 0, width: width, value: c.value@ }),
        ],
{
    let cs = seq![c];
    assert(cs[0] == c);
    assert(change_time(cs[0], table) == 0);
    vstd::arithmetic::div_mod::lemma_div_of0(zoom);
    assert(raw_col(0, zoom, vx) == -vx);
    assert(raw_col(0, zoom, vx) < width);
    assert(cs.drop_first() =~= Seq::<RawChange>::empty());
    assert(block_run(cs.drop_first(), table, zoom, vx, width, Some((0, c.value@))) =~= seq![
        (BlockModel { x: 0, width: width, value: c.value@ }),
    ]);
}

/// Every change of the series is strictly left of the viewport's right
/// edge at this zoom (changes at or left of the left edge clamp to
/// column zero and are still counted as visible).
pub open spec fn all_visible(
    cs: Seq<RawChange>,
    table: Seq<u64>,
    zoom: int,
    vx: int,
    width: int,
) -> bool {
    forall|i: int|
        0 <= i < cs.len() ==> raw_col(change_time(cs[i], table), zoom, vx) < width
}

/// The column a change lands on after the zoom is coarsened by the integer
/// factor `k`, as a function of the column it landed on before.
pub open spec fn coarse_col(s: int, k: int, vx: int) -> int
    recommends
        k >= 1,
        s >= 0,
{
    let u = (s + vx) / k - vx;
    if u < 0 {
        0
    } else {
        u
    }
}

/// Coarsening the zoom by the factor `k` maps each clamped column through
/// `coarse_col`.
proof fn lemma_coarse_col_decomposes(t: u64, zoom: int, k: int, vx: int)
    requires
        zoom >= 1,
        k >= 1,
    ensures
        col(t, zoom * k, vx) == coarse_col(col(t, zoom, vx), k, vx),
{
    assert(zoom * k >= 1) by (nonlinear_arith)
        requires
            zoom >= 1,
            k >= 1,
    ;
    let q = t as int / zoom;
    vstd::arithmetic::div_mod::lemma_div_pos_is_pos(t as int, zoom);
    vstd::arithmetic::div_mod::lemma_div_denominator(t as int, zoom, k);
    if q > vx {
        assert(col(t, zoom, vx) == q - vx);
        assert(col(t, zoom, vx) + vx == q);
    } else {
        assert(col(t, zoom, vx) == 0);
        assert(vx >= 0);
        vstd::arithmetic::div_mod::lemma_div_nonincreasing(q, k);
        vstd::arithmetic::div_mod::lemma_div_nonincreasing(vx, k);
        assert(q / k <= vx);
        assert(col(t, zoom * k, vx) == 0);
        assert(coarse_col(0, k, vx) == 0);
    }
}

/// `coarse_col` is monotone and never moves a column to the right.
proof fn lemma_coarse_col_monotone(s1: int, s2: int, k: int, vx: int)
    requires
        k >= 1,
        0 <= s1 <= s2,
        s1 + vx >= 0,
    ensures
        coarse_col(s1, k, vx) <= coarse_col(s2, k, vx),
        coarse_col(s1, k, vx) <= s1,
{
    lemma_div_is_ordered(s1 + vx, s2 + vx, k);
    vstd::arithmetic::div_mod::lemma_div_nonincreasing(s1 + vx, k);
}

/// Coarsening the zoom never increases the number of blocks a run emits,
/// as long as every change is visible at the finer zoom.
proof fn lemma_block_run_coarsen(
    cs: Seq<RawChange>,
    table: Seq<u64>,
    zoom: int,
    k: int,
    vx: int,
    width: int,
    s1: int,
    s2: int,
    v1: Seq<char>,
    v2: Seq<char>,
)
    requires
        zoom >= 1,
        k >= 1,
        width >= 1,
        changes_wf(cs),
        changes_within(cs, table.len() as int),
        table_sorted(table),
        all_visible(cs, table, zoom, vx, width),
        0 <= s1 < width,
        s1 + vx >= 0,
        s2 == coarse_col(s1, k, vx),
        cs.len() > 0 ==> s1 <= col(change_time(cs[0], table), zoom, vx),
    ensures
        block_run(cs, table, zoom * k, vx, width, Some((s2, v2))).len() <= block_run(
            cs,
            table,
            zoom,
            vx,
            width,
            Some((s1, v1)),
        ).len(),
    decreases cs.len(),
{
    assert(zoom * k >= zoom) by (nonlinear_arith)
        requires
            zoom >= 1,
            k >= 1,
    ;
    if cs.len() == 0 {
        // Both runs close their open block: one block each.
    } else {
        let t = change_time(cs[0], table);
        let q = t as int / zoom;
        vstd::arithmetic::div_mod::lemma_div_pos_is_pos(t as int, zoom);
        lemma_div_is_ordered_by_denominator(t as int, zoom, zoom * k);
        assert(raw_col(t, zoom * k, vx) <= raw_col(t, zoom, vx));
        assert(raw_col(t, zoom, vx) < width);
        let c1 = col(t, zoom, vx);
        let c2 = col(t, zoom * k, vx);
        lemma_coarse_col_decomposes(t, zoom, k, vx);
        assert(c1 + vx >= 0) by {
            if raw_col(t, zoom, vx) >= 0 {
                assert(c1 + vx == q);
            } else {
                assert(c1 == 0);
                assert(vx > q);
            }
        }
        lemma_coarse_col_monotone(s1, c1, k, vx);
        lemma_suffix_wf(cs, table, zoom, vx);
        let rest = cs.drop_first();
        assert forall|i: int|
            0 <= i < rest.len() implies raw_col(change_time(rest[i], table), zoom, vx)
            < width by {
            assert(rest[i] == cs[i + 1]);
        }
        lemma_block_run_coarsen(
            rest,
            table,
            zoom,
            k,
            vx,
            width,
            c1,
            c2,
            cs[0].value@,
            cs[0].value@,
        );
        let rest1 = block_run(rest, table, zoom, vx, width, Some((c1, cs[0].value@)));
        let rest2 = block_run(rest, table, zoom * k, vx, width, Some((c2, cs[0].value@)));
        if c1 > s1 {
            let m1 = BlockModel { x: s1, width: c1 - s1, value: v1 };
            assert(block_run(cs, table, zoom, vx, width, Some((s1, v1))) =~= seq![m1] + rest1);
            if c2 > s2 {
                let m2 = BlockModel { x: s2, width: c2 - s2, value: v2 };
                assert(block_run(cs, table, zoom * k, vx, width, Some((s2, v2))) =~= seq![m2]
                    + rest2);
            } else {
                assert(block_run(cs, table, zoom * k, vx, width, Some((s2, v2))) =~= rest2);
            }
        } else {
            assert(c1 == s1);
            assert(c2 == s2);
            assert(block_run(cs, table, zoom, vx, width, Some((s1, v1))) =~= rest1);
            assert(block_run(cs, table, zoom * k, vx, width, Some((s2, v2))) =~= rest2);
        }
    }
}

/// Zoom monotonicity: for a fixed viewport, coarsening the zoom (more
/// time per pixel) by an integer factor never increases the number of
/// blocks, provided every change of the series is visible at the finer
/// zoom.  (Without that proviso a coarser zoom can pull changes from
/// beyond the right edge into view and add blocks.)
pub proof fn lemma_zoom_coarsen(
    cs: Seq<RawChange>,
    table: Seq<u64>,
    zoom: int,
    k: int,
    vx: int,
    width: int,
)
    requires
        zoom >= 1,
        k >= 1,
        width >= 1,
        changes_wf(cs),
        changes_within(cs, table.len() as int),
        table_sorted(table),
        all_visible(cs, table, zoom, vx, width),
    ensures
        timeline_blocks(cs, table, zoom * k, vx, width).len() <= timeline_blocks(
            cs,
            table,
            zoom,
            vx,
            width,
        ).len(),
{
    assert(zoom * k >= zoom) by (nonlinear_arith)
        requires
            zoom >= 1,
            k >= 1,
    ;
    if cs.len() == 0 {
    } else {
        let t = change_time(cs[0], table);
        let q = t as int / zoom;
        vstd::arithmetic::div_mod::lemma_div_pos_is_pos(t as int, zoom);
        lemma_div_is_ordered_by_denominator(t as int, zoom, zoom * k);
        assert(raw_col(t, zoom, vx) < width);
        let c1 = col(t, zoom, vx);
        let c2 = col(t, zoom * k, vx);
        lemma_coarse_col_decomposes(t, zoom, k, vx);
        assert(c1 + vx >= 0) by {
            if raw_col(t, zoom, vx) >= 0 {
                assert(c1 + vx == q);
            } else {
                assert(c1 == 0);
                assert(vx > q);
            }
        }
        lemma_suffix_wf(cs, table, zoom, vx);
        let rest = cs.drop_first();
        assert forall|i: int|
            0 <= i < rest.len() implies raw_col(change_time(rest[i], table), zoom, vx)
            < width by {
            assert(rest[i] == cs[i + 1]);
        }
        lemma_block_run_coarsen(
            rest,
            table,
            zoom,
            k,
            vx,
            width,
            c1,
            c2,
            cs[0].value@,
            cs[0].value@,
        );
        assert(timeline_blocks(cs, table, zoom, vx, width) =~= block_run(
            rest,
            table,
            zoom,
            vx,
            width,
            Some((c1, cs[0].value@)),
        ));
        assert(timeline_blocks(cs, table, zoom * k, vx, width) =~= block_run(
            rest,
            table,
            zoom * k,
            vx,
            width,
            Some((c2, cs[0].value@)),
        ));
    }
}

/// Clamped columns never decrease along ascending times.
proof fn lemma_col_monotone(t1: u64, t2: u64, zoom: int, vx: int)
    requires
        zoom >= 1,
        t1 <= t2,
    ensures
        raw_col(t1, zoom, vx) <= raw_col(t2, zoom, vx),
        col(t1, zoom, vx) <= col(t2, zoom, vx),
{
    lemma_div_is_ordered(t1 as int, t2 as int, zoom);
}

fn make_block(sx: i64, w: i64, value: &String, block_height: u32) -> (b: TimelineBlock)
    requires
        0 <= sx < 0x8000_0000,
        1 <= w <= 0x8000_0000,
    ensures
        block_matches(b, BlockModel { x: sx as int, width: w as int, value: value@ }, block_height),
{
    let wu: u32 = w as u32;
    let label: Option<TimeLineBlockLabel> = if wu >= MIN_LABEL_WIDTH {
        Some(TimeLineBlockLabel { text: value.clone(), x: wu / 2, y: block_height / 2 })
    } else {
        None
    };
    TimelineBlock { x: sx as i32, width: wu, height: block_height, label }
}

/// Maps a signal's change series onto pixel space for one viewport.
///
/// A zero zoom or a zero viewport width cannot be mapped to a time range;
/// by design the result is then an empty timeline rather than an error.
/// Otherwise the blocks realize `timeline_blocks`: the latest change at or
/// before the viewport's left edge is carried over into column 0, changes
/// that fall on one pixel column are coalesced into a single block (the
/// last value wins the column), and the last visible value runs to the
/// viewport's right edge.
pub fn compose_timeline(
    changes: &Vec<RawChange>,
    time_table: &Vec<u64>,
    zoom: u64,
    viewport_width: u32,
    viewport_x: i32,
    block_height: u32,
) -> (tl: Timeline)
    requires
        changes_wf(changes@),
        changes_within(changes@, time_table@.len() as int),
        table_sorted(time_table@),
        viewport_width <= 0x7fff_ffff,
    ensures
        (zoom == 0 || viewport_width == 0) ==> tl.blocks@.len() == 0,
        (zoom >= 1 && viewport_width >= 1) ==> blocks_match(
            tl.blocks@,
            timeline_blocks(
                changes@,
                time_table@,
                zoom as int,
                viewport_x as int,
                viewport_width as int,
            ),
            block_height,
        ),
        blocks_ordered(tl.blocks@),
        tl.blocks@.len() <= viewport_width,
{
    let mut blocks: Vec<TimelineBlock> = Vec::new();
    if zoom == 0 || viewport_width == 0 {
        return Timeline { blocks };
    }
    let width: i64 = viewport_width as i64;
    let vx: i64 = viewport_x as i64;
    let ghost gz: int = zoom as int;
    let ghost gvx: int = viewport_x as int;
    let ghost gw: int = viewport_width as int;
    let ghost ms: Seq<BlockModel> = timeline_blocks(changes@, time_table@, gz, gvx, gw);

    let mut have_cur: bool = false;
    let mut cur_x: i64 = 0;
    let mut cur_j: usize = 0;
    let mut i: usize = 0;
    proof {
        assert(changes@.skip(0) =~= changes@);
        assert(ms.skip(0) =~= ms);
        assert(ms.take(0) =~= Seq::<BlockModel>::empty());
    }
    while i < changes.len()
        invariant
            changes_wf(changes@),
            changes_within(changes@, time_table@.len() as int),
            table_sorted(time_table@),
            1 <= zoom,
            1 <= viewport_width <= 0x7fff_ffff,
            width == viewport_width as i64,
            vx == viewport_x as i64,
            gz == zoom as int,
            gvx == viewport_x as int,
            gw == viewport_width as int,
            ms == timeline_blocks(changes@, time_table@, gz, gvx, gw),
            0 <= i <= changes@.len(),
            !have_cur ==> i == 0 && blocks@.len() == 0,
            have_cur ==> cur_j < i,
            have_cur ==> 0 <= cur_x < width,
            have_cur ==> cur_x as int == col(change_time(changes@[cur_j as int], time_table@), gz, gvx),
            blocks@.len() <= ms.len(),
            blocks_match(blocks@, ms.take(blocks@.len() as int), block_height),
            ms.skip(blocks@.len() as int) == block_run(
                changes@.skip(i as int),
                time_table@,
                gz,
                gvx,
                gw,
                if have_cur {
                    Some((cur_x as int, changes@[cur_j as int].value@))
                } else {
                    None
                },
            ),
        decreases changes@.len() - i,
    {
        let t: u64 = time_table[changes[i].time_index as usize];
        let q: u64 = t / zoom;
        let x128: i128 = q as i128 - vx as i128;
        let ghost suffix = changes@.skip(i as int);
        let ghost curm: Option<(int, Seq<char>)> = if have_cur {
            Some((cur_x as int, changes@[cur_j as int].value@))
        } else {
            None
        };
        proof {
            assert(suffix[0] == changes@[i as int]);
            assert(x128 == raw_col(change_time(suffix[0], time_table@), gz, gvx));
            assert(suffix.drop_first() =~= changes@.skip(i as int + 1));
        }
        if x128 >= width as i128 {
            // Off the right edge: the open block, if any, runs to the edge
            // and no further block is visible.
            if have_cur {
                proof {
                    let m = BlockModel {
                        x: cur_x as int,
                        width: gw - cur_x as int,
                        value: changes@[cur_j as int].value@,
                    };
                    assert(block_run(suffix, time_table@, gz, gvx, gw, curm) =~= seq![m]);
                    let nb = blocks@.len() as int;
                    assert(ms.skip(nb) =~= seq![m]);
                    assert(ms.len() == nb + 1);
                    assert(ms.skip(nb)[0] == m);
                    assert(ms.skip(nb)[0] == ms[nb]);
                }
                let b = make_block(cur_x, width - cur_x, &changes[cur_j].value, block_height);
                blocks.push(b);
                proof {
                    let nb = blocks@.len() as int;
                    assert(ms.take(nb) =~= ms);
                    assert forall|k: int| 0 <= k < nb implies block_matches(
                        blocks@[k],
                        ms[k],
                        block_height,
                    ) by {
                        if k < nb - 1 {
                            assert(ms.take(nb - 1)[k] == ms[k]);
                        }
                    }
                }
            } else {
                proof {
                    assert(block_run(suffix, time_table@, gz, gvx, gw, curm)
                        =~= Seq::<BlockModel>::empty());
                    assert(ms.skip(blocks@.len() as int).len() == 0);
                    assert(ms.len() == blocks@.len());
                    assert(ms.take(blocks@.len() as int) =~= ms);
                }
            }
            proof {
                assert(blocks_match(blocks@, ms, block_height));
                lemma_exec_blocks_ordered(
                    blocks@,
                    changes@,
                    time_table@,
                    gz,
                    gvx,
                    gw,
                    block_height,
                );
            }
            return Timeline { blocks };
        }
        let x: i64 = if x128 < 0 {
            0i64
        } else {
            x128 as i64
        };
        proof {
            assert(x as int == col(change_time(suffix[0], time_table@), gz, gvx));
            if have_cur {
                let tj = change_time(changes@[cur_j as int], time_table@);
                assert(changes@[cur_j as int].time_index < changes@[i as int].time_index);
                assert(tj <= t);
                lemma_col_monotone(tj, t, gz, gvx);
                assert(cur_x <= x);
            }
        }
        let ghost next_curm: Option<(int, Seq<char>)> = Some((x as int, changes@[i as int].value@));
        let ghost rest = block_run(
            changes@.skip(i as int + 1),
            time_table@,
            gz,
            gvx,
            gw,
            next_curm,
        );
        if have_cur {
            if x > cur_x {
                proof {
                    let m = BlockModel {
                        x: cur_x as int,
                        width: x as int - cur_x as int,
                        value: changes@[cur_j as int].value@,
                    };
                    assert(block_run(suffix, time_table@, gz, gvx, gw, curm) =~= seq![m] + rest);
                    let nb = blocks@.len() as int;
                    assert(ms.skip(nb) =~= seq![m] + rest);
                    assert(ms.len() >= nb + 1);
                    assert(ms.skip(nb)[0] == m);
                    assert(ms.skip(nb)[0] == ms[nb]);
                    assert forall|k: int| 0 <= k < rest.len() implies ms.skip(nb + 1)[k]
                        == rest[k] by {
                        assert(ms.skip(nb)[k + 1] == rest[k]);
                        assert(ms.skip(nb)[k + 1] == ms[nb + 1 + k]);
                        assert(ms.skip(nb + 1)[k] == ms[nb + 1 + k]);
                    }
                    assert(ms.skip(nb + 1) =~= rest);
                }
                let b = make_block(cur_x, x - cur_x, &changes[cur_j].value, block_height);
                blocks.push(b);
                proof {
                    let nb = blocks@.len() as int;
                    assert forall|k: int| 0 <= k < nb implies block_matches(
                        blocks@[k],
                        ms.take(nb)[k],
                        block_height,
                    ) by {
                        if k < nb - 1 {
                            assert(ms.take(nb - 1)[k] == ms[k]);
                            assert(ms.take(nb)[k] == ms[k]);
                        } else {
                            assert(ms.take(nb)[k] == ms[k]);
                        }
                    }
                }
            } else {
                proof {
                    assert(x == cur_x);
                    assert(block_run(suffix, time_table@, gz, gvx, gw, curm) =~= rest);
                }
            }
            cur_x = x;
            cur_j = i;
        } else {
            proof {
                assert(block_run(suffix, time_table@, gz, gvx, gw, curm) =~= rest);
            }
            have_cur = true;
            cur_x = x;
            cur_j = i;
        }
        i = i + 1;
    }
    if have_cur {
        proof {
            let suffix = changes@.skip(i as int);
            assert(suffix =~= Seq::<RawChange>::empty());
            let m = BlockModel {
                x: cur_x as int,
                width: gw - cur_x as int,
                value: changes@[cur_j as int].value@,
            };
            let curm: Option<(int, Seq<char>)> = Some((
                cur_x as int,
                changes@[cur_j as int].value@,
            ));
            assert(block_run(suffix, time_table@, gz, gvx, gw, curm) =~= seq![m]);
            let nb = blocks@.len() as int;
            assert(ms.skip(nb) =~= seq![m]);
            assert(ms.len() == nb + 1);
            assert(ms.skip(nb)[0] == m);
            assert(ms.skip(nb)[0] == ms[nb]);
        }
        let b = make_block(cur_x, width - cur_x, &changes[cur_j].value, block_height);
        blocks.push(b);
        proof {
            let nb = blocks@.len() as int;
            assert(ms.take(nb) =~= ms);
            assert forall|k: int| 0 <= k < nb implies block_matches(
                blocks@[k],
                ms[k],
                block_height,
            ) by {
                if k < nb - 1 {
                    assert(ms.take(nb - 1)[k] == ms[k]);
                }
            }
        }
    } else {
        proof {
            assert(changes@.len() == 0);
            assert(changes@.skip(0) =~= changes@);
            assert(block_run(changes@, time_table@, gz, gvx, gw, None) =~= Seq::<
                BlockModel,
            >::empty());
            assert(ms.len() == 0);
            assert(ms.take(0) =~= ms);
        }
    }
    proof {
        assert(blocks_match(blocks@, ms, block_height));
        lemma_exec_blocks_ordered(blocks@, changes@, time_table@, gz, gvx, gw, block_height);
    }
    Timeline { blocks }
}

} // verus!

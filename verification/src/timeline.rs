use vstd::prelude::*;

verus! {

/// Text attached to a block that is wide enough to carry it, with the
/// pixel position of the text inside the block.
#[derive(Debug, Default)]
pub struct TimeLineBlockLabel {
    pub text: String,
    pub x: u32,
    pub y: u32,
}

/// One renderable span of the timeline: the signal holds a single value
/// over the half-open pixel range `[x, x + width)`.
#[derive(Debug, Default)]
pub struct TimelineBlock {
    pub x: i32,
    pub width: u32,
    pub height: u32,
    pub label: Option<TimeLineBlockLabel>,
}

/// The renderable result of one viewport request: blocks in ascending
/// `x` order that never overlap.
#[derive(Debug, Default)]
pub struct Timeline {
    pub blocks: Vec<TimelineBlock>,
}

/// The mathematical content of one block: where it starts, how wide it
/// is, and the raw signal value it shows.
pub ghost struct BlockModel {
    pub x: int,
    pub width: int,
    pub value: Seq<char>,
}

/// Blocks are x-ascending and non-overlapping:
/// a block ends at or before the next one starts.
pub open spec fn blocks_ordered(bs: Seq<TimelineBlock>) -> bool {
    forall|i: int, j: int| 0 <= i < j < bs.len() ==> bs[i].x + bs[i].width <= bs[j].x
}

/// Display-format selector for a signal's values.  The member set is an
/// external contract: the core forwards the selector to the formatting
/// components and does not interpret it.
#[derive(Debug, Clone, Copy, PartialEq, Eq, Structural)]
pub enum VarFormat {
    Binary,
    Hexadecimal,
    Decimal,
    Signed,
    Ascii,
}

/// The label texts of a block sequence, in block order: the values the
/// decoder chain is asked to format, one per labelled block.
pub open spec fn label_texts_of(bs: Seq<TimelineBlock>) -> Seq<Seq<char>>
    decreases bs.len(),
{
    if bs.len() == 0 {
        Seq::<Seq<char>>::empty()
    } else {
        (match bs[0].label {
            Some(l) => seq![l.text@],
            None => Seq::<Seq<char>>::empty(),
        }) + label_texts_of(bs.drop_first())
    }
}

/// Appending a block appends its label text, if it has one.
proof fn lemma_label_texts_push(bs: Seq<TimelineBlock>, b: TimelineBlock)
    ensures
        label_texts_of(bs.push(b)) == label_texts_of(bs) + (match b.label {
            Some(l) => seq![l.text@],
            None => Seq::<Seq<char>>::empty(),
        }),
    decreases bs.len(),
{
    let tail = match b.label {
        Some(l) => seq![l.text@],
        None => Seq::<Seq<char>>::empty(),
    };
    if bs.len() == 0 {
        assert(bs.push(b).drop_first() =~= Seq::<TimelineBlock>::empty());
        assert(bs.push(b)[0] == b);
        assert(label_texts_of(bs.push(b)) == tail + label_texts_of(bs.push(b).drop_first()));
        assert(label_texts_of(Seq::<TimelineBlock>::empty()) == Seq::<Seq<char>>::empty());
        assert(tail + Seq::<Seq<char>>::empty() =~= tail);
        assert(label_texts_of(bs) + tail =~= tail);
    } else {
        assert(bs.push(b).drop_first() =~= bs.drop_first().push(b));
        assert(bs.push(b)[0] == bs[0]);
        lemma_label_texts_push(bs.drop_first(), b);
        let head = match bs[0].label {
            Some(l) => seq![l.text@],
            None => Seq::<Seq<char>>::empty(),
        };
        assert(label_texts_of(bs.push(b)) == head + (label_texts_of(bs.drop_first()) + tail));
        assert(head + (label_texts_of(bs.drop_first()) + tail) =~= (head + label_texts_of(
            bs.drop_first(),
        )) + tail);
    }
}

/// Collects the label texts of a timeline, in block order: the raw values
/// that one render request hands to the decoder chain, one per labelled
/// block.
pub fn label_texts(tl: &Timeline) -> (ts: Vec<String>)
    ensures
        ts@.map_values(|s: String| s@) == label_texts_of(tl.blocks@),
{
    let mut ts: Vec<String> = Vec::new();
    let mut i: usize = 0;
    proof {
        assert(tl.blocks@.take(0) =~= Seq::<TimelineBlock>::empty());
        assert(ts@.map_values(|s: String| s@) =~= label_texts_of(tl.blocks@.take(0)));
    }
    while i < tl.blocks.len()
        invariant
            0 <= i <= tl.blocks@.len(),
            ts@.map_values(|s: String| s@) == label_texts_of(tl.blocks@.take(i as int)),
        decreases tl.blocks@.len() - i,
    {
        proof {
            assert(tl.blocks@.take(i as int + 1) =~= tl.blocks@.take(i as int).push(
                tl.blocks@[i as int],
            ));
            lemma_label_texts_push(tl.blocks@.take(i as int), tl.blocks@[i as int]);
        }
        match &tl.blocks[i].label {
            Some(l) => {
                ts.push(l.text.clone());
                proof {
                    assert(ts@.map_values(|s: String| s@) =~= label_texts_of(
                        tl.blocks@.take(i as int + 1),
                    ));
                }
            },
            None => {
                proof {
                    assert(label_texts_of(tl.blocks@.take(i as int + 1)) =~= label_texts_of(
                        tl.blocks@.take(i as int),
                    ));
                }
            },
        }
        i = i + 1;
    }
    proof {
        assert(tl.blocks@.take(tl.blocks@.len() as int) =~= tl.blocks@);
    }
    ts
}

/// Where a text stands in a list, if anywhere.
fn find_text(list: &Vec<String>, text: &String) -> (r: Option<usize>)
    ensures
        match r {
            Some(i) => i < list@.len() && list@[i as int]@ == text@,
            None => forall|j: int| 0 <= j < list@.len() ==> list@[j]@ != text@,
        },
{
    let mut i: usize = 0;
    while i < list.len()
        invariant
            i <= list@.len(),
            forall|j: int| 0 <= j < i ==> list@[j]@ != text@,
        decreases list@.len() - i,
    {
        if list[i].eq(text) {
            return Some(i);
        }
        i = i + 1;
    }
    None
}

/// Splits a batch of label texts into the distinct values, in first
/// appearance order, and for each text the position of its value in that
/// list.  The decoder chain is then invoked once per distinct visible
/// value, and `select_texts` fans the outputs back out to the blocks.
pub fn distinct_plan(texts: &Vec<String>) -> (r: (Vec<String>, Vec<usize>))
    ensures
        ({
            let (distinct, positions) = r;
            &&& positions@.len() == texts@.len()
            &&& forall|i: int, j: int|
                0 <= i < j < distinct@.len() ==> distinct@[i]@ != distinct@[j]@
            &&& forall|i: int|
                0 <= i < positions@.len() ==> (#[trigger] positions@[i]) < distinct@.len()
                    && distinct@[positions@[i] as int]@ == texts@[i]@
        }),
{
    let mut distinct: Vec<String> = Vec::new();
    let mut positions: Vec<usize> = Vec::new();
    let mut i: usize = 0;
    while i < texts.len()
        invariant
            i <= texts@.len(),
            positions@.len() == i,
            forall|a: int, b: int| 0 <= a < b < distinct@.len() ==> distinct@[a]@
                != distinct@[b]@,
            forall|a: int|
                0 <= a < positions@.len() ==> (#[trigger] positions@[a]) < distinct@.len()
                    && distinct@[positions@[a] as int]@ == texts@[a]@,
        decreases texts@.len() - i,
    {
        let ghost before = distinct@;
        match find_text(&distinct, &texts[i]) {
            Some(at) => {
                positions.push(at);
            },
            None => {
                positions.push(distinct.len());
                distinct.push(texts[i].clone());
                proof {
                    assert forall|a: int, b: int|
                        0 <= a < b < distinct@.len() implies distinct@[a]@ != distinct@[b]@ by {
                        if b < before.len() as int {
                        } else {
                            assert(distinct@[b]@ == texts@[i as int]@);
                            assert(distinct@[a]@ == before[a]@);
                        }
                    }
                    assert forall|a: int|
                        0 <= a < positions@.len() implies (#[trigger] positions@[a])
                        < distinct@.len() && distinct@[positions@[a] as int]@
                        == texts@[a]@ by {
                        if a < positions@.len() - 1 {
                            let pa = positions@[a] as int;
                            assert(distinct@[pa] == before[pa]);
                        }
                    }
                }
            },
        }
        i = i + 1;
    }
    (distinct, positions)
}

/// Fans per-distinct-value decoder outputs back out to one text per
/// labelled block, following the positions of `distinct_plan`.
pub fn select_texts(outputs: &Vec<String>, positions: &Vec<usize>) -> (r: Vec<String>)
    requires
        forall|i: int| 0 <= i < positions@.len() ==> (#[trigger] positions@[i]) < outputs@.len(),
    ensures
        r@.len() == positions@.len(),
        forall|i: int| 0 <= i < r@.len() ==> r@[i]@ == outputs@[positions@[i] as int]@,
{
    let mut r: Vec<String> = Vec::new();
    let mut i: usize = 0;
    while i < positions.len()
        invariant
            i <= positions@.len(),
            r@.len() == i,
            forall|a: int| 0 <= a < positions@.len() ==> (#[trigger] positions@[a])
                < outputs@.len(),
            forall|a: int| 0 <= a < i ==> r@[a]@ == outputs@[positions@[a] as int]@,
        decreases positions@.len() - i,
    {
        r.push(outputs[positions[i]].clone());
        i = i + 1;
    }
    r
}

/// Two blocks agree on everything but the text of their label: same
/// geometry, a label on the same side, and the same label position.
pub open spec fn same_shape(a: TimelineBlock, b: TimelineBlock) -> bool {
    &&& a.x == b.x
    &&& a.width == b.width
    &&& a.height == b.height
    &&& (a.label is Some <==> b.label is Some)
    &&& (a.label matches Some(la) ==> (b.label matches Some(lb) && la.x == lb.x && la.y
        == lb.y))
}

/// Replaces the text of each labelled block, in order, with the
/// corresponding entry of `texts` — the decoder chain's output for the
/// block's raw value.  Geometry, label positions and which blocks carry a
/// label are untouched.
pub fn with_label_texts(tl: &Timeline, texts: Vec<String>) -> (r: Timeline)
    requires
        texts@.len() == label_texts_of(tl.blocks@).len(),
    ensures
        r.blocks@.len() == tl.blocks@.len(),
        forall|i: int| 0 <= i < r.blocks@.len() ==> same_shape(tl.blocks@[i], r.blocks@[i]),
        label_texts_of(r.blocks@) == texts@.map_values(|s: String| s@),
{
    let mut out: Vec<TimelineBlock> = Vec::new();
    let tn: usize = texts.len();
    let mut k: usize = 0;
    let mut i: usize = 0;
    proof {
        assert(tl.blocks@.skip(0) =~= tl.blocks@);
        assert(texts@.take(0).map_values(|s: String| s@) =~= Seq::<Seq<char>>::empty());
        assert(label_texts_of(out@) =~= Seq::<Seq<char>>::empty());
    }
    while i < tl.blocks.len()
        invariant
            0 <= i <= tl.blocks@.len(),
            out@.len() == i,
            tn == texts@.len(),
            k <= texts@.len(),
            forall|j: int| 0 <= j < i ==> same_shape(tl.blocks@[j], out@[j]),
            label_texts_of(out@) == texts@.take(k as int).map_values(|s: String| s@),
            k as int + label_texts_of(tl.blocks@.skip(i as int)).len() == texts@.len(),
        decreases tl.blocks@.len() - i,
    {
        let ghost suffix = tl.blocks@.skip(i as int);
        proof {
            assert(suffix[0] == tl.blocks@[i as int]);
            assert(suffix.drop_first() =~= tl.blocks@.skip(i as int + 1));
        }
        let b = &tl.blocks[i];
        match &b.label {
            Some(l) => {
                proof {
                    assert(label_texts_of(suffix) == seq![l.text@] + label_texts_of(
                        suffix.drop_first(),
                    ));
                    assert(label_texts_of(suffix).len() >= 1);
                }
                let new_label = TimeLineBlockLabel { text: texts[k].clone(), x: l.x, y: l.y };
                let nb = TimelineBlock {
                    x: b.x,
                    width: b.width,
                    height: b.height,
                    label: Some(new_label),
                };
                proof {
                    lemma_label_texts_push(out@, nb);
                    assert(k < texts@.len());
                }
                out.push(nb);
                k = k + 1;
                proof {
                    assert(texts@.take(k as int) =~= texts@.take(k as int - 1).push(
                        texts@[k as int - 1],
                    ));
                    assert(texts@.take(k as int).map_values(|s: String| s@) =~= texts@.take(
                        k as int - 1,
                    ).map_values(|s: String| s@).push(texts@[k as int - 1]@));
                    assert(label_texts_of(out@) =~= texts@.take(k as int).map_values(
                        |s: String| s@,
                    ));
                }
            },
            None => {
                let nb = TimelineBlock { x: b.x, width: b.width, height: b.height, label: None };
                proof {
                    assert(label_texts_of(suffix) == label_texts_of(suffix.drop_first()));
                    lemma_label_texts_push(out@, nb);
                    assert(label_texts_of(out@.push(nb)) =~= label_texts_of(out@));
                }
                out.push(nb);
            },
        }
        i = i + 1;
    }
    proof {
        assert(tl.blocks@.skip(tl.blocks@.len() as int) =~= Seq::<TimelineBlock>::empty());
        assert(k == texts@.len());
        assert(texts@.take(k as int) =~= texts@);
    }
    Timeline { blocks: out }
}

} // verus!

//! A painted line as a row of regions: stretches of the line, each in one
//! colour or in none, that follow one another without gap or overlap.

use vstd::prelude::*;
use vstd::utf8::*;
use crate::color::{sgr_prefix, sgr_suffix, Color};
use crate::colorizer::{painted, painted_from, painted_gap, painted_hit};
use crate::laws::{
    flushed,
    flushed_from,
    lemma_first_spans,
    lemma_rest_wf,
    lemma_span_end,
    lemma_span_step,
};
use crate::pattern::{all_wf, spans_fit, ColorPatternMap};

verus! {

/// A stretch of the line, from `start` up to `end`, and the colour that it is
/// painted in, if any.
pub struct Region {
    /// The offset of the region's first byte in the line.
    pub start: int,
    /// The offset behind the region's last byte.
    pub end: int,
    /// The colour of the region; none for a stretch that no class claimed.
    pub color: Option<Color>,
}

/// The region of a match: none for an empty match.
pub open spec fn hit_regions(color: Color, start: int, end: int) -> Seq<Region> {
    if end > start {
        seq![Region { start, end, color: Some(color) }]
    } else {
        Seq::empty()
    }
}

/// The regions of a line that begins at `base`, as `classes` paint it.
pub open spec fn regions(classes: Seq<ColorPatternMap>, line: Seq<u8>, base: int) -> Seq<Region>
    decreases classes.len(), 1nat, 0nat,
{
    if classes.len() == 0 {
        Seq::empty()
    } else {
        regions_from(classes, line, classes[0].spans(line), 0, 0, base)
    }
}

/// The regions of a stretch, beginning at `at`, that no match of the first
/// class claimed: those of the classes after the first where there are any,
/// one region without colour where there are none and the stretch is not
/// empty.
pub open spec fn gap_regions(classes: Seq<ColorPatternMap>, gap: Seq<u8>, at: int) -> Seq<Region>
    decreases classes.len(), 0nat, 0nat,
{
    if classes.len() > 1 {
        regions(classes.drop_first(), gap, at)
    } else if gap.len() > 0 {
        seq![Region { start: at, end: at + gap.len(), color: None }]
    } else {
        Seq::empty()
    }
}

/// The regions that the matches `spans` of the first class contribute from
/// the `k`-th on, when the one before it ended at `offset`.
pub open spec fn regions_from(
    classes: Seq<ColorPatternMap>,
    line: Seq<u8>,
    spans: Seq<(usize, usize)>,
    k: int,
    offset: int,
    base: int,
) -> Seq<Region>
    decreases classes.len(), 0nat, spans.len() - k,
{
    if classes.len() == 0 || k < 0 || k >= spans.len() {
        Seq::empty()
    } else {
        let start = spans[k].0 as int;
        let end = spans[k].1 as int;
        gap_regions(classes, line.subrange(offset, start), base + offset) + hit_regions(
            classes[0].color,
            base + start,
            base + end,
        ) + regions_from(classes, line, spans, k + 1, end, base)
    }
}

/// A region as it is written: its stretch of `text`, between the sequences
/// that switch its colour on and off where it has one.
pub open spec fn rendered_region(region: Region, text: Seq<u8>) -> Seq<u8> {
    match region.color {
        Some(color) => sgr_prefix(color) + text.subrange(region.start, region.end) + sgr_suffix(),
        None => text.subrange(region.start, region.end),
    }
}

/// Regions as they are written, one after the other.
pub open spec fn rendered(row: Seq<Region>, text: Seq<u8>) -> Seq<u8>
    decreases row.len(),
{
    if row.len() == 0 {
        Seq::empty()
    } else {
        rendered_region(row[0], text) + rendered(row.drop_first(), text)
    }
}

/// Whether the regions of `row` tile the stretch from `lo` to `hi`: none is
/// empty, the first begins at `lo`, each begins where the one before it ends,
/// and the last ends at `hi`.
pub open spec fn tiles(row: Seq<Region>, lo: int, hi: int) -> bool
    decreases row.len(),
{
    if row.len() == 0 {
        lo == hi
    } else {
        &&& row[0].start == lo
        &&& lo < row[0].end <= hi
        &&& tiles(row.drop_first(), row[0].end, hi)
    }
}

/// Whether the regions of `row` lie in the stretch from `lo` to `hi` in
/// order: none is empty, and each begins no earlier than the one before it
/// ends.
pub open spec fn ordered(row: Seq<Region>, lo: int, hi: int) -> bool
    decreases row.len(),
{
    if row.len() == 0 {
        lo <= hi
    } else {
        &&& lo <= row[0].start < row[0].end <= hi
        &&& ordered(row.drop_first(), row[0].end, hi)
    }
}

/// Whether byte `i` of the line lies in `region`.
pub open spec fn holds(region: Region, i: int) -> bool {
    region.start <= i < region.end
}

/// Whether every region of `row` has a colour.
pub open spec fn all_coloured(row: Seq<Region>) -> bool {
    forall|j: int| 0 <= j < row.len() ==> (#[trigger] row[j]).color is Some
}

/// Whether byte `i` lies in one of `spans`.
pub open spec fn caught(spans: Seq<(usize, usize)>, i: int) -> bool {
    exists|k: int| 0 <= k < spans.len() && (#[trigger] spans[k]).0 <= i < spans[k].1
}

/// Whether the matches of `class` in `stretch` leave no byte of it out.
pub open spec fn catches_whole(class: ColorPatternMap, stretch: Seq<u8>) -> bool {
    forall|i: int| 0 <= i < stretch.len() ==> caught(class.spans(stretch), i)
}

/// Whether the matches of `class` leave no byte out of any stretch of `text`.
pub open spec fn catches_all_of(class: ColorPatternMap, text: Seq<u8>) -> bool {
    forall|a: int, b: int|
        0 <= a <= b <= text.len() && valid_utf8(text.subrange(a, b)) ==> catches_whole(
            class,
            #[trigger] text.subrange(a, b),
        )
}

/// Two rows are written as the one and then the other.
proof fn lemma_rendered_concat(a: Seq<Region>, b: Seq<Region>, text: Seq<u8>)
    ensures
        rendered(a + b, text) == rendered(a, text) + rendered(b, text),
    decreases a.len(),
{
    if a.len() > 0 {
        lemma_rendered_concat(a.drop_first(), b, text);
        assert((a + b).drop_first() =~= a.drop_first() + b);
    }
}

/// Three rows are written one after the other.
proof fn lemma_rendered_three(a: Seq<Region>, b: Seq<Region>, c: Seq<Region>, text: Seq<u8>)
    ensures
        rendered(a + b + c, text) == rendered(a, text) + rendered(b, text) + rendered(c, text),
{
    lemma_rendered_concat(a + b, c, text);
    lemma_rendered_concat(a, b, text);
}

/// The region of a match is written as the painted match.
proof fn lemma_rendered_hit(color: Color, text: Seq<u8>, start: int, end: int)
    requires
        0 <= start <= end <= text.len(),
    ensures
        rendered(hit_regions(color, start, end), text) == painted_hit(
            color,
            text.subrange(start, end),
        ),
{
    if end > start {
        reveal_with_fuel(rendered, 2);
    }
}

/// The region of a stretch that no class claims is written as the stretch.
proof fn lemma_rendered_plain(text: Seq<u8>, start: int, end: int)
    requires
        0 <= start <= end <= text.len(),
    ensures
        rendered(
            if end > start {
                seq![Region { start, end, color: None }]
            } else {
                Seq::empty()
            },
            text,
        ) == text.subrange(start, end),
{
    if end > start {
        reveal_with_fuel(rendered, 2);
    }
}

/// A painted line is its regions as they are written.
proof fn lemma_painted_regions(classes: Seq<ColorPatternMap>, text: Seq<u8>, lo: int, hi: int)
    requires
        all_wf(classes),
        0 <= lo <= hi <= text.len(),
        valid_utf8(text.subrange(lo, hi)),
    ensures
        painted(classes, text.subrange(lo, hi)) == rendered(
            regions(classes, text.subrange(lo, hi), lo),
            text,
        ),
    decreases classes.len(), 1nat, 0nat,
{
    if classes.len() > 0 {
        let line = text.subrange(lo, hi);
        let spans = classes[0].spans(line);
        lemma_first_spans(classes, line);
        lemma_painted_regions_from(classes, text, lo, hi, spans, 0, 0);
    }
}

/// The same of what the matches from the `k`-th on contribute.
proof fn lemma_painted_regions_from(
    classes: Seq<ColorPatternMap>,
    text: Seq<u8>,
    lo: int,
    hi: int,
    spans: Seq<(usize, usize)>,
    k: int,
    offset: int,
)
    requires
        classes.len() > 0,
        all_wf(classes),
        0 <= lo <= hi <= text.len(),
        valid_utf8(text.subrange(lo, hi)),
        spans_fit(spans, text.subrange(lo, hi)),
        0 <= k <= spans.len(),
        k == 0 ==> offset == 0,
        k > 0 ==> offset == spans[k - 1].1,
    ensures
        painted_from(classes, text.subrange(lo, hi), spans, k, offset) == rendered(
            regions_from(classes, text.subrange(lo, hi), spans, k, offset, lo),
            text,
        ),
    decreases classes.len(), 0nat, spans.len() - k,
{
    let line = text.subrange(lo, hi);
    if k < spans.len() {
        let start = spans[k].0 as int;
        let end = spans[k].1 as int;
        lemma_span_step(line, spans, k, offset);
        let gap = line.subrange(offset, start);
        assert(gap =~= text.subrange(lo + offset, lo + start));
        let gap_row = gap_regions(classes, gap, lo + offset);
        let hit_row = hit_regions(classes[0].color, lo + start, lo + end);
        let tail_row = regions_from(classes, line, spans, k + 1, end, lo);
        lemma_painted_regions_from(classes, text, lo, hi, spans, k + 1, end);
        lemma_rendered_hit(classes[0].color, text, lo + start, lo + end);
        if classes.len() > 1 {
            lemma_rest_wf(classes);
            lemma_painted_regions(classes.drop_first(), text, lo + offset, lo + start);
        } else {
            lemma_rendered_plain(text, lo + offset, lo + start);
        }
        assert(rendered(gap_row, text) == painted_gap(classes, gap));
        lemma_rendered_three(gap_row, hit_row, tail_row, text);
    }
}

/// Each region of an ordered row lies in the stretch.
proof fn lemma_ordered_bounds(row: Seq<Region>, lo: int, hi: int)
    requires
        ordered(row, lo, hi),
    ensures
        lo <= hi,
        forall|j: int| 0 <= j < row.len() ==> lo <= (#[trigger] row[j]).start < row[j].end <= hi,
    decreases row.len(),
{
    if row.len() > 0 {
        let rest = row.drop_first();
        lemma_ordered_bounds(rest, row[0].end, hi);
        assert forall|j: int| 0 <= j < row.len() implies lo <= (#[trigger] row[j]).start
            < row[j].end <= hi by {
            if j > 0 {
                assert(row[j] == rest[j - 1]);
            }
        }
    }
}

/// A row that is ordered in a stretch is ordered in every wider one.
proof fn lemma_ordered_widen(row: Seq<Region>, lo: int, hi: int, wide_lo: int, wide_hi: int)
    requires
        ordered(row, lo, hi),
        wide_lo <= lo,
        hi <= wide_hi,
    ensures
        ordered(row, wide_lo, wide_hi),
    decreases row.len(),
{
    if row.len() > 0 {
        lemma_ordered_widen(row.drop_first(), row[0].end, hi, row[0].end, wide_hi);
    }
}

/// Rows that are ordered in two stretches, the second of which begins where
/// the first ends, are ordered in the two as one.
proof fn lemma_ordered_concat(a: Seq<Region>, b: Seq<Region>, lo: int, mid: int, hi: int)
    requires
        ordered(a, lo, mid),
        ordered(b, mid, hi),
    ensures
        ordered(a + b, lo, hi),
    decreases a.len(),
{
    if a.len() > 0 {
        lemma_ordered_concat(a.drop_first(), b, a[0].end, mid, hi);
        assert((a + b).drop_first() =~= a.drop_first() + b);
    }
}

/// In an ordered row no byte lies in two regions.
proof fn lemma_ordered_one_region(row: Seq<Region>, lo: int, hi: int, i: int, j1: int, j2: int)
    requires
        ordered(row, lo, hi),
        0 <= j1 < row.len(),
        0 <= j2 < row.len(),
        holds(row[j1], i),
        holds(row[j2], i),
    ensures
        j1 == j2,
    decreases row.len(),
{
    let rest = row.drop_first();
    lemma_ordered_bounds(rest, row[0].end, hi);
    if j2 > 0 {
        assert(row[j2] == rest[j2 - 1]);
    }
    if j1 > 0 && j2 > 0 {
        lemma_ordered_one_region(rest, row[0].end, hi, i, j1 - 1, j2 - 1);
    }
}

/// A row that tiles a stretch lies in it in order.
proof fn lemma_tiles_ordered(row: Seq<Region>, lo: int, hi: int)
    requires
        tiles(row, lo, hi),
    ensures
        ordered(row, lo, hi),
    decreases row.len(),
{
    if row.len() > 0 {
        lemma_tiles_ordered(row.drop_first(), row[0].end, hi);
    }
}

/// Rows that tile two stretches, the second of which begins where the first
/// ends, tile the two as one.
proof fn lemma_tiles_concat(a: Seq<Region>, b: Seq<Region>, lo: int, mid: int, hi: int)
    requires
        tiles(a, lo, mid),
        tiles(b, mid, hi),
    ensures
        tiles(a + b, lo, hi),
    decreases a.len(),
{
    if a.len() > 0 {
        lemma_tiles_concat(a.drop_first(), b, a[0].end, mid, hi);
        assert((a + b).drop_first() =~= a.drop_first() + b);
    }
}

/// The regions of a line tile the line.
proof fn lemma_regions_tile(classes: Seq<ColorPatternMap>, text: Seq<u8>, lo: int, hi: int)
    requires
        classes.len() > 0,
        all_wf(classes),
        flushed(classes, text.subrange(lo, hi)),
        0 <= lo <= hi <= text.len(),
        valid_utf8(text.subrange(lo, hi)),
    ensures
        tiles(regions(classes, text.subrange(lo, hi), lo), lo, hi),
    decreases classes.len(), 1nat, 0nat,
{
    let line = text.subrange(lo, hi);
    let spans = classes[0].spans(line);
    lemma_first_spans(classes, line);
    lemma_regions_tile_from(classes, text, lo, hi, spans, 0, 0);
}

/// The same of what the matches from the `k`-th on contribute.
proof fn lemma_regions_tile_from(
    classes: Seq<ColorPatternMap>,
    text: Seq<u8>,
    lo: int,
    hi: int,
    spans: Seq<(usize, usize)>,
    k: int,
    offset: int,
)
    requires
        classes.len() > 0,
        all_wf(classes),
        0 <= lo <= hi <= text.len(),
        valid_utf8(text.subrange(lo, hi)),
        spans_fit(spans, text.subrange(lo, hi)),
        flushed_from(classes, text.subrange(lo, hi), spans, k, offset),
        0 <= k <= spans.len(),
        k == 0 ==> offset == 0,
        k > 0 ==> offset == spans[k - 1].1,
    ensures
        tiles(regions_from(classes, text.subrange(lo, hi), spans, k, offset, lo), lo + offset, hi),
    decreases classes.len(), 0nat, spans.len() - k,
{
    let line = text.subrange(lo, hi);
    if k < spans.len() {
        let start = spans[k].0 as int;
        let end = spans[k].1 as int;
        lemma_span_step(line, spans, k, offset);
        let gap = line.subrange(offset, start);
        assert(gap =~= text.subrange(lo + offset, lo + start));
        let gap_row = gap_regions(classes, gap, lo + offset);
        let hit_row = hit_regions(classes[0].color, lo + start, lo + end);
        let tail_row = regions_from(classes, line, spans, k + 1, end, lo);
        lemma_regions_tile_from(classes, text, lo, hi, spans, k + 1, end);
        if classes.len() > 1 {
            lemma_rest_wf(classes);
            lemma_regions_tile(classes.drop_first(), text, lo + offset, lo + start);
        } else {
            reveal_with_fuel(tiles, 2);
        }
        assert(tiles(hit_row, lo + start, lo + end)) by {
            reveal_with_fuel(tiles, 2);
        }
        lemma_tiles_concat(gap_row, hit_row, lo + offset, lo + start, lo + end);
        lemma_tiles_concat(gap_row + hit_row, tail_row, lo + offset, lo + end, hi);
    }
}

/// The place in `row` of the region that holds byte `i`, for a row that has
/// one.
pub open spec fn region_at(row: Seq<Region>, i: int) -> int
    decreases row.len(),
{
    if row.len() == 0 || holds(row[0], i) {
        0
    } else {
        1 + region_at(row.drop_first(), i)
    }
}

/// In a row that tiles a stretch, each byte of the stretch lies in a region.
proof fn lemma_tiles_one_region(row: Seq<Region>, lo: int, hi: int, i: int)
    requires
        tiles(row, lo, hi),
        lo <= i < hi,
    ensures
        0 <= region_at(row, i) < row.len(),
        holds(row[region_at(row, i)], i),
    decreases row.len(),
{
    if !holds(row[0], i) {
        let rest = row.drop_first();
        lemma_tiles_one_region(rest, row[0].end, hi, i);
    }
}

/// Where the matches leave no byte out, each begins where the one before it
/// ended.
proof fn lemma_no_gap(line: Seq<u8>, spans: Seq<(usize, usize)>, k: int, offset: int)
    requires
        spans_fit(spans, line),
        forall|i: int| 0 <= i < line.len() ==> caught(spans, i),
        0 <= k < spans.len(),
        k == 0 ==> offset == 0,
        k > 0 ==> offset == spans[k - 1].1,
    ensures
        offset == spans[k].0,
{
    reveal(spans_fit);
    if offset < spans[k].0 {
        assert(caught(spans, offset));
        let j = choose|j: int| 0 <= j < spans.len() && (#[trigger] spans[j]).0 <= offset
            < spans[j].1;
    }
}

/// Where the last class leaves no byte out, every region has a colour.
proof fn lemma_regions_coloured(classes: Seq<ColorPatternMap>, text: Seq<u8>, lo: int, hi: int)
    requires
        classes.len() > 0,
        all_wf(classes),
        catches_all_of(classes.last(), text),
        0 <= lo <= hi <= text.len(),
        valid_utf8(text.subrange(lo, hi)),
    ensures
        all_coloured(regions(classes, text.subrange(lo, hi), lo)),
    decreases classes.len(), 1nat, 0nat,
{
    let line = text.subrange(lo, hi);
    let spans = classes[0].spans(line);
    lemma_first_spans(classes, line);
    lemma_regions_coloured_from(classes, text, lo, hi, spans, 0, 0);
}

/// The same of what the matches from the `k`-th on contribute.
proof fn lemma_regions_coloured_from(
    classes: Seq<ColorPatternMap>,
    text: Seq<u8>,
    lo: int,
    hi: int,
    spans: Seq<(usize, usize)>,
    k: int,
    offset: int,
)
    requires
        classes.len() > 0,
        all_wf(classes),
        catches_all_of(classes.last(), text),
        0 <= lo <= hi <= text.len(),
        valid_utf8(text.subrange(lo, hi)),
        spans_fit(spans, text.subrange(lo, hi)),
        spans == classes[0].spans(text.subrange(lo, hi)),
        0 <= k <= spans.len(),
        k == 0 ==> offset == 0,
        k > 0 ==> offset == spans[k - 1].1,
    ensures
        all_coloured(regions_from(classes, text.subrange(lo, hi), spans, k, offset, lo)),
    decreases classes.len(), 0nat, spans.len() - k,
{
    let line = text.subrange(lo, hi);
    if k < spans.len() {
        let start = spans[k].0 as int;
        let end = spans[k].1 as int;
        lemma_span_step(line, spans, k, offset);
        let gap = line.subrange(offset, start);
        assert(gap =~= text.subrange(lo + offset, lo + start));
        lemma_regions_coloured_from(classes, text, lo, hi, spans, k + 1, end);
        if classes.len() > 1 {
            lemma_rest_wf(classes);
            lemma_regions_coloured(classes.drop_first(), text, lo + offset, lo + start);
        } else {
            lemma_no_gap(line, spans, k, offset);
        }
        assert(all_coloured(gap_regions(classes, gap, lo + offset)));
    }
}

/// The regions of a line lie in the line in order.
proof fn lemma_regions_ordered(classes: Seq<ColorPatternMap>, text: Seq<u8>, lo: int, hi: int)
    requires
        all_wf(classes),
        0 <= lo <= hi <= text.len(),
        valid_utf8(text.subrange(lo, hi)),
    ensures
        ordered(regions(classes, text.subrange(lo, hi), lo), lo, hi),
    decreases classes.len(), 1nat, 0nat,
{
    if classes.len() > 0 {
        let line = text.subrange(lo, hi);
        let spans = classes[0].spans(line);
        lemma_first_spans(classes, line);
        lemma_regions_ordered_from(classes, text, lo, hi, spans, 0, 0);
    }
}

/// The same of what the matches from the `k`-th on contribute.
proof fn lemma_regions_ordered_from(
    classes: Seq<ColorPatternMap>,
    text: Seq<u8>,
    lo: int,
    hi: int,
    spans: Seq<(usize, usize)>,
    k: int,
    offset: int,
)
    requires
        classes.len() > 0,
        all_wf(classes),
        0 <= lo <= hi <= text.len(),
        valid_utf8(text.subrange(lo, hi)),
        spans_fit(spans, text.subrange(lo, hi)),
        0 <= k <= spans.len(),
        k == 0 ==> offset == 0,
        k > 0 ==> offset == spans[k - 1].1,
    ensures
        ordered(regions_from(classes, text.subrange(lo, hi), spans, k, offset, lo), lo + offset, hi),
    decreases classes.len(), 0nat, spans.len() - k,
{
    let line = text.subrange(lo, hi);
    lemma_span_end(line, spans, k, offset);
    if k < spans.len() {
        let start = spans[k].0 as int;
        let end = spans[k].1 as int;
        lemma_span_step(line, spans, k, offset);
        let gap = line.subrange(offset, start);
        assert(gap =~= text.subrange(lo + offset, lo + start));
        let gap_row = gap_regions(classes, gap, lo + offset);
        let hit_row = hit_regions(classes[0].color, lo + start, lo + end);
        let tail_row = regions_from(classes, line, spans, k + 1, end, lo);
        lemma_regions_ordered_from(classes, text, lo, hi, spans, k + 1, end);
        if classes.len() > 1 {
            lemma_rest_wf(classes);
            lemma_regions_ordered(classes.drop_first(), text, lo + offset, lo + start);
        } else {
            reveal_with_fuel(ordered, 2);
        }
        assert(ordered(hit_row, lo + start, lo + end)) by {
            reveal_with_fuel(ordered, 2);
        }
        lemma_ordered_concat(gap_row, hit_row, lo + offset, lo + start, lo + end);
        lemma_ordered_concat(gap_row + hit_row, tail_row, lo + offset, lo + end, hi);
    }
}

/// The region of a match of the first class stands in the row.
proof fn lemma_hit_in_regions(
    classes: Seq<ColorPatternMap>,
    line: Seq<u8>,
    spans: Seq<(usize, usize)>,
    from: int,
    offset: int,
    k: int,
)
    requires
        classes.len() > 0,
        0 <= from <= k < spans.len(),
        spans[k].0 < spans[k].1,
    ensures
        regions_from(classes, line, spans, from, offset, 0).contains(
            Region {
                start: spans[k].0 as int,
                end: spans[k].1 as int,
                color: Some(classes[0].color),
            },
        ),
    decreases k - from,
{
    let wanted = Region {
        start: spans[k].0 as int,
        end: spans[k].1 as int,
        color: Some(classes[0].color),
    };
    let start = spans[from].0 as int;
    let end = spans[from].1 as int;
    let gap_row = gap_regions(classes, line.subrange(offset, start), 0 + offset);
    let hit_row = hit_regions(classes[0].color, 0 + start, 0 + end);
    let tail_row = regions_from(classes, line, spans, from + 1, end, 0);
    let row = regions_from(classes, line, spans, from, offset, 0);
    if from == k {
        assert(row[gap_row.len() as int] == wanted);
    } else {
        lemma_hit_in_regions(classes, line, spans, from + 1, end, k);
        let j = choose|j: int| 0 <= j < tail_row.len() && tail_row[j] == wanted;
        assert(row[gap_row.len() + hit_row.len() + j] == wanted);
    }
}

/// A painted line is a row of regions that tile the line: the output is the
/// regions as they are written, one after the other, and every byte of the
/// line lies in one region and in no other, for every painting that leaves
/// no byte of the line behind. Where the last class leaves no byte out of
/// any stretch of the line, that region has a colour.
pub proof fn law_one_region_per_byte(classes: Seq<ColorPatternMap>, text: Seq<u8>, i: int)
    requires
        all_wf(classes),
        flushed(classes, text),
        valid_utf8(text),
        0 <= i < text.len(),
    ensures
        painted(classes, text) == rendered(regions(classes, text, 0), text),
        tiles(regions(classes, text, 0), 0, text.len() as int),
        ({
            let row = regions(classes, text, 0);
            let at = region_at(row, i);
            &&& 0 <= at < row.len()
            &&& holds(row[at], i)
            &&& forall|j: int| 0 <= j < row.len() && holds(#[trigger] row[j], i) ==> j == at
            &&& catches_all_of(classes.last(), text) ==> row[at].color is Some
        }),
{
    let len = text.len() as int;
    assert(text.subrange(0, len) =~= text);
    lemma_painted_regions(classes, text, 0, len);
    lemma_regions_tile(classes, text, 0, len);
    let row = regions(classes, text, 0);
    lemma_tiles_one_region(row, 0, len, i);
    lemma_tiles_ordered(row, 0, len);
    assert forall|j: int| 0 <= j < row.len() && holds(#[trigger] row[j], i) implies j
        == region_at(row, i) by {
        lemma_ordered_one_region(row, 0, len, i, j, region_at(row, i));
    }
    if catches_all_of(classes.last(), text) {
        lemma_regions_coloured(classes, text, 0, len);
    }
}

/// The first class has priority: each of its matches that is not empty is a
/// region of the painted line, in the colour of the first class, whatever the
/// classes after it would match there; and every byte of the match lies in
/// that region and in no other.
pub proof fn law_priority(classes: Seq<ColorPatternMap>, text: Seq<u8>, k: int, i: int)
    requires
        classes.len() > 0,
        all_wf(classes),
        valid_utf8(text),
        0 <= k < classes[0].spans(text).len(),
        classes[0].spans(text)[k].0 <= i < classes[0].spans(text)[k].1,
    ensures
        ({
            let row = regions(classes, text, 0);
            let claimed = Region {
                start: classes[0].spans(text)[k].0 as int,
                end: classes[0].spans(text)[k].1 as int,
                color: Some(classes[0].color),
            };
            &&& row.contains(claimed)
            &&& forall|j: int| 0 <= j < row.len() && holds(#[trigger] row[j], i) ==> row[j] == claimed
        }),
{
    let spans = classes[0].spans(text);
    let row = regions(classes, text, 0);
    let claimed = Region {
        start: spans[k].0 as int,
        end: spans[k].1 as int,
        color: Some(classes[0].color),
    };
    let len = text.len() as int;
    assert(text.subrange(0, len) =~= text);
    lemma_hit_in_regions(classes, text, spans, 0, 0, k);
    let at = choose|at: int| 0 <= at < row.len() && row[at] == claimed;
    lemma_regions_ordered(classes, text, 0, len);
    assert forall|j: int| 0 <= j < row.len() && holds(#[trigger] row[j], i) implies row[j]
        == claimed by {
        lemma_ordered_one_region(row, 0, len, i, j, at);
    }
}

} // verus!

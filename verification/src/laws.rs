//! What holds of every painted line, whatever the classes and the text.
//!
//! The matches of a class are the regex engine's to find. What the engine
//! documents of its matches holds of every class that `ColorPatternMap::new`
//! made. That the last match of a class ends where the text ends is what the
//! alternative `$` of its pattern is for; the engine's documents do not say
//! it of every pattern. Painting drops what follows the last match, so the
//! laws that speak of every byte of a line speak of paintings that leave
//! none behind, and say so in their premises.

use vstd::prelude::*;
use vstd::utf8::*;
use crate::color::{sgr_prefix, sgr_suffix, ESC};
use crate::colorizer::{painted, painted_from, painted_gap, painted_hit};
use crate::escape::{
    lemma_strip_empty,
    lemma_strip_keeps,
    lemma_strip_prefix,
    lemma_strip_suffix,
    sgr_free,
    strip_sgr,
};
use crate::pattern::{all_wf, spans_fit, ColorPatternMap};
use crate::text::{lemma_utf8_injective, lemma_valid_slice};

verus! {

/// Whether the painting of `text` by `classes` leaves no byte of the text
/// behind: the last match of the first class ends where the text ends, and
/// the same holds of the classes after the first in each stretch that goes to
/// them. No class at all leaves every byte behind.
pub open spec fn flushed(classes: Seq<ColorPatternMap>, text: Seq<u8>) -> bool
    decreases classes.len(), 1nat, 0nat,
{
    if classes.len() == 0 {
        text.len() == 0
    } else {
        flushed_from(classes, text, classes[0].spans(text), 0, 0)
    }
}

/// The same of the matches `spans` of the first class from the `k`-th on,
/// when the one before it ended at `offset`.
pub open spec fn flushed_from(
    classes: Seq<ColorPatternMap>,
    text: Seq<u8>,
    spans: Seq<(usize, usize)>,
    k: int,
    offset: int,
) -> bool
    decreases classes.len(), 0nat, spans.len() - k,
{
    if classes.len() == 0 || k < 0 {
        false
    } else if k >= spans.len() {
        offset == text.len()
    } else {
        &&& classes.len() > 1 ==> flushed(
            classes.drop_first(),
            text.subrange(offset, spans[k].0 as int),
        )
        &&& flushed_from(classes, text, spans, k + 1, spans[k].1 as int)
    }
}

/// Whether the last of `spans` ends at `len`; with no span at all, whether
/// there is nothing to reach.
pub open spec fn spans_reach(spans: Seq<(usize, usize)>, len: nat) -> bool {
    if spans.len() == 0 {
        len == 0
    } else {
        spans.last().1 == len
    }
}

/// Whether the matches of `class` in every text are as the engine documents
/// them: in the text, on character boundaries, in order, without overlap.
pub open spec fn fits_everywhere(class: ColorPatternMap) -> bool {
    forall|text: Seq<u8>| valid_utf8(text) ==> spans_fit(#[trigger] class.spans(text), text)
}

/// Whether the last match of `class` in every text ends where the text ends,
/// which is what the alternative `$` of a class's pattern is for.
pub open spec fn flushes_everywhere(class: ColorPatternMap) -> bool {
    forall|text: Seq<u8>| valid_utf8(text) ==> spans_reach(#[trigger] class.spans(text), text.len())
}

/// The matches of a class that is as `ColorPatternMap::new` makes it are in
/// every text as the engine documents them.
pub proof fn lemma_wf_fits(class: ColorPatternMap)
    requires
        class.wf(),
    ensures
        fits_everywhere(class),
{
    assert forall|text: Seq<u8>| valid_utf8(text) implies spans_fit(
        #[trigger] class.spans(text),
        text,
    ) by {
        decode_utf8_encode_utf8(text);
    }
}

/// The matches of the first class of a list in a line are as the engine
/// documents them.
pub(crate) proof fn lemma_first_spans(classes: Seq<ColorPatternMap>, line: Seq<u8>)
    requires
        classes.len() > 0,
        all_wf(classes),
        valid_utf8(line),
    ensures
        spans_fit(classes[0].spans(line), line),
{
    reveal(all_wf);
    lemma_wf_fits(classes[0]);
}

/// Whether `then` may follow the text up to `at` in the output without a
/// sequence forming across the seam: whatever stretch of `text` ends at `at`,
/// it is kept whole before `then`.
#[verifier::opaque]
pub open spec fn safe_after(text: Seq<u8>, at: int, then: Seq<u8>) -> bool {
    forall|a: int|
        0 <= a <= at ==> strip_sgr(#[trigger] text.subrange(a, at) + then) == text.subrange(a, at)
            + strip_sgr(then)
}

/// What begins with an escape byte, or is empty, may follow any stretch.
proof fn lemma_safe_after_escape(text: Seq<u8>, at: int, then: Seq<u8>)
    requires
        sgr_free(text),
        0 <= at <= text.len(),
        then.len() == 0 || then[0] == ESC,
    ensures
        safe_after(text, at, then),
{
    reveal(safe_after);
    assert forall|a: int| 0 <= a <= at implies strip_sgr(#[trigger] text.subrange(a, at) + then)
        == text.subrange(a, at) + strip_sgr(then) by {
        lemma_strip_keeps(text, a, at, then);
    }
}

/// The next stretch of the text, left as it is, may follow the one before
/// it, where what follows the two may.
proof fn lemma_safe_after_plain(text: Seq<u8>, at: int, to: int, then: Seq<u8>)
    requires
        0 <= at <= to <= text.len(),
        safe_after(text, to, then),
    ensures
        safe_after(text, at, text.subrange(at, to) + then),
        strip_sgr(text.subrange(at, to) + then) == text.subrange(at, to) + strip_sgr(then),
{
    reveal(safe_after);
    let next = text.subrange(at, to);
    assert forall|a: int| 0 <= a <= at implies strip_sgr(
        #[trigger] text.subrange(a, at) + (next + then),
    ) == text.subrange(a, at) + strip_sgr(next + then) by {
        let both = text.subrange(a, to);
        assert(text.subrange(a, at) + (next + then) =~= both + then);
    }
}

/// A painted match may follow any stretch, and only the match is left of it.
proof fn lemma_strip_hit(
    text: Seq<u8>,
    start: int,
    end: int,
    class: ColorPatternMap,
    then: Seq<u8>,
)
    requires
        sgr_free(text),
        0 <= start <= end <= text.len(),
        safe_after(text, end, then),
    ensures
        safe_after(text, start, painted_hit(class.color, text.subrange(start, end)) + then),
        strip_sgr(painted_hit(class.color, text.subrange(start, end)) + then) == text.subrange(
            start,
            end,
        ) + strip_sgr(then),
{
    let hit = text.subrange(start, end);
    let out = painted_hit(class.color, hit) + then;
    if end > start {
        let closing = sgr_suffix() + then;
        lemma_strip_suffix(then);
        lemma_strip_keeps(text, start, end, closing);
        lemma_strip_prefix(class.color, hit + closing);
        assert(out =~= sgr_prefix(class.color) + (hit + closing));
        lemma_safe_after_escape(text, start, out);
    }
}

/// Of a line that classes painted, followed by what may follow it, taking the
/// sequences out leaves the line and what is left of the rest.
proof fn lemma_strip_painted(
    classes: Seq<ColorPatternMap>,
    text: Seq<u8>,
    lo: int,
    hi: int,
    then: Seq<u8>,
)
    requires
        classes.len() > 0,
        all_wf(classes),
        flushed(classes, text.subrange(lo, hi)),
        sgr_free(text),
        0 <= lo <= hi <= text.len(),
        valid_utf8(text.subrange(lo, hi)),
        safe_after(text, hi, then),
    ensures
        safe_after(text, lo, painted(classes, text.subrange(lo, hi)) + then),
        strip_sgr(painted(classes, text.subrange(lo, hi)) + then) == text.subrange(lo, hi)
            + strip_sgr(then),
    decreases classes.len(), 1nat, 0nat,
{
    let line = text.subrange(lo, hi);
    let spans = classes[0].spans(line);
    lemma_first_spans(classes, line);
    lemma_strip_painted_from(classes, text, lo, hi, spans, 0, 0, then);
}

/// Where the `k`-th match lies, when the one before it ended at `offset`:
/// behind `offset`, and the stretch between the two is a text.
pub(crate) proof fn lemma_span_step(line: Seq<u8>, spans: Seq<(usize, usize)>, k: int, offset: int)
    requires
        valid_utf8(line),
        spans_fit(spans, line),
        0 <= k < spans.len(),
        k == 0 ==> offset == 0,
        k > 0 ==> offset == spans[k - 1].1,
    ensures
        0 <= offset <= spans[k].0 <= spans[k].1 <= line.len(),
        valid_utf8(line.subrange(offset, spans[k].0 as int)),
{
    reveal(spans_fit);
    lemma_valid_slice(line, offset, spans[k].0 as int);
}

/// Where the match before the `k`-th ended: in the text.
pub(crate) proof fn lemma_span_end(line: Seq<u8>, spans: Seq<(usize, usize)>, k: int, offset: int)
    requires
        spans_fit(spans, line),
        0 <= k <= spans.len(),
        k == 0 ==> offset == 0,
        k > 0 ==> offset == spans[k - 1].1,
    ensures
        0 <= offset <= line.len(),
{
    reveal(spans_fit);
}

/// The classes after the first are as `ColorPatternMap::new` makes them
/// where all are.
pub(crate) proof fn lemma_rest_wf(classes: Seq<ColorPatternMap>)
    requires
        classes.len() > 0,
        all_wf(classes),
    ensures
        all_wf(classes.drop_first()),
{
    reveal(all_wf);
}

/// The same of what the matches from the `k`-th on contribute.
proof fn lemma_strip_painted_from(
    classes: Seq<ColorPatternMap>,
    text: Seq<u8>,
    lo: int,
    hi: int,
    spans: Seq<(usize, usize)>,
    k: int,
    offset: int,
    then: Seq<u8>,
)
    requires
        classes.len() > 0,
        all_wf(classes),
        sgr_free(text),
        0 <= lo <= hi <= text.len(),
        valid_utf8(text.subrange(lo, hi)),
        spans_fit(spans, text.subrange(lo, hi)),
        flushed_from(classes, text.subrange(lo, hi), spans, k, offset),
        0 <= k <= spans.len(),
        k == 0 ==> offset == 0,
        k > 0 ==> offset == spans[k - 1].1,
        safe_after(text, hi, then),
    ensures
        0 <= offset <= hi - lo,
        safe_after(
            text,
            lo + offset,
            painted_from(classes, text.subrange(lo, hi), spans, k, offset) + then,
        ),
        strip_sgr(painted_from(classes, text.subrange(lo, hi), spans, k, offset) + then)
            == text.subrange(lo + offset, hi) + strip_sgr(then),
    decreases classes.len(), 0nat, spans.len() - k,
{
    let line = text.subrange(lo, hi);
    let here = painted_from(classes, line, spans, k, offset);
    if k < spans.len() {
        let start = spans[k].0 as int;
        let end = spans[k].1 as int;
        lemma_span_step(line, spans, k, offset);
        let gap = line.subrange(offset, start);
        let hit = line.subrange(start, end);
        assert(gap =~= text.subrange(lo + offset, lo + start));
        assert(hit =~= text.subrange(lo + start, lo + end));
        let tail = painted_from(classes, line, spans, k + 1, end);
        let gap_out = painted_gap(classes, gap);
        let hit_out = painted_hit(classes[0].color, hit);
        lemma_strip_painted_from(classes, text, lo, hi, spans, k + 1, end, then);
        lemma_strip_hit(text, lo + start, lo + end, classes[0], tail + then);
        if classes.len() > 1 {
            lemma_rest_wf(classes);
            lemma_strip_painted(
                classes.drop_first(),
                text,
                lo + offset,
                lo + start,
                hit_out + (tail + then),
            );
        } else {
            lemma_safe_after_plain(text, lo + offset, lo + start, hit_out + (tail + then));
        }
        assert(here + then =~= gap_out + (hit_out + (tail + then)));
    }
}

/// Taking the escape sequences out of a painted line gives the line back,
/// byte for byte: for every line that holds no escape sequence of its own
/// and every painting that leaves no byte of it behind.
pub proof fn law_preservation(classes: Seq<ColorPatternMap>, text: Seq<u8>)
    requires
        all_wf(classes),
        flushed(classes, text),
        valid_utf8(text),
        sgr_free(text),
    ensures
        strip_sgr(painted(classes, text)) == text,
{
    let nothing = Seq::<u8>::empty();
    lemma_strip_empty();
    if classes.len() > 0 {
        lemma_safe_after_escape(text, text.len() as int, nothing);
        assert(text.subrange(0, text.len() as int) =~= text);
        lemma_strip_painted(classes, text, 0, text.len() as int, nothing);
    }
}

/// The sentinel does its work: where the last match of every class ends
/// where the text ends, whatever the text, painting leaves no byte of any
/// line behind.
pub proof fn law_sentinels_flush(classes: Seq<ColorPatternMap>, text: Seq<u8>)
    requires
        classes.len() > 0,
        all_wf(classes),
        forall|i: int| 0 <= i < classes.len() ==> flushes_everywhere(#[trigger] classes[i]),
        valid_utf8(text),
    ensures
        flushed(classes, text),
    decreases classes.len(), 1nat, 0nat,
{
    let spans = classes[0].spans(text);
    lemma_first_spans(classes, text);
    lemma_sentinels_flush_from(classes, text, spans, 0, 0);
}

/// The same of the matches from the `k`-th on.
proof fn lemma_sentinels_flush_from(
    classes: Seq<ColorPatternMap>,
    text: Seq<u8>,
    spans: Seq<(usize, usize)>,
    k: int,
    offset: int,
)
    requires
        classes.len() > 0,
        all_wf(classes),
        forall|i: int| 0 <= i < classes.len() ==> flushes_everywhere(#[trigger] classes[i]),
        valid_utf8(text),
        spans_fit(spans, text),
        spans_reach(spans, text.len()),
        0 <= k <= spans.len(),
        k == 0 ==> offset == 0,
        k > 0 ==> offset == spans[k - 1].1,
    ensures
        flushed_from(classes, text, spans, k, offset),
    decreases classes.len(), 0nat, spans.len() - k,
{
    if k < spans.len() {
        lemma_span_step(text, spans, k, offset);
        lemma_sentinels_flush_from(classes, text, spans, k + 1, spans[k].1 as int);
        if classes.len() > 1 {
            let rest = classes.drop_first();
            lemma_rest_wf(classes);
            law_sentinels_flush(rest, text.subrange(offset, spans[k].0 as int));
        }
    }
}

/// Whether `class` finds nothing in `text`: its one match is the empty one
/// at the end of the text.
pub open spec fn silent_on(class: ColorPatternMap, text: Seq<u8>) -> bool {
    &&& class.spans(text).len() == 1
    &&& class.spans(text)[0].0 == text.len()
    &&& class.spans(text)[0].1 == text.len()
}

/// Whether `class` finds nothing in any stretch of `text`.
pub open spec fn silent_in(class: ColorPatternMap, text: Seq<u8>) -> bool {
    forall|a: int, b: int|
        0 <= a <= b <= text.len() && valid_utf8(text.subrange(a, b)) ==> silent_on(
            class,
            #[trigger] text.subrange(a, b),
        )
}

/// A class that finds nothing in any stretch of a text finds nothing in any
/// stretch of a stretch of it.
proof fn lemma_silent_in_stretch(class: ColorPatternMap, text: Seq<u8>, lo: int, hi: int)
    requires
        silent_in(class, text),
        0 <= lo <= hi <= text.len(),
    ensures
        silent_in(class, text.subrange(lo, hi)),
        valid_utf8(text.subrange(lo, hi)) ==> silent_on(class, text.subrange(lo, hi)),
{
    let stretch = text.subrange(lo, hi);
    assert forall|a: int, b: int|
        0 <= a <= b <= stretch.len() && valid_utf8(stretch.subrange(a, b)) implies silent_on(
        class,
        #[trigger] stretch.subrange(a, b),
    ) by {
        assert(stretch.subrange(a, b) =~= text.subrange(lo + a, lo + b));
    }
}

/// A class at the head of the list that finds nothing in a line leaves the
/// painting of the line to the classes after it.
pub proof fn law_silent_first_class(
    class: ColorPatternMap,
    rest: Seq<ColorPatternMap>,
    text: Seq<u8>,
)
    requires
        rest.len() > 0,
        silent_on(class, text),
    ensures
        painted(seq![class] + rest, text) == painted(rest, text),
{
    let classes = seq![class] + rest;
    let len = text.len() as int;
    assert(classes.drop_first() =~= rest);
    assert(text.subrange(0, len) =~= text);
}

/// A class that stands alone and finds nothing in a line leaves the line as
/// it is.
pub proof fn law_silent_only_class(class: ColorPatternMap, text: Seq<u8>)
    requires
        silent_on(class, text),
    ensures
        painted(seq![class], text) == text,
{
}

/// A class that finds nothing in any stretch of a line does not change the
/// painting of the line, wherever in the list it stands, as long as it does
/// not stand alone.
pub proof fn law_silent_class(
    front: Seq<ColorPatternMap>,
    class: ColorPatternMap,
    back: Seq<ColorPatternMap>,
    text: Seq<u8>,
)
    requires
        front.len() + back.len() > 0,
        all_wf(front),
        silent_in(class, text),
        valid_utf8(text),
    ensures
        painted(front + seq![class] + back, text) == painted(front + back, text),
    decreases front.len(), 1nat, 0nat,
{
    if front.len() == 0 {
        assert(text.subrange(0, text.len() as int) =~= text);
        law_silent_first_class(class, back, text);
    } else {
        let spans = front[0].spans(text);
        lemma_first_spans(front, text);
        lemma_silent_class_from(front, class, back, text, spans, 0, 0);
    }
}

/// The same of what the matches from the `k`-th on contribute.
proof fn lemma_silent_class_from(
    front: Seq<ColorPatternMap>,
    class: ColorPatternMap,
    back: Seq<ColorPatternMap>,
    text: Seq<u8>,
    spans: Seq<(usize, usize)>,
    k: int,
    offset: int,
)
    requires
        front.len() > 0,
        all_wf(front),
        silent_in(class, text),
        valid_utf8(text),
        spans_fit(spans, text),
        0 <= k <= spans.len(),
        k == 0 ==> offset == 0,
        k > 0 ==> offset == spans[k - 1].1,
    ensures
        painted_from(front + seq![class] + back, text, spans, k, offset) == painted_from(
            front + back,
            text,
            spans,
            k,
            offset,
        ),
    decreases front.len(), 0nat, spans.len() - k,
{
    let with = front + seq![class] + back;
    let without = front + back;
    if k < spans.len() {
        let start = spans[k].0 as int;
        let end = spans[k].1 as int;
        lemma_span_step(text, spans, k, offset);
        let gap = text.subrange(offset, start);
        let rest = front.drop_first();
        lemma_silent_class_from(front, class, back, text, spans, k + 1, end);
        assert(with.drop_first() =~= rest + seq![class] + back);
        assert(without.drop_first() =~= rest + back);
        lemma_silent_in_stretch(class, text, offset, start);
        if rest.len() + back.len() > 0 {
            lemma_rest_wf(front);
            law_silent_class(rest, class, back, gap);
        } else {
            law_silent_only_class(class, gap);
        }
        assert(painted_gap(with, gap) == painted_gap(without, gap));
    }
}

/// Painting is a function of the classes and the line: two outputs that both
/// are the painting of one line by one list of classes are the same.
pub proof fn law_deterministic(
    classes: Seq<ColorPatternMap>,
    line: Seq<char>,
    first: Seq<char>,
    second: Seq<char>,
)
    requires
        encode_utf8(first) == painted(classes, encode_utf8(line)),
        encode_utf8(second) == painted(classes, encode_utf8(line)),
    ensures
        first == second,
{
    lemma_utf8_injective(first, second);
}

} // verus!

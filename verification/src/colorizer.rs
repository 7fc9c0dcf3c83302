//! The nested-masking colorizer. The first class of a priority-ordered list
//! claims its matches in a line; each stretch between two matches goes to the
//! classes after it, and so on down the list.

use vstd::prelude::*;
use vstd::slice::slice_subrange;
use vstd::string::*;
use vstd::utf8::*;
use crate::color::{parse_color, sgr_prefix, sgr_suffix, Color, ColorSet};
use crate::pattern::{all_wf, spans_fit, with_sentinel, ColorPatternMap, PatternError};
use crate::text::{push_str, slice_str};

verus! {

/// A match as it is painted: between the sequences that switch `color` on and
/// off. An empty match leaves no trace.
pub open spec fn painted_hit(color: Color, hit: Seq<u8>) -> Seq<u8> {
    if hit.len() > 0 {
        sgr_prefix(color) + hit + sgr_suffix()
    } else {
        Seq::empty()
    }
}

/// A line as `classes` paint it. The first class finds its matches in the
/// whole of `text`; no class at all paints nothing, not even the text.
pub open spec fn painted(classes: Seq<ColorPatternMap>, text: Seq<u8>) -> Seq<u8>
    decreases classes.len(), 1nat, 0nat,
{
    if classes.len() == 0 {
        Seq::empty()
    } else {
        painted_from(classes, text, classes[0].spans(text), 0, 0)
    }
}

/// A stretch that no match of the first class claimed: painted by the classes
/// after the first where there are any, left as it is where there are none.
pub open spec fn painted_gap(classes: Seq<ColorPatternMap>, gap: Seq<u8>) -> Seq<u8>
    decreases classes.len(), 0nat, 0nat,
{
    if classes.len() > 1 {
        painted(classes.drop_first(), gap)
    } else {
        gap
    }
}

/// What the matches `spans` of the first class contribute from the `k`-th
/// on, when the one before it ended at `offset`: for each match the stretch
/// since the last one, painted by the classes after the first, and then the
/// match in the first class's colour. What follows the last match is
/// dropped.
pub open spec fn painted_from(
    classes: Seq<ColorPatternMap>,
    text: Seq<u8>,
    spans: Seq<(usize, usize)>,
    k: int,
    offset: int,
) -> Seq<u8>
    decreases classes.len(), 0nat, spans.len() - k,
{
    if classes.len() == 0 || k < 0 || k >= spans.len() {
        Seq::empty()
    } else {
        let start = spans[k].0 as int;
        let end = spans[k].1 as int;
        painted_gap(classes, text.subrange(offset, start)) + painted_hit(
            classes[0].color,
            text.subrange(start, end),
        ) + painted_from(classes, text, spans, k + 1, end)
    }
}

/// Paints `s` with the classes of `patterns`, the first of them first.
pub fn process_color_pattern_maps(s: &str, patterns: &[ColorPatternMap]) -> (out: String)
    ensures
        encode_utf8(out@) == painted(patterns@, s.spec_bytes()),
    decreases patterns@.len(), 1nat,
{
    if patterns.len() == 0 {
        return String::new();
    }
    let spans = patterns[0].find(s);
    paint_spans(s, &spans, patterns)
}

/// Paints `s` where the matches of the first class are already in hand.
pub fn paint_spans(s: &str, spans: &Vec<(usize, usize)>, patterns: &[ColorPatternMap]) -> (out:
    String)
    requires
        patterns@.len() > 0,
        spans_fit(spans@, s.spec_bytes()),
    ensures
        encode_utf8(out@) == painted_from(patterns@, s.spec_bytes(), spans@, 0, 0),
    decreases patterns@.len(), 0nat,
{
    let ghost text = s.spec_bytes();
    let ghost whole = painted_from(patterns@, text, spans@, 0, 0);
    let mut out = String::new();
    let mut offset: usize = 0;
    let mut k: usize = 0;
    proof {
        encode_utf8_valid_utf8(s@);
        is_char_boundary_start_end_of_seq(text);
        assert(encode_utf8(out@) + whole =~= whole);
    }
    while k < spans.len()
        invariant
            k <= spans@.len(),
            patterns@.len() > 0,
            text == s.spec_bytes(),
            valid_utf8(text),
            spans_fit(spans@, text),
            offset <= text.len(),
            is_char_boundary(text, offset as int),
            k == 0 ==> offset == 0,
            k > 0 ==> offset == spans@[k - 1].1,
            whole == painted_from(patterns@, text, spans@, 0, 0),
            encode_utf8(out@) + painted_from(patterns@, text, spans@, k as int, offset as int)
                == whole,
        decreases spans@.len() - k,
    {
        let ghost before = encode_utf8(out@);
        let (start, end) = spans[k];
        proof {
            reveal(spans_fit);
            assert(spans@[k as int].0 == start && spans@[k as int].1 == end);
            if k > 0 {
                assert(spans@[k - 1].1 <= spans@[k as int].0);
            }
        }
        let gap = slice_str(s, offset, start);
        if patterns.len() > 1 {
            let rest = slice_subrange(patterns, 1, patterns.len());
            assert(rest@ =~= patterns@.drop_first());
            let inner = process_color_pattern_maps(gap, rest);
            push_str(&mut out, inner.as_str());
        } else {
            push_str(&mut out, gap);
        }
        assert(encode_utf8(out@) == before + painted_gap(
            patterns@,
            text.subrange(offset as int, start as int),
        ));
        if end > start {
            let hit = slice_str(s, start, end);
            let prefix = patterns[0].color.prefix();
            let suffix = patterns[0].color.suffix();
            push_str(&mut out, prefix.as_str());
            push_str(&mut out, hit);
            push_str(&mut out, suffix.as_str());
        }
        assert(encode_utf8(out@) =~= before + painted_gap(
            patterns@,
            text.subrange(offset as int, start as int),
        ) + painted_hit(patterns@[0].color, text.subrange(start as int, end as int)));
        assert(encode_utf8(out@) + painted_from(patterns@, text, spans@, k + 1, end as int)
            =~= whole);
        offset = end;
        k += 1;
    }
    assert(encode_utf8(out@) =~= whole);
    out
}

/// A class as the configuration writes it: a name, the patterns that the
/// class matches any one of, and its colour.
#[derive(Debug)]
pub struct ColorPatternMapTemplate {
    /// The name of the class.
    pub name: String,
    /// The patterns of the class; a match of any one is a match of the class.
    pub patterns: Vec<String>,
    /// The colour of the class, as the configuration names it.
    pub color_set: ColorSet,
}

/// The patterns as one: each an alternative of the next, parted by `|`.
pub open spec fn joined(patterns: Seq<String>) -> Seq<char>
    decreases patterns.len(),
{
    if patterns.len() == 0 {
        Seq::empty()
    } else if patterns.len() == 1 {
        patterns[0]@
    } else {
        joined(patterns.drop_last()) + seq!['|'] + patterns.last()@
    }
}

/// Joins the patterns with `|`.
pub fn join_patterns(patterns: &Vec<String>) -> (out: String)
    ensures
        out@ == joined(patterns@),
{
    let mut out = String::new();
    let mut i: usize = 0;
    while i < patterns.len()
        invariant
            i <= patterns@.len(),
            out@ == joined(patterns@.take(i as int)),
        decreases patterns@.len() - i,
    {
        let ghost upto = patterns@.take(i + 1);
        assert(upto.drop_last() =~= patterns@.take(i as int));
        if i > 0 {
            proof {
                reveal_strlit("|");
            }
            out.append("|");
        }
        out.append(patterns[i].as_str());
        i += 1;
    }
    assert(patterns@.take(i as int) =~= patterns@);
    out
}

/// The name of the class that ends every list.
pub open spec fn fallback_name() -> Seq<char> {
    seq!['d', 'e', 'f', 'a', 'u', 'l', 't']
}

/// The raw pattern of the class that ends every list: any run of characters
/// that the engine's `.` matches.
pub open spec fn fallback_pattern() -> Seq<char> {
    seq!['.', '+']
}

/// The colour of the class that ends every list.
pub open spec fn fallback_color() -> Color {
    Color::Fixed(32)
}

/// Whether the list ends with the fallback class: the class called `default`
/// that matches `.+` and paints in palette colour 32.
pub open spec fn ends_with_fallback(classes: Seq<ColorPatternMap>) -> bool {
    &&& classes.len() > 0
    &&& classes.last().wf()
    &&& classes.last().name@ == fallback_name()
    &&& classes.last().pattern@ == with_sentinel(fallback_pattern())
    &&& classes.last().color == fallback_color()
}

impl ColorPatternMapTemplate {
    /// Whether `class` is the class that this definition describes: made by
    /// `ColorPatternMap::new` from the definition's name, its patterns joined
    /// with `|`, and its colour.
    pub open spec fn describes(&self, class: ColorPatternMap) -> bool {
        &&& class.wf()
        &&& class.name@ == self.name@
        &&& class.pattern@ == with_sentinel(joined(self.patterns@))
        &&& class.color == self.color_set.spec_color()
    }

    /// Whether this is the definition of the class that ends every list.
    pub open spec fn is_fallback(&self) -> bool {
        &&& self.name@ == fallback_name()
        &&& self.patterns@.len() == 1
        &&& self.patterns@[0]@ == fallback_pattern()
        &&& self.color_set.spec_name() == seq!['3', '2']
        &&& self.color_set.spec_color() == fallback_color()
    }

    /// The definition of the class that ends every list: it is called
    /// `default`, matches `.+` and paints in palette colour 32.
    pub fn fallback() -> (template: ColorPatternMapTemplate)
        ensures
            template.is_fallback(),
    {
        let mut patterns: Vec<String> = Vec::new();
        patterns.push(String::from_str(".+"));
        let color_set = ColorSet::new("32");
        proof {
            reveal_strlit("default");
            reveal_strlit(".+");
            reveal_strlit("32");
            assert("default"@ =~= fallback_name());
            assert(".+"@ =~= fallback_pattern());
            assert("32"@ =~= seq!['3', '2']);
            lemma_token_32("32"@);
        }
        ColorPatternMapTemplate { name: String::from_str("default"), patterns, color_set }
    }

    /// Compiles the class that this definition describes.
    pub fn build(&self) -> (made: Result<ColorPatternMap, PatternError>)
        ensures
            match made {
                Ok(class) => self.describes(class),
                Err(error) => error.name@ == self.name@ && error.pattern@ == with_sentinel(
                    joined(self.patterns@),
                ),
            },
    {
        let pattern = join_patterns(&self.patterns);
        ColorPatternMap::new(self.name.as_str(), pattern.as_str(), self.color_set.color())
    }
}

/// The token `32` names palette colour 32.
proof fn lemma_token_32(token: Seq<char>)
    requires
        token == seq!['3', '2'],
    ensures
        parse_color(encode_utf8(token)) == Color::Fixed(32),
{
    is_ascii_chars_encode_utf8(token);
    reveal_with_fuel(crate::number::digits_value, 3);
}

/// A class that is as `ColorPatternMap::new` makes it keeps a list of such
/// classes one when it joins the list.
proof fn lemma_push_wf(classes: Seq<ColorPatternMap>, class: ColorPatternMap)
    requires
        class.wf(),
    ensures
        all_wf(classes) ==> all_wf(classes.push(class)),
{
    reveal(all_wf);
}

/// The colorizer: the class definitions that were loaded, and the classes
/// compiled from them, highest priority first.
#[derive(Debug)]
pub struct Colorizer {
    color_pattern_map_data_list: Vec<ColorPatternMapTemplate>,
    /// The compiled classes, highest priority first.
    pub color_pattern_maps: Vec<ColorPatternMap>,
}

impl Colorizer {
    /// The class definitions in hand, in order: those that were loaded, and
    /// behind them the fallback once `setup` has run.
    pub closed spec fn definitions(&self) -> Seq<ColorPatternMapTemplate> {
        self.color_pattern_map_data_list@
    }

    /// The compiled classes, highest priority first.
    pub closed spec fn classes(&self) -> Seq<ColorPatternMap> {
        self.color_pattern_maps@
    }

    /// A colorizer without definitions and without classes.
    pub fn new() -> (colorizer: Colorizer)
        ensures
            colorizer.definitions().len() == 0,
            colorizer.classes().len() == 0,
            all_wf(colorizer.classes()),
    {
        proof {
            reveal(all_wf);
        }
        Colorizer { color_pattern_map_data_list: Vec::new(), color_pattern_maps: Vec::new() }
    }

    /// Takes the class definitions of a configuration file, in the file's
    /// order, behind those that were loaded before.
    pub fn load_config_file(&mut self, definitions: Vec<ColorPatternMapTemplate>)
        ensures
            final(self).definitions() == old(self).definitions() + definitions@,
            final(self).classes() == old(self).classes(),
    {
        let mut definitions = definitions;
        self.color_pattern_map_data_list.append(&mut definitions);
    }

    /// Ends the list of definitions with the fallback and compiles a class
    /// for each definition, in order, behind the classes that were there.
    /// The first pattern that the engine refuses ends the work: the classes
    /// before it stay, and its refusal comes back.
    pub fn setup(&mut self) -> (done: Result<(), PatternError>)
        ensures
            final(self).definitions().len() == old(self).definitions().len() + 1,
            final(self).definitions().drop_last() == old(self).definitions(),
            final(self).definitions().last().is_fallback(),
            all_wf(old(self).classes()) ==> all_wf(final(self).classes()),
            ({
                let definitions = final(self).definitions();
                let before = old(self).classes();
                let after = final(self).classes();
                match done {
                    Ok(_) => {
                        &&& after.len() == before.len() + definitions.len()
                        &&& ends_with_fallback(after)
                        &&& after.subrange(0, before.len() as int) == before
                        &&& forall|i: int|
                            0 <= i < definitions.len() ==> (#[trigger] definitions[i]).describes(
                                after[before.len() + i],
                            )
                    },
                    Err(error) => {
                        let made = after.len() - before.len();
                        &&& 0 <= made < definitions.len()
                        &&& after.subrange(0, before.len() as int) == before
                        &&& forall|i: int|
                            0 <= i < made ==> (#[trigger] definitions[i]).describes(
                                after[before.len() + i],
                            )
                        &&& error.name@ == definitions[made].name@
                        &&& error.pattern@ == with_sentinel(joined(definitions[made].patterns@))
                    },
                }
            }),
    {
        self.color_pattern_map_data_list.push(ColorPatternMapTemplate::fallback());
        let ghost before = self.color_pattern_maps@;
        let mut i: usize = 0;
        while i < self.color_pattern_map_data_list.len()
            invariant
                i <= self.definitions().len(),
                self.definitions() == self.color_pattern_map_data_list@,
                self.definitions().len() == old(self).definitions().len() + 1,
                self.definitions().drop_last() == old(self).definitions(),
                self.definitions().last().is_fallback(),
                before == old(self).color_pattern_maps@,
                all_wf(before) ==> all_wf(self.color_pattern_maps@),
                self.color_pattern_maps@.len() == before.len() + i,
                self.color_pattern_maps@.subrange(0, before.len() as int) == before,
                forall|j: int|
                    0 <= j < i ==> (#[trigger] self.definitions()[j]).describes(
                        self.color_pattern_maps@[before.len() + j],
                    ),
            decreases self.definitions().len() - i,
        {
            let ghost maps = self.color_pattern_maps@;
            match self.color_pattern_map_data_list[i].build() {
                Ok(class) => {
                    self.color_pattern_maps.push(class);
                    proof {
                        lemma_push_wf(maps, class);
                    }
                },
                Err(error) => {
                    return Err(error);
                },
            }
            i += 1;
        }
        Ok(())
    }

    /// Paints one line, its newline included, with the classes of the
    /// colorizer.
    pub fn colorize(&self, s: &str) -> (out: String)
        ensures
            encode_utf8(out@) == painted(self.classes(), s.spec_bytes()),
    {
        process_color_pattern_maps(s, self.color_pattern_maps.as_slice())
    }
}

} // verus!

//! Pattern classes: a named regular expression with the colour that its
//! matches are painted in, and the matches that a compiled regex finds.

use vstd::prelude::*;
use vstd::string::*;
use vstd::utf8::*;
use crate::color::Color;

verus! {

/// `regex::Regex`, a compiled regular expression, held as the crate made it.
#[verifier::external_type_specification]
#[verifier::external_body]
pub struct ExRegex(regex::Regex);

/// `regex::Error`, the crate's refusal of a pattern, held as the crate made
/// it.
#[verifier::external_type_specification]
#[verifier::external_body]
pub struct ExRegexError(regex::Error);

/// The pattern text that `regex::Regex::as_str` reports for a compiled regex.
pub uninterp spec fn regex_source(re: regex::Regex) -> Seq<char>;

/// The matches that `regex::Regex::find_iter` yields on a haystack, in the
/// order in which the iterator yields them, each as the byte offsets of its
/// start and its end.
pub uninterp spec fn regex_spans(re: regex::Regex, haystack: Seq<char>) -> Seq<(usize, usize)>;

/// Whether `spans` are matches in `text` as a match iterator yields them: each
/// lies in the text, starts and ends on a character boundary, and starts no
/// earlier than the one before it ended.
#[verifier::opaque]
pub open spec fn spans_fit(spans: Seq<(usize, usize)>, text: Seq<u8>) -> bool {
    &&& forall|k: int|
        0 <= k < spans.len() ==> {
            &&& (#[trigger] spans[k]).0 <= spans[k].1 <= text.len()
            &&& is_char_boundary(text, spans[k].0 as int)
            &&& is_char_boundary(text, spans[k].1 as int)
        }
    &&& forall|j: int, k: int|
        0 <= j < k < spans.len() ==> (#[trigger] spans[j]).1 <= (#[trigger] spans[k]).0
}

/// Whether the matches of `re` in every haystack are as a match iterator
/// yields them.
pub open spec fn regex_fits(re: regex::Regex) -> bool {
    forall|haystack: Seq<char>|
        spans_fit(#[trigger] regex_spans(re, haystack), encode_utf8(haystack))
}

/// Calls `regex::Regex::new`. A regex that comes back reports the given
/// pattern as its source, and finds in every haystack successive matches
/// that do not overlap, each with its start no later than its end and both
/// on character boundaries of the haystack, as the crate documents of its
/// match iterator. Whether a regex comes back is the crate's to decide: it
/// refuses a pattern that is malformed or that compiles to more than its
/// size limit allows.
#[verifier::external_body]
fn compile(pattern: &str) -> (compiled: Result<regex::Regex, regex::Error>)
    ensures
        compiled matches Ok(re) ==> regex_source(re) == pattern@ && regex_fits(re),
{
    regex::Regex::new(pattern)
}

/// Calls `regex::Regex::find_iter` and keeps of each match what
/// `regex::Match::start` and `regex::Match::end` give. The crate yields
/// successive matches that do not overlap, and documents of each that its
/// start is no later than its end and that both fall on character boundaries
/// of the haystack.
#[verifier::external_body]
fn find_spans(re: &regex::Regex, haystack: &str) -> (spans: Vec<(usize, usize)>)
    ensures
        spans@ == regex_spans(*re, haystack@),
        spans_fit(spans@, haystack.spec_bytes()),
{
    re.find_iter(haystack).map(|m| (m.start(), m.end())).collect()
}

/// A pattern that the regex engine refused.
#[derive(Debug)]
pub struct PatternError {
    /// The name of the class that the pattern was meant for.
    pub name: String,
    /// The pattern as it went to the engine.
    pub pattern: String,
    /// What the engine said.
    pub cause: regex::Error,
}

/// A named class of matches and the colour that they are painted in.
#[derive(Debug)]
pub struct ColorPatternMap {
    /// A label; it plays no part in matching.
    pub name: String,
    /// The pattern as it went to the engine: `(RAW)|$` for the raw pattern
    /// that the class was made from.
    pub pattern: String,
    /// The compiled pattern.
    pub regex_pattern: regex::Regex,
    /// The colour of the class's matches.
    pub color: Color,
}

/// A raw pattern as it goes to the engine: in a group, with the end of the
/// text as an alternative, so that the last match ends where the text ends.
pub open spec fn with_sentinel(raw: Seq<char>) -> Seq<char> {
    seq!['('] + raw + seq![')', '|', '$']
}

impl ColorPatternMap {
    /// Whether the class is as `new` makes it: its pattern has the shape
    /// `(RAW)|$`, and its regex was compiled from that pattern.
    pub open spec fn wf(&self) -> bool {
        &&& exists|raw: Seq<char>| self.pattern@ == with_sentinel(raw)
        &&& regex_source(self.regex_pattern) == self.pattern@
        &&& regex_fits(self.regex_pattern)
    }

    /// The matches of the class in a text of UTF-8 bytes.
    pub open spec fn spans(&self, text: Seq<u8>) -> Seq<(usize, usize)> {
        regex_spans(self.regex_pattern, decode_utf8(text))
    }

    /// Makes the class from what the engine answered to its pattern: the
    /// class where it compiled, the engine's refusal where it did not.
    pub fn from_compiled(
        name: &str,
        pattern: String,
        compiled: Result<regex::Regex, regex::Error>,
        color: Color,
    ) -> (made: Result<ColorPatternMap, PatternError>)
        ensures
            match compiled {
                Ok(re) => made matches Ok(class) && class.name@ == name@ && class.pattern@
                    == pattern@ && class.regex_pattern == re && class.color == color,
                Err(cause) => made matches Err(error) && error.name@ == name@ && error.pattern@
                    == pattern@ && error.cause == cause,
            },
    {
        match compiled {
            Ok(re) => Ok(
                ColorPatternMap { name: name.to_owned(), pattern, regex_pattern: re, color },
            ),
            Err(cause) => Err(PatternError { name: name.to_owned(), pattern, cause }),
        }
    }

    /// Compiles `(RAW)|$` for the raw pattern given, once, and makes the
    /// class. The engine decides whether the pattern compiles; where it does
    /// not, its refusal comes back.
    pub fn new(name: &str, pattern: &str, color: Color) -> (made: Result<
        ColorPatternMap,
        PatternError,
    >)
        ensures
            match made {
                Ok(class) => class.wf() && class.name@ == name@ && class.pattern@ == with_sentinel(
                    pattern@,
                ) && class.color == color,
                Err(error) => error.name@ == name@ && error.pattern@ == with_sentinel(pattern@),
            },
    {
        let mut wrapped = String::from_str("(");
        wrapped.append(pattern);
        wrapped.append(")|$");
        proof {
            reveal_strlit("(");
            reveal_strlit(")|$");
        }
        let compiled = compile(wrapped.as_str());
        ColorPatternMap::from_compiled(name, wrapped, compiled, color)
    }

    /// The matches of the class in `text`, in order.
    pub fn find(&self, text: &str) -> (spans: Vec<(usize, usize)>)
        ensures
            spans@ == self.spans(text.spec_bytes()),
            spans_fit(spans@, text.spec_bytes()),
    {
        proof {
            encode_utf8_decode_utf8(text@);
        }
        find_spans(&self.regex_pattern, text)
    }
}

/// Whether every class of the list is as `ColorPatternMap::new` makes it.
#[verifier::opaque]
pub open spec fn all_wf(classes: Seq<ColorPatternMap>) -> bool {
    forall|i: int| 0 <= i < classes.len() ==> (#[trigger] classes[i]).wf()
}

} // verus!

//! What is written for one line of the input: whether the line lies in the
//! context window, its number, its colours, and whether the run goes on after
//! it.

use vstd::prelude::*;
use vstd::string::*;
use vstd::utf8::*;
use crate::color::{BRACKET, ESC, LETTER_M};
use crate::colorizer::{painted, Colorizer};
use crate::config::Config;
use crate::number::{decimal, lemma_signed_decimal_short, push_signed_decimal, signed_decimal};
use crate::pattern::ColorPatternMap;
use crate::text::push_str;

verus! {

/// The byte of the blank.
pub const SPACE: u8 = 0x20;

/// The width of the field that holds a line's number.
pub const NUMBER_WIDTH: usize = 6;

/// Whether line `nr` is written: every line where there is no base line, else
/// the lines up to `context` away from the base line.
pub open spec fn in_window(base_line: int, context: int, nr: int) -> bool {
    base_line <= 0 || base_line - context <= nr <= base_line + context
}

/// Whether line `nr` is the last of the window, after which nothing is read.
pub open spec fn ends_window(base_line: int, context: int, nr: int) -> bool {
    base_line > 0 && nr == base_line + context
}

/// `n` blanks.
pub open spec fn blanks(n: nat) -> Seq<u8> {
    Seq::new(n, |i: int| SPACE)
}

/// `text` at the right of a field of `width` bytes, after as many blanks as
/// it leaves free; a longer text as it is.
pub open spec fn right_aligned(text: Seq<u8>, width: nat) -> Seq<u8> {
    if text.len() < width {
        blanks((width - text.len()) as nat) + text
    } else {
        text
    }
}

/// The number of a line as it goes before the line: in decimal, at the right
/// of a field of six, and a blank.
pub open spec fn number_field(nr: int) -> Seq<u8> {
    right_aligned(signed_decimal(nr), NUMBER_WIDTH as nat) + seq![SPACE]
}

/// The sequence that switches the highlight of the base line on: `ESC[32m`,
/// green.
pub open spec fn highlight_on() -> Seq<u8> {
    seq![ESC, BRACKET] + decimal(32) + seq![LETTER_M]
}

/// The sequence that switches the highlight off: `ESC[m`.
pub open spec fn highlight_off() -> Seq<u8> {
    seq![ESC, BRACKET, LETTER_M]
}

/// What is written for line `nr`. Outside the window nothing. In it the
/// number field where lines are numbered, then the line, painted where colour
/// is on; where colour is on, the base line stands between the highlight
/// sequences, number field included.
pub open spec fn rendered_line(
    config: Config,
    color_flag: bool,
    classes: Seq<ColorPatternMap>,
    nr: int,
    line: Seq<u8>,
) -> Seq<u8> {
    if in_window(config.base_line as int, config.line_context as int, nr) {
        let highlight = color_flag && nr == config.base_line;
        (if highlight {
            highlight_on()
        } else {
            Seq::empty()
        }) + (if config.line_number {
            number_field(nr)
        } else {
            Seq::empty()
        }) + (if color_flag {
            painted(classes, line)
        } else {
            line
        }) + (if highlight {
            highlight_off()
        } else {
            Seq::empty()
        })
    } else {
        Seq::empty()
    }
}

/// What one line of the input leads to.
#[derive(Debug)]
pub struct Rendered {
    /// What is written for the line.
    pub text: String,
    /// Whether the next line is read.
    pub proceed: bool,
}

/// Appends the number field of line `nr` to `out`.
pub fn push_number_field(out: &mut String, nr: i32)
    ensures
        encode_utf8(final(out)@) == encode_utf8(old(out)@) + number_field(nr as int),
{
    let mut numeral = String::new();
    push_signed_decimal(&mut numeral, nr);
    let blank = " ";
    proof {
        reveal_strlit(" ");
        is_ascii_chars_encode_utf8(blank@);
        lemma_signed_decimal_short(nr as int);
    }
    let len: usize = numeral.as_str().len();
    let mut i: usize = len;
    while i < NUMBER_WIDTH
        invariant
            len <= i,
            len < NUMBER_WIDTH ==> i <= NUMBER_WIDTH,
            len >= NUMBER_WIDTH ==> i == len,
            blank.spec_bytes() == seq![SPACE],
            encode_utf8(numeral@) == signed_decimal(nr as int),
            len == signed_decimal(nr as int).len(),
            encode_utf8(out@) == encode_utf8(old(out)@) + blanks((i - len) as nat),
        decreases NUMBER_WIDTH - i,
    {
        push_str(out, blank);
        i += 1;
    }
    push_str(out, numeral.as_str());
    push_str(out, blank);
}

/// Renders line `nr` of the input: what is written for it, and whether the
/// run goes on. The run stops after the last line of the context window.
pub fn render_line(
    config: &Config,
    color_flag: bool,
    colorizer: &Colorizer,
    nr: i32,
    line: &str,
) -> (rendered: Rendered)
    ensures
        encode_utf8(rendered.text@) == rendered_line(
            *config,
            color_flag,
            colorizer.classes(),
            nr as int,
            line.spec_bytes(),
        ),
        rendered.proceed == !ends_window(
            config.base_line as int,
            config.line_context as int,
            nr as int,
        ),
{
    let base: i64 = config.base_line as i64;
    let context: i64 = config.line_context as i64;
    let n: i64 = nr as i64;
    let mut text = String::new();
    if base <= 0 || (base - context <= n && n <= base + context) {
        let highlight = color_flag && nr == config.base_line;
        if highlight {
            let on = "\x1b[32m";
            proof {
                reveal_strlit("\x1b[32m");
                is_ascii_chars_encode_utf8(on@);
                reveal_with_fuel(decimal, 2);
            }
            push_str(&mut text, on);
        }
        if config.line_number {
            push_number_field(&mut text, nr);
        }
        if color_flag {
            let coloured = colorizer.colorize(line);
            push_str(&mut text, coloured.as_str());
        } else {
            push_str(&mut text, line);
        }
        if highlight {
            let off = "\x1b[m";
            proof {
                reveal_strlit("\x1b[m");
                is_ascii_chars_encode_utf8(off@);
            }
            push_str(&mut text, off);
        }
    }
    let proceed = !(base > 0 && n == base + context);
    Rendered { text, proceed }
}

} // verus!

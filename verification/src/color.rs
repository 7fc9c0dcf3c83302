//! Foreground colours: what a colour token of the configuration stands for,
//! and the escape sequences that switch a colour on and off.

use vstd::prelude::*;
use vstd::string::*;
use vstd::utf8::*;
use crate::number::{decimal, parse_u8_spec, read_u8, PLUS};

verus! {

/// An ANSI foreground colour.
#[derive(Clone, Copy, Debug, PartialEq, Eq, Structural)]
pub enum Color {
    /// An index into the 256-colour palette.
    Fixed(u8),
    /// A 24-bit colour: red, green, blue.
    RGB(u8, u8, u8),
}

/// The escape byte that begins every control sequence.
pub const ESC: u8 = 0x1b;

/// The byte `[`, which follows the escape byte.
pub const BRACKET: u8 = 0x5b;

/// The byte `;`, which parts the parameters of a sequence.
pub const SEMICOLON: u8 = 0x3b;

/// The byte `m`, which ends a sequence that sets graphic attributes.
pub const LETTER_M: u8 = 0x6d;

/// The byte `#`, which begins an RGB token.
pub const HASH: u8 = 0x23;

/// The colour that stands in for a token that names none.
pub const FALLBACK_INDEX: u8 = 7;

/// The sequence that sets `color` as the foreground: `ESC[38;5;Nm` for a
/// palette index, `ESC[38;2;R;G;Bm` for an RGB triple.
pub open spec fn sgr_prefix(color: Color) -> Seq<u8> {
    match color {
        Color::Fixed(n) => seq![ESC, BRACKET] + decimal(38) + seq![SEMICOLON] + decimal(5)
            + seq![SEMICOLON] + decimal(n as nat) + seq![LETTER_M],
        Color::RGB(r, g, b) => seq![ESC, BRACKET] + decimal(38) + seq![SEMICOLON] + decimal(2)
            + seq![SEMICOLON] + decimal(r as nat) + seq![SEMICOLON] + decimal(g as nat)
            + seq![SEMICOLON] + decimal(b as nat) + seq![LETTER_M],
    }
}

/// The sequence that resets all attributes: `ESC[0m`.
pub open spec fn sgr_suffix() -> Seq<u8> {
    seq![ESC, BRACKET] + decimal(0) + seq![LETTER_M]
}

/// Calls `ansi_term::Colour::prefix` and writes the result out. For a palette
/// index and for an RGB triple the crate writes `ESC[`, the foreground code
/// `38;5;N` or `38;2;R;G;B` with each number in decimal, and `m`.
#[verifier::external_body]
fn colour_prefix(color: Color) -> (text: String)
    ensures
        encode_utf8(text@) == sgr_prefix(color),
{
    match color {
        Color::Fixed(n) => ansi_term::Colour::Fixed(n).prefix().to_string(),
        Color::RGB(r, g, b) => ansi_term::Colour::RGB(r, g, b).prefix().to_string(),
    }
}

/// Calls `ansi_term::Colour::suffix` and writes the result out. For every
/// colour the crate writes its reset sequence, `ESC[0m`.
#[verifier::external_body]
fn colour_suffix(color: Color) -> (text: String)
    ensures
        encode_utf8(text@) == sgr_suffix(),
{
    match color {
        Color::Fixed(n) => ansi_term::Colour::Fixed(n).suffix().to_string(),
        Color::RGB(r, g, b) => ansi_term::Colour::RGB(r, g, b).suffix().to_string(),
    }
}

impl Color {
    /// Reads a colour token; this never fails. `#` and six more bytes name
    /// an RGB triple where each pair of the six reads as a hexadecimal byte;
    /// a numeral without a minus sign names a palette index where it is no
    /// more than 255. Every other token names palette index 7.
    pub fn parse(token: &str) -> (color: Color)
        ensures
            color == parse_color(token.spec_bytes()),
    {
        let bytes = token.as_bytes();
        let fallback = Color::Fixed(FALLBACK_INDEX);
        if bytes.len() == 7 && bytes[0] == HASH {
            match (
                read_hex_pair(bytes[1], bytes[2]),
                read_hex_pair(bytes[3], bytes[4]),
                read_hex_pair(bytes[5], bytes[6]),
            ) {
                (Some(r), Some(g), Some(b)) => Color::RGB(r, g, b),
                _ => fallback,
            }
        } else {
            match read_u8(token) {
                Some(n) => Color::Fixed(n),
                None => fallback,
            }
        }
    }

    /// The text that switches this colour on.
    pub fn prefix(&self) -> (text: String)
        ensures
            encode_utf8(text@) == sgr_prefix(*self),
    {
        colour_prefix(*self)
    }

    /// The text that switches every colour off again.
    pub fn suffix(&self) -> (text: String)
        ensures
            encode_utf8(text@) == sgr_suffix(),
    {
        colour_suffix(*self)
    }
}

/// What a byte stands for as a hexadecimal digit, in either case.
pub open spec fn hex_value(b: u8) -> Option<nat> {
    if 0x30 <= b <= 0x39 {
        Some((b - 0x30) as nat)
    } else if 0x61 <= b <= 0x66 {
        Some((b - 0x61 + 10) as nat)
    } else if 0x41 <= b <= 0x46 {
        Some((b - 0x41 + 10) as nat)
    } else {
        None
    }
}

/// What two bytes stand for as a hexadecimal byte: two digits, or a plus sign
/// and one digit.
pub open spec fn hex_pair(high: u8, low: u8) -> Option<u8> {
    match hex_value(low) {
        Some(l) => match hex_value(high) {
            Some(h) => Some((16 * h + l) as u8),
            None => if high == PLUS {
                Some(l as u8)
            } else {
                None
            },
        },
        None => None,
    }
}

/// The colour that a token names. `#` and six more bytes that read as three
/// hexadecimal bytes name an RGB triple; a decimal numeral up to 255 names a
/// palette index; every other token names palette index 7.
pub open spec fn parse_color(token: Seq<u8>) -> Color {
    if token.len() == 7 && token[0] == HASH {
        match (
            hex_pair(token[1], token[2]),
            hex_pair(token[3], token[4]),
            hex_pair(token[5], token[6]),
        ) {
            (Some(r), Some(g), Some(b)) => Color::RGB(r, g, b),
            _ => Color::Fixed(FALLBACK_INDEX),
        }
    } else {
        match parse_u8_spec(token) {
            Some(n) => Color::Fixed(n),
            None => Color::Fixed(FALLBACK_INDEX),
        }
    }
}

/// Reads a hexadecimal digit, in either case.
fn read_hex_digit(b: u8) -> (value: Option<u8>)
    ensures
        match value {
            Some(v) => hex_value(b) == Some(v as nat),
            None => hex_value(b) is None,
        },
{
    if 0x30 <= b && b <= 0x39 {
        Some(b - 0x30)
    } else if 0x61 <= b && b <= 0x66 {
        Some(b - 0x61 + 10)
    } else if 0x41 <= b && b <= 0x46 {
        Some(b - 0x41 + 10)
    } else {
        None
    }
}

/// Reads two bytes as a hexadecimal byte.
fn read_hex_pair(high: u8, low: u8) -> (value: Option<u8>)
    ensures
        value == hex_pair(high, low),
{
    match read_hex_digit(low) {
        Some(l) => match read_hex_digit(high) {
            Some(h) => Some(16 * h + l),
            None => if high == PLUS {
                Some(l)
            } else {
                None
            },
        },
        None => None,
    }
}

/// A colour as the configuration writes it: the token, and the colour that it
/// names.
#[derive(Debug)]
pub struct ColorSet {
    name: String,
    color: Color,
}

impl ColorSet {
    /// The token as it was given.
    pub closed spec fn spec_name(&self) -> Seq<char> {
        self.name@
    }

    /// The colour that the token names.
    pub closed spec fn spec_color(&self) -> Color {
        self.color
    }

    /// Keeps a colour token with the colour that it names. Every token names
    /// a colour: one that is neither an RGB token nor a palette index names
    /// palette index 7.
    pub fn new(name: &str) -> (set: ColorSet)
        ensures
            set.spec_name() == name@,
            set.spec_color() == parse_color(name.spec_bytes()),
    {
        ColorSet { name: name.to_owned(), color: Color::parse(name) }
    }

    /// The token as it was given.
    pub fn name(&self) -> (name: &str)
        ensures
            name@ == self.spec_name(),
    {
        self.name.as_str()
    }

    /// The colour that the token names.
    pub fn color(&self) -> (color: Color)
        ensures
            color == self.spec_color(),
    {
        self.color
    }
}

} // verus!

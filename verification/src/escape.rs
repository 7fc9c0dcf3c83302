//! Escape sequences as a reader of the output sees them: which bytes form a
//! sequence that sets graphic attributes, and what is left of a text when
//! every such sequence is taken out.

use vstd::prelude::*;
use crate::color::{sgr_prefix, sgr_suffix, Color, BRACKET, ESC, LETTER_M, SEMICOLON};
use crate::number::{decimal, is_digit, lemma_decimal_digits};

verus! {

/// Whether `b` may stand between `ESC[` and `m`: a decimal digit or `;`.
pub open spec fn is_param(b: u8) -> bool {
    is_digit(b) || b == SEMICOLON
}

/// Whether every byte of `s` is a parameter byte.
pub open spec fn all_params(s: Seq<u8>) -> bool {
    forall|i: int| 0 <= i < s.len() ==> is_param(#[trigger] s[i])
}

/// How many parameter bytes `bytes` begins with.
pub open spec fn param_run(bytes: Seq<u8>) -> nat
    decreases bytes.len(),
{
    if bytes.len() > 0 && is_param(bytes[0]) {
        1 + param_run(bytes.drop_first())
    } else {
        0
    }
}

/// The length of the sequence `ESC[ ... m` that `bytes` begins with, or 0
/// where it begins with none.
pub open spec fn sgr_len(bytes: Seq<u8>) -> nat {
    if bytes.len() >= 2 && bytes[0] == ESC && bytes[1] == BRACKET {
        let n = param_run(bytes.skip(2));
        if 2 + n < bytes.len() && bytes[2 + n as int] == LETTER_M {
            3 + n
        } else {
            0
        }
    } else {
        0
    }
}

/// `bytes` without its sequences: read from the left, each sequence is left
/// out whole, and every other byte is kept.
#[verifier::opaque]
pub open spec fn strip_sgr(bytes: Seq<u8>) -> Seq<u8>
    decreases bytes.len(),
{
    if bytes.len() == 0 {
        Seq::empty()
    } else if sgr_len(bytes) > 0 {
        strip_sgr(bytes.skip(sgr_len(bytes) as int))
    } else {
        seq![bytes[0]] + strip_sgr(bytes.drop_first())
    }
}

/// Whether no sequence begins anywhere in `text`.
pub open spec fn sgr_free(text: Seq<u8>) -> bool {
    forall|i: int| 0 <= i < text.len() ==> sgr_len(#[trigger] text.skip(i)) == 0
}

/// A run of parameter bytes is no longer than the bytes it is taken from, and
/// ends at their end or before a byte that is no parameter.
pub(crate) proof fn lemma_param_run_stops(bytes: Seq<u8>)
    ensures
        param_run(bytes) <= bytes.len(),
        param_run(bytes) < bytes.len() ==> !is_param(bytes[param_run(bytes) as int]),
    decreases bytes.len(),
{
    if bytes.len() > 0 && is_param(bytes[0]) {
        lemma_param_run_stops(bytes.drop_first());
    }
}

/// The run of a concatenation: that of the first part where it stops inside
/// it, else the whole first part and the run of the second.
pub(crate) proof fn lemma_param_run_concat(v: Seq<u8>, w: Seq<u8>)
    ensures
        param_run(v) <= v.len(),
        param_run(v + w) == if param_run(v) < v.len() {
            param_run(v)
        } else {
            v.len() + param_run(w)
        },
    decreases v.len(),
{
    if v.len() > 0 {
        assert((v + w).drop_first() =~= v.drop_first() + w);
        lemma_param_run_concat(v.drop_first(), w);
    }
}

/// Parameter bytes all through run to their end.
pub(crate) proof fn lemma_param_run_all(params: Seq<u8>)
    requires
        all_params(params),
    ensures
        param_run(params) == params.len(),
    decreases params.len(),
{
    if params.len() > 0 {
        lemma_param_run_all(params.drop_first());
    }
}

/// `ESC[`, parameter bytes and `m` form a sequence, whatever follows.
pub(crate) proof fn lemma_sequence_len(params: Seq<u8>, rest: Seq<u8>)
    requires
        all_params(params),
    ensures
        sgr_len(seq![ESC, BRACKET] + params + seq![LETTER_M] + rest) == params.len() + 3,
{
    let whole = seq![ESC, BRACKET] + params + seq![LETTER_M] + rest;
    let tail = seq![LETTER_M] + rest;
    assert(whole.skip(2) =~= params + tail);
    lemma_param_run_all(params);
    lemma_param_run_concat(params, tail);
}

/// A sequence at the front of a text is left out whole.
pub(crate) proof fn lemma_strip_sequence(params: Seq<u8>, rest: Seq<u8>)
    requires
        all_params(params),
    ensures
        strip_sgr(seq![ESC, BRACKET] + params + seq![LETTER_M] + rest) == strip_sgr(rest),
{
    reveal(strip_sgr);
    let whole = seq![ESC, BRACKET] + params + seq![LETTER_M] + rest;
    lemma_sequence_len(params, rest);
    assert(whole.skip(params.len() as int + 3) =~= rest);
}

/// Numerals parted by `;` are parameter bytes.
pub(crate) proof fn lemma_numeral_params(n: nat)
    ensures
        all_params(decimal(n)),
{
    lemma_decimal_digits(n);
}

/// The parameter bytes of the sequence that switches `color` on.
pub open spec fn prefix_params(color: Color) -> Seq<u8> {
    match color {
        Color::Fixed(n) => decimal(38) + seq![SEMICOLON] + decimal(5) + seq![SEMICOLON] + decimal(
            n as nat,
        ),
        Color::RGB(r, g, b) => decimal(38) + seq![SEMICOLON] + decimal(2) + seq![SEMICOLON]
            + decimal(r as nat) + seq![SEMICOLON] + decimal(g as nat) + seq![SEMICOLON] + decimal(
            b as nat,
        ),
    }
}

/// The sequence that switches a colour on is `ESC[`, parameter bytes and `m`.
pub(crate) proof fn lemma_prefix_shape(color: Color)
    ensures
        all_params(prefix_params(color)),
        sgr_prefix(color) == seq![ESC, BRACKET] + prefix_params(color) + seq![LETTER_M],
{
    lemma_numeral_params(38);
    match color {
        Color::Fixed(n) => {
            lemma_numeral_params(n as nat);
        },
        Color::RGB(r, g, b) => {
            lemma_numeral_params(r as nat);
            lemma_numeral_params(g as nat);
            lemma_numeral_params(b as nat);
        },
    }
}

/// The sequence that switches a colour on is left out whole.
pub proof fn lemma_strip_prefix(color: Color, rest: Seq<u8>)
    ensures
        strip_sgr(sgr_prefix(color) + rest) == strip_sgr(rest),
        sgr_prefix(color).len() > 0,
        sgr_prefix(color)[0] == ESC,
{
    lemma_prefix_shape(color);
    lemma_strip_sequence(prefix_params(color), rest);
}

/// The sequence that switches colours off is left out whole.
pub proof fn lemma_strip_suffix(rest: Seq<u8>)
    ensures
        strip_sgr(sgr_suffix() + rest) == strip_sgr(rest),
        sgr_suffix().len() > 0,
        sgr_suffix()[0] == ESC,
{
    lemma_strip_sequence(decimal(0), rest);
}

/// Nothing is left of nothing.
pub proof fn lemma_strip_empty()
    ensures
        strip_sgr(Seq::empty()) == Seq::<u8>::empty(),
{
    reveal(strip_sgr);
}

/// In a text that holds no sequence, none begins in a stretch of it either,
/// where the stretch is followed by nothing or by an escape byte.
pub(crate) proof fn lemma_no_sequence_across(text: Seq<u8>, a: int, b: int, then: Seq<u8>)
    requires
        sgr_free(text),
        0 <= a < b <= text.len(),
        then.len() == 0 || then[0] == ESC,
    ensures
        sgr_len(text.subrange(a, b) + then) == 0,
{
    let piece = text.subrange(a, b);
    let here = piece + then;
    let there = text.skip(a);
    if here.len() >= 2 && here[0] == ESC && here[1] == BRACKET {
        let v = piece.skip(2);
        let w = text.skip(b);
        assert(here.skip(2) =~= v + then);
        assert(there.skip(2) =~= v + w);
        lemma_param_run_concat(v, then);
        lemma_param_run_concat(v, w);
    }
}

/// In a text that holds no sequence, a stretch that is followed by nothing
/// or by an escape byte is kept whole.
pub proof fn lemma_strip_keeps(text: Seq<u8>, a: int, b: int, then: Seq<u8>)
    requires
        sgr_free(text),
        0 <= a <= b <= text.len(),
        then.len() == 0 || then[0] == ESC,
    ensures
        strip_sgr(text.subrange(a, b) + then) == text.subrange(a, b) + strip_sgr(then),
    decreases b - a,
{
    reveal(strip_sgr);
    let piece = text.subrange(a, b);
    if a < b {
        lemma_no_sequence_across(text, a, b, then);
        lemma_strip_keeps(text, a + 1, b, then);
        assert((piece + then).drop_first() =~= text.subrange(a + 1, b) + then);
    }
}

} // verus!

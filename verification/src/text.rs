//! Strings as UTF-8 bytes: the facts about encodings and the small string
//! operations that the rest of the crate builds on.

use vstd::prelude::*;
use vstd::string::*;
use vstd::utf8::*;

verus! {

/// Encoding distributes over concatenation.
pub proof fn lemma_utf8_concat(a: Seq<char>, b: Seq<char>)
    ensures
        encode_utf8(a + b) == encode_utf8(a) + encode_utf8(b),
    decreases a.len(),
{
    if a.len() > 0 {
        lemma_utf8_concat(a.drop_first(), b);
        assert((a + b).drop_first() =~= a.drop_first() + b);
    }
}

/// Two character sequences with the same encoding are the same sequence.
pub proof fn lemma_utf8_injective(a: Seq<char>, b: Seq<char>)
    requires
        encode_utf8(a) == encode_utf8(b),
    ensures
        a == b,
{
    encode_utf8_decode_utf8(a);
    encode_utf8_decode_utf8(b);
}

/// A character boundary of a text is also one of each prefix that reaches it.
pub proof fn lemma_boundary_in_prefix(bytes: Seq<u8>, at: int, to: int)
    requires
        valid_utf8(bytes),
        0 <= at <= to <= bytes.len(),
        is_char_boundary(bytes, at),
        is_char_boundary(bytes, to),
    ensures
        valid_utf8(bytes.subrange(0, to)),
        is_char_boundary(bytes.subrange(0, to), at),
{
    let head = bytes.subrange(0, to);
    valid_utf8_split(bytes, to);
    if at == to {
        is_char_boundary_start_end_of_seq(head);
    } else {
        is_char_boundary_iff_not_is_continuation_byte(bytes, at);
        is_char_boundary_iff_not_is_continuation_byte(head, at);
    }
}

/// The stretch between two character boundaries of a text is a text.
pub proof fn lemma_valid_slice(bytes: Seq<u8>, from: int, to: int)
    requires
        valid_utf8(bytes),
        0 <= from <= to <= bytes.len(),
        is_char_boundary(bytes, from),
        is_char_boundary(bytes, to),
    ensures
        valid_utf8(bytes.subrange(from, to)),
{
    let head = bytes.subrange(0, to);
    lemma_boundary_in_prefix(bytes, from, to);
    valid_utf8_split(head, from);
    assert(head.subrange(from, head.len() as int) =~= bytes.subrange(from, to));
}

/// The stretch of `s` between two byte offsets that fall on character
/// boundaries.
pub fn slice_str<'a>(s: &'a str, from: usize, to: usize) -> (piece: &'a str)
    requires
        from <= to <= s.spec_bytes().len(),
        is_char_boundary(s.spec_bytes(), from as int),
        is_char_boundary(s.spec_bytes(), to as int),
    ensures
        piece.spec_bytes() == s.spec_bytes().subrange(from as int, to as int),
{
    proof {
        encode_utf8_valid_utf8(s@);
        lemma_boundary_in_prefix(s.spec_bytes(), from as int, to as int);
    }
    let (head, _) = s.split_at(to);
    let (_, piece) = head.split_at(from);
    piece
}

/// Whether two strings hold the same characters.
pub fn str_eq(a: &str, b: &str) -> (same: bool)
    ensures
        same == (a@ == b@),
{
    let x = a.as_bytes();
    let y = b.as_bytes();
    if x.len() != y.len() {
        return false;
    }
    let mut i: usize = 0;
    while i < x.len()
        invariant
            i <= x.len(),
            x.len() == y.len(),
            x@ == a.spec_bytes(),
            y@ == b.spec_bytes(),
            forall|j: int| 0 <= j < i ==> x@[j] == y@[j],
        decreases x.len() - i,
    {
        if x[i] != y[i] {
            return false;
        }
        i += 1;
    }
    proof {
        assert(x@ =~= y@);
        lemma_utf8_injective(a@, b@);
    }
    true
}

/// Appends `piece` to `out`; in bytes, the encoding of `piece` follows what
/// `out` held.
pub fn push_str(out: &mut String, piece: &str)
    ensures
        encode_utf8(final(out)@) == encode_utf8(old(out)@) + piece.spec_bytes(),
{
    proof {
        lemma_utf8_concat(out@, piece@);
    }
    out.append(piece);
}

} // verus!

//! The raw byte encoder: canonical string to hash input.
//!
//! A canonical string is truncated to the configured number of Unicode
//! scalar values, encoded as UTF-8, and terminated by a line feed and a NUL
//! byte. The two-byte terminator is what keeps empty and short values
//! distinct from each other and from longer truncated values.

use vstd::prelude::*;

use vstd::utf8::{encode_scalar, encode_utf8};

verus! {

/// The first `maxc` scalar values of a canonical string.
pub open spec fn truncated(c: Seq<char>, maxc: nat) -> Seq<char> {
    if c.len() <= maxc {
        c
    } else {
        c.take(maxc as int)
    }
}

/// The hash input produced from one canonical string: its truncation,
/// UTF-8 encoded, followed by a line feed and a NUL byte.
pub open spec fn encoded_bytes(c: Seq<char>, maxc: nat) -> Seq<u8> {
    encode_utf8(truncated(c, maxc)) + seq![10u8, 0u8]
}

/// A UTF-8 encoding takes at most four bytes per character.
pub proof fn lemma_encode_utf8_len(chars: Seq<char>)
    ensures
        encode_utf8(chars).len() <= 4 * chars.len(),
    decreases chars.len(),
{
    if chars.len() > 0 {
        lemma_encode_utf8_len(chars.drop_first());
    }
}

/// An encoded value is never empty — it ends in the line feed and NUL
/// terminator — and holds at most `maxc` scalar values, so at most
/// `4 * maxc` bytes, before the terminator.
pub proof fn lemma_encoded_bytes_bounds(c: Seq<char>, maxc: nat)
    ensures
        2 <= encoded_bytes(c, maxc).len() <= 4 * maxc + 2,
        encoded_bytes(c, maxc)[encoded_bytes(c, maxc).len() - 2] == 10u8,
        encoded_bytes(c, maxc)[encoded_bytes(c, maxc).len() - 1] == 0u8,
{
    lemma_encode_utf8_len(truncated(c, maxc));
}

/// Appending a character extends a UTF-8 encoding by that character's
/// scalar encoding.
pub proof fn lemma_encode_utf8_push(chars: Seq<char>, c: char)
    ensures
        encode_utf8(chars.push(c)) == encode_utf8(chars) + encode_scalar(c as u32),
    decreases chars.len(),
{
    if chars.len() == 0 {
        let s = chars.push(c);
        assert(s[0] == c);
        assert(s.drop_first() =~= Seq::<char>::empty());
        assert(encode_utf8(s.drop_first()) == Seq::<u8>::empty());
        assert(encode_utf8(s) == encode_scalar(c as u32) + Seq::<u8>::empty());
        assert(encode_scalar(c as u32) + Seq::<u8>::empty() =~= Seq::<u8>::empty()
            + encode_scalar(c as u32));
    } else {
        assert(chars.push(c).drop_first() =~= chars.drop_first().push(c));
        lemma_encode_utf8_push(chars.drop_first(), c);
        assert(encode_utf8(chars.push(c)) =~= encode_utf8(chars) + encode_scalar(c as u32));
    }
}

/// Append the UTF-8 bytes of one character.
fn push_char_utf8(out: &mut Vec<u8>, c: char)
    ensures
        final(out)@ == old(out)@ + encode_scalar(c as u32),
{
    let u = c as u32;
    proof {
        vstd::utf8::char_is_scalar(c);
    }
    if u <= 0x7F {
        out.push((u & 0x7F) as u8);
    } else if u <= 0x7FF {
        out.push(0xC0 | ((u >> 6) & 0x1F) as u8);
        out.push(0x80 | (u & 0x3F) as u8);
    } else if u <= 0xFFFF {
        out.push(0xE0 | ((u >> 12) & 0x0F) as u8);
        out.push(0x80 | ((u >> 6) & 0x3F) as u8);
        out.push(0x80 | (u & 0x3F) as u8);
    } else {
        out.push(0xF0 | ((u >> 18) & 0x7) as u8);
        out.push(0x80 | ((u >> 12) & 0x3F) as u8);
        out.push(0x80 | ((u >> 6) & 0x3F) as u8);
        out.push(0x80 | (u & 0x3F) as u8);
    }
    proof {
        assert(final(out)@ =~= old(out)@ + encode_scalar(c as u32));
    }
}

/// Encode one canonical string for hashing: truncate to `maxc` scalar
/// values, encode as UTF-8, and terminate with a line feed and a NUL.
pub fn encode_chars(c: &Vec<char>, maxc: usize) -> (r: Vec<u8>)
    ensures
        r@ == encoded_bytes(c@, maxc as nat),
{
    let limit: usize = if c.len() <= maxc {
        c.len()
    } else {
        maxc
    };
    proof {
        assert(truncated(c@, maxc as nat) =~= c@.take(limit as int));
    }
    let mut r: Vec<u8> = Vec::new();
    let mut i: usize = 0;
    while i < limit
        invariant
            i <= limit <= c@.len(),
            r@ == encode_utf8(c@.take(i as int)),
        decreases limit - i,
    {
        push_char_utf8(&mut r, c[i]);
        proof {
            assert(c@.take(i + 1) =~= c@.take(i as int).push(c@[i as int]));
            lemma_encode_utf8_push(c@.take(i as int), c@[i as int]);
        }
        i = i + 1;
    }
    r.push(10);
    r.push(0);
    proof {
        assert(r@ =~= encoded_bytes(c@, maxc as nat));
    }
    r
}

} // verus!

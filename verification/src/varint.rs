//! Little-endian base-128 integers: the variable-length encoding that the
//! wire envelope uses for lengths and numeric fields.
//!
//! A value is written seven bits per byte, least significant group first;
//! every byte except the last has its high bit set. The encoding produced
//! here is minimal (no trailing zero groups), and the parser accepts exactly
//! the minimal encodings, so that a byte string parses to a value if and
//! only if it begins with that value's encoding.

use vstd::prelude::*;
use vstd::arithmetic::div_mod::lemma_div_is_ordered;
use vstd::arithmetic::div_mod::lemma_div_multiples_vanish;
use vstd::arithmetic::div_mod::lemma_fundamental_div_mod;
use vstd::arithmetic::div_mod::lemma_fundamental_div_mod_converse_div;
use vstd::arithmetic::div_mod::lemma_fundamental_div_mod_converse_mod;
use vstd::arithmetic::div_mod::lemma_multiply_divide_lt;
use vstd::arithmetic::div_mod::lemma_remainder_lower;

verus! {

/// The minimal base-128 encoding of `v`.
pub open spec fn varint_bytes(v: u64) -> Seq<u8>
    decreases v,
{
    if v < 0x80 {
        seq![v as u8]
    } else {
        seq![(0x80 + (v % 0x80)) as u8] + varint_bytes(v / 0x80)
    }
}

/// Strict parse of a varint at the head of `s`: the value and the number of
/// bytes consumed, or `None` when `s` does not begin with the minimal
/// encoding of some `u64`.
pub open spec fn parse_varint(s: Seq<u8>) -> Option<(u64, int)>
    decreases s.len(),
{
    if s.len() == 0 {
        None
    } else if s[0] < 0x80 {
        Some((s[0] as u64, 1))
    } else {
        match parse_varint(s.skip(1)) {
            None => None,
            Some(hi) => {
                if 1 <= hi.0 && hi.0 <= (u64::MAX - (s[0] - 0x80)) / 0x80 {
                    Some((((s[0] - 0x80) + 0x80 * hi.0) as u64, hi.1 + 1))
                } else {
                    None
                }
            },
        }
    }
}

/// An encoding takes at most ten bytes: seven bits of value per byte cover
/// a 64-bit value within ten groups.
pub proof fn lemma_varint_bytes_len(v: u64)
    ensures
        varint_bytes(v).len() <= 10,
        v < 0x80 ==> varint_bytes(v).len() <= 1,
        v < 0x4000 ==> varint_bytes(v).len() <= 2,
        v < 0x20_0000 ==> varint_bytes(v).len() <= 3,
        v < 0x1000_0000 ==> varint_bytes(v).len() <= 4,
        v < 0x8_0000_0000 ==> varint_bytes(v).len() <= 5,
        v < 0x400_0000_0000 ==> varint_bytes(v).len() <= 6,
        v < 0x2_0000_0000_0000 ==> varint_bytes(v).len() <= 7,
        v < 0x100_0000_0000_0000 ==> varint_bytes(v).len() <= 8,
        v < 0x8000_0000_0000_0000 ==> varint_bytes(v).len() <= 9,
    decreases v,
{
    if v >= 0x80 {
        lemma_varint_bytes_len(v / 0x80);
        lemma_multiply_divide_lt(v as int, 0x80, 0x8000_0000_0000_0000);
        if v < 0x4000 {
            lemma_multiply_divide_lt(v as int, 0x80, 0x80);
        }
        if v < 0x20_0000 {
            lemma_multiply_divide_lt(v as int, 0x80, 0x4000);
        }
        if v < 0x1000_0000 {
            lemma_multiply_divide_lt(v as int, 0x80, 0x20_0000);
        }
        if v < 0x8_0000_0000 {
            lemma_multiply_divide_lt(v as int, 0x80, 0x1000_0000);
        }
        if v < 0x400_0000_0000 {
            lemma_multiply_divide_lt(v as int, 0x80, 0x8_0000_0000);
        }
        if v < 0x2_0000_0000_0000 {
            lemma_multiply_divide_lt(v as int, 0x80, 0x400_0000_0000);
        }
        if v < 0x100_0000_0000_0000 {
            lemma_multiply_divide_lt(v as int, 0x80, 0x2_0000_0000_0000);
        }
        if v < 0x8000_0000_0000_0000 {
            lemma_multiply_divide_lt(v as int, 0x80, 0x100_0000_0000_0000);
        }
    }
}

/// Parsing recovers an encoding exactly: `varint_bytes(v)` followed by any
/// suffix parses to `v` and consumes precisely the encoding.
pub proof fn lemma_parse_varint_of_encoding(v: u64, rest: Seq<u8>)
    ensures
        parse_varint(varint_bytes(v) + rest) == Some((v, varint_bytes(v).len() as int)),
    decreases v,
{
    let s = varint_bytes(v) + rest;
    if v < 0x80 {
        assert(s[0] == v as u8);
    } else {
        let hi = v / 0x80;
        let low = v % 0x80;
        lemma_fundamental_div_mod(v as int, 0x80);
        assert(v == 0x80 * hi + low);
        lemma_parse_varint_of_encoding(hi, rest);
        assert(s.skip(1) =~= varint_bytes(hi) + rest);
        assert(s[0] == (0x80 + low) as u8);
        lemma_div_is_ordered(0x80 * hi, u64::MAX - low, 0x80);
        lemma_div_multiples_vanish(hi as int, 0x80);
        assert(hi <= (u64::MAX - low) / 0x80);
        assert((s[0] - 0x80) + 0x80 * hi == v);
    }
}

/// A successful parse pins down the consumed prefix: it is exactly the
/// minimal encoding of the value parsed.
pub proof fn lemma_parse_varint_sound(s: Seq<u8>)
    ensures
        parse_varint(s) matches Some(p) ==>
            1 <= p.1 <= s.len() && s.take(p.1) == varint_bytes(p.0),
    decreases s.len(),
{
    if s.len() == 0 {
    } else if s[0] < 0x80 {
        assert(s.take(1) =~= seq![s[0]]);
    } else {
        lemma_parse_varint_sound(s.skip(1));
        if parse_varint(s) is Some {
            let p = parse_varint(s)->Some_0;
            let q = parse_varint(s.skip(1))->Some_0;
            let low = (s[0] - 0x80) as int;
            assert(p.0 == low + 0x80 * q.0);
            lemma_fundamental_div_mod_converse_mod(p.0 as int, 0x80, q.0 as int, low);
            lemma_fundamental_div_mod_converse_div(p.0 as int, 0x80, q.0 as int, low);
            assert(p.0 % 0x80 == low && p.0 / 0x80 == q.0);
            assert(p.0 >= 0x80);
            assert(s.take(p.1) =~= seq![s[0]] + s.skip(1).take(q.1));
        }
    }
}

/// Appends the minimal encoding of `v` to `out`.
pub fn encode_varint(v: u64, out: &mut Vec<u8>)
    ensures
        final(out)@ == old(out)@ + varint_bytes(v),
    decreases v,
{
    if v < 0x80 {
        out.push(v as u8);
        assert(out@ =~= old(out)@ + varint_bytes(v));
    } else {
        out.push((0x80 + (v % 0x80)) as u8);
        encode_varint(v / 0x80, out);
        assert(out@ =~= old(out)@ + varint_bytes(v));
    }
}

/// Reads a varint from `buf` starting at `i`, returning the value and the
/// position just past it. Agrees exactly with `parse_varint` on the suffix.
pub fn decode_varint(buf: &[u8], i: usize) -> (r: Option<(u64, usize)>)
    requires
        i <= buf@.len(),
    ensures
        match r {
            Some(p) => {
                &&& parse_varint(buf@.skip(i as int)) == Some((p.0, p.1 - i))
                &&& i < p.1 <= buf@.len()
            },
            None => parse_varint(buf@.skip(i as int)) is None,
        },
    decreases buf@.len() - i,
{
    if i == buf.len() {
        return None;
    }
    let b = buf[i];
    if b < 0x80 {
        Some((b as u64, i + 1))
    } else {
        assert(buf@.skip(i as int).skip(1) =~= buf@.skip(i + 1));
        match decode_varint(buf, i + 1) {
            None => None,
            Some(p) => {
                let low = (b - 0x80) as u64;
                if 1 <= p.0 && p.0 <= (u64::MAX - low) / 0x80 {
                    proof {
                        lemma_remainder_lower(u64::MAX - low, 0x80);
                        assert(0x80 * p.0 <= u64::MAX - low);
                    }
                    Some((low + 0x80 * p.0, p.1))
                } else {
                    None
                }
            },
        }
    }
}

} // verus!

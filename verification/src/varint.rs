//! Variable-length integers.
//!
//! A varint takes one to nine bytes. Each of the first eight carries seven
//! bits of the value, most significant group first, and has its high bit set
//! unless it is the last. A ninth byte is always the last, and carries eight
//! bits.

use crate::error::DecodeError;
use vstd::prelude::*;

verus! {

/// A variable-length unsigned integer together with the bytes it took.
#[derive(Debug, Clone, Copy, PartialEq, Eq, Structural)]
pub struct VarInt {
    /// Value of the varint.
    pub value: u64,
    /// Number of bytes that encode the value.
    pub width: u8,
}

/// 128 to the power `n`: the number of values that `n` seven-bit groups hold.
pub open spec fn pow128(n: nat) -> nat
    decreases n,
{
    if n == 0 {
        1
    } else {
        128 * pow128((n - 1) as nat)
    }
}

/// The number that a run of bytes spells when each byte gives its low seven
/// bits, the first byte being the most significant group.
pub open spec fn groups_value(s: Seq<u8>) -> nat
    decreases s.len(),
{
    if s.len() == 0 {
        0
    } else {
        groups_value(s.drop_last()) * 128 + (s.last() % 128) as nat
    }
}

/// The seven-bit groups of `v`, most significant first, each with the
/// continuation bit set. Zero has no groups.
pub open spec fn continued_groups(v: nat) -> Seq<u8>
    decreases v,
{
    if v == 0 {
        Seq::empty()
    } else {
        continued_groups(v / 128).push((v % 128 + 128) as u8)
    }
}

/// The encoding of `v`: the groups above the lowest one with their
/// continuation bits, then the lowest group without.
pub open spec fn spec_encode(v: u64) -> Seq<u8> {
    continued_groups(v as nat / 128).push((v % 128) as u8)
}

/// The value of a varint of nine bytes: the 56 bits `high` that the seven-bit
/// groups of its first eight bytes spell, and below them all eight bits of
/// the ninth byte `last`, whatever its high bit is.
pub open spec fn ninth_value(high: nat, last: u8) -> u64 {
    (high * 256 + last as nat) as u64
}

/// Decoding that has seen `i` bytes from `pos` on, all with the high bit set.
pub open spec fn decode_after(bytes: Seq<u8>, pos: int, i: nat) -> Option<VarInt>
    decreases 9 - i,
{
    if pos < 0 || i >= 9 || pos + i >= bytes.len() {
        None
    } else if i == 8 {
        Some(
            VarInt {
                value: ninth_value(groups_value(bytes.subrange(pos, pos + 8)), bytes[pos + 8]),
                width: 9,
            },
        )
    } else if bytes[pos + i] < 0x80 {
        Some(
            VarInt {
                value: groups_value(bytes.subrange(pos, pos + i + 1)) as u64,
                width: (i + 1) as u8,
            },
        )
    } else {
        decode_after(bytes, pos, i + 1)
    }
}

/// The varint that starts at `pos`, or `None` where the input ends before the
/// varint does.
pub open spec fn spec_decode(bytes: Seq<u8>, pos: int) -> Option<VarInt> {
    decode_after(bytes, pos, 0)
}

/// A varint that decoding finds lies within the input and has one to nine
/// bytes.
pub proof fn lemma_decode_width(bytes: Seq<u8>, pos: int)
    ensures
        spec_decode(bytes, pos) matches Some(v) ==> 0 <= pos && 1 <= v.width <= 9 && pos + v.width
            <= bytes.len(),
{
    lemma_decode_after_width(bytes, pos, 0);
}

proof fn lemma_decode_after_width(bytes: Seq<u8>, pos: int, i: nat)
    ensures
        decode_after(bytes, pos, i) matches Some(v) ==> 0 <= pos && i < v.width <= 9 && pos
            + v.width <= bytes.len(),
    decreases 9 - i,
{
    if !(pos < 0 || i >= 9 || pos + i >= bytes.len()) && i != 8 && bytes[pos + i] >= 0x80 {
        lemma_decode_after_width(bytes, pos, i + 1);
    }
}

/// A run of `n` bytes spells less than 128 to the `n`.
pub proof fn lemma_groups_value_bound(s: Seq<u8>)
    ensures
        groups_value(s) < pow128(s.len()),
    decreases s.len(),
{
    if s.len() > 0 {
        lemma_groups_value_bound(s.drop_last());
    }
}

proof fn lemma_pow128_values()
    ensures
        pow128(0) == 1,
        pow128(1) == 0x80,
        pow128(2) == 0x4000,
        pow128(3) == 0x20_0000,
        pow128(4) == 0x1000_0000,
        pow128(5) == 0x8_0000_0000,
        pow128(6) == 0x400_0000_0000,
        pow128(7) == 0x2_0000_0000_0000,
        pow128(8) == 0x100_0000_0000_0000,
        pow128(9) == 0x8000_0000_0000_0000,
{
    reveal_with_fuel(pow128, 10);
}

proof fn lemma_push_group(acc: u64, b: u8)
    by (bit_vector)
    requires
        acc < 0x100_0000_0000_0000,
    ensures
        (acc << 7) | ((b & 0x7f) as u64) == acc * 128 + (b % 128),
        (b & 0x80 == 0) == (b < 0x80),
{
}

proof fn lemma_push_ninth(acc: u64, b: u8)
    by (bit_vector)
    requires
        acc < 0x100_0000_0000_0000,
    ensures
        (acc << 8) | (b as u64) == acc * 256 + b,
{
}

/// The seven-bit groups of `v`, least significant first, each with the
/// continuation bit set: `continued_groups(v)` read backwards.
pub open spec fn reversed_groups(v: nat) -> Seq<u8>
    decreases v,
{
    if v == 0 {
        Seq::empty()
    } else {
        seq![(v % 128 + 128) as u8] + reversed_groups(v / 128)
    }
}

/// `reversed_groups(v)` holds the bytes of `continued_groups(v)` in the
/// opposite order.
pub proof fn lemma_reversed_groups(v: nat)
    ensures
        reversed_groups(v).len() == continued_groups(v).len(),
        forall|j: int|
            0 <= j < continued_groups(v).len() ==> continued_groups(v)[j] == reversed_groups(
                v,
            )[continued_groups(v).len() - 1 - j],
    decreases v,
{
    if v != 0 {
        lemma_reversed_groups(v / 128);
    }
}

proof fn lemma_split_group(v: u64)
    by (bit_vector)
    ensures
        v >> 7 == v / 128,
        ((v & 0x7f) as u8) | 0x80 == v % 128 + 128,
        v != 0 ==> (v >> 7) < v,
{
}

proof fn lemma_clear_high_bit(b: u8)
    by (bit_vector)
    ensures
        b & 0x7f == b % 128,
{
}

/// The groups of a number below 128 to the `n` are at most `n`, and those of
/// a number that is at least 128 to the `n` are more than `n`.
pub proof fn lemma_continued_groups_len(v: nat, n: nat)
    ensures
        v < pow128(n) ==> continued_groups(v).len() <= n,
        v >= pow128(n) ==> continued_groups(v).len() > n,
    decreases n,
{
    lemma_pow128_positive(n);
    if n > 0 && v != 0 {
        lemma_continued_groups_len(v / 128, (n - 1) as nat);
    }
}

proof fn lemma_pow128_positive(n: nat)
    ensures
        pow128(n) > 0,
    decreases n,
{
    if n > 0 {
        lemma_pow128_positive((n - 1) as nat);
    }
}

/// An encoding has one to ten bytes: at most eight below 2^56, nine from
/// there up to 2^63, and ten from 2^63 on.
pub proof fn lemma_encode_len(v: u64)
    ensures
        1 <= spec_encode(v).len() <= 10,
        v < 0x100_0000_0000_0000 <==> spec_encode(v).len() <= 8,
        v < 0x8000_0000_0000_0000 <==> spec_encode(v).len() <= 9,
{
    lemma_pow128_values();
    lemma_continued_groups_len(v as nat / 128, 7);
    lemma_continued_groups_len(v as nat / 128, 8);
    lemma_continued_groups_len(v as nat / 128, 9);
}

/// The groups of `v` all carry the continuation bit, the first of them is
/// not an empty group, and together they spell `v`.
pub proof fn lemma_continued_groups(v: nat)
    ensures
        forall|j: int| 0 <= j < continued_groups(v).len() ==> continued_groups(v)[j] >= 0x80,
        v > 0 ==> continued_groups(v).len() > 0 && continued_groups(v)[0] > 0x80,
        groups_value(continued_groups(v)) == v,
    decreases v,
{
    if v != 0 {
        lemma_continued_groups(v / 128);
        let high = continued_groups(v / 128);
        assert(continued_groups(v).drop_last() =~= high);
    }
}

/// A varint that ends within eight bytes, with its `k`-th byte, the first
/// with a clear high bit, has the value that its `k` bytes spell.
pub proof fn lemma_decode_terminated(bytes: Seq<u8>, pos: int, k: nat, i: nat)
    requires
        0 <= pos,
        1 <= k <= 8,
        pos + k <= bytes.len(),
        i < k,
        forall|j: int| pos <= j < pos + k - 1 ==> bytes[j] >= 0x80,
        bytes[pos + k - 1] < 0x80,
    ensures
        decode_after(bytes, pos, i) == Some(
            VarInt { value: groups_value(bytes.subrange(pos, pos + k)) as u64, width: k as u8 },
        ),
    decreases k - i,
{
    if i + 1 < k {
        lemma_decode_terminated(bytes, pos, k, i + 1);
    }
}

/// Round trip: wherever the encoding of a value below 2^56 stands in the
/// input, decoding there gives the value back, and the width is the length of
/// the encoding.
///
/// The bound is where encoding and decoding part: an encoding gives every
/// byte seven bits of the value, so from 2^56 on it has a ninth byte, and
/// decoding takes eight bits from a ninth byte.
pub proof fn lemma_decode_encoded(v: u64, bytes: Seq<u8>, pos: int)
    requires
        v < 0x100_0000_0000_0000,
        0 <= pos,
        pos + spec_encode(v).len() <= bytes.len(),
        bytes.subrange(pos, pos + spec_encode(v).len()) == spec_encode(v),
    ensures
        spec_decode(bytes, pos) == Some(VarInt { value: v, width: spec_encode(v).len() as u8 }),
{
    let enc = spec_encode(v);
    let high = continued_groups(v as nat / 128);
    lemma_encode_len(v);
    lemma_continued_groups(v as nat / 128);
    assert(enc.drop_last() =~= high);
    assert forall|j: int| pos <= j < pos + enc.len() - 1 implies bytes[j] >= 0x80 by {
        assert(bytes[j] == bytes.subrange(pos, pos + enc.len())[j - pos]);
        assert(enc[j - pos] == high[j - pos]);
    }
    assert(bytes[pos + enc.len() - 1] == bytes.subrange(pos, pos + enc.len())[enc.len() - 1]);
    lemma_decode_terminated(bytes, pos, enc.len(), 0);
}

/// Round trip on the encoding alone: `decode(encode(v))` is `v` with the
/// length of the encoding as width, for every `v` below 2^56, which are the
/// values whose encoding has no ninth byte.
pub proof fn lemma_round_trip(v: u64)
    requires
        v < 0x100_0000_0000_0000,
    ensures
        spec_decode(spec_encode(v), 0) == Some(
            VarInt { value: v, width: spec_encode(v).len() as u8 },
        ),
{
    let enc = spec_encode(v);
    assert(enc.subrange(0, enc.len() as int) =~= enc);
    lemma_decode_encoded(v, enc, 0);
}

/// An encoding is minimal: it never starts with a group of zero bits, and
/// its length is the least number of seven-bit groups that hold the value.
pub proof fn lemma_encode_minimal(v: u64)
    ensures
        spec_encode(v).len() > 1 ==> spec_encode(v)[0] > 0x80,
        v < pow128(spec_encode(v).len()),
        spec_encode(v).len() > 1 ==> v >= pow128((spec_encode(v).len() - 1) as nat),
{
    let w = v as nat / 128;
    let n = continued_groups(w).len();
    lemma_continued_groups(w);
    lemma_continued_groups_len(w, n);
    if n > 0 {
        lemma_continued_groups_len(w, (n - 1) as nat);
        assert(spec_encode(v)[0] == continued_groups(w)[0]);
    }
}

/// What decoding finds from byte `i` on has the value that its bytes spell:
/// seven bits from each of up to eight bytes, and eight from a ninth.
proof fn lemma_decode_after_shape(bytes: Seq<u8>, pos: int, i: nat)
    ensures
        decode_after(bytes, pos, i) matches Some(v) ==> (v.width < 9 ==> v.value == groups_value(
            bytes.subrange(pos, pos + v.width),
        )) && (v.width == 9 ==> v.value == groups_value(bytes.subrange(pos, pos + 8)) * 256
            + bytes[pos + 8]),
    decreases 9 - i,
{
    if !(pos < 0 || i >= 9 || pos + i >= bytes.len()) {
        if i == 8 {
            lemma_groups_value_bound(bytes.subrange(pos, pos + 8));
            lemma_pow128_values();
        } else if bytes[pos + i] < 0x80 {
            lemma_groups_value_bound(bytes.subrange(pos, pos + i + 1));
            lemma_pow128_values();
            assert(pow128((i + 1) as nat) <= pow128(8)) by {
                reveal_with_fuel(pow128, 10);
            }
        } else {
            lemma_decode_after_shape(bytes, pos, i + 1);
        }
    }
}

/// A decoded varint is never narrower than the encoding of its value: input
/// may spend more bytes on a value than it needs, never fewer. Values from
/// 2^63 on are left out, whose encoding has ten bytes.
pub proof fn lemma_decoded_width_covers(bytes: Seq<u8>, pos: int)
    ensures
        spec_decode(bytes, pos) matches Some(v) ==> v.value < 0x8000_0000_0000_0000
            ==> spec_encode(v.value).len() <= v.width,
{
    if let Some(v) = spec_decode(bytes, pos) {
        if v.value < 0x8000_0000_0000_0000 {
            lemma_decode_width(bytes, pos);
            lemma_decode_after_shape(bytes, pos, 0);
            lemma_encode_len(v.value);
            if v.width < 9 {
                let run = bytes.subrange(pos, pos + v.width);
                lemma_groups_value_bound(run);
                lemma_continued_groups_len(v.value as nat / 128, (v.width - 1) as nat);
            }
        }
    }
}

/// Nine bytes of which the first eight have the high bit set decode with
/// width nine whatever the ninth byte is, and all eight bits of the ninth
/// byte are the low eight bits of the value: the value is the 56 bits that
/// the first eight bytes spell, times 256, plus the ninth byte.
pub proof fn lemma_ninth_byte_ends(bytes: Seq<u8>, pos: int)
    requires
        0 <= pos,
        pos + 9 <= bytes.len(),
        forall|j: int| pos <= j < pos + 8 ==> bytes[j] >= 0x80,
    ensures
        spec_decode(bytes, pos) matches Some(v) && v.width == 9 && v.value == groups_value(
            bytes.subrange(pos, pos + 8),
        ) * 256 + bytes[pos + 8],
        spec_decode(bytes, pos).unwrap().value % 256 == bytes[pos + 8],
        spec_decode(bytes, pos).unwrap().value / 256 == groups_value(
            bytes.subrange(pos, pos + 8),
        ),
{
    lemma_decode_continued(bytes, pos, 0);
    lemma_groups_value_bound(bytes.subrange(pos, pos + 8));
    lemma_pow128_values();
}

proof fn lemma_decode_continued(bytes: Seq<u8>, pos: int, i: nat)
    requires
        0 <= pos,
        pos + 9 <= bytes.len(),
        i <= 8,
        forall|j: int| pos <= j < pos + 8 ==> bytes[j] >= 0x80,
    ensures
        decode_after(bytes, pos, i) == decode_after(bytes, pos, 8),
    decreases 8 - i,
{
    if i < 8 {
        lemma_decode_continued(bytes, pos, i + 1);
    }
}

/// Where the round trip ends: the encoding of a value from 2^56 up to 2^63
/// has nine bytes, of which the ninth holds the low seven bits of the value.
/// Decoding reads that byte as eight bits, so what comes back is the value
/// with the bits above its low seven moved up by one, never the value.
pub proof fn lemma_decode_nine_byte_encoding(v: u64)
    requires
        0x100_0000_0000_0000 <= v < 0x8000_0000_0000_0000,
    ensures
        spec_encode(v).len() == 9,
        spec_decode(spec_encode(v), 0) matches Some(d) && d.width == 9 && d.value == (v / 128)
            * 256 + v % 128 && d.value != v,
{
    let enc = spec_encode(v);
    let high = continued_groups(v as nat / 128);
    lemma_encode_len(v);
    lemma_continued_groups(v as nat / 128);
    assert(enc.subrange(0, 8) =~= high);
    assert forall|j: int| 0 <= j < 8 implies enc[j] >= 0x80 by {
        assert(enc[j] == high[j]);
    }
    lemma_ninth_byte_ends(enc, 0);
}

impl VarInt {
    /// Whether the width is that of the encoding of the value: true of what
    /// `new` makes, and of what `decode` reads from the encoding of a value
    /// below 2^56.
    pub open spec fn is_canonical(self) -> bool {
        self.width == spec_encode(self.value).len()
    }

    /// The varint of `value` with the width of its encoding.
    ///
    /// A value of 2^63 or more would take ten bytes, which no varint has.
    pub fn new(value: u64) -> (r: VarInt)
        requires
            value < 0x8000_0000_0000_0000,
        ensures
            r.value == value,
            r.is_canonical(),
            1 <= r.width <= 9,
    {
        proof {
            lemma_encode_len(value);
        }
        let width = VarInt::encode(value).len() as u8;
        VarInt { value, width }
    }

    /// Encodes `value` in the fewest bytes: its seven-bit groups from the
    /// most significant one that is not zero down to the lowest, the high bit
    /// set on every byte but the last.
    pub fn encode(value: u64) -> (out: Vec<u8>)
        ensures
            out@ == spec_encode(value),
    {
        // Groups in reverse order, all with the continuation bit.
        let mut buf: Vec<u8> = Vec::new();
        let mut rest = value;
        while rest != 0
            invariant
                reversed_groups(value as nat) =~= buf@ + reversed_groups(rest as nat),
            decreases rest,
        {
            proof {
                lemma_split_group(rest);
            }
            buf.push(((rest & 0x7f) as u8) | 0x80);
            rest >>= 7;
        }
        let n = buf.len();
        if n == 0 {
            assert(spec_encode(value) =~= seq![0u8]);
            return vec![0];
        }
        // Clear the high bit of what will be the last byte.
        let low = buf[0] & 0x7f;
        buf.set(0, low);
        proof {
            lemma_clear_high_bit((value % 128 + 128) as u8);
            lemma_reversed_groups(value as nat / 128);
        }
        let mut result: Vec<u8> = Vec::with_capacity(n);
        let mut i = n;
        while i > 0
            invariant
                i <= n,
                n == buf@.len(),
                result@.len() == n - i,
                forall|j: int| 0 <= j < result@.len() ==> result@[j] == buf@[n - 1 - j],
            decreases i,
        {
            i -= 1;
            result.push(buf[i]);
        }
        assert(result@ =~= spec_encode(value));
        result
    }

    /// Reads the varint that starts at `bytes[pos]`.
    ///
    /// Up to eight bytes give seven bits each and the first of them with a
    /// clear high bit ends the varint. A ninth byte always ends it, whatever
    /// its high bit is, and gives all its eight bits. The only failure is an
    /// input that ends first.
    pub fn decode(bytes: &[u8], pos: usize) -> (r: Result<VarInt, DecodeError>)
        ensures
            match r {
                Ok(v) => spec_decode(bytes@, pos as int) == Some(v),
                Err(e) => e == DecodeError::InvalidVarint && spec_decode(bytes@, pos as int).is_none(),
            },
            r matches Ok(v) ==> 1 <= v.width <= 9 && pos + v.width <= bytes@.len() <= usize::MAX,
    {
        if pos >= bytes.len() {
            return Err(DecodeError::InvalidVarint);
        }
        let mut value: u64 = 0;
        let mut i: usize = 0;
        assert(bytes@.subrange(pos as int, pos + 0) =~= Seq::<u8>::empty());
        while i < 8
            invariant
                i <= 8,
                pos < bytes@.len(),
                value == groups_value(bytes@.subrange(pos as int, pos + i)),
                pos + i <= bytes@.len(),
                spec_decode(bytes@, pos as int) == decode_after(bytes@, pos as int, i as nat),
            decreases 8 - i,
        {
            if i >= bytes.len() - pos {
                return Err(DecodeError::InvalidVarint);
            }
            let byte = bytes[pos + i];
            proof {
                let before = bytes@.subrange(pos as int, pos + i);
                let after = bytes@.subrange(pos as int, pos + i + 1);
                assert(after.drop_last() =~= before);
                lemma_groups_value_bound(before);
                lemma_pow128_values();
                assert(pow128(i as nat) <= pow128(7)) by {
                    reveal_with_fuel(pow128, 10);
                }
                lemma_push_group(value, byte);
            }
            value = (value << 7) | ((byte & 0x7f) as u64);
            if byte & 0x80 == 0 {
                return Ok(VarInt { value, width: (i + 1) as u8 });
            }
            i += 1;
        }
        if 8 >= bytes.len() - pos {
            return Err(DecodeError::InvalidVarint);
        }
        // The ninth byte: all eight bits, and the end.
        let byte = bytes[pos + 8];
        proof {
            lemma_groups_value_bound(bytes@.subrange(pos as int, pos + 8));
            lemma_pow128_values();
            lemma_push_ninth(value, byte);
        }
        value = (value << 8) | (byte as u64);
        Ok(VarInt { value, width: 9 })
    }
}

} // verus!

//! The variable-length integer encoding that every multi-byte field of the
//! wire format uses: a big-endian integer of 1, 2, 4 or 8 bytes whose total
//! width is selected by the two high bits of the first byte.

use vstd::arithmetic::div_mod::lemma_mod_breakdown;
use vstd::prelude::*;

verus! {

/// Whether `v` can be carried by the variable-length integer encoding:
/// two bits of the first byte are the width tag, leaving 62 value bits.
pub open spec fn fits_varint(v: u64) -> bool {
    v < 0x4000_0000_0000_0000
}

/// Number of bytes the encoding of `v` occupies (1, 2, 4 or 8).
pub open spec fn spec_varint_len(v: u64) -> int {
    if v < 0x40 {
        1
    } else if v < 0x4000 {
        2
    } else if v < 0x4000_0000 {
        4
    } else {
        8
    }
}

/// Width of a variable-length integer, given its first byte: the two
/// high bits select 1, 2, 4 or 8 bytes.
pub open spec fn varint_width_of(first: u8) -> int {
    if first < 0x40 {
        1
    } else if first < 0x80 {
        2
    } else if first < 0xc0 {
        4
    } else {
        8
    }
}

/// The wire bytes of `v` as a variable-length integer: big-endian, with
/// the width tag in the two high bits of the first byte.
pub open spec fn spec_varint_bytes(v: u64) -> Seq<u8> {
    if v < 0x40 {
        seq![v as u8]
    } else if v < 0x4000 {
        seq![(v / 0x100 + 0x40) as u8, (v % 0x100) as u8]
    } else if v < 0x4000_0000 {
        seq![
            (v / 0x100_0000 + 0x80) as u8,
            ((v / 0x1_0000) % 0x100) as u8,
            ((v / 0x100) % 0x100) as u8,
            (v % 0x100) as u8,
        ]
    } else {
        seq![
            (v / 0x100_0000_0000_0000 + 0xc0) as u8,
            ((v / 0x1_0000_0000_0000) % 0x100) as u8,
            ((v / 0x100_0000_0000) % 0x100) as u8,
            ((v / 0x1_0000_0000) % 0x100) as u8,
            ((v / 0x100_0000) % 0x100) as u8,
            ((v / 0x1_0000) % 0x100) as u8,
            ((v / 0x100) % 0x100) as u8,
            (v % 0x100) as u8,
        ]
    }
}

/// Value of the `width`-byte variable-length integer at `pos`; the two
/// high bits of the leading byte are the width tag and do not contribute.
pub open spec fn varint_value_at(s: Seq<u8>, pos: int, width: int) -> u64 {
    let lead = (s[pos] % 0x40) as int;
    if width == 1 {
        lead as u64
    } else if width == 2 {
        (lead * 0x100 + s[pos + 1]) as u64
    } else if width == 4 {
        (lead * 0x100_0000 + s[pos + 1] * 0x1_0000 + s[pos + 2] * 0x100 + s[pos + 3]) as u64
    } else {
        (lead * 0x100_0000_0000_0000 + s[pos + 1] * 0x1_0000_0000_0000 + s[pos + 2] * 0x100_0000_0000
            + s[pos + 3] * 0x1_0000_0000 + s[pos + 4] * 0x100_0000 + s[pos + 5] * 0x1_0000
            + s[pos + 6] * 0x100 + s[pos + 7]) as u64
    }
}

/// Parse one variable-length integer at `pos`: its value and its width,
/// or `None` if the buffer ends before the integer does.
pub open spec fn varint_at(s: Seq<u8>, pos: int) -> Option<(u64, int)> {
    if 0 <= pos < s.len() {
        let w = varint_width_of(s[pos]);
        if pos + w <= s.len() {
            Some((varint_value_at(s, pos, w), w))
        } else {
            None
        }
    } else {
        None
    }
}

/// The encoding of `v` is `spec_varint_len(v)` bytes long and its first
/// byte announces exactly that width.
pub proof fn lemma_varint_bytes_shape(v: u64)
    requires
        fits_varint(v),
    ensures
        spec_varint_bytes(v).len() == spec_varint_len(v),
        varint_width_of(spec_varint_bytes(v)[0]) == spec_varint_len(v),
{
    if v < 0x40 {
    } else if v < 0x4000 {
        assert(v / 0x100 < 0x40) by (nonlinear_arith)
            requires v < 0x4000;
    } else if v < 0x4000_0000 {
        assert(v / 0x100_0000 < 0x40) by (nonlinear_arith)
            requires v < 0x4000_0000;
        assert(0x4000 <= v ==> 0x100 <= v / 0x100_0000 + 0x80 || v / 0x100_0000 + 0x80 < 0x100);
    } else {
        assert(v / 0x100_0000_0000_0000 < 0x40) by (nonlinear_arith)
            requires v < 0x4000_0000_0000_0000;
    }
}

/// A sequence that carries the encoding of `v` at `pos` parses back to `v`.
pub proof fn lemma_varint_at_bytes(s: Seq<u8>, pos: int, v: u64)
    requires
        fits_varint(v),
        0 <= pos,
        pos + spec_varint_len(v) <= s.len(),
        s.subrange(pos, pos + spec_varint_len(v)) == spec_varint_bytes(v),
    ensures
        varint_at(s, pos) == Some((v, spec_varint_len(v))),
{
    lemma_varint_bytes_shape(v);
    let w = spec_varint_len(v);
    let e = spec_varint_bytes(v);
    assert forall|i: int| 0 <= i < w implies s[pos + i] == e[i] by {
        assert(s.subrange(pos, pos + w)[i] == s[pos + i]);
    }
    assert(varint_width_of(s[pos]) == w);
    if v < 0x40 {
        assert(varint_value_at(s, pos, 1) == v);
    } else if v < 0x4000 {
        assert(v / 0x100 < 0x40) by (nonlinear_arith)
            requires v < 0x4000;
        assert(s[pos] % 0x40 == v / 0x100);
        assert((v / 0x100) * 0x100 + v % 0x100 == v);
    } else if v < 0x4000_0000 {
        lemma_value_recompose_4(v as int);
        assert(v / 0x100_0000 < 0x40) by (nonlinear_arith)
            requires v < 0x4000_0000;
        assert(s[pos] % 0x40 == v / 0x100_0000);
        assert(varint_value_at(s, pos, 4) == v);
    } else {
        lemma_value_recompose_8(v as int);
        assert(v / 0x100_0000_0000_0000 < 0x40) by (nonlinear_arith)
            requires v < 0x4000_0000_0000_0000;
        assert(s[pos] % 0x40 == v / 0x100_0000_0000_0000);
        assert(varint_value_at(s, pos, 8) == v);
    }
}

/// A four-byte big-endian value is rebuilt exactly from its bytes.
proof fn lemma_value_recompose_4(v: int)
    requires
        0 <= v < 0x4000_0000,
    ensures
        (v / 0x100_0000) * 0x100_0000 + ((v / 0x1_0000) % 0x100) * 0x1_0000
            + ((v / 0x100) % 0x100) * 0x100 + v % 0x100 == v,
{
    lemma_mod_breakdown(v, 0x100, 0x100);
    lemma_mod_breakdown(v, 0x1_0000, 0x100);
    assert((v / 0x100_0000) * 0x100_0000 + v % 0x100_0000 == v);
}

/// An eight-byte big-endian value is rebuilt exactly from its bytes.
proof fn lemma_value_recompose_8(v: int)
    requires
        0 <= v < 0x4000_0000_0000_0000,
    ensures
        (v / 0x100_0000_0000_0000) * 0x100_0000_0000_0000
            + ((v / 0x1_0000_0000_0000) % 0x100) * 0x1_0000_0000_0000
            + ((v / 0x100_0000_0000) % 0x100) * 0x100_0000_0000
            + ((v / 0x1_0000_0000) % 0x100) * 0x1_0000_0000
            + ((v / 0x100_0000) % 0x100) * 0x100_0000
            + ((v / 0x1_0000) % 0x100) * 0x1_0000
            + ((v / 0x100) % 0x100) * 0x100
            + v % 0x100 == v,
{
    lemma_mod_breakdown(v, 0x100, 0x100);
    lemma_mod_breakdown(v, 0x1_0000, 0x100);
    lemma_mod_breakdown(v, 0x100_0000, 0x100);
    lemma_mod_breakdown(v, 0x1_0000_0000, 0x100);
    lemma_mod_breakdown(v, 0x100_0000_0000, 0x100);
    lemma_mod_breakdown(v, 0x1_0000_0000_0000, 0x100);
    assert((v / 0x100_0000_0000_0000) * 0x100_0000_0000_0000 + v % 0x100_0000_0000_0000 == v);
}

} // verus!

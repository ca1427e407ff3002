//! Numeral bases and their fixed-width byte renderings.
//!
//! Each base renders a byte value as a fixed number of ASCII bytes, and has a
//! blank padding of exactly the same width for positions past the end of a
//! short line.

use vstd::prelude::*;

verus! {

/// Numerical base used to render a byte value.
#[derive(Debug, Clone, Copy, PartialEq, Eq, Structural)]
pub enum Base {
    Bin,
    Oct,
    Dec,
    Hex,
}

/// The ASCII byte for a single digit below 16: `0`..`9` then `a`..`f`.
pub open spec fn hex_digit(v: int) -> u8 {
    if v < 10 {
        (48 + v) as u8
    } else {
        (87 + v) as u8
    }
}

/// Width in bytes of a rendered value (and of the blank padding) for a base.
pub open spec fn base_width(b: Base) -> int {
    match b {
        Base::Bin => 8,
        Base::Oct => 3,
        Base::Dec => 3,
        Base::Hex => 2,
    }
}

/// Binary: eight `0`/`1` digits, most significant first.
pub open spec fn bin_repr(v: u8) -> Seq<u8> {
    seq![
        (48 + (v as int / 128) % 2) as u8,
        (48 + (v as int / 64) % 2) as u8,
        (48 + (v as int / 32) % 2) as u8,
        (48 + (v as int / 16) % 2) as u8,
        (48 + (v as int / 8) % 2) as u8,
        (48 + (v as int / 4) % 2) as u8,
        (48 + (v as int / 2) % 2) as u8,
        (48 + v as int % 2) as u8,
    ]
}

/// Octal: three digits, zero padded.
pub open spec fn oct_repr(v: u8) -> Seq<u8> {
    seq![
        (48 + v as int / 64) as u8,
        (48 + (v as int / 8) % 8) as u8,
        (48 + v as int % 8) as u8,
    ]
}

/// Decimal: width three, right aligned, space padded.
pub open spec fn dec_repr(v: u8) -> Seq<u8> {
    if v < 10 {
        seq![32u8, 32u8, (48 + v as int) as u8]
    } else if v < 100 {
        seq![32u8, (48 + v as int / 10) as u8, (48 + v as int % 10) as u8]
    } else {
        seq![
            (48 + v as int / 100) as u8,
            (48 + (v as int / 10) % 10) as u8,
            (48 + v as int % 10) as u8,
        ]
    }
}

/// Hexadecimal: two lowercase digits, zero padded.
pub open spec fn hex_repr(v: u8) -> Seq<u8> {
    seq![hex_digit(v as int / 16), hex_digit(v as int % 16)]
}

/// The exact rendering of byte `v` in base `b`.
pub open spec fn value_repr(b: Base, v: u8) -> Seq<u8> {
    match b {
        Base::Bin => bin_repr(v),
        Base::Oct => oct_repr(v),
        Base::Dec => dec_repr(v),
        Base::Hex => hex_repr(v),
    }
}

/// A sequence of `n` ASCII spaces.
pub open spec fn blank(n: int) -> Seq<u8> {
    Seq::new(n as nat, |i: int| 32u8)
}

/// The blank padding for base `b`: spaces, as wide as a rendered value.
pub open spec fn pad_repr(b: Base) -> Seq<u8> {
    blank(base_width(b))
}

/// A rendered value always has exactly the base's width.
pub proof fn lemma_value_width(b: Base, v: u8)
    ensures
        value_repr(b, v).len() == base_width(b),
{
}

/// The blank padding of a base is exactly as wide as any rendered value:
/// an absent byte occupies the same columns as a present one.
pub proof fn lemma_pad_width(b: Base, v: u8)
    ensures
        pad_repr(b).len() == value_repr(b, v).len(),
{
}

impl Base {
    /// Append the fixed-width rendering of `byte` in this base to `w`.
    pub fn write(self, byte: u8, w: &mut Vec<u8>)
        ensures
            final(w)@ == old(w)@ + value_repr(self, byte),
    {
        match self {
            Base::Bin => {
                w.push(48 + (byte / 128) % 2);
                w.push(48 + (byte / 64) % 2);
                w.push(48 + (byte / 32) % 2);
                w.push(48 + (byte / 16) % 2);
                w.push(48 + (byte / 8) % 2);
                w.push(48 + (byte / 4) % 2);
                w.push(48 + (byte / 2) % 2);
                w.push(48 + byte % 2);
                assert(w@ =~= old(w)@ + bin_repr(byte));
            },
            Base::Oct => {
                w.push(48 + byte / 64);
                w.push(48 + (byte / 8) % 8);
                w.push(48 + byte % 8);
                assert(w@ =~= old(w)@ + oct_repr(byte));
            },
            Base::Dec => {
                if byte < 10 {
                    w.push(32);
                    w.push(32);
                    w.push(48 + byte);
                } else if byte < 100 {
                    w.push(32);
                    w.push(48 + byte / 10);
                    w.push(48 + byte % 10);
                } else {
                    w.push(48 + byte / 100);
                    w.push(48 + (byte / 10) % 10);
                    w.push(48 + byte % 10);
                }
                assert(w@ =~= old(w)@ + dec_repr(byte));
            },
            Base::Hex => {
                let hi = byte / 16;
                let lo = byte % 16;
                w.push(if hi < 10 { 48 + hi } else { 87 + hi });
                w.push(if lo < 10 { 48 + lo } else { 87 + lo });
                assert(w@ =~= old(w)@ + hex_repr(byte));
            },
        }
    }

    /// Append this base's blank padding (spaces of the value width) to `w`.
    pub fn pad(self, w: &mut Vec<u8>)
        ensures
            final(w)@ == old(w)@ + pad_repr(self),
    {
        let n: usize = match self {
            Base::Bin => 8,
            Base::Oct => 3,
            Base::Dec => 3,
            Base::Hex => 2,
        };
        let mut i: usize = 0;
        while i < n
            invariant
                i <= n,
                w@ == old(w)@ + blank(i as int),
            decreases n - i,
        {
            w.push(32);
            assert(w@ =~= old(w)@ + blank(i + 1));
            i = i + 1;
        }
        assert(w@ =~= old(w)@ + pad_repr(self));
    }
}

} // verus!

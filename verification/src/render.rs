//! Per-line rendering: executing a compiled element sequence against one
//! line of `(absolute offset, byte value)` pairs, appending ASCII text to an
//! output buffer.

use vstd::prelude::*;

use crate::format::{Args, Element, Instr, fmt_model, spec_format};
use crate::radix::{blank, hex_digit, pad_repr, value_repr};

verus! {

/// The lowercase hexadecimal digits of `n`, most significant first, no
/// leading zeros (a single `0` for zero).
pub open spec fn hex_digits(n: int) -> Seq<u8>
    decreases n,
{
    if n < 16 {
        seq![hex_digit(n)]
    } else {
        hex_digits(n / 16) + seq![hex_digit(n % 16)]
    }
}

/// An address as rendered in the address column: lowercase hexadecimal,
/// left-padded with `0` to at least six digits.
pub open spec fn addr_repr(a: int) -> Seq<u8> {
    if hex_digits(a).len() >= 6 {
        hex_digits(a)
    } else {
        Seq::new((6 - hex_digits(a).len()) as nat, |i: int| 48u8) + hex_digits(a)
    }
}

/// The byte an ASCII slot shows for position `k` of `line`: the byte itself
/// when present and printable (32 to 126 inclusive), else a space. An absent
/// position and a non-printable byte are indistinguishable by design.
pub open spec fn ascii_byte(line: Seq<(usize, u8)>, k: int) -> u8 {
    if 0 <= k < line.len() && 32 <= line[k].1 <= 126 {
        line[k].1
    } else {
        32u8
    }
}

/// The exact bytes one instruction writes for `line`.
pub open spec fn render_instr(ins: Instr, line: Seq<(usize, u8)>) -> Seq<u8> {
    match ins {
        Instr::Text(t) => t,
        Instr::Addr(k) => if 0 <= k < line.len() {
            addr_repr(line[k].0 as int)
        } else {
            blank(6)
        },
        Instr::Value(b, k) => if 0 <= k < line.len() {
            value_repr(b, line[k].1)
        } else {
            pad_repr(b)
        },
        Instr::Ascii(k) => seq![ascii_byte(line, k)],
    }
}

/// The exact bytes a whole format writes for `line`: each instruction's
/// output, concatenated in order.
pub open spec fn render_fmt(f: Seq<Instr>, line: Seq<(usize, u8)>) -> Seq<u8>
    decreases f.len(),
{
    if f.len() == 0 {
        Seq::empty()
    } else {
        render_fmt(f.drop_last(), line) + render_instr(f.last(), line)
    }
}

/// Compilation is deterministic and pure: any two element sequences compiled
/// from equal configurations render identically on the same line.
pub proof fn lemma_compile_deterministic(
    a1: Args,
    a2: Args,
    f1: Seq<Element>,
    f2: Seq<Element>,
    line: Seq<(usize, u8)>,
)
    requires
        a1 == a2,
        fmt_model(f1) == spec_format(a1),
        fmt_model(f2) == spec_format(a2),
    ensures
        render_fmt(fmt_model(f1), line) == render_fmt(fmt_model(f2), line),
{
}

/// Every slot of a line shorter than the slot's offset renders exactly as
/// absent: six spaces for an address slot, the base's blank padding for a
/// value slot, and a single space for an ASCII slot.
pub proof fn lemma_absent_slots(line: Seq<(usize, u8)>, k: int, b: crate::radix::Base)
    requires
        k >= line.len(),
    ensures
        render_instr(Instr::Addr(k), line) == blank(6),
        render_instr(Instr::Value(b, k), line) == pad_repr(b),
        render_instr(Instr::Ascii(k), line) == seq![32u8],
{
}

/// The number of hexadecimal digits of `n`, by magnitude.
proof fn lemma_hex_digits_len(n: int)
    requires
        n >= 0,
    ensures
        n < 0x10 ==> hex_digits(n).len() == 1,
        0x10 <= n < 0x100 ==> hex_digits(n).len() == 2,
        0x100 <= n < 0x1000 ==> hex_digits(n).len() == 3,
        0x1000 <= n < 0x10000 ==> hex_digits(n).len() == 4,
        0x10000 <= n < 0x100000 ==> hex_digits(n).len() == 5,
        0x100000 <= n ==> hex_digits(n).len() >= 6,
    decreases n,
{
    if n >= 16 {
        lemma_hex_digits_len(n / 16);
    }
}

/// Append the bare hexadecimal digits of `a` to `w`.
fn push_hex(a: usize, w: &mut Vec<u8>)
    ensures
        final(w)@ == old(w)@ + hex_digits(a as int),
    decreases a,
{
    if a < 16 {
        let d: u8 = a as u8;
        w.push(if d < 10 { 48 + d } else { 87 + d });
        assert(w@ =~= old(w)@ + hex_digits(a as int));
    } else {
        push_hex(a / 16, w);
        let d: u8 = (a % 16) as u8;
        w.push(if d < 10 { 48 + d } else { 87 + d });
        assert(w@ =~= old(w)@ + hex_digits(a as int));
    }
}

/// Append the six-digit (or wider) zero-padded hexadecimal address to `w`.
fn write_addr(a: usize, w: &mut Vec<u8>)
    ensures
        final(w)@ == old(w)@ + addr_repr(a as int),
{
    proof {
        lemma_hex_digits_len(a as int);
    }
    if a < 0x100000 {
        w.push(48);
    }
    if a < 0x10000 {
        w.push(48);
    }
    if a < 0x1000 {
        w.push(48);
    }
    if a < 0x100 {
        w.push(48);
    }
    if a < 0x10 {
        w.push(48);
    }
    let ghost padded = w@;
    proof {
        assert(padded =~= old(w)@ + Seq::new((padded.len() - old(w)@.len()) as nat, |i: int| 48u8));
    }
    push_hex(a, w);
    assert(w@ =~= old(w)@ + addr_repr(a as int));
}

/// Append what one element writes for `line` to `w`.
fn render_element(e: &Element, line: &Vec<(usize, u8)>, w: &mut Vec<u8>)
    ensures
        final(w)@ == old(w)@ + render_instr(e@, line@),
{
    match e {
        Element::Text(t) => {
            let mut j: usize = 0;
            while j < t.len()
                invariant
                    j <= t.len(),
                    w@ == old(w)@ + t@.take(j as int),
                decreases t.len() - j,
            {
                w.push(t[j]);
                assert(w@ =~= old(w)@ + t@.take(j + 1));
                j = j + 1;
            }
            assert(w@ =~= old(w)@ + t@);
        },
        Element::Addr(k) => {
            if *k < line.len() {
                write_addr(line[*k].0, w);
            } else {
                let mut j: usize = 0;
                while j < 6
                    invariant
                        j <= 6,
                        w@ == old(w)@ + blank(j as int),
                    decreases 6 - j,
                {
                    w.push(32);
                    assert(w@ =~= old(w)@ + blank(j + 1));
                    j = j + 1;
                }
            }
        },
        Element::Value(b, k) => {
            if *k < line.len() {
                b.write(line[*k].1, w);
            } else {
                b.pad(w);
            }
        },
        Element::Ascii(k) => {
            let c: u8 = if *k < line.len() {
                let v = line[*k].1;
                if 32 <= v && v <= 126 {
                    v
                } else {
                    32
                }
            } else {
                32
            };
            w.push(c);
            assert(w@ =~= old(w)@ + seq![ascii_byte(line@, *k as int)]);
        },
    }
}

/// Execute every element of `format` against `line`, in order, appending the
/// rendered text to `w`. The bytes appended are exactly
/// `render_fmt(fmt_model(format@), line@)`.
#[verifier::loop_isolation(false)]
pub fn render_line(format: &Vec<Element>, line: &Vec<(usize, u8)>, w: &mut Vec<u8>)
    ensures
        final(w)@ == old(w)@ + render_fmt(fmt_model(format@), line@),
{
    let ghost m = fmt_model(format@);
    let mut i: usize = 0;
    while i < format.len()
        invariant
            i <= format.len(),
            w@ == old(w)@ + render_fmt(m.take(i as int), line@),
        decreases format.len() - i,
    {
        render_element(&format[i], line, w);
        proof {
            assert(m.take(i + 1).drop_last() =~= m.take(i as int));
            assert(m.take(i + 1).last() == m[i as int]);
            assert(render_fmt(m.take(i + 1), line@) == render_fmt(m.take(i as int), line@)
                + render_instr(m[i as int], line@));
        }
        i = i + 1;
    }
    assert(m.take(format.len() as int) =~= m);
}

} // verus!

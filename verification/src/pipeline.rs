//! The streaming render pipeline: range selection over absolute byte
//! positions, grouping into lines of bounded width with early termination on
//! sentinel bytes, and per-line rendering through a compiled format.

use vstd::prelude::*;

use crate::format::{Args, Element, Instr, fmt_model, spec_format};
use crate::render::{render_fmt, render_line};

verus! {

/// How many bytes the next line takes, starting at position `lo` of `input`
/// with positions below `hi` available: up to `width` bytes, stopping right
/// after the first byte whose value is in `brk` (that byte is included).
pub open spec fn line_len(input: Seq<u8>, lo: int, hi: int, width: int, brk: Seq<u8>) -> int
    decreases hi - lo,
{
    if lo >= hi || width <= 0 {
        0
    } else if brk.contains(input[lo]) || width == 1 {
        1
    } else {
        1 + line_len(input, lo + 1, hi, width - 1, brk)
    }
}

/// The line starting at position `lo`, of `n` bytes: each byte paired with
/// its absolute position in the stream.
pub open spec fn line_seq(input: Seq<u8>, lo: int, n: int) -> Seq<(usize, u8)> {
    Seq::new(n as nat, |j: int| ((lo + j) as usize, input[lo + j]))
}

/// A nonempty line always takes between 1 and `width` bytes, and never more
/// than are available.
pub proof fn lemma_line_len_bounds(input: Seq<u8>, lo: int, hi: int, width: int, brk: Seq<u8>)
    requires
        lo < hi,
        width >= 1,
    ensures
        1 <= line_len(input, lo, hi, width, brk),
        line_len(input, lo, hi, width, brk) <= width,
        line_len(input, lo, hi, width, brk) <= hi - lo,
    decreases hi - lo,
{
    if !(brk.contains(input[lo]) || width == 1) {
        if lo + 1 < hi {
            lemma_line_len_bounds(input, lo + 1, hi, width - 1, brk);
        } else {
            assert(line_len(input, lo + 1, hi, width - 1, brk) == 0);
        }
    }
}

/// `line_len` is the unique `n` with no sentinel strictly before position
/// `n - 1` that either ends on a sentinel, fills the width, or exhausts the
/// available range.
proof fn lemma_line_len_char(input: Seq<u8>, lo: int, hi: int, width: int, brk: Seq<u8>, n: int)
    requires
        lo < hi,
        width >= 1,
        1 <= n <= width,
        lo + n <= hi,
        forall|j: int| 0 <= j < n - 1 ==> !brk.contains(#[trigger] input[lo + j]),
        brk.contains(input[lo + n - 1]) || n == width || lo + n == hi,
    ensures
        line_len(input, lo, hi, width, brk) == n,
    decreases n,
{
    if n == 1 {
        if !(brk.contains(input[lo]) || width == 1) {
            assert(lo + 1 == hi);
            assert(line_len(input, lo + 1, hi, width - 1, brk) == 0);
        }
    } else {
        assert(!brk.contains(input[lo + 0]));
        assert forall|j: int| 0 <= j < (n - 1) - 1 implies !brk.contains(
            #[trigger] input[(lo + 1) + j],
        ) by {
            assert(!brk.contains(input[lo + (j + 1)]));
        }
        assert(brk.contains(input[(lo + 1) + (n - 1) - 1]) || n - 1 == width - 1 || (lo + 1) + (n
            - 1) == hi) by {
            assert(input[(lo + 1) + (n - 1) - 1] == input[lo + n - 1]);
        }
        lemma_line_len_char(input, lo + 1, hi, width - 1, brk, n - 1);
    }
}

/// The full output: lines rendered in order until the selected range is
/// exhausted. Empty when nothing is selected or the width is not positive.
pub open spec fn dump(input: Seq<u8>, lo: int, hi: int, f: Seq<Instr>, width: int, brk: Seq<u8>) -> Seq<u8>
    decreases hi - lo,
{
    if lo >= hi || width <= 0 {
        Seq::empty()
    } else {
        let n = line_len(input, lo, hi, width, brk);
        proof {
            lemma_line_len_bounds(input, lo, hi, width, brk);
        }
        render_fmt(f, line_seq(input, lo, n)) + dump(input, lo + n, hi, f, width, brk)
    }
}

/// First selected absolute position: `start`, or 0 when absent.
pub open spec fn sel_lo(a: Args) -> int {
    match a.select.0 {
        Some(s) => s as int,
        None => 0,
    }
}

/// First absolute position past the selection: `stop` clamped to the input
/// length, or the input length when absent. The cutoff counts absolute
/// positions, before the skip to `start` is applied, so a `start` at or past
/// `stop` selects nothing.
pub open spec fn sel_hi(a: Args, len: int) -> int {
    match a.select.1 {
        Some(s) => if s as int <= len {
            s as int
        } else {
            len
        },
        None => len,
    }
}

/// The whole pipeline as one pure function: the text that configuration `a`
/// produces for `input`.
pub open spec fn spec_output(a: Args, input: Seq<u8>) -> Seq<u8> {
    dump(
        input,
        sel_lo(a),
        sel_hi(a, input.len() as int),
        spec_format(a),
        a.line_width as int,
        a.break_on@,
    )
}

/// The byte values the pipeline passes to the renderer, over all lines in
/// order, grouped exactly as `dump` groups them.
pub open spec fn selected_bytes(input: Seq<u8>, lo: int, hi: int, width: int, brk: Seq<u8>) -> Seq<
    u8,
>
    decreases hi - lo,
{
    if lo >= hi || width <= 0 {
        Seq::empty()
    } else {
        let n = line_len(input, lo, hi, width, brk);
        proof {
            lemma_line_len_bounds(input, lo, hi, width, brk);
        }
        line_seq(input, lo, n).map_values(|p: (usize, u8)| p.1) + selected_bytes(
            input,
            lo + n,
            hi,
            width,
            brk,
        )
    }
}

/// The range filter renders exactly the selected bytes: over all lines, the
/// rendered byte values are `input[lo .. hi]` in stream order — `start`
/// inclusive, `stop` exclusive, no byte dropped or repeated by the line
/// grouping.
pub proof fn lemma_selection_covered(input: Seq<u8>, lo: int, hi: int, width: int, brk: Seq<u8>)
    requires
        0 <= lo <= hi <= input.len(),
        width >= 1,
    ensures
        selected_bytes(input, lo, hi, width, brk) == input.subrange(lo, hi),
    decreases hi - lo,
{
    if lo >= hi {
        assert(selected_bytes(input, lo, hi, width, brk) =~= input.subrange(lo, hi));
    } else {
        let n = line_len(input, lo, hi, width, brk);
        lemma_line_len_bounds(input, lo, hi, width, brk);
        lemma_selection_covered(input, lo + n, hi, width, brk);
        assert(line_seq(input, lo, n).map_values(|p: (usize, u8)| p.1) =~= input.subrange(
            lo,
            lo + n,
        ));
        assert(selected_bytes(input, lo, hi, width, brk) =~= input.subrange(lo, hi));
    }
}

/// A selection that filters out every byte (`start` at or past the effective
/// `stop`, or an empty input) produces zero output lines: no text at all.
pub proof fn lemma_empty_selection(a: Args, input: Seq<u8>)
    requires
        sel_lo(a) >= sel_hi(a, input.len() as int),
    ensures
        spec_output(a, input) == Seq::<u8>::empty(),
{
}

/// The pipeline is deterministic: any two runs over the same configuration
/// and the same input bytes produce byte-identical output.
pub proof fn lemma_rerun(a: Args, input: Seq<u8>, out1: Seq<u8>, out2: Seq<u8>)
    requires
        out1 == spec_output(a, input),
        out2 == spec_output(a, input),
    ensures
        out1 == out2,
{
}

/// Whether `brk` holds the value `b`.
fn contains_byte(brk: &Vec<u8>, b: u8) -> (r: bool)
    ensures
        r == brk@.contains(b),
{
    let mut i: usize = 0;
    while i < brk.len()
        invariant
            i <= brk.len(),
            forall|j: int| 0 <= j < i ==> brk@[j] != b,
        decreases brk.len() - i,
    {
        if brk[i] == b {
            return true;
        }
        i = i + 1;
    }
    false
}

/// Draw the next line: up to `width` position-byte pairs starting at `lo`,
/// stopping early right after a byte whose value is in `brk`. Positions at
/// or past `hi` are never drawn.
#[verifier::loop_isolation(false)]
pub fn take_line(input: &Vec<u8>, lo: usize, hi: usize, width: usize, brk: &Vec<u8>) -> (line: Vec<
    (usize, u8),
>)
    requires
        hi <= input@.len(),
        width >= 1,
    ensures
        line@ == line_seq(
            input@,
            lo as int,
            line_len(input@, lo as int, hi as int, width as int, brk@),
        ),
{
    let mut line: Vec<(usize, u8)> = Vec::new();
    if lo >= hi {
        assert(line@ =~= line_seq(input@, lo as int, 0));
        return line;
    }
    let mut j: usize = 0;
    let mut broke: bool = false;
    while j < width && lo + j < hi && !broke
        invariant
            j <= width,
            lo + j <= hi,
            line@ =~= line_seq(input@, lo as int, j as int),
            forall|jj: int| 0 <= jj < j - 1 ==> !brk@.contains(#[trigger] input@[lo + jj]),
            broke ==> j >= 1 && brk@.contains(input@[lo + j - 1]),
            !broke && j >= 1 ==> !brk@.contains(input@[lo + j - 1]),
        decreases width - j,
    {
        let b = input[lo + j];
        line.push((lo + j, b));
        assert(line@ =~= line_seq(input@, lo as int, j + 1));
        if contains_byte(brk, b) {
            broke = true;
        }
        j = j + 1;
    }
    proof {
        lemma_line_len_char(input@, lo as int, hi as int, width as int, brk@, j as int);
    }
    line
}

impl Args {
    /// Run the whole pipeline: select the configured range of `input`, group
    /// it into lines, render each line through `format`, and append the text
    /// to `w`. Appends exactly the bytes of `spec_output` when `format` is
    /// this configuration's compiled format.
    #[verifier::loop_isolation(false)]
    pub fn render(&self, format: &Vec<Element>, input: &Vec<u8>, w: &mut Vec<u8>)
        requires
            self.line_width >= 1,
        ensures
            final(w)@ == old(w)@ + dump(
                input@,
                sel_lo(*self),
                sel_hi(*self, input@.len() as int),
                fmt_model(format@),
                self.line_width as int,
                self.break_on@,
            ),
    {
        let len = input.len();
        let hi: usize = match self.select.1 {
            Some(s) => if s <= len {
                s
            } else {
                len
            },
            None => len,
        };
        let lo: usize = match self.select.0 {
            Some(s) => s,
            None => 0,
        };
        let ghost f = fmt_model(format@);
        let ghost brk = self.break_on@;
        let mut pos: usize = lo;
        while pos < hi
            invariant
                hi <= input@.len(),
                old(w)@ + dump(input@, lo as int, hi as int, f, self.line_width as int, brk)
                    == w@ + dump(input@, pos as int, hi as int, f, self.line_width as int, brk),
            decreases hi - pos,
        {
            let line = take_line(input, pos, hi, self.line_width, &self.break_on);
            proof {
                lemma_line_len_bounds(
                    input@,
                    pos as int,
                    hi as int,
                    self.line_width as int,
                    brk,
                );
            }
            render_line(format, &line, w);
            pos = pos + line.len();
        }
    }

    /// Compile this configuration and render `input` through it: the one-call
    /// form of the pipeline. The result is exactly `spec_output(*self, input@)`.
    pub fn run(&self, input: &Vec<u8>) -> (out: Vec<u8>)
        requires
            self.line_width >= 1,
        ensures
            out@ == spec_output(*self, input@),
    {
        let format = self.make_format();
        let mut out: Vec<u8> = Vec::new();
        self.render(&format, input, &mut out);
        assert(out@ =~= spec_output(*self, input@));
        out
    }
}

} // verus!

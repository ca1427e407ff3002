//! The format compiler: a display configuration is translated once into an
//! ordered sequence of rendering elements, reused for every output line.

use vstd::prelude::*;

use crate::radix::Base;

verus! {

/// One atomic rendering instruction.
///
/// `Text` is verbatim ASCII bytes (separators, color escape sequences, the
/// line terminator); the three slot variants read one position of the current
/// line and render it, or render blank padding when the line is shorter.
pub enum Element {
    Text(Vec<u8>),
    Addr(usize),
    Value(Base, usize),
    Ascii(usize),
}

/// The mathematical model of an `Element`: the same shape over `Seq` and `int`.
pub enum Instr {
    Text(Seq<u8>),
    Addr(int),
    Value(Base, int),
    Ascii(int),
}

impl View for Element {
    type V = Instr;

    open spec fn view(&self) -> Instr {
        match self {
            Element::Text(t) => Instr::Text(t@),
            Element::Addr(k) => Instr::Addr(*k as int),
            Element::Value(b, k) => Instr::Value(*b, *k as int),
            Element::Ascii(k) => Instr::Ascii(*k as int),
        }
    }
}

/// The model of a compiled format: each element's model, in order.
pub open spec fn fmt_model(f: Seq<Element>) -> Seq<Instr> {
    f.map_values(|e: Element| e@)
}

/// ANSI escape that switches the address color on.
pub open spec fn color_addr_on() -> Seq<u8> {
    seq![27u8, 91u8, 49u8, 59u8, 57u8, 53u8, 109u8]
}

/// ANSI escape that switches the text-column color on.
pub open spec fn color_text_on() -> Seq<u8> {
    seq![27u8, 91u8, 57u8, 52u8, 109u8]
}

/// ANSI escape that resets the color.
pub open spec fn color_off() -> Seq<u8> {
    seq![27u8, 91u8, 48u8, 109u8]
}

/// The leading address column of the format, when enabled.
pub open spec fn addr_part(address: bool, colored: bool) -> Seq<Instr> {
    if address {
        (if colored {
            seq![Instr::Text(color_addr_on()), Instr::Addr(0), Instr::Text(color_off())]
        } else {
            seq![Instr::Addr(0)]
        }) + seq![Instr::Text(seq![32u8, 32u8])]
    } else {
        Seq::empty()
    }
}

/// The value slots for line offsets `0 .. w`, a single space between
/// consecutive slots.
pub open spec fn value_part(r: Base, w: int) -> Seq<Instr>
    decreases w,
{
    if w <= 0 {
        Seq::empty()
    } else if w == 1 {
        seq![Instr::Value(r, 0)]
    } else {
        value_part(r, w - 1) + seq![Instr::Text(seq![32u8]), Instr::Value(r, w - 1)]
    }
}

/// The ASCII slots for line offsets `0 .. w`, without separators.
pub open spec fn ascii_part(w: int) -> Seq<Instr>
    decreases w,
{
    if w <= 0 {
        Seq::empty()
    } else {
        ascii_part(w - 1) + seq![Instr::Ascii(w - 1)]
    }
}

/// The trailing text column of the format, when enabled.
pub open spec fn text_part(text: bool, colored: bool, w: int) -> Seq<Instr> {
    if text {
        seq![Instr::Text(seq![32u8, 32u8])] + (if colored {
            seq![Instr::Text(color_text_on())]
        } else {
            Seq::empty()
        }) + ascii_part(w) + (if colored {
            seq![Instr::Text(color_off())]
        } else {
            Seq::empty()
        })
    } else {
        Seq::empty()
    }
}

/// The display configuration: which columns to show, the numerical base,
/// the selected input range, the line width, the sentinel byte values that
/// end a line early, and whether to emit color escapes.
pub struct Args {
    /// Show the address of the first byte of each line.
    pub address: bool,
    /// Show the corresponding ASCII characters.
    pub text: bool,
    /// Numerical base for the byte values.
    pub radix: Base,
    /// Range of absolute input positions to show: `start` (default 0) and
    /// `stop` (default unbounded), stop counted before the skip is applied.
    pub select: (Option<usize>, Option<usize>),
    /// How many bytes per line; at least 1.
    pub line_width: usize,
    /// Start a new line after any of these byte values.
    pub break_on: Vec<u8>,
    /// Whether the output carries ANSI escape sequences.
    pub colored: bool,
}

/// The whole compiled format for a configuration: address column, value
/// slots, text column, then the newline. The ordering is the contract.
pub open spec fn spec_format(a: Args) -> Seq<Instr> {
    addr_part(a.address, a.colored) + value_part(a.radix, a.line_width as int) + text_part(
        a.text,
        a.colored,
        a.line_width as int,
    ) + seq![Instr::Text(seq![10u8])]
}

/// Build an `Element::Text` of one byte.
fn text1(a: u8) -> (e: Element)
    ensures
        e@ == Instr::Text(seq![a]),
{
    let mut v: Vec<u8> = Vec::new();
    v.push(a);
    assert(v@ =~= seq![a]);
    Element::Text(v)
}

/// Build an `Element::Text` of two bytes.
fn text2(a: u8, b: u8) -> (e: Element)
    ensures
        e@ == Instr::Text(seq![a, b]),
{
    let mut v: Vec<u8> = Vec::new();
    v.push(a);
    v.push(b);
    assert(v@ =~= seq![a, b]);
    Element::Text(v)
}

/// Build the color-reset escape element.
fn text_color_off() -> (e: Element)
    ensures
        e@ == Instr::Text(color_off()),
{
    let mut v: Vec<u8> = Vec::new();
    v.push(27);
    v.push(91);
    v.push(48);
    v.push(109);
    assert(v@ =~= color_off());
    Element::Text(v)
}

/// Build the address color-on escape element.
fn text_color_addr_on() -> (e: Element)
    ensures
        e@ == Instr::Text(color_addr_on()),
{
    let mut v: Vec<u8> = Vec::new();
    v.push(27);
    v.push(91);
    v.push(49);
    v.push(59);
    v.push(57);
    v.push(53);
    v.push(109);
    assert(v@ =~= color_addr_on());
    Element::Text(v)
}

/// Build the text-column color-on escape element.
fn text_color_text_on() -> (e: Element)
    ensures
        e@ == Instr::Text(color_text_on()),
{
    let mut v: Vec<u8> = Vec::new();
    v.push(27);
    v.push(91);
    v.push(57);
    v.push(52);
    v.push(109);
    assert(v@ =~= color_text_on());
    Element::Text(v)
}

impl Args {
    /// Compile this configuration into its ordered element sequence.
    ///
    /// Total and deterministic: the result's model is exactly
    /// `spec_format(*self)` for every configuration.
    #[verifier::loop_isolation(false)]
    #[verifier::rlimit(100)]
    pub fn make_format(&self) -> (format: Vec<Element>)
        ensures
            fmt_model(format@) == spec_format(*self),
    {
        let mut format: Vec<Element> = Vec::new();
        if self.address {
            if self.colored {
                format.push(text_color_addr_on());
                format.push(Element::Addr(0));
                format.push(text_color_off());
            } else {
                format.push(Element::Addr(0));
            }
            format.push(text2(32, 32));
        }
        assert(fmt_model(format@) =~= addr_part(self.address, self.colored));
        let ghost head = addr_part(self.address, self.colored);
        let mut i: usize = 0;
        while i < self.line_width
            invariant
                i <= self.line_width,
                fmt_model(format@) =~= head + value_part(self.radix, i as int),
            decreases self.line_width - i,
        {
            let ghost pre = format@;
            if i > 0 {
                format.push(text1(32));
                assert(fmt_model(format@) =~= fmt_model(pre).push(Instr::Text(seq![32u8])));
            }
            let ghost mid = format@;
            format.push(Element::Value(self.radix, i));
            assert(fmt_model(format@) =~= fmt_model(mid).push(Instr::Value(self.radix, i as int)));
            assert(value_part(self.radix, i + 1) =~= value_part(self.radix, i as int) + (if i == 0 {
                seq![Instr::Value(self.radix, 0)]
            } else {
                seq![Instr::Text(seq![32u8]), Instr::Value(self.radix, i as int)]
            }));
            assert(fmt_model(format@) =~= head + value_part(self.radix, i + 1));
            i = i + 1;
        }
        let ghost head2 = head + value_part(self.radix, self.line_width as int);
        assert(fmt_model(format@) =~= head2);
        if self.text {
            format.push(text2(32, 32));
            assert(fmt_model(format@) =~= head2.push(Instr::Text(seq![32u8, 32u8])));
            if self.colored {
                let ghost mid_t = format@;
                format.push(text_color_text_on());
                assert(fmt_model(format@) =~= fmt_model(mid_t).push(Instr::Text(color_text_on())));
            }
            let ghost head3 = fmt_model(format@);
            assert(head3 =~= head2 + seq![Instr::Text(seq![32u8, 32u8])] + (if self.colored {
                seq![Instr::Text(color_text_on())]
            } else {
                Seq::<Instr>::empty()
            }));
            let mut i: usize = 0;
            while i < self.line_width
                invariant
                    i <= self.line_width,
                    fmt_model(format@) =~= head3 + ascii_part(i as int),
                decreases self.line_width - i,
            {
                let ghost pre = format@;
                format.push(Element::Ascii(i));
                assert(fmt_model(format@) =~= fmt_model(pre).push(Instr::Ascii(i as int)));
                assert(ascii_part(i + 1) =~= ascii_part(i as int) + seq![Instr::Ascii(i as int)]);
                assert(fmt_model(format@) =~= head3 + ascii_part(i + 1));
                i = i + 1;
            }
            if self.colored {
                let ghost pre_off = format@;
                format.push(text_color_off());
                assert(fmt_model(format@) =~= fmt_model(pre_off).push(Instr::Text(color_off())));
            }
        }
        assert(fmt_model(format@) =~= head2 + text_part(self.text, self.colored, self.line_width as int));
        format.push(text1(10));
        assert(fmt_model(format@) =~= spec_format(*self));
        format
    }
}

} // verus!

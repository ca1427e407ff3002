//! Parsing of a selection range written as `N..N`, where each `N` is an
//! optional decimal integer: the syntax accepted for the `select`
//! configuration field.

use vstd::prelude::*;
use vstd::slice::slice_to_vec;
use vstd::string::StringSliceAdditionalSpecFns;

verus! {

/// An ASCII decimal digit.
pub open spec fn is_digit(c: u8) -> bool {
    48 <= c <= 57
}

/// The value of a sequence of decimal digit bytes, most significant first.
pub open spec fn digits_val(b: Seq<u8>) -> int
    decreases b.len(),
{
    if b.len() == 0 {
        0
    } else {
        digits_val(b.drop_last()) * 10 + (b.last() - 48)
    }
}

/// The digits of a written number: everything after one optional leading `+`.
pub open spec fn num_body(b: Seq<u8>) -> Seq<u8> {
    if b.len() > 0 && b[0] == 43 {
        b.subrange(1, b.len() as int)
    } else {
        b
    }
}

/// Whether `b` is a number a `usize` holds: an optional `+`, then at least
/// one digit, and a value that fits.
pub open spec fn is_num(b: Seq<u8>) -> bool {
    &&& num_body(b).len() > 0
    &&& forall|j: int| 0 <= j < num_body(b).len() ==> is_digit(#[trigger] num_body(b)[j])
    &&& digits_val(num_body(b)) <= usize::MAX
}

/// The position of the first `..` at or after position `i`, or -1 when there
/// is none.
pub open spec fn sep_from(b: Seq<u8>, i: int) -> int
    decreases b.len() - i,
{
    if i + 2 > b.len() {
        -1
    } else if b[i] == 46 && b[i + 1] == 46 {
        i
    } else {
        sep_from(b, i + 1)
    }
}

/// The text before the first `..`.
pub open spec fn pre_part(b: Seq<u8>) -> Seq<u8> {
    b.subrange(0, sep_from(b, 0))
}

/// The text after the first `..`.
pub open spec fn post_part(b: Seq<u8>) -> Seq<u8> {
    b.subrange(sep_from(b, 0) + 2, b.len() as int)
}

/// Whether `b` is a well-formed range: exactly one `..`, each side empty or
/// a number a `usize` holds.
pub open spec fn range_ok(b: Seq<u8>) -> bool {
    &&& sep_from(b, 0) >= 0
    &&& sep_from(b, sep_from(b, 0) + 2) < 0
    &&& (pre_part(b).len() == 0 || is_num(pre_part(b)))
    &&& (post_part(b).len() == 0 || is_num(post_part(b)))
}

/// The bound one side of a well-formed range denotes: absent when written
/// empty.
pub open spec fn part_val(p: Seq<u8>) -> Option<usize> {
    if p.len() == 0 {
        None
    } else {
        Some(digits_val(num_body(p)) as usize)
    }
}

/// The selection a well-formed range denotes.
pub open spec fn range_val(b: Seq<u8>) -> (Option<usize>, Option<usize>) {
    (part_val(pre_part(b)), part_val(post_part(b)))
}

/// All-digit sequences have a non-negative value.
proof fn lemma_digits_val_nonneg(b: Seq<u8>)
    requires
        forall|j: int| 0 <= j < b.len() ==> is_digit(#[trigger] b[j]),
    ensures
        digits_val(b) >= 0,
    decreases b.len(),
{
    if b.len() > 0 {
        assert(forall|j: int| 0 <= j < b.drop_last().len() ==> is_digit(
            #[trigger] b.drop_last()[j],
        ));
        lemma_digits_val_nonneg(b.drop_last());
    }
}

/// A prefix of an all-digit sequence never has a larger value.
proof fn lemma_digits_val_take_le(b: Seq<u8>, k: int)
    requires
        0 <= k <= b.len(),
        forall|j: int| 0 <= j < b.len() ==> is_digit(#[trigger] b[j]),
    ensures
        digits_val(b.take(k)) <= digits_val(b),
    decreases b.len() - k,
{
    if k == b.len() {
        assert(b.take(k) =~= b);
    } else {
        assert(forall|j: int| 0 <= j < b.take(k).len() ==> is_digit(#[trigger] b.take(k)[j]));
        lemma_digits_val_nonneg(b.take(k));
        assert(b.take(k + 1).drop_last() =~= b.take(k));
        assert(digits_val(b.take(k + 1)) == digits_val(b.take(k)) * 10 + (b[k] - 48));
        lemma_digits_val_take_le(b, k + 1);
    }
}

/// Find the first `..` at or after `from`.
fn find_sep(b: &Vec<u8>, from: usize) -> (r: Option<usize>)
    ensures
        match r {
            Some(p) => sep_from(b@, from as int) == p && p + 2 <= b@.len(),
            None => sep_from(b@, from as int) == -1,
        },
{
    let n = b.len();
    let mut i: usize = from;
    while i < n && i + 1 < n
        invariant
            n == b@.len(),
            from <= i,
            sep_from(b@, from as int) == sep_from(b@, i as int),
        decreases n - i,
    {
        if b[i] == 46 && b[i + 1] == 46 {
            return Some(i);
        }
        i = i + 1;
    }
    None
}

/// Parse the decimal number written at positions `st .. en`: an optional
/// leading `+`, then digits. `None` when empty, malformed, or too large for
/// a `usize`.
#[verifier::loop_isolation(false)]
fn parse_usize(b: &Vec<u8>, st: usize, en: usize) -> (r: Option<usize>)
    requires
        st <= en <= b@.len(),
    ensures
        r is Some <==> is_num(b@.subrange(st as int, en as int)),
        r is Some ==> r->0 == digits_val(num_body(b@.subrange(st as int, en as int))),
{
    let ghost p = b@.subrange(st as int, en as int);
    let mut i: usize = st;
    if i < en && b[i] == 43 {
        i = i + 1;
    }
    let ghost body = b@.subrange(i as int, en as int);
    proof {
        assert(num_body(p) =~= body);
    }
    if i == en {
        return None;
    }
    let mut acc: usize = 0;
    let mut j: usize = i;
    while j < en
        invariant
            i <= j <= en,
            acc == digits_val(body.take(j - i)),
            forall|jj: int| 0 <= jj < j - i ==> is_digit(#[trigger] body[jj]),
        decreases en - j,
    {
        let d = b[j];
        if !(48 <= d && d <= 57) {
            assert(!is_digit(body[j - i]));
            return None;
        }
        let dv: usize = (d - 48) as usize;
        proof {
            assert(body.take(j - i + 1).drop_last() =~= body.take(j - i));
            assert(digits_val(body.take(j - i + 1)) == acc * 10 + dv);
        }
        if acc > (usize::MAX - dv) / 10 {
            proof {
                assert(acc * 10 + dv > usize::MAX) by (nonlinear_arith)
                    requires
                        acc > (usize::MAX - dv) / 10,
                        dv <= usize::MAX,
                {}
                if is_num(p) {
                    lemma_digits_val_take_le(body, j - i + 1);
                }
            }
            return None;
        }
        proof {
            assert(acc * 10 + dv <= usize::MAX) by (nonlinear_arith)
                requires
                    acc <= (usize::MAX - dv) / 10,
                    dv <= usize::MAX,
            {}
        }
        acc = acc * 10 + dv;
        j = j + 1;
    }
    proof {
        assert(body.take(en - i) =~= body);
    }
    Some(acc)
}

/// Parse a selection range written as `N..N`: each side an optional decimal
/// integer, `start` before the `..` and `stop` after it, either side absent
/// when written empty. Exactly the well-formed strings are accepted, and each
/// side's value is exactly the written number.
pub fn parse_range(s: &str) -> (r: Result<(Option<usize>, Option<usize>), &'static str>)
    ensures
        r is Ok <==> range_ok(s.spec_bytes()),
        r is Ok ==> r->Ok_0 == range_val(s.spec_bytes()),
{
    let err = "expecting a value matching the regex '[0-9]*\\.\\.[0-9]*'";
    let bytes: Vec<u8> = slice_to_vec(s.as_bytes());
    let n = bytes.len();
    let sep = match find_sep(&bytes, 0) {
        Some(p) => p,
        None => {
            return Err(err);
        },
    };
    match find_sep(&bytes, sep + 2) {
        Some(_) => {
            return Err(err);
        },
        None => {},
    }
    let start: Option<usize> = if sep == 0 {
        None
    } else {
        match parse_usize(&bytes, 0, sep) {
            Some(v) => Some(v),
            None => {
                return Err(err);
            },
        }
    };
    let stop: Option<usize> = if sep + 2 == n {
        None
    } else {
        match parse_usize(&bytes, sep + 2, n) {
            Some(v) => Some(v),
            None => {
                return Err(err);
            },
        }
    };
    Ok((start, stop))
}

} // verus!

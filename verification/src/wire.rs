//! The wire format of the canvas service: the query string of a region
//! fetch, the JSON body of a pixel edit, and the parser for the JSON pixel
//! records the service returns.
//!
//! The grammar accepted here is the canonical JSON shape of a pixel record
//! — `{"x": <int>, "y": <int>, "color": "<string>"}`, fields in that order,
//! whitespace allowed between tokens, and a JSON array of such records —
//! exactly what the service emits. Anything else is malformed and rejected
//! whole; a batch is never half-applied.

use vstd::prelude::*;

use crate::grains::GrainRecordV;
use crate::grains::PixelGrainDto;
use crate::text::dec_int;
use crate::text::color_hex;
use crate::text::push_bytes;
use crate::text::push_i64_dec;
use crate::text::color_to_hex;
use crate::components::PixelRectangle;

verus! {

/// Whether a byte is JSON whitespace.
pub open spec fn is_ws(c: u8) -> bool {
    c == 0x20 || c == 0x09 || c == 0x0a || c == 0x0d
}

/// Whether a byte is an ASCII decimal digit.
pub open spec fn is_digit(c: u8) -> bool {
    0x30 <= c <= 0x39
}

/// The first index at or after `i` that does not hold whitespace.
pub open spec fn skip_ws(s: Seq<u8>, i: int) -> int
    decreases s.len() - i,
{
    if 0 <= i < s.len() && is_ws(s[i]) {
        skip_ws(s, i + 1)
    } else {
        i
    }
}

pub proof fn lemma_skip_ws_bounds(s: Seq<u8>, i: int)
    requires
        0 <= i <= s.len(),
    ensures
        i <= skip_ws(s, i) <= s.len(),
    decreases s.len() - i,
{
    if i < s.len() && is_ws(s[i]) {
        lemma_skip_ws_bounds(s, i + 1);
    }
}

/// The first index at or after `i` that does not hold a digit.
pub open spec fn scan_digits(s: Seq<u8>, i: int) -> int
    decreases s.len() - i,
{
    if 0 <= i < s.len() && is_digit(s[i]) {
        scan_digits(s, i + 1)
    } else {
        i
    }
}

pub proof fn lemma_scan_digits_bounds(s: Seq<u8>, i: int)
    requires
        0 <= i <= s.len(),
    ensures
        i <= scan_digits(s, i) <= s.len(),
    decreases s.len() - i,
{
    if i < s.len() && is_digit(s[i]) {
        lemma_scan_digits_bounds(s, i + 1);
    }
}

/// The value of the digit run `s[i..j)`, read as decimal.
pub open spec fn digits_val(s: Seq<u8>, i: int, j: int) -> int
    decreases j - i,
{
    if i >= j {
        0
    } else {
        digits_val(s, i, j - 1) * 10 + (s[j - 1] - 0x30)
    }
}

/// Where the digits of a number at `i` begin: one past a leading minus.
pub open spec fn int_start(s: Seq<u8>, i: int) -> int {
    if 0 <= i < s.len() && s[i] == 0x2d {
        i + 1
    } else {
        i
    }
}

/// Parses a JSON integer at `i`: an optional minus, then at least one
/// digit, no leading zeros, and a value that fits `i64`. Yields the value
/// and the index just past the digits.
pub open spec fn parse_int(s: Seq<u8>, i: int) -> Option<(int, int)> {
    let k = int_start(s, i);
    let j = scan_digits(s, k);
    if j == k {
        None
    } else if j - k > 1 && s[k] == 0x30 {
        None
    } else if k > i && i64::MIN <= -digits_val(s, k, j) {
        Some((-digits_val(s, k, j), j))
    } else if k == i && digits_val(s, k, j) <= i64::MAX {
        Some((digits_val(s, k, j), j))
    } else {
        None
    }
}

pub proof fn lemma_parse_int_bounds(s: Seq<u8>, i: int)
    requires
        0 <= i <= s.len(),
    ensures
        match parse_int(s, i) {
            Some((v, n)) => i < n <= s.len() && i64::MIN <= v <= i64::MAX,
            None => true,
        },
{
    let k = int_start(s, i);
    lemma_scan_digits_bounds(s, k);
    lemma_scan_digits_run(s, k);
    if parse_int(s, i) is Some {
        lemma_digits_val_nonneg(s, k, scan_digits(s, k));
    }
}

/// Every byte a digit scan passed over is a digit.
pub proof fn lemma_scan_digits_run(s: Seq<u8>, i: int)
    requires
        0 <= i <= s.len(),
    ensures
        forall|p: int| i <= p < scan_digits(s, i) ==> is_digit(#[trigger] s[p]),
    decreases s.len() - i,
{
    if i < s.len() && is_digit(s[i]) {
        lemma_scan_digits_run(s, i + 1);
        lemma_scan_digits_bounds(s, i + 1);
    }
}

pub proof fn lemma_digits_val_nonneg(s: Seq<u8>, i: int, j: int)
    requires
        forall|p: int| i <= p < j ==> is_digit(#[trigger] s[p]),
    ensures
        digits_val(s, i, j) >= 0,
    decreases j - i,
{
    if i < j {
        lemma_digits_val_nonneg(s, i, j - 1);
    }
}

/// Growing a digit run by one digit multiplies its value by ten and adds
/// the digit.
proof fn lemma_digits_val_step(s: Seq<u8>, i: int, j: int)
    requires
        i <= j,
    ensures
        digits_val(s, i, j + 1) == digits_val(s, i, j) * 10 + (s[j] - 0x30),
{
}

/// Parses a JSON integer, executably.
#[verifier::loop_isolation(false)]
pub fn parse_int_exec(s: &[u8], i: usize) -> (r: Option<(i64, usize)>)
    requires
        i <= s@.len(),
    ensures
        match parse_int(s@, i as int) {
            Some((v, n)) => r matches Some((rv, rn)) && rv == v && rn == n,
            None => r is None,
        },
{
    proof {
        lemma_parse_int_bounds(s@, i as int);
    }
    let n = s.len();
    let neg: bool = i < n && s[i] == 0x2d;
    let k: usize = if neg {
        i + 1
    } else {
        i
    };
    proof {
        assert(k == int_start(s@, i as int));
        lemma_scan_digits_bounds(s@, k as int);
    }
    let limit: u64 = if neg {
        9223372036854775808
    } else {
        9223372036854775807
    };
    let mut j: usize = k;
    let mut mag: u64 = 0;
    let mut over: bool = false;
    while j < n && s[j] >= 0x30 && s[j] <= 0x39
        invariant
            k <= j <= n,
            scan_digits(s@, k as int) == scan_digits(s@, j as int),
            !over ==> mag == digits_val(s@, k as int, j as int) && mag <= limit,
            over ==> digits_val(s@, k as int, j as int) > limit,
        decreases n - j,
    {
        let d: u8 = s[j] - 0x30;
        proof {
            lemma_digits_val_step(s@, k as int, j as int);
        }
        if over {
            proof {
                let v = digits_val(s@, k as int, j as int);
                assert(v * 10 + (d as int) > limit) by (nonlinear_arith)
                    requires
                        v > limit,
                        limit >= 0,
                        d >= 0,
                ;
            }
        } else if mag > limit / 10 || (mag == limit / 10 && (d as u64) > limit % 10) {
            over = true;
            proof {
                let v = digits_val(s@, k as int, j as int);
                assert(v * 10 + (d as int) > limit) by (nonlinear_arith)
                    requires
                        v == mag,
                        mag > limit / 10 || (mag == limit / 10 && (d as int) > limit % 10),
                        limit == 10 * (limit / 10) + limit % 10,
                        0 <= limit % 10 < 10,
                        d >= 0,
                ;
            }
        } else {
            proof {
                assert(mag * 10 + (d as u64) <= limit) by (nonlinear_arith)
                    requires
                        mag <= limit / 10,
                        mag < limit / 10 || (d as int) <= limit % 10,
                        limit == 10 * (limit / 10) + limit % 10,
                        0 <= limit % 10 < 10,
                        0 <= d <= 9,
                ;
            }
            mag = mag * 10 + (d as u64);
        }
        j = j + 1;
    }
    proof {
        assert(scan_digits(s@, j as int) == j);
    }
    if j == k {
        return None;
    }
    if j - k > 1 && s[k] == 0x30 {
        return None;
    }
    if over {
        return None;
    }
    if neg {
        if mag == 9223372036854775808 {
            Some((i64::MIN, j))
        } else {
            Some((-(mag as i64), j))
        }
    } else {
        Some((mag as i64, j))
    }
}

/// The first index at or after `i` where a string body must stop: a quote,
/// a backslash, a control byte, or the end. Escapes are not part of this
/// wire format; color strings never need them.
pub open spec fn scan_str(s: Seq<u8>, i: int) -> int
    decreases s.len() - i,
{
    if 0 <= i < s.len() && s[i] != 0x22 && s[i] != 0x5c && s[i] >= 0x20 {
        scan_str(s, i + 1)
    } else {
        i
    }
}

pub proof fn lemma_scan_str_bounds(s: Seq<u8>, i: int)
    requires
        0 <= i <= s.len(),
    ensures
        i <= scan_str(s, i) <= s.len(),
    decreases s.len() - i,
{
    if i < s.len() && s[i] != 0x22 && s[i] != 0x5c && s[i] >= 0x20 {
        lemma_scan_str_bounds(s, i + 1);
    }
}

/// Parses a JSON string at `i`: a quote, a run of plain bytes (no escapes,
/// no control bytes), and a closing quote. Yields the body and the index
/// just past the closing quote.
pub open spec fn parse_string(s: Seq<u8>, i: int) -> Option<(Seq<u8>, int)> {
    if 0 <= i < s.len() && s[i] == 0x22 {
        if scan_str(s, i + 1) < s.len() && s[scan_str(s, i + 1)] == 0x22 {
            Some((s.subrange(i + 1, scan_str(s, i + 1)), scan_str(s, i + 1) + 1))
        } else {
            None
        }
    } else {
        None
    }
}

pub proof fn lemma_parse_string_bounds(s: Seq<u8>, i: int)
    requires
        0 <= i <= s.len(),
    ensures
        match parse_string(s, i) {
            Some((c, n)) => i < n <= s.len(),
            None => true,
        },
{
    if 0 <= i < s.len() && s[i] == 0x22 {
        lemma_scan_str_bounds(s, i + 1);
    }
}

/// Parses a JSON string, executably; yields the body as fresh bytes.
#[verifier::loop_isolation(false)]
pub fn parse_string_exec(s: &[u8], i: usize) -> (r: Option<(Vec<u8>, usize)>)
    requires
        i <= s@.len(),
    ensures
        match parse_string(s@, i as int) {
            Some((c, n)) => r matches Some((rc, rn)) && rc@ == c && rn == n,
            None => r is None,
        },
{
    let n = s.len();
    if !(i < n && s[i] == 0x22) {
        return None;
    }
    proof {
        lemma_scan_str_bounds(s@, i as int + 1);
    }
    let mut j: usize = i + 1;
    while j < n && s[j] != 0x22 && s[j] != 0x5c && s[j] >= 0x20
        invariant
            i + 1 <= j <= n,
            scan_str(s@, i as int + 1) == scan_str(s@, j as int),
        decreases n - j,
    {
        j = j + 1;
    }
    proof {
        assert(scan_str(s@, j as int) == j);
    }
    if !(j < n && s[j] == 0x22) {
        return None;
    }
    let mut body: Vec<u8> = Vec::new();
    let mut p: usize = i + 1;
    while p < j
        invariant
            i + 1 <= p <= j <= n,
            body@ == s@.subrange(i as int + 1, p as int),
        decreases j - p,
    {
        body.push(s[p]);
        proof {
            assert(body@ =~= s@.subrange(i as int + 1, p as int + 1));
        }
        p = p + 1;
    }
    Some((body, j + 1))
}

} // verus!

verus! {

/// The first index at or after `i` that holds no whitespace, executably.
#[verifier::loop_isolation(false)]
pub fn skip_ws_exec(s: &[u8], i: usize) -> (r: usize)
    requires
        i <= s@.len(),
    ensures
        r == skip_ws(s@, i as int),
        i <= r <= s@.len(),
{
    proof {
        lemma_skip_ws_bounds(s@, i as int);
    }
    let n = s.len();
    let mut j: usize = i;
    while j < n && (s[j] == 0x20 || s[j] == 0x09 || s[j] == 0x0a || s[j] == 0x0d)
        invariant
            i <= j <= n,
            skip_ws(s@, i as int) == skip_ws(s@, j as int),
        decreases n - j,
    {
        j = j + 1;
    }
    proof {
        assert(skip_ws(s@, j as int) == j);
    }
    j
}

/// Parses one pixel record at `i`: `{"x": <int>, "y": <int>, "color":
/// "<string>"}`, fields in exactly this order, whitespace allowed between
/// tokens. Yields the record and the index just past the closing brace.
pub open spec fn parse_record(s: Seq<u8>, i: int) -> Option<(GrainRecordV, int)> {
    if !(0 <= i < s.len() && s[i] == 0x7b) {
        None
    } else {
        let i1 = skip_ws(s, i + 1);
        if !(i1 < s.len() && s[i1] == 0x22 && i1 + 1 < s.len() && s[i1 + 1] == 0x78 && i1 + 2
            < s.len() && s[i1 + 2] == 0x22) {
            None
        } else {
            let i2 = skip_ws(s, i1 + 3);
            if !(i2 < s.len() && s[i2] == 0x3a) {
                None
            } else {
                match parse_int(s, skip_ws(s, i2 + 1)) {
                    None => None,
                    Some((x, i3)) => {
                        let i4 = skip_ws(s, i3);
                        if !(i4 < s.len() && s[i4] == 0x2c) {
                            None
                        } else {
                            let i5 = skip_ws(s, i4 + 1);
                            if !(i5 < s.len() && s[i5] == 0x22 && i5 + 1 < s.len() && s[i5 + 1]
                                == 0x79 && i5 + 2 < s.len() && s[i5 + 2] == 0x22) {
                                None
                            } else {
                                let i6 = skip_ws(s, i5 + 3);
                                if !(i6 < s.len() && s[i6] == 0x3a) {
                                    None
                                } else {
                                    parse_record_tail(s, x, skip_ws(s, i6 + 1))
                                }
                            }
                        }
                    },
                }
            }
        }
    }
}

/// The tail of a pixel record, from the value of `"y"` on.
pub open spec fn parse_record_tail(s: Seq<u8>, x: int, i: int) -> Option<(GrainRecordV, int)> {
    match parse_int(s, i) {
        None => None,
        Some((y, i7)) => {
            let i8 = skip_ws(s, i7);
            if !(i8 < s.len() && s[i8] == 0x2c) {
                None
            } else {
                let i9 = skip_ws(s, i8 + 1);
                if !(i9 < s.len() && s[i9] == 0x22 && i9 + 1 < s.len() && s[i9 + 1] == 0x63 && i9
                    + 2 < s.len() && s[i9 + 2] == 0x6f && i9 + 3 < s.len() && s[i9 + 3] == 0x6c
                    && i9 + 4 < s.len() && s[i9 + 4] == 0x6f && i9 + 5 < s.len() && s[i9 + 5]
                    == 0x72 && i9 + 6 < s.len() && s[i9 + 6] == 0x22) {
                    None
                } else {
                    let i10 = skip_ws(s, i9 + 7);
                    if !(i10 < s.len() && s[i10] == 0x3a) {
                        None
                    } else {
                        match parse_string(s, skip_ws(s, i10 + 1)) {
                            None => None,
                            Some((c, i11)) => {
                                let i12 = skip_ws(s, i11);
                                if !(i12 < s.len() && s[i12] == 0x7d) {
                                    None
                                } else {
                                    Some((GrainRecordV { x: x, y: y, color: c }, i12 + 1))
                                }
                            },
                        }
                    }
                }
            }
        },
    }
}

pub proof fn lemma_parse_record_bounds(s: Seq<u8>, i: int)
    requires
        0 <= i <= s.len(),
    ensures
        match parse_record(s, i) {
            Some((rec, n)) => i < n <= s.len(),
            None => true,
        },
{
    if 0 <= i < s.len() && s[i] == 0x7b {
        lemma_skip_ws_bounds(s, i + 1);
        let i1 = skip_ws(s, i + 1);
        if i1 + 2 < s.len() {
            lemma_skip_ws_bounds(s, i1 + 3);
            let i2 = skip_ws(s, i1 + 3);
            if i2 < s.len() {
                lemma_skip_ws_bounds(s, i2 + 1);
                lemma_parse_int_bounds(s, skip_ws(s, i2 + 1));
                if let Some((x, i3)) = parse_int(s, skip_ws(s, i2 + 1)) {
                    lemma_skip_ws_bounds(s, i3);
                    let i4 = skip_ws(s, i3);
                    if i4 < s.len() {
                        lemma_skip_ws_bounds(s, i4 + 1);
                        let i5 = skip_ws(s, i4 + 1);
                        if i5 + 2 < s.len() {
                            lemma_skip_ws_bounds(s, i5 + 3);
                            let i6 = skip_ws(s, i5 + 3);
                            if i6 < s.len() {
                                lemma_skip_ws_bounds(s, i6 + 1);
                                lemma_parse_record_tail_bounds(s, x, skip_ws(s, i6 + 1));
                            }
                        }
                    }
                }
            }
        }
    }
}

pub proof fn lemma_parse_record_tail_bounds(s: Seq<u8>, x: int, i: int)
    requires
        0 <= i <= s.len(),
    ensures
        match parse_record_tail(s, x, i) {
            Some((rec, n)) => i < n <= s.len(),
            None => true,
        },
{
    lemma_parse_int_bounds(s, i);
    if let Some((y, i7)) = parse_int(s, i) {
        lemma_skip_ws_bounds(s, i7);
        let i8 = skip_ws(s, i7);
        if i8 < s.len() {
            lemma_skip_ws_bounds(s, i8 + 1);
            let i9 = skip_ws(s, i8 + 1);
            if i9 + 6 < s.len() {
                lemma_skip_ws_bounds(s, i9 + 7);
                let i10 = skip_ws(s, i9 + 7);
                if i10 < s.len() {
                    lemma_skip_ws_bounds(s, i10 + 1);
                    lemma_parse_string_bounds(s, skip_ws(s, i10 + 1));
                    if let Some((c, i11)) = parse_string(s, skip_ws(s, i10 + 1)) {
                        lemma_skip_ws_bounds(s, i11);
                    }
                }
            }
        }
    }
}

/// Parses one pixel record, executably.
pub fn parse_record_exec(s: &[u8], i: usize) -> (r: Option<(PixelGrainDto, usize)>)
    requires
        i <= s@.len(),
    ensures
        match parse_record(s@, i as int) {
            Some((rec, n)) => r matches Some((dto, rn)) && dto@ == rec && rn == n,
            None => r is None,
        },
{
    let n = s.len();
    if !(i < n && s[i] == 0x7b) {
        return None;
    }
    let i1 = skip_ws_exec(s, i + 1);
    if !(i1 < n && s[i1] == 0x22 && i1 + 1 < n && s[i1 + 1] == 0x78 && i1 + 2 < n && s[i1 + 2]
        == 0x22) {
        return None;
    }
    let i2 = skip_ws_exec(s, i1 + 3);
    if !(i2 < n && s[i2] == 0x3a) {
        return None;
    }
    let ix = skip_ws_exec(s, i2 + 1);
    let (x, i3) = match parse_int_exec(s, ix) {
        None => {
            return None;
        },
        Some(p) => p,
    };
    proof {
        lemma_parse_int_bounds(s@, ix as int);
    }
    let i4 = skip_ws_exec(s, i3);
    if !(i4 < n && s[i4] == 0x2c) {
        return None;
    }
    let i5 = skip_ws_exec(s, i4 + 1);
    if !(i5 < n && s[i5] == 0x22 && i5 + 1 < n && s[i5 + 1] == 0x79 && i5 + 2 < n && s[i5 + 2]
        == 0x22) {
        return None;
    }
    let i6 = skip_ws_exec(s, i5 + 3);
    if !(i6 < n && s[i6] == 0x3a) {
        return None;
    }
    let iy = skip_ws_exec(s, i6 + 1);
    let (y, i7) = match parse_int_exec(s, iy) {
        None => {
            return None;
        },
        Some(p) => p,
    };
    proof {
        lemma_parse_int_bounds(s@, iy as int);
    }
    let i8 = skip_ws_exec(s, i7);
    if !(i8 < n && s[i8] == 0x2c) {
        return None;
    }
    let i9 = skip_ws_exec(s, i8 + 1);
    if !(i9 < n && s[i9] == 0x22 && i9 + 1 < n && s[i9 + 1] == 0x63 && i9 + 2 < n && s[i9 + 2]
        == 0x6f && i9 + 3 < n && s[i9 + 3] == 0x6c && i9 + 4 < n && s[i9 + 4] == 0x6f && i9 + 5 < n
        && s[i9 + 5] == 0x72 && i9 + 6 < n && s[i9 + 6] == 0x22) {
        return None;
    }
    let i10 = skip_ws_exec(s, i9 + 7);
    if !(i10 < n && s[i10] == 0x3a) {
        return None;
    }
    let ic = skip_ws_exec(s, i10 + 1);
    let (color, i11) = match parse_string_exec(s, ic) {
        None => {
            return None;
        },
        Some(p) => p,
    };
    proof {
        lemma_parse_string_bounds(s@, ic as int);
    }
    let i12 = skip_ws_exec(s, i11);
    if !(i12 < n && s[i12] == 0x7d) {
        return None;
    }
    Some((PixelGrainDto { x, y, color }, i12 + 1))
}

} // verus!

verus! {

/// The rest of a record list, after one record: whitespace, then either a
/// closing bracket or a comma and a further record, and so on. Yields the
/// remaining records and the index just past the bracket.
pub open spec fn parse_rest(s: Seq<u8>, i: int) -> Option<(Seq<GrainRecordV>, int)>
    decreases s.len() - i,
    via parse_rest_decreases
{
    if !(0 <= i <= s.len()) {
        None
    } else if skip_ws(s, i) < s.len() && s[skip_ws(s, i)] == 0x5d {
        Some((Seq::empty(), skip_ws(s, i) + 1))
    } else if skip_ws(s, i) < s.len() && s[skip_ws(s, i)] == 0x2c {
        match parse_record(s, skip_ws(s, skip_ws(s, i) + 1)) {
            None => None,
            Some((rec, n)) => match parse_rest(s, n) {
                None => None,
                Some((rest, m)) => Some((seq![rec] + rest, m)),
            },
        }
    } else {
        None
    }
}

#[via_fn]
proof fn parse_rest_decreases(s: Seq<u8>, i: int) {
    if 0 <= i <= s.len() {
        lemma_skip_ws_bounds(s, i);
        let j = skip_ws(s, i);
        if j < s.len() && s[j] == 0x2c {
            lemma_skip_ws_bounds(s, j + 1);
            lemma_parse_record_bounds(s, skip_ws(s, j + 1));
        }
    }
}

pub proof fn lemma_parse_rest_bounds(s: Seq<u8>, i: int)
    requires
        0 <= i <= s.len(),
    ensures
        match parse_rest(s, i) {
            Some((rest, m)) => i < m <= s.len(),
            None => true,
        },
    decreases s.len() - i,
{
    lemma_skip_ws_bounds(s, i);
    let j = skip_ws(s, i);
    if j < s.len() && s[j] == 0x5d {
    } else if j < s.len() && s[j] == 0x2c {
        lemma_skip_ws_bounds(s, j + 1);
        lemma_parse_record_bounds(s, skip_ws(s, j + 1));
        if let Some((rec, n)) = parse_record(s, skip_ws(s, j + 1)) {
            lemma_parse_rest_bounds(s, n);
        }
    }
}

/// A batch of pixel records: a JSON array of records, possibly empty, with
/// nothing but whitespace after it.
pub open spec fn parse_batch(s: Seq<u8>) -> Option<Seq<GrainRecordV>> {
    if !(skip_ws(s, 0) < s.len() && s[skip_ws(s, 0)] == 0x5b) {
        None
    } else if skip_ws(s, skip_ws(s, 0) + 1) < s.len() && s[skip_ws(s, skip_ws(s, 0) + 1)]
        == 0x5d {
        if skip_ws(s, skip_ws(s, skip_ws(s, 0) + 1) + 1) == s.len() {
            Some(Seq::empty())
        } else {
            None
        }
    } else {
        match parse_record(s, skip_ws(s, skip_ws(s, 0) + 1)) {
            None => None,
            Some((rec, n)) => match parse_rest(s, n) {
                None => None,
                Some((rest, m)) => if skip_ws(s, m) == s.len() {
                    Some(seq![rec] + rest)
                } else {
                    None
                },
            },
        }
    }
}

/// A single echoed pixel record, with nothing but whitespace around it.
pub open spec fn parse_pixel_response(s: Seq<u8>) -> Option<GrainRecordV> {
    match parse_record(s, skip_ws(s, 0)) {
        None => None,
        Some((rec, n)) => if skip_ws(s, n) == s.len() {
            Some(rec)
        } else {
            None
        },
    }
}

/// The views of the records in `v`, as `record_views` gives them.
pub open spec fn views_of(v: Seq<PixelGrainDto>) -> Seq<GrainRecordV> {
    crate::grains::record_views(v)
}

/// Parses the rest of a record list, appending the records to `out`.
fn parse_rest_exec(s: &[u8], i: usize, out: &mut Vec<PixelGrainDto>) -> (r: Option<usize>)
    requires
        i <= s@.len(),
    ensures
        match parse_rest(s@, i as int) {
            Some((rest, m)) => r matches Some(rm) && rm == m && views_of(final(out)@) == views_of(
                old(out)@,
            ) + rest,
            None => r is None,
        },
    decreases s@.len() - i,
{
    let n = s.len();
    let j = skip_ws_exec(s, i);
    if j < n && s[j] == 0x5d {
        proof {
            assert(views_of(out@) =~= views_of(out@) + Seq::<GrainRecordV>::empty());
        }
        return Some(j + 1);
    }
    if !(j < n && s[j] == 0x2c) {
        return None;
    }
    let j2 = skip_ws_exec(s, j + 1);
    let (dto, n2) = match parse_record_exec(s, j2) {
        None => {
            return None;
        },
        Some(p) => p,
    };
    proof {
        lemma_parse_record_bounds(s@, j2 as int);
    }
    let ghost pre: Seq<PixelGrainDto> = out@;
    let ghost rec: GrainRecordV = dto@;
    out.push(dto);
    proof {
        assert(views_of(out@) =~= views_of(pre) + seq![rec]);
    }
    match parse_rest_exec(s, n2, out) {
        None => None,
        Some(m) => {
            proof {
                if let Some((rest, sm)) = parse_rest(s@, n2 as int) {
                    assert(views_of(out@) =~= (views_of(pre) + seq![rec]) + rest);
                    assert((views_of(pre) + seq![rec]) + rest =~= views_of(pre) + (seq![rec]
                        + rest));
                }
            }
            Some(m)
        },
    }
}

/// Parses a batch of pixel records from the body of a region fetch. Yields
/// the records exactly when the body is a well-formed array of them;
/// anything else — a transport error page, truncated or malformed JSON, a
/// record with a missing field — yields nothing.
pub fn parse_batch_exec(s: &[u8]) -> (r: Option<Vec<PixelGrainDto>>)
    ensures
        match parse_batch(s@) {
            Some(rs) => r matches Some(v) && views_of(v@) == rs,
            None => r is None,
        },
{
    let n = s.len();
    let i = skip_ws_exec(s, 0);
    if !(i < n && s[i] == 0x5b) {
        return None;
    }
    let j = skip_ws_exec(s, i + 1);
    if j < n && s[j] == 0x5d {
        let j2 = skip_ws_exec(s, j + 1);
        if j2 == n {
            let empty: Vec<PixelGrainDto> = Vec::new();
            proof {
                assert(views_of(empty@) =~= Seq::<GrainRecordV>::empty());
            }
            return Some(empty);
        } else {
            return None;
        }
    }
    let (dto, n2) = match parse_record_exec(s, j) {
        None => {
            return None;
        },
        Some(p) => p,
    };
    proof {
        lemma_parse_record_bounds(s@, j as int);
    }
    let mut out: Vec<PixelGrainDto> = Vec::new();
    let ghost rec: GrainRecordV = dto@;
    out.push(dto);
    proof {
        assert(views_of(out@) =~= seq![rec]);
    }
    let m = match parse_rest_exec(s, n2, &mut out) {
        None => {
            return None;
        },
        Some(m) => m,
    };
    proof {
        lemma_parse_rest_bounds(s@, n2 as int);
    }
    let e = skip_ws_exec(s, m);
    if e != n {
        return None;
    }
    proof {
        if let Some((rest, sm)) = parse_rest(s@, n2 as int) {
            assert(views_of(out@) =~= seq![rec] + rest);
        }
    }
    Some(out)
}

/// Parses the single echoed pixel record of a pixel-edit response.
pub fn parse_pixel_response_exec(s: &[u8]) -> (r: Option<PixelGrainDto>)
    ensures
        match parse_pixel_response(s@) {
            Some(rec) => r matches Some(dto) && dto@ == rec,
            None => r is None,
        },
{
    let n = s.len();
    let i = skip_ws_exec(s, 0);
    let (dto, n2) = match parse_record_exec(s, i) {
        None => {
            return None;
        },
        Some(p) => p,
    };
    proof {
        lemma_parse_record_bounds(s@, i as int);
    }
    let e = skip_ws_exec(s, n2);
    if e != n {
        return None;
    }
    Some(dto)
}

} // verus!

verus! {

/// The bytes of `{"x":`.
pub open spec fn tok_obj_x() -> Seq<u8> {
    seq![0x7bu8, 0x22, 0x78, 0x22, 0x3a]
}

/// The bytes of `,"y":`.
pub open spec fn tok_key_y() -> Seq<u8> {
    seq![0x2cu8, 0x22, 0x79, 0x22, 0x3a]
}

/// The bytes of `,"color":"`.
pub open spec fn tok_key_color() -> Seq<u8> {
    seq![0x2cu8, 0x22, 0x63, 0x6f, 0x6c, 0x6f, 0x72, 0x22, 0x3a, 0x22]
}

/// The bytes of `"}`.
pub open spec fn tok_close() -> Seq<u8> {
    seq![0x22u8, 0x7d]
}

/// The exact JSON body of a pixel edit:
/// `{"x":<x>,"y":<y>,"color":"#rrggbb"}`, the color in lowercase hex.
pub open spec fn pixel_edit_body_spec(x: int, y: int, r: u8, g: u8, b: u8) -> Seq<u8> {
    tok_obj_x() + dec_int(x) + tok_key_y() + dec_int(y) + tok_key_color() + color_hex(r, g, b)
        + tok_close()
}

/// Frames the JSON body of a pixel edit, byte for byte.
pub fn pixel_edit_body(x: i64, y: i64, color: &[u8; 3]) -> (out: Vec<u8>)
    ensures
        out@ == pixel_edit_body_spec(x as int, y as int, color@[0], color@[1], color@[2]),
{
    let mut out: Vec<u8> = Vec::new();
    out.push(0x7b);
    out.push(0x22);
    out.push(0x78);
    out.push(0x22);
    out.push(0x3a);
    proof {
        assert(out@ =~= tok_obj_x());
    }
    push_i64_dec(&mut out, x);
    let ghost s1: Seq<u8> = out@;
    out.push(0x2c);
    out.push(0x22);
    out.push(0x79);
    out.push(0x22);
    out.push(0x3a);
    proof {
        assert(out@ =~= s1 + tok_key_y());
    }
    push_i64_dec(&mut out, y);
    let ghost s2: Seq<u8> = out@;
    out.push(0x2c);
    out.push(0x22);
    out.push(0x63);
    out.push(0x6f);
    out.push(0x6c);
    out.push(0x6f);
    out.push(0x72);
    out.push(0x22);
    out.push(0x3a);
    out.push(0x22);
    proof {
        assert(out@ =~= s2 + tok_key_color());
    }
    let hex = color_to_hex(color);
    push_bytes(&mut out, hex.as_slice());
    let ghost s3: Seq<u8> = out@;
    out.push(0x22);
    out.push(0x7d);
    proof {
        assert(out@ =~= s3 + tok_close());
        assert(out@ =~= pixel_edit_body_spec(
            x as int,
            y as int,
            color@[0],
            color@[1],
            color@[2],
        ));
    }
    out
}

/// The bytes of `/api/canvas?topLeftX=`.
pub open spec fn tok_query_head() -> Seq<u8> {
    seq![0x2fu8, 0x61, 0x70, 0x69, 0x2f, 0x63, 0x61, 0x6e, 0x76, 0x61, 0x73, 0x3f, 0x74, 0x6f, 0x70, 0x4c, 0x65, 0x66, 0x74, 0x58, 0x3d]
}

/// The bytes of `&topLeftY=`.
pub open spec fn tok_query_tly() -> Seq<u8> {
    seq![0x26u8, 0x74, 0x6f, 0x70, 0x4c, 0x65, 0x66, 0x74, 0x59, 0x3d]
}

/// The bytes of `&bottomRightX=`.
pub open spec fn tok_query_brx() -> Seq<u8> {
    seq![0x26u8, 0x62, 0x6f, 0x74, 0x74, 0x6f, 0x6d, 0x52, 0x69, 0x67, 0x68, 0x74, 0x58, 0x3d]
}

/// The bytes of `&bottomRightY=`.
pub open spec fn tok_query_bry() -> Seq<u8> {
    seq![0x26u8, 0x62, 0x6f, 0x74, 0x74, 0x6f, 0x6d, 0x52, 0x69, 0x67, 0x68, 0x74, 0x59, 0x3d]
}

/// The exact path-and-query of a region fetch:
/// `/api/canvas?topLeftX=<tlx>&topLeftY=<tly>&bottomRightX=<brx>&bottomRightY=<bry>`.
pub open spec fn region_query_spec(tlx: int, tly: int, brx: int, bry: int) -> Seq<u8> {
    tok_query_head() + dec_int(tlx) + tok_query_tly() + dec_int(tly) + tok_query_brx() + dec_int(
        brx,
    ) + tok_query_bry() + dec_int(bry)
}

/// Frames the path-and-query of a region fetch, byte for byte; the caller
/// puts the service's base URL in front.
pub fn region_query(region: &PixelRectangle) -> (out: Vec<u8>)
    ensures
        out@ == region_query_spec(
            region.top_left.x as int,
            region.top_left.y as int,
            region.bottom_right.x as int,
            region.bottom_right.y as int,
        ),
{
    let mut out: Vec<u8> = Vec::new();
    out.push(0x2f);
    out.push(0x61);
    out.push(0x70);
    out.push(0x69);
    out.push(0x2f);
    out.push(0x63);
    out.push(0x61);
    out.push(0x6e);
    out.push(0x76);
    out.push(0x61);
    out.push(0x73);
    out.push(0x3f);
    out.push(0x74);
    out.push(0x6f);
    out.push(0x70);
    out.push(0x4c);
    out.push(0x65);
    out.push(0x66);
    out.push(0x74);
    out.push(0x58);
    out.push(0x3d);
    proof {
        assert(out@ =~= tok_query_head());
    }
    push_i64_dec(&mut out, region.top_left.x);
    let ghost s1: Seq<u8> = out@;
    out.push(0x26);
    out.push(0x74);
    out.push(0x6f);
    out.push(0x70);
    out.push(0x4c);
    out.push(0x65);
    out.push(0x66);
    out.push(0x74);
    out.push(0x59);
    out.push(0x3d);
    proof {
        assert(out@ =~= s1 + tok_query_tly());
    }
    push_i64_dec(&mut out, region.top_left.y);
    let ghost s2: Seq<u8> = out@;
    out.push(0x26);
    out.push(0x62);
    out.push(0x6f);
    out.push(0x74);
    out.push(0x74);
    out.push(0x6f);
    out.push(0x6d);
    out.push(0x52);
    out.push(0x69);
    out.push(0x67);
    out.push(0x68);
    out.push(0x74);
    out.push(0x58);
    out.push(0x3d);
    proof {
        assert(out@ =~= s2 + tok_query_brx());
    }
    push_i64_dec(&mut out, region.bottom_right.x);
    let ghost s3: Seq<u8> = out@;
    out.push(0x26);
    out.push(0x62);
    out.push(0x6f);
    out.push(0x74);
    out.push(0x74);
    out.push(0x6f);
    out.push(0x6d);
    out.push(0x52);
    out.push(0x69);
    out.push(0x67);
    out.push(0x68);
    out.push(0x74);
    out.push(0x59);
    out.push(0x3d);
    proof {
        assert(out@ =~= s3 + tok_query_bry());
    }
    push_i64_dec(&mut out, region.bottom_right.y);
    out
}

} // verus!

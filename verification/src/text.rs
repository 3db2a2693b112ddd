//! Byte-level text building: decimal rendering of integers and lowercase
//! hex rendering of colors, used to frame the outbound requests exactly.

use vstd::prelude::*;

verus! {

/// The sequence reversed, back to front.
pub open spec fn rev_bytes(s: Seq<u8>) -> Seq<u8>
    decreases s.len(),
{
    if s.len() == 0 {
        Seq::empty()
    } else {
        seq![s.last()] + rev_bytes(s.drop_last())
    }
}

/// The decimal digits of `n`, most significant first; empty for zero.
pub open spec fn dec_digits(n: nat) -> Seq<u8>
    decreases n,
{
    if n == 0 {
        Seq::empty()
    } else {
        dec_digits(n / 10).push((0x30 + n % 10) as u8)
    }
}

/// The canonical decimal rendering of `n` in ASCII: `0` for zero, no
/// leading zeros, a leading `-` for negatives.
pub open spec fn dec_int(n: int) -> Seq<u8> {
    if n == 0 {
        seq![0x30u8]
    } else if n > 0 {
        dec_digits(n as nat)
    } else {
        seq![0x2du8] + dec_digits((-n) as nat)
    }
}

/// The lowercase ASCII hex digit for `d` (0 to 15).
pub open spec fn hex_digit(d: int) -> u8 {
    if d < 10 {
        (0x30 + d) as u8
    } else {
        (0x57 + d) as u8
    }
}

/// Two lowercase hex digits for one byte.
pub open spec fn hex_byte(b: u8) -> Seq<u8> {
    seq![hex_digit(b as int / 16), hex_digit(b as int % 16)]
}

/// The `#rrggbb` rendering of an RGB color, lowercase.
pub open spec fn color_hex(r: u8, g: u8, b: u8) -> Seq<u8> {
    seq![0x23u8] + hex_byte(r) + hex_byte(g) + hex_byte(b)
}

/// Appends all of `s` to `out`.
pub fn push_bytes(out: &mut Vec<u8>, s: &[u8])
    ensures
        final(out)@ == old(out)@ + s@,
{
    let n = s.len();
    let mut j: usize = 0;
    while j < n
        invariant
            n == s@.len(),
            0 <= j <= n,
            out@ == old(out)@ + s@.take(j as int),
        decreases n - j,
    {
        out.push(s[j]);
        proof {
            assert(out@ =~= old(out)@ + s@.take(j + 1));
        }
        j = j + 1;
    }
    proof {
        assert(s@.take(n as int) =~= s@);
    }
}

/// Appends the canonical decimal rendering of `n` to `out`.
pub fn push_i64_dec(out: &mut Vec<u8>, n: i64)
    ensures
        final(out)@ == old(out)@ + dec_int(n as int),
{
    if n == 0 {
        out.push(0x30);
        proof {
            assert(out@ =~= old(out)@ + dec_int(0));
        }
        return ;
    }
    if n < 0 {
        out.push(0x2d);
    }
    let mut m: u64 = if n < 0 {
        ((-(n + 1)) as u64) + 1
    } else {
        n as u64
    };
    let ghost m0: nat = m as nat;
    let ghost base: Seq<u8> = out@;
    let mut buf: Vec<u8> = Vec::new();
    while m > 0
        invariant
            dec_digits(m0) =~= dec_digits(m as nat) + rev_bytes(buf@),
        decreases m,
    {
        let d: u8 = 0x30 + (m % 10) as u8;
        let ghost old_buf: Seq<u8> = buf@;
        buf.push(d);
        proof {
            assert(buf@.drop_last() =~= old_buf);
            assert(rev_bytes(buf@) == seq![d] + rev_bytes(old_buf));
            assert(dec_digits(m as nat) == dec_digits((m as nat) / 10).push(d));
            assert(dec_digits((m as nat) / 10) + rev_bytes(buf@) =~= dec_digits(m as nat)
                + rev_bytes(old_buf));
        }
        m = m / 10;
    }
    while buf.len() > 0
        invariant
            base + dec_digits(m0) =~= out@ + rev_bytes(buf@),
        decreases buf.len(),
    {
        let ghost pre: Seq<u8> = buf@;
        let d = match buf.pop() {
            Some(d) => d,
            None => {
                proof {
                    assert(false);
                }
                0
            },
        };
        out.push(d);
        proof {
            assert(rev_bytes(pre) == seq![d] + rev_bytes(buf@));
            assert(out@ + rev_bytes(buf@) =~= out@.drop_last() + rev_bytes(pre));
        }
    }
    proof {
        assert(rev_bytes(buf@) =~= Seq::<u8>::empty());
        assert(out@ =~= base + dec_digits(m0));
        assert(out@ =~= old(out)@ + dec_int(n as int));
    }
}

/// The lowercase hex digit of `d`, which must be below 16.
pub fn hex_digit_exec(d: u8) -> (c: u8)
    requires
        d < 16,
    ensures
        c == hex_digit(d as int),
{
    if d < 10 {
        0x30 + d
    } else {
        0x57 + d
    }
}

/// Appends the two lowercase hex digits of one byte to `out`.
pub fn push_hex_byte(out: &mut Vec<u8>, b: u8)
    ensures
        final(out)@ == old(out)@ + hex_byte(b),
{
    let hi = hex_digit_exec(b / 16);
    let lo = hex_digit_exec(b % 16);
    out.push(hi);
    out.push(lo);
    proof {
        assert(out@ =~= old(out)@ + hex_byte(b));
    }
}

/// Renders an RGB color as its `#rrggbb` hex form, lowercase ASCII.
pub fn color_to_hex(color: &[u8; 3]) -> (r: Vec<u8>)
    ensures
        r@ == color_hex(color@[0], color@[1], color@[2]),
{
    let mut out: Vec<u8> = Vec::new();
    out.push(0x23);
    push_hex_byte(&mut out, color[0]);
    push_hex_byte(&mut out, color[1]);
    push_hex_byte(&mut out, color[2]);
    proof {
        assert(out@ =~= color_hex(color@[0], color@[1], color@[2]));
    }
    out
}

} // verus!

//! Decimal text of integers: rendering an `i32` to its digit bytes and
//! parsing digit bytes back, exactly as the timestamps stand in an
//! alignment file.

use vstd::prelude::*;
use vstd::arithmetic::div_mod::lemma_div_decreases;
use vstd::arithmetic::div_mod::lemma_fundamental_div_mod;
use vstd::arithmetic::div_mod::lemma_mod_bound;

verus! {

/// ASCII '0'.
pub const B_ZERO: u8 = 48;

/// ASCII '9'.
pub const B_NINE: u8 = 57;

/// ASCII '+'.
pub const B_PLUS: u8 = 43;

/// ASCII '-'.
pub const B_MINUS: u8 = 45;

/// A decimal digit byte.
pub open spec fn is_digit(b: u8) -> bool {
    B_ZERO <= b <= B_NINE
}

pub open spec fn all_digits(s: Seq<u8>) -> bool {
    forall|i: int| 0 <= i < s.len() ==> is_digit(#[trigger] s[i])
}

/// The value of a run of decimal digit bytes, most significant first.
pub open spec fn digits_value(s: Seq<u8>) -> int
    decreases s.len(),
{
    if s.len() == 0 {
        0
    } else {
        digits_value(s.drop_last()) * 10 + (s.last() - B_ZERO)
    }
}

/// The canonical decimal digit bytes of `n`: most significant first, no
/// leading zero.
pub open spec fn dec_digits(n: nat) -> Seq<u8>
    decreases n,
{
    if n < 10 {
        seq![(n + B_ZERO) as u8]
    } else {
        dec_digits(n / 10).push((n % 10 + B_ZERO) as u8)
    }
}

/// The decimal text of a (possibly negative) integer: a minus sign for a
/// negative value, then the canonical digits of its magnitude.
pub open spec fn int_dec(v: int) -> Seq<u8> {
    if v < 0 {
        seq![B_MINUS] + dec_digits((-v) as nat)
    } else {
        dec_digits(v as nat)
    }
}

/// The digit part of an integer literal: everything after a leading sign.
pub open spec fn int_body(s: Seq<u8>) -> Seq<u8> {
    if s.len() > 0 && (s[0] == B_PLUS || s[0] == B_MINUS) {
        s.drop_first()
    } else {
        s
    }
}

pub open spec fn int_negative(s: Seq<u8>) -> bool {
    s.len() > 0 && s[0] == B_MINUS
}

/// An integer literal: an optional sign followed by at least one digit.
pub open spec fn is_int_literal(s: Seq<u8>) -> bool {
    int_body(s).len() > 0 && all_digits(int_body(s))
}

pub open spec fn int_literal_value(s: Seq<u8>) -> int {
    if int_negative(s) {
        -digits_value(int_body(s))
    } else {
        digits_value(int_body(s))
    }
}

/// An integer literal whose value fits in `i32`.
pub open spec fn is_i32_literal(s: Seq<u8>) -> bool {
    is_int_literal(s) && i32::MIN <= int_literal_value(s) <= i32::MAX
}

proof fn lemma_digits_value_nonneg(s: Seq<u8>)
    requires
        all_digits(s),
    ensures
        digits_value(s) >= 0,
    decreases s.len(),
{
    if s.len() > 0 {
        assert(all_digits(s.drop_last()));
        lemma_digits_value_nonneg(s.drop_last());
    }
}

/// A prefix of a digit run is worth no more than the whole run.
proof fn lemma_digits_prefix_le(s: Seq<u8>, k: int)
    requires
        all_digits(s),
        0 <= k <= s.len(),
    ensures
        digits_value(s.take(k)) <= digits_value(s),
    decreases s.len(),
{
    if k == s.len() {
        assert(s.take(k) =~= s);
    } else {
        assert(all_digits(s.drop_last()));
        assert(s.take(k) =~= s.drop_last().take(k));
        lemma_digits_prefix_le(s.drop_last(), k);
        lemma_digits_value_nonneg(s.drop_last());
    }
}

/// The canonical digits of `n` are decimal digits and are worth `n`:
/// rendering and digit valuation are inverse.
pub proof fn lemma_dec_digits_value(n: nat)
    ensures
        dec_digits(n).len() >= 1,
        all_digits(dec_digits(n)),
        digits_value(dec_digits(n)) == n,
    decreases n,
{
    if n < 10 {
        let s = dec_digits(n);
        assert(s.drop_last() =~= Seq::<u8>::empty());
        assert(digits_value(Seq::<u8>::empty()) == 0);
        assert(digits_value(s) == digits_value(s.drop_last()) * 10 + (s.last() - B_ZERO));
    } else {
        lemma_div_decreases(n as int, 10);
        lemma_dec_digits_value(n / 10);
        lemma_mod_bound(n as int, 10);
        let s = dec_digits(n);
        let t = dec_digits(n / 10);
        assert(s == t.push((n % 10 + B_ZERO) as u8));
        assert(s.drop_last() =~= t);
        assert(s.last() == (n % 10 + B_ZERO) as u8);
        assert(digits_value(s) == digits_value(t) * 10 + (s.last() - B_ZERO));
        lemma_fundamental_div_mod(n as int, 10);
        assert(10 * ((n as int) / 10) == ((n as int) / 10) * 10);
        assert forall|i: int| 0 <= i < s.len() implies is_digit(#[trigger] s[i]) by {
            if i < s.len() - 1 {
                assert(s[i] == t[i]);
            }
        }
    }
}

/// Rendering an `i32` and parsing it back is the identity: `int_dec(v)` is
/// an `i32` literal worth exactly `v`.
pub proof fn lemma_int_dec_round_trip(v: int)
    requires
        i32::MIN <= v <= i32::MAX,
    ensures
        is_i32_literal(int_dec(v)),
        int_literal_value(int_dec(v)) == v,
{
    let s = int_dec(v);
    if v < 0 {
        lemma_dec_digits_value((-v) as nat);
        assert(s[0] == B_MINUS);
        assert(int_body(s) =~= dec_digits((-v) as nat));
        assert(int_negative(s));
    } else {
        lemma_dec_digits_value(v as nat);
        assert(s[0] == dec_digits(v as nat)[0]);
        assert(is_digit(s[0]));
        assert(int_body(s) == s);
        assert(!int_negative(s));
    }
}

/// Appends the canonical decimal digits of `x` to `out`.
fn push_dec_u32(x: u32, out: &mut Vec<u8>)
    ensures
        final(out)@ == old(out)@ + dec_digits(x as nat),
    decreases x,
{
    if x >= 10 {
        proof {
            lemma_div_decreases(x as int, 10);
        }
        push_dec_u32(x / 10, out);
        let d: u8 = (x % 10) as u8 + B_ZERO;
        out.push(d);
        proof {
            assert(dec_digits(x as nat) == dec_digits((x as nat) / 10).push(
                ((x as nat) % 10 + B_ZERO) as u8,
            ));
            assert(final(out)@ =~= old(out)@ + dec_digits(x as nat));
        }
    } else {
        let d: u8 = x as u8 + B_ZERO;
        out.push(d);
        proof {
            assert(final(out)@ =~= old(out)@ + dec_digits(x as nat));
        }
    }
}

/// The decimal text of `v`, as `i32::to_string` renders it.
pub fn i32_to_dec(v: i32) -> (r: Vec<u8>)
    ensures
        r@ == int_dec(v as int),
{
    let mut out: Vec<u8> = Vec::new();
    if v < 0 {
        out.push(B_MINUS);
        let mag: u32 = (-(v as i64)) as u32;
        push_dec_u32(mag, &mut out);
        proof {
            assert(out@ =~= seq![B_MINUS] + dec_digits((-(v as int)) as nat));
        }
    } else {
        push_dec_u32(v as u32, &mut out);
        proof {
            assert(out@ =~= dec_digits(v as nat));
        }
    }
    out
}

/// Parses decimal text as `i32`: an optional sign, then digits, with the
/// value in range; anything else is `None`, as `str::parse::<i32>` rejects it.
pub fn parse_i32(s: &[u8]) -> (r: Option<i32>)
    ensures
        r is Some <==> is_i32_literal(s@),
        r matches Some(v) ==> v as int == int_literal_value(s@),
{
    let n = s.len();
    let mut start: usize = 0;
    let mut neg: bool = false;
    if n > 0 && s[0] == B_PLUS {
        start = 1;
    } else if n > 0 && s[0] == B_MINUS {
        start = 1;
        neg = true;
    }
    proof {
        assert(int_body(s@) =~= s@.subrange(start as int, n as int));
        assert(neg == int_negative(s@));
    }
    if n == start {
        return None;
    }
    let mut acc: u64 = 0;
    let mut i = start;
    while i < n
        invariant
            start <= i <= n == s@.len(),
            int_body(s@) =~= s@.subrange(start as int, n as int),
            neg == int_negative(s@),
            all_digits(s@.subrange(start as int, i as int)),
            acc == digits_value(s@.subrange(start as int, i as int)),
            acc <= 0x8000_0000,
        decreases n - i,
    {
        let b = s[i];
        if b < B_ZERO || b > B_NINE {
            proof {
                assert(int_body(s@)[i - start] == b);
                assert(!all_digits(int_body(s@)));
            }
            return None;
        }
        proof {
            let pre = s@.subrange(start as int, i as int);
            let ext = s@.subrange(start as int, i + 1);
            assert(ext =~= pre.push(b));
            assert(ext.drop_last() =~= pre);
            assert(digits_value(ext) == acc * 10 + (b - B_ZERO));
        }
        acc = acc * 10 + ((b - B_ZERO) as u64);
        if acc > 0x8000_0000 {
            proof {
                let body = int_body(s@);
                let k = i + 1 - start;
                assert(body.take(k) =~= s@.subrange(start as int, i + 1));
                if all_digits(body) {
                    lemma_digits_prefix_le(body, k);
                    assert(digits_value(body) > 0x8000_0000);
                }
            }
            return None;
        }
        i += 1;
    }
    proof {
        assert(s@.subrange(start as int, n as int) =~= int_body(s@));
        assert(acc == digits_value(int_body(s@)));
    }
    if neg {
        Some((-(acc as i64)) as i32)
    } else {
        if acc > 0x7fff_ffff {
            return None;
        }
        Some(acc as i32)
    }
}

} // verus!

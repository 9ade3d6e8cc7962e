use vstd::prelude::*;
use vstd::string::StringSliceAdditionalSpecFns;
use crate::account::in_i64;
use vstd::arithmetic::div_mod::{lemma_div_denominator, lemma_fundamental_div_mod};

verus! {

/// A money value in ten-thousandths of a unit.
#[derive(Debug, Clone, Copy, PartialEq, Eq, Structural)]
pub struct Amount {
    pub value: i64,
}

pub open spec fn is_digit(b: u8) -> bool {
    48 <= b <= 57
}

pub open spec fn digit_val(b: u8) -> int {
    b - 48
}

pub open spec fn all_digits(s: Seq<u8>) -> bool {
    forall|i: int| 0 <= i < s.len() ==> is_digit(#[trigger] s[i])
}

/// The number that the decimal digits `s` spell, most significant first.
pub open spec fn digits_val(s: Seq<u8>) -> int
    decreases s.len(),
{
    if s.len() == 0 {
        0
    } else {
        digits_val(s.drop_last()) * 10 + digit_val(s.last())
    }
}

/// The index of the first `.` in `s`, or its length where it has none.
pub open spec fn dot_pos(s: Seq<u8>) -> int
    decreases s.len(),
{
    if s.len() == 0 {
        0
    } else if s[0] == 46 {
        0
    } else {
        1 + dot_pos(s.drop_first())
    }
}

pub open spec fn has_sign(s: Seq<u8>) -> bool {
    s.len() > 0 && (s[0] == 45 || s[0] == 43)
}

pub open spec fn is_negative(s: Seq<u8>) -> bool {
    s.len() > 0 && s[0] == 45
}

/// The numeral `s` without its leading sign.
pub open spec fn unsigned_part(s: Seq<u8>) -> Seq<u8> {
    if has_sign(s) { s.drop_first() } else { s }
}

/// The digits before the point.
pub open spec fn int_part(s: Seq<u8>) -> Seq<u8> {
    let u = unsigned_part(s);
    u.take(dot_pos(u))
}

/// The digits after the point.
pub open spec fn frac_part(s: Seq<u8>) -> Seq<u8> {
    let u = unsigned_part(s);
    if dot_pos(u) < u.len() { u.skip(dot_pos(u) + 1) } else { Seq::empty() }
}

/// `s` is an optional sign, digits, and optionally a point and more digits,
/// with at least one digit.
pub open spec fn is_numeral(s: Seq<u8>) -> bool {
    &&& all_digits(int_part(s))
    &&& all_digits(frac_part(s))
    &&& int_part(s).len() + frac_part(s).len() > 0
}

/// The `i`-th digit after the point, zero past the end.
pub open spec fn frac_digit(f: Seq<u8>, i: int) -> int {
    if i < f.len() { digit_val(f[i]) } else { 0 }
}

/// The numeral's magnitude in ten-thousandths, rounded half away from zero.
pub open spec fn scaled_magnitude(s: Seq<u8>) -> int {
    let f = frac_part(s);
    digits_val(int_part(s)) * 10000 + frac_digit(f, 0) * 1000 + frac_digit(f, 1) * 100
        + frac_digit(f, 2) * 10 + frac_digit(f, 3) + if frac_digit(f, 4) >= 5 { 1int } else { 0 }
}

/// The numeral's value in ten-thousandths, rounded half away from zero.
pub open spec fn scaled(s: Seq<u8>) -> int {
    if is_negative(s) { -scaled_magnitude(s) } else { scaled_magnitude(s) }
}

/// The amount that the text `s` denotes: zero where `s` is no numeral or its
/// value does not fit.
pub open spec fn decimal_amount(s: Seq<u8>) -> int {
    if is_numeral(s) && in_i64(scaled(s)) { scaled(s) } else { 0 }
}

/// The decimal digits of `n`, most significant first, without leading zeros.
pub open spec fn nat_digits(n: nat) -> Seq<u8>
    decreases n,
{
    if n < 10 {
        seq![(48 + n) as u8]
    } else {
        nat_digits(n / 10).push((48 + n % 10) as u8)
    }
}

pub open spec fn abs(v: int) -> nat {
    if v < 0 { (-v) as nat } else { v as nat }
}

/// The four digits of `r` below ten thousand.
pub open spec fn four_digits(r: nat) -> Seq<u8> {
    seq![
        (48 + r / 1000 % 10) as u8,
        (48 + r / 100 % 10) as u8,
        (48 + r / 10 % 10) as u8,
        (48 + r % 10) as u8,
    ]
}

/// `v` ten-thousandths written as a decimal with four digits after the point.
pub open spec fn decimal_text(v: int) -> Seq<u8> {
    let m = abs(v);
    let sign: Seq<u8> = if v < 0 { seq![45u8] } else { Seq::empty() };
    sign + nat_digits(m / 10000) + seq![46u8] + four_digits(m % 10000)
}

/// The least number of whole units past which no amount fits.
pub const WHOLE_CAP: u64 = 1_000_000_000_000_000;

impl Amount {
    /// The zero amount.
    pub fn new() -> (r: Amount)
        ensures
            r.value == 0,
    {
        Amount { value: 0 }
    }

    /// This amount as a decimal with four digits after the point.
    pub fn to_decimal_bytes(&self) -> (r: Vec<u8>)
        ensures
            r@ == decimal_text(self.value as int),
    {
        let neg = self.value < 0;
        let m: u64 = if neg { (0 - (self.value as i128)) as u64 } else { self.value as u64 };
        let q = m / 10000;
        let rem = m % 10000;
        let mut out = nat_digit_bytes(q);
        let ghost digits = out@;
        if neg {
            out.insert(0, 45);
        }
        out.push(46);
        let ghost head = out@;
        out.push((48 + rem / 1000 % 10) as u8);
        out.push((48 + rem / 100 % 10) as u8);
        out.push((48 + rem / 10 % 10) as u8);
        out.push((48 + rem % 10) as u8);
        proof {
            let sign: Seq<u8> = if neg { seq![45u8] } else { Seq::empty() };
            assert(head == sign + digits + seq![46u8]);
            assert(out@ == head + four_digits(rem as nat));
            assert(abs(self.value as int) == m);
        }
        out
    }

    /// This amount as a decimal string with four digits after the point.
    pub fn to_decimal_string(&self) -> (r: String)
        ensures
            r@ == decimal_text(self.value as int).map_values(|b: u8| b as char),
    {
        let b = self.to_decimal_bytes();
        proof {
            lemma_decimal_text_ascii(self.value as int);
        }
        ascii_string(b)
    }

    /// Reads a decimal numeral, rounding to the nearest ten-thousandth and
    /// half away from zero. Text that is no numeral, or whose value does not
    /// fit, gives zero.
    pub fn from_decimal_str(s: &str) -> (r: Amount)
        ensures
            r.value == decimal_amount(s.spec_bytes()),
    {
        let b = s.as_bytes();
        let ghost sb = b@;
        let n = b.len();
        let start: usize = if n > 0 && (b[0] == 45 || b[0] == 43) { 1 } else { 0 };
        assert(unsigned_part(sb) == sb.skip(start as int));
        let p = find_dot(b, start);
        assert(int_part(sb) == sb.subrange(start as int, p as int));
        let f_start: usize = if p < n { p + 1 } else { n };
        assert(frac_part(sb) == sb.subrange(f_start as int, n as int));
        let whole = whole_units(b, start, p);
        let frac_ok = all_digit_bytes(b, f_start, n);
        if whole.is_none() || !frac_ok || (p - start) + (n - f_start) == 0 {
            return Amount { value: 0 };
        }
        let acc = whole.unwrap();
        let d0 = frac_digit_at(b, f_start, 0);
        let d1 = frac_digit_at(b, f_start, 1);
        let d2 = frac_digit_at(b, f_start, 2);
        let d3 = frac_digit_at(b, f_start, 3);
        let d4 = frac_digit_at(b, f_start, 4);
        let up: u64 = if d4 >= 5 { 1 } else { 0 };
        let mag: u128 = acc as u128 * 10000 + (d0 * 1000 + d1 * 100 + d2 * 10 + d3 + up) as u128;
        proof {
            lemma_digits_val_nonneg(int_part(sb));
        }
        if n > 0 && b[0] == 45 {
            if mag <= 0x8000_0000_0000_0000 {
                Amount { value: (0 - (mag as i128)) as i64 }
            } else {
                Amount { value: 0 }
            }
        } else {
            if mag <= 0x7fff_ffff_ffff_ffff {
                Amount { value: mag as i64 }
            } else {
                Amount { value: 0 }
            }
        }
    }
}

/// The index of the first `.` in `b` at or after `start`, or `b`'s length.
fn find_dot(b: &[u8], start: usize) -> (p: usize)
    requires
        start <= b@.len(),
    ensures
        start <= p <= b@.len(),
        p == start + dot_pos(b@.skip(start as int)),
{
    let ghost u = b@.skip(start as int);
    let mut p: usize = start;
    while p < b.len() && b[p] != 46
        invariant
            start <= p <= b@.len(),
            u == b@.skip(start as int),
            dot_pos(u) == (p - start) + dot_pos(b@.skip(p as int)),
        decreases b@.len() - p,
    {
        assert(b@.skip(p as int).drop_first() == b@.skip(p + 1));
        p = p + 1;
    }
    p
}

/// Whether `b[lo..hi]` holds digits only.
fn all_digit_bytes(b: &[u8], lo: usize, hi: usize) -> (r: bool)
    requires
        lo <= hi <= b@.len(),
    ensures
        r == all_digits(b@.subrange(lo as int, hi as int)),
{
    let mut k: usize = lo;
    while k < hi
        invariant
            lo <= k <= hi <= b@.len(),
            all_digits(b@.subrange(lo as int, k as int)),
        decreases hi - k,
    {
        if !(48 <= b[k] && b[k] <= 57) {
            assert(!is_digit(b@.subrange(lo as int, hi as int)[k - lo]));
            return false;
        }
        assert(all_digits(b@.subrange(lo as int, k + 1))) by {
            assert forall|i: int| 0 <= i < k + 1 - lo implies is_digit(
                #[trigger] b@.subrange(lo as int, k + 1)[i],
            ) by {
                if i < k - lo {
                    assert(b@.subrange(lo as int, k as int)[i] == b@[lo + i]);
                }
            }
        }
        k = k + 1;
    }
    true
}

/// The number that the digits `b[lo..hi]` spell, capped at `WHOLE_CAP`, or
/// `None` where another byte stands among them.
fn whole_units(b: &[u8], lo: usize, hi: usize) -> (r: Option<u64>)
    requires
        lo <= hi <= b@.len(),
    ensures
        r == if all_digits(b@.subrange(lo as int, hi as int)) {
            Some(
                if digits_val(b@.subrange(lo as int, hi as int)) < WHOLE_CAP {
                    digits_val(b@.subrange(lo as int, hi as int)) as u64
                } else {
                    WHOLE_CAP
                },
            )
        } else {
            None::<u64>
        },
{
    if !all_digit_bytes(b, lo, hi) {
        return None;
    }
    let mut acc: u64 = 0;
    let mut j: usize = lo;
    while j < hi
        invariant
            lo <= j <= hi <= b@.len(),
            all_digits(b@.subrange(lo as int, hi as int)),
            acc == if digits_val(b@.subrange(lo as int, j as int)) < WHOLE_CAP {
                digits_val(b@.subrange(lo as int, j as int))
            } else {
                WHOLE_CAP as int
            },
        decreases hi - j,
    {
        let ghost pre = b@.subrange(lo as int, j as int);
        let ghost nxt = b@.subrange(lo as int, j + 1);
        assert(nxt.drop_last() == pre);
        assert(is_digit(b@.subrange(lo as int, hi as int)[j - lo]));
        assert(all_digits(pre)) by {
            assert forall|i: int| 0 <= i < pre.len() implies is_digit(#[trigger] pre[i]) by {
                assert(pre[i] == b@.subrange(lo as int, hi as int)[i]);
            }
        }
        proof {
            lemma_digits_val_nonneg(pre);
        }
        let d = (b[j] - 48) as u64;
        let v = acc * 10 + d;
        acc = if v < WHOLE_CAP { v } else { WHOLE_CAP };
        j = j + 1;
    }
    Some(acc)
}

/// The `i`-th digit of the all-digit run `b[lo..]`, zero past its end.
fn frac_digit_at(b: &[u8], lo: usize, i: usize) -> (r: u64)
    requires
        lo <= b@.len(),
        all_digits(b@.subrange(lo as int, b@.len() as int)),
    ensures
        r == frac_digit(b@.subrange(lo as int, b@.len() as int), i as int),
        r <= 9,
{
    if i < b.len() - lo {
        assert(is_digit(b@.subrange(lo as int, b@.len() as int)[i as int]));
        (b[lo + i] - 48) as u64
    } else {
        0
    }
}

/// Relies on `String::from_utf8`: ASCII bytes are valid UTF-8 and give the
/// string of the same characters.
#[verifier::external_body]
fn ascii_string(b: Vec<u8>) -> (r: String)
    requires
        forall|i: int| 0 <= i < b@.len() ==> b@[i] < 128,
    ensures
        r@ == b@.map_values(|x: u8| x as char),
{
    String::from_utf8(b).unwrap_or_default()
}

/// The decimal digits of `n`.
fn nat_digit_bytes(n: u64) -> (r: Vec<u8>)
    ensures
        r@ == nat_digits(n as nat),
{
    let mut out: Vec<u8> = Vec::new();
    let mut q = n;
    while q >= 10
        invariant
            nat_digits(n as nat) == nat_digits(q as nat) + out@,
        decreases q,
    {
        let ghost o = out@;
        let d = (48 + q % 10) as u8;
        out.insert(0, d);
        assert(out@ == seq![d] + o);
        assert(nat_digits(q as nat) == nat_digits((q / 10) as nat).push(d));
        assert(nat_digits(q as nat) + o == nat_digits((q / 10) as nat) + out@);
        q = q / 10;
    }
    let ghost o = out@;
    out.insert(0, (48 + q) as u8);
    assert(out@ == nat_digits(q as nat) + o);
    out
}

proof fn lemma_decimal_text_ascii(v: int)
    ensures
        forall|i: int| 0 <= i < decimal_text(v).len() ==> decimal_text(v)[i] < 128,
{
    let m = abs(v);
    lemma_nat_digits(m / 10000);
    let t = decimal_text(v);
    let sign: Seq<u8> = if v < 0 { seq![45u8] } else { Seq::empty() };
    let d = nat_digits(m / 10000);
    assert forall|i: int| 0 <= i < t.len() implies t[i] < 128 by {
        if i < sign.len() {
        } else if i < sign.len() + d.len() {
            assert(t[i] == d[i - sign.len()]);
            assert(is_digit(d[i - sign.len()]));
        } else {
        }
    }
}

/// The digits of `n` are digits, at least one, and spell `n`.
pub proof fn lemma_nat_digits(n: nat)
    ensures
        all_digits(nat_digits(n)),
        nat_digits(n).len() > 0,
        digits_val(nat_digits(n)) == n,
    decreases n,
{
    if n >= 10 {
        lemma_nat_digits(n / 10);
        let s = nat_digits(n);
        assert(s.drop_last() == nat_digits(n / 10));
        lemma_fundamental_div_mod(n as int, 10);
        assert(digit_val(s.last()) == n % 10);
        assert(digits_val(s) == digits_val(s.drop_last()) * 10 + digit_val(s.last()));
        assert(digits_val(s.drop_last()) == n / 10);
        assert((n / 10) * 10 + n % 10 == n) by (nonlinear_arith);
        assert forall|i: int| 0 <= i < s.len() implies is_digit(#[trigger] s[i]) by {
            if i < s.len() - 1 {
                assert(s[i] == nat_digits(n / 10)[i]);
            }
        }
    } else {
        assert(nat_digits(n).drop_last() == Seq::<u8>::empty());
        assert(digits_val(Seq::<u8>::empty()) == 0);
        assert(digit_val(nat_digits(n).last()) == n);
    }
}

/// A run of digits ahead of `rest` holds no point.
proof fn lemma_dot_pos_after_digits(a: Seq<u8>, rest: Seq<u8>)
    requires
        all_digits(a),
    ensures
        dot_pos(a + rest) == a.len() + dot_pos(rest),
    decreases a.len(),
{
    if a.len() > 0 {
        assert(is_digit(a[0]));
        assert((a + rest).drop_first() == a.drop_first() + rest);
        assert(all_digits(a.drop_first())) by {
            assert forall|i: int| 0 <= i < a.len() - 1 implies is_digit(#[trigger] a.drop_first()[i]) by {
                assert(a.drop_first()[i] == a[i + 1]);
            }
        }
        lemma_dot_pos_after_digits(a.drop_first(), rest);
    } else {
        assert(a + rest == rest);
    }
}

/// The four digits of `r` below ten thousand spell `r`.
proof fn lemma_four_digits(r: nat)
    requires
        r < 10000,
    ensures
        (r / 1000 % 10) * 1000 + (r / 100 % 10) * 100 + (r / 10 % 10) * 10 + r % 10 == r,
{
    lemma_fundamental_div_mod(r as int, 10);
    lemma_fundamental_div_mod((r / 10) as int, 10);
    lemma_fundamental_div_mod((r / 100) as int, 10);
    lemma_div_denominator(r as int, 10, 10);
    lemma_div_denominator((r / 10) as int, 10, 10);
    lemma_div_denominator(r as int, 100, 10);
    assert(r / 1000 < 10);
}

/// Reading back the decimal text of any amount gives that amount.
pub proof fn lemma_text_round_trip(v: i64)
    ensures
        is_numeral(decimal_text(v as int)),
        frac_part(decimal_text(v as int)).len() == 4,
        scaled(decimal_text(v as int)) == v,
        decimal_amount(decimal_text(v as int)) == v,
{
    let m = abs(v as int);
    let q = m / 10000;
    let r = m % 10000;
    let d = nat_digits(q);
    let f = four_digits(r);
    let t = decimal_text(v as int);
    lemma_nat_digits(q);
    let u = d + seq![46u8] + f;
    if v < 0 {
        assert(t == seq![45u8] + u);
        assert(t.drop_first() == u);
    } else {
        assert(t == u);
        assert(t[0] == d[0]);
        assert(is_digit(d[0]));
    }
    assert(unsigned_part(t) == u);
    assert(u == d + (seq![46u8] + f));
    lemma_dot_pos_after_digits(d, seq![46u8] + f);
    assert(dot_pos(u) == d.len());
    assert(u.take(d.len() as int) == d);
    assert(u.skip(d.len() + 1int) == f);
    assert(int_part(t) == d);
    assert(frac_part(t) == f);
    assert(all_digits(f));
    lemma_four_digits(r);
    assert(frac_digit(f, 4) == 0);
    assert(scaled_magnitude(t) == q * 10000 + r);
    lemma_fundamental_div_mod(m as int, 10000);
    assert(scaled_magnitude(t) == m);
}

/// Reading a numeral with at most four digits after the point keeps its value
/// exactly, and writing that amount out gives a numeral of the same value with
/// four digits after the point.
pub proof fn lemma_decimal_round_trip(s: Seq<u8>)
    requires
        is_numeral(s),
        frac_part(s).len() <= 4,
        in_i64(scaled(s)),
    ensures
        decimal_amount(s) == scaled(s),
        frac_digit(frac_part(s), 4) == 0,
        is_numeral(decimal_text(decimal_amount(s))),
        frac_part(decimal_text(decimal_amount(s))).len() == 4,
        scaled(decimal_text(decimal_amount(s))) == scaled(s),
{
    lemma_text_round_trip(decimal_amount(s) as i64);
}

/// A run of digits spells a number no less than zero.
pub proof fn lemma_digits_val_nonneg(s: Seq<u8>)
    requires
        all_digits(s),
    ensures
        digits_val(s) >= 0,
    decreases s.len(),
{
    if s.len() > 0 {
        lemma_digits_val_nonneg(s.drop_last());
    }
}

} // verus!

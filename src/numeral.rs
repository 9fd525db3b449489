use vstd::prelude::*;

use crate::parser::{bytes_of, run_end, ByteClass};

verus! {

/// The most digits that a numeral may have and still be read exactly.
pub const MAX_DIGITS: usize = 18;

pub open spec fn pow10(k: nat) -> int
    decreases k,
{
    if k == 0 {
        1
    } else {
        10 * pow10((k - 1) as nat)
    }
}

/// The value of a sequence of ASCII digits, most significant first.
pub open spec fn digits_value(d: Seq<u8>) -> int
    decreases d.len(),
{
    if d.len() == 0 {
        0
    } else {
        digits_value(d.drop_last()) * 10 + (d.last() - 48)
    }
}

/// An exact decimal number: `units / 10^scale`.
#[derive(Clone, Copy, Debug, PartialEq, Eq, Structural)]
pub struct Decimal {
    pub units: i128,
    pub scale: u32,
}

pub open spec fn dec_lt(a: Decimal, b: Decimal) -> bool {
    a.units * pow10(b.scale as nat) < b.units * pow10(a.scale as nat)
}

pub open spec fn dec_eq(a: Decimal, b: Decimal) -> bool {
    a.units * pow10(b.scale as nat) == b.units * pow10(a.scale as nat)
}

pub open spec fn zero() -> Decimal {
    Decimal { units: 0, scale: 0 }
}

/// The numeral in `t`: an optional sign, digits, and an optional point
/// followed by digits, with at least one digit and at most `MAX_DIGITS`.
pub open spec fn numeral_spec(t: Seq<u8>) -> Option<Decimal> {
    let signed = t.len() > 0 && (t[0] == 45 || t[0] == 43);
    let start: int = if signed { 1 } else { 0 };
    let d = run_end(t, start, ByteClass::Digit);
    let pointed = d < t.len() && t[d] == 46;
    let frac_start = if pointed { d + 1 } else { d };
    let end = run_end(t, frac_start, ByteClass::Digit);
    let digits = t.subrange(start, d) + t.subrange(frac_start, end);
    if end != t.len() || digits.len() == 0 || digits.len() > MAX_DIGITS {
        None
    } else {
        let m = digits_value(digits);
        Some(
            Decimal {
                units: (if t.len() > 0 && t[0] == 45 { -m } else { m }) as i128,
                scale: (end - frac_start) as u32,
            },
        )
    }
}

/// The number that a text stands for; text that is not a numeral counts as zero.
pub open spec fn numeric_value(s: Seq<char>) -> Decimal {
    if vstd::utf8::is_ascii_chars(s) && numeral_spec(bytes_of(s)) is Some {
        numeral_spec(bytes_of(s))->0
    } else {
        zero()
    }
}

proof fn lemma_pow10_positive(k: nat)
    ensures
        pow10(k) >= 1,
    decreases k,
{
    if k > 0 {
        lemma_pow10_positive((k - 1) as nat);
    }
}

pub proof fn lemma_pow10_bounds(k: nat)
    ensures
        pow10(k) >= 1,
        k <= 18 ==> pow10(k) <= 1_000_000_000_000_000_000,
{
    lemma_pow10_positive(k);
    if k <= 18 {
        lemma_pow10_mono(k, 18);
        reveal_with_fuel(pow10, 19);
        assert(pow10(18) == 1_000_000_000_000_000_000);
    }
}

proof fn lemma_digits_value_bound(d: Seq<u8>)
    requires
        forall|i: int| 0 <= i < d.len() ==> 48 <= #[trigger] d[i] <= 57,
    ensures
        0 <= digits_value(d) < pow10(d.len()),
    decreases d.len(),
{
    if d.len() > 0 {
        let p = d.drop_last();
        assert forall|i: int| 0 <= i < p.len() implies 48 <= #[trigger] p[i] <= 57 by {
            assert(p[i] == d[i]);
        }
        lemma_digits_value_bound(p);
        assert(d.last() == d[d.len() - 1]);
    }
}

fn pow10_exec(k: u32) -> (r: i128)
    requires
        k <= 18,
    ensures
        r == pow10(k as nat),
{
    let mut r: i128 = 1;
    let mut i: u32 = 0;
    while i < k
        invariant
            i <= k <= 18,
            r == pow10(i as nat),
        decreases k - i,
    {
        proof {
            lemma_pow10_bounds(i as nat);
        }
        r = r * 10;
        i += 1;
    }
    r
}

/// Reads a numeral from bytes, as `numeral_spec` describes.
fn parse_numeral(t: &[u8]) -> (r: Option<Decimal>)
    ensures
        r == numeral_spec(t@),
{
    let n = t.len();
    let signed = n > 0 && (t[0] == 45 || t[0] == 43);
    let start: usize = if signed {
        1
    } else {
        0
    };
    let mut d = start;
    while d < n && 48 <= t[d] && t[d] <= 57
        invariant
            n == t@.len(),
            start <= d <= n,
            run_end(t@, start as int, ByteClass::Digit) == run_end(t@, d as int, ByteClass::Digit),
            forall|i: int| start <= i < d ==> 48 <= #[trigger] t@[i] <= 57,
        decreases n - d,
    {
        d += 1;
    }
    let pointed = d < n && t[d] == 46;
    let frac_start = if pointed {
        d + 1
    } else {
        d
    };
    let mut end = frac_start;
    while end < n && 48 <= t[end] && t[end] <= 57
        invariant
            n == t@.len(),
            frac_start <= end <= n,
            run_end(t@, frac_start as int, ByteClass::Digit) == run_end(
                t@,
                end as int,
                ByteClass::Digit,
            ),
            forall|i: int| frac_start <= i < end ==> 48 <= #[trigger] t@[i] <= 57,
        decreases n - end,
    {
        end += 1;
    }
    let ghost digits = t@.subrange(start as int, d as int) + t@.subrange(
        frac_start as int,
        end as int,
    );
    let count = (d - start) + (end - frac_start);
    if end != n || count == 0 || count > MAX_DIGITS {
        return None;
    }
    let mut units: i128 = 0;
    let mut k: usize = 0;
    while k < count
        invariant
            count == digits.len() <= MAX_DIGITS,
            k <= count,
            digits.len() == (d - start) + (end - frac_start),
            digits =~= t@.subrange(start as int, d as int) + t@.subrange(
                frac_start as int,
                end as int,
            ),
            start <= d <= frac_start <= end <= n == t@.len(),
            forall|i: int| start <= i < d ==> 48 <= #[trigger] t@[i] <= 57,
            forall|i: int| frac_start <= i < end ==> 48 <= #[trigger] t@[i] <= 57,
            units == digits_value(digits.take(k as int)),
            0 <= units < pow10(k as nat),
        decreases count - k,
    {
        let b = if k < d - start {
            t[start + k]
        } else {
            t[frac_start + (k - (d - start))]
        };
        assert(b == digits[k as int]);
        assert(digits.take(k as int + 1).drop_last() =~= digits.take(k as int));
        proof {
            lemma_pow10_bounds(k as nat);
            lemma_pow10_bounds((k + 1) as nat);
        }
        units = units * 10 + (b - 48) as i128;
        k += 1;
    }
    assert(digits.take(count as int) =~= digits);
    if n > 0 && t[0] == 45 {
        units = -units;
    }
    Some(Decimal { units, scale: (end - frac_start) as u32 })
}

/// The number that `s` stands for, zero where `s` is no numeral.
pub fn numeric_value_of(s: &str) -> (r: Decimal)
    ensures
        r == numeric_value(s@),
{
    broadcast use vstd::string::is_ascii_spec_bytes;

    if !s.is_ascii() {
        return Decimal { units: 0, scale: 0 };
    }
    let t = s.as_bytes();
    assert(t@ =~= bytes_of(s@));
    match parse_numeral(t) {
        Some(v) => v,
        None => Decimal { units: 0, scale: 0 },
    }
}

/// A decimal that a numeral can give: few enough digits to compare exactly.
pub open spec fn in_range(a: Decimal) -> bool {
    &&& a.scale <= MAX_DIGITS
    &&& -1_000_000_000_000_000_000 < a.units < 1_000_000_000_000_000_000
}

pub proof fn lemma_numeric_value_in_range(s: Seq<char>)
    ensures
        in_range(numeric_value(s)),
{
    if vstd::utf8::is_ascii_chars(s) && numeral_spec(bytes_of(s)) is Some {
        let t = bytes_of(s);
        let signed = t.len() > 0 && (t[0] == 45 || t[0] == 43);
        let start: int = if signed { 1 } else { 0 };
        let d = run_end(t, start, ByteClass::Digit);
        let pointed = d < t.len() && t[d] == 46;
        let frac_start = if pointed { d + 1 } else { d };
        let end = run_end(t, frac_start, ByteClass::Digit);
        lemma_run_is_class(t, start, ByteClass::Digit);
        lemma_run_is_class(t, frac_start, ByteClass::Digit);
        let digits = t.subrange(start, d) + t.subrange(frac_start, end);
        assert forall|i: int| 0 <= i < digits.len() implies 48 <= #[trigger] digits[i] <= 57 by {
            if i < d - start {
                assert(digits[i] == t[start + i]);
            } else {
                assert(digits[i] == t[frac_start + i - (d - start)]);
            }
        }
        lemma_digits_value_bound(digits);
        lemma_pow10_mono(digits.len(), 18);
        lemma_pow10_bounds(18);
    }
}

proof fn lemma_pow10_mono(a: nat, b: nat)
    requires
        a <= b,
    ensures
        pow10(a) <= pow10(b),
    decreases b,
{
    if a < b {
        lemma_pow10_mono(a, (b - 1) as nat);
        lemma_pow10_positive((b - 1) as nat);
    }
}

proof fn lemma_run_is_class(t: Seq<u8>, i: int, c: ByteClass)
    requires
        0 <= i <= t.len(),
    ensures
        i <= run_end(t, i, c) <= t.len(),
        forall|k: int| i <= k < run_end(t, i, c) ==> crate::parser::in_class(c, #[trigger] t[k]),
    decreases t.len() - i,
{
    if i < t.len() && crate::parser::in_class(c, t[i]) {
        lemma_run_is_class(t, i + 1, c);
    }
}

/// `a < b`, decided exactly.
pub fn dec_less(a: Decimal, b: Decimal) -> (r: bool)
    requires
        in_range(a),
        in_range(b),
    ensures
        r == dec_lt(a, b),
{
    let (x, y) = cross(a, b);
    x < y
}

/// `a == b` as numbers, decided exactly.
pub fn dec_equal(a: Decimal, b: Decimal) -> (r: bool)
    requires
        in_range(a),
        in_range(b),
    ensures
        r == dec_eq(a, b),
{
    let (x, y) = cross(a, b);
    x == y
}

fn cross(a: Decimal, b: Decimal) -> (r: (i128, i128))
    requires
        in_range(a),
        in_range(b),
    ensures
        r.0 == a.units * pow10(b.scale as nat),
        r.1 == b.units * pow10(a.scale as nat),
{
    let pa = pow10_exec(a.scale);
    let pb = pow10_exec(b.scale);
    proof {
        lemma_pow10_bounds(a.scale as nat);
        lemma_pow10_bounds(b.scale as nat);
        let e: int = 1_000_000_000_000_000_000;
        assert(-e * e <= a.units * pb <= e * e) by (nonlinear_arith)
            requires
                -e < a.units < e,
                1 <= pb <= e,
                e > 0,
        ;
        assert(-e * e <= b.units * pa <= e * e) by (nonlinear_arith)
            requires
                -e < b.units < e,
                1 <= pa <= e,
                e > 0,
        ;
    }
    (a.units * pb, b.units * pa)
}

} // verus!

//! Numbers of filters: percentages as decimals, infinities or NaN, read
//! with the grammar of `f32::from_str`; unsigned integers for process ids.
use crate::text::{folds_to, folds_to_str};
use vstd::prelude::*;

verus! {

/// Units of a `Decimal` per whole number: a `Decimal` holds eighteen
/// fractional digits.
pub open spec fn one() -> int {
    1_000_000_000_000_000_000
}

/// The bound (exclusive) on the magnitude of a `Decimal`, in units.
pub open spec fn limit() -> int {
    1_000_000_000_000_000_000_000_000_000_000_000_000
}

/// A signed decimal number with eighteen fractional digits, held exactly as
/// a count of 10^-18 units. Its magnitude stays below 10^18.
#[derive(Debug, Clone, Copy, PartialEq, Eq, Structural)]
pub struct Decimal {
    units: i128,
}

impl View for Decimal {
    type V = int;

    closed spec fn view(&self) -> int {
        self.units as int
    }
}

impl Decimal {
    #[verifier::type_invariant]
    spec fn inv(&self) -> bool {
        -limit() < self.units < limit()
    }

    /// The value in 10^-18 units.
    pub fn units(&self) -> (r: i128)
        ensures
            r == self@,
            -limit() < r < limit(),
    {
        proof {
            use_type_invariant(self);
        }
        self.units
    }

    /// The decimal of `units` 10^-18 units, if its magnitude is below 10^18.
    pub fn from_units(units: i128) -> (r: Option<Decimal>)
        ensures
            r matches Some(d) ==> d@ == units,
            r is Some <==> -limit() < units < limit(),
    {
        if -1_000_000_000_000_000_000_000_000_000_000_000_000 < units && units
            < 1_000_000_000_000_000_000_000_000_000_000_000_000 {
            Some(Decimal { units })
        } else {
            None
        }
    }

    /// The whole number `n`.
    pub fn from_int(n: i64) -> (r: Decimal)
        requires
            -one() < n < one(),
        ensures
            r@ == n * one(),
    {
        Decimal { units: (n as i128) * 1_000_000_000_000_000_000 }
    }

    /// Whether `self` and `other` lie less than 2^-23 apart, the machine
    /// epsilon of 32-bit floats.
    pub fn approx_eq(&self, other: &Decimal) -> (r: bool)
        ensures
            r == within_epsilon(self@, other@),
    {
        proof {
            use_type_invariant(self);
            use_type_invariant(other);
        }
        let d = self.units - other.units;
        -119_209_289_551 < d && d < 119_209_289_551
    }
}

pub open spec fn is_digit(c: char) -> bool {
    '0' <= c && c <= '9'
}

pub open spec fn digit_value(c: char) -> int {
    c as int - '0' as int
}

pub open spec fn all_digits(d: Seq<char>) -> bool {
    forall|i: int| 0 <= i < d.len() ==> is_digit(#[trigger] d[i])
}

/// The number that the decimal digits `d` spell.
pub open spec fn digits_value(d: Seq<char>) -> int
    decreases d.len(),
{
    if d.len() == 0 {
        0
    } else {
        digits_value(d.drop_last()) * 10 + digit_value(d.last())
    }
}

pub open spec fn pow10(n: nat) -> int
    decreases n,
{
    if n == 0 {
        1
    } else {
        10 * pow10((n - 1) as nat)
    }
}

/// The position of the first `.` in `s`, if any.
pub open spec fn dot_index(s: Seq<char>, i: int) -> Option<int>
    decreases s.len() - i,
{
    if i < 0 || i >= s.len() {
        None
    } else if s[i] == '.' {
        Some(i)
    } else {
        dot_index(s, i + 1)
    }
}

/// The value of an unsigned integer literal as `u32::from_str` reads it: an
/// optional `+`, then one or more decimal digits, with a value below 2^32.
pub open spec fn u32_literal(s: Seq<char>) -> Option<u32> {
    let d = if s.len() > 0 && s[0] == '+' {
        s.drop_first()
    } else {
        s
    };
    if d.len() > 0 && all_digits(d) && digits_value(d) <= u32::MAX {
        Some(digits_value(d) as u32)
    } else {
        None
    }
}

pub proof fn lemma_digits_value_nonneg(d: Seq<char>)
    requires
        all_digits(d),
    ensures
        digits_value(d) >= 0,
    decreases d.len(),
{
    if d.len() > 0 {
        assert(is_digit(d[d.len() - 1]));
        lemma_digits_value_nonneg(d.drop_last());
    }
}

/// A prefix of a digit string spells no more than the whole.
pub proof fn lemma_digits_value_prefix(d: Seq<char>, j: int)
    requires
        all_digits(d),
        0 <= j <= d.len(),
    ensures
        digits_value(d.subrange(0, j)) <= digits_value(d),
    decreases d.len() - j,
{
    if j < d.len() {
        lemma_digits_value_prefix(d, j + 1);
        let p = d.subrange(0, j + 1);
        assert(p.drop_last() =~= d.subrange(0, j));
        assert(is_digit(d[j]));
        lemma_digits_value_nonneg(d.subrange(0, j));
    } else {
        assert(d.subrange(0, j) =~= d);
    }
}

pub proof fn lemma_pow10_pos(n: nat)
    ensures
        pow10(n) >= 1,
    decreases n,
{
    if n > 0 {
        lemma_pow10_pos((n - 1) as nat);
    }
}

/// Reads the digits `s[lo..hi]` while their value stays below `bound`.
fn read_digits(s: &str, lo: usize, hi: usize, bound: u64) -> (r: Option<u64>)
    requires
        lo <= hi <= s@.len(),
        1 <= bound <= 10_000_000_000_000_000_000,
    ensures
        r matches Some(v) ==> all_digits(s@.subrange(lo as int, hi as int)) && v == digits_value(
            s@.subrange(lo as int, hi as int),
        ) && v < bound,
        r is None ==> !all_digits(s@.subrange(lo as int, hi as int)) || digits_value(
            s@.subrange(lo as int, hi as int),
        ) >= bound,
{
    let ghost d = s@.subrange(lo as int, hi as int);
    let mut v: u64 = 0;
    let mut i: usize = lo;
    assert(d.subrange(0, 0) =~= Seq::<char>::empty());
    while i < hi
        invariant
            lo <= i <= hi <= s@.len(),
            bound <= 10_000_000_000_000_000_000,
            d == s@.subrange(lo as int, hi as int),
            all_digits(d.subrange(0, i - lo)),
            v == digits_value(d.subrange(0, i - lo)),
            v < bound,
        decreases hi - i,
    {
        let c = s.get_char(i);
        if !('0' <= c && c <= '9') {
            assert(d[i - lo] == c);
            return None;
        }
        let dv = (c as u32 - '0' as u32) as u64;
        let nv: u128 = (v as u128) * 10 + (dv as u128);
        proof {
            let p = d.subrange(0, i - lo + 1);
            assert(p.drop_last() =~= d.subrange(0, i - lo));
            assert(p.last() == c);
            assert forall|k: int| 0 <= k < p.len() implies is_digit(#[trigger] p[k]) by {
                if k < i - lo {
                    assert(p[k] == d.subrange(0, i - lo)[k]);
                }
            }
            assert(digits_value(p) == nv);
        }
        if nv >= bound as u128 {
            proof {
                if all_digits(d) {
                    lemma_digits_value_prefix(d, i - lo + 1);
                }
            }
            return None;
        }
        v = nv as u64;
        i = i + 1;
    }
    assert(d.subrange(0, hi - lo) =~= d);
    Some(v)
}
/// Whether two values, in 10^-18 units, lie less than 2^-23 apart.
pub open spec fn within_epsilon(a: int, b: int) -> bool {
    let d = if a >= b {
        a - b
    } else {
        b - a
    };
    d * 8_388_608 < one()
}

pub proof fn lemma_digits_value_lt_pow10(d: Seq<char>)
    requires
        all_digits(d),
    ensures
        0 <= digits_value(d) < pow10(d.len()),
    decreases d.len(),
{
    if d.len() > 0 {
        assert(is_digit(d[d.len() - 1]));
        assert(all_digits(d.drop_last()));
        lemma_digits_value_lt_pow10(d.drop_last());
    }
}

pub proof fn lemma_pow10_mul(a: nat, b: nat)
    ensures
        pow10(a) * pow10(b) == pow10(a + b),
    decreases a,
{
    if a > 0 {
        lemma_pow10_mul((a - 1) as nat, b);
        assert(pow10(a) * pow10(b) == 10 * (pow10((a - 1) as nat) * pow10(b))) by (nonlinear_arith)
            requires
                pow10(a) == 10 * pow10((a - 1) as nat),
        ;
    }
}

/// The position of the first `.` in `s`.
fn find_dot(s: &str, n: usize) -> (r: Option<usize>)
    requires
        n == s@.len(),
    ensures
        r matches Some(k) ==> dot_index(s@, 0) == Some(k as int) && k < n,
        r is None ==> dot_index(s@, 0) is None,
{
    let mut i: usize = 0;
    while i < n
        invariant
            i <= n,
            n == s@.len(),
            dot_index(s@, 0) == dot_index(s@, i as int),
        decreases n - i,
    {
        if s.get_char(i) == '.' {
            return Some(i);
        }
        i = i + 1;
    }
    None
}

/// Parses an unsigned integer literal as `u32::from_str` does (see `u32_literal`).
pub fn parse_u32(s: &str) -> (r: Option<u32>)
    ensures
        r == u32_literal(s@),
{
    let n = s.unicode_len();
    let start: usize = if n > 0 && s.get_char(0) == '+' {
        1
    } else {
        0
    };
    proof {
        if start == 1 {
            assert(s@.subrange(1, n as int) =~= s@.drop_first());
        } else {
            assert(s@.subrange(0, n as int) =~= s@);
        }
    }
    if start == n {
        return None;
    }
    match read_digits(s, start, n, 4_294_967_296) {
        Some(v) => Some(v as u32),
        None => None,
    }
}

/// The largest magnitude of a `Decimal`, in units.
pub open spec fn max_units() -> int {
    limit() - 1
}

/// The bound up to which an exponent is read exactly; beyond it only its
/// sign matters.
pub open spec fn exponent_cap() -> int {
    1_267_650_600_228_229_401_496_703_205_376
}

/// `d * 10^k` in units (so `k` already counts the eighteen fractional
/// digits), rounded to a whole unit with halves away from zero, and
/// saturated at `max_units()`.
pub open spec fn scale_units(d: int, k: int) -> int {
    let v = if k >= 0 {
        d * pow10(k as nat)
    } else {
        (2 * d + pow10((-k) as nat)) / (2 * pow10((-k) as nat))
    };
    if v <= max_units() {
        v
    } else {
        max_units()
    }
}

pub proof fn lemma_digits_value_concat(a: Seq<char>, b: Seq<char>)
    ensures
        digits_value(a + b) == digits_value(a) * pow10(b.len()) + digits_value(b),
    decreases b.len(),
{
    if b.len() == 0 {
        assert(a + b =~= a);
    } else {
        lemma_digits_value_concat(a, b.drop_last());
        assert((a + b).drop_last() =~= a + b.drop_last());
        assert((a + b).last() == b.last());
        let p = pow10((b.len() - 1) as nat);
        assert(digits_value(a) * pow10(b.len()) == (digits_value(a) * p) * 10) by (nonlinear_arith)
            requires
                pow10(b.len()) == 10 * p,
        ;
    }
}

pub proof fn lemma_zeros_value(z: Seq<char>)
    requires
        forall|i: int| 0 <= i < z.len() ==> z[i] == '0',
    ensures
        digits_value(z) == 0,
    decreases z.len(),
{
    if z.len() > 0 {
        assert(z[z.len() - 1] == '0');
        lemma_zeros_value(z.drop_last());
    }
}

pub proof fn lemma_pow10_mono(a: nat, b: nat)
    requires
        a <= b,
    ensures
        pow10(a) <= pow10(b),
    decreases b,
{
    if a < b {
        lemma_pow10_mono(a, (b - 1) as nat);
        lemma_pow10_pos((b - 1) as nat);
    }
}

pub proof fn lemma_floor_div(x: int, y: int, q: int)
    requires
        y > 0,
        q * y <= x < (q + 1) * y,
    ensures
        x / y == q,
{
    assert(x / y == q) by (nonlinear_arith)
        requires
            y > 0,
            q * y <= x < (q + 1) * y,
    ;
}

/// A digit string whose first digit is not zero spells at least 10^(len-1).
pub proof fn lemma_leading_digit(t: Seq<char>)
    requires
        t.len() >= 1,
        all_digits(t),
        t[0] != '0',
    ensures
        digits_value(t) >= pow10((t.len() - 1) as nat),
{
    let h = t.subrange(0, 1);
    let rest = t.subrange(1, t.len() as int);
    assert(t =~= h + rest);
    lemma_digits_value_concat(h, rest);
    assert(h.drop_last() =~= Seq::<char>::empty());
    assert(digits_value(h.drop_last()) == 0);
    assert(h.last() == t[0]);
    assert(is_digit(t[0]));
    assert(digits_value(h) == digit_value(t[0]));
    assert(digits_value(h) >= 1);
    assert(all_digits(rest));
    lemma_digits_value_nonneg(rest);
    lemma_pow10_pos(rest.len());
    assert(digits_value(h) * pow10(rest.len()) >= pow10(rest.len())) by (nonlinear_arith)
        requires
            digits_value(h) >= 1,
            pow10(rest.len()) >= 1,
    ;
}

/// The digits after the last kept place decide rounding by their first
/// digit alone: `2r + 10^m` lies in `[2b * 10^m, 2(b + 1) * 10^m)` where `b`
/// is 1 when that digit is 5 or more.
pub proof fn lemma_rounding_digit(b: Seq<char>)
    requires
        b.len() >= 1,
        all_digits(b),
    ensures
        ({
            let r = digits_value(b);
            let m = pow10(b.len());
            let up: int = if b[0] >= '5' {
                1
            } else {
                0
            };
            up * (2 * m) <= 2 * r + m < (up + 1) * (2 * m)
        }),
{
    let h = b.subrange(0, 1);
    let rest = b.subrange(1, b.len() as int);
    assert(b =~= h + rest);
    lemma_digits_value_concat(h, rest);
    assert(h.drop_last() =~= Seq::<char>::empty());
    assert(digits_value(h.drop_last()) == 0);
    assert(h.last() == b[0]);
    assert(is_digit(b[0]));
    assert(digits_value(h) == digit_value(b[0]));
    assert(all_digits(rest));
    lemma_digits_value_lt_pow10(rest);
    let p = pow10(rest.len());
    assert(pow10(b.len()) == 10 * p);
    let d = digits_value(h);
    assert(0 <= d <= 9);
    assert(d >= 5 <==> b[0] >= '5');
    assert(digits_value(b) == d * p + digits_value(rest));
    assert(0 <= d * p <= 9 * p && (d >= 5 ==> d * p >= 5 * p) && (d <= 4 ==> d * p <= 4 * p))
        by (nonlinear_arith)
        requires
            0 <= d <= 9,
            p >= 1,
    ;
}

pub proof fn lemma_pow10_36()
    ensures
        pow10(36) == limit(),
{
    reveal_with_fuel(pow10, 37);
}

/// 10^n, for n up to 36.
fn pow10_wide(n: usize) -> (r: u128)
    requires
        n <= 36,
    ensures
        r == pow10(n as nat),
{
    let mut r: u128 = 1;
    let mut i: usize = 0;
    while i < n
        invariant
            i <= n <= 36,
            r == pow10(i as nat),
        decreases n - i,
    {
        proof {
            lemma_pow10_mono((i + 1) as nat, 36);
            lemma_pow10_36();
        }
        r = r * 10;
        i = i + 1;
    }
    r
}

/// The number that the digits `ds[a..b]` spell; at most 36 of them.
fn read_value(ds: &Vec<char>, a: usize, b: usize) -> (r: u128)
    requires
        a <= b <= ds@.len(),
        b - a <= 36,
        all_digits(ds@),
    ensures
        r == digits_value(ds@.subrange(a as int, b as int)),
        r < pow10((b - a) as nat),
{
    let mut acc: u128 = 0;
    let mut i: usize = a;
    assert(ds@.subrange(a as int, a as int) =~= Seq::<char>::empty());
    while i < b
        invariant
            a <= i <= b <= ds@.len(),
            b - a <= 36,
            all_digits(ds@),
            acc == digits_value(ds@.subrange(a as int, i as int)),
            acc < pow10((i - a) as nat),
        decreases b - i,
    {
        let c = ds[i];
        assert(is_digit(ds@[i as int]));
        let d = (c as u32 - '0' as u32) as u128;
        proof {
            let p = ds@.subrange(a as int, i + 1);
            assert(p.drop_last() =~= ds@.subrange(a as int, i as int));
            assert(p.last() == c);
            lemma_pow10_mono((i + 1 - a) as nat, 36);
            lemma_pow10_36();
        }
        acc = acc * 10 + d;
        i = i + 1;
    }
    acc
}

proof fn lemma_scale_zero(k: int)
    ensures
        scale_units(0, k) == 0,
{
    if k < 0 {
        let m = pow10((-k) as nat);
        lemma_pow10_pos((-k) as nat);
        lemma_floor_div(m, 2 * m, 0);
    }
}

/// A value with 37 or more whole digits saturates.
proof fn lemma_scale_saturates(d: int, tl: nat, k: int)
    requires
        tl >= 1,
        d >= pow10((tl - 1) as nat),
        tl - 1 + k >= 36,
    ensures
        scale_units(d, k) == max_units(),
{
    lemma_pow10_36();
    let lo = pow10((tl - 1) as nat);
    if k >= 0 {
        lemma_pow10_mul((tl - 1) as nat, k as nat);
        lemma_pow10_mono(36, (tl - 1 + k) as nat);
        lemma_pow10_pos(k as nat);
        assert(d * pow10(k as nat) >= lo * pow10(k as nat)) by (nonlinear_arith)
            requires
                d >= lo,
                pow10(k as nat) >= 0,
        ;
    } else {
        let m = (-k) as nat;
        let c = pow10((tl - 1 - m) as nat);
        lemma_pow10_mul((tl - 1 - m) as nat, m);
        lemma_pow10_mono(36, (tl - 1 - m) as nat);
        lemma_pow10_pos(m);
        let x = 2 * d + pow10(m);
        let y = 2 * pow10(m);
        assert(x / y >= c) by (nonlinear_arith)
            requires
                d >= c * pow10(m),
                x == 2 * d + pow10(m),
                y == 2 * pow10(m),
                pow10(m) >= 1,
        ;
    }
}

/// A value whose digits all lie below the rounding place rounds to zero.
proof fn lemma_scale_vanishes(d: int, tl: nat, k: int)
    requires
        0 <= d < pow10(tl),
        tl + k < 0,
    ensures
        scale_units(d, k) == 0,
{
    let m = (-k) as nat;
    lemma_pow10_mono((tl + 1) as nat, m);
    lemma_pow10_pos(tl);
    assert(pow10((tl + 1) as nat) == 10 * pow10(tl));
    lemma_floor_div(2 * d + pow10(m), 2 * pow10(m), 0);
}

/// Splitting the digits at the rounding place: the kept part `v`, and the
/// dropped part whose first digit decides `up`.
proof fn lemma_scale_rounds(d: int, v: int, tail: Seq<char>, up: int)
    requires
        tail.len() >= 1,
        all_digits(tail),
        v >= 0,
        d == v * pow10(tail.len()) + digits_value(tail),
        up == (if tail[0] >= '5' {
            1int
        } else {
            0int
        }),
    ensures
        scale_units(d, -(tail.len() as int)) == if v + up <= max_units() {
            v + up
        } else {
            max_units()
        },
{
    lemma_rounding_digit(tail);
    let r = digits_value(tail);
    let mm = pow10(tail.len());
    assert(2 * d + mm == v * (2 * mm) + (2 * r + mm)) by (nonlinear_arith)
        requires
            d == v * mm + r,
    ;
    assert((v + up) * (2 * mm) <= 2 * d + mm < (v + up + 1) * (2 * mm)) by (nonlinear_arith)
        requires
            2 * d + mm == v * (2 * mm) + (2 * r + mm),
            up * (2 * mm) <= 2 * r + mm < (up + 1) * (2 * mm),
    ;
    lemma_floor_div(2 * d + mm, 2 * mm, v + up);
}

/// `scale_units(digits_value(ds), kk)`, where `k` equals `kk` or lies with
/// it beyond 2^90 on the same side.
fn scale_digits(ds: &Vec<char>, k: i128, Ghost(kk): Ghost<int>) -> (r: i128)
    requires
        all_digits(ds@),
        -2 * exponent_cap() <= k <= 2 * exponent_cap(),
        kk == k || (k >= 1_237_940_039_285_380_274_899_124_224 && kk >= k) || (k
            <= -1_237_940_039_285_380_274_899_124_224 && kk <= k),
    ensures
        r == scale_units(digits_value(ds@), kk),
        0 <= r <= max_units(),
{
    let n = ds.len();
    let mut z: usize = 0;
    while z < n && ds[z] == '0'
        invariant
            z <= n == ds@.len(),
            forall|i: int| 0 <= i < z ==> ds@[i] == '0',
        decreases n - z,
    {
        z = z + 1;
    }
    let ghost zs = ds@.subrange(0, z as int);
    let ghost t = ds@.subrange(z as int, n as int);
    let ghost d = digits_value(ds@);
    proof {
        assert(ds@ =~= zs + t);
        lemma_digits_value_concat(zs, t);
        lemma_zeros_value(zs);
        assert(all_digits(t));
        lemma_digits_value_nonneg(t);
        lemma_digits_value_lt_pow10(t);
        lemma_pow10_36();
        assert(d == digits_value(t));
    }
    if z == n {
        proof {
            assert(t.len() == 0);
            lemma_scale_zero(kk);
        }
        return 0;
    }
    let tl = n - z;
    let p: i128 = (tl as i128) - 1 + k;
    proof {
        assert(t[0] != '0');
        lemma_leading_digit(t);
    }
    if p >= 36 {
        proof {
            lemma_scale_saturates(d, tl as nat, kk);
        }
        return 999_999_999_999_999_999_999_999_999_999_999_999;
    }
    if p < -1 {
        proof {
            lemma_scale_vanishes(d, tl as nat, kk);
        }
        return 0;
    }
    assert(kk == k);
    let q = (p + 1) as usize;
    if q >= tl {
        let v = read_value(ds, z, n);
        let s = pow10_wide(q - tl);
        proof {
            assert(ds@.subrange(z as int, n as int) == t);
            lemma_pow10_mul(tl as nat, (q - tl) as nat);
            lemma_pow10_mono(q as nat, 36);
            lemma_pow10_pos((q - tl) as nat);
            assert(v * s < limit()) by (nonlinear_arith)
                requires
                    v < pow10(tl as nat),
                    s == pow10((q - tl) as nat),
                    pow10(tl as nat) * pow10((q - tl) as nat) <= limit(),
                    s >= 0,
            ;
            assert(0 <= v * s) by (nonlinear_arith)
                requires
                    v >= 0,
                    s >= 0,
            ;
        }
        (v * s) as i128
    } else {
        let v = read_value(ds, z, z + q);
        let up: u128 = if ds[z + q] >= '5' {
            1
        } else {
            0
        };
        proof {
            let head = t.subrange(0, q as int);
            let tail = t.subrange(q as int, tl as int);
            assert(ds@.subrange(z as int, z + q) =~= head);
            assert(t =~= head + tail);
            lemma_digits_value_concat(head, tail);
            assert(all_digits(tail));
            assert(tail[0] == ds@[z + q]);
            lemma_scale_rounds(d, v as int, tail, up as int);
            lemma_pow10_mono(q as nat, 36);
        }
        let total = v + up;
        if total > 999_999_999_999_999_999_999_999_999_999_999_999 {
            999_999_999_999_999_999_999_999_999_999_999_999
        } else {
            total as i128
        }
    }
}

/// The position of the first `e` or `E` in `s` at or after `i`.
pub open spec fn exp_index(s: Seq<char>, i: int) -> Option<int>
    decreases s.len() - i,
{
    if i < 0 || i >= s.len() {
        None
    } else if s[i] == 'e' || s[i] == 'E' {
        Some(i)
    } else {
        exp_index(s, i + 1)
    }
}

/// The value of an exponent: an optional `+` or `-`, then one or more digits.
pub open spec fn exponent_value(x: Seq<char>) -> Option<int> {
    let neg = x.len() > 0 && x[0] == '-';
    let d = if x.len() > 0 && (x[0] == '-' || x[0] == '+') {
        x.drop_first()
    } else {
        x
    };
    if d.len() > 0 && all_digits(d) {
        Some(
            if neg {
                -digits_value(d)
            } else {
                digits_value(d)
            },
        )
    } else {
        None
    }
}

/// The value in units of an unsigned number as `f32::from_str` writes it:
/// digits with an optional `.` (at least one digit in all), then optionally
/// `e` or `E` and an exponent. The value is rounded to a whole unit and
/// saturated (see `scale_units`).
pub open spec fn unsigned_number(b: Seq<char>) -> Option<int> {
    let mant = match exp_index(b, 0) {
        Some(x) => b.subrange(0, x),
        None => b,
    };
    let e = match exp_index(b, 0) {
        Some(x) => exponent_value(b.subrange(x + 1, b.len() as int)),
        None => Some(0int),
    };
    let whole = match dot_index(mant, 0) {
        Some(k) => mant.subrange(0, k),
        None => mant,
    };
    let frac = match dot_index(mant, 0) {
        Some(k) => mant.subrange(k + 1, mant.len() as int),
        None => Seq::empty(),
    };
    if all_digits(whole) && all_digits(frac) && whole.len() + frac.len() > 0 && e is Some {
        Some(scale_units(digits_value(whole + frac), e->Some_0 - frac.len() + 18))
    } else {
        None
    }
}

/// A number as filters hold it: a decimal, an infinity, or not a number.
pub enum NumberModel {
    Finite(int),
    PosInf,
    NegInf,
    NaN,
}

/// The number that a literal spells, with the grammar of `f32::from_str`:
/// an optional sign, then `inf`, `infinity` or `nan` in any ASCII case, or an
/// unsigned number (see `unsigned_number`).
pub open spec fn number_literal(s: Seq<char>) -> Option<NumberModel> {
    let neg = s.len() > 0 && s[0] == '-';
    let body = if s.len() > 0 && (s[0] == '-' || s[0] == '+') {
        s.drop_first()
    } else {
        s
    };
    if folds_to(body, seq!['i', 'n', 'f']) || folds_to(
        body,
        seq!['i', 'n', 'f', 'i', 'n', 'i', 't', 'y'],
    ) {
        Some(
            if neg {
                NumberModel::NegInf
            } else {
                NumberModel::PosInf
            },
        )
    } else if folds_to(body, seq!['n', 'a', 'n']) {
        Some(NumberModel::NaN)
    } else {
        match unsigned_number(body) {
            Some(u) => Some(
                NumberModel::Finite(
                    if neg {
                        -u
                    } else {
                        u
                    },
                ),
            ),
            None => None,
        }
    }
}

/// A number as filters hold it: a decimal, an infinity, or not a number.
#[derive(Debug, Clone, Copy, PartialEq)]
pub enum Number {
    Finite(Decimal),
    PosInf,
    NegInf,
    NaN,
}

impl View for Number {
    type V = NumberModel;

    open spec fn view(&self) -> NumberModel {
        match self {
            Number::Finite(d) => NumberModel::Finite(d@),
            Number::PosInf => NumberModel::PosInf,
            Number::NegInf => NumberModel::NegInf,
            Number::NaN => NumberModel::NaN,
        }
    }
}

/// The position of the first `e` or `E` in `s`.
fn find_exp(s: &str, n: usize) -> (r: Option<usize>)
    requires
        n == s@.len(),
    ensures
        r matches Some(k) ==> exp_index(s@, 0) == Some(k as int) && k < n,
        r is None ==> exp_index(s@, 0) is None,
{
    let mut i: usize = 0;
    while i < n
        invariant
            i <= n,
            n == s@.len(),
            exp_index(s@, 0) == exp_index(s@, i as int),
        decreases n - i,
    {
        let c = s.get_char(i);
        if c == 'e' || c == 'E' {
            return Some(i);
        }
        i = i + 1;
    }
    None
}

/// `e` held within `exponent_cap()` on either side.
pub open spec fn clamp_exponent(e: int) -> int {
    if e > exponent_cap() {
        exponent_cap()
    } else if e < -exponent_cap() {
        -exponent_cap()
    } else {
        e
    }
}

/// Reads an exponent, held within `exponent_cap()`.
fn parse_exponent(x: &str) -> (r: Option<i128>)
    ensures
        match r {
            Some(v) => exponent_value(x@) matches Some(e) && v == clamp_exponent(e),
            None => exponent_value(x@) is None,
        },
{
    let n = x.unicode_len();
    let neg = n > 0 && x.get_char(0) == '-';
    let start: usize = if n > 0 && (x.get_char(0) == '-' || x.get_char(0) == '+') {
        1
    } else {
        0
    };
    let ghost d = x@.subrange(start as int, n as int);
    proof {
        if start == 1 {
            assert(d =~= x@.drop_first());
        } else {
            assert(d =~= x@);
        }
    }
    if start == n {
        return None;
    }
    let cap: u128 = 1_267_650_600_228_229_401_496_703_205_376;
    let mut acc: u128 = 0;
    let mut i: usize = start;
    assert(d.subrange(0, 0) =~= Seq::<char>::empty());
    while i < n
        invariant
            start <= i <= n == x@.len(),
            d == x@.subrange(start as int, n as int),
            d == (if x@.len() > 0 && (x@[0] == '-' || x@[0] == '+') {
                x@.drop_first()
            } else {
                x@
            }),
            neg == (x@.len() > 0 && x@[0] == '-'),
            d.len() > 0,
            cap == exponent_cap(),
            all_digits(d.subrange(0, i - start)),
            digits_value(d.subrange(0, i - start)) >= 0,
            acc == if digits_value(d.subrange(0, i - start)) <= cap {
                digits_value(d.subrange(0, i - start))
            } else {
                cap as int
            },
        decreases n - i,
    {
        let c = x.get_char(i);
        if !('0' <= c && c <= '9') {
            assert(d[i - start] == c);
            assert(!is_digit(d[i - start]));
            assert(!all_digits(d));
            return None;
        }
        let dv = (c as u32 - '0' as u32) as u128;
        proof {
            let p = d.subrange(0, i - start + 1);
            assert(p.drop_last() =~= d.subrange(0, i - start));
            assert(p.last() == c);
            assert forall|k: int| 0 <= k < p.len() implies is_digit(#[trigger] p[k]) by {
                if k < i - start {
                    assert(p[k] == d.subrange(0, i - start)[k]);
                }
            }
        }
        let next = acc * 10 + dv;
        acc = if next > cap {
            cap
        } else {
            next
        };
        i = i + 1;
    }
    assert(d.subrange(0, n - start) =~= d);
    let v = acc as i128;
    if neg {
        Some(-v)
    } else {
        Some(v)
    }
}

/// Appends the characters `s[lo..hi]` to `ds` if they are all digits.
fn push_digits(s: &str, lo: usize, hi: usize, ds: &mut Vec<char>) -> (r: bool)
    requires
        lo <= hi <= s@.len(),
    ensures
        r == all_digits(s@.subrange(lo as int, hi as int)),
        r ==> final(ds)@ == old(ds)@ + s@.subrange(lo as int, hi as int),
{
    let ghost base = ds@;
    let mut i: usize = lo;
    while i < hi
        invariant
            lo <= i <= hi <= s@.len(),
            ds@ == base + s@.subrange(lo as int, i as int),
            all_digits(s@.subrange(lo as int, i as int)),
        decreases hi - i,
    {
        let c = s.get_char(i);
        if !('0' <= c && c <= '9') {
            assert(s@.subrange(lo as int, hi as int)[i - lo] == c);
            return false;
        }
        ds.push(c);
        proof {
            assert(s@.subrange(lo as int, i + 1) =~= s@.subrange(lo as int, i as int) + seq![c]);
        }
        i = i + 1;
    }
    true
}

/// Reads an unsigned number (see `unsigned_number`).
fn parse_unsigned_number(b: &str) -> (r: Option<i128>)
    ensures
        match r {
            Some(u) => unsigned_number(b@) == Some(u as int) && 0 <= u <= max_units(),
            None => unsigned_number(b@) is None,
        },
{
    let n = b.unicode_len();
    let x = find_exp(b, n);
    let mend: usize = match x {
        Some(i) => i,
        None => n,
    };
    let e: i128 = match x {
        Some(i) => match parse_exponent(b.substring_char(i + 1, n)) {
            Some(v) => v,
            None => {
                return None;
            },
        },
        None => 0,
    };
    let ghost exact: int = match x {
        Some(i) => exponent_value(b@.subrange(i + 1, n as int))->Some_0,
        None => 0,
    };
    let mant = b.substring_char(0, mend);
    proof {
        if x is None {
            assert(b@.subrange(0, n as int) =~= b@);
        }
    }
    let dot = find_dot(mant, mend);
    let (wh, fl) = match dot {
        Some(k) => (k, k + 1),
        None => (mend, mend),
    };
    proof {
        assert(mant@.subrange(0, mend as int) =~= mant@);
        assert(mant@.subrange(mend as int, mend as int) =~= Seq::<char>::empty());
    }
    if wh + (mend - fl) == 0 {
        return None;
    }
    let mut ds: Vec<char> = Vec::new();
    if !push_digits(mant, 0, wh, &mut ds) {
        return None;
    }
    if !push_digits(mant, fl, mend, &mut ds) {
        return None;
    }
    let ghost whole = mant@.subrange(0, wh as int);
    let ghost frac = mant@.subrange(fl as int, mend as int);
    proof {
        assert(ds@ =~= whole + frac);
        assert forall|i: int| 0 <= i < ds@.len() implies is_digit(#[trigger] ds@[i]) by {
            if i < whole.len() {
                assert(ds@[i] == whole[i]);
            } else {
                assert(ds@[i] == frac[i - whole.len()]);
            }
        }
    }
    let f = (mend - fl) as i128;
    let k = e - f + 18;
    let r = scale_digits(&ds, k, Ghost(exact - frac.len() + 18));
    Some(r)
}

impl Number {
    /// Parses a number with the grammar of `f32::from_str` (see `number_literal`).
    pub fn parse_literal(s: &str) -> (r: Option<Number>)
        ensures
            match r {
                Some(x) => number_literal(s@) == Some(x@),
                None => number_literal(s@) is None,
            },
    {
        let n = s.unicode_len();
        let neg = n > 0 && s.get_char(0) == '-';
        let body = if n > 0 && (s.get_char(0) == '-' || s.get_char(0) == '+') {
            let b = s.substring_char(1, n);
            assert(b@ =~= s@.drop_first());
            b
        } else {
            s
        };
        proof {
            reveal_strlit("inf");
            reveal_strlit("infinity");
            reveal_strlit("nan");
            assert("inf"@ =~= seq!['i', 'n', 'f']);
            assert("infinity"@ =~= seq!['i', 'n', 'f', 'i', 'n', 'i', 't', 'y']);
            assert("nan"@ =~= seq!['n', 'a', 'n']);
        }
        if folds_to_str(body, "inf") || folds_to_str(body, "infinity") {
            return Some(
                if neg {
                    Number::NegInf
                } else {
                    Number::PosInf
                },
            );
        }
        if folds_to_str(body, "nan") {
            return Some(Number::NaN);
        }
        match parse_unsigned_number(body) {
            Some(u) => {
                let units = if neg {
                    -u
                } else {
                    u
                };
                Some(Number::Finite(Decimal { units }))
            },
            None => None,
        }
    }
}

} // verus!

//! Numbers. A real number is held as an `i64` that counts millionths; sums
//! and products are formed in 128 bits, so that no operation here overflows.
use vstd::prelude::*;
use vstd::string::*;
use crate::text::{decimal, decimal_padded, push_decimal, push_decimal_padded};

verus! {

/// One whole, in millionths.
pub const SCALE: i64 = 1_000_000;

/// The sort value of an entry that stands for no observation at all (-420):
/// it sorts before every value that observations give.
pub const NO_DATA: i64 = -420_000_000;

/// The sort value of an entry that reports missing outside statistics
/// (9,999,999): it sorts behind every value that observations give.
pub const NO_STATISTICS: i64 = 9_999_999_000_000;

/// The sort value of a column that cannot be shown (999,999).
pub const NOT_SHOWN: i64 = 999_999_000_000;

/// `a` divided by a positive `b`, rounded toward zero.
pub open spec fn quotient(a: int, b: int) -> int {
    if a >= 0 {
        a / b
    } else {
        -((-a) / b)
    }
}

/// `x`, or the nearest `i64` where `x` is none.
pub open spec fn clamped(x: int) -> int {
    if x < i64::MIN {
        i64::MIN as int
    } else if x > i64::MAX {
        i64::MAX as int
    } else {
        x
    }
}

/// The whole number `n` in millionths, as far as an `i64` reaches.
pub open spec fn scaled(n: int) -> int {
    clamped(n * SCALE)
}

/// The sum of `values`.
pub open spec fn total(values: Seq<i64>) -> int
    decreases values.len(),
{
    if values.len() == 0 {
        0
    } else {
        total(values.drop_last()) + values.last()
    }
}

/// The arithmetic mean of `values`, rounded toward zero.
pub open spec fn average(values: Seq<i64>) -> int {
    quotient(total(values), values.len() as int)
}

/// `m` is the least of `values`.
pub open spec fn is_least(values: Seq<i64>, m: i64) -> bool {
    values.contains(m) && forall|i: int| 0 <= i < values.len() ==> m <= values[i]
}

/// `m` is the greatest of `values`.
pub open spec fn is_greatest(values: Seq<i64>, m: i64) -> bool {
    values.contains(m) && forall|i: int| 0 <= i < values.len() ==> values[i] <= m
}

/// The least of `values`.
pub open spec fn least(values: Seq<i64>) -> i64 {
    choose|m: i64| is_least(values, m)
}

/// The greatest of `values`.
pub open spec fn greatest(values: Seq<i64>) -> i64 {
    choose|m: i64| is_greatest(values, m)
}

/// Values have one least among them.
pub proof fn lemma_least(values: Seq<i64>, low: i64)
    requires
        is_least(values, low),
    ensures
        least(values) == low,
{
    let l = least(values);
    let i = choose|i: int| 0 <= i < values.len() && values[i] == low;
    let j = choose|j: int| 0 <= j < values.len() && values[j] == l;
}

/// Values have one greatest among them.
pub proof fn lemma_greatest(values: Seq<i64>, high: i64)
    requires
        is_greatest(values, high),
    ensures
        greatest(values) == high,
{
    let g = greatest(values);
    let i = choose|i: int| 0 <= i < values.len() && values[i] == high;
    let j = choose|j: int| 0 <= j < values.len() && values[j] == g;
}

/// `r` is the square root of `n`, rounded down.
pub open spec fn is_root(n: int, r: int) -> bool {
    0 <= r && r * r <= n < (r + 1) * (r + 1)
}

/// The square root of `n`, rounded down.
pub open spec fn root(n: int) -> int {
    choose|r: int| is_root(n, r)
}

/// The sum of the squared distances of `values` from `center`.
pub open spec fn squares(values: Seq<i64>, center: int) -> int
    decreases values.len(),
{
    if values.len() == 0 {
        0
    } else {
        squares(values.drop_last(), center) + (values.last() - center) * (values.last() - center)
    }
}

/// The population variance of `values`: the mean of the squared distances
/// from their average, rounded down.
pub open spec fn variance(values: Seq<i64>) -> int {
    squares(values, average(values)) / (values.len() as int)
}

/// The sum of any values lies within their number times the reach of one.
pub proof fn lemma_total_bound(values: Seq<i64>)
    ensures
        values.len() * (i64::MIN as int) <= total(values) <= values.len() * (i64::MAX as int),
    decreases values.len(),
{
    if values.len() > 0 {
        lemma_total_bound(values.drop_last());
        assert((values.len() - 1) * (i64::MIN as int) + (i64::MIN as int) == values.len() * (
        i64::MIN as int)) by (nonlinear_arith);
        assert((values.len() - 1) * (i64::MAX as int) + (i64::MAX as int) == values.len() * (
        i64::MAX as int)) by (nonlinear_arith);
    }
}

/// `x` as an `i64`, or the nearest `i64`.
pub fn clamp(x: i128) -> (r: i64)
    ensures
        r == clamped(x as int),
{
    if x < i64::MIN as i128 {
        i64::MIN
    } else if x > i64::MAX as i128 {
        i64::MAX
    } else {
        x as i64
    }
}

/// A count in millionths.
pub fn from_count(n: usize) -> (r: i64)
    ensures
        r == scaled(n as int),
{
    assert(n * SCALE <= usize::MAX * 1_000_000) by (nonlinear_arith)
        requires
            n <= usize::MAX,
            SCALE == 1_000_000,
    ;
    clamp((n as i128) * (SCALE as i128))
}

/// A whole number in millionths.
pub fn from_i32(n: i32) -> (r: i64)
    ensures
        r == n * SCALE,
{
    (n as i64) * SCALE
}

/// A whole number in millionths.
pub fn from_u32(n: u32) -> (r: i64)
    ensures
        r == n * SCALE,
{
    (n as i64) * SCALE
}

/// The sum of `values`.
pub fn sum(values: &Vec<i64>) -> (r: i128)
    ensures
        r == total(values@),
{
    let mut acc: i128 = 0;
    let mut i: usize = 0;
    while i < values.len()
        invariant
            i <= values@.len(),
            acc == total(values@.take(i as int)),
        decreases values@.len() - i,
    {
        proof {
            let next = values@.take(i + 1);
            assert(next.drop_last() =~= values@.take(i as int));
            lemma_total_bound(next);
            assert(next.len() * (i64::MAX as int) <= usize::MAX * (i64::MAX as int))
                by (nonlinear_arith)
                requires
                    next.len() <= usize::MAX,
            ;
            assert(next.len() * (i64::MIN as int) >= usize::MAX * (i64::MIN as int))
                by (nonlinear_arith)
                requires
                    next.len() <= usize::MAX,
            ;
        }
        acc = acc + values[i] as i128;
        i += 1;
    }
    assert(values@.take(i as int) =~= values@);
    acc
}

/// The arithmetic mean of `values`, rounded toward zero.
pub fn mean(values: &Vec<i64>) -> (r: i64)
    requires
        values@.len() > 0,
    ensures
        r == average(values@),
{
    let s: i128 = sum(values);
    let n: i128 = values.len() as i128;
    proof {
        lemma_total_bound(values@);
        let t = total(values@);
        let len = values@.len() as int;
        assert(quotient(t, len) <= i64::MAX && quotient(t, len) >= i64::MIN) by (nonlinear_arith)
            requires
                len > 0,
                len * (i64::MIN as int) <= t <= len * (i64::MAX as int),
                quotient(t, len) == (if t >= 0 {
                    t / len
                } else {
                    -((-t) / len)
                }),
        ;
    }
    (s / n) as i64
}

/// The least of `values`.
pub fn minimum(values: &Vec<i64>) -> (r: i64)
    requires
        values@.len() > 0,
    ensures
        is_least(values@, r),
        r == least(values@),
{
    let mut best: i64 = values[0];
    let mut i: usize = 1;
    while i < values.len()
        invariant
            1 <= i <= values@.len(),
            values@.contains(best),
            forall|j: int| 0 <= j < i ==> best <= values@[j],
        decreases values@.len() - i,
    {
        if values[i] < best {
            best = values[i];
        }
        i += 1;
    }
    proof {
        lemma_least(values@, best);
    }
    best
}

/// The greatest of `values`.
pub fn maximum(values: &Vec<i64>) -> (r: i64)
    requires
        values@.len() > 0,
    ensures
        is_greatest(values@, r),
        r == greatest(values@),
{
    let mut best: i64 = values[0];
    let mut i: usize = 1;
    while i < values.len()
        invariant
            1 <= i <= values@.len(),
            values@.contains(best),
            forall|j: int| 0 <= j < i ==> values@[j] <= best,
        decreases values@.len() - i,
    {
        if values[i] > best {
            best = values[i];
        }
        i += 1;
    }
    proof {
        lemma_greatest(values@, best);
    }
    best
}

/// The square root of `n`, rounded down.
pub fn isqrt(n: u128) -> (r: u64)
    ensures
        is_root(n as int, r as int),
{
    let mut low: u128 = 0;
    let mut high: u128 = 0x1_0000_0000_0000_0000;
    assert(high * high > n) by (nonlinear_arith)
        requires
            high == 0x1_0000_0000_0000_0000,
            n <= u128::MAX,
    ;
    while high - low > 1
        invariant
            low < high <= 0x1_0000_0000_0000_0000,
            low * low <= n,
            n < high * high,
        decreases high - low,
    {
        let mid: u128 = low + (high - low) / 2;
        assert(mid * mid <= 0xffff_ffff_ffff_ffff * 0xffff_ffff_ffff_ffff) by (nonlinear_arith)
            requires
                mid <= 0xffff_ffff_ffff_ffff,
        ;
        if mid * mid <= n {
            low = mid;
        } else {
            high = mid;
        }
    }
    low as u64
}

/// The distance between two numbers.
pub fn distance(a: i64, b: i64) -> (r: u128)
    ensures
        r == (if a >= b {
            a - b
        } else {
            b - a
        }),
        r <= 0xffff_ffff_ffff_ffff,
{
    if a >= b {
        (a as i128 - b as i128) as u128
    } else {
        (b as i128 - a as i128) as u128
    }
}

proof fn lemma_square_of_distance(a: int, b: int, d: int)
    requires
        d == (if a >= b {
            a - b
        } else {
            b - a
        }),
        d <= 0xffff_ffff_ffff_ffff,
    ensures
        d * d == (a - b) * (a - b),
        0 <= d * d <= 0xffff_ffff_ffff_ffff * 0xffff_ffff_ffff_ffff,
{
    assert(d * d == (a - b) * (a - b)) by (nonlinear_arith)
        requires
            d == a - b || d == -(a - b),
    ;
    assert(0 <= d * d <= 0xffff_ffff_ffff_ffff * 0xffff_ffff_ffff_ffff) by (nonlinear_arith)
        requires
            0 <= d <= 0xffff_ffff_ffff_ffff,
    ;
}

proof fn lemma_split_quotient(q: int, r: int, n: int)
    requires
        n > 0,
        r >= 0,
        q >= 0,
    ensures
        (q * n + r) / n == q + r / n,
{
    vstd::arithmetic::div_mod::lemma_fundamental_div_mod(r, n);
    let r0 = r % n;
    let k = q + r / n;
    assert(q * n + r == k * n + r0) by (nonlinear_arith)
        requires
            r == n * (r / n) + r0,
            k == q + r / n,
    ;
    vstd::arithmetic::div_mod::lemma_fundamental_div_mod_converse(q * n + r, n, k, r0);
}

/// The population variance of `values`.
pub fn population_variance(values: &Vec<i64>) -> (r: u128)
    requires
        values@.len() > 0,
    ensures
        r == variance(values@),
{
    let m: i64 = mean(values);
    let n: u128 = values.len() as u128;
    let ghost top: int = 0xffff_ffff_ffff_ffffint * 0xffff_ffff_ffff_ffffint;
    let mut q: u128 = 0;
    let mut rem: u128 = 0;
    let mut i: usize = 0;
    assert(squares(values@.take(0), m as int) == 0);
    assert(0 * n + 0 == 0) by (nonlinear_arith);
    assert(0 * (n - 1) == 0 && 0 * (top / (n as int)) == 0) by (nonlinear_arith);
    while i < values.len()
        invariant
            i <= values@.len(),
            n == values@.len(),
            n > 0,
            top == 0xffff_ffff_ffff_ffff * 0xffff_ffff_ffff_ffff,
            q * n + rem == squares(values@.take(i as int), m as int),
            rem <= i * (n - 1),
            q <= i * (top / (n as int)),
        decreases values@.len() - i,
    {
        let d: u128 = distance(values[i], m);
        proof {
            lemma_square_of_distance(values@[i as int] as int, m as int, d as int);
        }
        let sq: u128 = d * d;
        let qi: u128 = sq / n;
        let ri: u128 = sq % n;
        proof {
            let next = values@.take(i + 1);
            assert(next.drop_last() =~= values@.take(i as int));
            assert(next.last() == values@[i as int]);
            let cap = top / (n as int);
            vstd::arithmetic::div_mod::lemma_div_is_ordered(sq as int, top, n as int);
            vstd::arithmetic::div_mod::lemma_fundamental_div_mod(sq as int, n as int);
            assert((i + 1) * cap <= n * cap) by (nonlinear_arith)
                requires
                    i + 1 <= n,
                    cap >= 0,
            ;
            assert(i * cap + cap == (i + 1) * cap) by (nonlinear_arith);
            vstd::arithmetic::div_mod::lemma_fundamental_div_mod(top, n as int);
            assert(n * cap <= top);
            assert(i * (n - 1) + (n - 1) == (i + 1) * (n - 1)) by (nonlinear_arith);
            assert((i + 1) * (n - 1) <= n * (n - 1)) by (nonlinear_arith)
                requires
                    i + 1 <= n,
                    n >= 1,
            ;
            assert(n * (n - 1) <= 0xffff_ffff_ffff_ffff * 0xffff_ffff_ffff_ffff)
                by (nonlinear_arith)
                requires
                    1 <= n <= 0xffff_ffff_ffff_ffff,
            ;
            assert((q + qi) * n + (rem + ri) == q * n + rem + sq) by (nonlinear_arith)
                requires
                    sq == n * qi + ri,
            ;
        }
        q = q + qi;
        rem = rem + ri;
        i += 1;
    }
    proof {
        assert(values@.take(i as int) =~= values@);
        lemma_split_quotient(q as int, rem as int, n as int);
        let cap = top / (n as int);
        vstd::arithmetic::div_mod::lemma_fundamental_div_mod(top, n as int);
        assert(i * cap <= top) by (nonlinear_arith)
            requires
                i == n,
                n * cap <= top,
        ;
        vstd::arithmetic::div_mod::lemma_div_is_ordered(rem as int, i * (n - 1), n as int);
        assert((n * (n - 1)) / (n as int) <= n) by (nonlinear_arith)
            requires
                n >= 1,
        ;
    }
    q + rem / n
}

/// The population standard deviation of `values`: the square root of their
/// variance, rounded down, as far as an `i64` reaches.
pub open spec fn deviation(values: Seq<i64>) -> int {
    clamped(root(variance(values)))
}

/// A number has one square root.
pub proof fn lemma_root_unique(n: int, a: int, b: int)
    requires
        is_root(n, a),
        is_root(n, b),
    ensures
        a == b,
{
    assert(a == b) by (nonlinear_arith)
        requires
            0 <= a,
            0 <= b,
            a * a <= n < (a + 1) * (a + 1),
            b * b <= n < (b + 1) * (b + 1),
    ;
}

/// What is a square root of a number is its square root.
pub proof fn lemma_root_is(n: int, r: int)
    requires
        is_root(n, r),
    ensures
        root(n) == r,
{
    lemma_root_unique(n, root(n), r);
}

/// The population standard deviation of `values`.
pub fn std_dev(values: &Vec<i64>) -> (r: i64)
    requires
        values@.len() > 0,
    ensures
        r == deviation(values@),
{
    let root: u64 = isqrt(population_variance(values));
    proof {
        lemma_root_is(variance(values@), root as int);
    }
    if root > i64::MAX as u64 {
        i64::MAX
    } else {
        root as i64
    }
}

/// Values that are all alike have themselves as average, and neither
/// variance nor deviation.
pub proof fn lemma_uniform(values: Seq<i64>, v: i64)
    requires
        values.len() > 0,
        forall|i: int| 0 <= i < values.len() ==> values[i] == v,
    ensures
        total(values) == values.len() * v,
        average(values) == v,
        squares(values, v as int) == 0,
        variance(values) == 0,
        deviation(values) == 0,
    decreases values.len(),
{
    let n = values.len() as int;
    if n > 1 {
        let front = values.drop_last();
        assert forall|i: int| 0 <= i < front.len() implies front[i] == v by {
            assert(front[i] == values[i]);
        }
        lemma_uniform(front, v);
        assert((n - 1) * v + v == n * v) by (nonlinear_arith);
    } else {
        assert(values.drop_last().len() == 0);
        assert(total(values.drop_last()) == 0);
        assert(squares(values.drop_last(), v as int) == 0);
        assert(1 * v == v);
    }
    assert(values.last() == v);
    assert((v - v) * (v - v) == 0);
    assert(quotient(n * v, n) == v) by (nonlinear_arith)
        requires
            n > 0,
            quotient(n * v, n) == (if n * v >= 0 {
                (n * v) / n
            } else {
                -((-(n * v)) / n)
            }),
    ;
    assert(0int / n == 0) by (nonlinear_arith)
        requires
            n > 0,
    ;
    assert(is_root(0, 0));
    lemma_root_is(0, 0);
}

/// `x` held within one whole on either side of zero.
pub open spec fn unit(x: int) -> int {
    if x < -SCALE {
        -SCALE as int
    } else if x > SCALE {
        SCALE as int
    } else {
        x
    }
}

/// How far `value` lies from the average of its column, counted in double
/// standard deviations and held within one whole on either side; zero where
/// the column has no deviation.
pub open spec fn colour_value(value: int, avg: int, stddev: int) -> int {
    if stddev <= 0 {
        0
    } else {
        unit(quotient((value - avg) * SCALE, 2 * stddev))
    }
}

/// A share of one whole as the strength of a colour channel.
pub open spec fn channel(x: int) -> int {
    (x * 2559) / 10_000_000
}

/// The colour that stands for `c`: white at zero, the full low colour at
/// minus one, the full high colour at one, and a linear blend between them.
pub open spec fn colour_of(c: int) -> Seq<u8> {
    seq![
        channel(if c > 0 { SCALE - c } else { SCALE as int }) as u8,
        channel(if c < 0 { c + SCALE } else { SCALE as int }) as u8,
        channel(if c < 0 { SCALE + c } else { SCALE - c }) as u8,
    ]
}

/// The colour of an entry without a place in its column.
pub open spec fn neutral() -> Seq<u8> {
    seq![255u8, 255u8, 255u8]
}

/// The neutral colour is the colour of zero.
pub proof fn lemma_neutral()
    ensures
        colour_of(0) == neutral(),
        forall|value: int, avg: int| colour_value(value, avg, 0) == 0,
{
    assert(colour_of(0) =~= neutral());
}

fn strength(x: i64) -> (r: u8)
    requires
        0 <= x <= SCALE,
    ensures
        r == channel(x as int),
{
    ((x * 2559) / 10_000_000) as u8
}

/// The place of `value` in a column with the given average and deviation.
pub fn colour_position(value: i64, avg: i64, stddev: i64) -> (c: i64)
    ensures
        c == colour_value(value as int, avg as int, stddev as int),
        -SCALE <= c <= SCALE,
{
    if stddev <= 0 {
        return 0;
    }
    let diff: i128 = value as i128 - avg as i128;
    assert(-0xffff_ffff_ffff_ffff * 1_000_000 <= diff * 1_000_000 <= 0xffff_ffff_ffff_ffff
        * 1_000_000) by (nonlinear_arith)
        requires
            -0xffff_ffff_ffff_ffff <= diff <= 0xffff_ffff_ffff_ffff,
    ;
    let c: i128 = (diff * (SCALE as i128)) / (2 * (stddev as i128));
    if c < -(SCALE as i128) {
        -SCALE
    } else if c > SCALE as i128 {
        SCALE
    } else {
        c as i64
    }
}

/// The colour of `value` in a column with the given average and deviation.
pub fn colour(value: i64, avg: i64, stddev: i64) -> (r: [u8; 3])
    ensures
        r@ == colour_of(colour_value(value as int, avg as int, stddev as int)),
{
    let c: i64 = colour_position(value, avg, stddev);
    let r = [
        strength(if c > 0 { SCALE - c } else { SCALE }),
        strength(if c < 0 { c + SCALE } else { SCALE }),
        strength(if c < 0 { SCALE + c } else { SCALE - c }),
    ];
    assert(r@ =~= colour_of(c as int));
    r
}

/// The size of `v`.
pub open spec fn magnitude(v: int) -> nat {
    if v < 0 {
        (-v) as nat
    } else {
        v as nat
    }
}

/// A minus sign where `v` is negative.
pub open spec fn sign_text(v: int) -> Seq<char> {
    if v < 0 {
        seq!['-']
    } else {
        Seq::empty()
    }
}

/// `v` written with two decimal places, halves rounded away from zero.
pub open spec fn two_places_text(v: int) -> Seq<char> {
    let h = (magnitude(v) + 5_000) / 10_000;
    sign_text(v) + decimal(h / 100) + seq!['.'] + decimal_padded(h % 100, 2)
}

/// `v` as a whole percentage, halves rounded away from zero.
pub open spec fn percent_text(v: int) -> Seq<char> {
    sign_text(v) + decimal((magnitude(v) * 100 + 500_000) / 1_000_000) + seq!['%']
}

/// The decimal places of `frac` millionths, as `width` digits without the
/// zeros at their end.
pub open spec fn places_text(frac: nat, width: nat) -> Seq<char>
    decreases width,
{
    if width > 1 && frac % 10 == 0 {
        places_text(frac / 10, (width - 1) as nat)
    } else {
        decimal_padded(frac, width)
    }
}

/// `v` written with as many decimal places as it needs, up to six.
pub open spec fn shortest_text(v: int) -> Seq<char> {
    let whole = magnitude(v) / 1_000_000;
    let frac = magnitude(v) % 1_000_000;
    if frac == 0 {
        sign_text(v) + decimal(whole)
    } else {
        sign_text(v) + decimal(whole) + seq!['.'] + places_text(frac, 6)
    }
}

fn size(v: i64) -> (r: u128)
    ensures
        r == magnitude(v as int),
{
    if v < 0 {
        (-(v as i128)) as u128
    } else {
        v as u128
    }
}

fn sign(v: i64) -> (r: String)
    ensures
        r@ == sign_text(v as int),
{
    let mut out = String::new();
    if v < 0 {
        out.push('-');
        assert(out@ =~= seq!['-']);
    }
    out
}

/// `v` written with two decimal places.
pub fn two_places(v: i64) -> (r: String)
    ensures
        r@ == two_places_text(v as int),
{
    let h: u128 = (size(v) + 5_000) / 10_000;
    let mut out = sign(v);
    push_decimal(&mut out, h / 100);
    out.push('.');
    push_decimal_padded(&mut out, h % 100, 2);
    assert(out@ =~= two_places_text(v as int));
    out
}

/// `v` as a whole percentage.
pub fn percent(v: i64) -> (r: String)
    ensures
        r@ == percent_text(v as int),
{
    let p: u128 = (size(v) * 100 + 500_000) / 1_000_000;
    let mut out = sign(v);
    push_decimal(&mut out, p);
    out.push('%');
    assert(out@ =~= percent_text(v as int));
    out
}

fn push_places(out: &mut String, frac: u128, width: u8)
    ensures
        final(out)@ == old(out)@ + places_text(frac as nat, width as nat),
    decreases width,
{
    if width > 1 && frac % 10 == 0 {
        push_places(out, frac / 10, width - 1);
    } else {
        push_decimal_padded(out, frac, width);
    }
}

/// `v` written with as many decimal places as it needs.
pub fn shortest(v: i64) -> (r: String)
    ensures
        r@ == shortest_text(v as int),
{
    let whole: u128 = size(v) / 1_000_000;
    let frac: u128 = size(v) % 1_000_000;
    let mut out = sign(v);
    push_decimal(&mut out, whole);
    if frac != 0 {
        out.push('.');
        push_places(&mut out, frac, 6);
    }
    assert(out@ =~= shortest_text(v as int));
    out
}

} // verus!

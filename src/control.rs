//! The control line of the FM voice: `freq c_ratio m_ratio lfo_freq`, up to
//! four whitespace-separated decimal numbers, missing ones taking defaults.
//! Numbers are read to three decimals (millihertz, parts per thousand);
//! further decimals are dropped.
use vstd::prelude::*;
use crate::fm::{FMSynth, FM_FREQ_LIMIT, RATIO_LIMIT};
use crate::transport::try_recv_item;

verus! {

/// What one control line asks of the FM voice.
#[derive(Clone, Copy, Debug, PartialEq, Eq, Structural)]
pub struct FmControl {
    /// Millihertz.
    pub freq: u64,
    /// Parts per thousand.
    pub c_ratio: u32,
    /// Parts per thousand.
    pub m_ratio: u32,
    /// Millihertz.
    pub lfo_freq: u64,
}

pub open spec fn is_space(b: u8) -> bool {
    b == 32 || b == 9 || b == 10 || b == 13
}

pub open spec fn is_digit(b: u8) -> bool {
    48 <= b <= 57
}

/// The length of the run of non-space bytes that `s` starts with.
pub open spec fn token_len(s: Seq<u8>) -> nat
    decreases s.len(),
{
    if s.len() > 0 && !is_space(s[0]) {
        1 + token_len(s.drop_first())
    } else {
        0
    }
}

/// The maximal runs of non-space bytes of `s`, in order.
pub open spec fn tokens(s: Seq<u8>) -> Seq<Seq<u8>>
    decreases s.len(),
{
    if s.len() == 0 {
        Seq::empty()
    } else if is_space(s[0]) {
        tokens(s.drop_first())
    } else {
        let k = token_len(s);
        if 0 < k <= s.len() {
            seq![s.subrange(0, k as int)] + tokens(s.subrange(k as int, s.len() as int))
        } else {
            Seq::empty()
        }
    }
}

pub open spec fn all_digits(d: Seq<u8>) -> bool {
    forall|i: int| 0 <= i < d.len() ==> is_digit(#[trigger] d[i])
}

/// The number the decimal digits `d` write.
pub open spec fn digits_value(d: Seq<u8>) -> nat
    decreases d.len(),
{
    if d.len() == 0 {
        0
    } else {
        digits_value(d.drop_last()) * 10 + (d.last() - 48) as nat
    }
}

/// Ten to the power `n`.
pub open spec fn pow10(n: nat) -> nat
    decreases n,
{
    if n == 0 {
        1
    } else {
        10 * pow10((n - 1) as nat)
    }
}

/// The number of digits in a row from index `i` of `b`.
pub open spec fn digit_run(b: Seq<u8>, i: int) -> nat
    decreases b.len() - i,
{
    if 0 <= i < b.len() && is_digit(b[i]) {
        1 + digit_run(b, i + 1)
    } else {
        0
    }
}

/// The number the first `p` digits of `d` write, `d` continuing with zeros
/// past its end; zero where `p` is not positive.
pub open spec fn padded_value(d: Seq<u8>, p: int) -> nat {
    if p <= 0 {
        0
    } else if p <= d.len() {
        digits_value(d.subrange(0, p))
    } else {
        digits_value(d) * pow10((p - d.len()) as nat)
    }
}

pub open spec fn is_exp_mark(b: u8) -> bool {
    b == 101 || b == 69
}

pub open spec fn is_sign(b: u8) -> bool {
    b == 43 || b == 45
}

/// The digits of exponent `x`, after its sign if it has one.
pub open spec fn exp_digits(x: Seq<u8>) -> Seq<u8> {
    if x.len() > 0 && is_sign(x[0]) {
        x.drop_first()
    } else {
        x
    }
}

/// `x` is an exponent: a sign, or none, then at least one digit.
pub open spec fn exp_ok(x: Seq<u8>) -> bool {
    exp_digits(x).len() > 0 && all_digits(exp_digits(x))
}

pub open spec fn exp_value(x: Seq<u8>) -> int {
    if x.len() > 0 && x[0] == 45 {
        -(digits_value(exp_digits(x)) as int)
    } else {
        digits_value(exp_digits(x)) as int
    }
}

/// The value in thousandths, rounded down, of an unsigned decimal `b`:
/// digits, then a point and digits or not, with at least one digit in all,
/// then an exponent (`e` or `E`, a sign or none, digits) or not.
#[verifier::opaque]
pub open spec fn unsigned_value(b: Seq<u8>) -> Option<nat> {
    let a = digit_run(b, 0) as int;
    let has_point = a < b.len() && b[a] == 46;
    let f = if has_point {
        digit_run(b, a + 1) as int
    } else {
        0
    };
    let mend = if has_point {
        a + 1 + f
    } else {
        a
    };
    let d = if has_point {
        b.subrange(0, a) + b.subrange(a + 1, a + 1 + f)
    } else {
        b.subrange(0, a)
    };
    if a + f == 0 {
        None
    } else if mend == b.len() {
        Some(padded_value(d, a + 3))
    } else if is_exp_mark(b[mend]) && exp_ok(b.subrange(mend + 1, b.len() as int)) {
        Some(padded_value(d, a + 3 + exp_value(b.subrange(mend + 1, b.len() as int))))
    } else {
        None
    }
}

/// The value of decimal token `t` in thousandths, if `t` is a decimal: a
/// `+` or nothing, then an unsigned decimal.
pub open spec fn decimal(t: Seq<u8>) -> Option<nat> {
    if t.len() > 0 && t[0] == 43 {
        unsigned_value(t.drop_first())
    } else {
        unsigned_value(t)
    }
}

/// The value of field `k` of the line with tokens `t`: its token, or the
/// default where the line stops short.
pub open spec fn field(t: Seq<Seq<u8>>, k: int, default: nat) -> Option<nat> {
    if k < t.len() {
        decimal(t[k])
    } else {
        Some(default)
    }
}

pub open spec fn fits(v: Option<nat>, limit: nat) -> bool {
    v matches Some(x) && x <= limit
}

/// What a control line asks: `None` where it has no number or more than
/// four, where a field is not a decimal, or where a value is beyond its limit.
pub open spec fn control_of(s: Seq<u8>) -> Option<FmControl> {
    let t = tokens(s);
    let f = field(t, 0, 220_000);
    let c = field(t, 1, 1000);
    let m = field(t, 2, 1000);
    let l = field(t, 3, 1000);
    if 0 < t.len() <= 4 && fits(f, FM_FREQ_LIMIT as nat) && fits(c, RATIO_LIMIT as nat) && fits(
        m,
        RATIO_LIMIT as nat,
    ) && fits(l, FM_FREQ_LIMIT as nat) {
        Some(
            FmControl {
                freq: f.unwrap() as u64,
                c_ratio: c.unwrap() as u32,
                m_ratio: m.unwrap() as u32,
                lfo_freq: l.unwrap() as u64,
            },
        )
    } else {
        None
    }
}

proof fn lemma_token_len(t: Seq<u8>, k: int)
    requires
        0 <= k <= t.len(),
        forall|m: int| 0 <= m < k ==> !is_space(#[trigger] t[m]),
        k == t.len() || is_space(t[k]),
    ensures
        token_len(t) == k,
    decreases k,
{
    if k > 0 {
        let d = t.drop_first();
        assert forall|m: int| 0 <= m < k - 1 implies !is_space(#[trigger] d[m]) by {
            assert(d[m] == t[m + 1]);
        }
        if k < t.len() {
            assert(d[k - 1] == t[k]);
        }
        lemma_token_len(d, k - 1);
    }
}

proof fn lemma_digits_push(d: Seq<u8>, x: u8)
    ensures
        digits_value(d.push(x)) == digits_value(d) * 10 + (x - 48) as nat,
{
    assert(d.push(x).drop_last() == d);
}

proof fn lemma_digits_grow(d: Seq<u8>, n: int)
    requires
        0 <= n <= d.len(),
        all_digits(d),
    ensures
        digits_value(d.subrange(0, n)) <= digits_value(d),
    decreases d.len() - n,
{
    if n < d.len() {
        lemma_digits_grow(d, n + 1);
        assert(d.subrange(0, n + 1) == d.subrange(0, n).push(d[n]));
        lemma_digits_push(d.subrange(0, n), d[n]);
    } else {
        assert(d.subrange(0, n) == d);
    }
}

proof fn lemma_digit_run(b: Seq<u8>, i: int, k: int)
    requires
        0 <= i,
        0 <= k,
        i + k <= b.len(),
        forall|m: int| i <= m < i + k ==> is_digit(#[trigger] b[m]),
        i + k == b.len() || !is_digit(b[i + k]),
    ensures
        digit_run(b, i) == k,
    decreases k,
{
    if k > 0 {
        lemma_digit_run(b, i + 1, k - 1);
    }
}

proof fn lemma_pow10(a: nat, b: nat)
    requires
        a <= b,
    ensures
        1 <= pow10(a) <= pow10(b),
        b >= 13 ==> pow10(b) > FM_FREQ_LIMIT,
    decreases b,
{
    if b > 0 {
        if a < b {
            lemma_pow10(a, (b - 1) as nat);
        }
        lemma_pow10(0, (b - 1) as nat);
        if b >= 14 {
            lemma_pow10(0, (b - 1) as nat);
        }
        if b == 13 {
            reveal_with_fuel(pow10, 14);
            assert(pow10(13) == 10_000_000_000_000);
        }
    }
}

/// The padded value is at least what any prefix of the digits writes.
proof fn lemma_padded_ge(d: Seq<u8>, p: int, j: int)
    requires
        all_digits(d),
        0 <= j <= d.len(),
        j <= p,
    ensures
        padded_value(d, p) >= digits_value(d.subrange(0, j)),
{
    if p <= 0 {
        assert(d.subrange(0, j).len() == 0);
    } else if p <= d.len() {
        let e = d.subrange(0, p);
        lemma_digits_grow(e, j);
        assert(e.subrange(0, j) == d.subrange(0, j));
    } else {
        lemma_digits_grow(d, j);
        lemma_pow10(0, (p - d.len()) as nat);
        let v = digits_value(d);
        let w = pow10((p - d.len()) as nat);
        assert(v * w >= v) by (nonlinear_arith)
            requires w >= 1;
    }
}

/// The end of the run of digits of `t` from `start`.
fn scan_digits(t: &[u8], start: usize, hi: usize) -> (r: usize)
    requires
        start <= hi <= t@.len(),
    ensures
        start <= r <= hi,
        forall|m: int| start <= m < r ==> is_digit(#[trigger] t@[m]),
        r == hi || !is_digit(t@[r as int]),
{
    let mut r: usize = start;
    while r < hi && 48 <= t[r] && t[r] <= 57
        invariant
            start <= r <= hi,
            hi <= t@.len(),
            forall|m: int| start <= m < r ==> is_digit(#[trigger] t@[m]),
        decreases hi - r,
    {
        r += 1;
    }
    r
}

/// The value of the digits `t[lo..hi]`, or `cap` where it is larger.
fn digits_capped(t: &[u8], lo: usize, hi: usize, cap: u128) -> (r: u128)
    requires
        lo <= hi <= t@.len(),
        all_digits(t@.subrange(lo as int, hi as int)),
        cap <= 0x1_0000_0000_0000_0000_0000,
    ensures
        r == if digits_value(t@.subrange(lo as int, hi as int)) <= cap {
            digits_value(t@.subrange(lo as int, hi as int))
        } else {
            cap as nat
        },
{
    let ghost d = t@.subrange(lo as int, hi as int);
    let mut v: u128 = 0;
    let mut i: usize = lo;
    while i < hi
        invariant
            lo <= i <= hi,
            hi <= t@.len(),
            d == t@.subrange(lo as int, hi as int),
            all_digits(d),
            cap <= 0x1_0000_0000_0000_0000_0000,
            v == digits_value(d.subrange(0, i - lo)),
            v <= cap,
        decreases hi - i,
    {
        assert(d.subrange(0, i + 1 - lo) == d.subrange(0, i - lo).push(d[i - lo]));
        proof {
            lemma_digits_push(d.subrange(0, i - lo), d[i - lo]);
            assert(is_digit(d[i - lo]));
        }
        let x = t[i];
        assert(x == d[i - lo]);
        let nv = v * 10 + (x - 48) as u128;
        if nv > cap {
            proof {
                lemma_digits_grow(d, i + 1 - lo);
            }
            return cap;
        }
        v = nv;
        i += 1;
    }
    assert(d.subrange(0, hi - lo) == d);
    v
}

/// The padded value of the digits `t[b0..b0 + a]` followed by
/// `t[fstart..fstart + f]`, to `p` digits, or `None` where it exceeds `limit`.
fn padded_upto(t: &[u8], b0: usize, a: usize, fstart: usize, f: usize, p: i128, limit: u64) -> (r: Option<u64>)
    requires
        b0 + a <= t@.len(),
        fstart + f <= t@.len(),
        a + f <= t@.len(),
        all_digits(t@.subrange(b0 as int, b0 + a)),
        all_digits(t@.subrange(fstart as int, fstart + f)),
        limit <= FM_FREQ_LIMIT,
    ensures
        r matches Some(v) ==> v == padded_value(
            t@.subrange(b0 as int, b0 + a) + t@.subrange(fstart as int, fstart + f),
            p as int,
        ) && v <= limit,
        r is None ==> padded_value(
            t@.subrange(b0 as int, b0 + a) + t@.subrange(fstart as int, fstart + f),
            p as int,
        ) > limit,
{
    let ghost d = t@.subrange(b0 as int, b0 + a) + t@.subrange(fstart as int, fstart + f);
    assert(all_digits(d)) by {
        assert forall|m: int| 0 <= m < d.len() implies is_digit(#[trigger] d[m]) by {
            if m < a {
                assert(d[m] == t@.subrange(b0 as int, b0 + a)[m]);
            } else {
                assert(d[m] == t@.subrange(fstart as int, fstart + f)[m - a]);
            }
        }
    }
    let tl = t.len();
    if p <= 0 {
        return Some(0);
    }
    let n = a + f;
    let q: usize = if p < n as i128 {
        p as usize
    } else {
        n
    };
    let mut v: u64 = 0;
    let mut j: usize = 0;
    while j < q
        invariant
            j <= q <= n,
            n == a + f,
            n == d.len(),
            all_digits(d),
            d == t@.subrange(b0 as int, b0 + a) + t@.subrange(fstart as int, fstart + f),
            tl == t@.len(),
            b0 + a <= t@.len(),
            fstart + f <= t@.len(),
            q <= p,
            limit <= FM_FREQ_LIMIT,
            v == digits_value(d.subrange(0, j as int)),
            v <= limit,
        decreases q - j,
    {
        let x = if j < a {
            t[b0 + j]
        } else {
            t[fstart + (j - a)]
        };
        assert(x == d[j as int]);
        assert(d.subrange(0, j + 1) == d.subrange(0, j as int).push(d[j as int]));
        proof {
            lemma_digits_push(d.subrange(0, j as int), d[j as int]);
            assert(is_digit(d[j as int]));
        }
        let nv = v * 10 + (x - 48) as u64;
        if nv > limit {
            proof {
                lemma_padded_ge(d, p as int, j + 1);
            }
            return None;
        }
        v = nv;
        j += 1;
    }
    if p <= n as i128 {
        return Some(v);
    }
    assert(d.subrange(0, n as int) == d);
    if v == 0 {
        assert(digits_value(d) * pow10((p - n) as nat) == 0) by (nonlinear_arith)
            requires digits_value(d) == 0;
        return Some(0);
    }
    let r = p - n as i128;
    let mut w: u64 = v;
    let mut k: i128 = 0;
    assert(pow10(0) == 1);
    assert(v * pow10(0) == v) by (nonlinear_arith)
        requires pow10(0) == 1;
    while k < r
        invariant
            0 <= k <= r,
            r == p - n,
            v >= 1,
            v == digits_value(d),
            d == t@.subrange(b0 as int, b0 + a) + t@.subrange(fstart as int, fstart + f),
            w == v * pow10(k as nat),
            w <= limit,
            limit <= FM_FREQ_LIMIT,
            n == d.len(),
        decreases r - k,
    {
        let nw = w * 10;
        let ghost small = pow10((k + 1) as nat);
        assert(small == 10 * pow10(k as nat));
        assert(nw == v * small) by (nonlinear_arith)
            requires nw == w * 10, w == v * pow10(k as nat), small == 10 * pow10(k as nat);
        if nw > limit {
            proof {
                lemma_pow10((k + 1) as nat, r as nat);
                let big = pow10(r as nat);
                assert(v * small <= v * big) by (nonlinear_arith)
                    requires small <= big, v >= 1;
                assert(padded_value(d, p as int) == v * big);
            }
            return None;
        }
        w = nw;
        k += 1;
    }
    Some(w)
}

fn all_digits_in(t: &[u8], lo: usize, hi: usize) -> (r: bool)
    requires
        lo <= hi <= t@.len(),
    ensures
        r == all_digits(t@.subrange(lo as int, hi as int)),
{
    let mut i: usize = lo;
    while i < hi
        invariant
            lo <= i <= hi,
            hi <= t@.len(),
            forall|m: int| lo <= m < i ==> is_digit(#[trigger] t@[m]),
        decreases hi - i,
    {
        if !(48 <= t[i] && t[i] <= 57) {
            assert(t@.subrange(lo as int, hi as int)[i - lo] == t@[i as int]);
            return false;
        }
        i += 1;
    }
    assert forall|m: int| 0 <= m < hi - lo implies is_digit(#[trigger] t@.subrange(lo as int, hi as int)[m]) by {
        assert(t@.subrange(lo as int, hi as int)[m] == t@[lo + m]);
    }
    true
}

/// Reads the exponent that starts with the mark at `t[p]`: whether it is
/// negative, and its magnitude, held to `cap`.
fn read_exponent(t: &[u8], p: usize, hi: usize, cap: u128) -> (r: Option<(bool, u128)>)
    requires
        p < hi <= t@.len(),
        cap <= 0x1_0000_0000_0000_0000_0000,
    ensures
        r is None ==> !(is_exp_mark(t@[p as int]) && exp_ok(t@.subrange(p + 1, hi as int))),
        r matches Some((neg, mag)) ==> {
            let x = t@.subrange(p + 1, hi as int);
            &&& is_exp_mark(t@[p as int])
            &&& exp_ok(x)
            &&& neg == (x.len() > 0 && x[0] == 45)
            &&& mag == if digits_value(exp_digits(x)) <= cap {
                digits_value(exp_digits(x))
            } else {
                cap as nat
            }
        },
{
    let ghost x = t@.subrange(p + 1, hi as int);
    if !(t[p] == 101 || t[p] == 69) {
        return None;
    }
    let mut q = p + 1;
    let mut neg = false;
    if q < hi && (t[q] == 43 || t[q] == 45) {
        neg = t[q] == 45;
        q += 1;
        assert(x[0] == t@[p + 1]);
        assert(exp_digits(x) == t@.subrange(q as int, hi as int));
    } else {
        if q < hi {
            assert(x[0] == t@[p + 1]);
        }
        assert(exp_digits(x) == t@.subrange(q as int, hi as int));
    }
    if q == hi {
        return None;
    }
    if !all_digits_in(t, q, hi) {
        return None;
    }
    let mag = digits_capped(t, q, hi, cap);
    Some((neg, mag))
}

/// What an unsigned decimal is worth, from the parts a scan finds in it.
proof fn lemma_unsigned_parts(b: Seq<u8>, a: int, hp: bool, f: int, d: Seq<u8>)
    requires
        a == digit_run(b, 0),
        hp == (a < b.len() && b[a] == 46),
        f == if hp {
            digit_run(b, a + 1) as int
        } else {
            0
        },
        d == if hp {
            b.subrange(0, a) + b.subrange(a + 1, a + 1 + f)
        } else {
            b.subrange(0, a)
        },
    ensures
        ({
            let mend = if hp {
                a + 1 + f
            } else {
                a
            };
            let x = b.subrange(mend + 1, b.len() as int);
            &&& a + f == 0 ==> unsigned_value(b) is None
            &&& a + f > 0 && mend == b.len() ==> unsigned_value(b) == Some(padded_value(d, a + 3))
            &&& a + f > 0 && mend < b.len() ==> unsigned_value(b) == if is_exp_mark(b[mend])
                && exp_ok(x) {
                Some(padded_value(d, a + 3 + exp_value(x)))
            } else {
                None::<nat>
            }
        }),
{
    reveal(unsigned_value);
}

/// An exponent held to `n + 20` gives what the exponent itself gives, where
/// `n` is the number of mantissa digits.
proof fn lemma_capped_exponent(d: Seq<u8>, a: int, e: int, ec: int, limit: nat)
    requires
        all_digits(d),
        0 <= a <= d.len(),
        limit <= FM_FREQ_LIMIT,
        e == ec || (e >= d.len() + 20 && ec == d.len() + 20) || (e <= -(d.len() + 20) && ec == -(
        d.len() + 20)),
    ensures
        (padded_value(d, a + 3 + e) <= limit) == (padded_value(d, a + 3 + ec) <= limit),
        padded_value(d, a + 3 + e) <= limit ==> padded_value(d, a + 3 + e) == padded_value(
            d,
            a + 3 + ec,
        ),
{
    let n = d.len() as int;
    if e != ec && e > 0 {
        let pe = a + 3 + e;
        let pc = a + 3 + ec;
        lemma_pow10(13, (pe - n) as nat);
        lemma_pow10(13, (pc - n) as nat);
        let v = digits_value(d);
        let w1 = pow10((pe - n) as nat);
        let w2 = pow10((pc - n) as nat);
        assert(v == 0 ==> v * w1 == 0 && v * w2 == 0) by (nonlinear_arith);
        assert(v >= 1 ==> v * w1 >= w1 && v * w2 >= w2) by (nonlinear_arith)
            requires
                w1 >= 1,
                w2 >= 1,
        ;
    }
}

/// The value in thousandths of the unsigned decimal `t[b0..hi]`, or `None`
/// where it is not one or exceeds `limit`.
#[verifier::spinoff_prover]
#[verifier::rlimit(100)]
fn read_unsigned(t: &[u8], b0: usize, hi: usize, limit: u64) -> (r: Option<u64>)
    requires
        b0 <= hi <= t@.len(),
        limit <= FM_FREQ_LIMIT,
    ensures
        r matches Some(v) ==> unsigned_value(t@.subrange(b0 as int, hi as int)) == Some(v as nat)
            && v <= limit,
        r is None ==> !fits(unsigned_value(t@.subrange(b0 as int, hi as int)), limit as nat),
{
    let ghost b = t@.subrange(b0 as int, hi as int);
    let p1 = scan_digits(t, b0, hi);
    let a = p1 - b0;
    proof {
        assert forall|m: int| 0 <= m < a implies is_digit(#[trigger] b[m]) by {
            assert(b[m] == t@[b0 + m]);
        }
        if p1 < hi {
            assert(b[a as int] == t@[p1 as int]);
        }
        lemma_digit_run(b, 0, a as int);
    }
    let has_point = p1 < hi && t[p1] == 46;
    let p2 = if has_point {
        scan_digits(t, p1 + 1, hi)
    } else {
        p1
    };
    let f: usize = if has_point {
        p2 - p1 - 1
    } else {
        0
    };
    let fstart: usize = if has_point {
        p1 + 1
    } else {
        p1
    };
    let ghost d = t@.subrange(b0 as int, b0 + a) + t@.subrange(fstart as int, fstart + f);
    proof {
        assert(t@.subrange(b0 as int, b0 + a) == b.subrange(0, a as int));
        assert(all_digits(t@.subrange(b0 as int, b0 + a))) by {
            assert forall|m: int| 0 <= m < a implies is_digit(
                #[trigger] t@.subrange(b0 as int, b0 + a)[m],
            ) by {
                assert(t@.subrange(b0 as int, b0 + a)[m] == t@[b0 + m]);
            }
        }
        assert(all_digits(t@.subrange(fstart as int, fstart + f))) by {
            assert forall|m: int| 0 <= m < f implies is_digit(
                #[trigger] t@.subrange(fstart as int, fstart + f)[m],
            ) by {
                assert(t@.subrange(fstart as int, fstart + f)[m] == t@[fstart + m]);
            }
        }
        if has_point {
            assert forall|m: int| a + 1 <= m < a + 1 + f implies is_digit(#[trigger] b[m]) by {
                assert(b[m] == t@[b0 + m]);
            }
            if p2 < hi {
                assert(b[a + 1 + f] == t@[p2 as int]);
            }
            lemma_digit_run(b, a + 1, f as int);
            assert(t@.subrange(fstart as int, fstart + f) == b.subrange(a + 1, a + 1 + f));
        } else {
            assert(t@.subrange(fstart as int, fstart + f) == Seq::<u8>::empty());
            assert(d == b.subrange(0, a as int));
        }
        lemma_unsigned_parts(b, a as int, has_point, f as int, d);
    }
    if a + f == 0 {
        return None;
    }
    let cap: u128 = (a + f) as u128 + 20;
    let ghost x = b.subrange(p2 - b0 + 1, b.len() as int);
    let mut e_neg = false;
    let mut e_mag: u128 = 0;
    if p2 < hi {
        assert(b[p2 - b0] == t@[p2 as int]);
        assert(x == t@.subrange(p2 + 1, hi as int));
        match read_exponent(t, p2, hi, cap) {
            Some((ng, mg)) => {
                e_neg = ng;
                e_mag = mg;
            },
            None => {
                return None;
            },
        }
    }
    let p: i128 = if e_neg {
        a as i128 + 3 - e_mag as i128
    } else {
        a as i128 + 3 + e_mag as i128
    };
    let r = padded_upto(t, b0, a, fstart, f, p, limit);
    proof {
        if p2 < hi {
            let e = exp_value(x);
            let ec = p - a - 3;
            lemma_capped_exponent(d, a as int, e, ec, limit as nat);
        }
    }
    r
}

/// The value in thousandths of the token `t[lo..hi]`, or `None` where it is
/// not a decimal or exceeds `limit`.
fn read_decimal(t: &[u8], lo: usize, hi: usize, limit: u64) -> (r: Option<u64>)
    requires
        lo <= hi <= t@.len(),
        limit <= FM_FREQ_LIMIT,
    ensures
        r matches Some(v) ==> fits(decimal(t@.subrange(lo as int, hi as int)), limit as nat)
            && decimal(t@.subrange(lo as int, hi as int)) == Some(v as nat),
        r is None ==> !fits(decimal(t@.subrange(lo as int, hi as int)), limit as nat),
{
    let ghost tok = t@.subrange(lo as int, hi as int);
    let b0: usize = if lo < hi && t[lo] == 43 {
        lo + 1
    } else {
        lo
    };
    assert(decimal(tok) == unsigned_value(t@.subrange(b0 as int, hi as int))) by {
        if lo < hi && t@[lo as int] == 43 {
            assert(tok.drop_first() == t@.subrange(b0 as int, hi as int));
        } else {
            assert(tok == t@.subrange(b0 as int, hi as int));
        }
    }
    read_unsigned(t, b0, hi, limit)
}

/// The limit of field `k` of a control line.
pub open spec fn field_limit(k: int) -> nat {
    if k == 1 || k == 2 {
        RATIO_LIMIT as nat
    } else {
        FM_FREQ_LIMIT as nat
    }
}

/// The default of field `k` of a control line.
pub open spec fn field_default(k: int) -> nat {
    if k == 0 {
        220_000
    } else {
        1000
    }
}

/// Reads a control line.
pub fn parse_control_line(s: &[u8]) -> (r: Option<FmControl>)
    ensures
        r == control_of(s@),
{
    let mut vals: Vec<u64> = vec![220_000, 1000, 1000, 1000];
    let ghost mut done: Seq<Seq<u8>> = Seq::empty();
    let mut count: usize = 0;
    let mut i: usize = 0;
    let n = s.len();
    assert(s@.subrange(0, n as int) == s@);
    while i < n
        invariant
            n == s@.len(),
            i <= n,
            count == done.len(),
            count <= 4,
            vals@.len() == 4,
            tokens(s@) == done + tokens(s@.subrange(i as int, n as int)),
            forall|k: int| 0 <= k < count ==> fits(decimal(#[trigger] done[k]), field_limit(k))
                && decimal(done[k]) == Some(vals@[k] as nat),
            forall|k: int| count <= k < 4 ==> #[trigger] vals@[k] == field_default(k),
        decreases n - i,
    {
        let ghost rest = s@.subrange(i as int, n as int);
        if s[i] == 32 || s[i] == 9 || s[i] == 10 || s[i] == 13 {
            assert(rest.drop_first() == s@.subrange(i + 1, n as int));
            i += 1;
        } else {
            let mut j: usize = i;
            while j < n && !(s[j] == 32 || s[j] == 9 || s[j] == 10 || s[j] == 13)
                invariant
                    i <= j <= n,
                    n == s@.len(),
                    forall|m: int| i <= m < j ==> !is_space(#[trigger] s@[m]),
                decreases n - j,
            {
                j += 1;
            }
            let ghost tok = s@.subrange(i as int, j as int);
            proof {
                assert forall|m: int| 0 <= m < j - i implies !is_space(#[trigger] rest[m]) by {
                    assert(rest[m] == s@[i + m]);
                }
                if j < n {
                    assert(rest[j - i] == s@[j as int]);
                }
                assert(rest[0] == s@[i as int]);
                lemma_token_len(rest, j - i);
                assert(rest.subrange(0, j - i) == tok);
                assert(rest.subrange(j - i, rest.len() as int) == s@.subrange(j as int, n as int));
                assert(tokens(rest) == seq![tok] + tokens(s@.subrange(j as int, n as int)));
                assert(tokens(s@) == done.push(tok) + tokens(s@.subrange(j as int, n as int)));
                assert(tokens(s@)[count as int] == tok);
            }
            if count == 4 {
                return None;
            }
            let limit = if count == 1 || count == 2 {
                RATIO_LIMIT as u64
            } else {
                FM_FREQ_LIMIT
            };
            match read_decimal(s, i, j, limit) {
                Some(x) => {
                    vals.set(count, x);
                },
                None => {
                    return None;
                },
            }
            proof {
                done = done.push(tok);
            }
            count += 1;
            i = j;
        }
    }
    proof {
        assert(s@.subrange(n as int, n as int).len() == 0);
        assert(tokens(s@) == done);
    }
    if count == 0 {
        return None;
    }
    proof {
        assert forall|k: int| 0 <= k < 4 implies fits(field(done, k, field_default(k)), field_limit(k))
            && field(done, k, field_default(k)) == Some(vals@[k] as nat) by {}
        assert(field(done, 0, 220_000) == field(done, 0, field_default(0)));
        assert(field(done, 1, 1000) == field(done, 1, field_default(1)));
        assert(field(done, 2, 1000) == field(done, 2, field_default(2)));
        assert(field(done, 3, 1000) == field(done, 3, field_default(3)));
    }
    Some(FmControl { freq: vals[0], c_ratio: vals[1] as u32, m_ratio: vals[2] as u32, lfo_freq: vals[3] })
}

impl FMSynth {
    /// Takes a control line's request: frequency, ratios and LFO rate, then a
    /// trigger at the new frequency.
    pub fn apply_control(&mut self, c: FmControl)
        requires
            old(self).wf(),
            c.freq <= FM_FREQ_LIMIT,
            c.lfo_freq <= FM_FREQ_LIMIT,
            c.c_ratio <= RATIO_LIMIT,
            c.m_ratio <= RATIO_LIMIT,
        ensures
            final(self).wf(),
            *final(self) == (FMSynth {
                freq: c.freq,
                c_ratio: c.c_ratio,
                m_ratio: c.m_ratio,
                lfo_freq: c.lfo_freq,
                amp: crate::fm::ATTACK_AMP,
                m_phase: 0,
                c_phase: 0,
                ..*old(self)
            }),
    {
        self.set_freq(c.freq);
        self.set_ratios(c.c_ratio, c.m_ratio);
        self.set_lfo_freq(c.lfo_freq);
        self.trigger(c.freq);
    }

    /// Takes a control request where every value is within its limit, and
    /// returns whether it did; a request beyond a limit leaves the voice as
    /// it was.
    pub fn accept_control(&mut self, c: FmControl) -> (r: bool)
        requires
            old(self).wf(),
        ensures
            final(self).wf(),
            r == (c.freq <= FM_FREQ_LIMIT && c.lfo_freq <= FM_FREQ_LIMIT && c.c_ratio <= RATIO_LIMIT
                && c.m_ratio <= RATIO_LIMIT),
            r ==> *final(self) == (FMSynth {
                freq: c.freq,
                c_ratio: c.c_ratio,
                m_ratio: c.m_ratio,
                lfo_freq: c.lfo_freq,
                amp: crate::fm::ATTACK_AMP,
                m_phase: 0,
                c_phase: 0,
                ..*old(self)
            }),
            !r ==> *final(self) == *old(self),
    {
        if c.freq <= FM_FREQ_LIMIT && c.lfo_freq <= FM_FREQ_LIMIT && c.c_ratio <= RATIO_LIMIT
            && c.m_ratio <= RATIO_LIMIT {
            self.apply_control(c);
            true
        } else {
            false
        }
    }

    /// Takes at most one pending control request from `rx` and hands it to
    /// `accept_control`; returns whether a request was taken.
    pub fn drain_control(&mut self, rx: &crossbeam_channel::Receiver<FmControl>) -> (r: bool)
        requires
            old(self).wf(),
        ensures
            final(self).wf(),
            !r ==> *final(self) == *old(self),
            r ==> exists|c: FmControl|
                c.freq <= FM_FREQ_LIMIT && c.lfo_freq <= FM_FREQ_LIMIT && c.c_ratio <= RATIO_LIMIT
                    && c.m_ratio <= RATIO_LIMIT && *final(self) == (FMSynth {
                    freq: c.freq,
                    c_ratio: c.c_ratio,
                    m_ratio: c.m_ratio,
                    lfo_freq: c.lfo_freq,
                    amp: crate::fm::ATTACK_AMP,
                    m_phase: 0,
                    c_phase: 0,
                    ..*old(self)
                }),
    {
        match try_recv_item(rx) {
            Some(c) => self.accept_control(c),
            None => false,
        }
    }
}

} // verus!

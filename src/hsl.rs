//! The `hsl(H, S%, L%)` color notation.
//!
//! H, S and L are decimal numbers, with an optional exponent (`1e2`), read in
//! millionths: what lies below a millionth is dropped. The hue is used
//! exactly; saturation and lightness beyond a million percent either way
//! count as that bound. The conversion to bytes is carried out in exact
//! integer arithmetic.
use vstd::prelude::*;
use crate::text::{chars_of, split_char, split_chars, trim_chars, trimmed, slice_chars};

verus! {

pub open spec fn is_digit(c: char) -> bool {
    '0' <= c && c <= '9'
}

pub open spec fn all_digits(s: Seq<char>) -> bool {
    forall|i: int| 0 <= i < s.len() ==> is_digit(#[trigger] s[i])
}

/// The number written by decimal digits `s`.
pub open spec fn digits_value(s: Seq<char>) -> nat
    decreases s.len(),
{
    if s.len() == 0 {
        0
    } else {
        digits_value(s.drop_last()) * 10 + (s.last() as nat - '0' as nat) as nat
    }
}

pub open spec fn pow10(n: nat) -> nat
    decreases n,
{
    if n == 0 { 1 } else { 10 * pow10((n - 1) as nat) }
}

pub open spec fn is_exp_mark(c: char) -> bool {
    c == 'e' || c == 'E'
}

/// The position of the first exponent mark (`e` or `E`) of `s`.
pub open spec fn first_mark(s: Seq<char>) -> Option<int>
    decreases s.len(),
{
    if s.len() == 0 {
        None
    } else {
        match first_mark(s.drop_last()) {
            Some(i) => Some(i),
            None => if is_exp_mark(s.last()) { Some(s.len() - 1) } else { None },
        }
    }
}

/// An exponent: an optional sign and at least one digit.
pub open spec fn exponent_value(x: Seq<char>) -> Option<int> {
    let neg = x.len() > 0 && x[0] == '-';
    let d = if x.len() > 0 && (x[0] == '+' || x[0] == '-') { x.drop_first() } else { x };
    if d.len() == 0 || !all_digits(d) {
        None
    } else if neg {
        Some(-(digits_value(d) as int))
    } else {
        Some(digits_value(d) as int)
    }
}

/// The exponent after the first mark of `b`; zero without a mark.
pub open spec fn mark_exponent(b: Seq<char>) -> Option<int> {
    match first_mark(b) {
        Some(i) => exponent_value(b.subrange(i + 1, b.len() as int)),
        None => Some(0int),
    }
}

/// The digits `d` read as a whole number and scaled by ten to the `k`; for
/// a negative `k` the last `-k` digits are dropped.
pub open spec fn shifted_value(d: Seq<char>, k: int) -> nat {
    if k >= 0 {
        digits_value(d) * pow10(k as nat)
    } else if d.len() + k <= 0 {
        0
    } else {
        digits_value(d.subrange(0, d.len() + k))
    }
}

/// An unsigned decimal in millionths: a mantissa `III`, `III.`, `.FFF` or
/// `III.FFF` with any number of digits, then optionally `e` or `E` and a
/// signed exponent; digits past the sixth after the point are dropped.
pub open spec fn unsigned_millionths(b: Seq<char>) -> Option<int> {
    let m = match first_mark(b) {
        Some(i) => b.subrange(0, i),
        None => b,
    };
    let e = mark_exponent(b);
    let parts = split_char(m, '.');
    let ip = parts[0];
    let fp = if parts.len() == 2 { parts[1] } else { Seq::<char>::empty() };
    if parts.len() > 2 || !all_digits(ip) || !all_digits(fp) || ip.len() + fp.len() == 0 || e is None {
        None
    } else {
        Some(shifted_value(ip + fp, 6 + e->0 - fp.len()) as int)
    }
}

/// The largest magnitude, in millionths, kept of a saturation or lightness.
pub const HSL_CAP: i64 = 999_999_999_999;

/// `x` held within `-HSL_CAP..=HSL_CAP`.
pub open spec fn capped_millionths(x: int) -> int {
    if x > HSL_CAP as int {
        HSL_CAP as int
    } else if x < -(HSL_CAP as int) {
        -(HSL_CAP as int)
    } else {
        x
    }
}

/// A decimal number with an optional sign, in millionths.
pub open spec fn decimal_millionths(s: Seq<char>) -> Option<int> {
    if s.len() > 0 && s[0] == '-' {
        match unsigned_millionths(s.drop_first()) {
            Some(v) => Some(-v),
            None => None,
        }
    } else if s.len() > 0 && s[0] == '+' {
        unsigned_millionths(s.drop_first())
    } else {
        unsigned_millionths(s)
    }
}

/// `s` without its trailing `%` characters.
pub open spec fn strip_percent(s: Seq<char>) -> Seq<char>
    decreases s.len(),
{
    if s.len() > 0 && s.last() == '%' {
        strip_percent(s.drop_last())
    } else {
        s
    }
}

pub open spec fn abs_int(x: int) -> int {
    if x < 0 { -x } else { x }
}

/// Remainder of a division that truncates toward zero: it has the sign of `a`.
pub open spec fn trunc_rem(a: int, m: int) -> int {
    if a >= 0 { a % m } else { -((-a) % m) }
}

/// The common denominator of the chroma, the secondary component and the
/// lightness offset below.
pub const HSL_SCALE: i128 = 1_200_000_000_000_000_000_000_000;

/// A channel `v + m` (both over `HSL_SCALE`) scaled to 255, truncated and
/// held to the range of a byte.
pub open spec fn hsl_channel(v: int, m: int) -> u8 {
    let num = (v + m) * 255;
    if num <= 0 {
        0
    } else if num / (HSL_SCALE as int) >= 255 {
        255
    } else {
        (num / (HSL_SCALE as int)) as u8
    }
}

/// HSL to RGB with hue in degrees and saturation and lightness in percent,
/// all three in millionths: chroma `C = (1 - |2L - 1|) S`, secondary
/// `X = C (1 - |(H/60 mod 2) - 1|)`, offset `m = L - C/2`, and the sextant of
/// `H/60` choosing where `C` and `X` go.
pub open spec fn hsl_rgb(h: int, s: int, l: int) -> (u8, u8, u8) {
    let ca = 100_000_000 - abs_int(2 * l - 100_000_000);
    let cn = ca * s;
    let xf = 60_000_000 - abs_int(trunc_rem(h, 120_000_000) - 60_000_000);
    let cq = cn * 120_000_000;
    let xq = cn * xf * 2;
    let mq = l * 12_000_000_000_000_000 - cn * 60_000_000;
    let (r, g, b) = if h < 60_000_000 {
        (cq, xq, 0)
    } else if h < 120_000_000 {
        (xq, cq, 0)
    } else if h < 180_000_000 {
        (0, cq, xq)
    } else if h < 240_000_000 {
        (0, xq, cq)
    } else if h < 300_000_000 {
        (xq, 0, cq)
    } else {
        (cq, 0, xq)
    };
    (hsl_channel(r, mq), hsl_channel(g, mq), hsl_channel(b, mq))
}

pub open spec fn hsl_inner(t: Seq<char>) -> Option<Seq<char>> {
    let tt = trimmed(t);
    if tt.len() >= 5 && tt.subrange(0, 4) == seq!['h', 's', 'l', '('] && tt.last() == ')' {
        Some(tt.subrange(4, tt.len() - 1))
    } else {
        None
    }
}

/// The color written `hsl(H, S%, L%)`: white space allowed around the whole
/// and around each part, the `%` signs optional; saturation and lightness
/// held within a million percent either way.
pub open spec fn hsl_color(t: Seq<char>) -> Option<(u8, u8, u8)> {
    match hsl_inner(t) {
        None => None,
        Some(inner) => {
            let parts = split_char(inner, ',');
            if parts.len() != 3 {
                None
            } else {
                let h = decimal_millionths(trimmed(parts[0]));
                let s = decimal_millionths(strip_percent(trimmed(parts[1])));
                let l = decimal_millionths(strip_percent(trimmed(parts[2])));
                if h is Some && s is Some && l is Some {
                    Some(hsl_rgb(h->0, capped_millionths(s->0), capped_millionths(l->0)))
                } else {
                    None
                }
            }
        },
    }
}

fn all_digit_chars(v: &Vec<char>) -> (r: bool)
    ensures
        r == all_digits(v@),
{
    let mut i: usize = 0;
    while i < v.len()
        invariant
            i <= v@.len(),
            forall|j: int| 0 <= j < i ==> is_digit(#[trigger] v@[j]),
        decreases v@.len() - i,
    {
        if !('0' <= v[i] && v[i] <= '9') {
            assert(!is_digit(v@[i as int]));
            return false;
        }
        i = i + 1;
    }
    true
}

proof fn lemma_first_mark_extend(s: Seq<char>, j: int)
    requires
        0 <= j <= s.len(),
        first_mark(s.subrange(0, j)) is Some,
    ensures
        first_mark(s) == first_mark(s.subrange(0, j)),
    decreases s.len(),
{
    if j == s.len() {
        assert(s.subrange(0, j) =~= s);
    } else {
        assert(s.drop_last().subrange(0, j) =~= s.subrange(0, j));
        lemma_first_mark_extend(s.drop_last(), j);
    }
}

proof fn lemma_digits_then_zeros(d: Seq<char>, z: nat)
    ensures
        digits_value(d + Seq::new(z, |i: int| '0')) == digits_value(d) * pow10(z),
    decreases z,
{
    if z == 0 {
        assert(d + Seq::new(z, |i: int| '0') =~= d);
        assert(pow10(z) == 1);
    } else {
        let w = d + Seq::new(z, |i: int| '0');
        assert(w.drop_last() =~= d + Seq::new((z - 1) as nat, |i: int| '0'));
        lemma_digits_then_zeros(d, (z - 1) as nat);
        assert(w.last() == '0');
        assert(digits_value(w) == digits_value(w.drop_last()) * 10);
        assert(pow10(z) == 10 * pow10((z - 1) as nat));
        assert(digits_value(d) * pow10((z - 1) as nat) * 10 == digits_value(d) * (10 * pow10((z - 1) as nat)))
            by (nonlinear_arith);
        assert(digits_value(w) == digits_value(d) * pow10(z));
    }
}

proof fn lemma_pow10_mod3(n: nat)
    ensures
        pow10(n) % 3 == 1,
        pow10(n) >= 1,
    decreases n,
{
    if n > 0 {
        lemma_pow10_mod3((n - 1) as nat);
        let p = pow10((n - 1) as nat);
        assert((10 * p) % 3 == 1) by (nonlinear_arith)
            requires p % 3 == 1;
    }
}

proof fn lemma_pow10_split(a: nat, b: nat)
    ensures
        pow10(a + b) == pow10(a) * pow10(b),
    decreases a,
{
    if a == 0 {
        assert(pow10(0) == 1);
        assert(a + b == b);
    } else {
        lemma_pow10_split((a - 1) as nat, b);
        assert(pow10(a) == 10 * pow10((a - 1) as nat));
        assert((a - 1 + b) as nat == (a + b - 1) as nat);
        assert(pow10(a + b) == 10 * pow10((a - 1 + b) as nat));
        assert(10 * (pow10((a - 1) as nat) * pow10(b)) == (10 * pow10((a - 1) as nat)) * pow10(b))
            by (nonlinear_arith);
    }
}

/// From the ninth power of ten on, `a * 10^k` leaves the same remainder on
/// division by 120 million: forty million times `a`'s remainder by three.
proof fn lemma_scaled_remainder(a: nat, k: nat)
    requires
        k >= 9,
    ensures
        (a * pow10(k)) % 120_000_000 == 40_000_000 * (a % 3),
        a > 0 ==> a * pow10(k) >= pow10(k),
{
    lemma_pow10_split(9, (k - 9) as nat);
    reveal_with_fuel(pow10, 10);
    assert(pow10(9) == 1_000_000_000);
    let p = pow10((k - 9) as nat);
    lemma_pow10_mod3((k - 9) as nat);
    let x = a * 25 * p;
    assert(a * pow10(k) == 40_000_000 * x) by (nonlinear_arith)
        requires pow10(k) == 1_000_000_000 * p, x == a * 25 * p;
    let t = p / 3;
    assert(p == 3 * t + 1) by (nonlinear_arith)
        requires t == p / 3, p % 3 == 1;
    let u = a / 3;
    assert(a == 3 * u + a % 3) by (nonlinear_arith)
        requires u == a / 3;
    assert(x == 3 * (25 * a * t + 8 * a + u) + a % 3) by (nonlinear_arith)
        requires x == a * 25 * p, p == 3 * t + 1, a == 3 * u + a % 3;
    vstd::arithmetic::div_mod::lemma_fundamental_div_mod_converse(
        x as int, 3, (25 * a * t + 8 * a + u) as int, (a % 3) as int);
    let q = x / 3;
    assert(x == 3 * q + x % 3) by (nonlinear_arith)
        requires q == x / 3;
    assert(40_000_000 * x == q * 120_000_000 + 40_000_000 * (x % 3)) by (nonlinear_arith)
        requires x == 3 * q + x % 3;
    vstd::arithmetic::div_mod::lemma_fundamental_div_mod_converse(
        (40_000_000 * x) as int, 120_000_000, q as int, (40_000_000 * (x % 3)) as int);
    assert(a > 0 ==> a * pow10(k) >= pow10(k)) by (nonlinear_arith)
        requires pow10(k) >= 0;
}

/// Reads the digits `v`: their value held at ten million million, and their
/// value modulo 120 million.
fn read_digit_run(v: &Vec<char>) -> (r: (u64, u64))
    requires
        all_digits(v@),
    ensures
        r.0 == if digits_value(v@) > 10_000_000_000_000 { 10_000_000_000_000 } else { digits_value(v@) },
        r.1 == digits_value(v@) % 120_000_000,
{
    let mut capped: u64 = 0;
    let mut rem: u64 = 0;
    let mut i: usize = 0;
    while i < v.len()
        invariant
            i <= v@.len(),
            all_digits(v@),
            capped == if digits_value(v@.subrange(0, i as int)) > 10_000_000_000_000 { 10_000_000_000_000 } else {
                digits_value(v@.subrange(0, i as int))
            },
            rem == digits_value(v@.subrange(0, i as int)) % 120_000_000,
        decreases v@.len() - i,
    {
        let ghost pre = v@.subrange(0, i as int);
        let ghost next = v@.subrange(0, i + 1);
        assert(next.drop_last() =~= pre);
        assert(is_digit(v@[i as int]));
        let d: u64 = (v[i] as u32 - '0' as u32) as u64;
        assert(digits_value(next) == digits_value(pre) * 10 + d);
        proof {
            let a = digits_value(pre) as int;
            let q = a / 120_000_000;
            let m = a % 120_000_000;
            assert(a == q * 120_000_000 + m) by (nonlinear_arith)
                requires q == a / 120_000_000, m == a % 120_000_000;
            let t = m * 10 + d;
            assert(a * 10 + d == (10 * q + t / 120_000_000) * 120_000_000 + t % 120_000_000) by (nonlinear_arith)
                requires a == q * 120_000_000 + m, t == m * 10 + d, 0 <= t;
            vstd::arithmetic::div_mod::lemma_fundamental_div_mod_converse(
                a * 10 + d, 120_000_000, 10 * q + t / 120_000_000, t % 120_000_000);
        }
        rem = (rem * 10 + d) % 120_000_000;
        capped = if capped * 10 + d > 10_000_000_000_000 { 10_000_000_000_000 } else { capped * 10 + d };
        i = i + 1;
    }
    assert(v@.subrange(0, v@.len() as int) =~= v@);
    (capped, rem)
}

/// The bound at which an exponent is held: beyond any length of digits.
const EXP_BOUND: i128 = 1_180_591_620_717_411_303_424;

/// Reads an exponent, held within `EXP_BOUND` either way.
fn read_exponent(x: &Vec<char>) -> (r: Option<i128>)
    ensures
        r is Some <==> exponent_value(x@) is Some,
        r matches Some(e) ==> e == if exponent_value(x@)->0 > EXP_BOUND { EXP_BOUND as int } else if exponent_value(
            x@,
        )->0 < -EXP_BOUND { -EXP_BOUND as int } else { exponent_value(x@)->0 },
{
    let neg = x.len() > 0 && x[0] == '-';
    let from: usize = if x.len() > 0 && (x[0] == '+' || x[0] == '-') { 1 } else { 0 };
    let d = slice_chars(x, from, x.len());
    assert(d@ =~= if x@.len() > 0 && (x@[0] == '+' || x@[0] == '-') { x@.drop_first() } else { x@ });
    if d.len() == 0 || !all_digit_chars(&d) {
        return None;
    }
    let mut val: i128 = 0;
    let mut i: usize = 0;
    while i < d.len()
        invariant
            i <= d@.len(),
            all_digits(d@),
            val == if digits_value(d@.subrange(0, i as int)) > EXP_BOUND { EXP_BOUND as int } else {
                digits_value(d@.subrange(0, i as int)) as int
            },
        decreases d@.len() - i,
    {
        let ghost pre = d@.subrange(0, i as int);
        assert(d@.subrange(0, i + 1).drop_last() =~= pre);
        assert(is_digit(d@[i as int]));
        let dig: i128 = (d[i] as u32 - '0' as u32) as i128;
        val = if val * 10 + dig > EXP_BOUND { EXP_BOUND } else { val * 10 + dig };
        i = i + 1;
    }
    assert(d@.subrange(0, d@.len() as int) =~= d@);
    if neg { Some(-val) } else { Some(val) }
}

/// Reads an unsigned decimal: its magnitude in millionths held at
/// `HSL_CAP`, and that magnitude modulo 120 million.
#[verifier::rlimit(50)]
fn parse_unsigned(b: &Vec<char>) -> (r: Option<(u64, u64)>)
    ensures
        r is Some <==> unsigned_millionths(b@) is Some,
        r matches Some(x) ==> x.0 == capped_millionths(unsigned_millionths(b@)->0)
            && x.1 == unsigned_millionths(b@)->0 % 120_000_000,
{
    let mut i: usize = 0;
    while i < b.len() && !(b[i] == 'e' || b[i] == 'E')
        invariant
            i <= b@.len(),
            first_mark(b@.subrange(0, i as int)) is None,
        decreases b@.len() - i,
    {
        assert(b@.subrange(0, i + 1).drop_last() =~= b@.subrange(0, i as int));
        i = i + 1;
    }
    let m = slice_chars(b, 0, i);
    let e: i128 = if i < b.len() {
        assert(b@.subrange(0, i + 1).drop_last() =~= b@.subrange(0, i as int));
        proof { lemma_first_mark_extend(b@, i + 1); }
        let x = slice_chars(b, i + 1, b.len());
        match read_exponent(&x) {
            Some(e) => e,
            None => return None,
        }
    } else {
        assert(b@.subrange(0, i as int) =~= b@);
        0
    };
    let parts = split_chars(&m, '.');
    proof { crate::text::lemma_split_char_nonempty(m@, '.'); }
    if parts.len() > 2 {
        return None;
    }
    let ip = &parts[0];
    let empty: Vec<char> = Vec::new();
    let fp = if parts.len() == 2 { &parts[1] } else { &empty };
    if ip.len() == 0 && fp.len() == 0 {
        return None;
    }
    if !all_digit_chars(ip) || !all_digit_chars(fp) {
        return None;
    }
    let mut digits = slice_chars(ip, 0, ip.len());
    assert(ip@.subrange(0, ip@.len() as int) =~= ip@);
    crate::text::push_all(&mut digits, fp);
    let ghost dd = digits@;
    assert(dd == ip@ + fp@);
    assert(all_digits(dd));
    let ghost true_e = mark_exponent(b@)->0;
    let fl: usize = fp.len();
    let dl: usize = digits.len();
    assert(mark_exponent(b@) is Some);
    assert(e == EXP_BOUND ==> true_e >= EXP_BOUND);
    assert(e == -EXP_BOUND ==> true_e <= -EXP_BOUND);
    assert(-EXP_BOUND < e < EXP_BOUND ==> true_e == e);
    let k: i128 = 6 + e - fl as i128;
    let ghost true_k = 6 + true_e - fp@.len();
    assert(unsigned_millionths(b@) == Some(shifted_value(dd, true_k) as int));
    if k >= 0 {
        let z: usize = if k > 13 { 13 } else { k as usize };
        let mut w = slice_chars(&digits, 0, digits.len());
        assert(digits@.subrange(0, digits@.len() as int) =~= digits@);
        let mut j: usize = 0;
        while j < z
            invariant
                j <= z,
                w@ == dd + Seq::new(j as nat, |t: int| '0'),
            decreases z - j,
        {
            w.push('0');
            j = j + 1;
            assert(w@ =~= dd + Seq::new(j as nat, |t: int| '0'));
        }
        assert(all_digits(w@));
        proof { lemma_digits_then_zeros(dd, z as nat); }
        let (c, rem) = read_digit_run(&w);
        proof {
            let a = digits_value(dd);
            if k > 13 {
                assert(true_k >= 13);
                lemma_scaled_remainder(a, true_k as nat);
                lemma_scaled_remainder(a, 13);
                reveal_with_fuel(pow10, 14);
                assert(pow10(13) == 10_000_000_000_000);
                lemma_pow10_split(13, (true_k - 13) as nat);
                lemma_pow10_mod3((true_k - 13) as nat);
                assert(pow10(true_k as nat) >= 10_000_000_000_000) by (nonlinear_arith)
                    requires pow10(true_k as nat) == 10_000_000_000_000 * pow10((true_k - 13) as nat),
                        pow10((true_k - 13) as nat) >= 1;
                if a == 0 {
                    assert(a * pow10(true_k as nat) == 0 && a * pow10(13) == 0) by (nonlinear_arith)
                        requires a == 0;
                }
            } else {
                assert(true_k == k);
            }
        }
        let capped: u64 = if c > HSL_CAP as u64 { HSL_CAP as u64 } else { c };
        Some((capped, rem))
    } else {
        let keep: i128 = dl as i128 + k;
        if keep <= 0 {
            assert(dd.len() + true_k <= 0);
            return Some((0, 0));
        }
        assert(true_k == k);
        let head = slice_chars(&digits, 0, keep as usize);
        assert(all_digits(head@));
        let (c, rem) = read_digit_run(&head);
        let capped: u64 = if c > HSL_CAP as u64 { HSL_CAP as u64 } else { c };
        Some((capped, rem))
    }
}

/// Reads a decimal number with an optional sign: its value in millionths
/// held within `HSL_CAP`, and its remainder on division by 120 million,
/// which takes the sign of the number.
fn parse_decimal(v: &Vec<char>) -> (r: Option<(i64, i64)>)
    ensures
        r is Some <==> decimal_millionths(v@) is Some,
        r matches Some(x) ==> x.0 == capped_millionths(decimal_millionths(v@)->0)
            && x.1 == trunc_rem(decimal_millionths(v@)->0, 120_000_000),
{
    if v.len() > 0 && (v[0] == '-' || v[0] == '+') {
        let body = slice_chars(v, 1, v.len());
        assert(body@ =~= v@.drop_first());
        match parse_unsigned(&body) {
            Some((c, m)) => if v[0] == '-' {
                Some((-(c as i64), -(m as i64)))
            } else {
                Some((c as i64, m as i64))
            },
            None => None,
        }
    } else {
        match parse_unsigned(v) {
            Some((c, m)) => Some((c as i64, m as i64)),
            None => None,
        }
    }
}

fn strip_percent_chars(v: Vec<char>) -> (r: Vec<char>)
    ensures
        r@ == strip_percent(v@),
{
    let mut n = v.len();
    assert(v@.subrange(0, n as int) =~= v@);
    while n > 0 && v[n - 1] == '%'
        invariant
            n <= v@.len(),
            strip_percent(v@) == strip_percent(v@.subrange(0, n as int)),
        decreases n,
    {
        assert(v@.subrange(0, n as int).drop_last() =~= v@.subrange(0, n - 1));
        n = n - 1;
    }
    slice_chars(&v, 0, n)
}

fn channel(v: i128, m: i128) -> (r: u8)
    requires
        -2_000_000_000_000_000_000_000_000_000_000_000 < v < 2_000_000_000_000_000_000_000_000_000_000_000,
        -2_000_000_000_000_000_000_000_000_000_000_000 < m < 2_000_000_000_000_000_000_000_000_000_000_000,
    ensures
        r == hsl_channel(v as int, m as int),
{
    let num = (v + m) * 255;
    if num <= 0 {
        0
    } else {
        let q = num / HSL_SCALE;
        if q >= 255 { 255 } else { q as u8 }
    }
}

fn abs128(x: i128) -> (r: i128)
    requires
        x > i128::MIN,
    ensures
        r == abs_int(x as int),
{
    if x < 0 { -x } else { x }
}

/// Converts hue (degrees), saturation and lightness (percent), each in
/// millionths, to bytes.
pub fn hsl_to_rgb(h: i64, s: i64, l: i64) -> (r: (u8, u8, u8))
    requires
        -1_000_000_000_000 < h < 1_000_000_000_000,
        -1_000_000_000_000 < s < 1_000_000_000_000,
        -1_000_000_000_000 < l < 1_000_000_000_000,
    ensures
        r == hsl_rgb(h as int, s as int, l as int),
{
    let hr: i64 = if h >= 0 { h % 120_000_000 } else { -((-h) % 120_000_000) };
    rgb_of_parts(Ghost(h as int), h, hr, s, l)
}

/// The conversion for a hue known by its value held within `HSL_CAP`, which
/// picks the sextant, and its remainder on division by 120 million.
fn rgb_of_parts(Ghost(h_exact): Ghost<int>, h: i64, hr: i64, s: i64, l: i64) -> (r: (u8, u8, u8))
    requires
        h == capped_millionths(h_exact),
        hr == trunc_rem(h_exact, 120_000_000),
        -1_000_000_000_000 < s < 1_000_000_000_000,
        -1_000_000_000_000 < l < 1_000_000_000_000,
    ensures
        r == hsl_rgb(h_exact, s as int, l as int),
{
    let h = h as i128;
    let hr = hr as i128;
    let s = s as i128;
    let l = l as i128;
    let ca: i128 = 100_000_000 - abs128(2 * l - 100_000_000);
    assert(-3_000_000_000_000 < ca <= 100_000_000);
    assert(-3_000_000_000_000_000_000_000_000 < ca * s < 3_000_000_000_000_000_000_000_000)
        by (nonlinear_arith)
        requires
            -3_000_000_000_000 < ca <= 100_000_000,
            -1_000_000_000_000 < s < 1_000_000_000_000,
    {
    }
    let cn: i128 = ca * s;
    let xf: i128 = 60_000_000 - abs128(hr - 60_000_000);
    assert(-120_000_001 < xf <= 60_000_000);
    assert(-1_000_000_000_000_000_000_000_000_000_000_000 < cn * 120_000_000 < 1_000_000_000_000_000_000_000_000_000_000_000)
        by (nonlinear_arith)
        requires
            -3_000_000_000_000_000_000_000_000 < cn < 3_000_000_000_000_000_000_000_000,
    {
    }
    let cq: i128 = cn * 120_000_000;
    assert(-400_000_000_000_000_000_000_000_000_000_000 < cn * xf < 400_000_000_000_000_000_000_000_000_000_000)
        by (nonlinear_arith)
        requires
            -3_000_000_000_000_000_000_000_000 < cn < 3_000_000_000_000_000_000_000_000,
            -120_000_001 < xf <= 60_000_000,
    {
    }
    let xq: i128 = cn * xf * 2;
    assert(-100_000_000_000_000_000_000_000_000_000 < l * 12_000_000_000_000_000 < 100_000_000_000_000_000_000_000_000_000)
        by (nonlinear_arith)
        requires
            -1_000_000_000_000 < l < 1_000_000_000_000,
    {
    }
    assert(-200_000_000_000_000_000_000_000_000_000_000 < cn * 60_000_000 < 200_000_000_000_000_000_000_000_000_000_000)
        by (nonlinear_arith)
        requires
            -3_000_000_000_000_000_000_000_000 < cn < 3_000_000_000_000_000_000_000_000,
    {
    }
    let mq: i128 = l * 12_000_000_000_000_000 - cn * 60_000_000;
    let (rv, gv, bv): (i128, i128, i128) = if h < 60_000_000 {
        (cq, xq, 0)
    } else if h < 120_000_000 {
        (xq, cq, 0)
    } else if h < 180_000_000 {
        (0, cq, xq)
    } else if h < 240_000_000 {
        (0, xq, cq)
    } else if h < 300_000_000 {
        (xq, 0, cq)
    } else {
        (cq, 0, xq)
    };
    (channel(rv, mq), channel(gv, mq), channel(bv, mq))
}

/// Parses `hsl(H, S%, L%)` and converts it to bytes; `None` when malformed.
pub fn parse_hsl(t: &String) -> (r: Option<(u8, u8, u8)>)
    ensures
        r == hsl_color(t@),
{
    let all = chars_of(t.as_str());
    let tt = trim_chars(&all);
    let n = tt.len();
    if !(n >= 5 && tt[0] == 'h' && tt[1] == 's' && tt[2] == 'l' && tt[3] == '(' && tt[n - 1] == ')') {
        assert(n >= 5 && tt@.subrange(0, 4) == seq!['h', 's', 'l', '('] ==> tt@[0] == 'h' && tt@[1] == 's' && tt@[2] == 'l' && tt@[3] == '(');
        return None;
    }
    assert(tt@.subrange(0, 4) =~= seq!['h', 's', 'l', '(']);
    let inner = slice_chars(&tt, 4, n - 1);
    let parts = split_chars(&inner, ',');
    if parts.len() != 3 {
        return None;
    }
    let hp = trim_chars(&parts[0]);
    let sp = strip_percent_chars(trim_chars(&parts[1]));
    let lp = strip_percent_chars(trim_chars(&parts[2]));
    let h = parse_decimal(&hp);
    let s = parse_decimal(&sp);
    let l = parse_decimal(&lp);
    match (h, s, l) {
        (Some((hc, hr)), Some((sc, _)), Some((lc, _))) => Some(
            rgb_of_parts(Ghost(decimal_millionths(hp@)->0), hc, hr, sc, lc),
        ),
        _ => None,
    }
}

} // verus!

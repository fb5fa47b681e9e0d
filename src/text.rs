//! Character-sequence helpers shared by the renderer: conversion between
//! strings and character vectors, decimal formatting, whitespace trimming,
//! pattern replacement and the soft-separator split and join.
use vstd::prelude::*;
use vstd::string::StrSliceExecFns;

verus! {

/// The characters of `s`, in order.
pub(crate) fn chars_of(s: &str) -> (r: Vec<char>)
    ensures
        r@ == s@,
{
    let n = s.unicode_len();
    let mut out: Vec<char> = Vec::new();
    let mut i: usize = 0;
    while i < n
        invariant
            i <= n,
            n == s@.len(),
            out@ == s@.subrange(0, i as int),
        decreases n - i,
    {
        out.push(s.get_char(i));
        i = i + 1;
        assert(out@ =~= s@.subrange(0, i as int));
    }
    assert(s@.subrange(0, n as int) =~= s@);
    out
}

/// Relies on `String: FromIterator<&char>`: the string made of the characters of `v`.
#[verifier::external_body]
pub(crate) fn string_of(v: &Vec<char>) -> (r: String)
    ensures
        r@ == v@,
{
    v.iter().collect()
}

/// The ASCII digit for a value below ten.
pub open spec fn digit_char(d: nat) -> char {
    ((d + 48) as u8) as char
}

/// Decimal digits of `n`, most significant first, without leading zeros.
pub open spec fn dec_digits(n: nat) -> Seq<char>
    decreases n,
{
    if n < 10 {
        seq![digit_char(n)]
    } else {
        dec_digits(n / 10).push(digit_char(n % 10))
    }
}

/// Appends the decimal digits of `n` to `out`.
pub fn push_decimal(out: &mut Vec<char>, n: u64)
    ensures
        final(out)@ == old(out)@ + dec_digits(n as nat),
    decreases n,
{
    if n >= 10 {
        push_decimal(out, n / 10);
    }
    let d: u8 = (n % 10) as u8;
    out.push((d + 48) as char);
    assert(final(out)@ =~= old(out)@ + dec_digits(n as nat));
}

/// Appends every character of `s` to `out`.
pub fn push_all(out: &mut Vec<char>, s: &Vec<char>)
    ensures
        final(out)@ == old(out)@ + s@,
{
    let mut i: usize = 0;
    while i < s.len()
        invariant
            i <= s@.len(),
            out@ == old(out)@ + s@.subrange(0, i as int),
        decreases s@.len() - i,
    {
        out.push(s[i]);
        i = i + 1;
        assert(out@ =~= old(out)@ + s@.subrange(0, i as int));
    }
    assert(s@.subrange(0, s@.len() as int) =~= s@);
}

/// Appends every character of `s` to `out`.
pub fn push_str(out: &mut Vec<char>, s: &str)
    ensures
        final(out)@ == old(out)@ + s@,
{
    let v = chars_of(s);
    push_all(out, &v);
}

/// Whether two character vectors hold the same characters.
pub fn chars_eq(a: &Vec<char>, b: &Vec<char>) -> (r: bool)
    ensures
        r == (a@ == b@),
{
    if a.len() != b.len() {
        return false;
    }
    let mut i: usize = 0;
    while i < a.len()
        invariant
            i <= a@.len(),
            a@.len() == b@.len(),
            forall|j: int| 0 <= j < i ==> a@[j] == b@[j],
        decreases a@.len() - i,
    {
        if a[i] != b[i] {
            return false;
        }
        i = i + 1;
    }
    assert(a@ =~= b@);
    true
}

/// The pieces of `s` between occurrences of `c`, in order; always at least one.
pub open spec fn split_char(s: Seq<char>, c: char) -> Seq<Seq<char>>
    decreases s.len(),
{
    if s.len() == 0 {
        seq![Seq::<char>::empty()]
    } else {
        let r = split_char(s.drop_last(), c);
        if s.last() == c {
            r.push(Seq::<char>::empty())
        } else {
            r.update(r.len() - 1, r.last().push(s.last()))
        }
    }
}

pub proof fn lemma_split_char_nonempty(s: Seq<char>, c: char)
    ensures
        split_char(s, c).len() >= 1,
    decreases s.len(),
{
    if s.len() > 0 {
        lemma_split_char_nonempty(s.drop_last(), c);
    }
}

/// `parts` joined with `sep` between each neighbouring pair.
pub open spec fn join_with(parts: Seq<Seq<char>>, sep: Seq<char>) -> Seq<char>
    decreases parts.len(),
{
    if parts.len() == 0 {
        Seq::<char>::empty()
    } else if parts.len() == 1 {
        parts[0]
    } else {
        join_with(parts.drop_last(), sep) + sep + parts.last()
    }
}

/// Unicode white space, as `char::is_whitespace` counts it.
pub open spec fn is_ws(c: char) -> bool {
    let u = c as u32;
    (9 <= u && u <= 13) || u == 32 || u == 0x85 || u == 0xA0 || u == 0x1680
        || (0x2000 <= u && u <= 0x200A) || u == 0x2028 || u == 0x2029 || u == 0x202F
        || u == 0x205F || u == 0x3000
}

pub fn is_whitespace(c: char) -> (r: bool)
    ensures
        r == is_ws(c),
{
    let u = c as u32;
    (9 <= u && u <= 13) || u == 32 || u == 0x85 || u == 0xA0 || u == 0x1680
        || (0x2000 <= u && u <= 0x200A) || u == 0x2028 || u == 0x2029 || u == 0x202F
        || u == 0x205F || u == 0x3000
}

pub open spec fn trim_start(s: Seq<char>) -> Seq<char>
    decreases s.len(),
{
    if s.len() > 0 && is_ws(s[0]) {
        trim_start(s.drop_first())
    } else {
        s
    }
}

pub open spec fn trim_end(s: Seq<char>) -> Seq<char>
    decreases s.len(),
{
    if s.len() > 0 && is_ws(s.last()) {
        trim_end(s.drop_last())
    } else {
        s
    }
}

/// `s` without white space at either end.
pub open spec fn trimmed(s: Seq<char>) -> Seq<char> {
    trim_end(trim_start(s))
}

/// Copies `v[from..to]`.
pub fn slice_chars(v: &Vec<char>, from: usize, to: usize) -> (r: Vec<char>)
    requires
        from <= to <= v@.len(),
    ensures
        r@ == v@.subrange(from as int, to as int),
{
    let mut out: Vec<char> = Vec::new();
    let mut i: usize = from;
    while i < to
        invariant
            from <= i <= to,
            to <= v@.len(),
            out@ == v@.subrange(from as int, i as int),
        decreases to - i,
    {
        out.push(v[i]);
        i = i + 1;
        assert(out@ =~= v@.subrange(from as int, i as int));
    }
    out
}

/// `v` without white space at either end.
pub fn trim_chars(v: &Vec<char>) -> (r: Vec<char>)
    ensures
        r@ == trimmed(v@),
{
    let n = v.len();
    let mut a: usize = 0;
    assert(v@.subrange(0, n as int) =~= v@);
    while a < n && is_whitespace(v[a])
        invariant
            a <= n,
            n == v@.len(),
            trim_start(v@) == trim_start(v@.subrange(a as int, n as int)),
        decreases n - a,
    {
        assert(v@.subrange(a as int, n as int).drop_first() =~= v@.subrange(a + 1, n as int));
        a = a + 1;
    }
    let ghost rest = v@.subrange(a as int, n as int);
    assert(trim_start(rest) == rest);
    let mut b: usize = n;
    while b > a && is_whitespace(v[b - 1])
        invariant
            a <= b <= n,
            n == v@.len(),
            rest == v@.subrange(a as int, n as int),
            trim_end(rest) == trim_end(v@.subrange(a as int, b as int)),
        decreases b - a,
    {
        assert(v@.subrange(a as int, b as int).drop_last() =~= v@.subrange(a as int, b - 1));
        b = b - 1;
    }
    let ghost kept = v@.subrange(a as int, b as int);
    assert(trim_end(kept) == kept);
    slice_chars(v, a, b)
}

/// Splits `v` at every `c`.
pub fn split_chars(v: &Vec<char>, c: char) -> (r: Vec<Vec<char>>)
    ensures
        r@.len() == split_char(v@, c).len(),
        forall|i: int| 0 <= i < r@.len() ==> #[trigger] r@[i]@ == split_char(v@, c)[i],
{
    let mut parts: Vec<Vec<char>> = Vec::new();
    let mut cur: Vec<char> = Vec::new();
    let mut i: usize = 0;
    while i < v.len()
        invariant
            i <= v@.len(),
            split_char(v@.subrange(0, i as int), c).len() == parts@.len() + 1,
            forall|j: int| 0 <= j < parts@.len() ==> #[trigger] parts@[j]@ == split_char(v@.subrange(0, i as int), c)[j],
            split_char(v@.subrange(0, i as int), c).last() == cur@,
        decreases v@.len() - i,
    {
        let ch = v[i];
        let ghost pre = v@.subrange(0, i as int);
        assert(v@.subrange(0, i + 1).drop_last() =~= pre);
        if ch == c {
            parts.push(cur);
            cur = Vec::new();
        } else {
            cur.push(ch);
        }
        i = i + 1;
    }
    assert(v@.subrange(0, v@.len() as int) =~= v@);
    parts.push(cur);
    parts
}

/// `s` with every occurrence of `pat`, taken left to right without overlap,
/// replaced by `rep`.
pub open spec fn replace_all(s: Seq<char>, pat: Seq<char>, rep: Seq<char>) -> Seq<char>
    decreases s.len(),
{
    if pat.len() == 0 || s.len() < pat.len() {
        s
    } else if s.subrange(0, pat.len() as int) == pat {
        rep + replace_all(s.subrange(pat.len() as int, s.len() as int), pat, rep)
    } else {
        seq![s[0]] + replace_all(s.drop_first(), pat, rep)
    }
}

fn occurs_at(s: &Vec<char>, i: usize, pat: &Vec<char>) -> (r: bool)
    requires
        i <= s@.len(),
    ensures
        r == (i + pat@.len() <= s@.len() && s@.subrange(i as int, i + pat@.len()) == pat@),
{
    if pat.len() > s.len() - i {
        return false;
    }
    let mut j: usize = 0;
    while j < pat.len()
        invariant
            j <= pat@.len(),
            i + pat@.len() <= s@.len(),
            s@.len() == s.len(),
            forall|k: int| 0 <= k < j ==> s@[i + k] == pat@[k],
        decreases pat@.len() - j,
    {
        if s[i + j] != pat[j] {
            assert(s@.subrange(i as int, i + pat@.len())[j as int] != pat@[j as int]);
            return false;
        }
        j = j + 1;
    }
    assert(s@.subrange(i as int, i + pat@.len()) =~= pat@);
    true
}

/// Replaces every occurrence of the non-empty `pat` in `s` by `rep`.
pub fn replace_chars(s: &Vec<char>, pat: &Vec<char>, rep: &Vec<char>) -> (r: Vec<char>)
    requires
        pat@.len() > 0,
    ensures
        r@ == replace_all(s@, pat@, rep@),
{
    let mut out: Vec<char> = Vec::new();
    let mut i: usize = 0;
    assert(s@.subrange(0, s@.len() as int) =~= s@);
    while i < s.len()
        invariant
            i <= s@.len(),
            pat@.len() > 0,
            out@ + replace_all(s@.subrange(i as int, s@.len() as int), pat@, rep@) == replace_all(s@, pat@, rep@),
        decreases s@.len() - i,
    {
        let ghost rest = s@.subrange(i as int, s@.len() as int);
        if occurs_at(s, i, pat) {
            assert(rest.subrange(0, pat@.len() as int) =~= s@.subrange(i as int, i + pat@.len()));
            assert(rest.subrange(pat@.len() as int, rest.len() as int) =~= s@.subrange(i + pat@.len(), s@.len() as int));
            push_all(&mut out, rep);
            assert(out@ + replace_all(s@.subrange(i + pat@.len(), s@.len() as int), pat@, rep@) =~= replace_all(s@, pat@, rep@));
            i = i + pat.len();
        } else {
            assert(rest.len() >= pat@.len() ==> rest.subrange(0, pat@.len() as int) =~= s@.subrange(i as int, i + pat@.len()));
            assert(rest.drop_first() =~= s@.subrange(i + 1, s@.len() as int));
            out.push(s[i]);
            assert(out@ + replace_all(s@.subrange(i + 1, s@.len() as int), pat@, rep@) =~= replace_all(s@, pat@, rep@));
            i = i + 1;
        }
    }
    let ghost tail = s@.subrange(i as int, s@.len() as int);
    assert(tail.len() == 0);
    assert(out@ + replace_all(tail, pat@, rep@) =~= out@);
    out
}

/// The segments that are not blank, each trimmed, in order.
pub open spec fn keep_nonblank(segs: Seq<Seq<char>>) -> Seq<Seq<char>>
    decreases segs.len(),
{
    if segs.len() == 0 {
        Seq::<Seq<char>>::empty()
    } else if trimmed(segs.last()).len() > 0 {
        keep_nonblank(segs.drop_last()).push(trimmed(segs.last()))
    } else {
        keep_nonblank(segs.drop_last())
    }
}

/// `s` split at `|`, each piece trimmed, blank pieces dropped, and the rest
/// joined with `joiner`.
pub open spec fn soft_joined(s: Seq<char>, joiner: Seq<char>) -> Seq<char> {
    join_with(keep_nonblank(split_char(s, '|')), joiner)
}

/// Splits `s` at `|`, drops the pieces that are blank and joins the trimmed
/// rest with `joiner`.
pub fn soft_join(s: &Vec<char>, joiner: &Vec<char>) -> (r: Vec<char>)
    ensures
        r@ == soft_joined(s@, joiner@),
{
    let parts = split_chars(s, '|');
    let ghost segs = split_char(s@, '|');
    let mut out: Vec<char> = Vec::new();
    let mut kept: usize = 0;
    let mut i: usize = 0;
    while i < parts.len()
        invariant
            i <= parts@.len(),
            parts@.len() == segs.len(),
            forall|j: int| 0 <= j < parts@.len() ==> #[trigger] parts@[j]@ == segs[j],
            kept == keep_nonblank(segs.subrange(0, i as int)).len(),
            kept <= i,
            out@ == join_with(keep_nonblank(segs.subrange(0, i as int)), joiner@),
        decreases parts@.len() - i,
    {
        let t = trim_chars(&parts[i]);
        let ghost sub = segs.subrange(0, i + 1);
        assert(sub.drop_last() =~= segs.subrange(0, i as int));
        assert(sub.last() == parts@[i as int]@);
        if t.len() > 0 {
            if kept > 0 {
                push_all(&mut out, joiner);
            }
            push_all(&mut out, &t);
            let ghost k = keep_nonblank(sub);
            assert(k.drop_last() =~= keep_nonblank(segs.subrange(0, i as int)));
            assert(out@ =~= join_with(k, joiner@));
            kept = kept + 1;
        }
        i = i + 1;
    }
    assert(segs.subrange(0, parts@.len() as int) =~= segs);
    out
}

/// `n / d` rounded to the nearest integer, a tie going to the even one.
pub open spec fn round_half_even(n: nat, d: nat) -> nat {
    let q = n / d;
    let r = n % d;
    if 2 * r < d {
        q
    } else if 2 * r > d {
        q + 1
    } else if q % 2 == 0 {
        q
    } else {
        q + 1
    }
}

pub fn div_round_half_even(n: u64, d: u64) -> (r: u64)
    requires
        0 < d,
        n < u64::MAX,
        d < u64::MAX / 2,
    ensures
        r as nat == round_half_even(n as nat, d as nat),
{
    let q = n / d;
    let rem = n % d;
    proof {
        assert(q * d <= n) by (nonlinear_arith)
            requires q == n / d, 0 < d;
        assert(q < u64::MAX) by (nonlinear_arith)
            requires q == n / d, 0 < d, n < u64::MAX;
    }
    if 2 * rem < d {
        q
    } else if 2 * rem > d {
        q + 1
    } else if q % 2 == 0 {
        q
    } else {
        q + 1
    }
}

/// Thousandths written with three decimals: `12345` is `12.345`.
pub open spec fn thousandths_text(m: nat) -> Seq<char> {
    let f = m % 1000;
    dec_digits(m / 1000) + seq!['.', digit_char(f / 100), digit_char((f / 10) % 10), digit_char(f % 10)]
}

/// Tenths written with one decimal: `425` is `42.5`.
pub open spec fn tenths_text(t: nat) -> Seq<char> {
    dec_digits(t / 10) + seq!['.'] + dec_digits(t % 10)
}

pub fn push_thousandths(out: &mut Vec<char>, m: u64)
    ensures
        final(out)@ == old(out)@ + thousandths_text(m as nat),
{
    push_decimal(out, m / 1000);
    let f: u64 = m % 1000;
    out.push('.');
    out.push(((f / 100) as u8 + 48) as char);
    out.push((((f / 10) % 10) as u8 + 48) as char);
    out.push(((f % 10) as u8 + 48) as char);
    assert(final(out)@ =~= old(out)@ + thousandths_text(m as nat));
}

pub fn push_tenths(out: &mut Vec<char>, t: u64)
    ensures
        final(out)@ == old(out)@ + tenths_text(t as nat),
{
    push_decimal(out, t / 10);
    out.push('.');
    push_decimal(out, t % 10);
    assert(final(out)@ =~= old(out)@ + tenths_text(t as nat));
}

/// The owned string of a literal.
pub fn owned(s: &str) -> (r: String)
    ensures
        r@ == s@,
{
    let v = chars_of(s);
    string_of(&v)
}

proof fn lemma_split_concat(x: Seq<char>, y: Seq<char>, c: char)
    ensures
        split_char(x + seq![c] + y, c) == split_char(x, c) + split_char(y, c),
    decreases y.len(),
{
    lemma_split_char_nonempty(x, c);
    if y.len() == 0 {
        assert(x + seq![c] + y =~= (x + seq![c]));
        assert((x + seq![c]).drop_last() =~= x);
        assert(split_char(y, c) == seq![Seq::<char>::empty()]);
        assert(split_char(x + seq![c] + y, c) =~= split_char(x, c) + split_char(y, c));
    } else {
        lemma_split_concat(x, y.drop_last(), c);
        lemma_split_char_nonempty(y.drop_last(), c);
        assert((x + seq![c] + y).drop_last() =~= x + seq![c] + y.drop_last());
        assert((x + seq![c] + y).last() == y.last());
        assert(split_char(x + seq![c] + y, c) =~= split_char(x, c) + split_char(y, c));
    }
}

proof fn lemma_keep_concat(p: Seq<Seq<char>>, q: Seq<Seq<char>>)
    ensures
        keep_nonblank(p + q) == keep_nonblank(p) + keep_nonblank(q),
    decreases q.len(),
{
    if q.len() == 0 {
        assert(p + q =~= p);
        assert(keep_nonblank(p) + keep_nonblank(q) =~= keep_nonblank(p));
    } else {
        lemma_keep_concat(p, q.drop_last());
        assert((p + q).drop_last() =~= p + q.drop_last());
        assert((p + q).last() == q.last());
        assert(keep_nonblank(p + q) =~= keep_nonblank(p) + keep_nonblank(q));
    }
}

proof fn lemma_blank_has_no_bar(w: Seq<char>)
    requires
        trimmed(w).len() == 0,
    ensures
        forall|i: int| 0 <= i < w.len() ==> is_ws(#[trigger] w[i]),
    decreases w.len(),
{
    if w.len() > 0 {
        if is_ws(w[0]) {
            lemma_blank_has_no_bar(w.drop_first());
            assert forall|i: int| 0 <= i < w.len() implies is_ws(#[trigger] w[i]) by {
                if i > 0 {
                    assert(w[i] == w.drop_first()[i - 1]);
                }
            }
        } else {
            lemma_trim_end_keeps_first(w);
        }
    }
}

proof fn lemma_trim_end_keeps_first(s: Seq<char>)
    requires
        s.len() > 0,
        !is_ws(s[0]),
    ensures
        trim_end(s).len() > 0,
    decreases s.len(),
{
    if is_ws(s.last()) {
        assert(s.len() > 1);
        assert(s.drop_last()[0] == s[0]);
        lemma_trim_end_keeps_first(s.drop_last());
    }
}

proof fn lemma_split_single(w: Seq<char>, c: char)
    requires
        forall|i: int| 0 <= i < w.len() ==> w[i] != c,
    ensures
        split_char(w, c) == seq![w],
    decreases w.len(),
{
    if w.len() > 0 {
        lemma_split_single(w.drop_last(), c);
        assert(w.drop_last().push(w.last()) =~= w);
        assert(split_char(w, c) =~= seq![w]);
    } else {
        assert(w =~= Seq::<char>::empty());
    }
}

/// A field that renders blank between two `|` leaves no trace in the joined
/// line: no empty segment and no doubled separator.
pub proof fn lemma_blank_segment_dropped(a: Seq<char>, w: Seq<char>, b: Seq<char>, joiner: Seq<char>)
    requires
        trimmed(w).len() == 0,
    ensures
        soft_joined(a + seq!['|'] + w + seq!['|'] + b, joiner) == soft_joined(a + seq!['|'] + b, joiner),
{
    lemma_blank_has_no_bar(w);
    assert(!is_ws('|'));
    lemma_split_single(w, '|');
    lemma_split_concat(a, w + seq!['|'] + b, '|');
    lemma_split_concat(w, b, '|');
    lemma_split_concat(a, b, '|');
    assert(a + seq!['|'] + w + seq!['|'] + b =~= a + seq!['|'] + (w + seq!['|'] + b));
    let sa = split_char(a, '|');
    let sb = split_char(b, '|');
    lemma_keep_concat(sa, seq![w] + sb);
    lemma_keep_concat(seq![w], sb);
    lemma_keep_concat(sa, sb);
    assert(seq![w].drop_last() =~= Seq::<Seq<char>>::empty());
    assert(seq![w].last() == w);
    assert(keep_nonblank(Seq::<Seq<char>>::empty()) == Seq::<Seq<char>>::empty());
    assert(keep_nonblank(seq![w]) =~= Seq::<Seq<char>>::empty());
    assert(keep_nonblank(seq![w]) + keep_nonblank(sb) =~= keep_nonblank(sb));
}

} // verus!

//! Decimal numbers in the forms that `f64`'s `FromStr` reads (a sign, digits
//! with an optional point, an optional exponent; the words for infinity and
//! not-a-number), read exactly: a finite number is kept as its digits and a
//! power of ten, and scaled values are floored.

use vstd::prelude::*;
use crate::text::{all_digits, digits_value, digit_value, is_digit, pow10, all_digits_in,
    lemma_digits_value_bound, chars_of, eq_ignore_ascii_case, chars_eq_ignore_ascii_case};

verus! {

// ── Powers of ten and digit values ──────────────────────────────────────────

proof fn lemma_pow10_positive(e: nat)
    ensures
        pow10(e) >= 1,
    decreases e,
{
    if e > 0 {
        lemma_pow10_positive((e - 1) as nat);
    }
}

proof fn lemma_pow10_add(a: nat, b: nat)
    ensures
        pow10(a + b) == pow10(a) * pow10(b),
    decreases b,
{
    if b > 0 {
        lemma_pow10_add(a, (b - 1) as nat);
        let x = pow10(a);
        let y = pow10((b - 1) as nat);
        assert(pow10(a + b) == 10 * pow10((a + b - 1) as nat));
        assert((a + b - 1) as nat == a + (b - 1) as nat);
        assert(pow10(b) == 10 * y);
        assert(10 * (x * y) == x * (10 * y)) by (nonlinear_arith);
        assert(pow10((a + b - 1) as nat) == x * y);
    } else {
        assert(pow10(0) == 1);
        assert(a + b == a);
    }
}

proof fn lemma_pow10_mono(a: nat, b: nat)
    requires
        a <= b,
    ensures
        pow10(a) <= pow10(b),
{
    lemma_pow10_add(a, (b - a) as nat);
    lemma_pow10_positive((b - a) as nat);
    let x = pow10(a);
    let y = pow10((b - a) as nat);
    assert(x * y >= x) by (nonlinear_arith)
        requires
            y >= 1,
    ;
}

pub(crate) proof fn lemma_pow10_38()
    ensures
        pow10(37) == 10_000_000_000_000_000_000_000_000_000_000_000_000,
        pow10(38) == 100_000_000_000_000_000_000_000_000_000_000_000_000,
{
    reveal_with_fuel(pow10, 39);
}

/// The value of digits written one after the other.
proof fn lemma_digits_value_concat(a: Seq<char>, b: Seq<char>)
    ensures
        digits_value(a + b) == digits_value(a) * pow10(b.len()) + digits_value(b),
    decreases b.len(),
{
    if b.len() == 0 {
        assert(a + b =~= a);
        assert(pow10(0) == 1);
        assert(digits_value(b) == 0);
    } else {
        lemma_digits_value_concat(a, b.drop_last());
        assert((a + b).drop_last() =~= a + b.drop_last());
        let x = digits_value(a);
        let p = pow10((b.len() - 1) as nat);
        let y = digits_value(b.drop_last());
        let d = digit_value(b.last());
        assert((a + b).last() == b.last());
        assert(digits_value(a + b) == digits_value(a + b.drop_last()) * 10 + d);
        assert(digits_value(b) == y * 10 + d);
        assert(pow10(b.len()) == 10 * p);
        assert((x * p + y) * 10 + d == x * (10 * p) + (y * 10 + d)) by (nonlinear_arith);
        assert(digits_value(a + b.drop_last()) == x * p + y);
    }
}

proof fn lemma_zeros_value(z: Seq<char>)
    requires
        forall|k: int| 0 <= k < z.len() ==> #[trigger] z[k] == '0',
    ensures
        digits_value(z) == 0,
    decreases z.len(),
{
    if z.len() > 0 {
        assert forall|k: int| 0 <= k < z.drop_last().len() implies #[trigger] z.drop_last()[k] == '0' by {
            assert(z.drop_last()[k] == z[k]);
        }
        lemma_zeros_value(z.drop_last());
        assert(z.last() == z[z.len() - 1]);
    }
}

proof fn lemma_all_digits_skip(d: Seq<char>, m: int)
    requires
        0 <= m <= d.len(),
        all_digits(d),
    ensures
        all_digits(d.skip(m)),
        all_digits(d.take(m)),
{
    assert forall|k: int| 0 <= k < d.skip(m).len() implies is_digit(#[trigger] d.skip(m)[k]) by {
        assert(d.skip(m)[k] == d[m + k]);
    }
    assert forall|k: int| 0 <= k < d.take(m).len() implies is_digit(#[trigger] d.take(m)[k]) by {
        assert(d.take(m)[k] == d[k]);
    }
}

/// Digits led by a non-zero digit lie between two powers of ten.
proof fn lemma_leading_digit_bounds(d: Seq<char>)
    requires
        d.len() > 0,
        all_digits(d),
        d[0] != '0',
    ensures
        pow10((d.len() - 1) as nat) <= digits_value(d) < pow10(d.len()),
{
    lemma_digits_value_bound(d, d.len() as int);
    assert(d.take(d.len() as int) =~= d);
    let h = seq![d[0]];
    assert(h + d.drop_first() =~= d);
    lemma_digits_value_concat(h, d.drop_first());
    assert(h.drop_last() =~= Seq::<char>::empty());
    assert(is_digit(d[0]));
    assert(h.last() == d[0]);
    assert(digits_value(Seq::<char>::empty()) == 0);
    assert(digits_value(h) == digit_value(d[0]));
    let x = digit_value(d[0]);
    let p = pow10(d.drop_first().len());
    let y = digits_value(d.drop_first());
    assert(x * p + y >= p) by (nonlinear_arith)
        requires
            x >= 1,
    ;
}

/// Dropping the last `j` digits divides by `10^j`, rounding down.
proof fn lemma_digits_value_shift(d: Seq<char>, j: nat)
    requires
        j <= d.len(),
        all_digits(d),
    ensures
        digits_value(d) / pow10(j) == digits_value(d.take(d.len() - j)),
{
    let m = d.len() - j;
    assert(d.take(m) + d.skip(m) =~= d);
    lemma_digits_value_concat(d.take(m), d.skip(m));
    lemma_all_digits_skip(d, m);
    lemma_digits_value_bound(d.skip(m), j as int);
    assert(d.skip(m).take(j as int) =~= d.skip(m));
    lemma_pow10_positive(j);
    vstd::arithmetic::div_mod::lemma_fundamental_div_mod_converse(
        digits_value(d) as int,
        pow10(j) as int,
        digits_value(d.take(m)) as int,
        digits_value(d.skip(m)) as int,
    );
}

/// `n * 10^p`, rounded down where `p` is negative.
pub open spec fn scale_floor(n: nat, p: int) -> nat {
    if p >= 0 {
        n * pow10(p as nat)
    } else {
        n / pow10((-p) as nat)
    }
}

/// Ten to the power `e`, for `e <= 38`.
fn pow10_u128(e: u32) -> (r: u128)
    requires
        e <= 38,
    ensures
        r == pow10(e as nat),
{
    proof {
        lemma_pow10_38();
    }
    let mut r: u128 = 1;
    let mut i: u32 = 0;
    while i < e
        invariant
            i <= e <= 38,
            r == pow10(i as nat),
            pow10(38) == 100_000_000_000_000_000_000_000_000_000_000_000_000,
        decreases e - i,
    {
        proof {
            lemma_pow10_mono((i + 1) as nat, 38);
        }
        r = r * 10;
        i = i + 1;
    }
    r
}

/// Value of the digits `d[start..end]`, at most 38 of them.
fn digits_to_u128(d: &Vec<char>, start: usize, end: usize) -> (r: u128)
    requires
        start <= end <= d.len(),
        end - start <= 38,
        all_digits(d@.subrange(start as int, end as int)),
    ensures
        r == digits_value(d@.subrange(start as int, end as int)),
{
    let ghost full = d@.subrange(start as int, end as int);
    proof {
        lemma_pow10_38();
    }
    let mut acc: u128 = 0;
    let mut i: usize = start;
    while i < end
        invariant
            start <= i <= end <= d.len(),
            end - start <= 38,
            full == d@.subrange(start as int, end as int),
            all_digits(full),
            acc == digits_value(full.take(i - start)),
            pow10(38) == 100_000_000_000_000_000_000_000_000_000_000_000_000,
        decreases end - i,
    {
        let ghost k = i - start;
        assert(full[k as int] == d@[i as int]);
        assert(full.take(k + 1).drop_last() =~= full.take(k as int));
        proof {
            lemma_digits_value_bound(full, k + 1);
            lemma_pow10_mono((k + 1) as nat, 38);
        }
        let dv: u128 = ((d[i] as u32) - 48) as u128;
        acc = acc * 10 + dv;
        i = i + 1;
    }
    assert(full.take(end - start) =~= full);
    acc
}

/// Above this an exponent's exact value no longer matters: no text held in
/// memory has that many digits.
const EXPONENT_CAP: u128 = 1_000_000_000_000_000_000_000;

/// Value of the digits `d[start..]`, or some number of at least
/// [`EXPONENT_CAP`] where that value reaches it.
fn capped_digits_value(d: &Vec<char>, start: usize) -> (r: u128)
    requires
        start <= d.len(),
        all_digits(d@.skip(start as int)),
    ensures
        digits_value(d@.skip(start as int)) < EXPONENT_CAP ==> r == digits_value(d@.skip(start as int)),
        digits_value(d@.skip(start as int)) >= EXPONENT_CAP ==> r >= EXPONENT_CAP,
        r < EXPONENT_CAP * 10,
{
    let ghost full = d@.skip(start as int);
    let mut acc: u128 = 0;
    let mut i: usize = start;
    while i < d.len()
        invariant
            start <= i <= d.len(),
            full == d@.skip(start as int),
            all_digits(full),
            digits_value(full.take(i - start)) < EXPONENT_CAP ==> acc == digits_value(full.take(i - start)),
            digits_value(full.take(i - start)) >= EXPONENT_CAP ==> acc >= EXPONENT_CAP,
            acc < EXPONENT_CAP * 10,
        decreases d.len() - i,
    {
        let ghost k = i - start;
        assert(full[k as int] == d@[i as int]);
        assert(full.take(k + 1).drop_last() =~= full.take(k as int));
        assert(is_digit(full[k as int]));
        let dv: u128 = ((d[i] as u32) - 48) as u128;
        if acc < EXPONENT_CAP {
            acc = acc * 10 + dv;
        }
        i = i + 1;
    }
    assert(full.take(d.len() - start) =~= full);
    acc
}

// ── Reading the text ────────────────────────────────────────────────────────

/// Index of the first `x` or `y` in `b`, or `b.len()` where neither occurs.
pub open spec fn first_of(b: Seq<char>, x: char, y: char) -> nat
    decreases b.len(),
{
    if b.len() == 0 {
        0
    } else if b[0] == x || b[0] == y {
        0
    } else {
        1 + first_of(b.drop_first(), x, y)
    }
}

proof fn lemma_first_of(b: Seq<char>, x: char, y: char)
    ensures
        first_of(b, x, y) <= b.len(),
        forall|j: int| 0 <= j < first_of(b, x, y) ==> #[trigger] b[j] != x && b[j] != y,
        first_of(b, x, y) < b.len() ==> (b[first_of(b, x, y) as int] == x || b[first_of(b, x, y) as int] == y),
    decreases b.len(),
{
    if b.len() > 0 && b[0] != x && b[0] != y {
        lemma_first_of(b.drop_first(), x, y);
        assert forall|j: int| 0 <= j < first_of(b, x, y) implies #[trigger] b[j] != x && b[j] != y by {
            if j > 0 {
                assert(b[j] == b.drop_first()[j - 1]);
            }
        }
    }
}

/// Index of the first `x` or `y` in `v[from..to]`, or `to` where neither occurs.
fn find_first_of(v: &Vec<char>, from: usize, to: usize, x: char, y: char) -> (r: usize)
    requires
        from <= to <= v.len(),
    ensures
        from <= r <= to,
        r == from + first_of(v@.subrange(from as int, to as int), x, y),
{
    let ghost b = v@.subrange(from as int, to as int);
    proof {
        lemma_first_of(b, x, y);
    }
    let mut k: usize = from;
    while k < to && v[k] != x && v[k] != y
        invariant
            from <= k <= to <= v.len(),
            b == v@.subrange(from as int, to as int),
            forall|j: int| from <= j < k ==> v@[j] != x && v@[j] != y,
        decreases to - k,
    {
        k = k + 1;
    }
    proof {
        let f = first_of(b, x, y) as int;
        if f < k - from {
            assert(b[f] == v@[from + f]);
        } else if f > k - from {
            assert(b[k - from] == v@[k as int]);
            assert(b[k - from] != x && b[k - from] != y);
        }
    }
    k
}

/// The sign of a number's text: whether it is `-`, and the text after an
/// optional `+` or `-`.
pub open spec fn split_sign(s: Seq<char>) -> (bool, Seq<char>) {
    if s.len() > 0 && (s[0] == '+' || s[0] == '-') {
        (s[0] == '-', s.drop_first())
    } else {
        (false, s)
    }
}

/// `v[from..]` as a vector of its own.
pub(crate) fn tail_of(v: &Vec<char>, from: usize) -> (r: Vec<char>)
    requires
        from <= v.len(),
    ensures
        r@ == v@.skip(from as int),
{
    let mut r: Vec<char> = Vec::new();
    let mut i: usize = from;
    while i < v.len()
        invariant
            from <= i <= v.len(),
            r@ == v@.subrange(from as int, i as int),
        decreases v.len() - i,
    {
        r.push(v[i]);
        i = i + 1;
        assert(r@ =~= v@.subrange(from as int, i as int));
    }
    assert(r@ =~= v@.skip(from as int));
    r
}

/// The sign of `v` and the text after it (see [`split_sign`]).
pub(crate) fn sign_split(v: &Vec<char>) -> (r: (bool, Vec<char>))
    ensures
        r.0 == split_sign(v@).0,
        r.1@ == split_sign(v@).1,
{
    if v.len() > 0 && (v[0] == '+' || v[0] == '-') {
        let rest = tail_of(v, 1);
        (v[0] == '-', rest)
    } else {
        let rest = tail_of(v, 0);
        assert(v@.skip(0) =~= v@);
        (false, rest)
    }
}

/// A number's text after its sign, as `f64`'s `FromStr` reads a finite
/// number: digits with at most one `.` and at least one digit, then
/// optionally `e` or `E`, an optional sign and at least one digit. The value
/// is `n * 10^q` for the pair `(n, q)` given: `n` is the value of the digits
/// read without the point.
pub open spec fn spec_numeral(b: Seq<char>) -> Option<(nat, int)> {
    let k = first_of(b, 'e', 'E');
    let m = b.take(k as int);
    let d = first_of(m, '.', '.');
    let ip = m.take(d as int);
    let fp = if d < m.len() { m.skip(d + 1int) } else { Seq::<char>::empty() };
    let ex = split_sign(if k < b.len() { b.skip(k + 1int) } else { Seq::<char>::empty() });
    let e: int = if ex.0 { -digits_value(ex.1) } else { digits_value(ex.1) as int };
    if (ip.len() > 0 || fp.len() > 0) && all_digits(ip) && all_digits(fp) && (k < b.len() ==> ex.1.len() > 0
        && all_digits(ex.1)) {
        Some((digits_value(ip + fp), e - fp.len()))
    } else {
        None
    }
}

/// `v[a..b]` followed by `v[c..d]`.
fn gather(v: &Vec<char>, a: usize, b: usize, c: usize, d: usize) -> (r: Vec<char>)
    requires
        a <= b <= v.len(),
        c <= d <= v.len(),
    ensures
        r@ == v@.subrange(a as int, b as int) + v@.subrange(c as int, d as int),
{
    let mut r: Vec<char> = Vec::new();
    let mut i: usize = a;
    while i < b
        invariant
            a <= i <= b <= v.len(),
            r@ == v@.subrange(a as int, i as int),
        decreases b - i,
    {
        r.push(v[i]);
        i = i + 1;
        assert(r@ =~= v@.subrange(a as int, i as int));
    }
    let mut j: usize = c;
    while j < d
        invariant
            a <= b <= v.len(),
            c <= j <= d <= v.len(),
            r@ == v@.subrange(a as int, b as int) + v@.subrange(c as int, j as int),
        decreases d - j,
    {
        r.push(v[j]);
        j = j + 1;
        assert(r@ =~= v@.subrange(a as int, b as int) + v@.subrange(c as int, j as int));
    }
    r
}

/// The number of `0` digits that lead `ds`.
fn leading_zeros(ds: &Vec<char>) -> (z: usize)
    ensures
        z <= ds.len(),
        forall|k: int| 0 <= k < z ==> #[trigger] ds@[k] == '0',
        z < ds.len() ==> ds@[z as int] != '0',
{
    let mut z: usize = 0;
    while z < ds.len() && ds[z] == '0'
        invariant
            z <= ds.len(),
            forall|k: int| 0 <= k < z ==> #[trigger] ds@[k] == '0',
        decreases ds.len() - z,
    {
        z = z + 1;
    }
    z
}

/// `floor(digits_value(ds) * 10^p)` where that is below `10^37`; `ds` are
/// digits whose first `z` are `0` and the next, if any, is not.
fn scaled_value(ds: &Vec<char>, z: usize, p: i128) -> (r: Option<u128>)
    requires
        all_digits(ds@),
        z <= ds.len(),
        forall|k: int| 0 <= k < z ==> #[trigger] ds@[k] == '0',
        z < ds.len() ==> ds@[z as int] != '0',
        -EXPONENT_CAP * 20 < p < EXPONENT_CAP * 20,
    ensures
        (digits_value(ds@) == 0) == (z == ds.len()),
        r == (if scale_floor(digits_value(ds@), p as int) < pow10(37) {
            Some(scale_floor(digits_value(ds@), p as int) as u128)
        } else {
            None
        }),
{
    let ghost tail = ds@.skip(z as int);
    let ghost n = digits_value(ds@);
    proof {
        assert(ds@.take(z as int) + tail =~= ds@);
        lemma_digits_value_concat(ds@.take(z as int), tail);
        assert forall|k: int| 0 <= k < ds@.take(z as int).len() implies #[trigger] ds@.take(z as int)[k] == '0' by {
            assert(ds@.take(z as int)[k] == ds@[k]);
        }
        lemma_zeros_value(ds@.take(z as int));
        assert(n == digits_value(tail));
        lemma_all_digits_skip(ds@, z as int);
        lemma_pow10_38();
        lemma_pow10_positive(37);
    }
    if z == ds.len() {
        proof {
            assert(tail.len() == 0);
            assert(n == 0);
            if p < 0 {
                lemma_pow10_positive((-p) as nat);
                assert(0nat / pow10((-p) as nat) == 0) by (nonlinear_arith)
                    requires
                        pow10((-p) as nat) >= 1,
                ;
            }
        }
        return Some(0);
    }
    let l: i128 = (ds.len() - z) as i128;
    proof {
        assert(tail[0] == ds@[z as int]);
        lemma_leading_digit_bounds(tail);
        lemma_pow10_positive((tail.len() - 1) as nat);
    }
    if l + p <= 0 {
        proof {
            let j = (-p) as nat;
            lemma_pow10_mono(tail.len(), j);
            assert(n < pow10(j));
            assert(n / pow10(j) == 0) by (nonlinear_arith)
                requires
                    n < pow10(j),
            ;
        }
        return Some(0);
    }
    if l + p > 37 {
        proof {
            if p >= 0 {
                let a = (tail.len() - 1) as nat;
                lemma_pow10_add(a, p as nat);
                lemma_pow10_mono(37, a + p as nat);
                let x = pow10(a);
                let y = pow10(p as nat);
                assert(n * y >= x * y) by (nonlinear_arith)
                    requires
                        n >= x,
                ;
            } else {
                let j = (-p) as nat;
                let a = (tail.len() - 1 - j) as nat;
                lemma_pow10_add(a, j);
                lemma_pow10_mono(37, a);
                lemma_pow10_positive(j);
                assert(a + j == tail.len() - 1);
                let x = pow10(a);
                let y = pow10(j);
                assert(n / y >= x) by (nonlinear_arith)
                    requires
                        n >= x * y,
                        y >= 1,
                ;
            }
        }
        return None;
    }
    if p >= 0 {
        let n_exec = digits_to_u128(ds, z, ds.len());
        assert(ds@.subrange(z as int, ds.len() as int) =~= tail);
        let f = pow10_u128(p as u32);
        proof {
            lemma_pow10_add(tail.len(), p as nat);
            lemma_pow10_mono(tail.len() + p as nat, 37);
            lemma_pow10_positive(p as nat);
            let x = pow10(tail.len());
            let y = pow10(p as nat);
            assert(n * y < x * y) by (nonlinear_arith)
                requires
                    n < x,
                    y >= 1,
            ;
        }
        Some(n_exec * f)
    } else {
        let m: usize = (l + p) as usize;
        let v = digits_to_u128(ds, z, z + m);
        proof {
            let j = (-p) as nat;
            lemma_digits_value_shift(tail, j);
            assert(tail.take(tail.len() - j) =~= ds@.subrange(z as int, z + m));
            lemma_all_digits_skip(tail, m as int);
            lemma_digits_value_bound(tail, m as int);
            lemma_pow10_mono(m as nat, 37);
        }
        Some(v)
    }
}

/// Digits led by `z` zeros have the value of the digits after them: zero
/// exactly where nothing follows the zeros.
proof fn lemma_leading_zeros(ds: Seq<char>, z: int)
    requires
        all_digits(ds),
        0 <= z <= ds.len(),
        forall|k: int| 0 <= k < z ==> #[trigger] ds[k] == '0',
        z < ds.len() ==> ds[z] != '0',
    ensures
        (digits_value(ds) == 0) == (z == ds.len()),
        digits_value(ds) < pow10(ds.len()),
{
    lemma_digits_value_bound(ds, ds.len() as int);
    assert(ds.take(ds.len() as int) =~= ds);
    assert forall|j: int| 0 <= j < ds.take(z).len() implies #[trigger] ds.take(z)[j] == '0' by {
        assert(ds.take(z)[j] == ds[j]);
    }
    assert(ds.take(z) + ds.skip(z) =~= ds);
    lemma_digits_value_concat(ds.take(z), ds.skip(z));
    lemma_zeros_value(ds.take(z));
    if z < ds.len() {
        lemma_all_digits_skip(ds, z);
        assert(ds.skip(z)[0] == ds[z]);
        lemma_leading_digit_bounds(ds.skip(z));
        lemma_pow10_positive((ds.len() - z - 1) as nat);
    } else {
        assert(ds.skip(z).len() == 0);
    }
}

/// Scaling by a power of ten far beyond the digits' length gives zero, or
/// at least `10^37`.
proof fn lemma_scale_extremes(n: nat, l: nat, p: int)
    requires
        n < pow10(l),
        p <= -(l as int) || p >= 37,
    ensures
        n == 0 ==> scale_floor(n, p) == 0,
        p < 0 ==> scale_floor(n, p) == 0,
        p >= 0 && n != 0 ==> scale_floor(n, p) >= pow10(37),
{
    if p < 0 {
        let j = (-p) as nat;
        lemma_pow10_mono(l, j);
        assert(n / pow10(j) == 0) by (nonlinear_arith)
            requires
                n < pow10(j),
        ;
    } else {
        let pp = p as nat;
        assert(0 * pow10(pp) == 0);
        if n != 0 {
            lemma_pow10_mono(37, pp);
            assert(n * pow10(pp) >= pow10(pp)) by (nonlinear_arith)
                requires
                    n >= 1,
            ;
        }
    }
}

/// Reads `b` as [`spec_numeral`] does: `None` where it is no number; for a
/// number `n * 10^q`, whether `n` is zero, and `floor(n * 10^(q + shift))`
/// where that is below `10^37` (`None` in its place where it is not).
#[verifier::rlimit(40)]
pub fn read_numeral(b: &Vec<char>, shift: u32) -> (r: Option<(bool, Option<u128>)>)
    requires
        shift <= 6,
    ensures
        r is None <==> spec_numeral(b@) is None,
        r matches Some(x) ==> ({
            let nq = spec_numeral(b@).unwrap();
            &&& x.0 == (nq.0 == 0)
            &&& x.1 == (if scale_floor(nq.0, nq.1 + shift) < pow10(37) {
                Some(scale_floor(nq.0, nq.1 + shift) as u128)
            } else {
                None
            })
        }),
{
    let len = b.len();
    let k = find_first_of(b, 0, len, 'e', 'E');
    let d = find_first_of(b, 0, k, '.', '.');
    let fs: usize = if d < k { d + 1 } else { k };
    let ghost m = b@.take(k as int);
    let ghost ip = m.take(d as int);
    let ghost fp = if d < m.len() { m.skip(d + 1int) } else { Seq::<char>::empty() };
    proof {
        assert(b@.subrange(0, len as int) =~= b@);
        assert(b@.subrange(0, k as int) =~= m);
        assert(ip =~= b@.subrange(0, d as int));
        assert(fp =~= b@.subrange(fs as int, k as int));
    }
    if d == 0 && fs == k {
        return None;
    }
    if !all_digits_in(b, 0, d) || !all_digits_in(b, fs, k) {
        return None;
    }
    let ghost exs = if k < b@.len() { b@.skip(k + 1int) } else { Seq::<char>::empty() };
    let mut eneg = false;
    let mut e: u128 = 0;
    if k < len {
        let ex = tail_of(b, k + 1);
        let (sg, ed) = sign_split(&ex);
        if ed.len() == 0 {
            return None;
        }
        if !all_digits_in(&ed, 0, ed.len()) {
            assert(ed@.subrange(0, ed.len() as int) =~= ed@);
            return None;
        }
        assert(ed@.subrange(0, ed.len() as int) =~= ed@);
        assert(ed@.skip(0) =~= ed@);
        eneg = sg;
        e = capped_digits_value(&ed, 0);
    }
    let ghost ev = digits_value(split_sign(exs).1);
    assert(ev < EXPONENT_CAP ==> e == ev);
    assert(ev >= EXPONENT_CAP ==> e >= EXPONENT_CAP);
    assert(eneg == split_sign(exs).0);
    let ds = gather(b, 0, d, fs, k);
    let z = leading_zeros(&ds);
    proof {
        assert(ds@ =~= ip + fp);
        assert forall|j: int| 0 <= j < ds@.len() implies is_digit(#[trigger] ds@[j]) by {
            if j < ip.len() {
                assert(ds@[j] == ip[j]);
            } else {
                assert(ds@[j] == fp[j - ip.len()]);
            }
        }
    }
    let ghost n = digits_value(ds@);
    let ghost q: int = (if split_sign(exs).0 { -ev } else { ev as int }) - fp.len();
    assert(spec_numeral(b@) == Some((n, q)));
    let fpl: usize = k - fs;
    if e >= EXPONENT_CAP {
        let zero = z == ds.len();
        proof {
            lemma_leading_zeros(ds@, z as int);
            lemma_scale_extremes(n, ds@.len(), q + shift);
            lemma_pow10_positive(37);
            assert(eneg ==> q + shift < 0);
        }
        if eneg || zero {
            return Some((zero, Some(0)));
        }
        return Some((false, None));
    }
    let p: i128 = (if eneg { -(e as i128) } else { e as i128 }) - (fpl as i128) + (shift as i128);
    assert(p == q + shift);
    let scaled = scaled_value(&ds, z, p);
    Some((z == ds.len(), scaled))
}

// ── Seconds and the special words ───────────────────────────────────────────

/// Seconds, written as `f64`'s `FromStr` reads them, as a whole number of
/// microseconds, rounded down. Zero, with either sign, is zero; `None` for
/// text that is no finite number, and for a value that a count of
/// microseconds in a `u64` cannot hold: a negative one, or one beyond
/// `u64::MAX`.
pub open spec fn spec_parse_micros(s: Seq<char>) -> Option<u64> {
    let sb = split_sign(s);
    match spec_numeral(sb.1) {
        Some(nq) => if nq.0 == 0 {
            Some(0)
        } else if !sb.0 && scale_floor(nq.0, nq.1 + 6) <= u64::MAX {
            Some(scale_floor(nq.0, nq.1 + 6) as u64)
        } else {
            None
        },
        None => None,
    }
}

/// Reads seconds as microseconds (see [`spec_parse_micros`]).
pub fn parse_micros(s: &str) -> (r: Option<u64>)
    ensures
        r == spec_parse_micros(s@),
{
    let v = chars_of(s);
    let (neg, b) = sign_split(&v);
    let read = read_numeral(&b, 6);
    match read {
        None => None,
        Some(res) => {
            if res.0 {
                Some(0)
            } else if neg {
                None
            } else {
                proof {
                    lemma_pow10_38();
                }
                match res.1 {
                    Some(x) => if x <= u64::MAX as u128 {
                        Some(x as u64)
                    } else {
                        None
                    },
                    None => None,
                }
            }
        },
    }
}

/// Whether `b` names infinity as `f64`'s `FromStr` reads it: `inf` or
/// `infinity`, in any case.
pub open spec fn is_infinity_word(b: Seq<char>) -> bool {
    eq_ignore_ascii_case(b, "inf"@) || eq_ignore_ascii_case(b, "infinity"@)
}

/// Whether `b` is `nan` in any case, as `f64`'s `FromStr` reads it.
pub open spec fn is_nan_word(b: Seq<char>) -> bool {
    eq_ignore_ascii_case(b, "nan"@)
}

/// Whether `b` names infinity (see [`is_infinity_word`]).
pub fn infinity_word(b: &Vec<char>) -> (r: bool)
    ensures
        r == is_infinity_word(b@),
{
    let short = chars_of("inf");
    let long = chars_of("infinity");
    chars_eq_ignore_ascii_case(b, &short) || chars_eq_ignore_ascii_case(b, &long)
}

/// Whether `b` is `nan` in any case (see [`is_nan_word`]).
pub fn nan_word(b: &Vec<char>) -> (r: bool)
    ensures
        r == is_nan_word(b@),
{
    let w = chars_of("nan");
    chars_eq_ignore_ascii_case(b, &w)
}

/// A plain run of digits is a number: its value, with no power of ten; it
/// has no sign and names neither infinity nor NaN.
pub proof fn lemma_plain_digits_numeral(d: Seq<char>)
    requires
        d.len() > 0,
        all_digits(d),
    ensures
        split_sign(d) == (false, d),
        spec_numeral(d) == Some((digits_value(d), 0int)),
        !is_nan_word(d),
        !is_infinity_word(d),
{
    assert(is_digit(d[0]));
    lemma_first_of(d, 'e', 'E');
    if first_of(d, 'e', 'E') < d.len() {
        assert(is_digit(d[first_of(d, 'e', 'E') as int]));
    }
    assert(d.take(d.len() as int) =~= d);
    lemma_first_of(d, '.', '.');
    if first_of(d, '.', '.') < d.len() {
        assert(is_digit(d[first_of(d, '.', '.') as int]));
    }
    assert(d + Seq::<char>::empty() =~= d);
    assert(digits_value(Seq::<char>::empty()) == 0);
    reveal_strlit("nan");
    reveal_strlit("inf");
    reveal_strlit("infinity");
    assert(crate::text::ascii_lower(d[0]) == d[0]);
}

} // verus!

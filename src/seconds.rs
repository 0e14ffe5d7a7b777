use vstd::prelude::*;
use crate::decimal::{
    all_digits, all_digits_in, digit_value, digits_value, find_char, find_char_in, is_digit,
    lemma_digits_value_prefix, parse_decimal,
};

verus! {

pub open spec fn pow10(n: nat) -> nat
    decreases n,
{
    if n == 0 {
        1
    } else {
        10 * pow10((n - 1) as nat)
    }
}

/// The whole part of `d * 10^(p - d.len())`, for a run of digits `d`: the
/// number formed by the first `p` digits, with zeros added where `p` goes
/// past the end.
pub open spec fn shifted(d: Seq<char>, p: int) -> nat {
    if p <= 0 {
        0
    } else if p <= d.len() {
        digits_value(d.subrange(0, p))
    } else {
        digits_value(d) * pow10((p - d.len()) as nat)
    }
}

/// An exponent: an optional sign, then one or more digits.
pub open spec fn exponent_value(x: Seq<char>) -> Option<int> {
    let signed = x.len() > 0 && (x[0] == '+' || x[0] == '-');
    let ds = if signed {
        x.drop_first()
    } else {
        x
    };
    if ds.len() > 0 && all_digits(ds) {
        Some(
            if signed && x[0] == '-' {
                -digits_value(ds)
            } else {
                digits_value(ds) as int
            },
        )
    } else {
        None
    }
}

pub open spec fn min_nat(a: nat, b: nat) -> nat {
    if a <= b {
        a
    } else {
        b
    }
}

/// Milliseconds in a mantissa `w.f` (either part may be empty, not both)
/// times ten to the `x`.
pub open spec fn mantissa_ms(mant: Seq<char>, x: int) -> Option<nat> {
    let d = find_char(mant, '.') as int;
    let w = mant.subrange(0, d);
    let f = if d < mant.len() {
        mant.subrange(d + 1, mant.len() as int)
    } else {
        Seq::empty()
    };
    if w.len() + f.len() > 0 && all_digits(w) && all_digits(f) {
        Some(shifted(w + f, w.len() + 3 + x))
    } else {
        None
    }
}

/// Milliseconds in an unsigned number, with an optional exponent after the
/// first `e` or `E`.
pub open spec fn unsigned_ms(body: Seq<char>) -> Option<nat> {
    let e = min_nat(find_char(body, 'e'), find_char(body, 'E')) as int;
    let x = if e < body.len() {
        exponent_value(body.subrange(e + 1, body.len() as int))
    } else {
        Some(0)
    };
    match x {
        Some(xv) => mantissa_ms(body.subrange(0, e), xv),
        None => None,
    }
}

/// Milliseconds in a non-negative count of seconds written as a decimal
/// number: an optional `+`, digits with at most one `.` and at least one
/// digit, and an optional exponent after `e` or `E`. What is below a
/// millisecond is dropped. `None` for any other text.
pub open spec fn seconds_ms(s: Seq<char>) -> Option<nat> {
    if s.len() > 0 && s[0] == '+' {
        unsigned_ms(s.drop_first())
    } else {
        unsigned_ms(s)
    }
}

pub open spec fn fit_opt(v: Option<nat>) -> Option<u64> {
    match v {
        Some(n) => if n <= u64::MAX {
            Some(n as u64)
        } else {
            None
        },
        None => None,
    }
}

/// `seconds_ms` where the result fits in a `u64`.
pub open spec fn seconds_ms_u64(s: Seq<char>) -> Option<u64> {
    fit_opt(seconds_ms(s))
}

proof fn lemma_pow10_positive(n: nat)
    ensures
        pow10(n) >= 1,
    decreases n,
{
    if n > 0 {
        lemma_pow10_positive((n - 1) as nat);
    }
}

proof fn lemma_pow10_grows(a: nat, b: nat)
    requires
        a <= b,
    ensures
        pow10(a) <= pow10(b),
    decreases b,
{
    if a < b {
        lemma_pow10_grows(a, (b - 1) as nat);
        lemma_pow10_positive((b - 1) as nat);
    }
}

proof fn lemma_pow10_values()
    ensures
        pow10(19) == 10000000000000000000nat,
        pow10(25) == 10000000000000000000000000nat,
{
    reveal_with_fuel(pow10, 26);
}

proof fn lemma_digits_value_below(x: Seq<char>)
    requires
        all_digits(x),
    ensures
        digits_value(x) < pow10(x.len()),
    decreases x.len(),
{
    if x.len() > 0 {
        let y = x.drop_last();
        assert(is_digit(x[x.len() - 1]));
        lemma_digits_value_below(y);
    }
}

/// The first `j` digits of `s[b..dot] + s[fs..m]`, where they fit in a `u64`.
fn digits_prefix(s: &str, b: usize, dot: usize, fs: usize, m: usize, j: usize) -> (r: Option<u64>)
    requires
        b <= dot <= fs <= m <= s@.len(),
        j <= (dot - b) + (m - fs),
        all_digits(s@.subrange(b as int, dot as int)),
        all_digits(s@.subrange(fs as int, m as int)),
    ensures
        ({
            let d = s@.subrange(b as int, dot as int) + s@.subrange(fs as int, m as int);
            r == if digits_value(d.subrange(0, j as int)) <= u64::MAX {
                Some(digits_value(d.subrange(0, j as int)) as u64)
            } else {
                None
            }
        }),
{
    let ghost d = s@.subrange(b as int, dot as int) + s@.subrange(fs as int, m as int);
    let wl = dot - b;
    let mut acc: u64 = 0;
    let mut i: usize = 0;
    assert(d.subrange(0, 0) =~= Seq::<char>::empty());
    while i < j
        invariant
            b <= dot <= fs <= m <= s@.len(),
            wl == dot - b,
            j <= (dot - b) + (m - fs),
            d == s@.subrange(b as int, dot as int) + s@.subrange(fs as int, m as int),
            all_digits(s@.subrange(b as int, dot as int)),
            all_digits(s@.subrange(fs as int, m as int)),
            i <= j,
            acc as nat == digits_value(d.subrange(0, i as int)),
        decreases j - i,
    {
        let c = if i < wl {
            s.get_char(b + i)
        } else {
            s.get_char(fs + (i - wl))
        };
        proof {
            if i < wl {
                assert(d[i as int] == s@.subrange(b as int, dot as int)[i as int]);
            } else {
                assert(d[i as int] == s@.subrange(fs as int, m as int)[i - wl]);
            }
            assert(d[i as int] == c);
            assert(is_digit(c));
            assert(d.subrange(0, i + 1).drop_last() =~= d.subrange(0, i as int));
        }
        let dv = (c as u32 - '0' as u32) as u64;
        if acc > (u64::MAX - dv) / 10 {
            proof {
                assert(digits_value(d.subrange(0, i + 1)) == acc * 10 + dv);
                assert(d.subrange(0, j as int).subrange(0, i + 1) =~= d.subrange(0, i + 1));
                lemma_digits_value_prefix(d.subrange(0, j as int), i + 1);
            }
            return None;
        }
        acc = acc * 10 + dv;
        i = i + 1;
    }
    Some(acc)
}

/// Milliseconds in the seconds written in `s[start..end]` (see `seconds_ms_u64`).
pub fn parse_seconds_ms(s: &str, start: usize, end: usize) -> (r: Option<u64>)
    requires
        start <= end <= s@.len(),
    ensures
        r == seconds_ms_u64(s@.subrange(start as int, end as int)),
{
    let ghost t = s@.subrange(start as int, end as int);
    if start < end && s.get_char(start) == '+' {
        assert(t.drop_first() =~= s@.subrange(start + 1, end as int));
        parse_unsigned_ms(s, start + 1, end)
    } else {
        parse_unsigned_ms(s, start, end)
    }
}

fn parse_unsigned_ms(s: &str, b: usize, end: usize) -> (r: Option<u64>)
    requires
        b <= end <= s@.len(),
    ensures
        r == fit_opt(unsigned_ms(s@.subrange(b as int, end as int))),
{
    let ghost body = s@.subrange(b as int, end as int);
    let e1 = find_char_in(s, 'e', b, end);
    let e2 = find_char_in(s, 'E', b, end);
    let e = if e1 <= e2 {
        e1
    } else {
        e2
    };
    assert(body.subrange(0, e - b) =~= s@.subrange(b as int, e as int));
    if e == end {
        return parse_mantissa_ms(s, b, e, false, Some(0), Ghost(0));
    }
    assert(body.subrange(e - b + 1, body.len() as int) =~= s@.subrange(e + 1, end as int));
    let ghost xv = exponent_value(s@.subrange(e + 1, end as int))->0;
    match parse_exponent(s, e + 1, end) {
        Some((neg, mag)) => parse_mantissa_ms(s, b, e, neg, mag, Ghost(xv)),
        None => None,
    }
}

/// Milliseconds in the mantissa `s[b..e]` times ten to the `x`, given as a
/// sign and a magnitude that is `None` past `u64::MAX`.
fn parse_mantissa_ms(
    s: &str,
    b: usize,
    e: usize,
    negative: bool,
    magnitude: Option<u64>,
    Ghost(x): Ghost<int>,
) -> (r: Option<u64>)
    requires
        b <= e <= s@.len(),
        magnitude is Some ==> x == if negative {
            -magnitude->0
        } else {
            magnitude->0 as int
        },
        magnitude is None ==> (negative <==> x < 0),
        magnitude is None ==> x > u64::MAX || x < -u64::MAX,
        magnitude is None ==> s@.len() - e >= 21,
    ensures
        r == fit_opt(mantissa_ms(s@.subrange(b as int, e as int), x)),
{
    let dot = find_char_in(s, '.', b, e);
    let ghost mant = s@.subrange(b as int, e as int);
    assert(mant.subrange(0, dot - b) =~= s@.subrange(b as int, dot as int));
    let fs = if dot < e {
        dot + 1
    } else {
        e
    };
    let ghost w = s@.subrange(b as int, dot as int);
    let ghost f = s@.subrange(fs as int, e as int);
    proof {
        if dot < e {
            assert(mant.subrange(dot - b + 1, mant.len() as int) =~= f);
        } else {
            assert(f =~= Seq::<char>::empty());
        }
    }
    if (dot - b) + (e - fs) == 0 || !all_digits_in(s, b, dot) || !all_digits_in(s, fs, e) {
        return None;
    }
    match magnitude {
        Some(mag) => shift_digits(s, b, dot, fs, e, negative, mag),
        None => {
            // the text is no longer than usize::MAX characters
            let n = s.unicode_len();
            assert(n <= u64::MAX);
            shift_digits_far(s, b, dot, fs, e, negative, Ghost(x))
        },
    }
}

/// The exponent written in `s[from..end]`, as its sign and its magnitude,
/// the latter `None` where it is past `u64::MAX`.
fn parse_exponent(s: &str, from: usize, end: usize) -> (r: Option<(bool, Option<u64>)>)
    requires
        from <= end <= s@.len(),
    ensures
        r is None <==> exponent_value(s@.subrange(from as int, end as int)) is None,
        r is Some ==> {
            let x = exponent_value(s@.subrange(from as int, end as int))->0;
            let (neg, mag) = r->0;
            &&& mag is Some ==> x == if neg {
                -mag->0
            } else {
                mag->0 as int
            }
            &&& mag is None ==> end - from >= 20
            &&& mag is None ==> (neg <==> x < 0)
            &&& mag is None ==> x > u64::MAX || x < -u64::MAX
        },
{
    let ghost x = s@.subrange(from as int, end as int);
    let mut negative = false;
    let mut ds = from;
    if ds < end && (s.get_char(ds) == '+' || s.get_char(ds) == '-') {
        negative = s.get_char(ds) == '-';
        ds = ds + 1;
    }
    assert(s@.subrange(ds as int, end as int) =~= (if x.len() > 0 && (x[0] == '+' || x[0]
        == '-') {
        x.drop_first()
    } else {
        x
    }));
    if ds == end || !all_digits_in(s, ds, end) {
        return None;
    }
    let magnitude = parse_decimal(s, ds, end);
    proof {
        let xs = s@.subrange(ds as int, end as int);
        if magnitude is None {
            // a magnitude past u64::MAX has at least twenty digits
            lemma_digits_value_below(xs);
            lemma_pow10_values();
            if xs.len() < 20 {
                lemma_pow10_grows(xs.len(), 19);
            }
        }
    }
    Some((negative, magnitude))
}

pub open spec fn fit_u64(v: nat) -> Option<u64> {
    if v <= u64::MAX {
        Some(v as u64)
    } else {
        None
    }
}

pub open spec fn joined(s: Seq<char>, b: int, dot: int, fs: int, m: int) -> Seq<char> {
    s.subrange(b, dot) + s.subrange(fs, m)
}

/// `shifted` of the digits `s[b..dot] + s[fs..m]` for an exponent whose
/// magnitude is past `u64::MAX`.
fn shift_digits_far(
    s: &str,
    b: usize,
    dot: usize,
    fs: usize,
    m: usize,
    negative: bool,
    Ghost(x): Ghost<int>,
) -> (r: Option<u64>)
    requires
        negative <==> x < 0,
        b <= dot <= fs <= m <= s@.len(),
        all_digits(s@.subrange(b as int, dot as int)),
        all_digits(s@.subrange(fs as int, m as int)),
        x < 0 ==> (dot - b) + 3 + x <= 0,
        x >= 0 ==> x + 3 - (m - fs) >= 25,
    ensures
        r == fit_u64(shifted(joined(s@, b as int, dot as int, fs as int, m as int), (dot - b) + 3 + x)),
{
    let ghost d = joined(s@, b as int, dot as int, fs as int, m as int);
    if negative {
        return Some(0);
    }
    let dlen = (dot - b) + (m - fs);
    let all = digits_prefix(s, b, dot, fs, m, dlen);
    assert(d.subrange(0, dlen as int) =~= d);
    let ghost k = ((dot - b) + 3 + x - d.len()) as nat;
    proof {
        lemma_pow10_grows(25, k);
        lemma_pow10_values();
        lemma_pow10_positive(k);
        assert(digits_value(d) * pow10(k) >= digits_value(d)) by (nonlinear_arith)
            requires
                pow10(k) >= 1,
        ;
        if digits_value(d) > 0 {
            assert(digits_value(d) * pow10(k) >= pow10(k)) by (nonlinear_arith)
                requires
                    digits_value(d) >= 1,
            ;
        }
    }
    match all {
        Some(v) => if v == 0 {
            assert(digits_value(d) * pow10(k) == 0) by (nonlinear_arith)
                requires
                    digits_value(d) == 0,
            ;
            Some(0)
        } else {
            None
        },
        None => None,
    }
}

/// `shifted` of the digits `s[b..dot] + s[fs..m]` by the exponent `mag`,
/// negated where `negative`.
fn shift_digits(s: &str, b: usize, dot: usize, fs: usize, m: usize, negative: bool, mag: u64) -> (r:
    Option<u64>)
    requires
        b <= dot <= fs <= m <= s@.len(),
        all_digits(s@.subrange(b as int, dot as int)),
        all_digits(s@.subrange(fs as int, m as int)),
    ensures
        r == fit_u64(
            shifted(
                joined(s@, b as int, dot as int, fs as int, m as int),
                (dot - b) + 3 + if negative {
                    -mag
                } else {
                    mag as int
                },
            ),
        ),
{
    let ghost d = joined(s@, b as int, dot as int, fs as int, m as int);
    let dlen = (dot - b) + (m - fs);
    let p: i128 = if negative {
        (dot - b) as i128 + 3 - mag as i128
    } else {
        (dot - b) as i128 + 3 + mag as i128
    };
    let ghost pv: int = (dot - b) + 3 + if negative {
        -mag
    } else {
        mag as int
    };
    assert(p == pv);
    assert(d.len() == dlen);
    if p <= 0 {
        return Some(0);
    }
    if p <= dlen as i128 {
        return digits_prefix(s, b, dot, fs, m, p as usize);
    }
    let all = digits_prefix(s, b, dot, fs, m, dlen);
    assert(d.subrange(0, dlen as int) =~= d);
    let zeros: u128 = (p - dlen as i128) as u128;
    let ghost z0 = zeros as nat;
    proof {
        lemma_pow10_positive(z0);
        assert(digits_value(d) * pow10(z0) >= digits_value(d)) by (nonlinear_arith)
            requires
                pow10(z0) >= 1,
        ;
    }
    let mut acc: u64 = match all {
        Some(v) => v,
        None => {
            return None;
        },
    };
    if acc == 0 {
        assert(digits_value(d) * pow10(z0) == 0) by (nonlinear_arith)
            requires
                digits_value(d) == 0,
        ;
        return Some(0);
    }
    let mut z: u128 = 0;
    assert(pow10(0) == 1);
    assert(z0 == pv - d.len());
    assert(shifted(d, pv) == digits_value(d) * pow10(z0));
    while z < zeros
        invariant
            z <= zeros,
            z0 == zeros as nat,
            d == joined(s@, b as int, dot as int, fs as int, m as int),
            pv == (dot - b) + 3 + if negative {
                -mag
            } else {
                mag as int
            },
            shifted(d, pv) == digits_value(d) * pow10(z0),
            acc >= 1,
            acc as nat == digits_value(d) * pow10(z as nat),
        decreases zeros - z,
    {
        proof {
            assert(digits_value(d) * pow10((z + 1) as nat) == acc * 10) by (nonlinear_arith)
                requires
                    acc == digits_value(d) * pow10(z as nat),
                    pow10((z + 1) as nat) == 10 * pow10(z as nat),
            ;
        }
        if acc > u64::MAX / 10 {
            proof {
                assert(acc * 10 > u64::MAX) by (nonlinear_arith)
                    requires
                        acc > u64::MAX / 10,
                ;
                lemma_pow10_grows((z + 1) as nat, zeros as nat);
                assert(digits_value(d) * pow10(zeros as nat) >= digits_value(d) * pow10(
                    (z + 1) as nat,
                )) by (nonlinear_arith)
                    requires
                        pow10((z + 1) as nat) <= pow10(zeros as nat),
                ;
            }
            return None;
        }
        acc = acc * 10;
        z = z + 1;
    }
    Some(acc)
}

} // verus!

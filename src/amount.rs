use vstd::prelude::*;

verus! {

/// Ten-thousandths in one currency unit: amounts keep four decimal places.
pub const UNITS_PER_WHOLE: u64 = 10000;

/// The largest whole part of an amount whose ten-thousandths fit in an `i64`.
const MAX_WHOLE: u64 = 922_337_203_685_477;

pub open spec fn is_digit(c: char) -> bool {
    '0' <= c && c <= '9'
}

pub open spec fn all_digits(s: Seq<char>) -> bool {
    forall|i: int| 0 <= i < s.len() ==> is_digit(#[trigger] s[i])
}

/// The number that a run of decimal digits writes.
pub open spec fn digits_value(s: Seq<char>) -> nat
    decreases s.len(),
{
    if s.len() == 0 {
        0
    } else {
        digits_value(s.drop_last()) * 10 + ((s.last() as u32) - 48) as nat
    }
}

/// The length of a leading `-` or `+`.
pub open spec fn sign_len(s: Seq<char>) -> int {
    if s.len() > 0 && (s[0] == '-' || s[0] == '+') {
        1
    } else {
        0
    }
}

/// The text after the sign.
pub open spec fn unsigned_part(s: Seq<char>) -> Seq<char> {
    s.skip(sign_len(s))
}

/// `b` is digits with a point at `k`, or digits alone when `k` is its length;
/// at least one digit in all.
pub open spec fn point_at(b: Seq<char>, k: int) -> bool {
    ||| (k == b.len() && b.len() > 0 && all_digits(b))
    ||| (0 <= k < b.len() && b[k] == '.' && b.len() > 1 && all_digits(b.take(k)) && all_digits(
        b.skip(k + 1),
    ))
}

/// A plain decimal: an optional sign, digits, and an optional point with
/// digits after it.
pub open spec fn is_decimal(s: Seq<char>) -> bool {
    exists|k: int| point_at(unsigned_part(s), k)
}

/// The first four fractional digits in ten-thousandths; further digits are
/// dropped.
pub open spec fn fraction_units(f: Seq<char>) -> nat {
    if f.len() >= 4 {
        digits_value(f.take(4))
    } else if f.len() == 3 {
        digits_value(f) * 10
    } else if f.len() == 2 {
        digits_value(f) * 100
    } else if f.len() == 1 {
        digits_value(f) * 1000
    } else {
        0
    }
}

/// The size of a decimal in ten-thousandths, truncated toward zero.
pub open spec fn magnitude(s: Seq<char>) -> nat {
    let b = unsigned_part(s);
    let k = choose|k: int| point_at(b, k);
    digits_value(b.take(k)) * 10000 + if k < b.len() {
        fraction_units(b.skip(k + 1))
    } else {
        0
    }
}

/// The value of a decimal in ten-thousandths, truncated toward zero.
pub open spec fn decimal_units(s: Seq<char>) -> int {
    if s.len() > 0 && s[0] == '-' {
        -magnitude(s)
    } else {
        magnitude(s) as int
    }
}

/// `x`, or `cap + 1` where `x` exceeds `cap`.
pub open spec fn capped(x: nat, cap: u64) -> int {
    if x > cap {
        cap + 1
    } else {
        x as int
    }
}

proof fn lemma_digits_step(s: Seq<char>, from: int, i: int)
    requires
        0 <= from <= i < s.len(),
    ensures
        digits_value(s.subrange(from, i + 1)) == digits_value(s.subrange(from, i)) * 10 + ((s[i]
            as u32) - 48) as nat,
{
    assert(s.subrange(from, i + 1).drop_last() =~= s.subrange(from, i));
}

/// Reads the digits of `s` from `from` up to `to`: `None` unless all are
/// digits, otherwise their value, or `cap + 1` where that value exceeds `cap`.
fn scan_digits(s: &str, from: usize, to: usize, cap: u64) -> (r: Option<u64>)
    requires
        from <= to <= s@.len(),
        cap < 1_000_000_000_000_000_000,
    ensures
        r is Some <==> all_digits(s@.subrange(from as int, to as int)),
        r is Some ==> r->0 == capped(digits_value(s@.subrange(from as int, to as int)), cap),
{
    let mut v: u64 = 0;
    let mut i: usize = from;
    assert(s@.subrange(from as int, from as int) =~= Seq::<char>::empty());
    while i < to
        invariant
            from <= i <= to <= s@.len(),
            cap < 1_000_000_000_000_000_000,
            all_digits(s@.subrange(from as int, i as int)),
            v == capped(digits_value(s@.subrange(from as int, i as int)), cap),
        decreases to - i,
    {
        let c = s.get_char(i);
        if c < '0' || c > '9' {
            assert(!is_digit(s@.subrange(from as int, to as int)[i - from]));
            return None;
        }
        proof {
            lemma_digits_step(s@, from as int, i as int);
            assert forall|j: int| 0 <= j < i + 1 - from implies is_digit(
                #[trigger] s@.subrange(from as int, i + 1)[j],
            ) by {
                if j < i - from {
                    assert(s@.subrange(from as int, i + 1)[j] == s@.subrange(
                        from as int,
                        i as int,
                    )[j]);
                }
            }
        }
        let d = (c as u32 - 48) as u64;
        if v > cap {
            proof {
                let before = digits_value(s@.subrange(from as int, i as int));
                assert(before * 10 >= before) by (nonlinear_arith)
                    requires
                        before >= 0,
                ;
            }
        } else {
            proof {
                assert(v * 10 + d <= cap * 10 + 9) by (nonlinear_arith)
                    requires
                        v <= cap,
                        d <= 9,
                ;
            }
            v = v * 10 + d;
            if v > cap {
                v = cap + 1;
            }
        }
        i = i + 1;
    }
    Some(v)
}

/// The parts in which an amount of ten-thousandths is written out: whether it
/// is below zero, its whole units and its four decimal places.
#[derive(Clone, Copy, Debug, PartialEq, Eq, Structural)]
pub struct Decimal {
    pub negative: bool,
    pub whole: u64,
    pub fraction: u64,
}

/// The sign, whole units and ten-thousandths of `v`.
pub fn to_decimal(v: i64) -> (r: Decimal)
    ensures
        r.negative == (v < 0),
        r.fraction < UNITS_PER_WHOLE,
        r.whole * UNITS_PER_WHOLE + r.fraction == if v < 0 {
            -v
        } else {
            v as int
        },
{
    let size: u64 = if v < 0 {
        (0i128 - v as i128) as u64
    } else {
        v as u64
    };
    Decimal { negative: v < 0, whole: size / UNITS_PER_WHOLE, fraction: size % UNITS_PER_WHOLE }
}

/// Ten to the power `n`.
pub open spec fn pow10(n: nat) -> nat
    decreases n,
{
    if n == 0 {
        1
    } else {
        10 * pow10((n - 1) as nat)
    }
}

proof fn lemma_digits_below(s: Seq<char>)
    requires
        all_digits(s),
    ensures
        digits_value(s) < pow10(s.len()),
    decreases s.len(),
{
    if s.len() > 0 {
        let init = s.drop_last();
        assert(all_digits(init)) by {
            assert forall|i: int| 0 <= i < init.len() implies is_digit(#[trigger] init[i]) by {
                assert(init[i] == s[i]);
            }
        }
        lemma_digits_below(init);
        assert(is_digit(s[s.len() - 1]));
        let v = digits_value(init);
        let d = ((s.last() as u32) - 48) as nat;
        let p = pow10(init.len());
        assert(v * 10 + d < 10 * p) by (nonlinear_arith)
            requires
                v < p,
                d <= 9,
        ;
    }
}

/// The point, where there is one, stands at one place only.
proof fn lemma_point_unique(b: Seq<char>, k1: int, k2: int)
    requires
        point_at(b, k1),
        point_at(b, k2),
    ensures
        k1 == k2,
{
    if k1 != k2 {
        if k1 == b.len() {
            assert(!is_digit(b[k2]));
        } else if k2 == b.len() {
            assert(!is_digit(b[k1]));
        } else if k1 < k2 {
            assert(!is_digit(b.take(k2)[k1]));
        } else {
            assert(!is_digit(b.take(k1)[k2]));
        }
    }
}

/// A character that is neither a digit nor a point rules out every reading.
proof fn lemma_stray_char(b: Seq<char>, j: int)
    requires
        0 <= j < b.len(),
        !is_digit(b[j]),
        b[j] != '.',
    ensures
        forall|k: int| !point_at(b, k),
{
    assert forall|k: int| !point_at(b, k) by {
        if 0 <= k < b.len() && b[k] == '.' {
            if j < k {
                assert(b.take(k)[j] == b[j]);
            } else {
                assert(b.skip(k + 1)[j - k - 1] == b[j]);
            }
        }
    }
}

/// A character after the point that is not a digit rules out every reading.
proof fn lemma_bad_fraction(b: Seq<char>, p: int, j: int)
    requires
        0 <= p < j < b.len(),
        b[p] == '.',
        !is_digit(b[j]),
    ensures
        forall|k: int| !point_at(b, k),
{
    assert forall|k: int| !point_at(b, k) by {
        if k == b.len() {
            assert(!is_digit(b[p]));
        } else if 0 <= k < b.len() && b[k] == '.' {
            if k == p {
                assert(b.skip(k + 1)[j - k - 1] == b[j]);
            } else if k < p {
                assert(b.skip(k + 1)[p - k - 1] == b[p]);
            } else {
                assert(b.take(k)[p] == b[p]);
            }
        }
    }
}

/// Reads a plain decimal amount in ten-thousandths: an optional `-` or `+`,
/// digits, and an optional point with digits after it. Digits past the fourth
/// decimal place are dropped, so the value is truncated toward zero. `None`
/// when the text is no such decimal or its size does not fit in an `i64`.
pub fn parse_amount(s: &str) -> (r: Option<i64>)
    ensures
        r == (if is_decimal(s@) && magnitude(s@) <= i64::MAX {
            Some(decimal_units(s@) as i64)
        } else {
            None
        }),
{
    let n = s.unicode_len();
    let mut start: usize = 0;
    let mut negative = false;
    if n > 0 {
        let c = s.get_char(0);
        if c == '-' {
            start = 1;
            negative = true;
        } else if c == '+' {
            start = 1;
        }
    }
    let ghost b = unsigned_part(s@);
    assert(start == sign_len(s@));
    assert(b.len() == n - start);
    let mut k: usize = start;
    while k < n && s.get_char(k) != '.'
        invariant
            start <= k <= n,
            n == s@.len(),
            forall|j: int| start <= j < k ==> s@[j] != '.',
        decreases n - k,
    {
        k = k + 1;
    }
    let ghost p = k - start;
    assert(b.take(p) =~= s@.subrange(start as int, k as int));
    let whole = match scan_digits(s, start, k, MAX_WHOLE) {
        Some(w) => w,
        None => {
            proof {
                let j = choose|j: int|
                    0 <= j < k - start && !is_digit(#[trigger] s@.subrange(start as int, k as int)[j]);
                assert(b[j] == s@.subrange(start as int, k as int)[j]);
                lemma_stray_char(b, j);
            }
            return None;
        },
    };
    if k == n && n == start {
        return None;
    }
    let mut units: u64 = 0;
    if k < n {
        assert(b[p] == '.');
        if n - start < 2 {
            assert forall|kk: int| !point_at(b, kk) by {
                if kk == b.len() {
                    assert(!is_digit(b[p]));
                }
            }
            return None;
        }
        assert(b.skip(p + 1) =~= s@.subrange(k + 1, n as int));
        match scan_digits(s, k + 1, n, 0) {
            Some(_) => {},
            None => {
                proof {
                    let j = choose|j: int|
                        0 <= j < n - k - 1 && !is_digit(
                            #[trigger] s@.subrange(k + 1, n as int)[j],
                        );
                    assert(b[p + 1 + j] == s@.subrange(k + 1, n as int)[j]);
                    lemma_bad_fraction(b, p, p + 1 + j);
                }
                return None;
            },
        }
        let end: usize = if n - (k + 1) >= 4 { k + 5 } else { n };
        let len: usize = end - (k + 1);
        let ghost f = s@.subrange(k + 1, end as int);
        assert(all_digits(f)) by {
            assert forall|i: int| 0 <= i < f.len() implies is_digit(#[trigger] f[i]) by {
                assert(f[i] == s@.subrange(k + 1, n as int)[i]);
            }
        }
        proof {
            lemma_digits_below(f);
            reveal_with_fuel(pow10, 5);
        }
        let first = match scan_digits(s, k + 1, end, 9999) {
            Some(v) => v,
            None => 0,
        };
        assert(first == digits_value(f));
        if len >= 4 {
            assert(b.skip(p + 1).take(4) =~= f);
            units = first;
        } else if len == 3 {
            units = first * 10;
        } else if len == 2 {
            units = first * 100;
        } else if len == 1 {
            units = first * 1000;
        }
        assert(units == fraction_units(b.skip(p + 1)));
        assert(point_at(b, p));
    } else {
        assert(b =~= s@.subrange(start as int, k as int));
        assert(point_at(b, p));
    }
    proof {
        let chosen = choose|kk: int| point_at(b, kk);
        lemma_point_unique(b, chosen, p);
    }
    if whole > MAX_WHOLE {
        return None;
    }
    let size: u64 = whole * UNITS_PER_WHOLE + units;
    if size > i64::MAX as u64 {
        return None;
    }
    let v = size as i64;
    if negative {
        Some(-v)
    } else {
        Some(v)
    }
}

} // verus!

use vstd::prelude::*;

verus! {

/// Amounts are counted in ten-thousandths of a currency unit: four digits
/// after the decimal point.
pub const SCALE: i64 = 10000;

/// The most digits after the decimal point that an amount may have.
pub const FRACTION_DIGITS: usize = 4;

/// The byte of `.`.
pub const DOT: u8 = 46;

/// The byte of `0`.
pub const ZERO: u8 = 48;

/// The byte of `-`.
pub const MINUS: u8 = 45;

/// Whether `b` is the byte of a decimal digit.
pub open spec fn is_digit(b: u8) -> bool {
    ZERO <= b <= ZERO + 9
}

/// Whether every byte of `s` is a decimal digit.
pub open spec fn all_digits(s: Seq<u8>) -> bool {
    forall|i: int| 0 <= i < s.len() ==> is_digit(#[trigger] s[i])
}

/// The number that the decimal digits `s` spell.
pub open spec fn digits_value(s: Seq<u8>) -> int
    decreases s.len(),
{
    if s.len() == 0 {
        0
    } else {
        digits_value(s.drop_last()) * 10 + (s.last() - ZERO)
    }
}

/// Ten to the power `n`.
pub open spec fn pow10(n: nat) -> int
    decreases n,
{
    if n == 0 {
        1
    } else {
        10 * pow10((n - 1) as nat)
    }
}

/// The index of the first `.` in `s`, or `s.len()` where there is none.
pub open spec fn first_dot(s: Seq<u8>) -> int
    decreases s.len(),
{
    if s.len() == 0 {
        0
    } else if s[0] == DOT {
        0
    } else {
        1 + first_dot(s.skip(1))
    }
}

/// The amount that the text `s` writes, in ten-thousandths: one or more
/// digits, then optionally a `.` and one to four digits. `None` where `s`
/// has another shape or the amount exceeds `i64::MAX`.
pub open spec fn amount_of(s: Seq<u8>) -> Option<int> {
    let p = first_dot(s);
    let whole = s.take(p);
    let frac = if p < s.len() {
        s.skip(p + 1)
    } else {
        Seq::<u8>::empty()
    };
    if whole.len() >= 1 && all_digits(whole) && all_digits(frac) && frac.len()
        <= FRACTION_DIGITS && (p < s.len() ==> frac.len() >= 1) {
        let v = digits_value(whole) * SCALE + digits_value(frac) * pow10(
            (FRACTION_DIGITS - frac.len()) as nat,
        );
        if v <= i64::MAX {
            Some(v)
        } else {
            None
        }
    } else {
        None
    }
}

proof fn lemma_digits_value_nonneg(s: Seq<u8>)
    requires
        all_digits(s),
    ensures
        digits_value(s) >= 0,
    decreases s.len(),
{
    if s.len() > 0 {
        lemma_digits_value_nonneg(s.drop_last());
    }
}

proof fn lemma_first_dot(s: Seq<u8>)
    ensures
        0 <= first_dot(s) <= s.len(),
        forall|i: int| 0 <= i < first_dot(s) ==> s[i] != DOT,
        first_dot(s) < s.len() ==> s[first_dot(s)] == DOT,
    decreases s.len(),
{
    if s.len() > 0 && s[0] != DOT {
        lemma_first_dot(s.skip(1));
        assert forall|i: int| 0 <= i < first_dot(s) implies s[i] != DOT by {
            if i > 0 {
                assert(s[i] == s.skip(1)[i - 1]);
            }
        }
    }
}

/// The decimal digits of `n`, most significant first, with no leading zero.
pub open spec fn digits_of(n: nat) -> Seq<u8>
    decreases n,
{
    if n < 10 {
        seq![(ZERO + n) as u8]
    } else {
        digits_of(n / 10).push((ZERO + n % 10) as u8)
    }
}

/// The digit byte of `d`.
pub open spec fn digit(d: int) -> u8 {
    (ZERO + d) as u8
}

/// How an amount of ten-thousandths `v` is written: a `-` for a negative
/// amount, the whole units, a `.`, and exactly four digits.
pub open spec fn amount_text(v: int) -> Seq<u8> {
    let m = if v < 0 {
        -v
    } else {
        v
    };
    let f = m % SCALE as int;
    let sign = if v < 0 {
        seq![MINUS]
    } else {
        Seq::<u8>::empty()
    };
    sign + digits_of((m / SCALE as int) as nat) + seq![
        DOT,
        digit(f / 1000),
        digit(f / 100 % 10),
        digit(f / 10 % 10),
        digit(f % 10),
    ]
}

/// Appends the decimal digits of `n` to `out`.
fn push_digits(n: u64, out: &mut Vec<u8>)
    ensures
        final(out)@ == old(out)@ + digits_of(n as nat),
    decreases n,
{
    if n >= 10 {
        push_digits(n / 10, out);
    }
    out.push(ZERO + (n % 10) as u8);
    proof {
        if n >= 10 {
            assert(digits_of(n as nat) == digits_of((n / 10) as nat).push((ZERO + n % 10) as u8));
        }
    }
}

/// Writes an amount of ten-thousandths in decimal, with four digits after
/// the point.
pub fn format_amount(v: i64) -> (r: Vec<u8>)
    ensures
        r@ == amount_text(v as int),
{
    let m: u64 = if v < 0 {
        (-(v as i128)) as u64
    } else {
        v as u64
    };
    let mut out: Vec<u8> = Vec::new();
    if v < 0 {
        out.push(MINUS);
    }
    push_digits(m / 10000, &mut out);
    let f = m % 10000;
    out.push(DOT);
    out.push(ZERO + (f / 1000) as u8);
    out.push(ZERO + (f / 100 % 10) as u8);
    out.push(ZERO + (f / 10 % 10) as u8);
    out.push(ZERO + (f % 10) as u8);
    proof {
        assert(out@ =~= amount_text(v as int));
    }
    out
}

proof fn lemma_digits_of(n: nat)
    ensures
        digits_of(n).len() >= 1,
        all_digits(digits_of(n)),
        digits_value(digits_of(n)) == n,
    decreases n,
{
    let s = digits_of(n);
    if n < 10 {
        assert(s.drop_last() =~= Seq::<u8>::empty());
        assert(s.last() as int == ZERO + n);
        assert(digits_value(s) == digits_value(s.drop_last()) * 10 + (s.last() - ZERO));
    } else {
        lemma_digits_of(n / 10);
        assert(s.drop_last() =~= digits_of(n / 10));
        assert(s.last() as int == ZERO + n % 10);
        assert(digits_value(s) == digits_value(s.drop_last()) * 10 + (s.last() - ZERO));
        assert forall|i: int| 0 <= i < s.len() implies is_digit(#[trigger] s[i]) by {
            if i < s.len() - 1 {
                assert(s[i] == digits_of(n / 10)[i]);
            }
        }
    }
}

/// The first `.` of `s` is at `p` when `s[p]` is one and none comes before.
proof fn lemma_first_dot_at(s: Seq<u8>, p: int)
    requires
        0 <= p < s.len(),
        s[p] == DOT,
        forall|i: int| 0 <= i < p ==> s[i] != DOT,
    ensures
        first_dot(s) == p,
{
    lemma_first_dot(s);
}

/// Reading back what `amount_text` writes for a non-negative amount gives
/// that amount.
pub proof fn lemma_amount_round_trip(v: i64)
    requires
        v >= 0,
    ensures
        amount_of(amount_text(v as int)) == Some(v as int),
{
    let w = (v / SCALE) as nat;
    let f = (v % SCALE) as int;
    let ds = digits_of(w);
    let tail = seq![
        DOT,
        digit(f / 1000),
        digit(f / 100 % 10),
        digit(f / 10 % 10),
        digit(f % 10),
    ];
    let t = amount_text(v as int);
    assert(t =~= ds + tail);
    lemma_digits_of(w);
    let p = ds.len() as int;
    assert forall|i: int| 0 <= i < p implies t[i] != DOT by {
        assert(t[i] == ds[i]);
        assert(is_digit(ds[i]));
    }
    assert(t[p] == DOT);
    lemma_first_dot_at(t, p);
    assert(t.take(p) =~= ds);
    let frac = t.skip(p + 1);
    assert(frac =~= seq![digit(f / 1000), digit(f / 100 % 10), digit(f / 10 % 10), digit(f % 10)]);
    let f3 = frac.drop_last();
    let f2 = f3.drop_last();
    let f1 = f2.drop_last();
    assert(0 <= f < 10000);
    assert(f1 =~= seq![digit(f / 1000)]);
    assert(f1.drop_last() =~= Seq::<u8>::empty());
    assert(f1.last() as int == ZERO + f / 1000);
    assert(f2.last() as int == ZERO + f / 100 % 10);
    assert(f3.last() as int == ZERO + f / 10 % 10);
    assert(frac.last() as int == ZERO + f % 10);
    assert(digits_value(f1) == digits_value(f1.drop_last()) * 10 + (f1.last() - ZERO));
    assert(digits_value(f1) == f / 1000);
    assert(digits_value(f2) == f / 1000 * 10 + f / 100 % 10);
    assert(digits_value(f3) == (f / 1000 * 10 + f / 100 % 10) * 10 + f / 10 % 10);
    assert(digits_value(frac) == ((f / 1000 * 10 + f / 100 % 10) * 10 + f / 10 % 10) * 10 + f
        % 10);
    assert(((f / 1000 * 10 + f / 100 % 10) * 10 + f / 10 % 10) * 10 + f % 10 == f) by (
    nonlinear_arith)
        requires
            0 <= f < 10000,
    ;
    assert(pow10(0) == 1);
    assert(v == w * SCALE + f);
}

/// Where the whole part of an amount is counted up to: past it, the amount
/// exceeds `i64::MAX` whatever follows.
const WHOLE_LIMIT: u64 = 1_000_000_000_000_000_000;

/// The position of the first `.` in `s`, or its length where there is none.
fn find_dot(s: &[u8]) -> (r: usize)
    ensures
        r == first_dot(s@),
{
    let mut i: usize = 0;
    while i < s.len() && s[i] != DOT
        invariant
            0 <= i <= s@.len(),
            forall|j: int| 0 <= j < i ==> s@[j] != DOT,
        decreases s@.len() - i,
    {
        i += 1;
    }
    proof {
        lemma_first_dot(s@);
    }
    i
}

/// The value of the digits `s[lo..hi]`, saturated at `WHOLE_LIMIT`, or
/// `None` where one of them is no digit.
fn digits_in(s: &[u8], lo: usize, hi: usize) -> (r: Option<u64>)
    requires
        lo <= hi <= s@.len(),
    ensures
        r.is_some() == all_digits(s@.subrange(lo as int, hi as int)),
        r.is_some() ==> r.unwrap() == (if digits_value(s@.subrange(lo as int, hi as int))
            < WHOLE_LIMIT {
            digits_value(s@.subrange(lo as int, hi as int))
        } else {
            WHOLE_LIMIT as int
        }),
{
    let mut v: u64 = 0;
    let mut i: usize = lo;
    while i < hi
        invariant
            lo <= i <= hi <= s@.len(),
            all_digits(s@.subrange(lo as int, i as int)),
            digits_value(s@.subrange(lo as int, i as int)) >= 0,
            v == (if digits_value(s@.subrange(lo as int, i as int)) < WHOLE_LIMIT {
                digits_value(s@.subrange(lo as int, i as int))
            } else {
                WHOLE_LIMIT as int
            }),
        decreases hi - i,
    {
        let b = s[i];
        let ghost next = s@.subrange(lo as int, i + 1);
        proof {
            assert(next.drop_last() =~= s@.subrange(lo as int, i as int));
        }
        if b < ZERO || b > ZERO + 9 {
            proof {
                assert(next[i - lo] == b);
                assert(s@.subrange(lo as int, hi as int)[i - lo] == b);
                assert(!is_digit(s@.subrange(lo as int, hi as int)[i - lo]));
            }
            return None;
        }
        let d = (b - ZERO) as u64;
        if v < WHOLE_LIMIT {
            v = v * 10 + d;
            if v > WHOLE_LIMIT {
                v = WHOLE_LIMIT;
            }
        }
        i += 1;
    }
    Some(v)
}

/// Reads an amount written in decimal, with at most four digits after the
/// point, as a count of ten-thousandths.
pub fn parse_amount(text: &[u8]) -> (r: Option<i64>)
    ensures
        r.is_some() == amount_of(text@).is_some(),
        r.is_some() ==> r.unwrap() == amount_of(text@).unwrap(),
{
    let n = text.len();
    let p = find_dot(text);
    proof {
        lemma_first_dot(text@);
        assert(text@.take(p as int) =~= text@.subrange(0, p as int));
        if p < n {
            assert(text@.skip(p + 1) =~= text@.subrange(p + 1, n as int));
        }
    }
    if p == 0 {
        return None;
    }
    let whole = match digits_in(text, 0, p) {
        Some(w) => w,
        None => {
            return None;
        },
    };
    let flen: usize = if p < n {
        n - p - 1
    } else {
        0
    };
    if p < n && (flen == 0 || flen > FRACTION_DIGITS) {
        return None;
    }
    let lo: usize = if p < n {
        p + 1
    } else {
        n
    };
    proof {
        if p == n {
            assert(text@.subrange(n as int, n as int) =~= Seq::<u8>::empty());
        }
    }
    let frac = match digits_in(text, lo, n) {
        Some(f) => f,
        None => {
            return None;
        },
    };
    let ghost fs = text@.subrange(lo as int, n as int);
    proof {
        lemma_digits_value_nonneg(fs);
        lemma_digits_value_nonneg(text@.subrange(0, p as int));
        lemma_small_digits(fs);
        lemma_pow10_small();
        assert(fs.len() == flen);
        assert(frac as int == digits_value(fs));
        assert(frac < pow10(flen as nat));
    }
    if whole >= WHOLE_LIMIT {
        return None;
    }
    let scaled = scale_fraction(frac, flen);
    let v: i128 = whole as i128 * SCALE as i128 + scaled as i128;
    if v > i64::MAX as i128 {
        None
    } else {
        Some(v as i64)
    }
}

proof fn lemma_pow10_small()
    ensures
        pow10(0) == 1,
        pow10(1) == 10,
        pow10(2) == 100,
        pow10(3) == 1000,
        pow10(4) == 10000,
{
    assert(pow10(0) == 1);
    assert(pow10(1) == 10);
    assert(pow10(2) == 100);
    assert(pow10(3) == 1000);
    assert(pow10(4) == 10000);
}

/// The value of `flen` fraction digits `frac`, in ten-thousandths.
fn scale_fraction(frac: u64, flen: usize) -> (r: u64)
    requires
        flen <= FRACTION_DIGITS,
        frac < pow10(flen as nat),
    ensures
        r == frac * pow10((FRACTION_DIGITS - flen) as nat),
        r < SCALE,
{
    proof {
        lemma_pow10_small();
    }
    if flen == 1 {
        frac * 1000
    } else if flen == 2 {
        frac * 100
    } else if flen == 3 {
        frac * 10
    } else if flen == 4 {
        frac
    } else {
        0
    }
}

/// At most four digits spell less than ten thousand.
proof fn lemma_small_digits(s: Seq<u8>)
    requires
        all_digits(s),
    ensures
        s.len() <= FRACTION_DIGITS ==> digits_value(s) < pow10(s.len()),
    decreases s.len(),
{
    if s.len() > 0 {
        lemma_small_digits(s.drop_last());
        assert(pow10(s.len()) == 10 * pow10((s.len() - 1) as nat));
    }
}

} // verus!

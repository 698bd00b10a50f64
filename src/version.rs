//! Version strings of the form `<digits>.<digits>`, compared as decimal numbers.
//!
//! A version is read as the decimal number `major.minor`: `"551.23"` is 551.23.
//! Two versions are ordered by their integer parts, and on equal integer parts by
//! their fractional parts aligned to the same number of digits, which is the order
//! of the decimal numbers themselves. So `"551.1"` and `"551.10"` are equal, and
//! `"551.9"` is above `"551.10"`. No floating-point rounding is involved.
//!
//! Versions are read from their UTF-8 bytes; digits and the dot are ASCII, so a
//! string with any other character is no version.
use vstd::prelude::*;
use vstd::string::StringSliceAdditionalSpecFns;

use crate::error::CheckError;

verus! {

/// Outcome of comparing an installed version with an available one.
#[derive(Clone, Copy, Debug, PartialEq, Eq, Structural)]
pub enum ComparisonResult {
    /// The installed version is below the available one.
    Outdated,
    /// Both versions are the same number.
    UpToDate,
    /// The installed version is above the available one.
    Ahead,
}

pub open spec fn is_digit(b: u8) -> bool {
    48 <= b <= 57
}

pub open spec fn all_digits(s: Seq<u8>) -> bool {
    forall|i: int| 0 <= i < s.len() ==> is_digit(#[trigger] s[i])
}

/// `p` is the position of the dot in `s`, with at least one digit on each side
/// and nothing but digits around it.
pub open spec fn dot_at(s: Seq<u8>, p: int) -> bool {
    &&& 0 < p < s.len() - 1
    &&& s[p] == 46
    &&& all_digits(s.take(p))
    &&& all_digits(s.skip(p + 1))
}

/// `s` is a well-formed version: `<digits>.<digits>`.
pub open spec fn is_version(s: Seq<u8>) -> bool {
    exists|p: int| dot_at(s, p)
}

pub open spec fn dot_of(s: Seq<u8>) -> int {
    choose|p: int| dot_at(s, p)
}

pub open spec fn major_of(s: Seq<u8>) -> Seq<u8> {
    s.take(dot_of(s))
}

pub open spec fn minor_of(s: Seq<u8>) -> Seq<u8> {
    s.skip(dot_of(s) + 1)
}

/// The number that a sequence of decimal digits denotes.
pub open spec fn digits_value(s: Seq<u8>) -> nat
    decreases s.len(),
{
    if s.len() == 0 {
        0
    } else {
        digits_value(s.drop_last()) * 10 + (s.last() - 48) as nat
    }
}

pub open spec fn zeros(n: nat) -> Seq<u8> {
    Seq::new(n, |i: int| 48u8)
}

/// The fractional digits of `s` extended with zeros to `width` digits.
pub open spec fn minor_scaled(s: Seq<u8>, width: nat) -> nat {
    digits_value(minor_of(s) + zeros((width - minor_of(s).len()) as nat))
}

pub open spec fn order_of(x: nat, y: nat) -> ComparisonResult {
    if x < y {
        ComparisonResult::Outdated
    } else if x == y {
        ComparisonResult::UpToDate
    } else {
        ComparisonResult::Ahead
    }
}

/// How `installed` stands to `available`, both read as decimal numbers.
pub open spec fn version_order(installed: Seq<u8>, available: Seq<u8>) -> ComparisonResult {
    let width = if minor_of(installed).len() < minor_of(available).len() {
        minor_of(available).len()
    } else {
        minor_of(installed).len()
    };
    if digits_value(major_of(installed)) != digits_value(major_of(available)) {
        order_of(digits_value(major_of(installed)), digits_value(major_of(available)))
    } else {
        order_of(minor_scaled(installed, width), minor_scaled(available, width))
    }
}

proof fn lemma_dot_unique(s: Seq<u8>, p: int, q: int)
    requires
        dot_at(s, p),
        dot_at(s, q),
    ensures
        p == q,
{
    if p < q {
        assert(s.skip(p + 1)[q - p - 1] == s[q]);
    } else if q < p {
        assert(s.skip(q + 1)[p - q - 1] == s[p]);
    }
}

proof fn lemma_leading_zeros(k: nat, s: Seq<u8>)
    ensures
        digits_value(zeros(k) + s) == digits_value(s),
    decreases s.len(),
{
    if s.len() == 0 {
        lemma_zeros_value(k);
        assert(zeros(k) + s =~= zeros(k));
    } else {
        lemma_leading_zeros(k, s.drop_last());
        assert((zeros(k) + s).drop_last() =~= zeros(k) + s.drop_last());
    }
}

proof fn lemma_zeros_value(k: nat)
    ensures
        digits_value(zeros(k)) == 0,
    decreases k,
{
    if k > 0 {
        lemma_zeros_value((k - 1) as nat);
        assert(zeros(k).drop_last() =~= zeros((k - 1) as nat));
    }
}

proof fn lemma_shift_keeps_order(x: nat, y: nat, dx: nat, dy: nat)
    requires
        x < y,
        dx <= 9,
    ensures
        x * 10 + dx < y * 10 + dy,
{
    assert(x * 10 + 10 <= y * 10) by (nonlinear_arith)
        requires
            x < y,
    ;
}

/// The position of the dot if `s` is a well-formed version.
fn find_dot(s: &[u8]) -> (r: Option<usize>)
    ensures
        match r {
            Some(p) => dot_at(s@, p as int),
            None => !is_version(s@),
        },
{
    let n = s.len();
    let mut dot: Option<usize> = None;
    let mut i: usize = 0;
    while i < n
        invariant
            i <= n == s@.len(),
            match dot {
                None => all_digits(s@.take(i as int)),
                Some(p) => p < i && s@[p as int] == 46 && all_digits(s@.take(p as int))
                    && all_digits(s@.subrange(p + 1, i as int)),
            },
        decreases n - i,
    {
        let b = s[i];
        if 48 <= b && b <= 57 {
            assert(s@.take(i + 1) =~= s@.take(i as int).push(b));
            assert(dot matches Some(p) ==> s@.subrange(p + 1, i + 1) =~= s@.subrange(p + 1, i as int).push(b));
        } else if b == 46 && dot.is_none() {
            dot = Some(i);
            assert(s@.subrange(i + 1, i + 1) =~= Seq::<u8>::empty());
        } else {
            proof {
                assert forall|p: int| !dot_at(s@, p) by {
                    if dot_at(s@, p) {
                        if p < i {
                            assert(s@.skip(p + 1)[i - p - 1] == s@[i as int]);
                        } else if p > i {
                            assert(s@.take(p)[i as int] == s@[i as int]);
                        } else {
                            match dot {
                                Some(q) => {
                                    assert(s@.take(p)[q as int] == s@[q as int]);
                                },
                                None => {},
                            }
                        }
                    }
                }
            }
            return None;
        }
        i = i + 1;
    }
    match dot {
        Some(p) => {
            if 0 < p && p + 1 < n {
                assert(s@.subrange(p + 1, n as int) =~= s@.skip(p + 1));
                Some(p)
            } else {
                proof {
                    assert forall|q: int| !dot_at(s@, q) by {
                        if dot_at(s@, q) {
                            lemma_dot_unique_partial(s@, p as int, q);
                        }
                    }
                }
                None
            }
        },
        None => {
            proof {
                assert forall|q: int| !dot_at(s@, q) by {
                    if dot_at(s@, q) {
                        assert(s@.take(n as int)[q] == s@[q]);
                    }
                }
            }
            None
        },
    }
}

proof fn lemma_dot_unique_partial(s: Seq<u8>, p: int, q: int)
    requires
        0 <= p < s.len(),
        s[p] == 46,
        all_digits(s.take(p)),
        all_digits(s.subrange(p + 1, s.len() as int)),
        dot_at(s, q),
    ensures
        p == q,
{
    if p < q {
        assert(s.subrange(p + 1, s.len() as int)[q - p - 1] == s[q]);
    } else if q < p {
        assert(s.skip(q + 1)[p - q - 1] == s[p]);
    }
}

/// The digits of one part of `s`, aligned to `width` digits: the integer part
/// (`leading`) with zeros in front, the fractional part with zeros behind.
pub open spec fn aligned(s: Seq<u8>, p: int, width: nat, leading: bool) -> Seq<u8> {
    if leading {
        zeros((width - p) as nat) + s.take(p)
    } else {
        s.skip(p + 1) + zeros((width - (s.len() - p - 1)) as nat)
    }
}

pub open spec fn part_len(s: Seq<u8>, p: int, leading: bool) -> int {
    if leading {
        p
    } else {
        s.len() - p - 1
    }
}

fn aligned_digit(s: &[u8], p: usize, width: usize, leading: bool, k: usize) -> (r: u8)
    requires
        dot_at(s@, p as int),
        part_len(s@, p as int, leading) <= width,
        k < width,
    ensures
        r == aligned(s@, p as int, width as nat, leading)[k as int],
        is_digit(r),
{
    if leading {
        let pad = width - p;
        if k < pad {
            48
        } else {
            assert(s@.take(p as int)[k - pad] == s@[k - pad]);
            s[k - pad]
        }
    } else {
        let f = s.len() - p - 1;
        if k < f {
            assert(s@.skip(p + 1)[k as int] == s@[p + 1 + k]);
            s[p + 1 + k]
        } else {
            48
        }
    }
}

/// Compares one part of two versions, both aligned to `width` digits.
fn compare_aligned(a: &[u8], pa: usize, b: &[u8], pb: usize, width: usize, leading: bool) -> (r:
    ComparisonResult)
    requires
        dot_at(a@, pa as int),
        dot_at(b@, pb as int),
        part_len(a@, pa as int, leading) <= width,
        part_len(b@, pb as int, leading) <= width,
    ensures
        r == order_of(
            digits_value(aligned(a@, pa as int, width as nat, leading)),
            digits_value(aligned(b@, pb as int, width as nat, leading)),
        ),
{
    let ghost xa = aligned(a@, pa as int, width as nat, leading);
    let ghost xb = aligned(b@, pb as int, width as nat, leading);
    let mut ord = ComparisonResult::UpToDate;
    let mut k: usize = 0;
    assert(xa.take(0) =~= Seq::<u8>::empty());
    assert(xb.take(0) =~= Seq::<u8>::empty());
    while k < width
        invariant
            k <= width,
            xa == aligned(a@, pa as int, width as nat, leading),
            xb == aligned(b@, pb as int, width as nat, leading),
            xa.len() == width,
            xb.len() == width,
            dot_at(a@, pa as int),
            dot_at(b@, pb as int),
            part_len(a@, pa as int, leading) <= width,
            part_len(b@, pb as int, leading) <= width,
            ord == order_of(digits_value(xa.take(k as int)), digits_value(xb.take(k as int))),
        decreases width - k,
    {
        let da = aligned_digit(a, pa, width, leading, k);
        let db = aligned_digit(b, pb, width, leading, k);
        proof {
            let va = digits_value(xa.take(k as int));
            let vb = digits_value(xb.take(k as int));
            assert(xa.take(k + 1).drop_last() =~= xa.take(k as int));
            assert(xb.take(k + 1).drop_last() =~= xb.take(k as int));
            assert(digits_value(xa.take(k + 1)) == va * 10 + (da - 48) as nat);
            assert(digits_value(xb.take(k + 1)) == vb * 10 + (db - 48) as nat);
            if va < vb {
                lemma_shift_keeps_order(va, vb, (da - 48) as nat, (db - 48) as nat);
            } else if vb < va {
                lemma_shift_keeps_order(vb, va, (db - 48) as nat, (da - 48) as nat);
            }
        }
        if ord == ComparisonResult::UpToDate {
            if da < db {
                ord = ComparisonResult::Outdated;
            } else if da > db {
                ord = ComparisonResult::Ahead;
            }
        }
        k = k + 1;
    }
    assert(xa.take(width as int) =~= xa);
    assert(xb.take(width as int) =~= xb);
    ord
}

/// A version is never outdated against itself.
pub proof fn lemma_equal_not_outdated(v: Seq<u8>)
    requires
        is_version(v),
    ensures
        version_order(v, v) == ComparisonResult::UpToDate,
{
}

/// Swapping the two versions turns `Outdated` into `Ahead` and back, so of two
/// versions at most one is outdated against the other.
pub proof fn lemma_order_swaps(a: Seq<u8>, b: Seq<u8>)
    requires
        is_version(a),
        is_version(b),
    ensures
        version_order(a, b) == ComparisonResult::Outdated <==> version_order(b, a)
            == ComparisonResult::Ahead,
        version_order(a, b) == ComparisonResult::UpToDate <==> version_order(b, a)
            == ComparisonResult::UpToDate,
{
}

pub open spec fn pow10(n: nat) -> nat
    decreases n,
{
    if n == 0 {
        1
    } else {
        10 * pow10((n - 1) as nat)
    }
}

/// The digits of `s` without its dot, read as one number: `s` is that number
/// divided by `pow10` of the count of fractional digits.
pub open spec fn numerator(s: Seq<u8>) -> nat {
    digits_value(major_of(s) + minor_of(s))
}

proof fn lemma_pow10_positive(n: nat)
    ensures
        pow10(n) > 0,
    decreases n,
{
    if n > 0 {
        lemma_pow10_positive((n - 1) as nat);
    }
}

proof fn lemma_pow10_add(x: nat, y: nat)
    ensures
        pow10(x + y) == pow10(x) * pow10(y),
    decreases y,
{
    if y > 0 {
        let y1 = (y - 1) as nat;
        lemma_pow10_add(x, y1);
        assert(pow10(x + y) == 10 * pow10(x + y1));
        assert(pow10(y) == 10 * pow10(y1));
        assert(pow10(x) * (10 * pow10(y1)) == 10 * (pow10(x) * pow10(y1))) by (nonlinear_arith);
        assert(pow10(x + y) == pow10(x) * pow10(y));
    } else {
        assert(pow10(0) == 1);
        assert(x + y == x);
    }
}

proof fn lemma_concat_value(x: Seq<u8>, y: Seq<u8>)
    ensures
        digits_value(x + y) == digits_value(x) * pow10(y.len()) + digits_value(y),
    decreases y.len(),
{
    if y.len() == 0 {
        assert(x + y =~= x);
        assert(pow10(0) == 1);
        assert(digits_value(y) == 0);
    } else {
        lemma_concat_value(x, y.drop_last());
        assert((x + y).drop_last() =~= x + y.drop_last());
        assert((x + y).last() == y.last());
        assert(pow10(y.len()) == 10 * pow10((y.len() - 1) as nat));
        let vx = digits_value(x);
        let p = pow10((y.len() - 1) as nat);
        let vy = digits_value(y.drop_last());
        assert((vx * p + vy) * 10 == vx * (10 * p) + vy * 10) by (nonlinear_arith);
        assert(digits_value(y) == vy * 10 + (y.last() - 48) as nat);
        assert(digits_value(x + y) == (vx * p + vy) * 10 + (y.last() - 48) as nat);
    }
}

proof fn lemma_value_below_pow10(y: Seq<u8>)
    requires
        all_digits(y),
    ensures
        digits_value(y) < pow10(y.len()),
    decreases y.len(),
{
    if y.len() > 0 {
        let z = y.drop_last();
        assert(all_digits(z)) by {
            assert forall|i: int| 0 <= i < z.len() implies is_digit(#[trigger] z[i]) by {
                assert(z[i] == y[i]);
            }
        }
        lemma_value_below_pow10(z);
        assert(is_digit(y[y.len() - 1]));
        let v = digits_value(z);
        let p = pow10(z.len());
        assert(v * 10 + 9 < 10 * p) by (nonlinear_arith)
            requires
                v < p,
        ;
    }
}

proof fn lemma_scale_keeps_order(x: nat, y: nat, c: nat)
    requires
        c > 0,
    ensures
        order_of(x * c, y * c) == order_of(x, y),
{
    if x < y {
        assert(x * c < y * c) by (nonlinear_arith)
            requires
                x < y,
                c > 0,
        ;
    } else if x > y {
        assert(x * c > y * c) by (nonlinear_arith)
            requires
                x > y,
                c > 0,
        ;
    }
}

/// `version_order` is the order of the two versions as decimal numbers: of
/// `numerator(a) / 10^fa` and `numerator(b) / 10^fb`, with `fa` and `fb` their
/// counts of fractional digits.
pub proof fn lemma_order_is_numeric(a: Seq<u8>, b: Seq<u8>)
    requires
        is_version(a),
        is_version(b),
    ensures
        version_order(a, b) == order_of(
            numerator(a) * pow10(minor_of(b).len()),
            numerator(b) * pow10(minor_of(a).len()),
        ),
{
    let pa = dot_of(a);
    let pb = dot_of(b);
    let fa = minor_of(a).len();
    let fb = minor_of(b).len();
    let ma = digits_value(major_of(a));
    let mb = digits_value(major_of(b));
    let xa = digits_value(minor_of(a));
    let xb = digits_value(minor_of(b));
    let n = if fa < fb {
        fb
    } else {
        fa
    };
    lemma_concat_value(major_of(a), minor_of(a));
    lemma_concat_value(major_of(b), minor_of(b));
    lemma_value_below_pow10(minor_of(a));
    lemma_value_below_pow10(minor_of(b));
    lemma_pow10_add(fa, fb);
    lemma_pow10_positive(fa);
    lemma_pow10_positive(fb);
    let big = pow10(fa + fb);
    let lhs = numerator(a) * pow10(fb);
    let rhs = numerator(b) * pow10(fa);
    assert(lhs == ma * big + xa * pow10(fb)) by (nonlinear_arith)
        requires
            lhs == (ma * pow10(fa) + xa) * pow10(fb),
            big == pow10(fa) * pow10(fb),
    ;
    assert(rhs == mb * big + xb * pow10(fa)) by (nonlinear_arith)
        requires
            rhs == (mb * pow10(fb) + xb) * pow10(fa),
            big == pow10(fa) * pow10(fb),
    ;
    assert(xa * pow10(fb) < big) by (nonlinear_arith)
        requires
            xa < pow10(fa),
            pow10(fb) > 0,
            big == pow10(fa) * pow10(fb),
    ;
    assert(xb * pow10(fa) < big) by (nonlinear_arith)
        requires
            xb < pow10(fb),
            pow10(fa) > 0,
            big == pow10(fa) * pow10(fb),
    ;
    if ma < mb {
        assert(lhs < rhs) by (nonlinear_arith)
            requires
                ma < mb,
                lhs == ma * big + xa * pow10(fb),
                rhs == mb * big + xb * pow10(fa),
                xa * pow10(fb) < big,
        ;
    } else if mb < ma {
        assert(rhs < lhs) by (nonlinear_arith)
            requires
                mb < ma,
                lhs == ma * big + xa * pow10(fb),
                rhs == mb * big + xb * pow10(fa),
                xb * pow10(fa) < big,
        ;
    } else {
        lemma_concat_value(minor_of(a), zeros((n - fa) as nat));
        lemma_concat_value(minor_of(b), zeros((n - fb) as nat));
        lemma_zeros_value((n - fa) as nat);
        lemma_zeros_value((n - fb) as nat);
        if fa <= fb {
            lemma_pow10_add((fb - fa) as nat, fa);
            assert(xa * pow10(fb) == (xa * pow10((fb - fa) as nat)) * pow10(fa)) by (nonlinear_arith)
                requires
                    pow10(fb) == pow10((fb - fa) as nat) * pow10(fa),
            ;
            assert(pow10((n - fb) as nat) == 1);
            lemma_scale_keeps_order(xa * pow10((fb - fa) as nat), xb, pow10(fa));
        } else {
            lemma_pow10_add((fa - fb) as nat, fb);
            assert(xb * pow10(fa) == (xb * pow10((fa - fb) as nat)) * pow10(fb)) by (nonlinear_arith)
                requires
                    pow10(fa) == pow10((fa - fb) as nat) * pow10(fb),
            ;
            assert(pow10((n - fa) as nat) == 1);
            lemma_scale_keeps_order(xa, xb * pow10((fa - fb) as nat), pow10(fb));
        }
    }
}

/// Compares an installed version with an available one as decimal numbers.
///
/// Fails with `FormatError` unless both are of the form `<digits>.<digits>`.
/// The result is `Outdated` exactly when `installed` is below `available`.
pub fn compare(installed: &str, available: &str) -> (r: Result<ComparisonResult, CheckError>)
    ensures
        r is Ok <==> is_version(installed.spec_bytes()) && is_version(available.spec_bytes()),
        r is Err ==> r == Err::<ComparisonResult, CheckError>(CheckError::FormatError),
        r matches Ok(c) ==> c == version_order(installed.spec_bytes(), available.spec_bytes()),
{
    let a = installed.as_bytes();
    let b = available.as_bytes();
    let pa = match find_dot(a) {
        Some(p) => p,
        None => return Err(CheckError::FormatError),
    };
    let pb = match find_dot(b) {
        Some(p) => p,
        None => return Err(CheckError::FormatError),
    };
    proof {
        lemma_dot_unique(a@, pa as int, dot_of(a@));
        lemma_dot_unique(b@, pb as int, dot_of(b@));
    }
    let width = if pa < pb {
        pb
    } else {
        pa
    };
    let major = compare_aligned(a, pa, b, pb, width, true);
    proof {
        lemma_leading_zeros((width - pa) as nat, a@.take(pa as int));
        lemma_leading_zeros((width - pb) as nat, b@.take(pb as int));
    }
    if major != ComparisonResult::UpToDate {
        return Ok(major);
    }
    let fa = a.len() - pa - 1;
    let fb = b.len() - pb - 1;
    let width = if fa < fb {
        fb
    } else {
        fa
    };
    Ok(compare_aligned(a, pa, b, pb, width, false))
}

} // verus!

//! Arithmetic kernels over fixed-precision decimal columns: 128-bit integers
//! read as scaled by `10^-scale`, with at most `precision` digits. Each kernel
//! combines two columns element by element — null slots included, as the
//! stored placeholder values take part in the arithmetic — and intersects the
//! two validity bitmaps.

use vstd::prelude::*;

use crate::array::PrimitiveArray;
use crate::bitmap::Bitmap;
use crate::datatypes::{clone_data_type, DataType};
use crate::error::Error;

verus! {

/// `10^n`.
pub open spec fn pow10(n: nat) -> int
    decreases n,
{
    if n == 0 {
        1
    } else {
        10 * pow10((n - 1) as nat)
    }
}

pub open spec fn abs_of(n: int) -> int {
    if n < 0 {
        -n
    } else {
        n
    }
}

/// Division as the machine truncates it: the quotient of the magnitudes,
/// negated when the signs differ.
pub open spec fn div_trunc(a: int, b: int) -> int {
    if (a < 0) == (b < 0) {
        abs_of(a) / abs_of(b)
    } else {
        -(abs_of(a) / abs_of(b))
    }
}

/// How many decimal digits a non-negative number has; zero has none.
pub open spec fn digits_of(n: int) -> nat
    decreases n,
{
    if n <= 0 {
        0
    } else {
        1 + digits_of(n / 10)
    }
}

/// The two width bounds the kernels lean on: `10^38` fits a 128-bit signed
/// integer and `10^39` exceeds an unsigned one.
proof fn lemma_pow10_widths()
    ensures
        pow10(38) == 100000000000000000000000000000000000000int,
        pow10(39) == 1000000000000000000000000000000000000000int,
{
    reveal_with_fuel(pow10, 41);
}

proof fn lemma_pow10_pos(n: nat)
    ensures
        pow10(n) >= 1,
    decreases n,
{
    if n > 0 {
        lemma_pow10_pos((n - 1) as nat);
    }
}

proof fn lemma_pow10_le(a: nat, b: nat)
    requires
        a <= b,
    ensures
        pow10(a) <= pow10(b),
    decreases b,
{
    if a < b {
        lemma_pow10_le(a, (b - 1) as nat);
        lemma_pow10_pos((b - 1) as nat);
    }
}

/// A number below `10^k` has at most `k` digits.
proof fn lemma_digits_le(n: int, k: nat)
    requires
        0 <= n,
        n < pow10(k),
    ensures
        digits_of(n) <= k,
    decreases k,
{
    if n > 0 {
        assert(k > 0) by {
            if k == 0 {
                assert(pow10(k) == 1);
            }
        }
        assert(n / 10 < pow10((k - 1) as nat)) by (nonlinear_arith)
            requires
                n < 10 * pow10((k - 1) as nat),
                0 <= n,
        ;
        lemma_digits_le(n / 10, (k - 1) as nat);
    }
}

/// `10^n`, computed; the width of a 128-bit integer caps `n` at 38.
pub fn pow10_value(n: usize) -> (r: i128)
    requires
        n <= 38,
    ensures
        r == pow10(n as nat),
{
    proof {
        lemma_pow10_widths();
    }
    let mut r: i128 = 1;
    let mut i: usize = 0;
    while i < n
        invariant
            i <= n <= 38,
            r == pow10(i as nat),
        decreases n - i,
    {
        proof {
            lemma_pow10_widths();
            lemma_pow10_pos(i as nat);
            lemma_pow10_le((i + 1) as nat, 38);
            assert(pow10((i + 1) as nat) == 10 * pow10(i as nat));
        }
        r = r * 10;
        i = i + 1;
    }
    r
}

/// The largest value a decimal of the given precision can hold: `10^p - 1`.
pub fn max_value(precision: usize) -> (r: i128)
    requires
        precision <= 38,
    ensures
        r == pow10(precision as nat) - 1,
{
    pow10_value(precision) - 1
}

/// How many decimal digits the magnitude of `num` has.
pub fn number_digits(num: i128) -> (r: usize)
    requires
        num > i128::MIN,
    ensures
        r == digits_of(abs_of(num as int)),
{
    proof {
        lemma_pow10_widths();
        lemma_digits_le(abs_of(num as int), 39);
    }
    let mut n: u128 = if num < 0 {
        (-num) as u128
    } else {
        num as u128
    };
    let mut digits: usize = 0;
    while n != 0
        invariant
            digits + digits_of(n as int) == digits_of(abs_of(num as int)),
            digits <= 39,
        decreases n,
    {
        proof {
            assert(n / 10 < n) by (nonlinear_arith)
                requires
                    n >= 1nat,
            ;
            lemma_pow10_widths();
            lemma_digits_le(abs_of(num as int), 39);
        }
        n = n / 10;
        digits = digits + 1;
    }
    digits
}

/// The precision and scale shared by two decimal types; non-decimal operands
/// or decimal types that disagree are rejected as [`Error::InvalidArgument`].
pub fn get_parameters(lhs: &DataType, rhs: &DataType) -> (r: Result<(usize, usize), Error>)
    ensures
        (match (*lhs, *rhs) {
            (DataType::Decimal(lp, ls), DataType::Decimal(rp, rs)) => {
                &&& (r is Ok <==> lp == rp && ls == rs)
                &&& (r is Ok ==> r == Ok::<(usize, usize), Error>((lp, ls)))
            },
            _ => r is Err,
        }),
        r is Err ==> r == Err::<(usize, usize), Error>(Error::InvalidArgument),
{
    match (lhs, rhs) {
        (DataType::Decimal(lhs_p, lhs_s), DataType::Decimal(rhs_p, rhs_s)) => {
            if *lhs_p == *rhs_p && *lhs_s == *rhs_s {
                Ok((*lhs_p, *lhs_s))
            } else {
                Err(Error::InvalidArgument)
            }
        },
        _ => Err(Error::InvalidArgument),
    }
}

/// The adjusted precision and scale of two decimal types, and the factor
/// between their scales: digits before the point and digits after it are each
/// taken from whichever side has more.
pub fn adjusted_precision_scale(lhs_p: usize, lhs_s: usize, rhs_p: usize, rhs_s: usize) -> (r: (
    usize,
    usize,
    usize,
))
    requires
        lhs_s <= lhs_p <= 38,
        rhs_s <= rhs_p <= 38,
    ensures
        ({
            let before = if lhs_p - lhs_s >= rhs_p - rhs_s {
                lhs_p - lhs_s
            } else {
                rhs_p - rhs_s
            };
            &&& (lhs_s > rhs_s ==> r == (
                (before + lhs_s) as usize,
                lhs_s,
                (lhs_s - rhs_s) as usize,
            ))
            &&& (lhs_s <= rhs_s ==> r == (
                (before + rhs_s) as usize,
                rhs_s,
                (rhs_s - lhs_s) as usize,
            ))
            &&& r.1 <= r.0 <= 76
            &&& r.2 <= 38
        }),
{
    let lhs_before = lhs_p - lhs_s;
    let rhs_before = rhs_p - rhs_s;
    let before = if lhs_before >= rhs_before {
        lhs_before
    } else {
        rhs_before
    };
    if lhs_s > rhs_s {
        (before + lhs_s, lhs_s, lhs_s - rhs_s)
    } else {
        (before + rhs_s, rhs_s, rhs_s - lhs_s)
    }
}

/// The intersection of two optional validity bitmaps; an absent bitmap means
/// all valid, so it is the other side that decides.
pub open spec fn combined_validity(a: Option<Seq<bool>>, b: Option<Seq<bool>>) -> Option<
    Seq<bool>,
> {
    match (a, b) {
        (Option::None, Option::None) => Option::None,
        (Option::Some(x), Option::None) => Option::Some(x),
        (Option::None, Option::Some(y)) => Option::Some(y),
        (Option::Some(x), Option::Some(y)) => Option::Some(
            Seq::new(x.len(), |i: int| x[i] && y[i]),
        ),
    }
}

/// Intersects two optional validity bitmaps of equal coverage.
pub fn combine_validities(lhs: &Option<Bitmap>, rhs: &Option<Bitmap>) -> (r: Option<Bitmap>)
    requires
        (match (lhs, rhs) {
            (Option::Some(x), Option::Some(y)) => x@.len() == y@.len(),
            _ => true,
        }),
    ensures
        (match r {
            Option::Some(bits) => Option::Some(bits@) == combined_validity(
                views_of(lhs),
                views_of(rhs),
            ),
            Option::None => combined_validity(views_of(lhs), views_of(rhs)) is None,
        }),
{
    match (lhs, rhs) {
        (Option::None, Option::None) => Option::None,
        (Option::Some(x), Option::None) => Option::Some(copy_bitmap(x)),
        (Option::None, Option::Some(y)) => Option::Some(copy_bitmap(y)),
        (Option::Some(x), Option::Some(y)) => {
            let n = x.len();
            let mut bits: Vec<bool> = Vec::new();
            let mut i: usize = 0;
            while i < n
                invariant
                    i <= n,
                    n == x@.len(),
                    n == y@.len(),
                    bits@ == Seq::new(i as nat, |j: int| x@[j] && y@[j]),
                decreases n - i,
            {
                bits.push(x.get(i) && y.get(i));
                proof {
                    assert(bits@ =~= Seq::new((i + 1) as nat, |j: int| x@[j] && y@[j]));
                }
                i = i + 1;
            }
            Option::Some(Bitmap::from_bits(bits))
        },
    }
}

/// The bit views of an optional bitmap.
pub open spec fn views_of(bitmap: &Option<Bitmap>) -> Option<Seq<bool>> {
    match bitmap {
        Option::Some(bits) => Option::Some(bits@),
        Option::None => Option::None,
    }
}

fn copy_bitmap(bitmap: &Bitmap) -> (r: Bitmap)
    ensures
        r@ == bitmap@,
{
    let n = bitmap.len();
    let mut bits: Vec<bool> = Vec::new();
    let mut i: usize = 0;
    while i < n
        invariant
            i <= n,
            n == bitmap@.len(),
            bits@ == bitmap@.subrange(0, i as int),
        decreases n - i,
    {
        bits.push(bitmap.get(i));
        proof {
            assert(bits@ =~= bitmap@.subrange(0, i + 1));
        }
        i = i + 1;
    }
    proof {
        assert(bitmap@.subrange(0, n as int) =~= bitmap@);
    }
    Bitmap::from_bits(bits)
}

/// Truncating 128-bit division, by way of the magnitudes.
fn div_i128(a: i128, b: i128) -> (r: i128)
    requires
        b != 0,
        a != i128::MIN,
    ensures
        r as int == div_trunc(a as int, b as int),
{
    let am: u128 = if a < 0 {
        (-a) as u128
    } else {
        a as u128
    };
    let bm: u128 = if b < 0 {
        ((-1 - b) as u128) + 1
    } else {
        b as u128
    };
    let q = am / bm;
    proof {
        assert(am / bm <= am) by (nonlinear_arith)
            requires
                bm >= 1nat,
        ;
    }
    if (a < 0) != (b < 0) {
        -(q as i128)
    } else {
        q as i128
    }
}

/// The condition under which a same-scale kernel does work: both columns are
/// decimal, with the same parameters and the same length; anything else is
/// rejected as [`Error::InvalidArgument`].
pub open spec fn kernel_applies(lhs: PrimitiveArray<i128>, rhs: PrimitiveArray<i128>) -> bool {
    &&& lhs.spec_data_type() is Decimal
    &&& lhs.spec_data_type() == rhs.spec_data_type()
    &&& lhs.values_seq().len() == rhs.values_seq().len()
}

/// The parameter bounds the 128-bit width forces on a decimal column.
pub open spec fn decimal_bounds(lhs: PrimitiveArray<i128>) -> bool {
    match lhs.spec_data_type() {
        DataType::Decimal(p, s) => s <= p <= 38,
        _ => false,
    }
}

/// The shared scale of the operands.
pub open spec fn scale_of(lhs: PrimitiveArray<i128>) -> nat {
    match lhs.spec_data_type() {
        DataType::Decimal(p, s) => s as nat,
        _ => 0,
    }
}

/// The shared precision of the operands.
pub open spec fn precision_of(lhs: PrimitiveArray<i128>) -> nat {
    match lhs.spec_data_type() {
        DataType::Decimal(p, s) => p as nat,
        _ => 0,
    }
}

/// What dividing slot values means: the dividend is scaled up to keep the
/// scale after truncating division.
pub open spec fn div_slot(a: int, b: int, scale: nat) -> int {
    div_trunc(a * pow10(scale), b)
}

/// The slots a checked division marks valid and the values it stores: a zero
/// divisor or an overflowing quotient becomes a null with a zero placeholder.
pub open spec fn checked_div_slot(a: int, b: int, scale: nat, max: int) -> Option<int> {
    if b == 0 {
        Option::None
    } else if abs_of(div_slot(a, b, scale)) > max {
        Option::None
    } else {
        Option::Some(div_slot(a, b, scale))
    }
}

/// What saturating division stores: a zero divisor degrades to zero, an
/// overflowing quotient is clamped to the signed precision bound.
pub open spec fn saturating_div_slot(a: int, b: int, scale: nat, max: int) -> int {
    if b == 0 {
        0
    } else if abs_of(div_slot(a, b, scale)) > max {
        if div_slot(a, b, scale) > 0 {
            max
        } else {
            -max
        }
    } else {
        div_slot(a, b, scale)
    }
}

/// No division panics: every divisor is non-zero, every scaled dividend fits
/// the 128-bit width, and every quotient fits the precision.
pub open spec fn div_panic_free(lhs: PrimitiveArray<i128>, rhs: PrimitiveArray<i128>) -> bool {
    forall|i: int|
        0 <= i < lhs.values_seq().len() ==> {
            let a = #[trigger] lhs.values_seq()[i] as int;
            let b = rhs.values_seq()[i] as int;
            &&& b != 0
            &&& abs_of(a * pow10(scale_of(lhs))) <= i128::MAX
            &&& abs_of(div_slot(a, b, scale_of(lhs))) <= pow10(precision_of(lhs)) - 1
        }
}

/// Every scaled dividend fits the 128-bit width; zero divisors and oversize
/// quotients are handled, not excluded.
pub open spec fn div_mul_safe(lhs: PrimitiveArray<i128>, rhs: PrimitiveArray<i128>) -> bool {
    forall|i: int|
        0 <= i < lhs.values_seq().len() ==> abs_of(
            (#[trigger] lhs.values_seq()[i]) as int * pow10(scale_of(lhs)),
        ) <= i128::MAX
}

/// Divides two decimal columns of the same precision and scale, slot by slot,
/// scaling the dividend up to keep the scale exact.
pub fn div(lhs: &PrimitiveArray<i128>, rhs: &PrimitiveArray<i128>) -> (r: Result<
    PrimitiveArray<i128>,
    Error,
>)
    requires
        lhs.wf(),
        rhs.wf(),
        kernel_applies(*lhs, *rhs) ==> decimal_bounds(*lhs),
        kernel_applies(*lhs, *rhs) ==> div_panic_free(*lhs, *rhs),
    ensures
        r is Ok <==> kernel_applies(*lhs, *rhs),
        r is Err ==> r == Err::<PrimitiveArray<i128>, Error>(Error::InvalidArgument),
        r matches Ok(out) ==> out.wf() && out.spec_data_type() == lhs.spec_data_type()
            && out.values_seq().len() == lhs.values_seq().len() && out.validity_seq()
            == combined_validity(lhs.validity_seq(), rhs.validity_seq()) && (forall|i: int|
            0 <= i < lhs.values_seq().len() ==> (#[trigger] out.values_seq()[i]) as int == div_slot(
                lhs.values_seq()[i] as int,
                rhs.values_seq()[i] as int,
                scale_of(*lhs),
            )),
{
    let (precision, scale) = match get_parameters(lhs.data_type(), rhs.data_type()) {
        Ok(params) => params,
        Err(e) => return Err(e),
    };
    if lhs.len() != rhs.len() {
        return Err(Error::InvalidArgument);
    }
    proof {
        assert(kernel_applies(*lhs, *rhs));
    }
    let scale_factor = pow10_value(scale);
    let n = lhs.len();
    let mut values: Vec<i128> = Vec::new();
    let mut i: usize = 0;
    proof {
        lemma_pow10_pos(scale as nat);
        lemma_pow10_le(precision as nat, 38);
        lemma_pow10_widths();
    }
    #[verifier::loop_isolation(false)]
    while i < n
        invariant
            i <= n,
            values@.len() == i,
            forall|j: int|
                0 <= j < i ==> (#[trigger] values@[j]) as int == div_slot(
                    lhs.values_seq()[j] as int,
                    rhs.values_seq()[j] as int,
                    scale_of(*lhs),
                ),
        decreases n - i,
    {
        let a = *lhs.value_at(i);
        let b = *rhs.value_at(i);
        let numeral = a * scale_factor;
        let quotient = div_i128(numeral, b);
        values.push(quotient);
        i = i + 1;
    }
    let validity = combine_validities(lhs.validity(), rhs.validity());
    Ok(PrimitiveArray::from_data(clone_data_type(lhs.data_type()), values, validity))
}

/// Checked division: a zero divisor or a quotient beyond the precision turns
/// that slot null instead of failing the whole column.
#[verifier::rlimit(100)]
#[verifier::spinoff_prover]
pub fn checked_div(lhs: &PrimitiveArray<i128>, rhs: &PrimitiveArray<i128>) -> (r: Result<
    PrimitiveArray<i128>,
    Error,
>)
    requires
        lhs.wf(),
        rhs.wf(),
        kernel_applies(*lhs, *rhs) ==> decimal_bounds(*lhs),
        kernel_applies(*lhs, *rhs) ==> div_mul_safe(*lhs, *rhs),
    ensures
        r is Ok <==> kernel_applies(*lhs, *rhs),
        r is Err ==> r == Err::<PrimitiveArray<i128>, Error>(Error::InvalidArgument),
        r matches Ok(out) ==> out.wf() && out.spec_data_type() == lhs.spec_data_type()
            && out.values_seq().len() == lhs.values_seq().len() && (forall|i: int|
            0 <= i < lhs.values_seq().len() ==> {
                let slot = checked_div_slot(
                    lhs.values_seq()[i] as int,
                    rhs.values_seq()[i] as int,
                    scale_of(*lhs),
                    pow10(precision_of(*lhs)) - 1,
                );
                &&& (#[trigger] out.values_seq()[i]) as int == (match slot {
                    Option::Some(v) => v,
                    Option::None => 0,
                })
                &&& out.is_valid_spec(i) <==> (slot is Some && lhs.is_valid_spec(i)
                    && rhs.is_valid_spec(i))
            }),
{
    let (precision, scale) = match get_parameters(lhs.data_type(), rhs.data_type()) {
        Ok(params) => params,
        Err(e) => return Err(e),
    };
    if lhs.len() != rhs.len() {
        return Err(Error::InvalidArgument);
    }
    proof {
        assert(kernel_applies(*lhs, *rhs));
    }
    let scale_factor = pow10_value(scale);
    let max = max_value(precision);
    let n = lhs.len();
    let mut values: Vec<i128> = Vec::new();
    let mut ok_bits: Vec<bool> = Vec::new();
    let mut i: usize = 0;
    proof {
        lemma_pow10_pos(scale as nat);
        lemma_pow10_le(precision as nat, 38);
        lemma_pow10_widths();
    }
    #[verifier::loop_isolation(false)]
    while i < n
        invariant
            i <= n,
            values@.len() == i,
            ok_bits@.len() == i,
            forall|j: int|
                0 <= j < i ==> {
                    let slot = checked_div_slot(
                        lhs.values_seq()[j] as int,
                        rhs.values_seq()[j] as int,
                        scale_of(*lhs),
                        pow10(precision_of(*lhs)) - 1,
                    );
                    &&& (#[trigger] values@[j]) as int == (match slot {
                        Option::Some(v) => v,
                        Option::None => 0,
                    })
                    &&& ok_bits@[j] == (slot is Some)
                },
        decreases n - i,
    {
        let a = *lhs.value_at(i);
        let b = *rhs.value_at(i);
        let numeral = a * scale_factor;
        if b == 0 {
            values.push(0);
            ok_bits.push(false);
        } else {
            let quotient = div_i128(numeral, b);
            proof {
                assert(quotient as int == div_slot(a as int, b as int, scale_of(*lhs)));
            }
            let magnitude = if quotient < 0 {
                -quotient
            } else {
                quotient
            };
            if magnitude > max {
                values.push(0);
                ok_bits.push(false);
            } else {
                values.push(quotient);
                ok_bits.push(true);
            }
        }
        proof {
            let slot = checked_div_slot(
                lhs.values_seq()[i as int] as int,
                rhs.values_seq()[i as int] as int,
                scale_of(*lhs),
                pow10(precision_of(*lhs)) - 1,
            );
            assert(values@[i as int] as int == (match slot {
                Option::Some(v) => v,
                Option::None => 0,
            }));
            assert(ok_bits@[i as int] == (slot is Some));
            assert forall|j: int| 0 <= j < i + 1 implies {
                let each = #[trigger] checked_div_slot(
                    lhs.values_seq()[j] as int,
                    rhs.values_seq()[j] as int,
                    scale_of(*lhs),
                    pow10(precision_of(*lhs)) - 1,
                );
                &&& (values@[j]) as int == (match each {
                    Option::Some(v) => v,
                    Option::None => 0,
                })
                &&& ok_bits@[j] == (each is Some)
            } by {
                let each = checked_div_slot(
                    lhs.values_seq()[j] as int,
                    rhs.values_seq()[j] as int,
                    scale_of(*lhs),
                    pow10(precision_of(*lhs)) - 1,
                );
                if j == i as int {
                    assert(values@[j] == values@[i as int]);
                    assert((values@[j]) as int == (match each {
                        Option::Some(v) => v,
                        Option::None => 0,
                    }));
                    assert(ok_bits@[j] == (each is Some));
                } else {
                    assert((values@[j]) as int == (match each {
                        Option::Some(v) => v,
                        Option::None => 0,
                    }));
                    assert(ok_bits@[j] == (each is Some));
                }
            }
        }
        i = i + 1;
    }
    let combined = combine_validities(lhs.validity(), rhs.validity());
    let result = and_bits(ok_bits, &combined);
    let out = PrimitiveArray::from_data(
        clone_data_type(lhs.data_type()),
        values,
        Option::Some(result),
    );
    proof {
        assert forall|k: int| 0 <= k < lhs.values_seq().len() implies {
            let slot = #[trigger] checked_div_slot(
                lhs.values_seq()[k] as int,
                rhs.values_seq()[k] as int,
                scale_of(*lhs),
                pow10(precision_of(*lhs)) - 1,
            );
            &&& (out.values_seq()[k]) as int == (match slot {
                Option::Some(v) => v,
                Option::None => 0,
            })
            &&& (out.is_valid_spec(k) <==> (slot is Some && lhs.is_valid_spec(k)
                && rhs.is_valid_spec(k)))
        } by {
            assert(out.values_seq()[k] == values@[k]);
            assert(result@[k] == (ok_bits@[k] && (match combined_validity(
                lhs.validity_seq(),
                rhs.validity_seq(),
            ) {
                Option::Some(both) => both[k],
                Option::None => true,
            })));
        }
    }
    Ok(out)
}

/// Intersects a bit vector with an optional bitmap of the same coverage.
fn and_bits(bits: Vec<bool>, with: &Option<Bitmap>) -> (r: Bitmap)
    requires
        (match with {
            Option::Some(other) => other@.len() == bits@.len(),
            Option::None => true,
        }),
    ensures
        r@.len() == bits@.len(),
        forall|i: int|
            0 <= i < bits@.len() ==> r@[i] == (bits@[i] && (match views_of(with) {
                Option::Some(other) => other[i],
                Option::None => true,
            })),
{
    match with {
        Option::None => Bitmap::from_bits(bits),
        Option::Some(other) => {
            let n = bits.len();
            let mut out: Vec<bool> = Vec::new();
            let mut i: usize = 0;
            while i < n
                invariant
                    i <= n,
                    n == bits@.len(),
                    n == other@.len(),
                    out@.len() == i,
                    forall|j: int| 0 <= j < i ==> #[trigger] out@[j] == (bits@[j] && other@[j]),
                decreases n - i,
            {
                out.push(bits[i] && other.get(i));
                i = i + 1;
            }
            Bitmap::from_bits(out)
        },
    }
}

/// Saturating division: an overflowing quotient is pinned to the largest (or
/// smallest) value of the precision, and a zero divisor degrades to zero.
pub fn saturating_div(lhs: &PrimitiveArray<i128>, rhs: &PrimitiveArray<i128>) -> (r: Result<
    PrimitiveArray<i128>,
    Error,
>)
    requires
        lhs.wf(),
        rhs.wf(),
        kernel_applies(*lhs, *rhs) ==> decimal_bounds(*lhs),
        kernel_applies(*lhs, *rhs) ==> div_mul_safe(*lhs, *rhs),
    ensures
        r is Ok <==> kernel_applies(*lhs, *rhs),
        r is Err ==> r == Err::<PrimitiveArray<i128>, Error>(Error::InvalidArgument),
        r matches Ok(out) ==> out.wf() && out.spec_data_type() == lhs.spec_data_type()
            && out.values_seq().len() == lhs.values_seq().len() && out.validity_seq()
            == combined_validity(lhs.validity_seq(), rhs.validity_seq()) && (forall|i: int|
            0 <= i < lhs.values_seq().len() ==> (#[trigger] out.values_seq()[i]) as int
                == saturating_div_slot(
                lhs.values_seq()[i] as int,
                rhs.values_seq()[i] as int,
                scale_of(*lhs),
                pow10(precision_of(*lhs)) - 1,
            )),
{
    let (precision, scale) = match get_parameters(lhs.data_type(), rhs.data_type()) {
        Ok(params) => params,
        Err(e) => return Err(e),
    };
    if lhs.len() != rhs.len() {
        return Err(Error::InvalidArgument);
    }
    proof {
        assert(kernel_applies(*lhs, *rhs));
    }
    let scale_factor = pow10_value(scale);
    let max = max_value(precision);
    let n = lhs.len();
    let mut values: Vec<i128> = Vec::new();
    let mut i: usize = 0;
    proof {
        lemma_pow10_pos(scale as nat);
        lemma_pow10_le(precision as nat, 38);
        lemma_pow10_widths();
    }
    #[verifier::loop_isolation(false)]
    while i < n
        invariant
            i <= n,
            values@.len() == i,
            forall|j: int|
                0 <= j < i ==> (#[trigger] values@[j]) as int == saturating_div_slot(
                    lhs.values_seq()[j] as int,
                    rhs.values_seq()[j] as int,
                    scale_of(*lhs),
                    pow10(precision_of(*lhs)) - 1,
                ),
        decreases n - i,
    {
        let a = *lhs.value_at(i);
        let b = *rhs.value_at(i);
        let numeral = a * scale_factor;
        if b == 0 {
            values.push(0);
        } else {
            let quotient = div_i128(numeral, b);
            let magnitude = if quotient < 0 {
                -quotient
            } else {
                quotient
            };
            if magnitude > max {
                values.push(if quotient > 0 {
                    max
                } else {
                    -max
                });
            } else {
                values.push(quotient);
            }
        }
        i = i + 1;
    }
    let validity = combine_validities(lhs.validity(), rhs.validity());
    Ok(PrimitiveArray::from_data(clone_data_type(lhs.data_type()), values, validity))
}

/// No subtraction panics: every difference fits the precision.
pub open spec fn sub_panic_free(lhs: PrimitiveArray<i128>, rhs: PrimitiveArray<i128>) -> bool {
    forall|i: int|
        0 <= i < lhs.values_seq().len() ==> abs_of(
            (#[trigger] lhs.values_seq()[i]) as int - rhs.values_seq()[i] as int,
        ) <= pow10(precision_of(lhs)) - 1
}

/// Every difference fits the 128-bit width; differences beyond the precision
/// are handled, not excluded.
pub open spec fn sub_width_safe(lhs: PrimitiveArray<i128>, rhs: PrimitiveArray<i128>) -> bool {
    forall|i: int|
        0 <= i < lhs.values_seq().len() ==> abs_of(
            (#[trigger] lhs.values_seq()[i]) as int - rhs.values_seq()[i] as int,
        ) <= i128::MAX
}

/// What saturating subtraction stores: a difference beyond the precision is
/// clamped to its signed bound.
pub open spec fn saturating_sub_slot(a: int, b: int, max: int) -> int {
    if abs_of(a - b) > max {
        if a - b > 0 {
            max
        } else {
            -max
        }
    } else {
        a - b
    }
}

/// Subtracts two decimal columns of the same precision and scale.
pub fn sub(lhs: &PrimitiveArray<i128>, rhs: &PrimitiveArray<i128>) -> (r: Result<
    PrimitiveArray<i128>,
    Error,
>)
    requires
        lhs.wf(),
        rhs.wf(),
        kernel_applies(*lhs, *rhs) ==> decimal_bounds(*lhs),
        kernel_applies(*lhs, *rhs) ==> sub_panic_free(*lhs, *rhs),
    ensures
        r is Ok <==> kernel_applies(*lhs, *rhs),
        r is Err ==> r == Err::<PrimitiveArray<i128>, Error>(Error::InvalidArgument),
        r matches Ok(out) ==> out.wf() && out.spec_data_type() == lhs.spec_data_type()
            && out.values_seq().len() == lhs.values_seq().len() && out.validity_seq()
            == combined_validity(lhs.validity_seq(), rhs.validity_seq()) && (forall|i: int|
            0 <= i < lhs.values_seq().len() ==> (#[trigger] out.values_seq()[i]) as int
                == lhs.values_seq()[i] - rhs.values_seq()[i]),
{
    let (precision, _scale) = match get_parameters(lhs.data_type(), rhs.data_type()) {
        Ok(params) => params,
        Err(e) => return Err(e),
    };
    if lhs.len() != rhs.len() {
        return Err(Error::InvalidArgument);
    }
    proof {
        assert(kernel_applies(*lhs, *rhs));
    }
    let n = lhs.len();
    let mut values: Vec<i128> = Vec::new();
    let mut i: usize = 0;
    proof {
        lemma_pow10_le(precision as nat, 38);
        lemma_pow10_widths();
    }
    #[verifier::loop_isolation(false)]
    while i < n
        invariant
            i <= n,
            values@.len() == i,
            forall|j: int|
                0 <= j < i ==> (#[trigger] values@[j]) as int == lhs.values_seq()[j]
                    - rhs.values_seq()[j],
        decreases n - i,
    {
        let a = *lhs.value_at(i);
        let b = *rhs.value_at(i);
        values.push(a - b);
        i = i + 1;
    }
    let validity = combine_validities(lhs.validity(), rhs.validity());
    Ok(PrimitiveArray::from_data(clone_data_type(lhs.data_type()), values, validity))
}

/// Checked subtraction: a difference beyond the precision turns that slot
/// null instead of failing the whole column.
pub fn checked_sub(lhs: &PrimitiveArray<i128>, rhs: &PrimitiveArray<i128>) -> (r: Result<
    PrimitiveArray<i128>,
    Error,
>)
    requires
        lhs.wf(),
        rhs.wf(),
        kernel_applies(*lhs, *rhs) ==> decimal_bounds(*lhs),
        kernel_applies(*lhs, *rhs) ==> sub_width_safe(*lhs, *rhs),
    ensures
        r is Ok <==> kernel_applies(*lhs, *rhs),
        r is Err ==> r == Err::<PrimitiveArray<i128>, Error>(Error::InvalidArgument),
        r matches Ok(out) ==> out.wf() && out.spec_data_type() == lhs.spec_data_type()
            && out.values_seq().len() == lhs.values_seq().len() && (forall|i: int|
            0 <= i < lhs.values_seq().len() ==> {
                let difference = lhs.values_seq()[i] - rhs.values_seq()[i];
                let fits = abs_of(difference) <= pow10(precision_of(*lhs)) - 1;
                &&& (#[trigger] out.values_seq()[i]) as int == (if fits {
                    difference
                } else {
                    0
                })
                &&& out.is_valid_spec(i) <==> (fits && lhs.is_valid_spec(i) && rhs.is_valid_spec(
                    i,
                ))
            }),
{
    let (precision, _scale) = match get_parameters(lhs.data_type(), rhs.data_type()) {
        Ok(params) => params,
        Err(e) => return Err(e),
    };
    if lhs.len() != rhs.len() {
        return Err(Error::InvalidArgument);
    }
    proof {
        assert(kernel_applies(*lhs, *rhs));
    }
    let max = max_value(precision);
    let n = lhs.len();
    let mut values: Vec<i128> = Vec::new();
    let mut ok_bits: Vec<bool> = Vec::new();
    let mut i: usize = 0;
    proof {
        lemma_pow10_le(precision as nat, 38);
        lemma_pow10_widths();
    }
    #[verifier::loop_isolation(false)]
    while i < n
        invariant
            i <= n,
            values@.len() == i,
            ok_bits@.len() == i,
            forall|j: int|
                0 <= j < i ==> {
                    let difference = lhs.values_seq()[j] - rhs.values_seq()[j];
                    let fits = abs_of(difference) <= pow10(precision_of(*lhs)) - 1;
                    &&& (#[trigger] values@[j]) as int == (if fits {
                        difference
                    } else {
                        0
                    })
                    &&& ok_bits@[j] == fits
                },
        decreases n - i,
    {
        let a = *lhs.value_at(i);
        let b = *rhs.value_at(i);
        let difference = a - b;
        let magnitude = if difference < 0 {
            -difference
        } else {
            difference
        };
        if magnitude > max {
            values.push(0);
            ok_bits.push(false);
        } else {
            values.push(difference);
            ok_bits.push(true);
        }
        i = i + 1;
    }
    let combined = combine_validities(lhs.validity(), rhs.validity());
    let result = and_bits(ok_bits, &combined);
    let out = PrimitiveArray::from_data(
        clone_data_type(lhs.data_type()),
        values,
        Option::Some(result),
    );
    Ok(out)
}

/// Saturating subtraction: a difference beyond the precision is pinned to the
/// largest (or smallest) value the precision can hold.
pub fn saturating_sub(lhs: &PrimitiveArray<i128>, rhs: &PrimitiveArray<i128>) -> (r: Result<
    PrimitiveArray<i128>,
    Error,
>)
    requires
        lhs.wf(),
        rhs.wf(),
        kernel_applies(*lhs, *rhs) ==> decimal_bounds(*lhs),
        kernel_applies(*lhs, *rhs) ==> sub_width_safe(*lhs, *rhs),
    ensures
        r is Ok <==> kernel_applies(*lhs, *rhs),
        r is Err ==> r == Err::<PrimitiveArray<i128>, Error>(Error::InvalidArgument),
        r matches Ok(out) ==> out.wf() && out.spec_data_type() == lhs.spec_data_type()
            && out.values_seq().len() == lhs.values_seq().len() && out.validity_seq()
            == combined_validity(lhs.validity_seq(), rhs.validity_seq()) && (forall|i: int|
            0 <= i < lhs.values_seq().len() ==> (#[trigger] out.values_seq()[i]) as int
                == saturating_sub_slot(
                lhs.values_seq()[i] as int,
                rhs.values_seq()[i] as int,
                pow10(precision_of(*lhs)) - 1,
            )),
{
    let (precision, _scale) = match get_parameters(lhs.data_type(), rhs.data_type()) {
        Ok(params) => params,
        Err(e) => return Err(e),
    };
    if lhs.len() != rhs.len() {
        return Err(Error::InvalidArgument);
    }
    proof {
        assert(kernel_applies(*lhs, *rhs));
    }
    let max = max_value(precision);
    let n = lhs.len();
    let mut values: Vec<i128> = Vec::new();
    let mut i: usize = 0;
    proof {
        lemma_pow10_le(precision as nat, 38);
        lemma_pow10_widths();
    }
    #[verifier::loop_isolation(false)]
    while i < n
        invariant
            i <= n,
            values@.len() == i,
            forall|j: int|
                0 <= j < i ==> (#[trigger] values@[j]) as int == saturating_sub_slot(
                    lhs.values_seq()[j] as int,
                    rhs.values_seq()[j] as int,
                    pow10(precision_of(*lhs)) - 1,
                ),
        decreases n - i,
    {
        let a = *lhs.value_at(i);
        let b = *rhs.value_at(i);
        let difference = a - b;
        let magnitude = if difference < 0 {
            -difference
        } else {
            difference
        };
        if magnitude > max {
            values.push(if difference > 0 {
                max
            } else {
                -max
            });
        } else {
            values.push(difference);
        }
        i = i + 1;
    }
    let validity = combine_validities(lhs.validity(), rhs.validity());
    Ok(PrimitiveArray::from_data(clone_data_type(lhs.data_type()), values, validity))
}


/// The scale difference the smaller-scale side is shifted by.
pub open spec fn diff_of(lhs_s: nat, rhs_s: nat) -> nat {
    if lhs_s > rhs_s {
        (lhs_s - rhs_s) as nat
    } else {
        (rhs_s - lhs_s) as nat
    }
}

/// The adjusted scale: the larger of the two.
pub open spec fn res_scale(lhs_s: nat, rhs_s: nat) -> nat {
    if lhs_s > rhs_s {
        lhs_s
    } else {
        rhs_s
    }
}

/// The adjusted precision before any per-element widening: the larger count
/// of digits before the point plus the adjusted scale.
pub open spec fn res_prec(lhs_p: nat, lhs_s: nat, rhs_p: nat, rhs_s: nat) -> nat {
    (if lhs_p - lhs_s >= rhs_p - rhs_s {
        (lhs_p - lhs_s) as nat
    } else {
        (rhs_p - rhs_s) as nat
    }) + res_scale(lhs_s, rhs_s)
}

/// One adaptive subtraction: the side with the smaller scale is shifted up to
/// the adjusted scale first.
pub open spec fn adaptive_sub_slot(l: int, r: int, lhs_s: nat, rhs_s: nat) -> int {
    if lhs_s > rhs_s {
        l - r * pow10(diff_of(lhs_s, rhs_s))
    } else {
        l * pow10(diff_of(lhs_s, rhs_s)) - r
    }
}

/// One adaptive division: the dividend is scaled up to the adjusted scale and
/// the smaller-scale side shifted to match before truncating division.
pub open spec fn adaptive_div_slot(l: int, r: int, lhs_s: nat, rhs_s: nat) -> int {
    if lhs_s > rhs_s {
        div_trunc(l * pow10(res_scale(lhs_s, rhs_s)), r * pow10(diff_of(lhs_s, rhs_s)))
    } else {
        div_trunc(l * pow10(res_scale(lhs_s, rhs_s)) * pow10(diff_of(lhs_s, rhs_s)), r)
    }
}

/// The precision an adaptive kernel ends with: starting from the adjusted
/// precision, each element whose magnitude exceeds the current bound widens it
/// to that element's digit count.
pub open spec fn adaptive_prec(slots: Seq<int>, p0: nat) -> nat
    decreases slots.len(),
{
    if slots.len() == 0 {
        p0
    } else {
        let prev = adaptive_prec(slots.drop_last(), p0);
        if abs_of(slots.last()) > pow10(prev) - 1 {
            digits_of(abs_of(slots.last()))
        } else {
            prev
        }
    }
}

/// The condition under which an adaptive kernel does work: equal lengths and
/// two decimal columns; anything else is rejected as
/// [`Error::InvalidArgument`].
pub open spec fn adaptive_applies(lhs: PrimitiveArray<i128>, rhs: PrimitiveArray<i128>) -> bool {
    &&& lhs.values_seq().len() == rhs.values_seq().len()
    &&& lhs.spec_data_type() is Decimal
    &&& rhs.spec_data_type() is Decimal
}

/// Whether the operand types are decimals whose adjusted parameters stay
/// representable in 128 bits.
pub open spec fn adaptive_params_ok(lhs: PrimitiveArray<i128>, rhs: PrimitiveArray<i128>) -> bool {
    match (lhs.spec_data_type(), rhs.spec_data_type()) {
        (DataType::Decimal(lp, ls), DataType::Decimal(rp, rs)) => {
            &&& ls <= lp <= 38
            &&& rs <= rp <= 38
            &&& res_prec(lp as nat, ls as nat, rp as nat, rs as nat) <= 38
        },
        _ => false,
    }
}

/// The per-element subtraction slots of two columns.
pub open spec fn adaptive_sub_slots(lhs: PrimitiveArray<i128>, rhs: PrimitiveArray<i128>) -> Seq<
    int,
> {
    Seq::new(
        lhs.values_seq().len(),
        |i: int| adaptive_sub_slot(
            lhs.values_seq()[i] as int,
            rhs.values_seq()[i] as int,
            scale_of(lhs),
            scale_of(rhs),
        ),
    )
}

/// The per-element division slots of two columns.
pub open spec fn adaptive_div_slots(lhs: PrimitiveArray<i128>, rhs: PrimitiveArray<i128>) -> Seq<
    int,
> {
    Seq::new(
        lhs.values_seq().len(),
        |i: int| adaptive_div_slot(
            lhs.values_seq()[i] as int,
            rhs.values_seq()[i] as int,
            scale_of(lhs),
            scale_of(rhs),
        ),
    )
}

/// No adaptive subtraction panics: every shifted operand fits the 128-bit
/// width and every difference fits 38 digits.
pub open spec fn adaptive_sub_safe(lhs: PrimitiveArray<i128>, rhs: PrimitiveArray<i128>) -> bool {
    forall|i: int|
        0 <= i < lhs.values_seq().len() ==> {
            let l = #[trigger] lhs.values_seq()[i] as int;
            let r = rhs.values_seq()[i] as int;
            let shift = pow10(diff_of(scale_of(lhs), scale_of(rhs)));
            &&& (scale_of(lhs) > scale_of(rhs) ==> abs_of(r * shift) <= i128::MAX)
            &&& (scale_of(lhs) <= scale_of(rhs) ==> abs_of(l * shift) <= i128::MAX)
            &&& abs_of(adaptive_sub_slot(l, r, scale_of(lhs), scale_of(rhs))) <= pow10(38) - 1
        }
}

/// No adaptive division panics: divisors are non-zero, every shifted operand
/// fits the 128-bit width, and every quotient fits 38 digits.
pub open spec fn adaptive_div_safe(lhs: PrimitiveArray<i128>, rhs: PrimitiveArray<i128>) -> bool {
    forall|i: int|
        0 <= i < lhs.values_seq().len() ==> {
            let l = #[trigger] lhs.values_seq()[i] as int;
            let r = rhs.values_seq()[i] as int;
            let shift = pow10(diff_of(scale_of(lhs), scale_of(rhs)));
            let scaled = pow10(res_scale(scale_of(lhs), scale_of(rhs)));
            &&& r != 0
            &&& abs_of(l * scaled) <= i128::MAX
            &&& (scale_of(lhs) > scale_of(rhs) ==> abs_of(r * shift) <= i128::MAX)
            &&& (scale_of(lhs) <= scale_of(rhs) ==> abs_of(l * scaled * shift) <= i128::MAX)
            &&& abs_of(adaptive_div_slot(l, r, scale_of(lhs), scale_of(rhs))) <= pow10(38) - 1
        }
}

/// Subtracts two decimal columns whose precision and scale may differ: the
/// smaller scale is shifted up to the larger, and when a difference outgrows
/// the adjusted precision the result type widens to that difference's digit
/// count.
pub fn adaptive_sub(lhs: &PrimitiveArray<i128>, rhs: &PrimitiveArray<i128>) -> (r: Result<
    PrimitiveArray<i128>,
    Error,
>)
    requires
        lhs.wf(),
        rhs.wf(),
        adaptive_applies(*lhs, *rhs) ==> adaptive_params_ok(*lhs, *rhs),
        adaptive_applies(*lhs, *rhs) ==> adaptive_sub_safe(*lhs, *rhs),
    ensures
        r is Ok <==> adaptive_applies(*lhs, *rhs),
        r is Err ==> r == Err::<PrimitiveArray<i128>, Error>(Error::InvalidArgument),
        r matches Ok(out) ==> out.wf() && out.values_seq().len() == lhs.values_seq().len()
            && out.validity_seq() == combined_validity(lhs.validity_seq(), rhs.validity_seq()) && (
        forall|i: int|
            0 <= i < lhs.values_seq().len() ==> (#[trigger] out.values_seq()[i]) as int
                == adaptive_sub_slots(*lhs, *rhs)[i]) && (match out.spec_data_type() {
            DataType::Decimal(p, s) => p as nat == adaptive_prec(
                adaptive_sub_slots(*lhs, *rhs),
                res_prec(
                    precision_of(*lhs),
                    scale_of(*lhs),
                    precision_of(*rhs),
                    scale_of(*rhs),
                ),
            ) && s as nat == res_scale(scale_of(*lhs), scale_of(*rhs)),
            _ => false,
        }),
{
    if lhs.len() != rhs.len() {
        return Err(Error::InvalidArgument);
    }
    let (lhs_p, lhs_s) = match lhs.data_type() {
        DataType::Decimal(p, s) => (*p, *s),
        _ => return Err(Error::InvalidArgument),
    };
    let (rhs_p, rhs_s) = match rhs.data_type() {
        DataType::Decimal(p, s) => (*p, *s),
        _ => return Err(Error::InvalidArgument),
    };
    proof {
        assert(adaptive_applies(*lhs, *rhs));
    }
    let (mut res_p, res_s, diff) = adjusted_precision_scale(lhs_p, lhs_s, rhs_p, rhs_s);
    let shift = pow10_value(diff);
    let mut max = max_value(res_p);
    let n = lhs.len();
    let mut values: Vec<i128> = Vec::new();
    let mut i: usize = 0;
    proof {
        lemma_pow10_widths();
        lemma_pow10_pos(diff as nat);
        assert(adaptive_sub_slots(*lhs, *rhs).take(0) =~= Seq::<int>::empty());
    }
    #[verifier::loop_isolation(false)]
    while i < n
        invariant
            i <= n,
            values@.len() == i,
            res_p <= 38,
            max == pow10(res_p as nat) - 1,
            res_p as nat == adaptive_prec(
                adaptive_sub_slots(*lhs, *rhs).take(i as int),
                res_prec(
                    precision_of(*lhs),
                    scale_of(*lhs),
                    precision_of(*rhs),
                    scale_of(*rhs),
                ),
            ),
            forall|j: int|
                0 <= j < i ==> (#[trigger] values@[j]) as int == adaptive_sub_slots(*lhs, *rhs)[j],
        decreases n - i,
    {
        let l = *lhs.value_at(i);
        let r = *rhs.value_at(i);
        let res: i128 = if lhs_s > rhs_s {
            l - r * shift
        } else {
            l * shift - r
        };
        let magnitude = if res < 0 {
            -res
        } else {
            res
        };
        proof {
            let ghost slots = adaptive_sub_slots(*lhs, *rhs);
            assert(slots.take(i + 1).drop_last() =~= slots.take(i as int));
            assert(slots.take(i + 1).last() == slots[i as int]);
        }
        if magnitude > max {
            proof {
                lemma_digits_le(magnitude as int, 38);
            }
            res_p = number_digits(res);
            max = max_value(res_p);
        }
        values.push(res);
        i = i + 1;
        proof {
            assert(values@[i - 1] == res);
        }
    }
    proof {
        assert(adaptive_sub_slots(*lhs, *rhs).take(n as int) =~= adaptive_sub_slots(*lhs, *rhs));
    }
    let validity = combine_validities(lhs.validity(), rhs.validity());
    Ok(PrimitiveArray::from_data(DataType::Decimal(res_p, res_s), values, validity))
}

/// Divides two decimal columns whose precision and scale may differ: the
/// dividend is scaled to keep the adjusted scale, and when a quotient
/// outgrows the adjusted precision the result type widens to that quotient's
/// digit count.
pub fn adaptive_div(lhs: &PrimitiveArray<i128>, rhs: &PrimitiveArray<i128>) -> (r: Result<
    PrimitiveArray<i128>,
    Error,
>)
    requires
        lhs.wf(),
        rhs.wf(),
        adaptive_applies(*lhs, *rhs) ==> adaptive_params_ok(*lhs, *rhs),
        adaptive_applies(*lhs, *rhs) ==> adaptive_div_safe(*lhs, *rhs),
    ensures
        r is Ok <==> adaptive_applies(*lhs, *rhs),
        r is Err ==> r == Err::<PrimitiveArray<i128>, Error>(Error::InvalidArgument),
        r matches Ok(out) ==> out.wf() && out.values_seq().len() == lhs.values_seq().len()
            && out.validity_seq() == combined_validity(lhs.validity_seq(), rhs.validity_seq()) && (
        forall|i: int|
            0 <= i < lhs.values_seq().len() ==> (#[trigger] out.values_seq()[i]) as int
                == adaptive_div_slots(*lhs, *rhs)[i]) && (match out.spec_data_type() {
            DataType::Decimal(p, s) => p as nat == adaptive_prec(
                adaptive_div_slots(*lhs, *rhs),
                res_prec(
                    precision_of(*lhs),
                    scale_of(*lhs),
                    precision_of(*rhs),
                    scale_of(*rhs),
                ),
            ) && s as nat == res_scale(scale_of(*lhs), scale_of(*rhs)),
            _ => false,
        }),
{
    if lhs.len() != rhs.len() {
        return Err(Error::InvalidArgument);
    }
    let (lhs_p, lhs_s) = match lhs.data_type() {
        DataType::Decimal(p, s) => (*p, *s),
        _ => return Err(Error::InvalidArgument),
    };
    let (rhs_p, rhs_s) = match rhs.data_type() {
        DataType::Decimal(p, s) => (*p, *s),
        _ => return Err(Error::InvalidArgument),
    };
    proof {
        assert(adaptive_applies(*lhs, *rhs));
    }
    let (mut res_p, res_s, diff) = adjusted_precision_scale(lhs_p, lhs_s, rhs_p, rhs_s);
    let shift = pow10_value(diff);
    let shift_1 = pow10_value(res_s);
    let mut max = max_value(res_p);
    let n = lhs.len();
    let mut values: Vec<i128> = Vec::new();
    let mut i: usize = 0;
    proof {
        lemma_pow10_widths();
        lemma_pow10_pos(diff as nat);
        lemma_pow10_pos(res_s as nat);
        assert(adaptive_div_slots(*lhs, *rhs).take(0) =~= Seq::<int>::empty());
    }
    #[verifier::loop_isolation(false)]
    while i < n
        invariant
            i <= n,
            values@.len() == i,
            res_p <= 38,
            max == pow10(res_p as nat) - 1,
            res_p as nat == adaptive_prec(
                adaptive_div_slots(*lhs, *rhs).take(i as int),
                res_prec(
                    precision_of(*lhs),
                    scale_of(*lhs),
                    precision_of(*rhs),
                    scale_of(*rhs),
                ),
            ),
            forall|j: int|
                0 <= j < i ==> (#[trigger] values@[j]) as int == adaptive_div_slots(*lhs, *rhs)[j],
        decreases n - i,
    {
        let l = *lhs.value_at(i);
        let r = *rhs.value_at(i);
        let numeral = l * shift_1;
        let res: i128 = if lhs_s > rhs_s {
            proof {
                assert(r as int * pow10(diff as nat) != 0) by (nonlinear_arith)
                    requires
                        r as int != 0,
                        pow10(diff as nat) >= 1,
                ;
            }
            div_i128(numeral, r * shift)
        } else {
            proof {
                assert(abs_of(numeral as int) <= abs_of(numeral as int * pow10(diff as nat)))
                    by (nonlinear_arith)
                    requires
                        pow10(diff as nat) >= 1,
                ;
            }
            div_i128(numeral * shift, r)
        };
        let magnitude = if res < 0 {
            -res
        } else {
            res
        };
        proof {
            let ghost slots = adaptive_div_slots(*lhs, *rhs);
            assert(slots.take(i + 1).drop_last() =~= slots.take(i as int));
            assert(slots.take(i + 1).last() == slots[i as int]);
        }
        if magnitude > max {
            proof {
                lemma_digits_le(magnitude as int, 38);
            }
            res_p = number_digits(res);
            max = max_value(res_p);
        }
        values.push(res);
        i = i + 1;
        proof {
            assert(values@[i - 1] == res);
        }
    }
    proof {
        assert(adaptive_div_slots(*lhs, *rhs).take(n as int) =~= adaptive_div_slots(*lhs, *rhs));
    }
    let validity = combine_validities(lhs.validity(), rhs.validity());
    Ok(PrimitiveArray::from_data(DataType::Decimal(res_p, res_s), values, validity))
}

} // verus!

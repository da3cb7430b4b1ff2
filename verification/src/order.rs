//! What is true of single-precision arithmetic whatever it rounds: it keeps the order of its
//! operands, their signs, and what zero and one do to a number.

use crate::arithmetic::Numerics;
use crate::learning::{nought, unit};
use crate::scalar::Scalar;
use vstd::prelude::*;

verus! {

/// A number that is not below zero.
pub open spec fn plus_or_zero(a: Scalar) -> bool {
    nought().at_most(a)
}

/// A number that is not above zero.
pub open spec fn minus_or_zero(a: Scalar) -> bool {
    a.at_most(nought())
}

/// The numbers have the same value.
pub open spec fn alike(a: Scalar, b: Scalar) -> bool {
    !a.nan() && !b.nan() && a.rank() == b.rank()
}

/// The numbers have opposite values.
pub open spec fn mirrored(a: Scalar, b: Scalar) -> bool {
    !a.nan() && !b.nan() && a.rank() == -b.rank()
}

/// A number of value zero.
pub open spec fn zero(a: Scalar) -> bool {
    alike(a, nought())
}

/// Sums grow with both terms, and adding zero changes nothing.
#[verifier::opaque]
pub open spec fn sums_keep_order<T: Numerics>(ops: T) -> bool {
    &&& forall|a: Scalar, b: Scalar, c: Scalar, d: Scalar|
        #![trigger ops.sum(a, c), ops.sum(b, d)]
        a.at_most(b) && c.at_most(d) && !ops.sum(a, c).nan() && !ops.sum(b, d).nan() ==> ops.sum(
            a,
            c,
        ).at_most(ops.sum(b, d))
    &&& forall|a: Scalar, b: Scalar| #[trigger] ops.sum(a, b).nan() || (!a.nan() && !b.nan())
    &&& forall|a: Scalar, b: Scalar|
        #![trigger ops.sum(a, b)]
        (a.finite() && !b.nan()) || (!a.nan() && b.finite()) ==> !ops.sum(a, b).nan()
    &&& forall|a: Scalar, z: Scalar|
        !a.nan() && zero(z) ==> alike(#[trigger] ops.sum(a, z), a)
    &&& forall|z: Scalar, a: Scalar|
        !a.nan() && zero(z) ==> alike(#[trigger] ops.sum(z, a), a)
}

/// Differences grow with the first number and fall with the second; taking zero away changes
/// nothing, taking from zero turns the sign, and a number less itself is zero.
#[verifier::opaque]
pub open spec fn differences_keep_order<T: Numerics>(ops: T) -> bool {
    &&& forall|a: Scalar, b: Scalar, c: Scalar, d: Scalar|
        #![trigger ops.difference(a, c), ops.difference(b, d)]
        a.at_most(b) && d.at_most(c) && !ops.difference(a, c).nan() && !ops.difference(b, d).nan()
            ==> ops.difference(a, c).at_most(ops.difference(b, d))
    &&& forall|a: Scalar, b: Scalar| #[trigger] ops.difference(a, b).nan() || (!a.nan() && !b.nan())
    &&& forall|a: Scalar, b: Scalar|
        #![trigger ops.difference(a, b)]
        (a.finite() && !b.nan()) || (!a.nan() && b.finite()) ==> !ops.difference(a, b).nan()
    &&& forall|a: Scalar, z: Scalar|
        !a.nan() && zero(z) ==> alike(#[trigger] ops.difference(a, z), a)
    &&& forall|z: Scalar, a: Scalar|
        !a.nan() && zero(z) ==> mirrored(#[trigger] ops.difference(z, a), a)
    &&& forall|a: Scalar, b: Scalar|
        a.finite() && alike(a, b) ==> zero(#[trigger] ops.difference(a, b))
}

/// Products grow with a factor where the other one is not negative, turn their sign with the sign
/// of a factor, and one and zero do to a number what they should.
#[verifier::opaque]
pub open spec fn products_keep_order<T: Numerics>(ops: T) -> bool {
    &&& forall|k: Scalar, a: Scalar, b: Scalar|
        #![trigger ops.product(k, a), ops.product(k, b)]
        plus_or_zero(k) && a.at_most(b) && !ops.product(k, a).nan() && !ops.product(k, b).nan()
            ==> ops.product(k, a).at_most(ops.product(k, b))
    &&& forall|k: Scalar, a: Scalar, b: Scalar|
        #![trigger ops.product(a, k), ops.product(b, k)]
        plus_or_zero(k) && a.at_most(b) && !ops.product(a, k).nan() && !ops.product(b, k).nan()
            ==> ops.product(a, k).at_most(ops.product(b, k))
    &&& forall|a: Scalar, b: Scalar| #[trigger] ops.product(a, b).nan() || (!a.nan() && !b.nan())
    &&& forall|a: Scalar, b: Scalar|
        #![trigger ops.product(a, b)]
        a.finite() && b.finite() ==> !ops.product(a, b).nan()
    &&& forall|a: Scalar, b: Scalar|
        !ops.product(a, b).nan() ==> mirrored(
            #[trigger] ops.product(a.opposite(), b),
            ops.product(a, b),
        )
    &&& forall|a: Scalar, b: Scalar|
        !ops.product(a, b).nan() ==> mirrored(
            #[trigger] ops.product(a, b.opposite()),
            ops.product(a, b),
        )
    &&& forall|a: Scalar, b: Scalar|
        #![trigger ops.product(a, b)]
        !ops.product(a, b).nan() && ((plus_or_zero(a) && plus_or_zero(b)) || (minus_or_zero(a)
            && minus_or_zero(b))) ==> plus_or_zero(ops.product(a, b))
    &&& forall|a: Scalar, b: Scalar|
        #![trigger ops.product(a, b)]
        !ops.product(a, b).nan() && ((plus_or_zero(a) && minus_or_zero(b)) || (minus_or_zero(a)
            && plus_or_zero(b))) ==> minus_or_zero(ops.product(a, b))
    &&& forall|a: Scalar| !a.nan() ==> alike(#[trigger] ops.product(a, unit()), a)
    &&& forall|a: Scalar| !a.nan() ==> alike(#[trigger] ops.product(unit(), a), a)
    &&& forall|a: Scalar, z: Scalar|
        a.finite() && zero(z) ==> zero(#[trigger] ops.product(a, z))
    &&& forall|z: Scalar, a: Scalar|
        a.finite() && zero(z) ==> zero(#[trigger] ops.product(z, a))
}

/// Quotients by positive numbers grow with what is divided and, where that is not negative, fall
/// with what it is divided by.
#[verifier::opaque]
pub open spec fn quotients_keep_order<T: Numerics>(ops: T) -> bool {
    &&& forall|a: Scalar, b: Scalar, c: Scalar|
        #![trigger ops.quotient(a, c), ops.quotient(b, c)]
        a.at_most(b) && nought().below(c) && !ops.quotient(a, c).nan() && !ops.quotient(b, c).nan()
            ==> ops.quotient(a, c).at_most(ops.quotient(b, c))
    &&& forall|a: Scalar, c: Scalar, d: Scalar|
        #![trigger ops.quotient(a, c), ops.quotient(a, d)]
        plus_or_zero(a) && nought().below(c) && c.at_most(d) && !ops.quotient(a, c).nan()
            && !ops.quotient(a, d).nan() ==> ops.quotient(a, d).at_most(ops.quotient(a, c))
    &&& forall|a: Scalar, b: Scalar| #[trigger] ops.quotient(a, b).nan() || (!a.nan() && !b.nan())
    &&& forall|z: Scalar, c: Scalar|
        zero(z) && nought().below(c) ==> zero(#[trigger] ops.quotient(z, c))
    &&& forall|a: Scalar| !a.nan() ==> alike(#[trigger] ops.quotient(a, unit()), a)
    &&& forall|a: Scalar, b: Scalar|
        nought().below(a) && a.finite() && alike(a, b) ==> alike(
            #[trigger] ops.quotient(a, b),
            unit(),
        )
    &&& forall|a: Scalar, b: Scalar|
        #![trigger ops.quotient(a, b)]
        a.finite() && !b.nan() && !zero(b) ==> !ops.quotient(a, b).nan()
}

/// Counts are numbers in their order, from zero and one on.
#[verifier::opaque]
pub open spec fn counts_keep_order<T: Numerics>(ops: T) -> bool {
    &&& forall|n: u64, m: u64|
        n <= m ==> (#[trigger] ops.number(n)).at_most(#[trigger] ops.number(m))
    &&& forall|n: u64| (#[trigger] ops.number(n)).finite()
    &&& zero(ops.number(0))
    &&& alike(ops.number(1), unit())
}

/// A number between zero and one that is multiplied with itself stays there, and is no larger than
/// it was; one stays one.
#[verifier::opaque]
pub open spec fn powers_keep_order<T: Numerics>(ops: T) -> bool {
    forall|base: Scalar, n: u32|
        #![trigger ops.power(base, n)]
        plus_or_zero(base) && base.at_most(unit()) && n > 0 ==> plus_or_zero(ops.power(base, n))
            && ops.power(base, n).at_most(base) && (alike(base, unit()) ==> alike(
            ops.power(base, n),
            unit(),
        ))
}

/// Exponentials grow, are never negative, and are one at zero.
#[verifier::opaque]
pub open spec fn exponentials_keep_order<T: Numerics>(ops: T) -> bool {
    &&& forall|a: Scalar, b: Scalar|
        a.at_most(b) ==> (#[trigger] ops.exponential(a)).at_most(#[trigger] ops.exponential(b))
    &&& forall|a: Scalar| !a.nan() ==> plus_or_zero(#[trigger] ops.exponential(a))
    &&& forall|a: Scalar| zero(a) ==> alike(#[trigger] ops.exponential(a), unit())
}

/// Logarithms grow, and are zero at one.
#[verifier::opaque]
pub open spec fn logarithms_keep_order<T: Numerics>(ops: T) -> bool {
    &&& forall|a: Scalar, b: Scalar|
        nought().below(a) && a.at_most(b) ==> (#[trigger] ops.logarithm(a)).at_most(
            #[trigger] ops.logarithm(b),
        )
    &&& forall|a: Scalar| alike(a, unit()) ==> zero(#[trigger] ops.logarithm(a))
}

/// The largest count up to which every count is a number of its own.
pub const EXACT_COUNTS: u64 = 0x100_0000;

/// Counts that are small enough are added without rounding, and their quotients are in the order of
/// the fractions that they stand for.
#[verifier::opaque]
pub open spec fn counts_are_exact<T: Numerics>(ops: T) -> bool {
    &&& forall|a: u64, b: u64|
        #![trigger ops.sum(ops.number(a), ops.number(b))]
        a + b <= EXACT_COUNTS ==> ops.sum(ops.number(a), ops.number(b)) == ops.number(
            (a + b) as u64,
        )
    &&& forall|a: u64, b: u64, c: u64, d: u64|
        #![trigger ops.quotient(ops.number(a), ops.number(b)), ops.quotient(ops.number(c), ops.number(d))]
        0 < b <= EXACT_COUNTS && 0 < d <= EXACT_COUNTS && a <= EXACT_COUNTS && c <= EXACT_COUNTS
            && a * d <= c * b ==> ops.quotient(ops.number(a), ops.number(b)).at_most(
            ops.quotient(ops.number(c), ops.number(d)),
        )
}

/// The arithmetic keeps order.
pub open spec fn orderly<T: Numerics>(ops: T) -> bool {
    &&& sums_keep_order(ops)
    &&& differences_keep_order(ops)
    &&& products_keep_order(ops)
    &&& quotients_keep_order(ops)
    &&& counts_keep_order(ops)
    &&& counts_are_exact(ops)
    &&& powers_keep_order(ops)
    &&& exponentials_keep_order(ops)
    &&& logarithms_keep_order(ops)
}

/// One is positive and finite.
pub proof fn lemma_unit()
    ensures
        nought().below(unit()),
        unit().finite(),
        zero(nought()),
{
}

/// The same sum of no larger terms is no larger.
pub proof fn lemma_sum<T: Numerics>(ops: T, a: Scalar, b: Scalar, c: Scalar, d: Scalar)
    requires
        sums_keep_order(ops),
        a.at_most(b),
        c.at_most(d),
        !ops.sum(a, c).nan(),
        !ops.sum(b, d).nan(),
    ensures
        ops.sum(a, c).at_most(ops.sum(b, d)),
{
    reveal(sums_keep_order);
}

/// The terms of a sum that is a number are numbers.
pub proof fn lemma_terms<T: Numerics>(ops: T, a: Scalar, b: Scalar)
    requires
        sums_keep_order(ops),
        !ops.sum(a, b).nan(),
    ensures
        !a.nan(),
        !b.nan(),
{
    reveal(sums_keep_order);
}

/// A sum with zero has the value of the other term.
pub proof fn lemma_sum_with_zero<T: Numerics>(ops: T, a: Scalar, z: Scalar)
    requires
        sums_keep_order(ops),
        !a.nan(),
        zero(z),
    ensures
        alike(ops.sum(a, z), a),
        alike(ops.sum(z, a), a),
{
    reveal(sums_keep_order);
}

/// A difference of a no larger number and a no smaller one is no larger.
pub proof fn lemma_difference<T: Numerics>(ops: T, a: Scalar, b: Scalar, c: Scalar, d: Scalar)
    requires
        differences_keep_order(ops),
        a.at_most(b),
        d.at_most(c),
        !ops.difference(a, c).nan(),
        !ops.difference(b, d).nan(),
    ensures
        ops.difference(a, c).at_most(ops.difference(b, d)),
{
    reveal(differences_keep_order);
}

/// What a difference that is a number is made of are numbers.
pub proof fn lemma_operands<T: Numerics>(ops: T, a: Scalar, b: Scalar)
    requires
        differences_keep_order(ops),
        !ops.difference(a, b).nan(),
    ensures
        !a.nan(),
        !b.nan(),
{
    reveal(differences_keep_order);
}

/// Zero in a difference.
pub proof fn lemma_difference_with_zero<T: Numerics>(ops: T, a: Scalar, z: Scalar)
    requires
        differences_keep_order(ops),
        !a.nan(),
        zero(z),
    ensures
        alike(ops.difference(a, z), a),
        mirrored(ops.difference(z, a), a),
{
    reveal(differences_keep_order);
}

/// A number less an equal one is zero.
pub proof fn lemma_difference_of_equals<T: Numerics>(ops: T, a: Scalar, b: Scalar)
    requires
        differences_keep_order(ops),
        a.finite(),
        alike(a, b),
    ensures
        zero(ops.difference(a, b)),
{
    reveal(differences_keep_order);
}

/// A product with a factor that is not negative grows with the other factor.
pub proof fn lemma_product<T: Numerics>(ops: T, k: Scalar, a: Scalar, b: Scalar)
    requires
        products_keep_order(ops),
        plus_or_zero(k),
        a.at_most(b),
    ensures
        !ops.product(k, a).nan() && !ops.product(k, b).nan() ==> ops.product(k, a).at_most(
            ops.product(k, b),
        ),
        !ops.product(a, k).nan() && !ops.product(b, k).nan() ==> ops.product(a, k).at_most(
            ops.product(b, k),
        ),
{
    reveal(products_keep_order);
}

/// The factors of a product that is a number are numbers.
pub proof fn lemma_factors<T: Numerics>(ops: T, a: Scalar, b: Scalar)
    requires
        products_keep_order(ops),
        !ops.product(a, b).nan(),
    ensures
        !a.nan(),
        !b.nan(),
{
    reveal(products_keep_order);
}

/// The sign of a product follows from those of its factors.
pub proof fn lemma_sign<T: Numerics>(ops: T, a: Scalar, b: Scalar)
    requires
        products_keep_order(ops),
        !ops.product(a, b).nan(),
    ensures
        plus_or_zero(a) && plus_or_zero(b) ==> plus_or_zero(ops.product(a, b)),
        minus_or_zero(a) && minus_or_zero(b) ==> plus_or_zero(ops.product(a, b)),
        plus_or_zero(a) && minus_or_zero(b) ==> minus_or_zero(ops.product(a, b)),
        minus_or_zero(a) && plus_or_zero(b) ==> minus_or_zero(ops.product(a, b)),
{
    reveal(products_keep_order);
}

/// Turning the sign of a factor turns the sign of a product.
pub proof fn lemma_turned<T: Numerics>(ops: T, a: Scalar, b: Scalar)
    requires
        products_keep_order(ops),
        !ops.product(a, b).nan(),
    ensures
        mirrored(ops.product(a.opposite(), b), ops.product(a, b)),
        mirrored(ops.product(a, b.opposite()), ops.product(a, b)),
{
    reveal(products_keep_order);
}

/// A product with a factor that is not positive falls with the other factor.
pub proof fn lemma_product_falls<T: Numerics>(ops: T, k: Scalar, a: Scalar, b: Scalar)
    requires
        products_keep_order(ops),
        minus_or_zero(k),
        a.at_most(b),
        !ops.product(k, a).nan(),
        !ops.product(k, b).nan(),
    ensures
        ops.product(k, b).at_most(ops.product(k, a)),
{
    let t = k.opposite();
    assert(t.opposite() == k);
    lemma_turned(ops, k, a);
    lemma_turned(ops, k, b);
    lemma_product(ops, t, a, b);
}

/// One and zero in a product.
pub proof fn lemma_product_with_one_and_zero<T: Numerics>(ops: T, a: Scalar, z: Scalar)
    requires
        products_keep_order(ops),
        !a.nan(),
    ensures
        alike(ops.product(a, unit()), a),
        alike(ops.product(unit(), a), a),
        a.finite() && zero(z) ==> zero(ops.product(a, z)),
        a.finite() && zero(z) ==> zero(ops.product(z, a)),
{
    reveal(products_keep_order);
}

/// Minus one.
pub open spec fn minus_one() -> Scalar {
    unit().opposite()
}

/// A number that is neither zero nor NaN is told apart from all others by its value.
pub proof fn lemma_same_bits(a: Scalar, b: Scalar)
    requires
        alike(a, b) || mirrored(a, b.opposite()),
        !zero(b),
    ensures
        a == b,
{
}

/// One leaves a number as it is, and minus one turns its sign.
pub proof fn lemma_ones<T: Numerics>(ops: T, a: Scalar)
    requires
        products_keep_order(ops),
        !a.nan(),
        !zero(a),
    ensures
        ops.product(unit(), a) == a,
        ops.product(a, unit()) == a,
        ops.product(minus_one(), a) == a.opposite(),
        ops.product(a, minus_one()) == a.opposite(),
{
    lemma_product_with_one_and_zero(ops, a, a);
    lemma_same_bits(ops.product(unit(), a), a);
    lemma_same_bits(ops.product(a, unit()), a);
    lemma_turned(ops, unit(), a);
    lemma_turned(ops, a, unit());
    lemma_same_bits(ops.product(minus_one(), a), a.opposite());
    lemma_same_bits(ops.product(a, minus_one()), a.opposite());
}

} // verus!

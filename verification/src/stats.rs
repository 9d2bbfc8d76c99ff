//! Closed-form statistics: mean, variance, standard deviation and exceedance
//! probability, each a weighted aggregation over the shapes normalized by the
//! total weight, and each returning exactly 0.0 on a zero-total distribution.

use vstd::prelude::*;
use crate::num::{Num, add_bits, sub_bits, mul_bits, div_bits, sqrt_bits, exp_bits,
    f_eq, f_lt, f_le, f_neg, f_is_nan, f_is_finite, lemma_const_facts,
    BITS_ZERO, BITS_ONE, BITS_TWO, BITS_TWELVE, BITS_NEG_ZERO};
use crate::num::{num_add, num_sub, num_mul, num_div, num_sqrt, num_exp, num_eq, num_lt, num_le, num_neg};
use crate::dist::{Component, spec_weight, get_weight};
use crate::codec::{spec_decode, parse_components};

verus! {

/// Left-fold of the first `i` component weights, starting from 0.0.
pub open spec fn acc_weight(d: Seq<Component>, i: int) -> u64
    decreases i,
{
    if i <= 0 {
        BITS_ZERO
    } else {
        add_bits(acc_weight(d, i - 1), spec_weight(d[i - 1]).bits)
    }
}

/// The total weight of a distribution: the left-to-right sum of its weights.
pub open spec fn spec_total_weight(d: Seq<Component>) -> u64 {
    acc_weight(d, d.len() as int)
}

/// Total weight of a component vector; a single component of weight one
/// gives exactly one.
pub fn total_weight(components: &Vec<Component>) -> (t: Num)
    ensures
        t.bits == spec_total_weight(components@),
        components@.len() == 1 && spec_weight(components@[0]).bits == BITS_ONE ==> t.bits
            == BITS_ONE,
{
    proof {
        lemma_const_facts();
    }
    let mut sum = Num { bits: BITS_ZERO };
    let mut i: usize = 0;
    while i < components.len()
        invariant
            i <= components@.len(),
            sum.bits == acc_weight(components@, i as int),
            components@.len() == 1 && spec_weight(components@[0]).bits == BITS_ONE && i > 0
                ==> sum.bits == BITS_ONE,
        decreases components@.len() - i,
    {
        proof {
            lemma_const_facts();
        }
        sum = num_add(sum, get_weight(&components[i]));
        i += 1;
    }
    sum
}

/// One component's contribution to the mean numerator: its own mean times
/// its weight.
pub open spec fn mean_term(c: Component) -> u64 {
    match c {
        Component::Atom { x, p } => mul_bits(x.bits, p.bits),
        Component::Bin { a, b, p } => mul_bits(div_bits(add_bits(a.bits, b.bits), BITS_TWO), p.bits),
        Component::Tail { x0, mass, lambda, is_right } => {
            let em = if is_right {
                add_bits(x0.bits, div_bits(BITS_ONE, lambda.bits))
            } else {
                sub_bits(x0.bits, div_bits(BITS_ONE, lambda.bits))
            };
            mul_bits(em, mass.bits)
        }
    }
}

pub open spec fn acc_mean(d: Seq<Component>, i: int) -> u64
    decreases i,
{
    if i <= 0 {
        BITS_ZERO
    } else {
        add_bits(acc_mean(d, i - 1), mean_term(d[i - 1]))
    }
}

/// The midpoint `(a + b) / 2` of a uniform interval, the shape's own mean.
pub open spec fn bin_center(a: Num, b: Num) -> u64 {
    div_bits(add_bits(a.bits, b.bits), BITS_TWO)
}

/// The internal variance `(b - a)^2 / 12` of a uniform interval.
pub open spec fn bin_internal_var(a: Num, b: Num) -> u64 {
    div_bits(mul_bits(sub_bits(b.bits, a.bits), sub_bits(b.bits, a.bits)), BITS_TWELVE)
}

/// The mean of a distribution: weighted average of the shape means, 0.0 when
/// the total weight is the double 0.0.
pub open spec fn spec_dist_mean(d: Seq<Component>) -> u64 {
    if f_eq(spec_total_weight(d), BITS_ZERO) {
        BITS_ZERO
    } else {
        div_bits(acc_mean(d, d.len() as int), spec_total_weight(d))
    }
}

/// Mean of an encoded distribution; for a single unit-weight Bin it is
/// exactly the interval midpoint, whenever that midpoint is an ordinary
/// value (not NaN and not negative zero).
pub fn dist_mean(components_data: &Vec<Num>) -> (r: Num)
    ensures
        r.bits == spec_dist_mean(spec_decode(components_data@)),
        ({
            let d = spec_decode(components_data@);
            d.len() == 1 ==> match d[0] {
                Component::Bin { a, b, p } => (p.bits == BITS_ONE && !f_is_nan(bin_center(a, b))
                    && bin_center(a, b) != BITS_NEG_ZERO) ==> r.bits == bin_center(a, b),
                _ => true,
            }
        }),
{
    proof {
        lemma_const_facts();
    }
    let components = parse_components(components_data);
    let total_p = total_weight(&components);
    if num_eq(total_p, Num { bits: BITS_ZERO }) {
        return Num { bits: BITS_ZERO };
    }
    let mut sum = Num { bits: BITS_ZERO };
    let mut i: usize = 0;
    while i < components.len()
        invariant
            i <= components@.len(),
            sum.bits == acc_mean(components@, i as int),
            ({
                components@.len() == 1 && i > 0 ==> match components@[0] {
                    Component::Bin { a, b, p } => (p.bits == BITS_ONE && !f_is_nan(
                        bin_center(a, b),
                    ) && bin_center(a, b) != BITS_NEG_ZERO) ==> sum.bits == bin_center(a, b),
                    _ => true,
                }
            }),
        decreases components@.len() - i,
    {
        let c = components[i];
        let term = match c {
            Component::Atom { x, p } => num_mul(x, p),
            Component::Bin { a, b, p } => num_mul(num_div(num_add(a, b), Num { bits: BITS_TWO }), p),
            Component::Tail { x0, mass, lambda, is_right } => {
                let inv = num_div(Num { bits: BITS_ONE }, lambda);
                let em = if is_right { num_add(x0, inv) } else { num_sub(x0, inv) };
                num_mul(em, mass)
            }
        };
        sum = num_add(sum, term);
        i += 1;
    }
    num_div(sum, total_p)
}

/// One component's contribution to the variance numerator, by the law of
/// total variance: squared distance of the shape mean from `m` plus the
/// shape's internal variance, times its weight.
pub open spec fn var_term(c: Component, m: u64) -> u64 {
    match c {
        Component::Atom { x, p } => {
            let dm = sub_bits(x.bits, m);
            mul_bits(mul_bits(dm, dm), p.bits)
        }
        Component::Bin { a, b, p } => {
            let center = div_bits(add_bits(a.bits, b.bits), BITS_TWO);
            let width = sub_bits(b.bits, a.bits);
            let internal = div_bits(mul_bits(width, width), BITS_TWELVE);
            let dm = sub_bits(center, m);
            mul_bits(add_bits(mul_bits(dm, dm), internal), p.bits)
        }
        Component::Tail { x0, mass, lambda, is_right } => {
            let em = if is_right {
                add_bits(x0.bits, div_bits(BITS_ONE, lambda.bits))
            } else {
                sub_bits(x0.bits, div_bits(BITS_ONE, lambda.bits))
            };
            let ev = div_bits(BITS_ONE, mul_bits(lambda.bits, lambda.bits));
            let dm = sub_bits(em, m);
            mul_bits(add_bits(mul_bits(dm, dm), ev), mass.bits)
        }
    }
}

pub open spec fn acc_var(d: Seq<Component>, m: u64, i: int) -> u64
    decreases i,
{
    if i <= 0 {
        BITS_ZERO
    } else {
        add_bits(acc_var(d, m, i - 1), var_term(d[i - 1], m))
    }
}

/// The variance of a distribution, 0.0 when the total weight is the double 0.0.
pub open spec fn spec_dist_variance(d: Seq<Component>) -> u64 {
    if f_eq(spec_total_weight(d), BITS_ZERO) {
        BITS_ZERO
    } else {
        div_bits(acc_var(d, spec_dist_mean(d), d.len() as int), spec_total_weight(d))
    }
}

/// Variance of an encoded distribution; for a single unit-weight Bin it is
/// exactly the interval's internal variance `(b - a)^2 / 12`, whenever the
/// midpoint is finite and the internal variance is an ordinary value.
pub fn dist_variance(components_data: &Vec<Num>) -> (r: Num)
    ensures
        r.bits == spec_dist_variance(spec_decode(components_data@)),
        ({
            let d = spec_decode(components_data@);
            d.len() == 1 ==> match d[0] {
                Component::Bin { a, b, p } => (p.bits == BITS_ONE && f_is_finite(bin_center(a, b))
                    && bin_center(a, b) != BITS_NEG_ZERO && !f_is_nan(bin_internal_var(a, b))
                    && bin_internal_var(a, b) != BITS_NEG_ZERO) ==> r.bits == bin_internal_var(
                    a,
                    b,
                ),
                _ => true,
            }
        }),
{
    proof {
        lemma_const_facts();
    }
    let components = parse_components(components_data);
    let total_p = total_weight(&components);
    if num_eq(total_p, Num { bits: BITS_ZERO }) {
        return Num { bits: BITS_ZERO };
    }
    let mean = dist_mean(components_data);
    let mut sum_sq = Num { bits: BITS_ZERO };
    let mut i: usize = 0;
    while i < components.len()
        invariant
            i <= components@.len(),
            mean.bits == spec_dist_mean(components@),
            sum_sq.bits == acc_var(components@, mean.bits, i as int),
            ({
                components@.len() == 1 && i > 0 ==> match components@[0] {
                    Component::Bin { a, b, p } => (p.bits == BITS_ONE && f_is_finite(
                        bin_center(a, b),
                    ) && bin_center(a, b) != BITS_NEG_ZERO && !f_is_nan(bin_internal_var(a, b))
                        && bin_internal_var(a, b) != BITS_NEG_ZERO && mean.bits == bin_center(a, b))
                        ==> sum_sq.bits == bin_internal_var(a, b),
                    _ => true,
                }
            }),
        decreases components@.len() - i,
    {
        let c = components[i];
        let term = match c {
            Component::Atom { x, p } => {
                let dm = num_sub(x, mean);
                num_mul(num_mul(dm, dm), p)
            }
            Component::Bin { a, b, p } => {
                let center = num_div(num_add(a, b), Num { bits: BITS_TWO });
                let width = num_sub(b, a);
                let internal = num_div(num_mul(width, width), Num { bits: BITS_TWELVE });
                let dm = num_sub(center, mean);
                num_mul(num_add(num_mul(dm, dm), internal), p)
            }
            Component::Tail { x0, mass, lambda, is_right } => {
                let inv = num_div(Num { bits: BITS_ONE }, lambda);
                let em = if is_right { num_add(x0, inv) } else { num_sub(x0, inv) };
                let ev = num_div(Num { bits: BITS_ONE }, num_mul(lambda, lambda));
                let dm = num_sub(em, mean);
                num_mul(num_add(num_mul(dm, dm), ev), mass)
            }
        };
        sum_sq = num_add(sum_sq, term);
        i += 1;
    }
    num_div(sum_sq, total_p)
}

/// Standard deviation: the square root of the variance.
pub fn dist_std(components_data: &Vec<Num>) -> (r: Num)
    ensures
        r.bits == sqrt_bits(spec_dist_variance(spec_decode(components_data@))),
{
    num_sqrt(dist_variance(components_data))
}

/// Running sum over the first `i` components of the mass that lies strictly
/// above the threshold `x`.
pub open spec fn acc_gt(d: Seq<Component>, x: u64, i: int) -> u64
    decreases i,
{
    if i <= 0 {
        BITS_ZERO
    } else {
        let prev = acc_gt(d, x, i - 1);
        match d[i - 1] {
            Component::Atom { x: ax, p } => {
                if f_lt(x, ax.bits) { add_bits(prev, p.bits) } else { prev }
            }
            Component::Bin { a, b, p } => {
                if f_lt(x, a.bits) {
                    add_bits(prev, p.bits)
                } else if f_lt(x, b.bits) {
                    add_bits(prev, mul_bits(p.bits, div_bits(sub_bits(b.bits, x), sub_bits(b.bits, a.bits))))
                } else {
                    prev
                }
            }
            Component::Tail { x0, mass, lambda, is_right } => {
                if is_right {
                    if f_lt(x, x0.bits) {
                        add_bits(prev, mass.bits)
                    } else {
                        add_bits(prev, mul_bits(mass.bits, exp_bits(mul_bits(f_neg(sub_bits(x, x0.bits)), lambda.bits))))
                    }
                } else {
                    if f_le(x0.bits, x) {
                        prev
                    } else {
                        add_bits(prev, mul_bits(mass.bits, sub_bits(BITS_ONE, exp_bits(mul_bits(f_neg(sub_bits(x0.bits, x)), lambda.bits)))))
                    }
                }
            }
        }
    }
}

/// P(X > x): the exceedance mass over the total weight, 0.0 when the total
/// weight is the double 0.0.
pub open spec fn spec_dist_prob_gt(d: Seq<Component>, x: u64) -> u64 {
    if f_eq(spec_total_weight(d), BITS_ZERO) {
        BITS_ZERO
    } else {
        div_bits(acc_gt(d, x, d.len() as int), spec_total_weight(d))
    }
}

/// Probability that a draw from the encoded distribution exceeds `x`.
pub fn dist_prob_gt(components_data: &Vec<Num>, x: Num) -> (r: Num)
    ensures
        r.bits == spec_dist_prob_gt(spec_decode(components_data@), x.bits),
{
    let components = parse_components(components_data);
    let total_p = total_weight(&components);
    if num_eq(total_p, Num { bits: BITS_ZERO }) {
        return Num { bits: BITS_ZERO };
    }
    let mut prob = Num { bits: BITS_ZERO };
    let mut i: usize = 0;
    while i < components.len()
        invariant
            i <= components@.len(),
            prob.bits == acc_gt(components@, x.bits, i as int),
        decreases components@.len() - i,
    {
        let c = components[i];
        match c {
            Component::Atom { x: ax, p } => {
                if num_lt(x, ax) {
                    prob = num_add(prob, p);
                }
            }
            Component::Bin { a, b, p } => {
                if num_lt(x, a) {
                    prob = num_add(prob, p);
                } else if num_lt(x, b) {
                    let fraction = num_div(num_sub(b, x), num_sub(b, a));
                    prob = num_add(prob, num_mul(p, fraction));
                }
            }
            Component::Tail { x0, mass, lambda, is_right } => {
                if is_right {
                    if num_lt(x, x0) {
                        prob = num_add(prob, mass);
                    } else {
                        let decay = num_exp(num_mul(num_neg(num_sub(x, x0)), lambda));
                        prob = num_add(prob, num_mul(mass, decay));
                    }
                } else {
                    if num_le(x0, x) {
                    } else {
                        let decay = num_exp(num_mul(num_neg(num_sub(x0, x)), lambda));
                        prob = num_add(prob, num_mul(mass, num_sub(Num { bits: BITS_ONE }, decay)));
                    }
                }
            }
        }
        i += 1;
    }
    num_div(prob, total_p)
}

} // verus!

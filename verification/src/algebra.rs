//! Distribution algebra: pairwise convolution of independent sums, linear
//! mixing, and affine scaling of locations.

use vstd::prelude::*;
use crate::num::{Num, add_bits, sub_bits, mul_bits, div_bits, sqrt_bits,
    f_le, f_abs, f_neg, f_is_nan, lemma_const_facts,
    BITS_ZERO, BITS_ONE, BITS_TWO, BITS_TWELVE, BITS_NEG_ONE};
use crate::num::{num_add, num_sub, num_mul, num_div, num_sqrt, num_le, num_abs};
use crate::dist::{Component, spec_weight};
use crate::codec::{spec_decode, spec_encode, parse_components, serialize_components};

verus! {

/// The combined shape of an independent pair, when one exists: Atom+Atom
/// shifts locations, Atom+Bin shifts the interval, Bin+Bin matches moments,
/// and every pairing that involves a Tail is dropped (an intentional,
/// documented mass loss).
pub open spec fn spec_convolve_pair(c1: Component, c2: Component) -> Option<Component> {
    match (c1, c2) {
        (Component::Atom { x: x1, p: p1 }, Component::Atom { x: x2, p: p2 }) => Some(
            Component::Atom {
                x: Num { bits: add_bits(x1.bits, x2.bits) },
                p: Num { bits: mul_bits(p1.bits, p2.bits) },
            },
        ),
        (Component::Atom { x, p: p1 }, Component::Bin { a, b, p: p2 }) => Some(
            Component::Bin {
                a: Num { bits: add_bits(a.bits, x.bits) },
                b: Num { bits: add_bits(b.bits, x.bits) },
                p: Num { bits: mul_bits(p1.bits, p2.bits) },
            },
        ),
        (Component::Bin { a, b, p: p2 }, Component::Atom { x, p: p1 }) => Some(
            Component::Bin {
                a: Num { bits: add_bits(a.bits, x.bits) },
                b: Num { bits: add_bits(b.bits, x.bits) },
                p: Num { bits: mul_bits(p1.bits, p2.bits) },
            },
        ),
        (Component::Bin { a: a1, b: b1, p: p1 }, Component::Bin { a: a2, b: b2, p: p2 }) => {
            let w1 = sub_bits(b1.bits, a1.bits);
            let w2 = sub_bits(b2.bits, a2.bits);
            let v1 = div_bits(mul_bits(w1, w1), BITS_TWELVE);
            let v2 = div_bits(mul_bits(w2, w2), BITS_TWELVE);
            let new_var = add_bits(v1, v2);
            let new_width = sqrt_bits(mul_bits(BITS_TWELVE, new_var));
            let center1 = div_bits(add_bits(a1.bits, b1.bits), BITS_TWO);
            let center2 = div_bits(add_bits(a2.bits, b2.bits), BITS_TWO);
            let new_mean = add_bits(center1, center2);
            Some(
                Component::Bin {
                    a: Num { bits: sub_bits(new_mean, div_bits(new_width, BITS_TWO)) },
                    b: Num { bits: add_bits(new_mean, div_bits(new_width, BITS_TWO)) },
                    p: Num { bits: mul_bits(p1.bits, p2.bits) },
                },
            )
        }
        _ => None,
    }
}

/// Convolve one pair of components.
pub fn convolve_pair(c1: &Component, c2: &Component) -> (r: Option<Component>)
    ensures
        r == spec_convolve_pair(*c1, *c2),
{
    match (c1, c2) {
        (Component::Atom { x: x1, p: p1 }, Component::Atom { x: x2, p: p2 }) => Some(
            Component::Atom { x: num_add(*x1, *x2), p: num_mul(*p1, *p2) },
        ),
        (Component::Atom { x, p: p1 }, Component::Bin { a, b, p: p2 }) => Some(
            Component::Bin { a: num_add(*a, *x), b: num_add(*b, *x), p: num_mul(*p1, *p2) },
        ),
        (Component::Bin { a, b, p: p2 }, Component::Atom { x, p: p1 }) => Some(
            Component::Bin { a: num_add(*a, *x), b: num_add(*b, *x), p: num_mul(*p1, *p2) },
        ),
        (Component::Bin { a: a1, b: b1, p: p1 }, Component::Bin { a: a2, b: b2, p: p2 }) => {
            let w1 = num_sub(*b1, *a1);
            let w2 = num_sub(*b2, *a2);
            let v1 = num_div(num_mul(w1, w1), Num { bits: BITS_TWELVE });
            let v2 = num_div(num_mul(w2, w2), Num { bits: BITS_TWELVE });
            let new_var = num_add(v1, v2);
            let new_width = num_sqrt(num_mul(Num { bits: BITS_TWELVE }, new_var));
            let center1 = num_div(num_add(*a1, *b1), Num { bits: BITS_TWO });
            let center2 = num_div(num_add(*a2, *b2), Num { bits: BITS_TWO });
            let new_mean = num_add(center1, center2);
            let half_w = num_div(new_width, Num { bits: BITS_TWO });
            Some(
                Component::Bin {
                    a: num_sub(new_mean, half_w),
                    b: num_add(new_mean, half_w),
                    p: num_mul(*p1, *p2),
                },
            )
        }
        _ => None,
    }
}

pub open spec fn opt_seq(o: Option<Component>) -> Seq<Component> {
    match o {
        Some(c) => seq![c],
        None => seq![],
    }
}

/// The surviving pairs of one left component against the first `j` right
/// components, in encounter order.
pub open spec fn acc_row(c1: Component, d2: Seq<Component>, j: int) -> Seq<Component>
    decreases j,
{
    if j <= 0 {
        seq![]
    } else {
        acc_row(c1, d2, j - 1) + opt_seq(spec_convolve_pair(c1, d2[j - 1]))
    }
}

pub open spec fn acc_conv(d1: Seq<Component>, d2: Seq<Component>, i: int) -> Seq<Component>
    decreases i,
{
    if i <= 0 {
        seq![]
    } else {
        acc_conv(d1, d2, i - 1) + acc_row(d1[i - 1], d2, d2.len() as int)
    }
}

/// The full cross-product convolution, flattened in encounter order.
pub open spec fn spec_convolve(d1: Seq<Component>, d2: Seq<Component>) -> Seq<Component> {
    acc_conv(d1, d2, d1.len() as int)
}

/// Convolve two encoded distributions; the result is the encoded list of all
/// surviving pairwise shapes.
pub fn convolve_distributions(dist1_data: &Vec<Num>, dist2_data: &Vec<Num>) -> (r: Vec<Num>)
    ensures
        r@ == spec_encode(spec_convolve(spec_decode(dist1_data@), spec_decode(dist2_data@))),
{
    let comps1 = parse_components(dist1_data);
    let comps2 = parse_components(dist2_data);
    let mut result: Vec<Component> = Vec::new();
    let mut i: usize = 0;
    while i < comps1.len()
        invariant
            i <= comps1@.len(),
            result@ == acc_conv(comps1@, comps2@, i as int),
        decreases comps1@.len() - i,
    {
        let mut j: usize = 0;
        while j < comps2.len()
            invariant
                i < comps1@.len(),
                j <= comps2@.len(),
                result@ == acc_conv(comps1@, comps2@, i as int) + acc_row(comps1@[i as int], comps2@, j as int),
            decreases comps2@.len() - j,
        {
            let ghost before = result@;
            match convolve_pair(&comps1[i], &comps2[j]) {
                Some(c) => {
                    result.push(c);
                    proof {
                        assert(result@ =~= before + opt_seq(spec_convolve_pair(comps1@[i as int], comps2@[j as int])));
                    }
                }
                None => {
                    proof {
                        assert(result@ =~= before + opt_seq(spec_convolve_pair(comps1@[i as int], comps2@[j as int])));
                    }
                }
            }
            proof {
                assert(result@ =~= acc_conv(comps1@, comps2@, i as int) + acc_row(comps1@[i as int], comps2@, j as int + 1));
            }
            j += 1;
        }
        i += 1;
    }
    serialize_components(&result)
}

/// The component with its weight multiplied by `factor`; locations, rates
/// and directions are untouched.
pub open spec fn spec_scale_weight(c: Component, factor: u64) -> Component {
    match c {
        Component::Atom { x, p } => Component::Atom { x, p: Num { bits: mul_bits(p.bits, factor) } },
        Component::Bin { a, b, p } => Component::Bin { a, b, p: Num { bits: mul_bits(p.bits, factor) } },
        Component::Tail { x0, mass, lambda, is_right } => Component::Tail {
            x0,
            mass: Num { bits: mul_bits(mass.bits, factor) },
            lambda,
            is_right,
        },
    }
}

/// Scale a component's probability weight.
pub fn scale_component(c: &Component, factor: Num) -> (r: Component)
    ensures
        r == spec_scale_weight(*c, factor.bits),
{
    match c {
        Component::Atom { x, p } => Component::Atom { x: *x, p: num_mul(*p, factor) },
        Component::Bin { a, b, p } => Component::Bin { a: *a, b: *b, p: num_mul(*p, factor) },
        Component::Tail { x0, mass, lambda, is_right } => Component::Tail {
            x0: *x0,
            mass: num_mul(*mass, factor),
            lambda: *lambda,
            is_right: *is_right,
        },
    }
}

/// The first `i` components of `d`, each with its weight scaled by `f`.
pub open spec fn acc_scaled(d: Seq<Component>, f: u64, i: int) -> Seq<Component>
    decreases i,
{
    if i <= 0 {
        seq![]
    } else {
        acc_scaled(d, f, i - 1).push(spec_scale_weight(d[i - 1], f))
    }
}

/// The mix of two distributions: the first scaled by `1 - p`, the second by
/// `p`, concatenated in order.
pub open spec fn spec_mix(d1: Seq<Component>, d2: Seq<Component>, p: u64) -> Seq<Component> {
    acc_scaled(d1, sub_bits(BITS_ONE, p), d1.len() as int) + acc_scaled(d2, p, d2.len() as int)
}

/// Mix two encoded distributions: the result holds the first scaled by
/// `1 - p` followed by the second scaled by `p`.
pub fn dist_mix(dist1_data: &Vec<Num>, dist2_data: &Vec<Num>, p: Num) -> (r: Vec<Num>)
    ensures
        r@ == spec_encode(spec_mix(spec_decode(dist1_data@), spec_decode(dist2_data@), p.bits)),
{
    let comps1 = parse_components(dist1_data);
    let comps2 = parse_components(dist2_data);
    let f1 = num_sub(Num { bits: BITS_ONE }, p);
    let mut result: Vec<Component> = Vec::new();
    let mut i: usize = 0;
    while i < comps1.len()
        invariant
            i <= comps1@.len(),
            f1.bits == sub_bits(BITS_ONE, p.bits),
            result@ == acc_scaled(comps1@, f1.bits, i as int),
        decreases comps1@.len() - i,
    {
        let scaled = scale_component(&comps1[i], f1);
        result.push(scaled);
        i += 1;
    }
    proof {
        assert(result@ =~= acc_scaled(comps1@, f1.bits, comps1@.len() as int) + acc_scaled(comps2@, p.bits, 0));
    }
    let mut j: usize = 0;
    while j < comps2.len()
        invariant
            j <= comps2@.len(),
            f1.bits == sub_bits(BITS_ONE, p.bits),
            result@ == acc_scaled(comps1@, f1.bits, comps1@.len() as int) + acc_scaled(comps2@, p.bits, j as int),
        decreases comps2@.len() - j,
    {
        let ghost before = result@;
        let scaled = scale_component(&comps2[j], p);
        result.push(scaled);
        proof {
            assert(result@ =~= acc_scaled(comps1@, f1.bits, comps1@.len() as int) + acc_scaled(comps2@, p.bits, j as int + 1));
        }
        j += 1;
    }
    serialize_components(&result)
}

/// The component with its locations rescaled by `k`: an Atom moves, a Bin's
/// endpoints swap order under a negative factor, a Tail's rate divides by
/// `|k|` and its direction flips under a negative factor. Weights never move.
pub open spec fn spec_scale_shape(c: Component, k: u64) -> Component {
    match c {
        Component::Atom { x, p } => Component::Atom { x: Num { bits: mul_bits(x.bits, k) }, p },
        Component::Bin { a, b, p } => {
            if f_le(BITS_ZERO, k) {
                Component::Bin {
                    a: Num { bits: mul_bits(a.bits, k) },
                    b: Num { bits: mul_bits(b.bits, k) },
                    p,
                }
            } else {
                Component::Bin {
                    a: Num { bits: mul_bits(b.bits, k) },
                    b: Num { bits: mul_bits(a.bits, k) },
                    p,
                }
            }
        }
        Component::Tail { x0, mass, lambda, is_right } => Component::Tail {
            x0: Num { bits: mul_bits(x0.bits, k) },
            mass,
            lambda: Num { bits: div_bits(lambda.bits, f_abs(k)) },
            is_right: if f_le(BITS_ZERO, k) { is_right } else { !is_right },
        },
    }
}

pub open spec fn acc_shapes(d: Seq<Component>, k: u64, i: int) -> Seq<Component>
    decreases i,
{
    if i <= 0 {
        seq![]
    } else {
        acc_shapes(d, k, i - 1).push(spec_scale_shape(d[i - 1], k))
    }
}

/// Rescale every location of an encoded distribution by `k`. Under the
/// factor minus one, a single non-NaN Bin comes back with its endpoints
/// sign-flipped and swapped, and a single non-NaN Tail comes back with its
/// location sign-flipped, its direction reversed and its rate and weight
/// untouched.
pub fn dist_scale(components_data: &Vec<Num>, k: Num) -> (r: Vec<Num>)
    ensures
        r@ == spec_encode(acc_shapes(spec_decode(components_data@), k.bits, spec_decode(components_data@).len() as int)),
        ({
            let d = spec_decode(components_data@);
            d.len() == 1 && k.bits == BITS_NEG_ONE ==> match d[0] {
                Component::Bin { a, b, p } => (!f_is_nan(a.bits) && !f_is_nan(b.bits)) ==> r@
                    == spec_encode(
                    seq![
                        Component::Bin {
                            a: Num { bits: f_neg(b.bits) },
                            b: Num { bits: f_neg(a.bits) },
                            p,
                        },
                    ],
                ),
                Component::Tail { x0, mass, lambda, is_right } => (!f_is_nan(x0.bits)
                    && !f_is_nan(lambda.bits)) ==> r@ == spec_encode(
                    seq![
                        Component::Tail {
                            x0: Num { bits: f_neg(x0.bits) },
                            mass,
                            lambda,
                            is_right: !is_right,
                        },
                    ],
                ),
                _ => true,
            }
        }),
{
    proof {
        lemma_const_facts();
    }
    let components = parse_components(components_data);
    let mut result: Vec<Component> = Vec::new();
    let mut i: usize = 0;
    while i < components.len()
        invariant
            i <= components@.len(),
            result@ == acc_shapes(components@, k.bits, i as int),
            ({
                components@.len() == 1 && k.bits == BITS_NEG_ONE && i > 0 ==> match components@[0] {
                    Component::Bin { a, b, p } => (!f_is_nan(a.bits) && !f_is_nan(b.bits))
                        ==> result@ == seq![
                        Component::Bin {
                            a: Num { bits: f_neg(b.bits) },
                            b: Num { bits: f_neg(a.bits) },
                            p,
                        },
                    ],
                    Component::Tail { x0, mass, lambda, is_right } => (!f_is_nan(x0.bits)
                        && !f_is_nan(lambda.bits)) ==> result@ == seq![
                        Component::Tail {
                            x0: Num { bits: f_neg(x0.bits) },
                            mass,
                            lambda,
                            is_right: !is_right,
                        },
                    ],
                    _ => true,
                }
            }),
        decreases components@.len() - i,
    {
        proof {
            lemma_const_facts();
        }
        let c = components[i];
        let scaled = match c {
            Component::Atom { x, p } => Component::Atom { x: num_mul(x, k), p },
            Component::Bin { a, b, p } => {
                if num_le(Num { bits: BITS_ZERO }, k) {
                    Component::Bin { a: num_mul(a, k), b: num_mul(b, k), p }
                } else {
                    Component::Bin { a: num_mul(b, k), b: num_mul(a, k), p }
                }
            }
            Component::Tail { x0, mass, lambda, is_right } => {
                let new_lambda = num_div(lambda, num_abs(k));
                if num_le(Num { bits: BITS_ZERO }, k) {
                    Component::Tail { x0: num_mul(x0, k), mass, lambda: new_lambda, is_right }
                } else {
                    Component::Tail { x0: num_mul(x0, k), mass, lambda: new_lambda, is_right: !is_right }
                }
            }
        };
        result.push(scaled);
        i += 1;
    }
    serialize_components(&result)
}

/// Law: under a negative scale factor a Bin's endpoints swap, so the stored
/// lower bound is again the smaller product; the weight is untouched.
pub proof fn lemma_scale_negative_bin(a: Num, b: Num, p: Num, k: Num)
    requires
        !f_le(BITS_ZERO, k.bits),
    ensures
        spec_scale_shape(Component::Bin { a, b, p }, k.bits) == (Component::Bin {
            a: Num { bits: mul_bits(b.bits, k.bits) },
            b: Num { bits: mul_bits(a.bits, k.bits) },
            p,
        }),
{
}

/// Law: under a negative scale factor a Tail flips direction; its rate is
/// divided by the factor's magnitude and its weight is untouched.
pub proof fn lemma_scale_negative_tail(x0: Num, mass: Num, lambda: Num, is_right: bool, k: Num)
    requires
        !f_le(BITS_ZERO, k.bits),
    ensures
        spec_scale_shape(Component::Tail { x0, mass, lambda, is_right }, k.bits) == (Component::Tail {
            x0: Num { bits: mul_bits(x0.bits, k.bits) },
            mass,
            lambda: Num { bits: div_bits(lambda.bits, f_abs(k.bits)) },
            is_right: !is_right,
        }),
{
}

proof fn lemma_acc_scaled_elems(d: Seq<Component>, f: u64, i: int)
    requires
        0 <= i <= d.len(),
    ensures
        acc_scaled(d, f, i).len() == i,
        forall|j: int| 0 <= j < i ==> acc_scaled(d, f, i)[j] == spec_scale_weight(d[j], f),
    decreases i,
{
    if i > 0 {
        lemma_acc_scaled_elems(d, f, i - 1);
    }
}

/// Law: mixing keeps every component in order and multiplies each weight of
/// the first distribution by `1 - p` and each weight of the second by `p`;
/// nothing else about a component changes.
pub proof fn lemma_mix_weights(d1: Seq<Component>, d2: Seq<Component>, p: u64)
    ensures
        spec_mix(d1, d2, p).len() == d1.len() + d2.len(),
        forall|i: int|
            0 <= i < d1.len() ==> spec_mix(d1, d2, p)[i] == spec_scale_weight(d1[i], sub_bits(BITS_ONE, p)),
        forall|i: int|
            0 <= i < d2.len() ==> spec_mix(d1, d2, p)[d1.len() + i] == spec_scale_weight(d2[i], p),
{
    lemma_acc_scaled_elems(d1, sub_bits(BITS_ONE, p), d1.len() as int);
    lemma_acc_scaled_elems(d2, p, d2.len() as int);
}

} // verus!

//! The component model: a distribution is an ordered sequence of weighted
//! shapes, each a point mass (Atom), a uniform interval (Bin) or a one-sided
//! exponential tail (Tail).

use vstd::prelude::*;
use crate::num::Num;

verus! {

/// One weighted shape of a mixed distribution.
#[derive(Clone, Copy, PartialEq, Eq, Structural, Debug)]
pub enum Component {
    /// Point mass at `x` with weight `p`.
    Atom { x: Num, p: Num },
    /// Uniform density over `[a, b)` with total weight `p`.
    Bin { a: Num, b: Num, p: Num },
    /// One-sided exponential tail anchored at `x0` with rate `lambda`,
    /// weight `mass`; support is `[x0, oo)` when `is_right`, else `(-oo, x0]`.
    Tail { x0: Num, mass: Num, lambda: Num, is_right: bool },
}

/// The probability mass a component carries.
pub open spec fn spec_weight(c: Component) -> Num {
    match c {
        Component::Atom { p, .. } => p,
        Component::Bin { p, .. } => p,
        Component::Tail { mass, .. } => mass,
    }
}

/// Weight of a component.
pub fn get_weight(c: &Component) -> (w: Num)
    ensures
        w == spec_weight(*c),
{
    match c {
        Component::Atom { p, .. } => *p,
        Component::Bin { p, .. } => *p,
        Component::Tail { mass, .. } => *mass,
    }
}

} // verus!

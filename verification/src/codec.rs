//! The flat codec: the sole interchange format. A distribution travels as a
//! flat sequence of doubles, each record a tag (0 = Atom, 1 = Bin, 2 = Tail)
//! followed by that shape's parameters. Decoding truncates the tag value as
//! the cast to i32 does, drops a partial trailing record, and skips a single
//! value on an unrecognized tag; encoding is the exact inverse on
//! well-formed input.

use vstd::prelude::*;
use vstd::assert_seqs_equal;
use crate::num::{Num, f_as_i32, f_lt, BITS_ZERO, BITS_HALF, BITS_ONE, BITS_TWO};
use crate::num::trunc_to_i32;
use crate::num::num_lt;
use crate::dist::Component;

verus! {

/// The components read from a flat sequence, left to right.
pub open spec fn spec_decode(s: Seq<Num>) -> Seq<Component>
    decreases s.len(),
{
    if s.len() == 0 {
        seq![]
    } else {
        let t = f_as_i32(s[0].bits);
        if t == 0 {
            if s.len() >= 3 {
                seq![Component::Atom { x: s[1], p: s[2] }] + spec_decode(s.skip(3))
            } else {
                seq![]
            }
        } else if t == 1 {
            if s.len() >= 4 {
                seq![Component::Bin { a: s[1], b: s[2], p: s[3] }] + spec_decode(s.skip(4))
            } else {
                seq![]
            }
        } else if t == 2 {
            if s.len() >= 5 {
                seq![Component::Tail {
                    x0: s[1],
                    mass: s[2],
                    lambda: s[3],
                    is_right: f_lt(BITS_HALF, s[4].bits),
                }] + spec_decode(s.skip(5))
            } else {
                seq![]
            }
        } else {
            spec_decode(s.skip(1))
        }
    }
}

/// The flat record of one component.
pub open spec fn spec_encode_one(c: Component) -> Seq<Num> {
    match c {
        Component::Atom { x, p } => seq![Num { bits: BITS_ZERO }, x, p],
        Component::Bin { a, b, p } => seq![Num { bits: BITS_ONE }, a, b, p],
        Component::Tail { x0, mass, lambda, is_right } => seq![
            Num { bits: BITS_TWO },
            x0,
            mass,
            lambda,
            if is_right { Num { bits: BITS_ONE } } else { Num { bits: BITS_ZERO } },
        ],
    }
}

/// The flat records of a component sequence, in encounter order.
pub open spec fn spec_encode(d: Seq<Component>) -> Seq<Num>
    decreases d.len(),
{
    if d.len() == 0 {
        seq![]
    } else {
        spec_encode_one(d[0]) + spec_encode(d.skip(1))
    }
}

/// A flat sequence is well formed when it is an exact concatenation of
/// complete records whose tags are the exact doubles 0.0, 1.0 and 2.0 and
/// whose direction flags are exactly 0.0 or 1.0.
pub open spec fn spec_well_formed(s: Seq<Num>) -> bool
    decreases s.len(),
{
    if s.len() == 0 {
        true
    } else if s[0].bits == BITS_ZERO {
        if s.len() >= 3 { spec_well_formed(s.skip(3)) } else { false }
    } else if s[0].bits == BITS_ONE {
        if s.len() >= 4 { spec_well_formed(s.skip(4)) } else { false }
    } else if s[0].bits == BITS_TWO {
        if s.len() >= 5 {
            (s[4].bits == BITS_ZERO || s[4].bits == BITS_ONE) && spec_well_formed(s.skip(5))
        } else {
            false
        }
    } else {
        false
    }
}

/// How the doubles 0.0, 0.5, 1.0 and 2.0 behave under the tag truncation and
/// the half comparison that the codec reads.
pub proof fn lemma_tag_constants()
    ensures
        f_as_i32(BITS_ZERO) == 0,
        f_as_i32(BITS_ONE) == 1,
        f_as_i32(BITS_TWO) == 2,
        f_lt(BITS_HALF, BITS_ONE),
        !f_lt(BITS_HALF, BITS_ZERO),
{
    assert((0u64 >> 52) & 0x7FF == 0 && (0u64 >> 63) == 0
        && (0u64 & 0x000F_FFFF_FFFF_FFFF) == 0
        && (0x3FE0_0000_0000_0000u64 >> 52) & 0x7FF == 0x3FE
        && (0x3FE0_0000_0000_0000u64 >> 63) == 0
        && (0x3FE0_0000_0000_0000u64 & 0x000F_FFFF_FFFF_FFFF) == 0
        && (0x3FF0_0000_0000_0000u64 >> 52) & 0x7FF == 1023
        && (0x3FF0_0000_0000_0000u64 >> 63) == 0
        && (0x3FF0_0000_0000_0000u64 & 0x000F_FFFF_FFFF_FFFF) == 0
        && (0x4000_0000_0000_0000u64 >> 52) & 0x7FF == 1024
        && (0x4000_0000_0000_0000u64 >> 63) == 0
        && (0x4000_0000_0000_0000u64 & 0x000F_FFFF_FFFF_FFFF) == 0
        && ((1u64 << 52) | 0) >> ((1075u64 - 1023) as u64) == 1
        && ((1u64 << 52) | 0) >> ((1075u64 - 1024) as u64) == 2) by (bit_vector);
}

/// Decode a flat sequence into components, as the codec contract states.
pub fn parse_components(data: &Vec<Num>) -> (r: Vec<Component>)
    ensures
        r@ == spec_decode(data@),
{
    let mut components: Vec<Component> = Vec::new();
    let mut i: usize = 0;
    proof {
        assert(data@.skip(0) =~= data@);
        assert(components@ + spec_decode(data@) =~= spec_decode(data@));
    }
    while i < data.len()
        invariant
            i <= data@.len(),
            spec_decode(data@) == components@ + spec_decode(data@.skip(i as int)),
        decreases data@.len() - i,
    {
        let ghost rest = data@.skip(i as int);
        let t = trunc_to_i32(data[i]);
        if t == 0 {
            if data.len() - i > 2 {
                let c = Component::Atom { x: data[i + 1], p: data[i + 2] };
                let ghost before = components@;
                components.push(c);
                proof {
                    assert_seqs_equal!(rest.skip(3), data@.skip(i as int + 3));
                    assert(spec_decode(rest) == seq![c] + spec_decode(rest.skip(3)));
                    assert_seqs_equal!(before + spec_decode(rest), components@ + spec_decode(data@.skip(i as int + 3)));
                }
                i += 3;
            } else {
                proof {
                    assert(spec_decode(rest) == Seq::<Component>::empty());
                    assert_seqs_equal!(components@ + spec_decode(rest), components@);
                }
                i = data.len();
                proof {
                    assert(data@.skip(data@.len() as int) == Seq::<Num>::empty());
                    assert(components@ + spec_decode(data@.skip(i as int)) =~= components@);
                }
            }
        } else if t == 1 {
            if data.len() - i > 3 {
                let c = Component::Bin { a: data[i + 1], b: data[i + 2], p: data[i + 3] };
                let ghost before = components@;
                components.push(c);
                proof {
                    assert_seqs_equal!(rest.skip(4), data@.skip(i as int + 4));
                    assert(spec_decode(rest) == seq![c] + spec_decode(rest.skip(4)));
                    assert_seqs_equal!(before + spec_decode(rest), components@ + spec_decode(data@.skip(i as int + 4)));
                }
                i += 4;
            } else {
                proof {
                    assert(spec_decode(rest) == Seq::<Component>::empty());
                    assert_seqs_equal!(components@ + spec_decode(rest), components@);
                }
                i = data.len();
                proof {
                    assert(components@ + spec_decode(data@.skip(i as int)) =~= components@);
                }
            }
        } else if t == 2 {
            if data.len() - i > 4 {
                let is_right = num_lt(Num { bits: BITS_HALF }, data[i + 4]);
                let c = Component::Tail {
                    x0: data[i + 1],
                    mass: data[i + 2],
                    lambda: data[i + 3],
                    is_right,
                };
                let ghost before = components@;
                components.push(c);
                proof {
                    assert_seqs_equal!(rest.skip(5), data@.skip(i as int + 5));
                    assert(spec_decode(rest) == seq![c] + spec_decode(rest.skip(5)));
                    assert_seqs_equal!(before + spec_decode(rest), components@ + spec_decode(data@.skip(i as int + 5)));
                }
                i += 5;
            } else {
                proof {
                    assert(spec_decode(rest) == Seq::<Component>::empty());
                    assert_seqs_equal!(components@ + spec_decode(rest), components@);
                }
                i = data.len();
                proof {
                    assert(components@ + spec_decode(data@.skip(i as int)) =~= components@);
                }
            }
        } else {
            proof {
                assert_seqs_equal!(rest.skip(1), data@.skip(i as int + 1));
                assert(spec_decode(rest) == spec_decode(rest.skip(1)));
            }
            i += 1;
        }
    }
    proof {
        assert(data@.skip(i as int) =~= Seq::<Num>::empty());
        assert(components@ + spec_decode(data@.skip(i as int)) =~= components@);
    }
    components
}

proof fn lemma_encode_take_step(d: Seq<Component>, i: int)
    requires
        0 <= i < d.len(),
    ensures
        spec_encode(d.take(i + 1)) == spec_encode(d.take(i)) + spec_encode_one(d[i]),
    decreases i,
{
    if i == 0 {
        assert(d.take(1).len() == 1);
        assert(d.take(1)[0] == d[0]);
        assert_seqs_equal!(d.take(1).skip(1), Seq::<Component>::empty());
        assert_seqs_equal!(d.take(0), Seq::<Component>::empty());
        assert_seqs_equal!(spec_encode(d.take(1)), spec_encode(d.take(0)) + spec_encode_one(d[0]));
    } else {
        lemma_encode_take_step(d.skip(1), i - 1);
        assert_seqs_equal!(d.take(i + 1).skip(1), d.skip(1).take(i));
        assert_seqs_equal!(d.take(i).skip(1), d.skip(1).take(i - 1));
        assert(d.take(i + 1)[0] == d[0]);
        assert(d.take(i)[0] == d[0]);
        assert(d.skip(1)[i - 1] == d[i]);
        assert(spec_encode(d.take(i + 1)) == spec_encode_one(d[0]) + spec_encode(d.skip(1).take(i)));
        assert(spec_encode(d.take(i)) == spec_encode_one(d[0]) + spec_encode(d.skip(1).take(i - 1)));
        assert_seqs_equal!(
            spec_encode_one(d[0]) + (spec_encode(d.skip(1).take(i - 1)) + spec_encode_one(d[i])),
            (spec_encode_one(d[0]) + spec_encode(d.skip(1).take(i - 1))) + spec_encode_one(d[i])
        );
    }
}

/// Encode components back to the flat format, the exact inverse of decoding.
pub fn serialize_components(components: &Vec<Component>) -> (r: Vec<Num>)
    ensures
        r@ == spec_encode(components@),
{
    let mut result: Vec<Num> = Vec::new();
    let mut i: usize = 0;
    while i < components.len()
        invariant
            i <= components@.len(),
            result@ == spec_encode(components@.take(i as int)),
        decreases components@.len() - i,
    {
        let ghost before = result@;
        let c = components[i];
        match c {
            Component::Atom { x, p } => {
                result.push(Num { bits: BITS_ZERO });
                result.push(x);
                result.push(p);
            }
            Component::Bin { a, b, p } => {
                result.push(Num { bits: BITS_ONE });
                result.push(a);
                result.push(b);
                result.push(p);
            }
            Component::Tail { x0, mass, lambda, is_right } => {
                result.push(Num { bits: BITS_TWO });
                result.push(x0);
                result.push(mass);
                result.push(lambda);
                result.push(if is_right { Num { bits: BITS_ONE } } else { Num { bits: BITS_ZERO } });
            }
        }
        proof {
            lemma_encode_take_step(components@, i as int);
            assert_seqs_equal!(result@, before + spec_encode_one(components@[i as int]));
        }
        i += 1;
    }
    proof {
        assert_seqs_equal!(components@.take(i as int), components@);
    }
    result
}

/// Law: decoding what the encoder produced gives back the same components,
/// for every component sequence.
pub proof fn lemma_decode_of_encode(d: Seq<Component>)
    ensures
        spec_decode(spec_encode(d)) == d,
    decreases d.len(),
{
    lemma_tag_constants();
    if d.len() == 0 {
        assert(spec_encode(d) == Seq::<Num>::empty());
        assert_seqs_equal!(spec_decode(spec_encode(d)), d);
    } else {
        lemma_decode_of_encode(d.skip(1));
        let e = spec_encode(d);
        let one = spec_encode_one(d[0]);
        let rest = spec_encode(d.skip(1));
        match d[0] {
            Component::Atom { x, p } => {
                assert(e[0] == Num { bits: BITS_ZERO } && e[1] == x && e[2] == p);
                assert_seqs_equal!(e.skip(3), rest);
                assert(spec_decode(e) == seq![d[0]] + spec_decode(rest));
                assert_seqs_equal!(seq![d[0]] + d.skip(1), d);
            }
            Component::Bin { a, b, p } => {
                assert(e[0] == Num { bits: BITS_ONE } && e[1] == a && e[2] == b && e[3] == p);
                assert_seqs_equal!(e.skip(4), rest);
                assert(spec_decode(e) == seq![d[0]] + spec_decode(rest));
                assert_seqs_equal!(seq![d[0]] + d.skip(1), d);
            }
            Component::Tail { x0, mass, lambda, is_right } => {
                assert(e[0] == Num { bits: BITS_TWO } && e[1] == x0 && e[2] == mass && e[3] == lambda);
                assert(e[4] == (if is_right { Num { bits: BITS_ONE } } else { Num { bits: BITS_ZERO } }));
                assert_seqs_equal!(e.skip(5), rest);
                assert(f_lt(BITS_HALF, e[4].bits) == is_right);
                assert(spec_decode(e) == seq![d[0]] + spec_decode(rest));
                assert_seqs_equal!(seq![d[0]] + d.skip(1), d);
            }
        }
    }
}

/// Law: re-encoding the decode of a well-formed flat sequence reproduces the
/// sequence exactly.
pub proof fn lemma_encode_of_decode(s: Seq<Num>)
    requires
        spec_well_formed(s),
    ensures
        spec_encode(spec_decode(s)) == s,
    decreases s.len(),
{
    lemma_tag_constants();
    if s.len() == 0 {
        assert_seqs_equal!(spec_encode(spec_decode(s)), s);
    } else if s[0].bits == BITS_ZERO {
        lemma_encode_of_decode(s.skip(3));
        let c = Component::Atom { x: s[1], p: s[2] };
        assert(s[0] == Num { bits: BITS_ZERO });
        assert(spec_decode(s) == seq![c] + spec_decode(s.skip(3)));
        assert((seq![c] + spec_decode(s.skip(3))).skip(1) =~= spec_decode(s.skip(3)));
        assert((seq![c] + spec_decode(s.skip(3)))[0] == c);
        assert_seqs_equal!(spec_encode(spec_decode(s)), s);
    } else if s[0].bits == BITS_ONE {
        lemma_encode_of_decode(s.skip(4));
        let c = Component::Bin { a: s[1], b: s[2], p: s[3] };
        assert(s[0] == Num { bits: BITS_ONE });
        assert(spec_decode(s) == seq![c] + spec_decode(s.skip(4)));
        assert((seq![c] + spec_decode(s.skip(4))).skip(1) =~= spec_decode(s.skip(4)));
        assert((seq![c] + spec_decode(s.skip(4)))[0] == c);
        assert_seqs_equal!(spec_encode(spec_decode(s)), s);
    } else {
        lemma_encode_of_decode(s.skip(5));
        let c = Component::Tail {
            x0: s[1],
            mass: s[2],
            lambda: s[3],
            is_right: f_lt(BITS_HALF, s[4].bits),
        };
        assert(s[0] == Num { bits: BITS_TWO });
        assert(s[4].bits == BITS_ZERO || s[4].bits == BITS_ONE);
        assert(f_lt(BITS_HALF, s[4].bits) ==> s[4] == Num { bits: BITS_ONE });
        assert(!f_lt(BITS_HALF, s[4].bits) ==> s[4] == Num { bits: BITS_ZERO });
        assert(spec_decode(s) == seq![c] + spec_decode(s.skip(5)));
        assert((seq![c] + spec_decode(s.skip(5))).skip(1) =~= spec_decode(s.skip(5)));
        assert((seq![c] + spec_decode(s.skip(5)))[0] == c);
        assert_seqs_equal!(spec_encode(spec_decode(s)), s);
    }
}

} // verus!

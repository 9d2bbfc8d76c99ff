use bunpu::{
    AliasTable, Component, Num, convolve_distributions, convolve_pair, dist_mean, dist_mix,
    dist_prob_gt, dist_scale, dist_std, dist_variance, get_weight, parse_components,
    run_monte_carlo, serialize_components, total_weight,
};

fn n(x: f64) -> Num {
    Num::from_bits(x.to_bits())
}

fn f(v: Num) -> f64 {
    f64::from_bits(v.bits)
}

fn enc(xs: &[f64]) -> Vec<Num> {
    xs.iter().map(|x| n(*x)).collect()
}

#[test]
fn test_parse_components() {
    // atom: type=0, x=10, p=0.5
    let data = enc(&[0.0, 10.0, 0.5]);
    let comps = parse_components(&data);
    assert_eq!(comps.len(), 1);
}

#[test]
fn test_round_trip_well_formed() {
    let data = enc(&[
        0.0, 10.0, 0.5, 1.0, 1.0, 3.0, 0.25, 2.0, 0.0, 1.0, 1.0, 1.0, 2.0, -2.0, 0.5, 4.0, 0.0,
    ]);
    let comps = parse_components(&data);
    assert_eq!(comps.len(), 4);
    let back = serialize_components(&comps);
    assert_eq!(back, data);
}

#[test]
fn test_encode_of_decode_drops_trailing_garbage() {
    let data = enc(&[0.0, 1.0, 2.0, 0.0, 9.0]);
    let comps = parse_components(&data);
    assert_eq!(comps.len(), 1);
    let back = serialize_components(&comps);
    assert_eq!(back, enc(&[0.0, 1.0, 2.0]));
}

#[test]
fn test_decode_unknown_tag_skips_one() {
    let data = enc(&[7.5, 0.0, 10.0, 0.5]);
    let comps = parse_components(&data);
    assert_eq!(comps.len(), 1);
    match comps[0] {
        Component::Atom { x, p } => {
            assert_eq!(f(x), 10.0);
            assert_eq!(f(p), 0.5);
        }
        _ => panic!("expected an atom"),
    }
    let data2 = enc(&[-3.0, 2.5, 1.0, 0.0, 1.0, 0.5]);
    let comps2 = parse_components(&data2);
    assert_eq!(comps2.len(), 1);
}

#[test]
fn test_decode_fractional_tag_truncates() {
    // 0.9 truncates to tag 0, an Atom
    let data = enc(&[0.9, 10.0, 0.5]);
    let comps = parse_components(&data);
    assert_eq!(comps.len(), 1);
    assert!(matches!(comps[0], Component::Atom { .. }));
}

#[test]
fn test_decode_partial_record_dropped() {
    assert_eq!(parse_components(&enc(&[0.0, 10.0])).len(), 0);
    assert_eq!(parse_components(&enc(&[1.0, 1.0, 2.0])).len(), 0);
    assert_eq!(parse_components(&enc(&[2.0, 0.0, 1.0, 1.0])).len(), 0);
    assert_eq!(parse_components(&enc(&[0.0, 1.0, 2.0, 1.0, 0.0, 1.0])).len(), 1);
}

#[test]
fn test_single_bin_mean_variance() {
    let d = enc(&[1.0, 1.0, 3.0, 1.0]);
    let mean = f(dist_mean(&d));
    assert_eq!(mean, 2.0);
    let var = f(dist_variance(&d));
    let width: f64 = 3.0 - 1.0;
    assert_eq!(var, width * width / 12.0);
}

#[test]
fn test_dist_std_single_bin() {
    let d = enc(&[1.0, 0.0, 2.0, 1.0]);
    let width: f64 = 2.0;
    assert_eq!(f(dist_std(&d)), (width * width / 12.0).sqrt());
}

#[test]
fn test_mean_mixed_shapes() {
    // atom at 1 with weight 1, right tail at 0 with rate 2: mean (1 + 0.5)/2
    let d = enc(&[0.0, 1.0, 1.0, 2.0, 0.0, 1.0, 2.0, 1.0]);
    assert_eq!(f(dist_mean(&d)), 0.75);
}

#[test]
fn test_tail_exceedance() {
    let d = enc(&[2.0, 0.0, 1.0, 1.0, 1.0]);
    assert_eq!(f(dist_prob_gt(&d, n(0.0))), 1.0);
    let at_ln2 = f(dist_prob_gt(&d, n((2.0f64).ln())));
    assert!((at_ln2 - 0.5).abs() < 1e-12);
}

#[test]
fn test_prob_gt_bin_cases() {
    let d = enc(&[1.0, 0.0, 2.0, 1.0]);
    assert_eq!(f(dist_prob_gt(&d, n(-1.0))), 1.0);
    assert_eq!(f(dist_prob_gt(&d, n(1.0))), 0.5);
    assert_eq!(f(dist_prob_gt(&d, n(3.0))), 0.0);
}

#[test]
fn test_prob_gt_left_tail() {
    let d = enc(&[2.0, 0.0, 1.0, 1.0, 0.0]);
    assert_eq!(f(dist_prob_gt(&d, n(0.0))), 0.0);
    let below = f(dist_prob_gt(&d, n(-0.5)));
    assert!((below - (1.0 - (-0.5f64).exp())).abs() < 1e-12);
}

#[test]
fn test_prob_gt_atom_boundary() {
    let d = enc(&[0.0, 1.0, 1.0]);
    // an atom exactly at the threshold does not exceed it
    assert_eq!(f(dist_prob_gt(&d, n(1.0))), 0.0);
    assert_eq!(f(dist_prob_gt(&d, n(0.5))), 1.0);
}

#[test]
fn test_convolve_atoms() {
    let d1 = enc(&[0.0, 2.0, 0.5]);
    let d2 = enc(&[0.0, 3.0, 0.4]);
    let out = convolve_distributions(&d1, &d2);
    let comps = parse_components(&out);
    assert_eq!(comps.len(), 1);
    match comps[0] {
        Component::Atom { x, p } => {
            assert_eq!(f(x), 5.0);
            assert_eq!(f(p), 0.5 * 0.4);
        }
        _ => panic!("expected an atom"),
    }
}

#[test]
fn test_convolve_atom_bin_shifts() {
    let d1 = enc(&[0.0, 2.0, 0.5]);
    let d2 = enc(&[1.0, 0.0, 1.0, 0.5]);
    for (a, b) in [(&d1, &d2), (&d2, &d1)] {
        let comps = parse_components(&convolve_distributions(a, b));
        assert_eq!(comps.len(), 1);
        match comps[0] {
            Component::Bin { a, b, p } => {
                assert_eq!(f(a), 2.0);
                assert_eq!(f(b), 3.0);
                assert_eq!(f(p), 0.25);
            }
            _ => panic!("expected a bin"),
        }
    }
}

#[test]
fn test_convolve_bin_bin_moment_matching() {
    let d = enc(&[1.0, 0.0, 2.0, 1.0]);
    let comps = parse_components(&convolve_distributions(&d, &d));
    assert_eq!(comps.len(), 1);
    let w: f64 = 2.0;
    let v = w * w / 12.0;
    let new_width = (12.0 * (v + v)).sqrt();
    match comps[0] {
        Component::Bin { a, b, p } => {
            assert_eq!(f(a), 2.0 - new_width / 2.0);
            assert_eq!(f(b), 2.0 + new_width / 2.0);
            assert_eq!(f(p), 1.0);
        }
        _ => panic!("expected a bin"),
    }
}

#[test]
fn test_convolve_tail_pairs_dropped() {
    let tail = enc(&[2.0, 0.0, 1.0, 1.0, 1.0]);
    let atom = enc(&[0.0, 1.0, 1.0]);
    assert_eq!(convolve_distributions(&tail, &atom).len(), 0);
    assert_eq!(convolve_distributions(&atom, &tail).len(), 0);
    assert_eq!(convolve_distributions(&tail, &tail).len(), 0);
    // the cross product keeps only the non-tail pairs
    let mixed = enc(&[0.0, 1.0, 1.0, 2.0, 0.0, 1.0, 1.0, 1.0]);
    let comps = parse_components(&convolve_distributions(&mixed, &atom));
    assert_eq!(comps.len(), 1);
}

#[test]
fn test_convolve_pair_direct() {
    let c1 = Component::Atom { x: n(2.0), p: n(0.5) };
    let c2 = Component::Tail { x0: n(0.0), mass: n(1.0), lambda: n(1.0), is_right: true };
    assert!(convolve_pair(&c1, &c2).is_none());
    let r = convolve_pair(&c1, &c1).unwrap();
    assert!(matches!(r, Component::Atom { .. }));
}

#[test]
fn test_mix_weight_conservation() {
    let d1 = enc(&[0.0, 0.0, 1.0, 1.0, 0.0, 1.0, 2.0]);
    let d2 = enc(&[0.0, 1.0, 4.0]);
    let out = dist_mix(&d1, &d2, n(0.5));
    let comps = parse_components(&out);
    assert_eq!(comps.len(), 3);
    let t = f(total_weight(&comps));
    assert_eq!(t, (1.0 - 0.5) * 3.0 + 0.5 * 4.0);
}

#[test]
fn test_mix_scales_each_side() {
    let d1 = enc(&[0.0, 7.0, 1.0]);
    let d2 = enc(&[2.0, 0.0, 2.0, 1.0, 1.0]);
    let comps = parse_components(&dist_mix(&d1, &d2, n(0.25)));
    assert_eq!(comps.len(), 2);
    assert_eq!(f(get_weight(&comps[0])), 0.75);
    assert_eq!(f(get_weight(&comps[1])), 0.5);
    match comps[1] {
        Component::Tail { x0, lambda, is_right, .. } => {
            assert_eq!(f(x0), 0.0);
            assert_eq!(f(lambda), 1.0);
            assert!(is_right);
        }
        _ => panic!("expected a tail"),
    }
}

#[test]
fn test_scale_sign_flip() {
    let d = enc(&[1.0, 1.0, 3.0, 0.7, 2.0, 2.0, 1.0, 1.5, 1.0]);
    let comps = parse_components(&dist_scale(&d, n(-1.0)));
    assert_eq!(comps.len(), 2);
    match comps[0] {
        Component::Bin { a, b, p } => {
            assert_eq!(f(a), -3.0);
            assert_eq!(f(b), -1.0);
            assert_eq!(f(p), 0.7);
        }
        _ => panic!("expected a bin"),
    }
    match comps[1] {
        Component::Tail { x0, mass, lambda, is_right } => {
            assert_eq!(f(x0), -2.0);
            assert_eq!(f(mass), 1.0);
            assert_eq!(f(lambda), 1.5);
            assert!(!is_right);
        }
        _ => panic!("expected a tail"),
    }
}

#[test]
fn test_scale_positive() {
    let d = enc(&[0.0, 3.0, 0.5, 1.0, 1.0, 3.0, 0.7, 2.0, 2.0, 1.0, 1.5, 1.0]);
    let comps = parse_components(&dist_scale(&d, n(2.0)));
    assert_eq!(comps.len(), 3);
    match comps[0] {
        Component::Atom { x, p } => {
            assert_eq!(f(x), 6.0);
            assert_eq!(f(p), 0.5);
        }
        _ => panic!("expected an atom"),
    }
    match comps[1] {
        Component::Bin { a, b, .. } => {
            assert_eq!(f(a), 2.0);
            assert_eq!(f(b), 6.0);
        }
        _ => panic!("expected a bin"),
    }
    match comps[2] {
        Component::Tail { x0, lambda, is_right, .. } => {
            assert_eq!(f(x0), 4.0);
            assert_eq!(f(lambda), 0.75);
            assert!(is_right);
        }
        _ => panic!("expected a tail"),
    }
}

#[test]
fn test_zero_total_weight_statistics() {
    let d = enc(&[0.0, 5.0, 0.0, 1.0, 1.0, 2.0, 0.0]);
    assert_eq!(f(dist_mean(&d)), 0.0);
    assert_eq!(f(dist_variance(&d)), 0.0);
    assert_eq!(f(dist_std(&d)), 0.0);
    assert_eq!(f(dist_prob_gt(&d, n(0.0))), 0.0);
}

#[test]
fn test_alias_table_zero_weight_fallback() {
    let comps = parse_components(&enc(&[0.0, 5.0, 0.0, 0.0, 7.0, 0.0]));
    let table = AliasTable::new(comps);
    assert_eq!(table.prob.len(), 2);
    assert_eq!(f(table.prob[0]), 1.0);
    assert_eq!(f(table.prob[1]), 1.0);
    assert_eq!(table.alias, vec![0, 1]);
}

#[test]
fn test_alias_table_two_weights() {
    // weights 1 and 3 scale to 0.5 and 1.5; one pairing step aliases slot 0
    // to slot 1 and leaves both probabilities settled
    let comps = parse_components(&enc(&[0.0, -1.0, 1.0, 0.0, 1.0, 3.0]));
    let table = AliasTable::new(comps);
    assert_eq!(table.prob.len(), 2);
    assert_eq!(f(table.prob[0]), 0.5);
    assert_eq!(f(table.prob[1]), 1.0);
    assert_eq!(table.alias[0], 1);
}

#[test]
fn test_alias_empirical_frequency() {
    // increments -1 with weight 1 and +1 with weight 3: one step from 0.5
    // ruins exactly when the -1 branch is drawn, probability 1/4
    let d = enc(&[0.0, -1.0, 1.0, 0.0, 1.0, 3.0]);
    let trials = 40000;
    let ruins = run_monte_carlo(&d, n(0.5), 1, trials);
    let freq = ruins as f64 / trials as f64;
    assert!((freq - 0.25).abs() < 0.03, "frequency {freq} too far from 0.25");
}

#[test]
fn test_ruin_monotone_in_steps() {
    // deterministic step of -1 from wealth 3.5: never ruined in 3 steps,
    // always ruined in 4
    let d = enc(&[0.0, -1.0, 1.0]);
    let c2 = run_monte_carlo(&d, n(3.5), 2, 300);
    let c3 = run_monte_carlo(&d, n(3.5), 3, 300);
    let c4 = run_monte_carlo(&d, n(3.5), 4, 300);
    assert_eq!(c2, 0);
    assert_eq!(c3, 0);
    assert_eq!(c4, 300);
    assert!(c2 <= c3 && c3 <= c4);
}

#[test]
fn test_ruin_tail_sampling_positive() {
    // a right tail at 0 only produces positive increments, so a positive
    // start never ruins
    let d = enc(&[2.0, 0.0, 1.0, 0.2, 1.0]);
    let ruins = run_monte_carlo(&d, n(0.05), 3, 2000);
    assert_eq!(ruins, 0);
}

#[test]
fn test_ruin_bin_sampling_range() {
    // increments uniform in [-2, -1]: from 1.5, one step may or may not
    // ruin, two steps always do
    let d = enc(&[1.0, -2.0, -1.0, 1.0]);
    let one = run_monte_carlo(&d, n(1.5), 1, 2000);
    let two = run_monte_carlo(&d, n(1.5), 2, 2000);
    assert!(one > 100 && one < 1900, "one-step ruin count {one}");
    assert_eq!(two, 2000);
}

#[test]
fn test_empty_distribution() {
    let d: Vec<Num> = Vec::new();
    assert_eq!(f(dist_mean(&d)), 0.0);
    // the empty sampler returns 0, so positive wealth survives and zero
    // wealth is ruined at the first step
    assert_eq!(run_monte_carlo(&d, n(1.0), 5, 50), 0);
    assert_eq!(run_monte_carlo(&d, n(0.0), 5, 50), 50);
}

#[test]
fn test_run_monte_carlo_count_bounded() {
    let d = enc(&[1.0, -1.0, 1.0, 1.0]);
    let ruins = run_monte_carlo(&d, n(0.1), 3, 500);
    assert!(ruins <= 500);
}

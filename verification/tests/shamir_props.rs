use timelock_core::encapsulate::{gen_coefficients, scalar_from_draw};
use timelock_core::fr::scalar_from_u64;
use timelock_core::shamir::{eval_poly, interpolate_at_zero, recover_secret_from_pair};
use timelock_core::CoreError;

#[test]
fn zero_draw_is_rejected() {
    let zeros = vec![0u8; 64];
    assert_eq!(scalar_from_draw(&zeros), Err(CoreError::ZeroScalar));
    let mut one = vec![0u8; 64];
    one[0] = 1;
    assert_eq!(scalar_from_draw(&one).unwrap(), scalar_from_u64(1));
}

#[test]
fn interpolation_recovers_secret() {
    for _trial in 0..10 {
        for t in 1..=5u64 {
            let cs = gen_coefficients(t).unwrap();
            let xs: Vec<Vec<u8>> = (1..=t).map(scalar_from_u64).collect();
            let ys: Vec<Vec<u8>> = xs.iter().map(|x| eval_poly(&cs, x)).collect();
            let secret = interpolate_at_zero(&xs, &ys);
            assert_eq!(secret, cs[0]);
        }
    }
}

#[test]
fn every_pair_of_three_shares_recovers() {
    for _trial in 0..10 {
        let cs = gen_coefficients(2).unwrap();
        let points: Vec<u64> = vec![1, 2, 3];
        let xs: Vec<Vec<u8>> = points.iter().map(|&p| scalar_from_u64(p)).collect();
        let ys: Vec<Vec<u8>> = xs.iter().map(|x| eval_poly(&cs, x)).collect();
        for a in 0..3 {
            for b in 0..3 {
                if a != b {
                    let sub_xs = vec![xs[a].clone(), xs[b].clone()];
                    let sub_ys = vec![ys[a].clone(), ys[b].clone()];
                    assert_eq!(interpolate_at_zero(&sub_xs, &sub_ys), cs[0]);
                }
            }
        }
    }
}

#[test]
fn two_share_recovery_returns_the_secret() {
    for _trial in 0..10 {
        let cs = gen_coefficients(2).unwrap();
        let secret = recover_secret_from_pair(&cs, scalar_from_u64(5), scalar_from_u64(9));
        assert_eq!(secret, cs[0]);
    }
}

#[test]
fn below_threshold_shares_fit_any_secret() {
    // With t - 1 shares of a degree-(t - 1) polynomial, every candidate
    // secret remains consistent: some polynomial through the shares has it.
    for _trial in 0..10 {
        let cs = gen_coefficients(2).unwrap();
        let x1 = scalar_from_u64(7);
        let y1 = eval_poly(&cs, &x1);
        // Any other secret s is realised by the polynomial interpolating
        // (0, s) and (7, y1), so one share reveals nothing about cs[0].
        let other_secret = gen_coefficients(1).unwrap()[0].clone();
        let xs = vec![scalar_from_u64(0), x1.clone()];
        let ys = vec![other_secret.clone(), y1.clone()];
        assert_eq!(interpolate_at_zero(&xs, &ys), other_secret);
    }
}

use timelock_core::get_threshold;

#[test]
fn threshold_of_one() {
    assert_eq!(get_threshold(1), 1);
}

#[test]
fn threshold_of_three() {
    assert_eq!(get_threshold(3), 2);
}

#[test]
fn threshold_of_ten() {
    assert_eq!(get_threshold(10), 6);
}

#[test]
fn threshold_of_hundred() {
    assert_eq!(get_threshold(100), 51);
}

#[test]
fn threshold_is_least_majority() {
    for n in 1..500u64 {
        let t = get_threshold(n);
        assert!(100 * t >= 51 * n);
        assert!(t >= 1);
        assert!(100 * (t - 1) < 51 * n);
        assert!(t <= n);
    }
}

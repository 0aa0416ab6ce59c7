use timelock_core::get_time;
use timelock_core::task::gas_price_with_markup;

#[test]
fn gas_price_markup_is_three_halves_rounded_down() {
    assert_eq!(gas_price_with_markup(10), 15);
    assert_eq!(gas_price_with_markup(15), 22);
    assert_eq!(gas_price_with_markup(0), 0);
    assert_eq!(gas_price_with_markup(1), 1);
    assert_eq!(
        gas_price_with_markup(u64::MAX),
        (u64::MAX as u128) * 15 / 10
    );
}

#[test]
fn time_is_after_the_epoch() {
    let now = get_time();
    assert!(now > 1_600_000_000);
}

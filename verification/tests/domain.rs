use trusted_setup::domain::{ceil_power_of_two, domain_width};
use trusted_setup::error::SetupError;

#[test]
fn domain_width_of_small_counts() {
    assert_eq!(domain_width(1), Ok(1));
    assert_eq!(domain_width(2), Ok(2));
    assert_eq!(domain_width(3), Ok(4));
    assert_eq!(domain_width(4), Ok(4));
    assert_eq!(domain_width(5), Ok(8));
    assert_eq!(domain_width(8), Ok(8));
    assert_eq!(domain_width(9), Ok(16));
    assert_eq!(domain_width(4096), Ok(4096));
    assert_eq!(domain_width(4097), Ok(8192));
}

#[test]
fn domain_width_of_no_points_is_an_error() {
    assert_eq!(domain_width(0), Err(SetupError::EmptyPointSet));
}

#[test]
fn domain_width_is_least_covering_power_of_two() {
    let mut n: usize = 1;
    while n <= 2000 {
        let w = domain_width(n).unwrap();
        assert!(w.is_power_of_two());
        assert!(w >= n);
        assert!(w / 2 < n);
        n += 1;
    }
}

#[test]
fn ceil_power_of_two_gives_width_and_exponent() {
    assert_eq!(ceil_power_of_two(0), Some((1, 0)));
    assert_eq!(ceil_power_of_two(1), Some((1, 0)));
    assert_eq!(ceil_power_of_two(2), Some((2, 1)));
    assert_eq!(ceil_power_of_two(5), Some((8, 3)));
    assert_eq!(ceil_power_of_two(1024), Some((1024, 10)));
    assert_eq!(ceil_power_of_two(1025), Some((2048, 11)));
}

#[test]
fn ceil_power_of_two_at_the_machine_limit() {
    let top: usize = usize::MAX / 2 + 1;
    assert_eq!(ceil_power_of_two(top).map(|r| r.0), Some(top));
    assert_eq!(ceil_power_of_two(top + 1), None);
    assert_eq!(ceil_power_of_two(usize::MAX), None);
}

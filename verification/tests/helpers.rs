use riverworld::traits::Digits;
use riverworld::traits::NextTo;

#[test]
fn digits_are_three_wide_most_significant_first() {
    assert_eq!(0u8.digits(), [0, 0, 0]);
    assert_eq!(7u8.digits(), [0, 0, 7]);
    assert_eq!(42u8.digits(), [0, 4, 2]);
    assert_eq!(100u8.digits(), [1, 0, 0]);
    assert_eq!(255u8.digits(), [2, 5, 5]);
}

#[test]
fn next_to_means_one_step_along_one_axis() {
    let cell = (5u16, 5u16);
    assert!(cell.is_next_to(&(5, 4)));
    assert!(cell.is_next_to(&(5, 6)));
    assert!(cell.is_next_to(&(4, 5)));
    assert!(cell.is_next_to(&(6, 5)));
    assert!(!cell.is_next_to(&(5, 5)));
    assert!(!cell.is_next_to(&(6, 6)));
    assert!(!cell.is_next_to(&(4, 4)));
    assert!(!cell.is_next_to(&(5, 7)));
    assert!(!cell.is_next_to(&(7, 5)));
    assert!((0u16, 0u16).is_next_to(&(0, 1)));
    assert!(!(0u16, 0u16).is_next_to(&(65535, 0)));
    assert!((65535u16, 3u16).is_next_to(&(65534, 3)));
}

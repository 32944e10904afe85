use workbench::stats::{calculate_median, calculate_mode, Median};

#[test]
fn mode_of_the_sample() {
    let numbers = vec![1, 2, 3, 4, 4, 5, 6, 7, 8, 1000, 20, 9, 10, 20, 50, 50, 75, 75, 75];
    assert_eq!(vec![75], calculate_mode(&numbers));
}

#[test]
fn several_modes_come_once_each() {
    let numbers = vec![3, -1, 3, 7, -1, 9, 7];
    let mut modes = calculate_mode(&numbers);
    modes.sort();
    assert_eq!(vec![-1, 3, 7], modes);
}

#[test]
fn every_number_is_a_mode_when_none_repeats() {
    let numbers = vec![5, 4, 3];
    let mut modes = calculate_mode(&numbers);
    modes.sort();
    assert_eq!(vec![3, 4, 5], modes);
}

#[test]
fn no_numbers_no_mode() {
    let numbers: Vec<i32> = Vec::new();
    assert!(calculate_mode(&numbers).is_empty());
}

#[test]
fn median_of_an_odd_number_is_the_middle() {
    let mut numbers = vec![1, 2, 3, 4, 4, 5, 6, 7, 8, 1000, 20, 9, 10, 20, 50, 50, 75, 75, 75];
    assert_eq!(Median::Middle(9), calculate_median(&mut numbers));
    assert_eq!(
        vec![1, 2, 3, 4, 4, 5, 6, 7, 8, 9, 10, 20, 20, 50, 50, 75, 75, 75, 1000],
        numbers
    );
}

#[test]
fn median_of_an_even_number_lies_between_two() {
    let mut numbers = vec![9, -2, 4, 7];
    assert_eq!(Median::Between(4, 7), calculate_median(&mut numbers));
    assert_eq!(vec![-2, 4, 7, 9], numbers);
}

#[test]
fn median_of_one_and_of_two() {
    let mut one = vec![42];
    assert_eq!(Median::Middle(42), calculate_median(&mut one));
    let mut two = vec![8, 8];
    assert_eq!(Median::Between(8, 8), calculate_median(&mut two));
    let mut wide = vec![i32::MAX, i32::MIN];
    assert_eq!(Median::Between(i32::MIN, i32::MAX), calculate_median(&mut wide));
}

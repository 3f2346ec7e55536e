use optimized_scheduling::sequence::generate;

#[test]
fn generate_unit_step() {
    assert_eq!(generate(0, 3, 1), vec![0, 1, 2, 3]);
    assert_eq!(generate(0, 1, 1), vec![0, 1]);
    assert_eq!(generate(0, 2, 1), vec![0, 1, 2]);
}

#[test]
fn generate_wider_step() {
    assert_eq!(generate(0, 5, 2), vec![0, 2, 4]);
    assert_eq!(generate(0, 4, 2), vec![0, 2, 4]);
    assert_eq!(generate(0, 6, 4), vec![0, 4]);
    assert_eq!(generate(1, 10, 3), vec![1, 4, 7, 10]);
}

#[test]
fn generate_single_and_empty() {
    assert_eq!(generate(0, 0, 1), vec![0]);
    assert_eq!(generate(1, 0, 1), Vec::<i64>::new());
    assert_eq!(generate(3, 0, 1), Vec::<i64>::new());
    assert_eq!(generate(5, 0, 2), Vec::<i64>::new());
}

#[test]
fn generate_keeps_start_when_bounds_cross_by_less_than_a_step() {
    // When the start passes the end by less than one stride, the rounded
    // span is zero and the progression still holds its starting point.
    assert_eq!(generate(1, 0, 2), vec![1]);
    assert_eq!(generate(2, 0, 3), vec![2]);
}

#[test]
fn generate_negative_bounds() {
    assert_eq!(generate(-3, 3, 2), vec![-3, -1, 1, 3]);
    assert_eq!(generate(-5, -2, 1), vec![-5, -4, -3, -2]);
}

#[test]
fn range_() {
    assert_eq!(Vec::<i64>::new(), generate(1, 0, 1));
    assert_eq!(vec![0], generate(0, 0, 1));
    assert_eq!(vec![0, 1], generate(0, 1, 1));
    assert_eq!(vec![0, 1, 2], generate(0, 2, 1));
    assert_eq!(vec![0, 1, 2, 3], generate(0, 3, 1));
    assert_eq!(vec![0, 2, 4], generate(0, 5, 2));
}

#[test]
fn generate_is_pure() {
    // Identical bounds and step always give the identical ordered sequence.
    let first = generate(0, 3, 1);
    let second = generate(0, 3, 1);
    assert_eq!(first, second);
    let first = generate(-7, 91, 5);
    let second = generate(-7, 91, 5);
    assert_eq!(first, second);
}

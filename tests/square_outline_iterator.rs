use quoridor::square_outline_iterator::SquareOutlineIterator;

#[test]
fn test2by2in00() {
    let iter = SquareOutlineIterator::new(0, 0, 2);
    let expected: Vec<(isize, isize)> = vec![(0, 0), (1, 0), (1, 1), (0, 1)];
    let result: Vec<_> = iter.collect();
    assert_eq!(result, expected);
}

#[test]
fn test3by3in42() {
    let iter = SquareOutlineIterator::new(4, 2, 3);
    let expected: Vec<(isize, isize)> = vec![
        (4, 2),
        (5, 2),
        (6, 2),
        (6, 3),
        (6, 4),
        (5, 4),
        (4, 4),
        (4, 3),
    ];
    let result: Vec<_> = iter.collect();
    assert_eq!(result, expected);
}

#[test]
fn outline_of_single_point_is_empty() {
    let mut iter = SquareOutlineIterator::new(3, 3, 1);
    assert_eq!(iter.next(), None);
    assert!(SquareOutlineIterator::new(3, 3, 0).collect().is_empty());
}

#[test]
fn outline_points_one_by_one_around_negative_corner() {
    let mut iter = SquareOutlineIterator::new(-1, -2, 2);
    assert_eq!(iter.next(), Some((-1, -2)));
    assert_eq!(iter.next(), Some((0, -2)));
    assert_eq!(iter.next(), Some((0, -1)));
    assert_eq!(iter.next(), Some((-1, -1)));
    assert_eq!(iter.next(), None);
    assert_eq!(iter.next(), None);
}

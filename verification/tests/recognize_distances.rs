use detypstify::recognize::{add_two_numbers, best_distances, euclidian_distance, get_powers, hausdorff_distance};
use detypstify::training::Tanh;

#[test]
fn adds() {
    assert_eq!(add_two_numbers(2, 3), 5);
    assert_eq!(add_two_numbers(u64::MAX - 1, 1), u64::MAX);
}

#[test]
fn powers() {
    assert_eq!(get_powers(3), vec![3, 9, 27]);
    assert_eq!(get_powers(0), vec![0, 0, 0]);
    assert_eq!(get_powers(1625), vec![1625, 2640625, 4291015625]);
}

#[test]
fn squared_distance() {
    assert_eq!(euclidian_distance(0, 0, 3, 4), 25);
    assert_eq!(euclidian_distance(3, 4, 0, 0), 25);
    assert_eq!(euclidian_distance(7, 7, 7, 7), 0);
    assert_eq!(euclidian_distance(10, 1, 4, 9), 100);
}

#[test]
fn hausdorff_takes_max_of_min() {
    assert_eq!(hausdorff_distance(&[0, 0, 3, 4], &[0, 0]), 25);
    assert_eq!(hausdorff_distance(&[0, 0, 3, 4], &[0, 0, 3, 4]), 0);
    assert_eq!(hausdorff_distance(&[1, 1], &[1, 2, 5, 5]), 1);
}

#[test]
fn hausdorff_edge_cases() {
    assert_eq!(hausdorff_distance(&[], &[1, 2]), 0);
    assert_eq!(hausdorff_distance(&[], &[]), 0);
    assert_eq!(hausdorff_distance(&[1, 2], &[]), u32::MAX);
}

#[test]
fn best_distances_runs() {
    best_distances(3, &[1, 2, 3, 4]);
}

#[test]
fn tanh_new() {
    let t = Tanh::new();
    let _ = format!("{:?}", t);
}

#[test]
fn hausdorff_reads_coordinate_pairs() {
    assert_eq!(hausdorff_distance(&[0, 0], &[5, 0, 0, 5]), 25);
    assert_eq!(hausdorff_distance(&[5, 0, 0, 5], &[0, 0]), 25);
}

#[test]
fn hausdorff_more_points_never_farther() {
    let p = [0, 0, 10, 10];
    let fewer = hausdorff_distance(&p, &[5, 0, 0, 5]);
    let more = hausdorff_distance(&p, &[5, 0, 9, 9, 0, 5]);
    assert_eq!(fewer, 125);
    assert_eq!(more, 25);
    assert!(more <= fewer);
}

use gossip::utils::rand::{choose_item, shuffle, shuffle_with};
use gossip::utils::{rng, Touch};

#[test]
fn test_rand_shuffle() {
    let mut rng = rng(42);
    let mut array = vec![0, 1, 2, 3, 4, 5, 6, 7, 8, 9, 10, 11, 12, 13, 14, 15];
    shuffle(&mut rng, &mut array, 7);
    assert_eq!(
        [10, 1, 12, 13, 15, 4, 5, 7, 8, 9, 0, 11, 2, 3, 14, 6],
        array.as_slice()
    );
}

#[test]
fn test_rand_shuffle_partial() {
    let mut rng = rng(42);
    let mut array = vec![0, 1, 2, 3, 4, 5, 6, 7, 8, 9, 10, 11, 12, 13, 14, 15];
    shuffle(&mut rng, &mut array, 3);
    assert_eq!(
        [10, 1, 12, 3, 4, 5, 6, 7, 8, 9, 0, 11, 2, 13, 14, 15],
        array.as_slice()
    );
}

#[test]
fn test_rand_choose() {
    let mut rng = rng(42);
    let array = vec![0, 1, 2, 3, 4, 5, 6, 7, 8, 9, 10, 11, 12, 13, 14, 15];
    let choice = *choose_item(&mut rng, &array);
    assert_eq!(choice, 10);
}

#[test]
fn shuffle_of_short_arrays_is_a_no_op() {
    let mut rng = rng(7);
    let mut empty: Vec<u32> = vec![];
    shuffle(&mut rng, &mut empty, usize::MAX);
    assert!(empty.is_empty());
    let mut one = vec![9];
    shuffle(&mut rng, &mut one, usize::MAX);
    assert_eq!(one, vec![9]);
    let mut unchanged = vec![1, 2, 3];
    shuffle(&mut rng, &mut unchanged, 0);
    assert_eq!(unchanged, vec![1, 2, 3]);
}

#[test]
fn full_shuffle_keeps_the_items() {
    let mut rng = rng(3);
    let mut array: Vec<u32> = (0..50).collect();
    shuffle(&mut rng, &mut array, usize::MAX);
    let mut sorted = array.clone();
    sorted.sort();
    assert_eq!(sorted, (0..50).collect::<Vec<u32>>());
    assert_ne!(array, (0..50).collect::<Vec<u32>>());
}

#[test]
fn touch_measures_elapsed_time() {
    let mut t = Touch::now();
    let first = t.age_nanos();
    let second = t.age_nanos();
    assert!(second >= first);
    let elapsed = t.update();
    assert!(elapsed >= second);
}

#[test]
fn shuffle_with_given_draws_swaps_in_turn() {
    let mut array = vec![10, 20, 30, 40];
    shuffle_with(&mut array, &vec![2, 1, 3]);
    // swap(0, 2) -> [30, 20, 10, 40]; swap(1, 1); swap(2, 3) -> [30, 20, 40, 10]
    assert_eq!(array, vec![30, 20, 40, 10]);
    let mut same = vec![1, 2];
    shuffle_with(&mut same, &vec![]);
    assert_eq!(same, vec![1, 2]);
}

use es_plugin_generators::wandom::{ShuffleIndex, XoShiRo256SS};

#[test]
fn xoshiro_seed_zero_outputs() {
    let mut rng = XoShiRo256SS::new(0);
    assert_eq!(rng.step(), 11091344671253066420);
    assert_eq!(rng.step(), 13793997310169335082);
    assert_eq!(rng.step(), 1900383378846508768);
}

#[test]
fn xoshiro_seed_forty_two_outputs() {
    let mut rng = XoShiRo256SS::new(42);
    assert_eq!(rng.step(), 1546998764402558742);
    assert_eq!(rng.step(), 6990951692964543102);
}

#[test]
fn rand_range_values_and_edges() {
    let mut rng = XoShiRo256SS::new(7);
    assert_eq!(rng.rand_range(10, 20), 12);
    // reversed bounds are swapped
    assert_eq!(rng.rand_range(20, 10), 12);
    // equal bounds draw nothing
    assert_eq!(rng.rand_range(5, 5), 5);
    // bounds whose sum overflows give a raw draw
    assert_eq!(rng.rand_range(u64::MAX, 1), 15488392906492639638);
}

#[test]
fn rand_range_stays_in_bounds() {
    let mut rng = XoShiRo256SS::new(1234);
    for _ in 0..1000 {
        let v = rng.rand_range(3, 17);
        assert!((3..17).contains(&v));
    }
}

#[test]
fn shuffled_indices_known_orders() {
    assert_eq!(vec![0u8; 5].shuffled_indices(1), vec![3, 4, 0, 2, 1]);
    assert_eq!(vec![0u8; 10].shuffled_indices(99), vec![7, 2, 1, 9, 5, 8, 0, 3, 6, 4]);
    assert_eq!(vec![0u8; 3].shuffled_indices(0), vec![1, 2, 0]);
    assert_eq!(vec![0u8; 2].shuffled_indices(43), vec![1, 0]);
}

#[test]
fn shuffled_indices_edges() {
    assert_eq!(Vec::<u8>::new().shuffled_indices(5), Vec::<usize>::new());
    assert_eq!(vec![9u8].shuffled_indices(5), vec![0]);
}

#[test]
fn shuffled_indices_is_a_permutation() {
    for seed in 0..50 {
        let mut order = vec![0u8; 23].shuffled_indices(seed);
        order.sort();
        assert_eq!(order, (0..23).collect::<Vec<usize>>());
    }
}

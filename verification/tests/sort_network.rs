use gaussian_splats::sort_network::{clear_sort, sort_network, sort_stage, SENTINEL_KEY};
use gaussian_splats::sort_plan::SortUniforms;

fn is_ascending(keys: &[u32]) -> bool {
    keys.windows(2).all(|w| w[0] <= w[1])
}

fn next_permutation(a: &mut [u32]) -> bool {
    if a.len() < 2 {
        return false;
    }
    let mut i = a.len() - 1;
    while i > 0 && a[i - 1] >= a[i] {
        i -= 1;
    }
    if i == 0 {
        return false;
    }
    let mut j = a.len() - 1;
    while a[j] <= a[i - 1] {
        j -= 1;
    }
    a.swap(i - 1, j);
    a[i..].reverse();
    true
}

#[test]
fn clear_sort_primes_every_slot() {
    let (keys, values) = clear_sort(4);
    assert_eq!(SENTINEL_KEY, 0xFFFF_FFFF);
    assert_eq!(keys, vec![0xFFFF_FFFF; 4]);
    assert_eq!(values, vec![0, 1, 2, 3]);
    let (keys, values) = clear_sort(0);
    assert!(keys.is_empty() && values.is_empty());
}

#[test]
fn first_stage_orders_pairs_in_alternating_directions() {
    let mut keys = vec![5u32, 1, 2, 9, 7, 7, 0, 3];
    let mut values = vec![0u32, 1, 2, 3, 4, 5, 6, 7];
    let params = SortUniforms { element_count: 8, block_size: 2, comparison_distance: 1 };
    sort_stage(&mut keys, &mut values, &params);
    assert_eq!(keys, vec![1, 5, 9, 2, 7, 7, 3, 0]);
    assert_eq!(values, vec![1, 0, 3, 2, 4, 5, 7, 6]);
}

#[test]
fn a_stage_at_distance_two_pairs_across_one_key() {
    let mut keys = vec![4u32, 3, 2, 1, 1, 2, 3, 4];
    let mut values = vec![10u32, 11, 12, 13, 14, 15, 16, 17];
    let params = SortUniforms { element_count: 8, block_size: 4, comparison_distance: 2 };
    sort_stage(&mut keys, &mut values, &params);
    assert_eq!(keys, vec![2, 1, 4, 3, 3, 4, 1, 2]);
    assert_eq!(values, vec![12, 13, 10, 11, 16, 17, 14, 15]);
}

#[test]
fn a_pair_that_reaches_beyond_the_keys_is_left_alone() {
    let mut keys = vec![3u32, 2, 1];
    let mut values = vec![0u32, 1, 2];
    let params = SortUniforms { element_count: 3, block_size: 2, comparison_distance: 1 };
    sort_stage(&mut keys, &mut values, &params);
    assert_eq!(keys, vec![2, 3, 1]);
    assert_eq!(values, vec![1, 0, 2]);
    let wide = SortUniforms { element_count: 3, block_size: 8, comparison_distance: 4 };
    sort_stage(&mut keys, &mut values, &wide);
    assert_eq!(keys, vec![2, 3, 1]);
}

#[test]
fn network_sorts_every_permutation_of_eight_keys() {
    let mut keys_in: Vec<u32> = (0..8).collect();
    let mut count = 0;
    loop {
        let mut keys = keys_in.clone();
        let mut values: Vec<u32> = (0..8).collect();
        sort_network(&mut keys, &mut values);
        assert_eq!(keys, (0..8).collect::<Vec<u32>>());
        for (p, v) in values.iter().enumerate() {
            assert_eq!(keys_in[*v as usize], p as u32);
        }
        count += 1;
        if !next_permutation(&mut keys_in) {
            break;
        }
    }
    assert_eq!(count, 40320);
}

#[test]
fn network_sorts_permutations_with_a_sentinel_tail() {
    for live in 0..=8usize {
        let mut head: Vec<u32> = (0..live as u32).collect();
        loop {
            let mut keys = head.clone();
            keys.resize(8, SENTINEL_KEY);
            let mut values: Vec<u32> = (0..8).collect();
            sort_network(&mut keys, &mut values);
            assert!(is_ascending(&keys));
            for p in 0..live {
                assert_eq!(keys[p], p as u32);
                assert_eq!(head[values[p] as usize], p as u32);
            }
            assert!(keys[live..].iter().all(|k| *k == SENTINEL_KEY));
            if live > 5 || !next_permutation(&mut head) {
                break;
            }
        }
    }
}

#[test]
fn network_sorts_many_keys_and_keeps_every_entry() {
    let n = 4096usize;
    let mut state = 0x1234_5678u32;
    let mut keys: Vec<u32> = Vec::with_capacity(n);
    for _ in 0..n {
        state = state.wrapping_mul(1664525).wrapping_add(1013904223);
        keys.push(state >> 12);
    }
    let before = keys.clone();
    let mut values: Vec<u32> = (0..n as u32).collect();
    sort_network(&mut keys, &mut values);
    assert!(is_ascending(&keys));
    let mut seen = vec![false; n];
    for (p, v) in values.iter().enumerate() {
        assert!(!seen[*v as usize]);
        seen[*v as usize] = true;
        assert_eq!(before[*v as usize], keys[p]);
    }
    let mut expected = before.clone();
    expected.sort();
    assert_eq!(keys, expected);
}

#[test]
fn network_leaves_one_key_and_no_key_alone() {
    let mut keys = vec![7u32];
    let mut values = vec![0u32];
    sort_network(&mut keys, &mut values);
    assert_eq!((keys, values), (vec![7], vec![0]));
    let mut keys: Vec<u32> = Vec::new();
    let mut values: Vec<u32> = Vec::new();
    sort_network(&mut keys, &mut values);
    assert!(keys.is_empty() && values.is_empty());
}

#[test]
fn two_splats_come_out_ordered_by_depth_key() {
    let (mut keys, mut values) = clear_sort(2);
    keys[0] = 0x4000_0000;
    keys[1] = 0x3000_0000;
    sort_network(&mut keys, &mut values);
    assert_eq!(keys, vec![0x3000_0000, 0x4000_0000]);
    assert_eq!(values, vec![1, 0]);
}

#[test]
fn one_visible_splat_sorts_before_three_sentinels() {
    let (mut keys, mut values) = clear_sort(4);
    keys[0] = 0x7FFF_FF00;
    values[0] = 0;
    sort_network(&mut keys, &mut values);
    assert_eq!(keys[0], 0x7FFF_FF00);
    assert_eq!(values[0], 0);
    assert_eq!(&keys[1..], &[SENTINEL_KEY; 3][..]);
    let mut rest = values[1..].to_vec();
    rest.sort();
    assert_eq!(rest, vec![1, 2, 3]);
}

#[test]
fn culled_splats_leave_only_sentinels() {
    let (mut keys, mut values) = clear_sort(1);
    sort_network(&mut keys, &mut values);
    assert_eq!(keys, vec![SENTINEL_KEY]);
    assert_eq!(values, vec![0]);
}

use line_fractal::chain::chain_branches;
use line_fractal::count::{chain_segment_count, tree_segment_count};
use line_fractal::tree::tree_branches;

fn fits(n: u128) -> Option<usize> {
    usize::try_from(n).ok()
}

fn tree_size(arms: u32, depth: u32) -> Option<u128> {
    let mut total: u128 = 0;
    for _ in 0..depth {
        total = total.checked_add(1)?.checked_mul(arms as u128)?;
    }
    Some(total)
}

#[test]
fn chain_count_is_the_product() {
    assert_eq!(chain_segment_count(3, 35), Some(105));
    assert_eq!(chain_segment_count(1, 1), Some(1));
    assert_eq!(chain_segment_count(20, 200), Some(4000));
    assert_eq!(chain_segment_count(0, 7), Some(0));
    assert_eq!(chain_segment_count(7, 0), Some(0));
}

#[test]
fn chain_count_matches_what_is_generated() {
    for arms in 0u32..=5 {
        for depth in 0u32..=5 {
            assert_eq!(
                chain_segment_count(arms, depth),
                Some(chain_branches(arms, depth).len())
            );
        }
    }
}

#[test]
fn chain_count_of_the_largest_input() {
    let product = (u32::MAX as u128) * (u32::MAX as u128);
    assert_eq!(chain_segment_count(u32::MAX, u32::MAX), fits(product));
}

#[test]
fn tree_count_is_the_power_sum() {
    assert_eq!(tree_segment_count(3, 1), Some(3));
    assert_eq!(tree_segment_count(3, 2), Some(12));
    assert_eq!(tree_segment_count(3, 3), Some(39));
    assert_eq!(tree_segment_count(3, 8), Some(9840));
    assert_eq!(tree_segment_count(2, 10), Some(2046));
    assert_eq!(tree_segment_count(10, 10), Some(11_111_111_110));
}

#[test]
fn tree_count_meets_the_closed_form() {
    for arms in 2u32..=6 {
        for depth in 0u32..=8 {
            let n = tree_segment_count(arms, depth).unwrap() as u128;
            let power = (arms as u128).pow(depth);
            assert_eq!((arms as u128 - 1) * n, arms as u128 * (power - 1));
        }
    }
}

#[test]
fn tree_count_matches_what_is_generated() {
    for arms in 0u32..=4 {
        for depth in 0u32..=5 {
            assert_eq!(tree_segment_count(arms, depth), Some(tree_branches(arms, depth).len()));
        }
    }
}

#[test]
fn tree_count_of_degenerate_fans() {
    assert_eq!(tree_segment_count(0, 0), Some(0));
    assert_eq!(tree_segment_count(0, 9), Some(0));
    assert_eq!(tree_segment_count(5, 0), Some(0));
    assert_eq!(tree_segment_count(1, 9), Some(9));
    assert_eq!(tree_segment_count(1, u32::MAX), Some(u32::MAX as usize));
}

#[test]
fn tree_count_that_no_sequence_can_hold() {
    assert_eq!(tree_segment_count(10, 30), None);
    assert_eq!(tree_segment_count(2, 64), None);
    assert_eq!(tree_segment_count(u32::MAX, u32::MAX), None);
    assert_eq!(tree_segment_count(2, u32::MAX), None);
}

#[test]
fn tree_count_at_the_edge_of_the_machine() {
    for arms in [2u32, 3, 7, 1000, u32::MAX] {
        for depth in 0u32..=70 {
            let expected = tree_size(arms, depth).and_then(fits);
            assert_eq!(tree_segment_count(arms, depth), expected, "{} {}", arms, depth);
        }
    }
}

use jxl::effort::{
    choose_progressive_pass_plan, coefficient_for_pass, effort_params, effort_to_speed_tier_index,
    split_ac_into_passes,
};

#[test]
fn test_effort_to_speed_tier_mapping_monotonic() {
    assert_eq!(effort_to_speed_tier_index(1), 9);
    assert_eq!(effort_to_speed_tier_index(7), 3);
    assert_eq!(effort_to_speed_tier_index(9), 1);

    for e in 1..9 {
        let a = effort_params(e);
        let b = effort_params(e + 1);
        assert!(b.max_total_encodes >= a.max_total_encodes);
        assert!(!a.enable_entropy_merge || b.enable_entropy_merge);
        assert!(!a.enable_custom_coeff_orders || b.enable_custom_coeff_orders);
    }
}

#[test]
fn test_choose_progressive_pass_plan() {
    assert_eq!(choose_progressive_pass_plan(false, false, 9, 1024, 768), (1, vec![]));
    assert_eq!(choose_progressive_pass_plan(true, true, 9, 1024, 768), (1, vec![]));
    assert_eq!(choose_progressive_pass_plan(true, false, 7, 1024, 768), (2, vec![1]));
    assert_eq!(choose_progressive_pass_plan(true, false, 9, 768, 512), (3, vec![2, 1]));
}

#[test]
fn speed_tier_clamps_out_of_range_effort() {
    assert_eq!(effort_to_speed_tier_index(0), 9);
    assert_eq!(effort_to_speed_tier_index(200), 1);
}

#[test]
fn effort_params_monotonic_over_whole_range() {
    for e in 0u8..=254 {
        let a = effort_params(e);
        let b = effort_params(e + 1);
        assert!(b.max_total_encodes >= a.max_total_encodes);
        assert!(!a.enable_entropy_merge || b.enable_entropy_merge);
        assert!(!a.enable_custom_coeff_orders || b.enable_custom_coeff_orders);
    }
}

#[test]
fn pass_plan_small_image_at_effort_nine_uses_two_passes() {
    assert_eq!(choose_progressive_pass_plan(true, false, 9, 767, 512), (2, vec![1]));
    assert_eq!(choose_progressive_pass_plan(true, false, 9, usize::MAX, 2), (3, vec![2, 1]));
}

#[test]
fn single_pass_keeps_coefficients() {
    let ac: Vec<i32> = (0..128).map(|i| (i as i32) * 7 - 300).collect();
    let passes = split_ac_into_passes(&ac, 1, &[], 7);
    assert_eq!(passes.len(), 1);
    assert_eq!(passes[0], ac);
}

#[test]
fn two_passes_reconstruct_low_positions() {
    let ac: Vec<i32> = (0..64).map(|i| (i as i32) * 13 - 400).collect();
    let passes = split_ac_into_passes(&ac, 2, &[1], 7);
    assert_eq!(passes.len(), 2);
    for k in 0..32 {
        let v = ac[k];
        assert_eq!(passes[0][k] * 2 + passes[1][k], v);
    }
}

#[test]
fn pass_values_of_a_coefficient() {
    assert_eq!(coefficient_for_pass(13, 0, 1, 2, &[1], 7), 6);
    assert_eq!(coefficient_for_pass(13, 1, 1, 2, &[1], 7), 1);
    assert_eq!(coefficient_for_pass(-13, 0, 1, 2, &[1], 7), -7);
    assert_eq!(coefficient_for_pass(-13, 1, 1, 2, &[1], 7), 1);
    assert_eq!(coefficient_for_pass(42, 0, 5, 1, &[], 7), 42);
}

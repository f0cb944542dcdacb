use thumbsdown::plan::sampling_plan;
use thumbsdown::numfmt::{millis_to_dec, u64_to_dec, u64_to_dec_padded};

#[test]
fn plan_spaces_timestamps_evenly() {
    // duration 100s, start 0, count 4: 0, 25, 50, 75 seconds, none excluded.
    let plan = sampling_plan(100_000, 0, 4);
    assert_eq!(plan, vec![0, 25_000, 50_000, 75_000]);
}

#[test]
fn plan_for_zero_count_is_empty() {
    let plan = sampling_plan(100_000, 0, 0);
    assert!(plan.is_empty());
}

#[test]
fn plan_stops_before_emitting_past_the_end() {
    // The first timestamp would already exceed the duration.
    let plan = sampling_plan(10_000, 20_000, 4);
    assert!(plan.is_empty());
}

#[test]
fn plan_at_exact_end_repeats_the_boundary() {
    // start == duration: step is 0 and every timestamp sits on the boundary.
    let plan = sampling_plan(5_000, 5_000, 3);
    assert_eq!(plan, vec![5_000, 5_000, 5_000]);
}

#[test]
fn plan_starts_at_the_offset_and_stays_in_range() {
    let plan = sampling_plan(121_700, 1_000, 20);
    assert_eq!(plan.len(), 20);
    assert_eq!(plan[0], 1_000);
    for i in 1..plan.len() {
        assert!(plan[i - 1] <= plan[i]);
        assert!(plan[i] <= 121_700);
    }
}

#[test]
fn numerals_render_exactly() {
    assert_eq!(u64_to_dec(0).as_str(), "0");
    assert_eq!(u64_to_dec(7).as_str(), "7");
    assert_eq!(u64_to_dec(1234).as_str(), "1234");
    assert_eq!(u64_to_dec(u64::MAX).as_str(), "18446744073709551615");
}

#[test]
fn padded_numerals_render_exactly() {
    assert_eq!(u64_to_dec_padded(5, 3).as_str(), "005");
    assert_eq!(u64_to_dec_padded(1234, 3).as_str(), "1234");
    assert_eq!(u64_to_dec_padded(0, 8).as_str(), "00000000");
}

#[test]
fn timestamps_render_with_three_decimals() {
    assert_eq!(millis_to_dec(0).as_str(), "0.000");
    assert_eq!(millis_to_dec(12_500).as_str(), "12.500");
    assert_eq!(millis_to_dec(1_001).as_str(), "1.001");
}

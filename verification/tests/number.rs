use infiniscouter::number::{
    clamp, colour, colour_position, from_count, from_i32, from_u32, isqrt, maximum, mean, minimum,
    percent, population_variance, shortest, std_dev, sum, two_places, NO_DATA, NO_STATISTICS,
    NOT_SHOWN, SCALE,
};
use infiniscouter::text::{
    clone_strings, decimal_string, less, parse_u32, starts_with_char, strip_prefix,
    trim_start_matches,
};

#[test]
fn sentinels_keep_their_order() {
    assert_eq!(NO_DATA, -420 * SCALE);
    assert_eq!(NO_STATISTICS, 9_999_999 * SCALE);
    assert_eq!(NOT_SHOWN, 999_999 * SCALE);
    assert!(NO_DATA < 0 && 0 < NOT_SHOWN && NOT_SHOWN < NO_STATISTICS);
}

#[test]
fn whole_numbers_are_scaled() {
    assert_eq!(from_i32(-3), -3_000_000);
    assert_eq!(from_u32(u32::MAX), 4_294_967_295_000_000);
    assert_eq!(from_count(7), 7_000_000);
    assert_eq!(from_count(usize::MAX), i64::MAX);
    assert_eq!(clamp(i128::MIN), i64::MIN);
    assert_eq!(clamp(12), 12);
}

#[test]
fn square_roots_are_rounded_down() {
    assert_eq!(isqrt(0), 0);
    assert_eq!(isqrt(1), 1);
    assert_eq!(isqrt(15), 3);
    assert_eq!(isqrt(16), 4);
    assert_eq!(isqrt(u128::MAX), u64::MAX);
    assert_eq!(isqrt(1_000_000_000_000), 1_000_000);
}

#[test]
fn mean_rounds_toward_zero() {
    assert_eq!(sum(&vec![1, 2, 3]), 6);
    assert_eq!(mean(&vec![12_000_000, 9_000_000]), 10_500_000);
    assert_eq!(mean(&vec![1, 2]), 1);
    assert_eq!(mean(&vec![-1, -2]), -1);
    assert_eq!(mean(&vec![i64::MAX, i64::MAX, i64::MAX]), i64::MAX);
    assert_eq!(minimum(&vec![3, -7, 5]), -7);
    assert_eq!(maximum(&vec![3, -7, 5]), 5);
}

#[test]
fn variance_and_deviation_of_a_population() {
    // 2, 4, 4, 4, 5, 5, 7, 9 has the mean 5, the variance 4 and the deviation 2.
    let values: Vec<i64> = vec![2, 4, 4, 4, 5, 5, 7, 9].into_iter().map(|v| v * SCALE).collect();
    assert_eq!(mean(&values), 5 * SCALE);
    assert_eq!(population_variance(&values), 4 * (SCALE as u128) * (SCALE as u128));
    assert_eq!(std_dev(&values), 2 * SCALE);
    assert_eq!(std_dev(&vec![7, 7, 7]), 0);
    assert_eq!(std_dev(&vec![i64::MIN, i64::MAX]), i64::MAX);
}

#[test]
fn colour_is_white_at_the_average_and_full_at_the_ends() {
    assert_eq!(colour(5 * SCALE, 5 * SCALE, 2 * SCALE), [255, 255, 255]);
    assert_eq!(colour(5 * SCALE, 5 * SCALE, 0), [255, 255, 255]);
    assert_eq!(colour(9 * SCALE, 5 * SCALE, 0), [255, 255, 255]);
    assert_eq!(colour(9 * SCALE, 5 * SCALE, 2 * SCALE), [0, 255, 0]);
    assert_eq!(colour(1 * SCALE, 5 * SCALE, 2 * SCALE), [255, 0, 0]);
    assert_eq!(colour(100 * SCALE, 5 * SCALE, 2 * SCALE), [0, 255, 0]);
    // Half way up: c is one half.
    assert_eq!(colour_position(7 * SCALE, 5 * SCALE, 2 * SCALE), SCALE / 2);
    assert_eq!(colour(7 * SCALE, 5 * SCALE, 2 * SCALE), [127, 255, 127]);
    assert_eq!(colour(3 * SCALE, 5 * SCALE, 2 * SCALE), [255, 127, 127]);
}

#[test]
fn numbers_are_written_in_decimal() {
    assert_eq!(decimal_string(0), "0");
    assert_eq!(decimal_string(9075), "9075");
    assert_eq!(two_places(10_500_000), "10.50");
    assert_eq!(two_places(12_345_000), "12.35");
    assert_eq!(two_places(12_344_999), "12.34");
    assert_eq!(two_places(-420_000_000), "-420.00");
    assert_eq!(two_places(5_000), "0.01");
    assert_eq!(two_places(0), "0.00");
    assert_eq!(percent(833_333), "83%");
    assert_eq!(percent(1_000_000), "100%");
    assert_eq!(percent(5_000), "1%");
    assert_eq!(percent(0), "0%");
    assert_eq!(shortest(12_000_000), "12");
    assert_eq!(shortest(9_500_000), "9.5");
    assert_eq!(shortest(-250_000), "-0.25");
    assert_eq!(shortest(1), "0.000001");
    assert_eq!(shortest(1_000_010), "1.00001");
}

#[test]
fn numerals_are_read() {
    assert_eq!(parse_u32("118"), Some(118));
    assert_eq!(parse_u32("+7"), Some(7));
    assert_eq!(parse_u32("007"), Some(7));
    assert_eq!(parse_u32("4294967295"), Some(u32::MAX));
    assert_eq!(parse_u32("4294967296"), None);
    assert_eq!(parse_u32(""), None);
    assert_eq!(parse_u32("+"), None);
    assert_eq!(parse_u32("-1"), None);
    assert_eq!(parse_u32("12a"), None);
    assert_eq!(parse_u32(" 12"), None);
}

#[test]
fn prefixes_are_cut() {
    assert_eq!(strip_prefix("statbotics-wins", "statbotics-"), Some("wins"));
    assert_eq!(strip_prefix("statbotics-", "statbotics-"), Some(""));
    assert_eq!(strip_prefix("stat", "statbotics-"), None);
    assert_eq!(strip_prefix("wins", "statbotics-"), None);
    assert_eq!(trim_start_matches("frcfrc118", "frc"), "118");
    assert_eq!(trim_start_matches("118", "frc"), "118");
    assert_eq!(trim_start_matches("frc", ""), "frc");
    assert!(starts_with_char("Yes", 'Y'));
    assert!(!starts_with_char("", 'Y'));
    assert!(!starts_with_char("no", 'Y'));
}

#[test]
fn strings_are_ordered_as_in_the_standard_library() {
    let words = ["", "a", "ab", "b", "B", "é", "zz", "a", "Ab"];
    for a in words {
        for b in words {
            assert_eq!(less(a, b), a < b, "{a:?} < {b:?}");
        }
    }
    let copy = clone_strings(&vec!["x".to_string(), "y".to_string()]);
    assert_eq!(copy, vec!["x".to_string(), "y".to_string()]);
}

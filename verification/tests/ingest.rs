use ocv_patch::moments::{collect_moments, parse_moment_file, MomentSample};
use ocv_patch::text::moment_rel_path;

const FIXED_ONE: i64 = 1_000_000_000_000;

fn file(line: &str) -> Vec<u8> {
    format!("h1,h2,h3,h4,h5,h6\n{line}\n").into_bytes()
}

#[test]
fn reads_six_scaled_fields() {
    // raw seconds scaled by 1e9 into nanosecond units
    let content = file("1.23e-9,2e-9,3e-9,4e-9,5e-9,6e-9");
    let m = parse_moment_file(&content, 9).unwrap();
    assert_eq!(
        m,
        MomentSample {
            delay_mean: 1_230_000_000_000,
            delay_std_dev: 2 * FIXED_ONE,
            delay_skewness: 3 * FIXED_ONE,
            transition_mean: 4 * FIXED_ONE,
            transition_std_dev: 5 * FIXED_ONE,
            transition_skewness: 6 * FIXED_ONE,
        }
    );
}

#[test]
fn unscaled_plain_decimals() {
    let content = file("0.5,-0.25,+2,1.,.75,0");
    let m = parse_moment_file(&content, 0).unwrap();
    assert_eq!(m.delay_mean, FIXED_ONE / 2);
    assert_eq!(m.delay_std_dev, -FIXED_ONE / 4);
    assert_eq!(m.delay_skewness, 2 * FIXED_ONE);
    assert_eq!(m.transition_mean, FIXED_ONE);
    assert_eq!(m.transition_std_dev, 3 * FIXED_ONE / 4);
    assert_eq!(m.transition_skewness, 0);
}

#[test]
fn later_lines_and_extra_fields_ignored() {
    let content = b"header\n1,2,3,4,5,6,99,100\n7,8,9,10,11,12\n".to_vec();
    let m = parse_moment_file(&content, 0).unwrap();
    assert_eq!(m.delay_mean, FIXED_ONE);
    assert_eq!(m.transition_skewness, 6 * FIXED_ONE);
}

#[test]
fn missing_data_line_is_nothing() {
    assert_eq!(parse_moment_file(b"only a header", 0), None);
}

#[test]
fn malformed_numeric_field_is_nothing() {
    assert_eq!(parse_moment_file(&file("1,2,3,abc,5,6"), 0), None);
    assert_eq!(parse_moment_file(&file("1.2.3,2,3,4,5,6"), 0), None);
    assert_eq!(parse_moment_file(&file("1e,2,3,4,5,6"), 0), None);
}

#[test]
fn fewer_than_six_fields_is_nothing() {
    assert_eq!(parse_moment_file(&file("1,2,3,4,5"), 0), None);
}

#[test]
fn inexact_value_is_nothing() {
    // 1e-13 cannot be held exactly with twelve fractional digits
    assert_eq!(parse_moment_file(&file("1e-13,2,3,4,5,6"), 0), None);
}

#[test]
fn collect_records_missing_indices() {
    let texts = vec![
        Some(file("1,2,3,4,5,6")),
        None,
        Some(file("7,8,9,10,11,12")),
        None,
    ];
    let (moms, skips) =
        collect_moments(&texts, 0, "tt0p8v25c", "AN2D1", "Z", "A1", "002").unwrap();
    assert_eq!(moms.len(), 4);
    assert!(moms[0].is_some());
    assert!(moms[1].is_none());
    assert!(moms[2].is_some());
    assert!(moms[3].is_none());
    assert_eq!(skips.len(), 2);
    assert_eq!(skips[0].index, 1);
    assert_eq!(skips[1].index, 3);
    assert_eq!(skips[0].corner, "tt0p8v25c");
    assert_eq!(skips[0].cell, "AN2D1");
    assert_eq!(skips[0].pin, "Z");
    assert_eq!(skips[0].related_pin, "A1");
    assert_eq!(skips[0].ordinal, "002");
}

#[test]
fn collect_fails_on_malformed_file() {
    let texts = vec![Some(file("1,2,3,4,5,6")), Some(file("bad,2,3,4,5,6"))];
    let err = collect_moments(&texts, 0, "c", "cell", "p", "r", "001").unwrap_err();
    assert_eq!(err.index, 1);
}

#[test]
fn moment_path_template() {
    let p = moment_rel_path("/data/char", "AN2", "tt0p8v25c", "AN2D1", "002", 7);
    assert_eq!(p, "/data/char/AN2/tt0p8v25c/AN2D1/arc002/7_moments.csv");
}

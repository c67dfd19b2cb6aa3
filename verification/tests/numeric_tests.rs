//! Reading numeric literals and mock ratios as doubles, checked against the
//! platform's own float parsing and formatting.
use pytest_linter::numeric::{literal_class_exec, mock_ratio};

fn expected_class(s: &str) -> Option<(bool, bool, bool)> {
    s.parse::<f64>().ok().map(|v| (v.is_nan(), v > 0.1, v < -0.1))
}

#[test]
fn literal_classes_agree_with_float_parsing() {
    let samples = [
        "0", "0.1", "0.10", "0.1000000000000000055511151231257827", "0.1000000000000000055511151231257828",
        "0.10000000000000001", "0.11", "1", "1.5", "2.5e-1", "1e-1", "1E-2", "10e-2", ".5", "5.", "1_000", "0x10",
        "inf", "-inf", "NaN", "nan", "infinity", "1e400", "1e-400", "abc", "", "+0.2", "-0.2", "-0.05", "3.0",
        "0.099999999999999999", "00000.1000000000000000055511151231257827021181583404541015625000001",
    ];
    for s in samples {
        let got = literal_class_exec(s).map(|c| (c.nan, c.above, c.below));
        assert_eq!(got, expected_class(s), "literal {s:?}");
    }
}

#[test]
fn mock_ratio_matches_float_division_and_formatting() {
    for m in 1..=60usize {
        for a in 1..=25usize {
            let r = m as f64 / a as f64;
            let got = mock_ratio(m, a);
            if r > 3.0 {
                let tenths = got.expect("ratio over three");
                let text = format!("{}.{}", tenths / 10, tenths % 10);
                assert_eq!(text, format!("{:.1}", r), "{m}/{a}");
            } else {
                assert_eq!(got, None, "{m}/{a}");
            }
        }
    }
}

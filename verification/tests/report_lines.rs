use ferris_bench::report::{decimal, report, report_lines, tagged_line, REPORT_LINES};
use ferris_bench::stats::Statistics;

#[test]
fn decimal_has_every_digit() {
    assert_eq!(decimal(1_234_567_890), "1234567890");
    for d in 0..10u128 {
        assert_eq!(decimal(d), d.to_string());
    }
}

#[test]
fn decimal_of_small_numbers() {
    assert_eq!(decimal(0), "0");
    assert_eq!(decimal(7), "7");
    assert_eq!(decimal(10), "10");
    assert_eq!(decimal(14), "14");
    assert_eq!(decimal(1005), "1005");
}

#[test]
fn decimal_of_large_numbers() {
    assert_eq!(decimal(5_000_000_000), "5000000000");
    assert_eq!(decimal(u128::MAX), "340282366920938463463374607431768211455");
    assert_eq!(decimal(u128::MAX), u128::MAX.to_string());
}

#[test]
fn a_line_is_tag_space_value() {
    assert_eq!(tagged_line("FERRIS_ELF_MIN", "12"), "FERRIS_ELF_MIN 12");
    assert_eq!(tagged_line("TAG", ""), "TAG ");
    assert_eq!(tagged_line("FERRIS_ELF_ANSWER", "two words"), "FERRIS_ELF_ANSWER two words");
}

#[test]
fn report_has_its_lines_in_order() {
    let stats = Statistics { median: 1_000_000, average: 999_999, min: 5, max: 0 };
    let lines = report_lines("14", stats);
    assert_eq!(lines.len(), REPORT_LINES);
    assert_eq!(
        lines,
        vec![
            "FERRIS_ELF_ANSWER 14".to_string(),
            "FERRIS_ELF_MEDIAN 1000000".to_string(),
            "FERRIS_ELF_AVERAGE 999999".to_string(),
            "FERRIS_ELF_MIN 5".to_string(),
            "FERRIS_ELF_MAX 0".to_string(),
        ]
    );
}

#[test]
fn report_of_samples_gives_their_statistics() {
    let mut samples = [0u128; 100];
    for i in 0..100 {
        samples[i] = (99 - i as u128) * 10;
    }
    let lines = report("forty-two", &samples);
    assert_eq!(
        lines,
        vec![
            "FERRIS_ELF_ANSWER forty-two".to_string(),
            "FERRIS_ELF_MEDIAN 500".to_string(),
            "FERRIS_ELF_AVERAGE 495".to_string(),
            "FERRIS_ELF_MIN 0".to_string(),
            "FERRIS_ELF_MAX 990".to_string(),
        ]
    );
}

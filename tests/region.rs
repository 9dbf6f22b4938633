use bam_ambig::config::{check_threshold_valid, Fraction, ThresholdError};
use bam_ambig::region::{get_start_stop, get_tids, is_valid_region, parse_region, parse_u32};

#[test]
fn test_parse_region_chrom_only() {
    let region = "chr1";
    let (chrom, start, end) = parse_region(region);

    assert_eq!(chrom, "chr1");
    assert_eq!(start, 1);
    assert_eq!(end, None);
}

#[test]
fn test_parse_region_chrom_and_single_position() {
    let region = "chr2:100";
    let (chrom, start, end) = parse_region(region);

    assert_eq!(chrom, "chr2");
    assert_eq!(start, 100);
    assert_eq!(end, None);
}

#[test]
fn test_parse_region_chrom_and_range() {
    let region = "chr3:200-300";
    let (chrom, start, end) = parse_region(region);

    assert_eq!(chrom, "chr3");
    assert_eq!(start, 200);
    assert_eq!(end, Some(300));
}

#[test]
fn region_validity() {
    assert!(is_valid_region("chr1"));
    assert!(is_valid_region("chr1:5"));
    assert!(is_valid_region("chr1:+5-9"));
    assert!(!is_valid_region("chr1:"));
    assert!(!is_valid_region("chr1:a-9"));
    assert!(!is_valid_region("chr1:5-"));
    assert!(!is_valid_region("chr1:4294967296"));
    assert!(!is_valid_region("chr1:1-2-x"));
    assert!(is_valid_region("chr1:1-2-3"));
    assert!(is_valid_region("chr1:1-2:x"));
}

#[test]
fn u32_text() {
    assert_eq!(parse_u32("0"), Some(0));
    assert_eq!(parse_u32("+42"), Some(42));
    assert_eq!(parse_u32("4294967295"), Some(u32::MAX));
    assert_eq!(parse_u32("4294967296"), None);
    assert_eq!(parse_u32(""), None);
    assert_eq!(parse_u32("+"), None);
    assert_eq!(parse_u32("-1"), None);
    assert_eq!(parse_u32("12a"), None);
}

#[test]
fn test_start_stop_both() {
    let (start, stop) = get_start_stop(Some(1), Some(1000));
    assert_eq!(start, 0);
    assert_eq!(stop, 1000);
}

#[test]
fn test_start_stop_start() {
    let (start, stop) = get_start_stop(Some(1), None);
    assert_eq!(start, 0);
    assert_eq!(stop, u32::MAX);
}

#[test]
fn test_start_stop_none() {
    let (start, stop) = get_start_stop(None, None);
    assert_eq!(start, 0);
    assert_eq!(stop, u32::MAX);
}

fn billionths(num: u32) -> Result<Fraction, ThresholdError> {
    Ok(Fraction { num, den: 1_000_000_000 })
}

#[test]
fn threshold_tokens() {
    assert_eq!(check_threshold_valid("0.1"), billionths(100_000_000));
    assert_eq!(check_threshold_valid("0.5"), billionths(500_000_000));
    assert_eq!(check_threshold_valid(".25"), billionths(250_000_000));
    assert_eq!(check_threshold_valid("0"), billionths(0));
    assert_eq!(check_threshold_valid("+0.0"), billionths(0));
    assert_eq!(check_threshold_valid("-0.0"), billionths(0));
    assert_eq!(check_threshold_valid("0."), billionths(0));
    assert_eq!(check_threshold_valid("00.2"), billionths(200_000_000));
}

#[test]
fn threshold_exponent_forms() {
    assert_eq!(check_threshold_valid("1e-1"), billionths(100_000_000));
    assert_eq!(check_threshold_valid("5E-1"), billionths(500_000_000));
    assert_eq!(check_threshold_valid("0.0025e+2"), billionths(250_000_000));
    assert_eq!(check_threshold_valid("25e-2"), billionths(250_000_000));
    assert_eq!(check_threshold_valid("1e-30"), billionths(0));
    assert_eq!(check_threshold_valid("5e-1000000000000000000000000"), billionths(0));
    assert_eq!(check_threshold_valid("0e999999999999999999999999"), billionths(0));
    assert_eq!(check_threshold_valid("1e400"), Err(ThresholdError::OutOfRange));
    assert_eq!(check_threshold_valid("5e0"), Err(ThresholdError::OutOfRange));
}

#[test]
fn threshold_rounding_to_nine_decimals() {
    assert_eq!(check_threshold_valid("0.1234567891"), billionths(123_456_789));
    assert_eq!(check_threshold_valid("0.1234567895"), billionths(123_456_790));
    assert_eq!(check_threshold_valid("0.4999999999"), billionths(500_000_000));
    assert_eq!(check_threshold_valid("0.5000000000000"), billionths(500_000_000));
}

#[test]
fn threshold_out_of_range() {
    assert_eq!(check_threshold_valid("0.51"), Err(ThresholdError::OutOfRange));
    assert_eq!(check_threshold_valid("0.5000000001"), Err(ThresholdError::OutOfRange));
    assert_eq!(check_threshold_valid("1"), Err(ThresholdError::OutOfRange));
    assert_eq!(check_threshold_valid("-0.1"), Err(ThresholdError::OutOfRange));
    assert_eq!(check_threshold_valid("-1e-9"), Err(ThresholdError::OutOfRange));
}

#[test]
fn threshold_not_a_number() {
    assert_eq!(check_threshold_valid("abc"), Err(ThresholdError::NotANumber));
    assert_eq!(check_threshold_valid("."), Err(ThresholdError::NotANumber));
    assert_eq!(check_threshold_valid(""), Err(ThresholdError::NotANumber));
    assert_eq!(check_threshold_valid("1e"), Err(ThresholdError::NotANumber));
    assert_eq!(check_threshold_valid("e5"), Err(ThresholdError::NotANumber));
    assert_eq!(check_threshold_valid("1.2.3"), Err(ThresholdError::NotANumber));
    assert_eq!(check_threshold_valid("--1"), Err(ThresholdError::NotANumber));
    assert_eq!(check_threshold_valid("0.1e-+1"), Err(ThresholdError::NotANumber));
}

#[test]
fn test_tids_from_supplied() {
    let tids = get_tids(Some("chr1"), &vec![]);
    assert_eq!(tids, vec!["chr1".to_string()]);
}

#[test]
fn test_tids_from_bam() {
    let names = vec!["chr1".to_string(), "chrM".to_string()];
    assert_eq!(get_tids(None, &names), names);
    assert_eq!(get_tids(Some("chrM"), &names), vec!["chrM".to_string()]);
}

#[test]
fn region_extra_fields_ignored() {
    let (chrom, start, end) = parse_region("chrX:10-20-30");
    assert_eq!((chrom, start, end), ("chrX", 10, Some(20)));
    let (chrom, start, end) = parse_region("chrX:7:9");
    assert_eq!((chrom, start, end), ("chrX", 7, None));
}

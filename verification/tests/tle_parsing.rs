use orbital_core::tle::{parse_tle, parse_tle_lines, MeanElements};

// The ISS element set used throughout these tests.  The numeric fields are
// the well-known ones; the final digit of each line is the modulo-10
// checksum of the first 68 characters.
const ISS_TLE_LINE1: &str = "1 25544U 98067A   24001.50000000  .00016717  00000-0  10270-3 0  9021";
const ISS_TLE_LINE2: &str = "2 25544  51.6400 208.9163 0006703 130.5360 325.0288 15.50377579999993";

fn with_checksum(body: &str) -> String {
    assert_eq!(body.len(), 68);
    let mut sum: u32 = 0;
    for c in body.chars() {
        if c.is_ascii_digit() {
            sum += c.to_digit(10).unwrap();
        } else if c == '-' {
            sum += 1;
        }
    }
    format!("{}{}", body, sum % 10)
}

#[test]
fn test_parse_iss_fields_exact() {
    let me = parse_tle(ISS_TLE_LINE1, ISS_TLE_LINE2).expect("valid TLE should parse");
    assert_eq!(me.norad_id, 25544);
    assert_eq!(me.epoch_year, 2024);
    assert_eq!(me.epoch_day, 1);
    assert_eq!(me.epoch_day_frac_e8, 50_000_000);
    assert_eq!(me.mean_motion_dot_e8, 16_717);
    assert_eq!(me.mean_motion_ddot_e6, 0);
    assert_eq!(me.mean_motion_ddot_exp, 0);
    assert_eq!(me.bstar_e6, 102_700);
    assert_eq!(me.bstar_exp, -3);
    assert_eq!(me.inclination_e8, 5_164_000_000);
    assert_eq!(me.right_ascension_e8, 20_891_630_000);
    assert_eq!(me.eccentricity_e7, 6_703);
    assert_eq!(me.argument_of_perigee_e8, 13_053_600_000);
    assert_eq!(me.mean_anomaly_e8, 32_502_880_000);
    assert_eq!(me.mean_motion_e8, 1_550_377_579);
}

#[test]
fn test_parse_negative_decimal_fields() {
    let line1 = with_checksum(
        "1 25544U 98067A   08264.51782528 -.00002182  00000-0 -11606-4 0  292",
    );
    let line2 = with_checksum(
        "2 25544  51.6416 247.4627 0006703 130.5360 325.0288 15.7212539156353",
    );
    let me = parse_tle(&line1, &line2).expect("valid TLE should parse");
    assert_eq!(me.mean_motion_dot_e8, -2_182);
    assert_eq!(me.bstar_e6, -116_060);
    assert_eq!(me.bstar_exp, -4);
    assert_eq!(me.epoch_year, 2008);
    assert_eq!(me.epoch_day, 264);
    assert_eq!(me.epoch_day_frac_e8, 51_782_528);
}

#[test]
fn test_propagate_invalid_tle() {
    let result = parse_tle("INVALID TLE", "INVALID TLE");
    assert!(result.is_err(), "Propagation should fail with invalid TLE");
}

#[test]
fn test_propagation_error_types() {
    let result = parse_tle("", "");
    assert!(result.is_err());
    match result.unwrap_err() {
        orbital_core::error::PropagationError::TleParseError(_) => {}
        _ => panic!("Expected TleParseError"),
    }
}

#[test]
fn test_parse_rejects_bad_checksum() {
    // The correct final digit of line 1 is 1; any other digit must fail.
    let bad1 = "1 25544U 98067A   24001.50000000  .00016717  00000-0  10270-3 0  9025";
    let r = parse_tle(bad1, ISS_TLE_LINE2);
    assert!(r.is_err(), "checksum mismatch must be rejected");
}

#[test]
fn test_parse_rejects_wrong_lengths() {
    assert!(parse_tle(&ISS_TLE_LINE1[..68], ISS_TLE_LINE2).is_err());
    assert!(parse_tle(ISS_TLE_LINE1, &format!("{} ", ISS_TLE_LINE2)).is_err());
}

#[test]
fn test_parse_rejects_wrong_leading_characters() {
    let swapped1 = with_checksum(&format!("2{}", &ISS_TLE_LINE1[1..68]));
    assert!(parse_tle(&swapped1, ISS_TLE_LINE2).is_err());
}

#[test]
fn test_parse_rejects_norad_mismatch() {
    let line2 = with_checksum(
        "2 25545  51.6400 208.9163 0006703 130.5360 325.0288 15.5037757999999",
    );
    assert!(parse_tle(ISS_TLE_LINE1, &line2).is_err());
}

#[test]
fn test_parse_rejects_zero_mean_motion() {
    let line2 = with_checksum(
        "2 25544  51.6400 208.9163 0006703 130.5360 325.0288 00.0000000099999",
    );
    assert!(parse_tle(ISS_TLE_LINE1, &line2).is_err());
}

#[test]
fn test_parse_rejects_inclination_out_of_range() {
    let line2 = with_checksum(
        "2 25544 181.0000 208.9163 0006703 130.5360 325.0288 15.5037757999999",
    );
    assert!(parse_tle(ISS_TLE_LINE1, &line2).is_err());
}

#[test]
fn test_parse_rejects_negative_eccentricity() {
    let line2 = with_checksum(
        "2 25544  51.6400 208.9163 -006703 130.5360 325.0288 15.5037757999999",
    );
    assert!(parse_tle(ISS_TLE_LINE1, &line2).is_err());
}

#[test]
fn test_parse_rejects_epoch_day_out_of_range() {
    let line1 = with_checksum(
        "1 25544U 98067A   24367.50000000  .00016717  00000-0  10270-3 0  902",
    );
    assert!(parse_tle(&line1, ISS_TLE_LINE2).is_err());
    let line1b = with_checksum(
        "1 25544U 98067A   24000.50000000  .00016717  00000-0  10270-3 0  902",
    );
    assert!(parse_tle(&line1b, ISS_TLE_LINE2).is_err());
}

#[test]
fn test_parse_accepts_byte_lines() {
    let me: MeanElements =
        parse_tle_lines(ISS_TLE_LINE1.as_bytes(), ISS_TLE_LINE2.as_bytes()).unwrap();
    assert_eq!(me.norad_id, 25544);
}

#[test]
fn test_parse_alpha5_catalog_number() {
    let line1 = with_checksum(
        "1 A5544U 98067A   24001.50000000  .00016717  00000-0  10270-3 0  902",
    );
    let line2 = with_checksum(
        "2 A5544  51.6400 208.9163 0006703 130.5360 325.0288 15.5037757999999",
    );
    let me = parse_tle(&line1, &line2).expect("letter-extended catalog numbers parse");
    assert_eq!(me.norad_id, 105_544);
}

#[test]
fn test_epoch_to_unix_iss() {
    let me = parse_tle(ISS_TLE_LINE1, ISS_TLE_LINE2).unwrap();
    let (secs, nanos) = orbital_core::epoch::epoch_to_unix(&me);
    // 2024-01-01 12:00:00 UTC
    assert_eq!(secs, 1_704_110_400);
    assert_eq!(nanos, 0);
}

#[test]
fn test_epoch_to_unix_fractional() {
    // Day 264.51782528 of 2008: frac 0.51782528 day = 44740.104192 s.
    let line1 = with_checksum(
        "1 25544U 98067A   08264.51782528 -.00002182  00000-0 -11606-4 0  292",
    );
    let line2 = with_checksum(
        "2 25544  51.6416 247.4627 0006703 130.5360 325.0288 15.7212539156353",
    );
    let me = parse_tle(&line1, &line2).unwrap();
    let (secs, nanos) = orbital_core::epoch::epoch_to_unix(&me);
    // 2008-09-20 00:00:00 UTC is 1221868800; day 264 starts 263 days into 2008.
    let day_start = 1_199_145_600i64 + 263 * 86400;
    assert_eq!(secs, day_start + 44_740);
    assert_eq!(nanos, 104_192_000);
}

#[test]
fn test_epoch_to_unix_before_1970() {
    // Two-digit year 57 maps to 1957, before the Unix epoch.
    let line1 = with_checksum(
        "1 25544U 98067A   57001.00000000  .00016717  00000-0  10270-3 0  902",
    );
    let me = parse_tle(&line1, ISS_TLE_LINE2).unwrap();
    assert_eq!(me.epoch_year, 1957);
    let (secs, nanos) = orbital_core::epoch::epoch_to_unix(&me);
    // 1957-01-01 00:00:00 UTC
    assert_eq!(secs, -410_227_200);
    assert_eq!(nanos, 0);
}

#[test]
fn test_error_message_accessible() {
    let err = parse_tle("INVALID TLE", "INVALID TLE").unwrap_err();
    assert!(err.is_tle_parse_error());
    assert!(!err.message().is_empty());
}

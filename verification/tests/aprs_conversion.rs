use above_me::aircraft::{Aircraft, AircraftType};
use above_me::aprs::conversion::{convert, convert_at, convert_groups};
use above_me::aprs::fields::{
    capture_as_coordinate_value, capture_as_fixed, capture_as_u16, parse_fixed, scale_fixed,
    scale_to_u16, FACTOR_FT_MIN_TO_M_SEC, FACTOR_FT_TO_M, FACTOR_KNOTS_TO_KM_H,
    FACTOR_NONE, FACTOR_TURNS_TWO_MIN_TO_TURNS_MIN,
};
use above_me::aprs::flags::{
    decode_flags, get_aircraft_type_by_capture, parse_hex_byte, ProtocolViolation,
};
use above_me::aprs::conversion::{
    GROUP_ALTITUDE, GROUP_COUNT, GROUP_COURSE, GROUP_FLAGS, GROUP_ID, GROUP_LATITUDE,
    GROUP_LONGITUDE, GROUP_SPEED, GROUP_TURN_RATE, GROUP_VERTICAL_SPEED,
};
use above_me::aprs::matcher::{LineMatcher, LINE_PATTERN};
use above_me::registry::Registry;

const FULL_LINE: &str = "FLRDDE626>APRS,qAS,EGHL:/074548h5111.32N/00102.04W'086/007/A=000607 id0AAB1234 -019fpm +0.0rot 5.5dB 3e -4.3kHz";

fn capture(text: &str) -> Option<String> {
    Some(String::from(text))
}

fn chars(text: &str) -> Vec<char> {
    text.chars().collect()
}

fn degrees(units: i32) -> f64 {
    f64::from(units) / 6000.0
}

fn matcher() -> LineMatcher {
    LineMatcher::create().expect("the line pattern compiles")
}

fn known_aircraft() -> Aircraft {
    Aircraft {
        id: String::from("AB1234"),
        call_sign: String::from("G1"),
        registration: String::from("D-6507"),
        model: String::from("ASK-21"),
        visible: true,
    }
}

#[test]
fn get_type_works() {
    assert!(get_aircraft_type_by_capture(&capture("2D"))
        .is_ok_and(|t| t == Some(AircraftType::Balloon)));
    assert!(get_aircraft_type_by_capture(&capture("07"))
        .is_ok_and(|t| t == Some(AircraftType::Glider)));
    assert!(get_aircraft_type_by_capture(&None).is_ok_and(|t| t.is_none()));
    assert!(get_aircraft_type_by_capture(&capture("ZZZZ")).is_ok_and(|t| t.is_none()));
    assert!(get_aircraft_type_by_capture(&capture("00")).is_ok_and(|t| t.is_none()));
}

#[test]
fn get_type_rejects_stealth_mode() {
    assert_eq!(
        get_aircraft_type_by_capture(&capture("80")),
        Err(ProtocolViolation::StealthMode)
    );
    assert_eq!(
        get_aircraft_type_by_capture(&capture("C0")),
        Err(ProtocolViolation::StealthMode)
    );
}

#[test]
fn get_type_rejects_no_tracking_mode() {
    assert_eq!(
        get_aircraft_type_by_capture(&capture("40")),
        Err(ProtocolViolation::NoTracking)
    );
}

#[test]
fn decode_flags_reads_every_type_code() {
    let expected = [
        None,
        Some(AircraftType::Glider),
        Some(AircraftType::Tow),
        Some(AircraftType::Helicopter),
        Some(AircraftType::SkyDiver),
        Some(AircraftType::DropPlane),
        Some(AircraftType::HangGlider),
        Some(AircraftType::Paraglider),
        Some(AircraftType::MotorAircraft),
        Some(AircraftType::Jet),
        None,
        Some(AircraftType::Balloon),
        Some(AircraftType::Blimp),
        Some(AircraftType::Unmanned),
        None,
        Some(AircraftType::Obstacle),
    ];
    for (code, kind) in expected.iter().enumerate() {
        for address_type in 0..4u8 {
            let flags = ((code as u8) << 2) | address_type;
            assert_eq!(decode_flags(flags), Ok(*kind));
        }
    }
    for flags in 0x40..=0x7Fu8 {
        assert_eq!(decode_flags(flags), Err(ProtocolViolation::NoTracking));
    }
    for flags in 0x80..=0xFFu8 {
        assert_eq!(decode_flags(flags), Err(ProtocolViolation::StealthMode));
    }
}

#[test]
fn parse_hex_byte_reads_both_cases() {
    assert_eq!(parse_hex_byte(&chars("2D")), Some(0x2D));
    assert_eq!(parse_hex_byte(&chars("2d")), Some(0x2D));
    assert_eq!(parse_hex_byte(&chars("+ff")), Some(0xFF));
    assert_eq!(parse_hex_byte(&chars("000a")), Some(0x0A));
    assert_eq!(parse_hex_byte(&chars("100")), None);
    assert_eq!(parse_hex_byte(&chars("")), None);
    assert_eq!(parse_hex_byte(&chars("+")), None);
    assert_eq!(parse_hex_byte(&chars("-1")), None);
    assert_eq!(parse_hex_byte(&chars("0x2D")), None);
    assert_eq!(parse_hex_byte(&chars("G")), None);
}

#[test]
fn convert_works() {
    let valid_aircraft = known_aircraft();
    let mut mapping = Registry::new();
    mapping.insert(valid_aircraft.clone());
    let matcher = matcher();

    let data_set: [(&str, i32, Option<u16>, Option<i64>, Option<u16>, Option<i64>, Option<u16>); 6] = [
        (
            "FLRDDE626>APRS,qAS,EGHL:/074548h5111.32N/00102.04W'086/007/A=000607 id0AAB1234 -019fpm +0.0rot 5.5dB 3e -4.3kHz",
            307132,
            Some(12),
            Some(-9652),
            Some(185),
            Some(0),
            Some(86),
        ),
        (
            "FLRDDE626>APRS,qAS,EGHL:/074548h5111.32N\\00102.04W'086/007/A=000607 id0AAB1234 5.5dB 3e -4.3kHz",
            307132,
            Some(12),
            None,
            Some(185),
            None,
            Some(86),
        ),
        (
            "FLRDDE626>APRS,qAS,EGHL:/074548h5111.32N\\00102.04W' id0AAB1234 5.5dB 3e -4.3kHz",
            307132,
            None,
            None,
            None,
            None,
            None,
        ),
        (
            "FLRDDE626>APRS,qAS,EGHL:/074548h5111.32N/00102.04W' id0AAB1234 -019fpm +0.0rot 5.5dB 3e -4.3kHz",
            307132,
            None,
            Some(-9652),
            None,
            Some(0),
            None,
        ),
        (
            "FLRDDE626>APRS,qAS,EGHL:/074548h5111.32N/00102.04W'086/007/A=000607 id0AAB1234 +0.0rot 5.5dB 3e -4.3kHz",
            307132,
            Some(12),
            None,
            Some(185),
            Some(0),
            Some(86),
        ),
        (
            "FLRDDE626>APRS,qAS,EGHL:/074548h5111.32N/00102.04W' id0AAB1234 +0.0rot 5.5dB 3e -4.3kHz",
            307132,
            None,
            None,
            None,
            Some(0),
            None,
        ),
    ];

    for (line, latitude, speed, vertical_speed, altitude, turn_rate, course) in data_set {
        let result = convert(&matcher, line, &mapping).expect("no violation");
        assert!(result.is_some());

        let status = result.unwrap();
        assert_eq!(status.aircraft.id, valid_aircraft.id);
        assert_eq!(status.position.latitude, latitude);
        assert!((degrees(status.position.latitude) - 51.188667).abs() < 1e-5);
        assert_eq!(status.speed, speed);
        assert_eq!(status.vertical_speed, vertical_speed);
        assert_eq!(status.altitude, altitude);
        assert_eq!(status.turn_rate, turn_rate);
        assert_eq!(status.course, course);
        assert!(status.time_stamp > 0);
    }
}

#[test]
fn convert_gives_the_exact_status() {
    let mut mapping = Registry::new();
    mapping.insert(known_aircraft());

    let status = convert_at(&matcher(), FULL_LINE, &mapping, 1_700_000_000)
        .expect("no violation")
        .expect("a status");

    assert_eq!(status.aircraft.id, "AB1234");
    assert_eq!(status.aircraft.call_sign, "G1");
    assert_eq!(status.aircraft.registration, "D-6507");
    assert_eq!(status.aircraft.model, "ASK-21");
    assert!(status.aircraft.visible);
    assert_eq!(status.position.latitude, 307132);
    assert_eq!(status.position.longitude, -6204);
    assert!((degrees(status.position.longitude) - -1.034).abs() < 1e-5);
    assert_eq!(status.speed, Some(12));
    assert_eq!(status.vertical_speed, Some(-9652));
    assert_eq!(status.altitude, Some(185));
    assert_eq!(status.turn_rate, Some(0));
    assert_eq!(status.course, Some(86));
    assert_eq!(status.time_stamp, 1_700_000_000);
}

#[test]
fn convert_works_with_unknown_aircraft() {
    let mapping = Registry::new();

    let line = "FLRDDE626>APRS,qAS,EGHL:/074548h5111.32N/00102.04W'086/007/A=000607 id0AAB1234 -019fpm +0.0rot 5.5dB 3e -4.3kHz";

    let result = convert(&matcher(), line, &mapping).expect("no violation");
    assert!(result.is_some());

    let status = result.unwrap();
    assert_eq!(status.aircraft.id, "AB1234");
    assert_eq!(status.aircraft.call_sign, "");
    assert_eq!(status.aircraft.registration, "");
    assert_eq!(status.aircraft.model, "Tow plane");
    assert!(status.aircraft.visible);
}

#[test]
fn convert_fills_in_a_missing_model() {
    let mut mapping = Registry::new();
    mapping.insert(Aircraft {
        model: String::new(),
        visible: false,
        ..known_aircraft()
    });

    let status = convert(&matcher(), FULL_LINE, &mapping)
        .expect("no violation")
        .expect("a status");

    assert_eq!(status.aircraft.id, "AB1234");
    assert_eq!(status.aircraft.call_sign, "G1");
    assert_eq!(status.aircraft.registration, "D-6507");
    assert_eq!(status.aircraft.model, "Tow plane");
    assert!(!status.aircraft.visible);
}

#[test]
fn convert_leaves_the_model_empty_for_an_unknown_type_code() {
    let mapping = Registry::new();
    let line = "FLRDDE626>APRS,qAS,EGHL:/074548h5111.32N/00102.04W' id00AB1234";

    let status = convert(&matcher(), line, &mapping)
        .expect("no violation")
        .expect("a status");

    assert_eq!(status.aircraft.id, "AB1234");
    assert_eq!(status.aircraft.model, "");
    assert!(status.aircraft.visible);
}

#[test]
fn convert_ignores_stealth_mode() {
    let mapping = Registry::new();
    let line = "FLRDDE626>APRS,qAS,EGHL:/074548h5111.32N/00102.04W'086/007/A=000607 id8AAB1234 -019fpm +0.0rot 5.5dB 3e -4.3kHz";
    assert!(convert(&matcher(), line, &mapping).ok().flatten().is_none());
    assert!(matches!(
        convert(&matcher(), line, &mapping),
        Err(ProtocolViolation::StealthMode)
    ));
}

#[test]
fn convert_ignores_no_tracking_mode() {
    let mapping = Registry::new();
    let line = "FLRDDE626>APRS,qAS,EGHL:/074548h5111.32N/00102.04W'086/007/A=000607 id4AAB1234 -019fpm +0.0rot 5.5dB 3e -4.3kHz";
    assert!(convert(&matcher(), line, &mapping).ok().flatten().is_none());
    assert!(matches!(
        convert(&matcher(), line, &mapping),
        Err(ProtocolViolation::NoTracking)
    ));
}

#[test]
fn convert_reports_a_violation_of_a_registered_aircraft() {
    let mut mapping = Registry::new();
    mapping.insert(known_aircraft());
    let matcher = matcher();
    for (flags, violation) in [
        ("80", ProtocolViolation::StealthMode),
        ("ff", ProtocolViolation::StealthMode),
        ("C3", ProtocolViolation::StealthMode),
        ("40", ProtocolViolation::NoTracking),
        ("7F", ProtocolViolation::NoTracking),
    ] {
        let line = format!("h5111.32N/00102.04W' id{}AB1234", flags);
        assert_eq!(convert(&matcher, &line, &mapping).err(), Some(violation));
    }
    let line = "h5111.32N/00102.04W' id3FAB1234";
    assert!(convert(&matcher, line, &mapping).is_ok_and(|status| status.is_some()));
}

#[test]
fn convert_skips_lines_of_another_shape() {
    let mapping = Registry::new();
    let matcher = matcher();
    for line in [
        "",
        "# aprsc 2.1.4-g408ed49",
        "FLRDDE626>APRS,qAS,EGHL:/074548h5111.32N/00102.04W'086/007/A=000607",
        "FLRDDE626>APRS,qAS,EGHL:/074548h5111.32X/00102.04W' id0AAB1234",
    ] {
        assert!(convert(&matcher, line, &mapping).is_ok_and(|status| status.is_none()));
    }
}

fn groups_of(texts: [Option<&str>; 10]) -> Vec<Option<String>> {
    texts.iter().map(|text| text.map(String::from)).collect()
}

#[test]
fn convert_groups_reports_a_violation() {
    let mapping = Registry::new();
    let stealth = groups_of([
        Some("whole"),
        Some("5111.32N"),
        Some("00102.04W"),
        None,
        None,
        None,
        Some("8A"),
        Some("AB1234"),
        None,
        None,
    ]);
    assert!(matches!(
        convert_groups(&stealth, &mapping, 5),
        Err(ProtocolViolation::StealthMode)
    ));

    let no_tracking = groups_of([
        Some("whole"),
        Some("5111.32N"),
        Some("00102.04W"),
        None,
        None,
        None,
        Some("4A"),
        Some("AB1234"),
        None,
        None,
    ]);
    assert!(matches!(
        convert_groups(&no_tracking, &mapping, 5),
        Err(ProtocolViolation::NoTracking)
    ));
}

#[test]
fn convert_groups_reports_a_violation_before_anything_else() {
    let mut mapping = Registry::new();
    mapping.insert(known_aircraft());
    let violation = groups_of([
        Some("whole"),
        Some("no coordinate"),
        None,
        None,
        None,
        None,
        Some("8A"),
        Some("AB1234"),
        None,
        None,
    ]);
    assert!(matches!(
        convert_groups(&violation, &mapping, 5),
        Err(ProtocolViolation::StealthMode)
    ));

    let harmless = groups_of([
        Some("whole"),
        Some("5111.32N"),
        Some("00102.04W"),
        None,
        None,
        None,
        Some("0A"),
        Some("AB1234"),
        None,
        None,
    ]);
    let status = convert_groups(&harmless, &mapping, 5)
        .expect("no violation")
        .expect("a status");
    assert_eq!(status.aircraft.model, "ASK-21");
    assert_eq!(status.time_stamp, 5);
}

#[test]
fn convert_groups_needs_identifier_and_position() {
    let mapping = Registry::new();
    let whole = [
        Some("whole"),
        Some("5111.32N"),
        Some("00102.04W"),
        Some("086"),
        Some("007"),
        Some("000607"),
        Some("0A"),
        Some("AB1234"),
        Some("-019"),
        Some("+0.0"),
    ];
    assert!(convert_groups(&groups_of(whole), &mapping, 5).is_ok_and(|s| s.is_some()));

    for missing in [1, 2, 7] {
        let mut texts = whole;
        texts[missing] = None;
        assert!(convert_groups(&groups_of(texts), &mapping, 5).is_ok_and(|s| s.is_none()));
    }
    for optional in [3, 4, 5, 6, 8, 9] {
        let mut texts = whole;
        texts[optional] = None;
        assert!(convert_groups(&groups_of(texts), &mapping, 5).is_ok_and(|s| s.is_some()));
    }

    let mut without_identifier = whole;
    without_identifier[7] = Some("");
    assert!(convert_groups(&groups_of(without_identifier), &mapping, 5).is_ok_and(|s| s.is_none()));

    let mut without_digits = whole;
    without_digits[1] = Some("N");
    assert!(convert_groups(&groups_of(without_digits), &mapping, 5).is_ok_and(|s| s.is_none()));

    let short: Vec<Option<String>> = groups_of(whole).into_iter().take(9).collect();
    assert!(convert_groups(&short, &mapping, 5).is_ok_and(|s| s.is_none()));
}

#[test]
fn convert_groups_drops_a_field_that_is_out_of_range() {
    let mapping = Registry::new();
    let groups = groups_of([
        Some("whole"),
        Some("5111.32N"),
        Some("00102.04W"),
        Some("65535"),
        Some("40000"),
        Some("300000"),
        Some("0A"),
        Some("AB1234"),
        Some("x"),
        Some("1.2.3"),
    ]);
    let status = convert_groups(&groups, &mapping, 5)
        .expect("no violation")
        .expect("a status");
    assert_eq!(status.course, Some(65535));
    assert_eq!(status.speed, None);
    assert_eq!(status.altitude, None);
    assert_eq!(status.vertical_speed, None);
    assert_eq!(status.turn_rate, None);
}

#[test]
fn test_capture_as_f32_works() {
    let captures = capture("12.34");

    assert!(capture_as_fixed(&captures, 100_000).is_some_and(|f| f == 1_234_000));
    assert!(capture_as_fixed(&captures, 200_000).is_some_and(|f| f == 2_468_000));
    assert!(capture_as_fixed(&captures, 100_000)
        .is_some_and(|f| (f as f64 / 100_000.0 - 12.34).abs() < 1e-9));
    assert!(capture_as_fixed(&captures, 200_000)
        .is_some_and(|f| (f as f64 / 100_000.0 - 24.68).abs() < 1e-9));
}

#[test]
fn test_capture_as_u16_works() {
    let captures = capture("1234");

    assert!(capture_as_u16(&captures, 100_000).is_some_and(|f| f == 1234));
    assert!(capture_as_u16(&captures, 200_000).is_some_and(|f| f == 2468));
}

#[test]
fn test_capture_as_u16_fails_on_out_of_range() {
    let captures = capture("1234");

    assert!(capture_as_u16(&captures, 1_000_000).is_some());
    assert!(capture_as_u16(&captures, 10_000_000).is_none());
    assert!(capture_as_u16(&captures, -100_000).is_none());
}

#[test]
fn test_capture_as_coordinate_value_works() {
    let captures = capture("5111.32N");

    assert!(capture_as_coordinate_value(&captures).is_some_and(|f| f == 307132));
    assert!(capture_as_coordinate_value(&captures)
        .is_some_and(|f| (degrees(f) - 51.188667).abs() < 1e-5));
}

#[test]
fn test_capture_as_coordinate_value_works_on_negative() {
    let captures = capture("1029.35S");

    assert!(capture_as_coordinate_value(&captures).is_some_and(|f| f == -62935));
    assert!(capture_as_coordinate_value(&captures)
        .is_some_and(|f| (degrees(f) - -10.489166).abs() < 1e-5));
}

#[test]
fn coordinate_edge_cases() {
    assert_eq!(capture_as_coordinate_value(&None), None);
    assert_eq!(capture_as_coordinate_value(&capture("")), None);
    assert_eq!(capture_as_coordinate_value(&capture("N")), None);
    assert_eq!(capture_as_coordinate_value(&capture("....E")), None);
    assert_eq!(capture_as_coordinate_value(&capture("0N")), Some(0));
    assert_eq!(capture_as_coordinate_value(&capture("0S")), Some(0));
    assert_eq!(capture_as_coordinate_value(&capture("00102.04W")), Some(-6204));
    assert_eq!(capture_as_coordinate_value(&capture("00102.04E")), Some(6204));
    assert_eq!(capture_as_coordinate_value(&capture("18000.00E")), Some(1_080_000));
    assert_eq!(capture_as_coordinate_value(&capture("5199.99N")), Some(51 * 6000 + 9999));
    assert_eq!(capture_as_coordinate_value(&capture("1.2.3.4")), Some(1234));
    // 357913 degrees and 56.47 minutes are the largest value that fits 32 bits
    assert_eq!(capture_as_coordinate_value(&capture("3579135647N")), Some(i32::MAX));
    assert_eq!(capture_as_coordinate_value(&capture("3579135647S")), Some(-i32::MAX));
    assert_eq!(capture_as_coordinate_value(&capture("3579135648N")), None);
    assert_eq!(capture_as_coordinate_value(&capture("4294967295N")), None);
    assert_eq!(capture_as_coordinate_value(&capture("4294967296N")), None);
    assert_eq!(capture_as_coordinate_value(&capture("99999999999999999999999N")), None);
}

#[test]
fn unit_conversions_round_down() {
    assert_eq!(capture_as_u16(&capture("007"), FACTOR_KNOTS_TO_KM_H), Some(12));
    assert_eq!(capture_as_u16(&capture("000607"), FACTOR_FT_TO_M), Some(185));
    assert_eq!(capture_as_u16(&capture("086"), FACTOR_NONE), Some(86));
    assert_eq!(capture_as_u16(&capture("250"), FACTOR_KNOTS_TO_KM_H), Some(463));
    assert_eq!(capture_as_u16(&capture("999"), FACTOR_KNOTS_TO_KM_H), Some(1850));
    assert_eq!(capture_as_u16(&capture("65535"), FACTOR_FT_TO_M), Some(19975));
    assert_eq!(capture_as_u16(&capture("100000"), FACTOR_FT_TO_M), Some(30480));
    assert_eq!(capture_as_u16(&capture("215009"), FACTOR_FT_TO_M), Some(65534));
    assert_eq!(capture_as_fixed(&capture("-019"), FACTOR_FT_MIN_TO_M_SEC), Some(-9652));
    assert_eq!(capture_as_fixed(&capture("+123"), FACTOR_FT_MIN_TO_M_SEC), Some(62484));
    assert_eq!(
        capture_as_fixed(&capture("+1.5"), FACTOR_TURNS_TWO_MIN_TO_TURNS_MIN),
        Some(75_000)
    );
    assert_eq!(
        capture_as_fixed(&capture("-0.3"), FACTOR_TURNS_TWO_MIN_TO_TURNS_MIN),
        Some(-15_000)
    );
}

#[test]
fn range_rejection_gives_an_absent_field() {
    assert_eq!(capture_as_u16(&capture("35387"), FACTOR_KNOTS_TO_KM_H), None);
    assert_eq!(capture_as_u16(&capture("35386"), FACTOR_KNOTS_TO_KM_H), Some(65534));
    assert_eq!(capture_as_u16(&capture("65535"), FACTOR_NONE), Some(65535));
    assert_eq!(capture_as_u16(&capture("65536"), FACTOR_NONE), None);
    assert_eq!(capture_as_u16(&capture("215010"), FACTOR_FT_TO_M), None);
    assert_eq!(capture_as_u16(&capture("6553500000"), 1), Some(65535));
    assert_eq!(capture_as_u16(&capture("6553500001"), 1), None);
    assert_eq!(capture_as_u16(&capture("18446744073709551615"), 1), None);
    assert_eq!(capture_as_u16(&capture("18446744073709551615"), 0), Some(0));
    assert_eq!(capture_as_u16(&capture("99999999999999999999"), FACTOR_NONE), None);
    assert_eq!(capture_as_u16(&capture("99999999999999999999"), 1), None);
    assert_eq!(capture_as_u16(&capture("99999999999999999999"), -1), None);
    assert_eq!(capture_as_u16(&capture("99999999999999999999"), 0), Some(0));
    assert_eq!(capture_as_u16(&capture("99999999999999999999x"), 0), None);
    assert_eq!(capture_as_u16(&capture("65535"), i64::MAX), None);
    assert_eq!(capture_as_u16(&capture("65535"), i64::MIN), None);
    assert_eq!(capture_as_u16(&capture("0"), i64::MIN), Some(0));
    assert_eq!(capture_as_u16(&capture("1"), 6_553_500_000), Some(65535));
    assert_eq!(capture_as_u16(&capture("1"), 6_553_500_001), None);
    assert_eq!(scale_to_u16(65535, 100_000), Some(65535));
    assert_eq!(scale_to_u16(65535, 100_001), None);
    assert_eq!(scale_to_u16(1, -1), None);
    assert_eq!(scale_to_u16(0, -1), Some(0));
    assert_eq!(scale_fixed(i64::MAX, 100_000), Some(i64::MAX));
    assert_eq!(scale_fixed(i64::MAX, 100_001), None);
    assert_eq!(scale_fixed(i64::MIN, 100_000), Some(i64::MIN));
    assert_eq!(scale_fixed(i64::MIN, -100_000), None);
    assert_eq!(scale_fixed(i64::MIN, i64::MIN), None);
    assert_eq!(scale_fixed(-7, 50_000), Some(-3));
    assert_eq!(scale_fixed(7, -50_000), Some(-3));
    assert_eq!(scale_fixed(7, 50_000), Some(3));
}

#[test]
fn capture_as_u16_reads_digits_with_an_optional_plus() {
    assert_eq!(capture_as_u16(&capture("007"), FACTOR_NONE), Some(7));
    assert_eq!(capture_as_u16(&capture("+12"), FACTOR_NONE), Some(12));
    assert_eq!(capture_as_u16(&capture("0000000000000000000000065535"), FACTOR_NONE), Some(65535));
    assert_eq!(capture_as_u16(&None, FACTOR_NONE), None);
    assert_eq!(capture_as_u16(&capture(""), FACTOR_NONE), None);
    assert_eq!(capture_as_u16(&capture("+"), FACTOR_NONE), None);
    assert_eq!(capture_as_u16(&capture("-1"), FACTOR_NONE), None);
    assert_eq!(capture_as_u16(&capture("1 "), FACTOR_NONE), None);
    assert_eq!(capture_as_u16(&capture("1a"), FACTOR_NONE), None);
    assert_eq!(capture_as_u16(&capture("٣"), FACTOR_NONE), None);
}

#[test]
fn parse_fixed_reads_decimal_notation() {
    assert_eq!(parse_fixed(&chars("12.34")), Some(1_234_000));
    assert_eq!(parse_fixed(&chars("+0.0")), Some(0));
    assert_eq!(parse_fixed(&chars("-0.0")), Some(0));
    assert_eq!(parse_fixed(&chars("-019")), Some(-1_900_000));
    assert_eq!(parse_fixed(&chars("5.")), Some(500_000));
    assert_eq!(parse_fixed(&chars(".5")), Some(50_000));
    assert_eq!(parse_fixed(&chars("-.5")), Some(-50_000));
    assert_eq!(parse_fixed(&chars("0.00001")), Some(1));
    assert_eq!(parse_fixed(&chars("0.000019")), Some(1));
    assert_eq!(parse_fixed(&chars("-0.000019")), Some(-1));
    assert_eq!(parse_fixed(&chars("1.23456789")), Some(123_456));
    assert_eq!(parse_fixed(&chars("")), None);
    assert_eq!(parse_fixed(&chars("+")), None);
    assert_eq!(parse_fixed(&chars("-")), None);
    assert_eq!(parse_fixed(&chars(".")), None);
    assert_eq!(parse_fixed(&chars("+.")), None);
    assert_eq!(parse_fixed(&chars("1.2.3")), None);
    assert_eq!(parse_fixed(&chars("+-1")), None);
    assert_eq!(parse_fixed(&chars("1-")), None);
    assert_eq!(parse_fixed(&chars("1e5")), None);
    assert_eq!(parse_fixed(&chars("0.00000000000x")), None);
    assert_eq!(parse_fixed(&chars("92233720368547.75807")), Some(i64::MAX));
    assert_eq!(parse_fixed(&chars("-92233720368547.75807")), Some(-i64::MAX));
    assert_eq!(parse_fixed(&chars("92233720368547.75808")), None);
    assert_eq!(parse_fixed(&chars("92233720368548")), None);
    assert_eq!(parse_fixed(&chars("99999999999999999999999999")), None);
}

#[test]
fn group_indices_name_the_groups_of_the_line_pattern() {
    let regex = regex::Regex::new(LINE_PATTERN).expect("the line pattern compiles");
    assert_eq!(regex.captures_len(), GROUP_COUNT);

    let names: Vec<Option<&str>> = regex.capture_names().collect();
    assert_eq!(names[0], None);
    assert_eq!(names[GROUP_LATITUDE], Some("latitude"));
    assert_eq!(names[GROUP_LONGITUDE], Some("longitude"));
    assert_eq!(names[GROUP_COURSE], Some("course"));
    assert_eq!(names[GROUP_SPEED], Some("speed"));
    assert_eq!(names[GROUP_ALTITUDE], Some("altitude"));
    assert_eq!(names[GROUP_FLAGS], Some("type"));
    assert_eq!(names[GROUP_ID], Some("id"));
    assert_eq!(names[GROUP_VERTICAL_SPEED], Some("verticalSpeed"));
    assert_eq!(names[GROUP_TURN_RATE], Some("turnRate"));
}

#[test]
fn captures_hands_out_the_text_of_each_group() {
    let groups = matcher().captures(FULL_LINE).expect("a match");
    let texts: Vec<Option<&str>> = groups.iter().map(|group| group.as_deref()).collect();
    assert_eq!(
        texts,
        [
            Some("h5111.32N/00102.04W'086/007/A=000607 id0AAB1234 -019fpm +0.0rot"),
            Some("5111.32N"),
            // the separator is optional, and the character after it belongs to no group
            Some("0102.04W"),
            Some("086"),
            Some("007"),
            Some("000607"),
            Some("0A"),
            Some("AB1234"),
            Some("-019"),
            Some("+0.0"),
        ]
    );

    let bare = matcher()
        .captures("h5111.32N\\00102.04E' id3fX")
        .expect("a match");
    let texts: Vec<Option<&str>> = bare.iter().map(|group| group.as_deref()).collect();
    assert_eq!(
        texts,
        [
            Some("h5111.32N\\00102.04E' id3fX"),
            Some("5111.32N"),
            Some("0102.04E"),
            None,
            None,
            None,
            Some("3f"),
            Some("X"),
            None,
            None,
        ]
    );

    assert!(matcher().captures("no telemetry").is_none());
}

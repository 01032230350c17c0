use iso6709parse::{parse, parse_readable, parse_string_representation};
use iso6709parse::{Altitude, Angle, FractionOf, ISO6709Coord};

fn degrees_of(a: &Angle) -> f64 {
    let mut frac = 0.0f64;
    let mut scale = 0.1f64;
    for d in &a.fraction {
        frac += (*d as f64) * scale;
        scale /= 10.0;
    }
    let unit = match a.fraction_of {
        FractionOf::Degrees => 1.0,
        FractionOf::Minutes => 1.0 / 60.0,
        FractionOf::Seconds => 1.0 / 3600.0,
    };
    let m = a.degrees as f64 + a.minutes as f64 / 60.0 + a.seconds as f64 / 3600.0 + frac * unit;
    if a.negative {
        -m
    } else {
        m
    }
}

fn metres_of(a: &Altitude) -> f64 {
    let mut v = 0.0f64;
    for d in &a.integer {
        v = v * 10.0 + *d as f64;
    }
    let mut scale = 0.1f64;
    for d in &a.fraction {
        v += (*d as f64) * scale;
        scale /= 10.0;
    }
    if a.negative {
        -v
    } else {
        v
    }
}

fn close(a: f64, b: f64) -> bool {
    (a - b).abs() < 1e-9
}

fn assert_coord(c: &ISO6709Coord, lat: f64, lon: f64, altitude: Option<f64>) {
    assert!(close(degrees_of(&c.lat), lat), "lat {} != {}", degrees_of(&c.lat), lat);
    assert!(close(degrees_of(&c.lon), lon), "lon {} != {}", degrees_of(&c.lon), lon);
    match (&c.altitude, altitude) {
        (Some(a), Some(e)) => assert!(close(metres_of(a), e), "alt {} != {}", metres_of(a), e),
        (None, None) => {}
        (a, e) => panic!("altitude {:?} != {:?}", a, e),
    }
}

#[test]
fn should_parse_readable_format() {
    for coord in [
        "15°30′00.000″N 95°15′00.000″W",
        " 15°30′00.000″N 95°15′00.000″W",
        " 15°30′00.000″N 95°15′00.000″W ",
    ] {
        assert_coord(&parse_readable(coord).unwrap(), 15.5, -95.25, None);
    }
    for coord in ["15°30′00.000″N 95°15′00.000″W 123.45m", " 15°30′00.000″N 95°15′00.000″W 123.45m "] {
        assert_coord(&parse_readable(coord).unwrap(), 15.5, -95.25, Some(123.45));
    }
}

#[test]
fn should_parse_string_format() {
    assert_coord(&parse_string_representation("N35.50W170.10/").unwrap(), 35.5, -170.1, None);
    assert_coord(&parse_string_representation(" N35.50W170.10/ ").unwrap(), 35.5, -170.1, None);
    assert_coord(
        &parse_string_representation("N35.50W170.10+8712CRSWGS_85/").unwrap(),
        35.5,
        -170.1,
        Some(8712.),
    );
}

#[test]
fn should_parse_either() {
    assert_coord(&parse("15°30′00.000″N 95°15′00.000″W").unwrap(), 15.5, -95.25, None);
    assert_coord(&parse("N35.50W170.10/").unwrap(), 35.5, -170.1, None);
}

#[test]
fn readable_pole_exceeded_fails() {
    assert!(parse_readable("90°40′46.461″N 95°48′26.533″W").is_err());
    assert!(parse("90°40′46.461″N 95°48′26.533″W").is_err());
}

#[test]
fn readable_poles_and_antimeridian_accepted() {
    assert_coord(&parse_readable("90°00′00″N 180°00′00″E").unwrap(), 90.0, 180.0, None);
    assert_coord(&parse_readable("90°00′00″S 180°00′00″W").unwrap(), -90.0, -180.0, None);
    assert!(parse_readable("90°00′00.001″S 0°00′00″W").is_err());
    assert!(parse_readable("0°00′00″S 180°00′00.1″W").is_err());
}

#[test]
fn readable_minutes_and_seconds_below_sixty() {
    assert!(parse_readable("10°60′00″N 20°00′00″E").is_err());
    assert!(parse_readable("10°00′60″N 20°00′00″E").is_err());
    assert!(parse_readable("10°00′00″N 20°00′60.5″E").is_err());
    assert_coord(&parse_readable("10°59′59.5″N 20°00′00″E").unwrap(), 10.0 + 59.0 / 60.0 + 59.5 / 3600.0, 20.0, None);
}

#[test]
fn string_minutes_and_seconds_below_sixty() {
    assert!(parse_string_representation("+4560+00000/").is_err());
    assert!(parse_string_representation("+454560+000/").is_err());
    assert!(parse_string_representation("+00-1456000/").is_err());
}

#[test]
fn string_signs_mirror_each_other() {
    let n = parse_string_representation("N4520.30E14520.30").unwrap();
    let p = parse_string_representation("+4520.30+14520.30").unwrap();
    let s = parse_string_representation("S4520.30W14520.30").unwrap();
    let m = parse_string_representation("-4520.30-14520.30").unwrap();
    assert_eq!(n, p);
    assert!(close(degrees_of(&n.lat), -degrees_of(&s.lat)));
    assert!(close(degrees_of(&n.lon), -degrees_of(&s.lon)));
    assert_eq!(s, m);
}

#[test]
fn both_notations_agree() {
    let r = parse_readable("45°20′35.1528″S 145°20′35.1528″W 10m").unwrap();
    let s = parse_string_representation("-452035.1528-1452035.1528+10CRSWGS_84/").unwrap();
    assert_eq!(r.lat, s.lat);
    assert_eq!(r.lon, s.lon);
    assert!(close(degrees_of(&r.lat), -45.343098));
}

#[test]
fn surrounding_blanks_ignored() {
    let plain = parse_readable("50°40′46.461″N 95°48′26.533″W 123.45m").unwrap();
    let padded = parse_readable(" \t 50°40′46.461″N 95°48′26.533″W 123.45m \n").unwrap();
    assert_eq!(plain, padded);
}

#[test]
fn altitude_without_tag_fails_whole_string_coordinate() {
    assert!(parse_string_representation("N35.50W170.10+2122").is_err());
    assert!(parse_string_representation("N35.50W170.10+2122CRS").is_err());
    assert!(parse_string_representation("N35.50W170.10+2122CRS/").is_err());
}

#[test]
fn malformed_readable_altitude_fails() {
    assert!(parse_readable("15°30′00.000″N 95°15′00.000″W 1.2.3m").is_err());
    assert!(parse_readable("15°30′00.000″N 95°15′00.000″W -m").is_err());
    assert_coord(&parse_readable("15°30′00.000″N 95°15′00.000″W m").unwrap(), 15.5, -95.25, None);
}

#[test]
fn either_reports_second_failure() {
    let e = parse("garbage").unwrap_err();
    assert_eq!(e.message(), "not an ISO 6709 string representation");
    assert!(parse("").is_err());
}

use iso6709parse::human_readable::{
    altitude_parser, altitude_unit, latitude_parser, latlong_altitude_option_parser,
    latlong_altitude_parser, latlong_parser, longitude_parser,
};
use iso6709parse::{Altitude, Angle, FractionOf, ISO6709Error};

fn degrees_of(a: &Angle) -> f64 {
    let mut frac = 0.0f64;
    let mut scale = 0.1f64;
    for d in &a.fraction {
        frac += (*d as f64) * scale;
        scale /= 10.0;
    }
    let unit = match a.fraction_of {
        FractionOf::Degrees => 1.0,
        FractionOf::Minutes => 1.0 / 60.0,
        FractionOf::Seconds => 1.0 / 3600.0,
    };
    let m = a.degrees as f64 + a.minutes as f64 / 60.0 + a.seconds as f64 / 3600.0 + frac * unit;
    if a.negative {
        -m
    } else {
        m
    }
}

fn metres_of(a: &Altitude) -> f64 {
    let mut v = 0.0f64;
    for d in &a.integer {
        v = v * 10.0 + *d as f64;
    }
    let mut scale = 0.1f64;
    for d in &a.fraction {
        v += (*d as f64) * scale;
        scale /= 10.0;
    }
    if a.negative {
        -v
    } else {
        v
    }
}

fn assert_float_approx(actual: Result<(&str, Angle), ISO6709Error>, expected: f64) {
    let actual = degrees_of(&actual.unwrap().1);
    assert!((actual - expected).abs() < 0.0001f64, "expected: {}, actual: {}", expected, actual)
}

fn assert_pair(v: &(Angle, Angle), lat: f64, lon: f64) {
    assert!((degrees_of(&v.0) - lat).abs() < 1e-9);
    assert!((degrees_of(&v.1) - lon).abs() < 1e-9);
}

#[test]
fn should_parse_latitude() {
    let inp = "50°40′46.461″N 95°48′26.533″W 123.45m";
    assert_float_approx(latitude_parser(inp), 50.679573);
    assert_eq!(latitude_parser(inp).unwrap().0, " 95°48′26.533″W 123.45m");
    let inp = "50°40'46.461\"N 95°48′26.533″W 123.45m";
    assert_float_approx(latitude_parser(inp), 50.679573);
    let inp = "00°40′46.461″N 95°48′26.533″W 123.45m";
    assert_float_approx(latitude_parser(inp), 0.679573);

    let inp = "50°40′46.461″S 95°48′26.533″W 123.45m";
    assert_float_approx(latitude_parser(inp), -50.679573);
    let inp = "50°40'46.461\"S 95°48′26.533″W 123.45m";
    assert_float_approx(latitude_parser(inp), -50.679573);
    let inp = "50°40'46\"S 95°48′26.533″W 123.45m";
    assert_float_approx(latitude_parser(inp), -50.679444);
    let inp = "90°00'00.00\"S 95°48′26.533″W 123.45m";
    assert_float_approx(latitude_parser(inp), -90.);
    let inp = "90°00'00.00\"N 95°48′26.533″W 123.45m";
    assert_float_approx(latitude_parser(inp), 90.);
    let inp = "00°00'00.00\"N 95°48′26.533″W 123.45m";
    assert_float_approx(latitude_parser(inp), 0.);
    let inp = "00°00'00.00\"S 95°48′26.533″W 123.45m";
    assert_float_approx(latitude_parser(inp), 0.);
}

#[test]
fn should_err_latitude() {
    let inp = "50.40′46.461″N 95°48′26.533″W 123.45m";
    assert!(latitude_parser(inp).is_err());
    let inp = "50.40′46.461.N 95°48′26.533″W 123.45m";
    assert!(latitude_parser(inp).is_err());
    let inp = "50°40.46.461″N 95°48′26.533″W 123.45m";
    assert!(latitude_parser(inp).is_err());
    let inp = "90°40′46.461″N 95°48′26.533″W 123.45m";
    assert!(latitude_parser(inp).is_err());
}

#[test]
fn should_parse_logitude() {
    let inp = "95°48′26.533″W 123.45m";
    assert_float_approx(longitude_parser(inp), -95.80737);
    let inp = "95°48′26.533″E 123.45m";
    assert_float_approx(longitude_parser(inp), 95.80737);
    let inp = "95°48'26.533″W 123.45m";
    assert_float_approx(longitude_parser(inp), -95.80737);
    let inp = r#"95°48′26.533"W 123.45m"#;
    assert_float_approx(longitude_parser(inp), -95.80737);
    let inp = "95°48′26.533″W 123.45m";
    assert_float_approx(longitude_parser(inp), -95.80737);
    let inp = "180°00′0″W 123.45m";
    assert_float_approx(longitude_parser(inp), -180.);
    let inp = "180°00′0″E 123.45m";
    assert_float_approx(longitude_parser(inp), 180.);
}

#[test]
fn should_err_longitude() {
    let inp = "95.48′26.533″W 123.45m";
    assert!(longitude_parser(inp).is_err());
    let inp = "95°48.26.533″W 123.45m";
    assert!(longitude_parser(inp).is_err());
    let inp = "95°48′26.533.W 123.45m";
    assert!(longitude_parser(inp).is_err());
    let inp = "180°′1.″W 123.45m";
    assert!(longitude_parser(inp).is_err());
    let inp = "180°′1.″E 123.45m";
    assert!(longitude_parser(inp).is_err());
    let inp = "95.48′26.533″ 123.45m";
    assert!(longitude_parser(inp).is_err());
}

#[test]
fn readable_longitude_beyond_antimeridian_fails() {
    assert!(longitude_parser("180°00′00.5″E").is_err());
    assert!(longitude_parser("181°00′00″W").is_err());
    assert!(longitude_parser("99999999999°00′00″W").is_err());
    assert_float_approx(longitude_parser("0000179°59′59″W"), -(179.0 + 59.0 / 60.0 + 59.0 / 3600.0));
}

#[test]
fn should_parse_alt() {
    let inp = "978.90m";
    let (rest, a) = altitude_parser(inp).unwrap();
    assert_eq!(rest, "m");
    assert!((metres_of(&a) - 978.9).abs() < 1e-9);
    let inp = "-978.90m";
    let (rest, a) = altitude_parser(inp).unwrap();
    assert_eq!(rest, "m");
    assert!((metres_of(&a) + 978.9).abs() < 1e-9);

    assert_eq!(altitude_unit("m"), Ok(("", "m")));
}

#[test]
fn should_err_alt() {
    let inp = "a978.90m";
    assert!(altitude_parser(inp).is_err());
}

#[test]
fn altitude_numeral_forms() {
    let (rest, a) = altitude_parser("12.m").unwrap();
    assert_eq!((rest, metres_of(&a)), ("m", 12.0));
    let (rest, a) = altitude_parser(".5 m").unwrap();
    assert_eq!((rest, metres_of(&a)), (" m", 0.5));
    assert!(altitude_parser(".").is_err());
    assert!(altitude_parser("1.2.3").is_err());
    assert!(altitude_parser("+12").is_err());
    assert!(altitude_unit("9m").is_err());
    assert_eq!(altitude_unit("km rest"), Ok((" rest", "km")));
}

#[test]
fn should_parse_readable() {
    let coord = "15°30′00.000″N 95°15′00.000″W";
    let (rest, v) = latlong_parser(coord).unwrap();
    assert_eq!(rest, "");
    assert_pair(&v, 15.5, -95.25);

    let coord = "15°30′00.000″N 95°15′00.000″W 123.45m";
    let (rest, v) = latlong_parser(coord).unwrap();
    assert_eq!(rest, " 123.45m");
    assert_pair(&v, 15.5, -95.25);
}

#[test]
fn should_parse_readable_altitude() {
    let coord = "15°30′00.000″N 95°15′00.000″W";
    assert!(latlong_altitude_parser(coord).is_err());

    let coord = "15°30′00.000″N 95°15′00.000″W 123.45m";
    let (rest, (ll, alt)) = latlong_altitude_parser(coord).unwrap();
    assert_eq!(rest, "m");
    assert_pair(&ll, 15.5, -95.25);
    assert!((metres_of(&alt) - 123.45).abs() < 1e-9);
}

#[test]
fn readable_altitude_optional() {
    let (rest, (ll, alt)) = latlong_altitude_option_parser("15°30′00.000″N 95°15′00.000″W").unwrap();
    assert_eq!(rest, "");
    assert_pair(&ll, 15.5, -95.25);
    assert!(alt.is_none());
    let (rest, (_, alt)) = latlong_altitude_option_parser("15°30′00.000″N\t95°15′00.000″W  -12m").unwrap();
    assert_eq!(rest, "m");
    assert!((metres_of(&alt.unwrap()) + 12.0).abs() < 1e-9);
    assert!(latlong_parser("15°30′00.000″N95°15′00.000″W").is_err());
}

use iso6709parse::string_expression::{
    altitude_parser, crs_parser, latitude_parser, latlong_altitude_option_parser,
    latlong_altitude_parser, latlong_parser, longitude_parser, parse_decimal,
    parse_east_or_west, parse_north_or_south,
};
use iso6709parse::{Altitude, Angle, FractionOf, ISO6709Error};

fn degrees_of(a: &Angle) -> f64 {
    let mut frac = 0.0f64;
    let mut scale = 0.1f64;
    for d in &a.fraction {
        frac += (*d as f64) * scale;
        scale /= 10.0;
    }
    let unit = match a.fraction_of {
        FractionOf::Degrees => 1.0,
        FractionOf::Minutes => 1.0 / 60.0,
        FractionOf::Seconds => 1.0 / 3600.0,
    };
    let m = a.degrees as f64 + a.minutes as f64 / 60.0 + a.seconds as f64 / 3600.0 + frac * unit;
    if a.negative {
        -m
    } else {
        m
    }
}

fn metres_of(a: &Altitude) -> f64 {
    let mut v = 0.0f64;
    for d in &a.integer {
        v = v * 10.0 + *d as f64;
    }
    let mut scale = 0.1f64;
    for d in &a.fraction {
        v += (*d as f64) * scale;
        scale /= 10.0;
    }
    if a.negative {
        -v
    } else {
        v
    }
}

/// The parse left `rest` and gave `expected` degrees.
fn assert_angle(actual: Result<(&str, Angle), ISO6709Error>, rest: &str, expected: f64) {
    let (r, a) = actual.unwrap();
    assert_eq!(r, rest);
    assert!((degrees_of(&a) - expected).abs() < 1e-9, "expected: {}, actual: {}", expected, degrees_of(&a));
}

fn assert_float_approx(actual: Result<(&str, Angle), ISO6709Error>, expected: f64) {
    let actual = degrees_of(&actual.unwrap().1);
    assert!((actual - expected).abs() < 0.0001f64, "expected: {}, actual: {}", expected, actual)
}

fn assert_float_no_remaining(expected: Result<(&str, Angle), ISO6709Error>, actual: f64) {
    let expected = degrees_of(&expected.unwrap().1);
    let difference = (expected - actual).abs();
    assert!(difference < 0.0001f64, "Difference: {difference}, expected: {expected}, actual: {actual}");
}

fn assert_pair(v: Result<(&str, (Angle, Angle)), ISO6709Error>, rest: &str, lat: f64, lon: f64) {
    let (r, v) = v.unwrap();
    assert_eq!(r, rest);
    assert!((degrees_of(&v.0) - lat).abs() < 1e-9);
    assert!((degrees_of(&v.1) - lon).abs() < 1e-9);
}

#[test]
fn should_parse_direction() {
    assert_eq!(parse_north_or_south("N"), Ok(("", 1)));
    assert_eq!(parse_north_or_south("+"), Ok(("", 1)));
    assert_eq!(parse_north_or_south("S"), Ok(("", -1)));
    assert_eq!(parse_north_or_south("-"), Ok(("", -1)));
    assert_eq!(parse_north_or_south("-123.123"), Ok(("123.123", -1)));

    assert!(parse_north_or_south("n").is_err());
}

#[test]
fn longitude_direction() {
    assert_eq!(parse_east_or_west("E1"), Ok(("1", 1)));
    assert_eq!(parse_east_or_west("W"), Ok(("", -1)));
    assert!(parse_east_or_west("N").is_err());
}

#[test]
fn should_parse_dd_ddd() {
    assert_angle(latitude_parser("+45.45"), "", 45.45);
    assert_angle(latitude_parser("N45.45"), "", 45.45);
    assert_angle(latitude_parser("-45.45"), "", -45.45);
    assert_angle(latitude_parser("S45.45"), "", -45.45);
    assert_angle(latitude_parser("S45"), "", -45.);
    assert_angle(latitude_parser("S45.1234"), "", -45.1234);

    //Padding
    assert_angle(latitude_parser("S45.45"), "", -45.45);
    assert_angle(latitude_parser("+05.45"), "", 5.45);
    assert_angle(latitude_parser("+05.05"), "", 5.05);

    //Poles
    assert_angle(latitude_parser("+90.0"), "", 90.0);
    assert_angle(latitude_parser("N90"), "", 90.0);
    assert_angle(latitude_parser("S90"), "", -90.0);
    assert_angle(latitude_parser("-90.0"), "", -90.0);
}

#[test]
fn latitude_should_error_dd_ddd() {
    assert!(latitude_parser("45.45").is_err());
    assert!(latitude_parser("n45.45").is_err());
    assert!(latitude_parser("+5.45").is_err());
    assert!(latitude_parser("North45.45").is_err());
    assert!(latitude_parser("145.45").is_err());
    assert!(latitude_parser("N99.45").is_err());
    assert!(latitude_parser("+90.1").is_err());
    assert!(latitude_parser("-90.1").is_err());
}

#[test]
fn latitude_should_parse_ddmm_mmm() {
    assert_float_approx(latitude_parser("+4520.30"), 45.33833);
    assert_float_approx(latitude_parser("S4520.30"), -45.338333);
    assert_float_approx(latitude_parser("S4520.12304"), -45.335384);
    assert_float_approx(latitude_parser("S4520"), -45.33333);
    assert_float_approx(latitude_parser("S4500"), -45.);
}

#[test]
fn latitude_should_error_ddmm_mmm() {
    assert!(latitude_parser("4545.45").is_err());
    assert!(latitude_parser("N4560.45").is_err());
    assert!(latitude_parser("N4560").is_err());
    assert!(latitude_parser("N4590.45").is_err());
}

#[test]
fn should_parse_ddmmss_sss() {
    assert_float_approx(latitude_parser("+452018"), 45.338333);
    assert_float_approx(latitude_parser("S452018"), -45.338333);
    assert_float_approx(latitude_parser("S452000"), -45.33333);
    assert_float_approx(latitude_parser("S450000"), -45.);
    assert_float_approx(latitude_parser("S452035.1528"), -45.343098);
}

#[test]
fn latitude_pole_boundaries() {
    assert_angle(latitude_parser("N900000.000"), "", 90.0);
    assert!(latitude_parser("N900000.001").is_err());
    assert!(latitude_parser("S9000.0001").is_err());
    assert!(latitude_parser("N455960").is_err());
}

#[test]
fn should_parse_decimal() {
    let input = ".50";
    let (rest, digits) = parse_decimal(input).unwrap();
    assert_eq!(rest, "");
    let value: f64 = digits.iter().rev().fold(0.0, |acc, d| (acc + *d as f64) / 10.0);
    assert!((value - 0.5).abs() < 0.0001f64);
    assert!(parse_decimal(".").is_err());
    assert!(parse_decimal("5").is_err());
}

#[test]
fn should_parse_ddd_ddd() {
    assert_angle(longitude_parser("+145.45"), "", 145.45);
    assert_angle(longitude_parser("E145.45"), "", 145.45);
    assert_angle(longitude_parser("-145.45"), "", -145.45);
    assert_angle(longitude_parser("W145.45"), "", -145.45);
    assert_angle(longitude_parser("W145"), "", -145.);
    assert_angle(longitude_parser("W145.1234"), "", -145.1234);

    //Padding
    assert_angle(longitude_parser("W045.45"), "", -45.45);
    assert_angle(longitude_parser("+005.45"), "", 5.45);
    assert_angle(longitude_parser("+005.05"), "", 5.05);

    //Meridan
    assert_angle(longitude_parser("+180.0"), "", 180.0);
    assert_angle(longitude_parser("E180"), "", 180.0);
    assert_angle(longitude_parser("W180"), "", -180.0);
    assert_angle(longitude_parser("-180.0"), "", -180.0);
}

#[test]
fn longitude_should_error_dd_ddd() {
    assert!(longitude_parser("45.45").is_err());
    assert!(longitude_parser("w45.45").is_err());
    assert!(longitude_parser("+5.45").is_err());
    assert!(longitude_parser("West45.45").is_err());
    assert!(longitude_parser("145.45").is_err());
    assert!(longitude_parser("N129.45").is_err());
    assert!(longitude_parser("+180.1").is_err());
    assert!(longitude_parser("-180.1").is_err());
}

#[test]
fn longitude_should_parse_ddmm_mmm() {
    assert_float_no_remaining(longitude_parser("+14520.30"), 145.338333);
}

#[test]
fn longitude_should_error_ddmm_mmm() {
    assert!(longitude_parser("4545.45").is_err());
    assert!(longitude_parser("N4560.45").is_err());
    assert!(longitude_parser("N4560").is_err());
    assert!(longitude_parser("N4590.45").is_err());
    assert!(longitude_parser("N45a5.45").is_err(), "{:?}", longitude_parser("N45a5.45"));
}

#[test]
fn should_parse_dddmmss_sss() {
    assert_float_no_remaining(longitude_parser("+1452018"), 145.338333);
    assert_float_no_remaining(longitude_parser("W1452018"), -145.338333);
    assert_float_no_remaining(longitude_parser("W1452000"), -145.33333);
    assert_float_no_remaining(longitude_parser("W1450000"), -145.);
    assert_float_no_remaining(longitude_parser("W1452035.1528"), -145.343098);
}

#[test]
fn longitude_beyond_antimeridian_fails() {
    assert!(longitude_parser("+181").is_err());
    assert!(longitude_parser("-300").is_err());
    assert!(longitude_parser("E1800000.1").is_err());
    assert_angle(longitude_parser("E1800000.0"), "", 180.0);
}

#[test]
fn should_parse_latlong() {
    assert_pair(latlong_parser("+35.50+170.00"), "", 35.5, 170.0);
    assert_pair(latlong_parser("+35.50-170.10"), "", 35.5, -170.1);
    assert_pair(latlong_parser("+35-170"), "", 35., -170.);
    assert_pair(latlong_parser("+05.50-070.10"), "", 5.5, -70.1);
    assert_pair(latlong_parser("N35.50W170.10"), "", 35.5, -170.1);

    assert_pair(latlong_parser("+3530+17030"), "", 35.5, 170.5);
    assert_pair(latlong_parser("+3530.0-17030.0"), "", 35.5, -170.5);

    assert_pair(latlong_parser("+05.50-070.10"), "", 5.5, -70.1);
    assert_pair(latlong_parser("N35.50W170.10+8712CRSWGS_85/"), "+8712CRSWGS_85/", 35.5, -170.1);
}

#[test]
fn should_parse_latlong_altitude() {
    let cases = [
        ("N35.50W170.10+8712CRSWGS_85/", 8712.),
        ("N35.50W170.10-8712CRSWGS_85/", -8712.),
        ("N35.50W170.10-8712.5CRSWGS_85/", -8712.5),
    ];
    for (inp, alt) in cases {
        let (rest, ((lat, lon), a)) = latlong_altitude_parser(inp).unwrap();
        assert_eq!(rest, "WGS_85/");
        assert!((degrees_of(&lat) - 35.5).abs() < 1e-9);
        assert!((degrees_of(&lon) + 170.1).abs() < 1e-9);
        assert_eq!(metres_of(&a), alt);
    }
}

#[test]
fn latlong_altitude_optional() {
    let (rest, (_, alt)) = latlong_altitude_option_parser("+1200.00-02130.00").unwrap();
    assert_eq!(rest, "");
    assert!(alt.is_none());
    let (rest, (_, alt)) = latlong_altitude_option_parser("+1200.00-02130.00+2321CRSWGS_85").unwrap();
    assert_eq!(rest, "WGS_85");
    assert_eq!(metres_of(&alt.unwrap()), 2321.0);
    assert!(latlong_altitude_option_parser("+1200.00-02130.00+2321").is_err());
}

#[test]
fn should_parse_altitude() {
    let (rest, a) = altitude_parser("+2122CRSWGS_85/").unwrap();
    assert_eq!((rest, metres_of(&a)), ("WGS_85/", 2122.));
    let (rest, a) = altitude_parser("+2122.4CRSWGS_85/").unwrap();
    assert_eq!(rest, "WGS_85/");
    assert!((metres_of(&a) - 2122.4).abs() < 1e-9);
}

#[test]
fn should_err_altitude() {
    let inp = "+2122";
    assert!(altitude_parser(inp).is_err());
    let inp = "2122CRSWGS_85/";
    assert!(altitude_parser(inp).is_err());
}

#[test]
fn should_parse_crs() {
    let inp = "+2122CRSWGS_85/";
    assert_eq!(crs_parser(inp), Ok(("/", "WGS_85")));
}

#[test]
fn should_err_crs() {
    let inp = "+2122CRS";
    assert!(crs_parser(inp).is_err());
}

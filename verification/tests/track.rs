use aviutl2_track::parse::{parse_head, parse_tail, Component, PointLayout, TrackInfo};
use aviutl2_track::render::{render, ControlPoint, MovementText, Number, TrackText};

/// What the host says of a track: its movement parameters and whether the
/// movement has time control.
struct Host {
    params: Vec<f64>,
    timecontrol: bool,
}

fn number(x: f64) -> Number {
    Number { bits: x.to_bits(), fixed: format!("{x:.6}") }
}

fn read_number(s: &str) -> f64 {
    s.parse::<f64>().unwrap()
}

fn read_component(c: &Component) -> Number {
    match c {
        Component::Text(t) => number(read_number(t)),
        Component::Bits(b) => number(f64::from_bits(*b)),
    }
}

fn read_point(p: &PointLayout) -> ControlPoint {
    ControlPoint {
        coordinate: (read_component(&p.coordinate.0), read_component(&p.coordinate.1)),
        handle_offset: (read_component(&p.handle_offset.0), read_component(&p.handle_offset.1)),
    }
}

/// The texts of the time control fields, in order; fixed values as `#`.
fn fields(points: &[PointLayout]) -> Vec<String> {
    let one = |c: &Component| match c {
        Component::Text(t) => t.to_string(),
        Component::Bits(b) => format!("#{}", f64::from_bits(*b)),
    };
    points
        .iter()
        .flat_map(|p| [one(&p.coordinate.0), one(&p.coordinate.1), one(&p.handle_offset.0), one(&p.handle_offset.1)])
        .collect()
}

/// Reads `base` as a track with what `host` says of it, the numbers read as
/// binary64 values, and writes the track again.
fn read_and_write(base: &str, host: &Option<Host>) -> String {
    let info = host.as_ref().map(|h| TrackInfo { has_params: !h.params.is_empty(), timecontrol: h.timecontrol });
    let head = parse_head(base, info.is_some()).unwrap();
    let values: Vec<f64> = head.values.iter().map(|v| read_number(v)).collect();
    let tail = parse_tail(&head, &info).unwrap();
    let points = tail.time_control_points.map(|pts| pts.iter().map(read_point).collect());
    let precision = head.precision;
    let text = TrackText {
        values: values.iter().map(|v| format!("{v:.precision$}")).collect(),
        flag: head.flag,
        movement: head.movement.map(|name| MovementText {
            name: name.to_string(),
            parameters: host.as_ref().map(|h| h.params.iter().map(|p| format!("{p:.6}")).collect()).unwrap_or_default(),
        }),
        time_control_points: points,
        reference: tail.reference.map(|r| r.to_string()),
    };
    render(&text)
}

fn host(params: Vec<f64>, timecontrol: bool) -> Option<Host> {
    Some(Host { params, timecontrol })
}

const BASIC_PARAMS: [f64; 9] = [0.0, 0.5, 1.0, 1.0, 0.0, 0.0, 0.0, 360.0, 0.0];

#[test]
fn test_parse_no_movement() {
    let base = "42.00";
    let head = parse_head(base, false).unwrap();
    assert_eq!(head.values, vec!["42.00"]);
    assert_eq!(head.precision, 2);
    assert_eq!(head.flag, 0);
    assert_eq!(head.movement, None);
    assert_eq!(base, read_and_write(base, &None));
}

#[test]
fn test_parse_with_movement() {
    let base = "50.000,100.000,直線移動,3";
    let head = parse_head(base, true).unwrap();
    assert_eq!(head.values, vec!["50.000", "100.000"]);
    assert_eq!(head.precision, 3);
    assert_eq!(head.flag, 3);
    assert_eq!(head.movement, Some("直線移動"));
    assert_eq!(base, read_and_write(base, &host(vec![], false)));
}

#[test]
fn test_parse_with_default_timecontrol() {
    let base = "50.000,25.000,100.000,直線移動(時間制御),0";
    let info = Some(TrackInfo { has_params: false, timecontrol: true });
    let head = parse_head(base, true).unwrap();
    assert_eq!(head.values, vec!["50.000", "25.000", "100.000"]);
    let tail = parse_tail(&head, &info).unwrap();
    assert_eq!(fields(&tail.time_control_points.unwrap()), vec!["#0", "#0", "#0.25", "#0.25", "#1", "#1", "#0.25", "#0.25"]);
    assert_eq!(base, read_and_write(base, &host(vec![], true)));
}

#[test]
fn test_parse_with_short_timecontrol() {
    let base = "50.000,100.000,直線移動(時間制御),0|0.25,1,0.191176,1";
    let info = Some(TrackInfo { has_params: false, timecontrol: true });
    let head = parse_head(base, true).unwrap();
    let tail = parse_tail(&head, &info).unwrap();
    assert_eq!(fields(&tail.time_control_points.unwrap()), vec!["#0", "#0", "0.25", "1", "#1", "#1", "0.191176", "1"]);
    assert_eq!(base, read_and_write(base, &host(vec![], true)));
}

#[test]
fn test_parse_with_full_timecontrol() {
    let base = "50.000,100.000,直線移動(時間制御),0|0,0.538889,0.25,0.461111,1,1,0.191176,1";
    let info = Some(TrackInfo { has_params: false, timecontrol: true });
    let head = parse_head(base, true).unwrap();
    let tail = parse_tail(&head, &info).unwrap();
    assert_eq!(
        fields(&tail.time_control_points.unwrap()),
        vec!["0", "0.538889", "0.25", "0.461111", "1", "1", "0.191176", "1"]
    );
    assert_eq!(base, read_and_write(base, &host(vec![], true)));
}

#[test]
fn test_parse_with_params_and_default_timecontrol() {
    let base = "50.000,100.000,コマ落ち時間制御@Basic_S,0|0,0.5,1,1,0,0,0,360,0";
    let info = Some(TrackInfo { has_params: true, timecontrol: true });
    let head = parse_head(base, true).unwrap();
    let tail = parse_tail(&head, &info).unwrap();
    assert_eq!(tail.reference, None);
    assert_eq!(tail.time_control_points.map(|p| p.len()), Some(2));
    assert_eq!(base, read_and_write(base, &host(BASIC_PARAMS.to_vec(), true)));
}

#[test]
fn test_parse_with_params_and_short_timecontrol() {
    let base = "50.000,100.000,コマ落ち時間制御@Basic_S,0|0,0.5,1,1,0,0,0,360,0|0.25,0.461111,0.191176,1";
    let info = Some(TrackInfo { has_params: true, timecontrol: true });
    let head = parse_head(base, true).unwrap();
    let tail = parse_tail(&head, &info).unwrap();
    assert_eq!(fields(&tail.time_control_points.unwrap()), vec!["#0", "#0", "0.25", "0.461111", "#1", "#1", "0.191176", "1"]);
    assert_eq!(base, read_and_write(base, &host(BASIC_PARAMS.to_vec(), true)));
}

#[test]
fn test_parse_with_params_and_full_timecontrol() {
    let base = "50.000,100.000,コマ落ち時間制御@Basic_S,0|0,0.5,1,1,0,0,0,360,0|0,0.538889,0.25,0.461111,1,1,0.191176,1";
    assert_eq!(base, read_and_write(base, &host(BASIC_PARAMS.to_vec(), true)));
}

#[test]
fn test_parse_with_params_expression_and_full_timecontrol() {
    let base = "50.000,100.000,コマ落ち時間制御@Basic_S,8|$|0,0.5,1,1,0,0,0,360,0|0,0,0.165441,0.411111,0.264706,0.366667,0.2,0,1,1,0.202206,0.516667";
    let info = Some(TrackInfo { has_params: true, timecontrol: true });
    let head = parse_head(base, true).unwrap();
    assert_eq!(head.flag, 8);
    let tail = parse_tail(&head, &info).unwrap();
    assert_eq!(tail.reference, Some("$"));
    assert_eq!(tail.time_control_points.map(|p| p.len()), Some(3));
    assert_eq!(base, read_and_write(base, &host(BASIC_PARAMS.to_vec(), true)));
}

#[test]
fn test_to_string_float_precision() {
    let track = TrackText {
        values: vec![format!("{:.2}", 42.0f64)],
        flag: 0,
        movement: Some(MovementText {
            name: "test".to_string(),
            parameters: [1.234_567_89f64, 1.2, -0.000_000_1].iter().map(|p| format!("{p:.6}")).collect(),
        }),
        time_control_points: None,
        reference: None,
    };
    assert_eq!("42.00,test,0|1.234568,1.2,0", render(&track));
}

fn fixed_point(cx: f64, cy: f64, hx: f64, hy: f64) -> ControlPoint {
    ControlPoint { coordinate: (number(cx), number(cy)), handle_offset: (number(hx), number(hy)) }
}

#[test]
fn written_track_reads_back() {
    let text = TrackText {
        values: vec!["1.5".to_string(), "-2.5".to_string()],
        flag: 3,
        movement: Some(MovementText { name: "直線移動".to_string(), parameters: vec!["1.000000".to_string()] }),
        time_control_points: Some(vec![fixed_point(0.0, 0.0, 0.5, 0.5), fixed_point(1.0, 1.0, 0.75, 0.125)]),
        reference: Some("$x".to_string()),
    };
    let s = render(&text);
    assert_eq!(s, "1.5,-2.5,直線移動,11|$x|1|0.5,0.5,0.75,0.125");
    let info = Some(TrackInfo { has_params: true, timecontrol: true });
    let head = parse_head(&s, true).unwrap();
    assert_eq!(head.values, vec!["1.5", "-2.5"]);
    assert_eq!(head.flag, 11);
    assert_eq!(head.movement, Some("直線移動"));
    assert_eq!(head.sections, vec!["$x", "1", "0.5,0.5,0.75,0.125"]);
    let tail = parse_tail(&head, &info).unwrap();
    assert_eq!(tail.reference, Some("$x"));
    assert_eq!(fields(&tail.time_control_points.unwrap()), vec!["#0", "#0", "0.5", "0.5", "#1", "#1", "0.75", "0.125"]);
}

#[test]
fn reference_bit_follows_the_reference() {
    let mut text = TrackText {
        values: vec!["1".to_string()],
        flag: 8,
        movement: None,
        time_control_points: None,
        reference: None,
    };
    assert_eq!(render(&text), "1");
    text.flag = 9;
    assert_eq!(render(&text), "1,移動無し,1");
    text.flag = 1;
    text.reference = Some("a".to_string());
    assert_eq!(render(&text), "1,移動無し,9|a");
}

#[test]
fn bare_track_is_its_value() {
    let text = TrackText { values: vec!["7".to_string()], flag: 0, movement: None, time_control_points: None, reference: None };
    assert_eq!(render(&text), "7");
    let text = TrackText { values: vec!["7".to_string(), "8".to_string()], flag: 0, movement: None, time_control_points: None, reference: None };
    assert_eq!(render(&text), "7,8,移動無し,0");
}

#[test]
fn default_points_are_not_written() {
    let text = TrackText {
        values: vec!["1".to_string()],
        flag: 0,
        movement: Some(MovementText { name: "m".to_string(), parameters: vec![] }),
        time_control_points: Some(vec![fixed_point(-0.0, 0.0, 0.25, 0.25), fixed_point(1.0, 1.0, 0.25, 0.25)]),
        reference: None,
    };
    assert_eq!(render(&text), "1,m,0");
}

#[test]
fn full_form_for_other_points() {
    let text = TrackText {
        values: vec!["1".to_string()],
        flag: 0,
        movement: Some(MovementText { name: "m".to_string(), parameters: vec![] }),
        time_control_points: Some(vec![fixed_point(0.0, 0.1, 0.25, 0.25), fixed_point(1.0, 1.0, 0.25, 0.25)]),
        reference: None,
    };
    assert_eq!(render(&text), "1,m,0|0,0.1,0.25,0.25,1,1,0.25,0.25");
}

#[test]
fn reference_bit_alone_is_written_bare() {
    let with_bit = TrackText { values: vec!["42.00".to_string()], flag: 8, movement: None, time_control_points: None, reference: None };
    let without = TrackText { values: vec!["42.00".to_string()], flag: 0, movement: None, time_control_points: None, reference: None };
    assert_eq!(render(&with_bit), "42.00");
    assert_eq!(render(&with_bit), render(&without));
}

#[test]
fn params_and_full_timecontrol_fields() {
    let base = "50.000,100.000,コマ落ち時間制御@Basic_S,0|0,0.5,1,1,0,0,0,360,0|0,0.538889,0.25,0.461111,1,1,0.191176,1";
    let info = Some(TrackInfo { has_params: true, timecontrol: true });
    let head = parse_head(base, true).unwrap();
    assert_eq!(head.flag, 0);
    assert_eq!(head.movement, Some("コマ落ち時間制御@Basic_S"));
    assert_eq!(head.sections, vec!["0,0.5,1,1,0,0,0,360,0", "0,0.538889,0.25,0.461111,1,1,0.191176,1"]);
    let tail = parse_tail(&head, &info).unwrap();
    assert_eq!(tail.reference, None);
    let points = tail.time_control_points.unwrap();
    assert_eq!(points.len(), 2);
    assert_eq!(fields(&points), vec!["0", "0.538889", "0.25", "0.461111", "1", "1", "0.191176", "1"]);
}

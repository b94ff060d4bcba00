use aviutl2_track::parse::{parse_head, parse_tail, TrackInfo};
use aviutl2_track::TrackParseError;

fn info(has_params: bool, timecontrol: bool) -> Option<TrackInfo> {
    Some(TrackInfo { has_params, timecontrol })
}

fn read(s: &str, info: &Option<TrackInfo>) -> Result<(), TrackParseError> {
    let head = parse_head(s, info.is_some())?;
    parse_tail(&head, info)?;
    Ok(())
}

#[test]
fn empty_text_is_unknown() {
    assert_eq!(read("", &None), Err(TrackParseError::UnknownFormat));
    assert_eq!(read("", &info(false, false)), Err(TrackParseError::UnknownFormat));
}

#[test]
fn single_value_without_info() {
    let head = parse_head("1,2", false).unwrap();
    assert_eq!(head.values, vec!["1,2"]);
    assert!(head.sections.is_empty());
    let tail = parse_tail(&head, &None).unwrap();
    assert_eq!(tail.reference, None);
    assert!(tail.time_control_points.is_none());
}

#[test]
fn short_first_section_is_unknown() {
    assert_eq!(read("1,2", &info(false, false)), Err(TrackParseError::UnknownFormat));
    assert_eq!(read("1|x", &None), Err(TrackParseError::UnknownFormat));
}

#[test]
fn bad_flag_is_unknown() {
    assert_eq!(read("1,移動無し,x", &info(false, false)), Err(TrackParseError::UnknownFormat));
    assert_eq!(read("1,移動無し,-1", &info(false, false)), Err(TrackParseError::UnknownFormat));
    assert_eq!(read("1,移動無し,4294967296", &info(false, false)), Err(TrackParseError::UnknownFormat));
}

#[test]
fn no_movement_name() {
    let head = parse_head("1,2,移動無し,0", true).unwrap();
    assert_eq!(head.movement, None);
    assert_eq!(head.values, vec!["1", "2"]);
}

#[test]
fn movement_without_info_is_unknown() {
    assert_eq!(read("1,直線移動,0|", &None), Err(TrackParseError::UnknownFormat));
    assert_eq!(read("1,移動無し,0|", &None), Ok(()));
}

#[test]
fn missing_reference_is_unknown() {
    assert_eq!(read("1,直線移動,8", &info(false, false)), Err(TrackParseError::UnknownFormat));
    assert_eq!(read("1,直線移動,8|$x", &info(false, false)), Ok(()));
}

#[test]
fn missing_parameters_are_unknown() {
    assert_eq!(read("1,直線移動,0", &info(true, false)), Err(TrackParseError::UnknownFormat));
    assert_eq!(read("1,直線移動,8|$x", &info(true, false)), Err(TrackParseError::UnknownFormat));
    assert_eq!(read("1,直線移動,8|$x|1,2", &info(true, false)), Ok(()));
    assert_eq!(read("1,移動無し,0", &info(true, false)), Ok(()));
}

#[test]
fn time_control_needs_four_numbers_per_point() {
    assert_eq!(read("1,直線移動,0|1,2,3", &info(false, true)), Err(TrackParseError::UnknownFormat));
    assert_eq!(read("1,直線移動,0|1,2,3,4,5", &info(false, true)), Err(TrackParseError::UnknownFormat));
    let head = parse_head("1,直線移動,0|1,2,3,4,5,6,7,8", true).unwrap();
    let tail = parse_tail(&head, &info(false, true)).unwrap();
    assert_eq!(tail.time_control_points.map(|p| p.len()), Some(2));
}

#[test]
fn extra_sections_are_ignored() {
    let head = parse_head("1,直線移動,0|a|b", true).unwrap();
    let tail = parse_tail(&head, &info(false, false)).unwrap();
    assert_eq!(tail.reference, None);
    assert!(tail.time_control_points.is_none());
}

use sine_tone::control_line::parse_control_line;
use sine_tone::control_loop::{next_action, ControlAction, ReadOutcome};

#[test]
fn second_token_is_read() {
    assert_eq!(parse_control_line(b"x 68"), Some(68));
    assert_eq!(parse_control_line(b"x 68\n"), Some(68));
    assert_eq!(parse_control_line(b"x 80\r\n"), Some(80));
}

#[test]
fn tokens_split_on_any_whitespace() {
    assert_eq!(parse_control_line(b"  x\t80   extra\r\n"), Some(80));
    assert_eq!(parse_control_line(b"label 0 1 2"), Some(0));
}

#[test]
fn non_numbers_are_rejected() {
    assert_eq!(parse_control_line(b"x notanumber"), None);
    assert_eq!(parse_control_line(b"x 6a8"), None);
    assert_eq!(parse_control_line(b"x -1"), None);
    assert_eq!(parse_control_line(b"x +"), None);
}

#[test]
fn missing_second_token_is_rejected() {
    assert_eq!(parse_control_line(b""), None);
    assert_eq!(parse_control_line(b"\n"), None);
    assert_eq!(parse_control_line(b"68"), None);
    assert_eq!(parse_control_line(b"68 \n"), None);
}

#[test]
fn sixteen_bit_range() {
    assert_eq!(parse_control_line(b"x 65535"), Some(65535));
    assert_eq!(parse_control_line(b"x 65536"), None);
    assert_eq!(parse_control_line(b"x 99999999999999999999"), None);
    assert_eq!(parse_control_line(b"x 000012"), Some(12));
}

#[test]
fn plus_sign_is_accepted() {
    assert_eq!(parse_control_line(b"x +7"), Some(7));
}

#[test]
fn control_line_with_value_is_sent() {
    assert_eq!(next_action(ReadOutcome::Line(b"x 68\n")), ControlAction::Send(68));
    assert_eq!(next_action(ReadOutcome::Line(b"x 80\n")), ControlAction::Send(80));
}

#[test]
fn unparseable_line_is_skipped() {
    assert_eq!(next_action(ReadOutcome::Line(b"x notanumber\n")), ControlAction::Skip);
    assert_eq!(next_action(ReadOutcome::Line(b"\n")), ControlAction::Skip);
}

#[test]
fn timeout_is_skipped_and_end_stops() {
    assert_eq!(next_action(ReadOutcome::TimedOut), ControlAction::Skip);
    assert_eq!(next_action(ReadOutcome::Ended), ControlAction::Stop);
}

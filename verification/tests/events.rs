use wyclef_rs::clef::{parse, Level};
use wyclef_rs::log::EventLog;
use wyclef_rs::render::{map_level_to_color, render_message, LogColor};
use wyclef_rs::AppError;

#[test]
fn renders_template_with_substituted_rendering() {
    let line = b"{\"@t\":\"2023-01-01T00:00:00Z\",\"@mt\":\"Hello {Name}\",\"Name\":\"World\"}";
    let event = parse(line).unwrap();
    assert_eq!(event.level, Level::Information);
    assert_eq!(render_message(&event).as_slice(), b"Hello World".as_slice());
    assert_eq!(
        event.as_message().as_slice(),
        b"2023-01-01T00:00:00Z: [INFORMATION] Hello World".as_slice()
    );
}

#[test]
fn empty_template_and_message_fall_back_to_no_message() {
    let event = parse(b"{\"@t\":\"2023-01-01T00:00:00Z\"}").unwrap();
    assert!(event.template.is_empty());
    assert!(event.message.is_empty());
    assert_eq!(render_message(&event).as_slice(), b"No message".as_slice());
}

#[test]
fn explicitly_empty_template_and_message_fall_back_too() {
    let event = parse(b"{\"@mt\":\"\",\"@m\":\"\"}").unwrap();
    assert_eq!(render_message(&event).as_slice(), b"No message".as_slice());
}

#[test]
fn message_is_used_when_template_is_absent() {
    let event = parse(b"{\"@m\":\"already rendered\"}").unwrap();
    assert_eq!(
        render_message(&event).as_slice(),
        b"already rendered".as_slice()
    );
}

#[test]
fn unmatched_placeholders_stay_verbatim() {
    let event = parse(b"{\"@mt\":\"Hello {Name}\"}").unwrap();
    assert_eq!(render_message(&event).as_slice(), b"Hello {Name}".as_slice());
}

#[test]
fn reserved_keys_fill_fields_and_the_rest_become_renderings() {
    let line = b"{\"@t\":\"t\",\"@m\":\"m\",\"@mt\":\"mt\",\"@l\":\"Error\",\"@x\":\"boom\",\"@i\":\"42\",\"a\":1,\"b\":true}";
    let event = parse(line).unwrap();
    assert_eq!(event.timestamp.as_slice(), b"\"t\"".as_slice());
    assert_eq!(event.message.as_slice(), b"\"m\"".as_slice());
    assert_eq!(event.template.as_slice(), b"\"mt\"".as_slice());
    assert_eq!(event.level, Level::Error);
    assert_eq!(event.exception.as_slice(), b"\"boom\"".as_slice());
    assert_eq!(event.event_id.as_slice(), b"\"42\"".as_slice());
    assert_eq!(event.renderings.len(), 2);
    assert_eq!(event.renderings[0].key.as_slice(), b"a".as_slice());
    assert_eq!(event.renderings[0].value.as_slice(), b"1".as_slice());
    assert_eq!(event.renderings[1].key.as_slice(), b"b".as_slice());
    assert_eq!(event.renderings[1].value.as_slice(), b"true".as_slice());
}

#[test]
fn numeric_and_literal_values_substitute_in_canonical_form() {
    let event = parse(b"{\"@mt\":\"{n} and {f}\",\"n\":12.5,\"f\":null}").unwrap();
    assert_eq!(render_message(&event).as_slice(), b"12.5 and null".as_slice());
}

#[test]
fn renderings_apply_in_source_order_to_the_running_text() {
    let event = parse(b"{\"@mt\":\"{a}\",\"a\":\"{b}\",\"b\":\"X\"}").unwrap();
    assert_eq!(render_message(&event).as_slice(), b"X".as_slice());
}

#[test]
fn level_absent_defaults_to_information() {
    let event = parse(b"{}").unwrap();
    assert_eq!(event.level, Level::Information);
}

#[test]
fn nested_values_are_kept_as_their_textual_form() {
    let event = parse(b"{\"data\":{\"x\":[1,2]}}").unwrap();
    assert_eq!(event.renderings.len(), 1);
    assert_eq!(
        event.renderings[0].value.as_slice(),
        b"{\"x\":[1,2]}".as_slice()
    );
}

#[test]
fn lines_that_are_not_json_objects_are_malformed() {
    assert_eq!(parse(b"not json").unwrap_err(), AppError::MalformedEvent);
    assert_eq!(parse(b"[1,2]").unwrap_err(), AppError::MalformedEvent);
    assert_eq!(parse(b"\"text\"").unwrap_err(), AppError::MalformedEvent);
    assert_eq!(parse(b"{\"a\":}").unwrap_err(), AppError::MalformedEvent);
    assert_eq!(parse(b"{\"a\":1,}").unwrap_err(), AppError::MalformedEvent);
    assert_eq!(parse(b"{\"a\":1} x").unwrap_err(), AppError::MalformedEvent);
    assert_eq!(parse(b"{\"a\":01}").unwrap_err(), AppError::MalformedEvent);
}

#[test]
fn each_level_keeps_its_own_color() {
    let colors = [
        ("\"Verbose\"", LogColor::White),
        ("\"Debug\"", LogColor::Blue),
        ("\"Information\"", LogColor::Green),
        ("\"Warning\"", LogColor::Yellow),
        ("\"Error\"", LogColor::Red),
        ("\"Fatal\"", LogColor::Magenta),
    ];
    for (raw, want) in colors {
        let line = format!("{{\"@l\":{}}}", raw);
        let event = parse(line.as_bytes()).unwrap();
        assert_eq!(map_level_to_color(&event), want);
    }
}

#[test]
fn a_file_with_n_nonempty_lines_yields_n_events_in_order() {
    let content = b"{\"@m\":\"one\"}\n\n{\"@m\":\"two\"}\r\n{\"@m\":\"three\"}\n";
    let log = EventLog::from_text(content).unwrap();
    assert_eq!(log.events.len(), 3);
    assert_eq!(render_message(&log.events[0]).as_slice(), b"one".as_slice());
    assert_eq!(render_message(&log.events[1]).as_slice(), b"two".as_slice());
    assert_eq!(render_message(&log.events[2]).as_slice(), b"three".as_slice());
}

#[test]
fn display_lines_pair_each_event_with_its_level_color() {
    let content = b"{\"@t\":\"2023-01-01T00:00:00Z\",\"@m\":\"hi\",\"@l\":\"Warning\"}\n{\"@m\":\"bye\"}";
    let log = EventLog::from_text(content).unwrap();
    let lines = log.display_lines();
    assert_eq!(lines.len(), 2);
    assert_eq!(
        lines[0].0.as_slice(),
        b"2023-01-01T00:00:00Z: [WARNING] hi".as_slice()
    );
    assert_eq!(lines[0].1, LogColor::Yellow);
    assert_eq!(lines[1].0.as_slice(), b": [INFORMATION] bye".as_slice());
    assert_eq!(lines[1].1, LogColor::Green);
}

#[test]
fn an_empty_file_yields_an_empty_log() {
    let log = EventLog::from_text(b"").unwrap();
    assert_eq!(log.events.len(), 0);
}

#[test]
fn one_broken_line_fails_the_whole_load() {
    let content = b"{\"@m\":\"ok\"}\nbroken\n{\"@m\":\"fine\"}";
    assert_eq!(
        EventLog::from_text(content).unwrap_err(),
        AppError::MalformedEvent
    );
}

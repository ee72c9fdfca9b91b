use braid::agent_run::{event_text, format_duration, StreamEvent};

fn event(kind: Option<&str>) -> StreamEvent {
    StreamEvent {
        kind: kind.map(|k| k.to_string()),
        content_texts: None,
        delta_text: None,
        name: None,
        error_message: None,
    }
}

fn shown(e: &StreamEvent) -> String {
    let t = event_text(e);
    format!("{}{}", t.out, t.err)
}

#[test]
fn test_format_duration_minutes() {
    assert_eq!(format_duration(0), "1m");
    assert_eq!(format_duration(1), "1m");
    assert_eq!(format_duration(30), "30m");
    assert_eq!(format_duration(59), "59m");
}

#[test]
fn test_format_duration_hours() {
    assert_eq!(format_duration(60), "1h");
    assert_eq!(format_duration(90), "1h");
    assert_eq!(format_duration(120), "2h");
    assert_eq!(format_duration(60 * 23), "23h");
}

#[test]
fn test_format_duration_days() {
    assert_eq!(format_duration(60 * 24), "1d");
    assert_eq!(format_duration(60 * 48), "2d");
    assert_eq!(format_duration(60 * 24 * 7), "7d");
}

#[test]
fn test_format_event_assistant() {
    let mut e = event(Some("assistant"));
    e.content_texts = Some(vec![Some("hello world".to_string())]);
    assert_eq!(shown(&e), "hello world\n");
}

#[test]
fn test_format_event_assistant_multiple_texts() {
    let mut e = event(Some("assistant"));
    e.content_texts = Some(vec![Some("line one".to_string()), None, Some("line two".to_string())]);
    assert_eq!(shown(&e), "line one\nline two\n");
}

#[test]
fn test_format_event_content_block_delta() {
    let mut e = event(Some("content_block_delta"));
    e.delta_text = Some("streaming text".to_string());
    let t = event_text(&e);
    assert_eq!(t.out, "streaming text");
    assert!(t.flush);
}

#[test]
fn test_format_event_tool_use() {
    let mut e = event(Some("tool_use"));
    e.name = Some("Bash".to_string());
    assert_eq!(shown(&e), "[tool: Bash]\n");
}

#[test]
fn test_format_event_error() {
    let mut e = event(Some("error"));
    e.error_message = Some("something went wrong".to_string());
    let t = event_text(&e);
    assert_eq!(t.err, "error: something went wrong\n");
    assert_eq!(t.out, "");
}

#[test]
fn test_format_event_message_stop_silent() {
    assert_eq!(shown(&event(Some("message_stop"))), "");
}

#[test]
fn test_format_event_unknown_type() {
    assert_eq!(shown(&event(Some("custom_event"))), "[custom_event]\n");
    assert_eq!(shown(&event(None)), "[unknown]\n");
}

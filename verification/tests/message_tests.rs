use mbox_extractor::message_parser::{parse_message, split_messages};

fn fragment(id: &str, sender: &str, when: &str, content: &str) -> String {
    format!(
        "<div data-id=\"{}\"><div><span style=\"font-weight:700\">{}</span>{}</div><div style=\"white-space:pre-wrap;width:100%\">{}</div></div>",
        id, sender, when, content
    )
}

#[test]
fn round_trip_synthetic_fragment() {
    let frag = fragment("m1", "Alice", "January 5, 2024 at 9:15:00 AM GMT-8", "Hello");
    let m = parse_message(&frag).unwrap();
    assert_eq!(m.message_id, "m1");
    assert_eq!(m.sender, "Alice");
    assert_eq!(m.timestamp, "2024-01-05T09:15:00-08:00");
    assert_eq!(m.content, "Hello");
}

#[test]
fn missing_content_yields_no_message() {
    let frag = "<div data-id=\"m1\"><div><span style=\"font-weight:700\">Alice</span>t</div></div>";
    assert!(parse_message(frag).is_none());
}

#[test]
fn missing_id_yields_no_message() {
    let frag = "<div><span style=\"font-weight:700\">Alice</span>t</div><div style=\"white-space:pre-wrap;width:100%\">x</div>";
    assert!(parse_message(frag).is_none());
}

#[test]
fn missing_sender_yields_no_message() {
    let frag = "<div data-id=\"m1\"><div style=\"white-space:pre-wrap;width:100%\">x</div></div>";
    assert!(parse_message(frag).is_none());
}

#[test]
fn empty_id_is_skipped_for_a_later_one() {
    let frag = format!(
        "<div data-id=\"\">{}",
        fragment("m2", "Bob", "t", "hi")
    );
    let m = parse_message(&frag).unwrap();
    assert_eq!(m.message_id, "m2");
}

#[test]
fn absent_timestamp_becomes_placeholder() {
    let frag = "<div data-id=\"m1\"><span style=\"font-weight:700\">Alice</span><div style=\"white-space:pre-wrap;width:100%\">x</div>";
    let m = parse_message(frag).unwrap();
    assert_eq!(m.timestamp, "No timestamp");
}

#[test]
fn empty_timestamp_text_becomes_placeholder() {
    let frag = fragment("m1", "Alice", "", "x");
    let m = parse_message(&frag).unwrap();
    assert_eq!(m.timestamp, "No timestamp");
}

#[test]
fn reply_label_timestamp_becomes_placeholder() {
    let frag = fragment("m1", "Alice", " Reply ", "x");
    let m = parse_message(&frag).unwrap();
    assert_eq!(m.timestamp, "No timestamp");
}

#[test]
fn content_is_sanitized() {
    let frag = fragment("m1", "Alice", "t", "<b>a &amp; b</b>");
    let m = parse_message(&frag).unwrap();
    assert_eq!(m.content, "a & b");
}

#[test]
fn sender_is_trimmed() {
    let frag = fragment("m1", " Alice ", "t", "x");
    let m = parse_message(&frag).unwrap();
    assert_eq!(m.sender, "Alice");
}

#[test]
fn fragments_split_on_marker_and_keep_it() {
    let html = format!(
        "preamble{}{}",
        fragment("a", "A", "t", "1"),
        fragment("b", "B", "t", "2")
    );
    let frags = split_messages(&html);
    assert_eq!(frags.len(), 2);
    assert!(frags[0].content.starts_with("<div data-id=\"a\""));
    assert!(frags[1].content.starts_with("<div data-id=\"b\""));
}

#[test]
fn no_marker_yields_no_fragments() {
    assert!(split_messages("<p>nothing here</p>").is_empty());
    assert!(split_messages("").is_empty());
}

#[test]
fn failing_fragment_does_not_stop_siblings() {
    let html = format!(
        "{}<div data-id=\"bad\">no content block</div>{}",
        fragment("a", "A", "t", "1"),
        fragment("c", "C", "t", "3")
    );
    let frags = split_messages(&html);
    let messages: Vec<_> = frags
        .iter()
        .filter_map(|f| parse_message(&f.content))
        .collect();
    assert_eq!(messages.len(), 2);
    assert_eq!(messages[0].message_id, "a");
    assert_eq!(messages[1].message_id, "c");
}

#[test]
fn multiline_content_is_not_captured() {
    let frag = "<div data-id=\"m\"><span style=\"font-weight:700\">A</span><div style=\"white-space:pre-wrap;width:100%\">a\nb</div>";
    assert!(parse_message(frag).is_none());
}

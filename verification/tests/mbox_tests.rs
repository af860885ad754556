use mbox_extractor::mbox_parser::split_mbox_entries;
use mbox_extractor::transfer::decode_quoted_printable;

fn fragment(id: &str, sender: &str, when: &str, content: &str) -> String {
    format!(
        "<div data-id=\"{}\"><div><span style=\"font-weight:700\">{}</span>{}</div><div style=\"white-space:pre-wrap;width:100%\">{}</div></div>",
        id, sender, when, content
    )
}

#[test]
fn no_delimiter_yields_no_entries() {
    assert!(split_mbox_entries("just text, no records").is_empty());
    assert!(split_mbox_entries("").is_empty());
}

#[test]
fn preamble_is_discarded() {
    let entries = split_mbox_entries("this preamble is dropped\nFrom a\nX: y\n\nbody\n");
    assert_eq!(entries.len(), 1);
    assert_eq!(entries[0].headers, "a\nX: y");
}

#[test]
fn record_without_empty_line_is_all_headers() {
    let entries = split_mbox_entries("\nFrom a\nX: y\nZ: w\n");
    assert_eq!(entries.len(), 1);
    assert_eq!(entries[0].headers, "a\nX: y\nZ: w");
    assert_eq!(entries[0].html_body, "");
    assert!(entries[0].messages.is_empty());
    assert!(entries[0].attachments.is_empty());
}

#[test]
fn full_archive_round_trip() {
    let frag = fragment("m1", "Alice", "January 5, 2024 at 9:15:00 AM GMT-8", "Hello");
    let archive = format!(
        "preamble\nFrom 1@mailer\nSubject: chat\n\n--X\nContent-Type: text/html\n\n{}\n--X\nContent-Disposition: attachment; filename=\"f.bin\"\nContent-Type: application/octet-stream\nContent-Transfer-Encoding: base64\naGk=\n--X--\n",
        frag
    );
    let entries = split_mbox_entries(&archive);
    assert_eq!(entries.len(), 1);
    let e = &entries[0];
    assert_eq!(e.headers, "1@mailer\nSubject: chat");
    assert!(e.html_body.contains("<div data-id=\"m1\""));
    assert_eq!(e.attachments.len(), 1);
    assert_eq!(e.attachments[0].filename, "f.bin");
    assert_eq!(e.messages.len(), 1);
    let m = &e.messages[0];
    assert_eq!(m.message_id, "m1");
    assert_eq!(m.sender, "Alice");
    assert_eq!(m.timestamp, "2024-01-05T09:15:00-08:00");
    assert_eq!(m.content, "Hello");
}

#[test]
fn message_order_follows_fragment_order() {
    let html = format!(
        "{}{}{}",
        fragment("first", "A", "t", "1"),
        fragment("second", "B", "t", "2"),
        fragment("third", "C", "t", "3")
    );
    let archive = format!("\nFrom a\nH: v\n\n--X\nContent-Type: text/html\n\n{}\n", html);
    let entries = split_mbox_entries(&archive);
    assert_eq!(entries.len(), 1);
    let ids: Vec<&str> = entries[0].messages.iter().map(|m| m.message_id.as_str()).collect();
    assert_eq!(ids, vec!["first", "second", "third"]);
}

#[test]
fn failing_fragment_drops_only_itself() {
    let html = format!(
        "{}<div data-id=\"bad\">nothing required here</div>{}",
        fragment("a", "A", "t", "1"),
        fragment("c", "C", "t", "3")
    );
    let archive = format!("\nFrom a\nH: v\n\n--X\nContent-Type: text/html\n\n{}\n", html);
    let entries = split_mbox_entries(&archive);
    let ids: Vec<&str> = entries[0].messages.iter().map(|m| m.message_id.as_str()).collect();
    assert_eq!(ids, vec!["a", "c"]);
}

#[test]
fn two_entries_in_order() {
    let a1 = format!("\nFrom a\nH: 1\n\n--X\nContent-Type: text/html\n\n{}\n", fragment("e1", "A", "t", "x"));
    let a2 = format!("\nFrom b\nH: 2\n\n--X\nContent-Type: text/html\n\n{}\n", fragment("e2", "B", "t", "y"));
    let archive = format!("{}{}", a1, a2);
    let entries = split_mbox_entries(&archive);
    assert_eq!(entries.len(), 2);
    assert_eq!(entries[0].messages[0].message_id, "e1");
    assert_eq!(entries[1].messages[0].message_id, "e2");
}

#[test]
fn quoted_printable_escapes_are_decoded() {
    assert_eq!(decode_quoted_printable("hi=21").unwrap(), "hi!");
    assert_eq!(decode_quoted_printable("hi=3Dx").unwrap(), "hi=x");
}

#[test]
fn quoted_printable_utf8_sequences_become_characters() {
    assert_eq!(decode_quoted_printable("=E2=82=AC").unwrap(), "\u{20ac}");
}

#[test]
fn quoted_printable_is_lenient_and_lossy() {
    assert_eq!(decode_quoted_printable("a=ZZb").unwrap(), "a=ZZb");
    assert_eq!(decode_quoted_printable("=FF").unwrap(), "\u{fffd}");
}

#[test]
fn encoded_body_is_decoded_before_segmentation() {
    let archive = "\nFrom a\nH: v\n\n--X\nContent-Type: text/html\n\n<div data-id=3D\"m1\"><div><span style=3D\"font-weight:700\">A</span>t</div><div style=3D\"white-space:pre-wrap;width:100%\">ok</div></div>\n";
    let entries = split_mbox_entries(archive);
    assert_eq!(entries[0].messages.len(), 1);
    assert_eq!(entries[0].messages[0].message_id, "m1");
    assert_eq!(entries[0].messages[0].content, "ok");
}

#[test]
fn carriage_returns_are_stripped_from_lines() {
    let entries = split_mbox_entries("\r\nFrom a\r\nH: v\r\n\r\nbody\r\n");
    assert_eq!(entries.len(), 1);
    assert_eq!(entries[0].headers, "a\nH: v");
}

#[test]
fn headers_keep_inner_lines_in_order() {
    let entries = split_mbox_entries("\nFrom a\nFirst: 1\nSecond: 2\nThird: 3\n\n");
    assert_eq!(entries[0].headers, "a\nFirst: 1\nSecond: 2\nThird: 3");
}

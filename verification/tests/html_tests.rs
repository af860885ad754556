use mbox_extractor::html_parser::{extract_attachment, extract_html_and_attachments};

#[test]
fn attachment_with_all_fields() {
    let part = "X\nContent-Type: image/png\nContent-Disposition: attachment; filename=\"a.png\"\nContent-Transfer-Encoding: base64\n AAAA \nBBBB\n";
    let a = extract_attachment(part).unwrap();
    assert_eq!(a.content_type, "image/png");
    assert_eq!(a.filename, "a.png");
    assert_eq!(a.content, "AAAABBBB");
}

#[test]
fn attachment_with_empty_payload_is_dropped() {
    let part = "X\nContent-Type: image/png\nContent-Disposition: attachment; filename=\"a.png\"\nContent-Transfer-Encoding: base64\n";
    assert!(extract_attachment(part).is_none());
}

#[test]
fn attachment_without_filename_is_dropped() {
    let part = "X\nContent-Type: image/png\nContent-Transfer-Encoding: base64\nAAAA\n";
    assert!(extract_attachment(part).is_none());
}

#[test]
fn payload_lines_with_colons_are_skipped() {
    let part = "Content-Type: t\nContent-Disposition: attachment; filename=\"f\"\nContent-Transfer-Encoding: base64\nAAAA\nnot: payload\nBBBB\n";
    let a = extract_attachment(part).unwrap();
    assert_eq!(a.content, "AAAABBBB");
}

#[test]
fn last_html_segment_wins() {
    let body = "--A\nContent-Type: text/html\n\nfirst\n--B\nContent-Type: text/html\n\nsecond\n";
    let (html, attachments) = extract_html_and_attachments(body);
    assert!(html.contains("second"));
    assert!(!html.contains("first"));
    assert!(attachments.is_empty());
}

#[test]
fn html_and_attachments_are_both_found() {
    let body = "--X\nContent-Type: text/html\n\n<p>hi</p>\n--X\nContent-Disposition: attachment; filename=\"f.bin\"\nContent-Type: application/octet-stream\nContent-Transfer-Encoding: base64\naGk=\n--X--\n";
    let (html, attachments) = extract_html_and_attachments(body);
    assert!(html.contains("<p>hi</p>"));
    assert_eq!(attachments.len(), 1);
    assert_eq!(attachments[0].filename, "f.bin");
    assert_eq!(attachments[0].content_type, "application/octet-stream");
    assert_eq!(attachments[0].content, "aGk=");
}

#[test]
fn body_without_markers_yields_nothing() {
    let (html, attachments) = extract_html_and_attachments("just some text -- more text");
    assert_eq!(html, "");
    assert!(attachments.is_empty());
}

#[test]
fn later_content_type_line_overwrites() {
    let part = "Content-Type: first/kind\nContent-Type: second/kind\nContent-Disposition: attachment; filename=\"f\"\nContent-Transfer-Encoding: base64\nXX\n";
    let a = extract_attachment(part).unwrap();
    assert_eq!(a.content_type, "second/kind");
}

#[test]
fn filename_quotes_are_all_trimmed() {
    let part = "Content-Type: t\nContent-Disposition: attachment; filename=\"\"x\"\"\nContent-Transfer-Encoding: base64\nXX\n";
    let a = extract_attachment(part).unwrap();
    assert_eq!(a.filename, "x");
}

#[test]
fn segment_with_both_markers_is_html_only() {
    let body = "--X\nContent-Type: text/html\nContent-Disposition: attachment; filename=\"f\"\nContent-Transfer-Encoding: base64\nXX\n";
    let (html, attachments) = extract_html_and_attachments(body);
    assert!(html.contains("text/html"));
    assert!(attachments.is_empty());
}

use mbox_extractor::models::{Attachment, Message};
use mbox_extractor::output::{csv_row, decoded_attachment, numbered_filename};

fn message(id: &str, sender: &str, ts: &str, content: &str) -> Message {
    Message {
        message_id: id.to_string(),
        sender: sender.to_string(),
        timestamp: ts.to_string(),
        content: content.to_string(),
    }
}

#[test]
fn csv_row_quotes_fields() {
    let m = message("m1", "Alice", "2024-01-05T09:15:00-08:00", "Hello");
    assert_eq!(csv_row(&m), "\"m1\",\"Alice\",\"2024-01-05T09:15:00-08:00\",\"Hello\"");
}

#[test]
fn csv_row_doubles_quotes_in_content() {
    let m = message("m", "s", "t", "say \"hi\" now");
    assert_eq!(csv_row(&m), "\"m\",\"s\",\"t\",\"say \"\"hi\"\" now\"");
}

#[test]
fn csv_row_doubles_quotes_in_every_field() {
    let m = message("m", "\"Al\" Ice", "\"yesterday\"", "x");
    assert_eq!(
        csv_row(&m),
        "\"m\",\"\"\"Al\"\" Ice\",\"\"\"yesterday\"\"\",\"x\""
    );
}

#[test]
fn numbered_filenames_count_up() {
    assert_eq!(numbered_filename(1, "a.png"), "1_a.png");
    assert_eq!(numbered_filename(42, "report.pdf"), "42_report.pdf");
    assert_eq!(numbered_filename(100, "x"), "100_x");
}

#[test]
fn attachment_payload_is_base64_decoded() {
    let a = Attachment {
        content_type: "application/octet-stream".to_string(),
        filename: "f.bin".to_string(),
        content: "aGk=".to_string(),
    };
    assert_eq!(decoded_attachment(&a).unwrap(), b"hi");
}

#[test]
fn invalid_base64_payload_decodes_to_nothing() {
    let a = Attachment {
        content_type: "t".to_string(),
        filename: "f".to_string(),
        content: "!!!not base64!!!".to_string(),
    };
    assert!(decoded_attachment(&a).is_none());
}

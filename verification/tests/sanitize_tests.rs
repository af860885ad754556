use mbox_extractor::sanitize::{clean_message_content, strip_html_tags, strip_reply_and_trim};

#[test]
fn strips_tags_and_trims() {
    assert_eq!(clean_message_content("<b>hi</b>"), "hi");
    assert_eq!(clean_message_content("  <i>a</i> b  "), "a b");
}

#[test]
fn decodes_character_entities() {
    assert_eq!(clean_message_content("a &amp; b"), "a & b");
    assert_eq!(clean_message_content("&lt;kept&gt;"), "<kept>");
}

#[test]
fn strips_leading_reply_label() {
    assert_eq!(clean_message_content("3 Reply hi"), "hi");
    assert_eq!(clean_message_content("<b></b> 12 Reply hello"), "hello");
    assert_eq!(strip_reply_and_trim(" 3 Reply hi"), "hi");
}

#[test]
fn trailing_reply_label_is_stripped() {
    assert_eq!(clean_message_content("<b>hi</b> 3 Reply"), "hi");
    assert_eq!(strip_reply_and_trim("hi 3 Reply"), "hi");
}

#[test]
fn reply_label_in_the_middle_is_stripped() {
    assert_eq!(strip_reply_and_trim("a 1 Reply b"), "ab");
}

#[test]
fn only_the_first_reply_label_is_stripped() {
    assert_eq!(strip_reply_and_trim("1 Reply 2 Reply x"), "2 Reply x");
}

#[test]
fn reply_needs_digits_and_word() {
    assert_eq!(strip_reply_and_trim("Reply hi"), "Reply hi");
    assert_eq!(strip_reply_and_trim("3Reply hi"), "3Reply hi");
}

#[test]
fn unterminated_or_empty_tags_stay() {
    assert_eq!(strip_html_tags("a <b unclosed"), "a <b unclosed");
    assert_eq!(strip_html_tags("a <> b"), "a <> b");
    assert_eq!(strip_html_tags("a <b>c<i>d"), "a cd");
}

#[test]
fn plain_text_only_trimmed() {
    assert_eq!(clean_message_content("  hello world  "), "hello world");
}

//! The records the pipeline produces: entries, attachments and messages.
//!
//! Each executable record has a ghost model over `Seq<char>` as its view;
//! the pipeline's contracts are stated over these models.

use vstd::prelude::*;

verus! {

/// A file attachment found in an entry's body: MIME type, declared filename,
/// and the payload in its transfer encoding.
#[derive(Debug)]
pub struct Attachment {
    pub content_type: String,
    pub filename: String,
    pub content: String,
}

pub ghost struct AttachmentModel {
    pub content_type: Seq<char>,
    pub filename: Seq<char>,
    pub content: Seq<char>,
}

impl View for Attachment {
    type V = AttachmentModel;

    open spec fn view(&self) -> AttachmentModel {
        AttachmentModel {
            content_type: self.content_type@,
            filename: self.filename@,
            content: self.content@,
        }
    }
}

/// An attachment is only ever constructed with all three fields non-empty.
pub open spec fn attachment_wf(a: AttachmentModel) -> bool {
    a.content_type.len() > 0 && a.filename.len() > 0 && a.content.len() > 0
}

/// The raw, unparsed text span of one message within a decoded HTML body.
#[derive(Debug)]
pub struct RawMessage {
    pub content: String,
}

impl View for RawMessage {
    type V = Seq<char>;

    open spec fn view(&self) -> Seq<char> {
        self.content@
    }
}

/// A parsed message: identifier, sender display name, timestamp (canonical
/// when recognized, raw otherwise), and sanitized plain-text content.
#[derive(Debug, Clone)]
pub struct Message {
    pub message_id: String,
    pub sender: String,
    pub timestamp: String,
    pub content: String,
}

pub ghost struct MessageModel {
    pub message_id: Seq<char>,
    pub sender: Seq<char>,
    pub timestamp: Seq<char>,
    pub content: Seq<char>,
}

impl View for Message {
    type V = MessageModel;

    open spec fn view(&self) -> MessageModel {
        MessageModel {
            message_id: self.message_id@,
            sender: self.sender@,
            timestamp: self.timestamp@,
            content: self.content@,
        }
    }
}

/// One record of the archive: its header block, decoded HTML body, and the
/// attachments and messages extracted from the body, in document order.
#[derive(Debug)]
pub struct MboxEntry {
    pub headers: String,
    pub html_body: String,
    pub attachments: Vec<Attachment>,
    pub messages: Vec<Message>,
}

pub ghost struct EntryModel {
    pub headers: Seq<char>,
    pub html_body: Seq<char>,
    pub attachments: Seq<AttachmentModel>,
    pub messages: Seq<MessageModel>,
}

impl View for MboxEntry {
    type V = EntryModel;

    open spec fn view(&self) -> EntryModel {
        EntryModel {
            headers: self.headers@,
            html_body: self.html_body@,
            attachments: self.attachments@.map_values(|a: Attachment| a@),
            messages: self.messages@.map_values(|m: Message| m@),
        }
    }
}

} // verus!

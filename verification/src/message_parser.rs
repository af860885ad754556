//! Message segmentation and field extraction: split decoded HTML into
//! per-message fragments on the structural marker, then read the message id,
//! sender, raw timestamp and raw content out of each fragment against fixed
//! templates. A fragment missing a required field yields no message.

use vstd::prelude::*;
use crate::models::{RawMessage, Message, MessageModel};
use crate::text::{
    spec_find_from, lemma_find_from, has_char_between, spec_split, spec_trim, views_of, split_by,
    chars_of, find_from, subvec, push_all, trim_chars, char_between, seq_eq,
};
use crate::text::lemma_split_len;
use crate::outside::string_of;
use crate::sanitize::{sanitized_of, clean_message_content};
use crate::timestamp::{normalized_of, parse_and_format_timestamp};

verus! {

// ---------------------------------------------------------------------------
// Captures
// ---------------------------------------------------------------------------

/// The first place where `open_pat` is followed by a capture closed by
/// `close`, scanning occurrences of `open_pat` from `from` on: the capture
/// runs from the end of `open_pat` to the first following occurrence of
/// `close`. An occurrence is skipped, and the scan resumes after its first
/// character, when the capture would hold a line feed (`forbid_nl`) or be
/// empty (`nonempty`); it fails altogether when no `close` follows.
pub open spec fn capture_from(
    s: Seq<char>,
    open_pat: Seq<char>,
    close: Seq<char>,
    forbid_nl: bool,
    nonempty: bool,
    from: int,
) -> Option<(int, int)>
    decreases s.len() - from,
    when 0 <= from && open_pat.len() > 0
    via capture_from_decreases
{
    match spec_find_from(s, open_pat, from) {
        None => None,
        Some(i) => {
            let start = i + open_pat.len();
            match spec_find_from(s, close, start) {
                None => None,
                Some(j) => {
                    if (forbid_nl && has_char_between(s, '\n', start, j)) || (nonempty && j
                        == start) {
                        capture_from(s, open_pat, close, forbid_nl, nonempty, i + 1)
                    } else {
                        Some((start, j))
                    }
                },
            }
        },
    }
}

#[via_fn]
proof fn capture_from_decreases(
    s: Seq<char>,
    open_pat: Seq<char>,
    close: Seq<char>,
    forbid_nl: bool,
    nonempty: bool,
    from: int,
) {
    lemma_find_from(s, open_pat, from);
}

/// Find the first capture between `open_pat` and `close` at or after `from`.
fn capture_between(
    s: &Vec<char>,
    open_pat: &Vec<char>,
    close: &Vec<char>,
    forbid_nl: bool,
    nonempty: bool,
    from: usize,
) -> (r: Option<(usize, usize)>)
    requires
        from <= s@.len(),
        open_pat@.len() > 0,
    ensures
        match r {
            Some(p) => capture_from(s@, open_pat@, close@, forbid_nl, nonempty, from as int)
                == Some((p.0 as int, p.1 as int)) && p.0 <= p.1 && p.1 + close@.len() <= s@.len(),
            None => capture_from(s@, open_pat@, close@, forbid_nl, nonempty, from as int) is None,
        },
{
    let slen: usize = s.len();
    let mut pos: usize = from;
    loop
        invariant
            from <= pos <= slen,
            slen == s@.len(),
            open_pat@.len() > 0,
            capture_from(s@, open_pat@, close@, forbid_nl, nonempty, from as int) == capture_from(
                s@,
                open_pat@,
                close@,
                forbid_nl,
                nonempty,
                pos as int,
            ),
        decreases slen - pos + 1,
    {
        match find_from(s, open_pat, pos) {
            None => {
                return None;
            },
            Some(i) => {
                proof {
                    lemma_find_from(s@, open_pat@, pos as int);
                }
                let start = i + open_pat.len();
                match find_from(s, close, start) {
                    None => {
                        return None;
                    },
                    Some(j) => {
                        proof {
                            lemma_find_from(s@, close@, start as int);
                        }
                        let bad = (forbid_nl && char_between(s, '\n', start, j)) || (nonempty && j
                            == start);
                        if !bad {
                            return Some((start, j));
                        }
                        pos = i + 1;
                    },
                }
            },
        }
    }
}

// ---------------------------------------------------------------------------
// Segmentation
// ---------------------------------------------------------------------------

/// The per-message fragments of decoded HTML: the pieces after each
/// occurrence of the structural marker, each with the marker re-prepended;
/// what precedes the first occurrence carries no message and is dropped.
pub open spec fn fragments_of(html: Seq<char>) -> Seq<Seq<char>> {
    spec_split(html, "<div data-id=\""@).skip(1).map_values(
        |p: Seq<char>| "<div data-id=\""@ + p,
    )
}

/// Split decoded HTML into per-message fragments on the structural marker.
pub fn split_messages(html: &str) -> (r: Vec<RawMessage>)
    ensures
        r@.map_values(|m: RawMessage| m@) == fragments_of(html@),
{
    let htmlv = chars_of(html);
    let marker = chars_of("<div data-id=\"");
    proof {
        reveal_strlit("<div data-id=\"");
    }
    let parts = split_by(&htmlv, &marker);
    let ghost pviews = views_of(parts@);
    let ghost frags = fragments_of(html@);
    proof {
        lemma_split_len(html@, "<div data-id=\""@);
        assert(frags =~= pviews.skip(1).map_values(|p: Seq<char>| "<div data-id=\""@ + p));
    }
    let n: usize = parts.len();
    let mut r: Vec<RawMessage> = Vec::new();
    let mut idx: usize = 1;
    proof {
        assert(r@.map_values(|m: RawMessage| m@) =~= frags.subrange(0, 0));
    }
    while idx < n
        invariant
            1 <= idx <= n || (n == 0 && idx == 1),
            n == parts@.len(),
            pviews == views_of(parts@),
            n >= 1,
            marker@ == "<div data-id=\""@,
            frags == fragments_of(html@),
            frags == pviews.skip(1).map_values(|p: Seq<char>| "<div data-id=\""@ + p),
            r@.map_values(|m: RawMessage| m@) =~= frags.subrange(0, idx - 1),
        decreases n - idx,
    {
        let mut content: Vec<char> = Vec::new();
        push_all(&mut content, &marker);
        push_all(&mut content, &parts[idx]);
        let ghost r0 = r@;
        r.push(RawMessage { content: string_of(&content) });
        proof {
            assert(frags[idx - 1] == "<div data-id=\""@ + pviews.skip(1)[idx - 1]);
            assert(pviews.skip(1)[idx - 1] == pviews[idx as int]);
            assert(r@.map_values(|m: RawMessage| m@) =~= r0.map_values(|m: RawMessage| m@).push(
                r@.last()@,
            ));
            assert(r@.map_values(|m: RawMessage| m@) =~= frags.subrange(0, idx as int));
        }
        idx = idx + 1;
    }
    proof {
        if n == 0 {
            assert(false);
        }
        assert(frags.subrange(0, n - 1) =~= frags);
    }
    r
}

// ---------------------------------------------------------------------------
// Field extraction
// ---------------------------------------------------------------------------

/// The capture bounds of the message id: the value of the marker's
/// identifying attribute, at least one character, up to the closing quote.
pub open spec fn id_capture(frag: Seq<char>) -> Option<(int, int)> {
    capture_from(frag, "<div data-id=\""@, "\""@, false, true, 0)
}

/// The capture bounds of the sender: the inside of the first bold-styled
/// inline span, on one line.
pub open spec fn sender_capture(frag: Seq<char>) -> Option<(int, int)> {
    capture_from(frag, "<span style=\"font-weight:700\">"@, "</span>"@, true, false, 0)
}

/// The capture bounds of the raw timestamp: the text after the bold span
/// inside its enclosing block, up to the block's close.
pub open spec fn ts_capture(frag: Seq<char>) -> Option<(int, int)> {
    match capture_from(frag, "<div><span style=\"font-weight:700\">"@, "</span>"@, false, false, 0) {
        None => None,
        Some(p) => {
            let start = p.1 + "</span>"@.len();
            match spec_find_from(frag, "</div>"@, start) {
                None => None,
                Some(k) => Some((start, k)),
            }
        },
    }
}

/// The capture bounds of the raw content: the inside of the
/// preformatted fixed-width div, on one line.
pub open spec fn content_capture(frag: Seq<char>) -> Option<(int, int)> {
    capture_from(frag, "white-space:pre-wrap;width:100%\">"@, "</div>"@, true, false, 0)
}

/// The raw timestamp text of a fragment: the trimmed timestamp capture, or
/// the placeholder when the capture is absent, empty, or only the reply
/// affordance label.
pub open spec fn raw_timestamp_of(frag: Seq<char>) -> Seq<char> {
    match ts_capture(frag) {
        None => "No timestamp"@,
        Some(p) => {
            let t = spec_trim(frag.subrange(p.0, p.1));
            if t.len() == 0 || t == "Reply"@ {
                "No timestamp"@
            } else {
                t
            }
        },
    }
}

/// The message a fragment yields: nothing when the id, sender or content
/// pattern fails; otherwise the id text, the trimmed sender, the normalized
/// timestamp, and the sanitized content.
pub open spec fn message_of(frag: Seq<char>) -> Option<MessageModel> {
    if id_capture(frag) is None || sender_capture(frag) is None || content_capture(frag) is None {
        None
    } else {
        let idp = id_capture(frag)->Some_0;
        let sp = sender_capture(frag)->Some_0;
        let cp = content_capture(frag)->Some_0;
        Some(
            (MessageModel {
                message_id: frag.subrange(idp.0, idp.1),
                sender: spec_trim(frag.subrange(sp.0, sp.1)),
                timestamp: normalized_of(raw_timestamp_of(frag)),
                content: sanitized_of(spec_trim(frag.subrange(cp.0, cp.1))),
            }),
        )
    }
}

/// Extract a message from one fragment: the id, sender and content patterns
/// are required, and the fragment yields nothing when any of them fails; the
/// timestamp is normalized and the content sanitized.
pub fn parse_message(raw_content: &str) -> (r: Option<Message>)
    ensures
        match r {
            Some(m) => message_of(raw_content@) == Some(m@),
            None => message_of(raw_content@) is None,
        },
{
    let frag = chars_of(raw_content);
    let id_open = chars_of("<div data-id=\"");
    let quote = chars_of("\"");
    proof {
        reveal_strlit("<div data-id=\"");
    }
    let idp = match capture_between(&frag, &id_open, &quote, false, true, 0) {
        None => {
            return None;
        },
        Some(p) => p,
    };
    let sender_open = chars_of("<span style=\"font-weight:700\">");
    let span_close = chars_of("</span>");
    proof {
        reveal_strlit("<span style=\"font-weight:700\">");
    }
    let sp = match capture_between(&frag, &sender_open, &span_close, true, false, 0) {
        None => {
            return None;
        },
        Some(p) => p,
    };
    let content_open = chars_of("white-space:pre-wrap;width:100%\">");
    let div_close = chars_of("</div>");
    proof {
        reveal_strlit("white-space:pre-wrap;width:100%\">");
    }
    let cp = match capture_between(&frag, &content_open, &div_close, true, false, 0) {
        None => {
            return None;
        },
        Some(p) => p,
    };
    let ts_open = chars_of("<div><span style=\"font-weight:700\">");
    proof {
        reveal_strlit("<div><span style=\"font-weight:700\">");
    }
    let no_ts = chars_of("No timestamp");
    let reply = chars_of("Reply");
    let raw_ts: Vec<char> = match capture_between(&frag, &ts_open, &span_close, false, false, 0) {
        None => no_ts,
        Some(p) => {
            let start = p.1 + span_close.len();
            match find_from(&frag, &div_close, start) {
                None => no_ts,
                Some(k) => {
                    proof {
                        lemma_find_from(frag@, div_close@, start as int);
                    }
                    let piece = subvec(&frag, start, k);
                    let t = trim_chars(&piece);
                    if t.len() == 0 || seq_eq(&t, &reply) {
                        no_ts
                    } else {
                        t
                    }
                },
            }
        },
    };
    proof {
        assert(raw_ts@ == raw_timestamp_of(frag@));
    }
    let ts_string = string_of(&raw_ts);
    let timestamp = parse_and_format_timestamp(ts_string.as_str());
    let id_piece = subvec(&frag, idp.0, idp.1);
    let sender_piece = subvec(&frag, sp.0, sp.1);
    let sender_trimmed = trim_chars(&sender_piece);
    let content_piece = subvec(&frag, cp.0, cp.1);
    let content_trimmed = trim_chars(&content_piece);
    let content_string = string_of(&content_trimmed);
    let content = clean_message_content(content_string.as_str());
    let m = Message {
        message_id: string_of(&id_piece),
        sender: string_of(&sender_trimmed),
        timestamp,
        content,
    };
    proof {
        assert(message_of(frag@) == Some(m@));
    }
    Some(m)
}

} // verus!

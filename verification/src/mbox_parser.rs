//! Entry splitting and assembly: divide the archive text on the record
//! delimiter, scan each record's lines into a header block and a body, and
//! run the body through extraction, transfer decoding, segmentation and
//! field extraction, collecting everything in document order.

use vstd::prelude::*;
use crate::models::{MboxEntry, Message, MessageModel, EntryModel, RawMessage};
use crate::text::{
    spec_split, spec_lines, spec_trim_end, views_of, split_by, split_lines, chars_of,
    trim_end_chars, push_all, lemma_split_len,
};
use crate::outside::string_of;
use crate::transfer::transfer_decoded;
use crate::outside::{qp_decode, utf8_lossy};
use crate::html_parser::{html_of_body, attachments_of_body, extract_html_and_attachments};
use crate::message_parser::{fragments_of, message_of, split_messages, parse_message};

verus! {

// ---------------------------------------------------------------------------
// The header/body scan
// ---------------------------------------------------------------------------

/// The header block of a record: its lines before the first empty line, each
/// terminated by a newline.
pub open spec fn headers_of(lines: Seq<Seq<char>>) -> Seq<char>
    decreases lines.len(),
{
    if lines.len() == 0 {
        Seq::empty()
    } else if lines.first().len() == 0 {
        Seq::empty()
    } else {
        lines.first() + seq!['\n'] + headers_of(lines.drop_first())
    }
}

/// The given lines, each terminated by a newline.
pub open spec fn concat_lines(lines: Seq<Seq<char>>) -> Seq<char>
    decreases lines.len(),
{
    if lines.len() == 0 {
        Seq::empty()
    } else {
        lines.first() + seq!['\n'] + concat_lines(lines.drop_first())
    }
}

/// The body of a record: every line after the first empty line, each
/// terminated by a newline; empty when no empty line occurs.
pub open spec fn body_of(lines: Seq<Seq<char>>) -> Seq<char>
    decreases lines.len(),
{
    if lines.len() == 0 {
        Seq::empty()
    } else if lines.first().len() == 0 {
        concat_lines(lines.drop_first())
    } else {
        body_of(lines.drop_first())
    }
}

// ---------------------------------------------------------------------------
// Entry assembly
// ---------------------------------------------------------------------------

/// The messages the fragments yield, in fragment order; fragments that yield
/// none are passed over.
pub open spec fn msgs_of_fragments(frags: Seq<Seq<char>>) -> Seq<MessageModel>
    decreases frags.len(),
{
    if frags.len() == 0 {
        Seq::empty()
    } else {
        let rest = msgs_of_fragments(frags.drop_last());
        match message_of(frags.last()) {
            Some(m) => rest.push(m),
            None => rest,
        }
    }
}

/// The entry one record text yields: the trimmed header block, the decoded
/// HTML fragment of its body, the attachments of its body, and the messages
/// of the decoded HTML's fragments, in order.
pub open spec fn entry_model_of(part: Seq<char>) -> EntryModel {
    let lines = spec_lines(part);
    let body = body_of(lines);
    let decoded = transfer_decoded(html_of_body(body));
    EntryModel {
        headers: spec_trim_end(headers_of(lines)),
        html_body: decoded,
        attachments: attachments_of_body(body),
        messages: msgs_of_fragments(fragments_of(decoded)),
    }
}

/// The entries of an archive: one per piece after each occurrence of the
/// record delimiter; the preamble before the first occurrence is discarded.
pub open spec fn entries_of(content: Seq<char>) -> Seq<EntryModel> {
    spec_split(content, "\nFrom "@).skip(1).map_values(|p: Seq<char>| entry_model_of(p))
}

/// Scan one record's lines into its header block and body: lines accumulate
/// as headers until the first empty line, and as body after it.
fn scan_record(part: &Vec<char>) -> (r: (Vec<char>, Vec<char>))
    ensures
        r.0@ == headers_of(spec_lines(part@)),
        r.1@ == body_of(spec_lines(part@)),
{
    let lines = split_lines(part);
    let ghost lviews = views_of(lines@);
    let n: usize = lines.len();
    let mut headers: Vec<char> = Vec::new();
    let mut body: Vec<char> = Vec::new();
    let mut in_headers: bool = true;
    let mut idx: usize = 0;
    proof {
        assert(lviews.subrange(0, lviews.len() as int) =~= lviews);
    }
    while idx < n
        invariant
            0 <= idx <= n,
            n == lines@.len(),
            lviews == views_of(lines@),
            lviews == spec_lines(part@),
            in_headers ==> body@.len() == 0 && headers_of(lviews) == headers@ + headers_of(
                lviews.subrange(idx as int, lviews.len() as int),
            ) && body_of(lviews) == body_of(lviews.subrange(idx as int, lviews.len() as int)),
            !in_headers ==> headers@ == headers_of(lviews) && body_of(lviews) == body@
                + concat_lines(lviews.subrange(idx as int, lviews.len() as int)),
        decreases n - idx,
    {
        let line = &lines[idx];
        let ghost rem = lviews.subrange(idx as int, lviews.len() as int);
        proof {
            assert(rem.first() == lviews[idx as int]);
            assert(lviews[idx as int] == line@);
            assert(rem.drop_first() =~= lviews.subrange(idx + 1, lviews.len() as int));
        }
        if in_headers {
            if line.len() == 0 {
                in_headers = false;
                proof {
                    assert(headers_of(rem) =~= Seq::<char>::empty());
                    assert(headers@ + headers_of(rem) =~= headers@);
                    assert(body_of(rem) == concat_lines(rem.drop_first()));
                    assert(body@ + concat_lines(rem.drop_first()) =~= concat_lines(
                        rem.drop_first(),
                    ));
                }
            } else {
                let ghost h0 = headers@;
                push_all(&mut headers, line);
                headers.push('\n');
                proof {
                    assert(headers@ =~= h0 + line@ + seq!['\n']);
                    assert(headers_of(rem) == rem.first() + seq!['\n'] + headers_of(
                        rem.drop_first(),
                    ));
                    assert(h0 + headers_of(rem) =~= headers@ + headers_of(rem.drop_first()));
                    assert(body_of(rem) == body_of(rem.drop_first()));
                }
            }
        } else {
            let ghost b0 = body@;
            push_all(&mut body, line);
            body.push('\n');
            proof {
                assert(body@ =~= b0 + line@ + seq!['\n']);
                assert(concat_lines(rem) == rem.first() + seq!['\n'] + concat_lines(
                    rem.drop_first(),
                ));
                assert(b0 + concat_lines(rem) =~= body@ + concat_lines(rem.drop_first()));
            }
        }
        idx = idx + 1;
    }
    proof {
        let rem = lviews.subrange(n as int, lviews.len() as int);
        assert(rem.len() == 0);
        if in_headers {
            assert(headers_of(rem) =~= Seq::<char>::empty());
            assert(headers@ + headers_of(rem) =~= headers@);
            assert(body_of(rem) =~= Seq::<char>::empty());
            assert(body@ =~= Seq::<char>::empty());
        } else {
            assert(concat_lines(rem) =~= Seq::<char>::empty());
            assert(body@ + concat_lines(rem) =~= body@);
        }
    }
    (headers, body)
}

/// Assemble one entry from one record text.
fn build_entry(part: &Vec<char>) -> (e: MboxEntry)
    ensures
        e@ == entry_model_of(part@),
{
    let (headers, body) = scan_record(part);
    let headers_trimmed = trim_end_chars(&headers);
    let body_string = string_of(&body);
    let (html_raw, attachments) = extract_html_and_attachments(body_string.as_str());
    let decoded_bytes = qp_decode(html_raw.as_str());
    let decoded = utf8_lossy(&decoded_bytes);
    let raw_messages = split_messages(decoded.as_str());
    let ghost frags = fragments_of(decoded@);
    let n: usize = raw_messages.len();
    let mut messages: Vec<Message> = Vec::new();
    let mut idx: usize = 0;
    proof {
        assert(raw_messages@.map_values(|m: RawMessage| m@) == frags);
        assert(frags.subrange(0, 0) =~= Seq::<Seq<char>>::empty());
        assert(messages@.map_values(|m: Message| m@) =~= msgs_of_fragments(frags.subrange(0, 0)));
    }
    while idx < n
        invariant
            0 <= idx <= n,
            n == raw_messages@.len(),
            raw_messages@.map_values(|m: RawMessage| m@) == frags,
            messages@.map_values(|m: Message| m@) =~= msgs_of_fragments(
                frags.subrange(0, idx as int),
            ),
        decreases n - idx,
    {
        proof {
            assert(frags.subrange(0, idx + 1).drop_last() =~= frags.subrange(0, idx as int));
            assert(frags.subrange(0, idx + 1).last() == frags[idx as int]);
            assert(frags[idx as int] == raw_messages@[idx as int]@);
        }
        match parse_message(raw_messages[idx].content.as_str()) {
            Some(m) => {
                let ghost m0 = messages@;
                messages.push(m);
                proof {
                    assert(messages@.map_values(|x: Message| x@) =~= m0.map_values(
                        |x: Message| x@,
                    ).push(messages@.last()@));
                }
            },
            None => {},
        }
        idx = idx + 1;
    }
    proof {
        assert(frags.subrange(0, n as int) =~= frags);
    }
    MboxEntry {
        headers: string_of(&headers_trimmed),
        html_body: decoded,
        attachments,
        messages,
    }
}

/// Divide the archive text into entries on the record delimiter. The
/// preamble before the first delimiter is discarded, even when non-empty;
/// an archive in which the delimiter does not occur yields no entries.
pub fn split_mbox_entries(content: &str) -> (r: Vec<MboxEntry>)
    ensures
        r@.map_values(|e: MboxEntry| e@) == entries_of(content@),
{
    let contentv = chars_of(content);
    let delim = chars_of("\nFrom ");
    proof {
        reveal_strlit("\nFrom ");
    }
    let parts = split_by(&contentv, &delim);
    let ghost pviews = views_of(parts@);
    let ghost entries = entries_of(content@);
    proof {
        lemma_split_len(content@, "\nFrom "@);
        assert(entries =~= pviews.skip(1).map_values(|p: Seq<char>| entry_model_of(p)));
    }
    let n: usize = parts.len();
    let mut r: Vec<MboxEntry> = Vec::new();
    let mut idx: usize = 1;
    proof {
        assert(r@.map_values(|e: MboxEntry| e@) =~= entries.subrange(0, 0));
    }
    while idx < n
        invariant
            1 <= idx <= n || (n == 0 && idx == 1),
            n >= 1,
            n == parts@.len(),
            pviews == views_of(parts@),
            entries == entries_of(content@),
            entries == pviews.skip(1).map_values(|p: Seq<char>| entry_model_of(p)),
            r@.map_values(|e: MboxEntry| e@) =~= entries.subrange(0, idx - 1),
        decreases n - idx,
    {
        let e = build_entry(&parts[idx]);
        let ghost r0 = r@;
        r.push(e);
        proof {
            assert(entries[idx - 1] == entry_model_of(pviews.skip(1)[idx - 1]));
            assert(pviews.skip(1)[idx - 1] == pviews[idx as int]);
            assert(r@.map_values(|x: MboxEntry| x@) =~= r0.map_values(|x: MboxEntry| x@).push(
                r@.last()@,
            ));
            assert(r@.map_values(|x: MboxEntry| x@) =~= entries.subrange(0, idx as int));
        }
        idx = idx + 1;
    }
    proof {
        assert(entries.subrange(0, n - 1) =~= entries);
    }
    r
}

} // verus!

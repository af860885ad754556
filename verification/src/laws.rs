//! Laws of the pipeline, proved once and for all inputs: message order
//! follows fragment order, unrecognized timestamps pass through unchanged,
//! a fragment without the content pattern yields no message and leaves its
//! siblings alone, an archive without the delimiter yields no entries, and
//! an attachment without a payload is not produced.

use vstd::prelude::*;
use crate::models::EntryModel;
use crate::text::{contains_seq, lemma_split_whole, spec_lines};
use crate::timestamp::{nbsp_clean, ts_find_from, normalized_of};
use crate::outside::month_day_year;
use crate::message_parser::{message_of, content_capture, fragments_of};
use crate::mbox_parser::{msgs_of_fragments, entries_of};
use crate::html_parser::{scan_lines, init_scan, attachment_of};

verus! {

/// Message order equals fragment order: the messages of a fragment sequence
/// come from distinct fragments at strictly increasing positions, the k-th
/// message from the fragment at the k-th position. The returned sequence
/// holds those positions.
pub proof fn lemma_message_order(frags: Seq<Seq<char>>) -> (ix: Seq<int>)
    ensures
        ix.len() == msgs_of_fragments(frags).len(),
        forall|k: int| 0 <= k < ix.len() ==> 0 <= #[trigger] ix[k] < frags.len(),
        forall|k: int|
            0 <= k < ix.len() ==> message_of(frags[#[trigger] ix[k]]) == Some(
                msgs_of_fragments(frags)[k],
            ),
        forall|k: int| 0 < k < ix.len() ==> #[trigger] ix[k - 1] < ix[k],
    decreases frags.len(),
{
    if frags.len() == 0 {
        Seq::empty()
    } else {
        let rest = lemma_message_order(frags.drop_last());
        let prev = msgs_of_fragments(frags.drop_last());
        assert(forall|k: int|
            0 <= k < rest.len() ==> frags.drop_last()[#[trigger] rest[k]] == frags[rest[k]]);
        match message_of(frags.last()) {
            Some(m) => {
                let ix = rest.push(frags.len() - 1);
                assert(msgs_of_fragments(frags) == prev.push(m));
                assert forall|k: int| 0 <= k < ix.len() implies message_of(frags[#[trigger] ix[k]])
                    == Some(msgs_of_fragments(frags)[k]) by {
                    if k < rest.len() {
                        assert(ix[k] == rest[k]);
                        assert(msgs_of_fragments(frags)[k] == prev[k]);
                    } else {
                        assert(ix[k] == frags.len() - 1);
                    }
                }
                ix
            },
            None => {
                assert(msgs_of_fragments(frags) == prev);
                rest
            },
        }
    }
}

/// Message order within an entry of an archive equals fragment order within
/// that entry's decoded HTML: the positions returned relate each of the
/// entry's messages to its fragment, in strictly increasing order.
pub proof fn lemma_entry_message_order(content: Seq<char>, k: int) -> (ix: Seq<int>)
    requires
        0 <= k < entries_of(content).len(),
    ensures
        ({
            let e = entries_of(content)[k];
            let frags = fragments_of(e.html_body);
            &&& ix.len() == e.messages.len()
            &&& forall|j: int| 0 <= j < ix.len() ==> 0 <= #[trigger] ix[j] < frags.len()
            &&& forall|j: int|
                0 <= j < ix.len() ==> message_of(frags[#[trigger] ix[j]]) == Some(e.messages[j])
            &&& forall|j: int| 0 < j < ix.len() ==> #[trigger] ix[j - 1] < ix[j]
        }),
{
    let e = entries_of(content)[k];
    assert(e.messages == msgs_of_fragments(fragments_of(e.html_body)));
    lemma_message_order(fragments_of(e.html_body))
}

/// A fragment that yields no message leaves its siblings' messages exactly
/// as they were, in their order.
pub proof fn lemma_sibling_fragments_independent(frags: Seq<Seq<char>>, k: int)
    requires
        0 <= k < frags.len(),
        message_of(frags[k]) is None,
    ensures
        msgs_of_fragments(frags) == msgs_of_fragments(frags.remove(k)),
    decreases frags.len(),
{
    if k == frags.len() - 1 {
        assert(frags.remove(k) =~= frags.drop_last());
    } else {
        lemma_sibling_fragments_independent(frags.drop_last(), k);
        assert(frags.remove(k).drop_last() =~= frags.drop_last().remove(k));
        assert(frags.remove(k).last() == frags.last());
    }
}

/// A fragment in which the content pattern does not match yields no message.
pub proof fn lemma_missing_content_no_message(frag: Seq<char>)
    ensures
        content_capture(frag) is None ==> message_of(frag) is None,
{
}

/// A raw timestamp in which the template does not occur, or whose date text
/// names no valid calendar date, normalizes to itself unchanged.
pub proof fn lemma_timestamp_passthrough(raw: Seq<char>)
    ensures
        ts_find_from(nbsp_clean(raw), 0) is None ==> normalized_of(raw) == raw,
        (ts_find_from(nbsp_clean(raw), 0) matches Some(im) && month_day_year(
            nbsp_clean(raw).subrange(im.0, im.1.date_end),
        ) is None) ==> normalized_of(raw) == raw,
{
}

/// An archive in which the record delimiter does not occur yields no
/// entries.
pub proof fn lemma_no_delimiter_no_entries(content: Seq<char>)
    requires
        !contains_seq(content, "\nFrom "@),
    ensures
        entries_of(content) =~= Seq::<EntryModel>::empty(),
{
    reveal_strlit("\nFrom ");
    lemma_split_whole(content, "\nFrom "@);
}

/// A segment whose scan leaves the payload empty yields no attachment, even
/// with content type and filename present.
pub proof fn lemma_empty_payload_no_attachment(part: Seq<char>)
    ensures
        scan_lines(spec_lines(part), init_scan()).content.len() == 0 ==> attachment_of(
            part,
        ) is None,
{
}

} // verus!

//! Body extraction: split an entry's raw body on the boundary marker into
//! segments, pick the HTML content segment (the last one wins), and collect
//! the attachments declared in the other segments.

use vstd::prelude::*;
use crate::models::{Attachment, AttachmentModel, attachment_wf};
use crate::text::{
    is_match_at, contains_seq, has_char_between, spec_split, spec_lines, spec_trim,
    spec_trim_char, views_of, split_by, split_lines, chars_of, match_at, find_from, subvec,
    push_all, trim_chars, trim_char_chars, char_between,
};
use crate::outside::string_of;

verus! {

// ---------------------------------------------------------------------------
// The attachment line scan
// ---------------------------------------------------------------------------

/// The state of the line scan over an attachment segment.
pub ghost struct ScanState {
    pub content_type: Seq<char>,
    pub filename: Seq<char>,
    pub content: Seq<char>,
    pub b64: bool,
}

pub open spec fn init_scan() -> ScanState {
    ScanState {
        content_type: Seq::empty(),
        filename: Seq::empty(),
        content: Seq::empty(),
        b64: false,
    }
}

/// One line of the scan: header-looking lines set the fields, the
/// base64 transfer-encoding marker starts the payload, and payload lines
/// (no colon) are trimmed and appended without separators.
pub open spec fn scan_step(st: ScanState, l: Seq<char>) -> ScanState {
    if is_match_at(l, "Content-Type: "@, 0) {
        ScanState { content_type: l.subrange("Content-Type: "@.len() as int, l.len() as int), ..st }
    } else if is_match_at(l, "Content-Disposition: attachment; filename="@, 0) {
        ScanState {
            filename: spec_trim_char(
                l.subrange("Content-Disposition: attachment; filename="@.len() as int, l.len() as int),
                '"',
            ),
            ..st
        }
    } else if contains_seq(l, "Content-Transfer-Encoding: base64"@) {
        ScanState { b64: true, ..st }
    } else if st.b64 && !has_char_between(l, ':', 0, l.len() as int) {
        ScanState { content: st.content + spec_trim(l), ..st }
    } else {
        st
    }
}

pub open spec fn scan_lines(lines: Seq<Seq<char>>, st: ScanState) -> ScanState
    decreases lines.len(),
{
    if lines.len() == 0 {
        st
    } else {
        scan_lines(lines.drop_first(), scan_step(st, lines.first()))
    }
}

/// The attachment declared by a segment, if its scan leaves content type,
/// filename and payload all non-empty.
pub open spec fn attachment_of(part: Seq<char>) -> Option<AttachmentModel> {
    let st = scan_lines(spec_lines(part), init_scan());
    if st.content_type.len() > 0 && st.filename.len() > 0 && st.content.len() > 0 {
        Some(
            (AttachmentModel {
                content_type: st.content_type,
                filename: st.filename,
                content: st.content,
            }),
        )
    } else {
        None
    }
}

/// Scan one body segment for an attachment: a content-type line, a
/// disposition line carrying the filename in quotes, and, after the base64
/// transfer-encoding marker, payload lines (no colon), trimmed and
/// concatenated. The attachment is produced only when all three are
/// non-empty.
fn extract_attachment_vec(part: &Vec<char>) -> (r: Option<Attachment>)
    ensures
        match r {
            Some(a) => attachment_of(part@) == Some(a@) && attachment_wf(a@),
            None => attachment_of(part@) is None,
        },
{
    let m_ct = chars_of("Content-Type: ");
    let m_disp = chars_of("Content-Disposition: attachment; filename=");
    let m_b64 = chars_of("Content-Transfer-Encoding: base64");
    let lines = split_lines(part);
    let n: usize = lines.len();
    let ghost lviews = views_of(lines@);
    let mut content_type: Vec<char> = Vec::new();
    let mut filename: Vec<char> = Vec::new();
    let mut content: Vec<char> = Vec::new();
    let mut b64: bool = false;
    let mut idx: usize = 0;
    proof {
        assert(lviews.subrange(0, lviews.len() as int) =~= lviews);
        assert(content_type@ =~= Seq::<char>::empty());
        assert(filename@ =~= Seq::<char>::empty());
        assert(content@ =~= Seq::<char>::empty());
        assert((ScanState {
            content_type: content_type@,
            filename: filename@,
            content: content@,
            b64,
        }) == init_scan());
    }
    while idx < n
        invariant
            0 <= idx <= n,
            n == lines@.len(),
            lviews == views_of(lines@),
            lviews == spec_lines(part@),
            m_ct@ == "Content-Type: "@,
            m_disp@ == "Content-Disposition: attachment; filename="@,
            m_b64@ == "Content-Transfer-Encoding: base64"@,
            scan_lines(lviews, init_scan()) == scan_lines(
                lviews.subrange(idx as int, lviews.len() as int),
                (ScanState { content_type: content_type@, filename: filename@, content: content@, b64 }),
            ),
        decreases n - idx,
    {
        let line = &lines[idx];
        let ghost l = line@;
        let ghost cur = ScanState {
            content_type: content_type@,
            filename: filename@,
            content: content@,
            b64,
        };
        let llen: usize = line.len();
        if m_ct.len() <= llen && match_at(line, &m_ct, 0) {
            content_type = subvec(line, m_ct.len(), llen);
        } else if m_disp.len() <= llen && match_at(line, &m_disp, 0) {
            let rest = subvec(line, m_disp.len(), llen);
            filename = trim_char_chars(&rest, '"');
        } else if find_from(line, &m_b64, 0).is_some() {
            b64 = true;
        } else if b64 && !char_between(line, ':', 0, llen) {
            let t = trim_chars(line);
            push_all(&mut content, &t);
        }
        proof {
            if m_ct@.len() > l.len() {
                assert(!is_match_at(l, m_ct@, 0));
            }
            if m_disp@.len() > l.len() {
                assert(!is_match_at(l, m_disp@, 0));
            }
            let next = ScanState {
                content_type: content_type@,
                filename: filename@,
                content: content@,
                b64,
            };
            assert(next == scan_step(cur, l));
            let rem = lviews.subrange(idx as int, lviews.len() as int);
            assert(rem.first() == lviews[idx as int]);
            assert(lviews[idx as int] == l);
            assert(rem.drop_first() =~= lviews.subrange(idx + 1, lviews.len() as int));
            assert(scan_lines(rem, cur) == scan_lines(rem.drop_first(), scan_step(cur, l)));
        }
        idx = idx + 1;
    }
    proof {
        let rem = lviews.subrange(n as int, lviews.len() as int);
        assert(rem.len() == 0);
        assert(scan_lines(rem, (ScanState { content_type: content_type@, filename: filename@, content: content@, b64 })) == (ScanState { content_type: content_type@, filename: filename@, content: content@, b64 }));
    }
    if content_type.len() > 0 && filename.len() > 0 && content.len() > 0 {
        Some(
            Attachment {
                content_type: string_of(&content_type),
                filename: string_of(&filename),
                content: string_of(&content),
            },
        )
    } else {
        None
    }
}

/// Scan one body segment for an attachment.
pub fn extract_attachment(part: &str) -> (r: Option<Attachment>)
    ensures
        match r {
            Some(a) => attachment_of(part@) == Some(a@) && attachment_wf(a@),
            None => attachment_of(part@) is None,
        },
{
    let v = chars_of(part);
    extract_attachment_vec(&v)
}

// ---------------------------------------------------------------------------
// Body extraction
// ---------------------------------------------------------------------------

/// The segments of a raw body: the pieces between boundary markers.
pub open spec fn body_parts(body: Seq<char>) -> Seq<Seq<char>> {
    spec_split(body, "--"@)
}

/// The HTML fragment among the segments: the last segment carrying the HTML
/// content-type marker, or empty when none does.
pub open spec fn html_of_parts(parts: Seq<Seq<char>>) -> Seq<char>
    decreases parts.len(),
{
    if parts.len() == 0 {
        Seq::empty()
    } else if contains_seq(parts.last(), "Content-Type: text/html"@) {
        parts.last()
    } else {
        html_of_parts(parts.drop_last())
    }
}

/// The attachments among the segments, in document order: every segment that
/// carries the attachment disposition marker (and not the HTML marker) and
/// whose scan yields an attachment.
pub open spec fn attachments_of_parts(parts: Seq<Seq<char>>) -> Seq<AttachmentModel>
    decreases parts.len(),
{
    if parts.len() == 0 {
        Seq::empty()
    } else {
        let rest = attachments_of_parts(parts.drop_last());
        let p = parts.last();
        if contains_seq(p, "Content-Type: text/html"@) {
            rest
        } else if contains_seq(p, "Content-Disposition: attachment"@) {
            match attachment_of(p) {
                Some(a) => rest.push(a),
                None => rest,
            }
        } else {
            rest
        }
    }
}

pub open spec fn html_of_body(body: Seq<char>) -> Seq<char> {
    html_of_parts(body_parts(body))
}

pub open spec fn attachments_of_body(body: Seq<char>) -> Seq<AttachmentModel> {
    attachments_of_parts(body_parts(body))
}

/// Split the raw body on the boundary marker; the last segment carrying the
/// HTML content-type marker becomes the HTML fragment, and each segment
/// carrying the attachment disposition marker may yield an attachment.
pub fn extract_html_and_attachments(body: &str) -> (r: (String, Vec<Attachment>))
    ensures
        r.0@ == html_of_body(body@),
        r.1@.map_values(|a: Attachment| a@) == attachments_of_body(body@),
        forall|k: int| 0 <= k < r.1@.len() ==> attachment_wf(#[trigger] r.1@[k]@),
{
    let bodyv = chars_of(body);
    let boundary = chars_of("--");
    proof {
        reveal_strlit("--");
    }
    let parts = split_by(&bodyv, &boundary);
    let ghost pviews = views_of(parts@);
    let m_html = chars_of("Content-Type: text/html");
    let m_disp = chars_of("Content-Disposition: attachment");
    let n: usize = parts.len();
    let mut html: Vec<char> = Vec::new();
    let mut attachments: Vec<Attachment> = Vec::new();
    let mut idx: usize = 0;
    proof {
        assert(pviews.subrange(0, 0) =~= Seq::<Seq<char>>::empty());
    }
    while idx < n
        invariant
            0 <= idx <= n,
            n == parts@.len(),
            pviews == views_of(parts@),
            pviews == body_parts(body@),
            m_html@ == "Content-Type: text/html"@,
            m_disp@ == "Content-Disposition: attachment"@,
            html@ == html_of_parts(pviews.subrange(0, idx as int)),
            attachments@.map_values(|a: Attachment| a@) == attachments_of_parts(
                pviews.subrange(0, idx as int),
            ),
            forall|k: int| 0 <= k < attachments@.len() ==> attachment_wf(#[trigger] attachments@[k]@),
        decreases n - idx,
    {
        let part = &parts[idx];
        let ghost pv = part@;
        let ghost taken = pviews.subrange(0, idx as int);
        proof {
            assert(pviews.subrange(0, idx + 1).drop_last() =~= taken);
            assert(pviews.subrange(0, idx + 1).last() == pv);
        }
        if find_from(part, &m_html, 0).is_some() {
            html = subvec(part, 0, part.len());
            proof {
                assert(html@ =~= pv);
            }
        } else if find_from(part, &m_disp, 0).is_some() {
            match extract_attachment_vec(part) {
                Some(a) => {
                    let ghost a0 = attachments@;
                    attachments.push(a);
                    proof {
                        assert(attachments@.map_values(|x: Attachment| x@) =~= a0.map_values(
                            |x: Attachment| x@,
                        ).push(attachments@.last()@));
                    }
                },
                None => {},
            }
        }
        idx = idx + 1;
    }
    proof {
        assert(pviews.subrange(0, n as int) =~= pviews);
    }
    (string_of(&html), attachments)
}

} // verus!

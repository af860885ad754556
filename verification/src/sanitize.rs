//! Content sanitization: strip angle-bracket tags, decode character
//! entities, remove the first "<digits> Reply" affordance label wherever it
//! stands, and trim.

use vstd::prelude::*;
use crate::text::{
    is_match_at, spec_find_from, lemma_find_from, spec_trim, run_end_ws, run_end_digit,
    lemma_run_end_ws, lemma_run_end_digit, find_from, subvec, push_all, trim_chars, chars_of,
    ws_run_end, digit_run_end, match_at,
};
use crate::outside::{entities_decoded, decode_entities, string_of};

verus! {

// ---------------------------------------------------------------------------
// Tag stripping
// ---------------------------------------------------------------------------

/// When a tag `<...>` with a non-empty inside starts at `i`, the index of its
/// closing `>`.
pub open spec fn tag_at(s: Seq<char>, i: int) -> Option<int> {
    if 0 <= i < s.len() && s[i] == '<' {
        match spec_find_from(s, seq!['>'], i + 1) {
            Some(j) => if j >= i + 2 {
                Some(j)
            } else {
                None
            },
            None => None,
        }
    } else {
        None
    }
}

/// The first tag starting at or after `from`: its start and the index of its
/// closing `>`.
pub open spec fn find_tag_from(s: Seq<char>, from: int) -> Option<(int, int)>
    decreases s.len() - from,
    when 0 <= from
{
    if from >= s.len() {
        None
    } else {
        match tag_at(s, from) {
            Some(j) => Some((from, j)),
            None => find_tag_from(s, from + 1),
        }
    }
}

pub proof fn lemma_tag_at(s: Seq<char>, i: int)
    ensures
        match tag_at(s, i) {
            Some(j) => 0 <= i && i + 2 <= j < s.len() && s[i] == '<' && s[j] == '>',
            None => true,
        },
{
    if 0 <= i < s.len() && s[i] == '<' {
        lemma_find_from(s, seq!['>'], i + 1);
        if spec_find_from(s, seq!['>'], i + 1) is Some {
            let j = spec_find_from(s, seq!['>'], i + 1)->Some_0;
            assert(is_match_at(s, seq!['>'], j));
            assert(s.subrange(j, j + seq!['>'].len() as int) == seq!['>']);
            assert(s.subrange(j, j + 1)[0] == s[j]);
            assert(seq!['>'][0] == '>');
        }
    }
}

pub proof fn lemma_find_tag_from(s: Seq<char>, from: int)
    requires
        0 <= from,
    ensures
        match find_tag_from(s, from) {
            Some(p) => from <= p.0 && tag_at(s, p.0) == Some(p.1) && p.0 + 2 <= p.1 < s.len()
                && (forall|k: int| from <= k < p.0 ==> tag_at(s, k) is None),
            None => forall|k: int| from <= k ==> tag_at(s, k) is None,
        },
    decreases s.len() - from,
{
    if from >= s.len() {
        assert forall|k: int| from <= k implies tag_at(s, k) is None by {}
    } else {
        match tag_at(s, from) {
            Some(j) => {
                lemma_tag_at(s, from);
            },
            None => {
                lemma_find_tag_from(s, from + 1);
            },
        }
    }
}

/// `s` from `from` on, with every tag removed: the pieces between tags, in
/// order, where tags are found left to right and the scan resumes after each
/// closing `>`.
pub open spec fn strip_tags_from(s: Seq<char>, from: int) -> Seq<char>
    decreases s.len() - from,
    when 0 <= from <= s.len()
    via strip_tags_from_decreases
{
    match find_tag_from(s, from) {
        None => s.subrange(from, s.len() as int),
        Some(p) => s.subrange(from, p.0) + strip_tags_from(s, p.1 + 1),
    }
}

#[via_fn]
proof fn strip_tags_from_decreases(s: Seq<char>, from: int) {
    lemma_find_tag_from(s, from);
}

/// `s` with every `<...>` tag removed.
pub open spec fn strip_tags_spec(s: Seq<char>) -> Seq<char> {
    strip_tags_from(s, 0)
}

/// Like `lemma_find_from_skip`, for tags.
proof fn lemma_find_tag_skip(s: Seq<char>, from: int, mid: int)
    requires
        0 <= from <= mid,
        forall|k: int| from <= k < mid ==> tag_at(s, k) is None,
    ensures
        find_tag_from(s, from) == find_tag_from(s, mid),
    decreases mid - from,
{
    if from < mid {
        if from >= s.len() {
            assert(mid >= s.len());
        } else {
            lemma_find_tag_skip(s, from + 1, mid);
        }
    }
}

/// The first tag at or after `from`, or `None`.
fn find_tag(s: &Vec<char>, from: usize) -> (r: Option<(usize, usize)>)
    requires
        from <= s@.len(),
    ensures
        match r {
            Some(p) => from <= p.0 && find_tag_from(s@, from as int) == Some(
                (p.0 as int, p.1 as int),
            ) && p.0 + 2 <= p.1 < s@.len(),
            None => find_tag_from(s@, from as int) is None,
        },
{
    let slen: usize = s.len();
    let mut lt: Vec<char> = Vec::new();
    lt.push('<');
    let mut gt: Vec<char> = Vec::new();
    gt.push('>');
    proof {
        assert(lt@ =~= seq!['<']);
        assert(gt@ =~= seq!['>']);
    }
    let mut pos: usize = from;
    loop
        invariant
            from <= pos <= s@.len(),
            slen == s@.len(),
            lt@ == seq!['<'],
            gt@ == seq!['>'],
            find_tag_from(s@, from as int) == find_tag_from(s@, pos as int),
        decreases s@.len() - pos + 1,
    {
        match find_from(s, &lt, pos) {
            None => {
                proof {
                    lemma_find_from(s@, lt@, pos as int);
                    assert forall|k: int| pos <= k implies tag_at(s@, k) is None by {
                        if 0 <= k < s@.len() && s@[k] == '<' {
                            assert(s@.subrange(k, k + 1) =~= seq![s@[k]]);
                            assert(is_match_at(s@, lt@, k));
                        }
                    }
                    if pos < s@.len() {
                        lemma_find_tag_skip(s@, pos as int, s@.len() as int);
                    }
                }
                return None;
            },
            Some(c) => {
                proof {
                    lemma_find_from(s@, lt@, pos as int);
                    assert(is_match_at(s@, lt@, c as int));
                    assert(s@.subrange(c as int, c + lt@.len() as int) == lt@);
                    assert(s@.subrange(c as int, c + 1)[0] == s@[c as int]);
                    assert(lt@[0] == '<');
                    assert(s@[c as int] == '<');
                    assert forall|k: int| pos <= k < c implies tag_at(s@, k) is None by {
                        if 0 <= k < s@.len() && s@[k] == '<' {
                            assert(s@.subrange(k, k + 1) =~= seq![s@[k]]);
                            assert(is_match_at(s@, lt@, k));
                        }
                    }
                    lemma_find_tag_skip(s@, pos as int, c as int);
                }
                match find_from(s, &gt, c + 1) {
                    Some(j) => {
                        if j >= c + 2 {
                            proof {
                                assert(tag_at(s@, c as int) == Some(j as int));
                                lemma_find_from(s@, gt@, c + 1);
                                assert(j + 1 <= s@.len());
                            }
                            return Some((c, j));
                        }
                        proof {
                            assert(tag_at(s@, c as int) is None);
                            lemma_find_tag_skip(s@, c as int, c + 1);
                        }
                        pos = c + 1;
                    },
                    None => {
                        proof {
                            assert(tag_at(s@, c as int) is None);
                            lemma_find_tag_skip(s@, c as int, c + 1);
                        }
                        pos = c + 1;
                    },
                }
            },
        }
    }
}

/// Copy of `s` with every `<...>` tag removed.
pub fn strip_tags(s: &Vec<char>) -> (r: Vec<char>)
    ensures
        r@ == strip_tags_spec(s@),
{
    let slen: usize = s.len();
    let mut out: Vec<char> = Vec::new();
    let mut pos: usize = 0;
    loop
        invariant
            0 <= pos <= s@.len(),
            slen == s@.len(),
            strip_tags_spec(s@) =~= out@ + strip_tags_from(s@, pos as int),
        decreases s@.len() - pos + 1,
    {
        match find_tag(s, pos) {
            None => {
                let rest = subvec(s, pos, slen);
                push_all(&mut out, &rest);
                return out;
            },
            Some(p) => {
                let piece = subvec(s, pos, p.0);
                push_all(&mut out, &piece);
                proof {
                    assert(out@ + strip_tags_from(s@, p.1 + 1) =~= strip_tags_spec(s@));
                }
                pos = p.1 + 1;
            },
        }
    }
}

// ---------------------------------------------------------------------------
// Reply-label stripping
// ---------------------------------------------------------------------------

/// When a "<digits> Reply" affordance label, whitespace-tolerant, starts
/// exactly at `i` - optional whitespace, at least one digit, at least one
/// whitespace character, the word "Reply", and trailing whitespace - the
/// index just past it.
pub open spec fn reply_match_at(s: Seq<char>, i: int) -> Option<int> {
    if !(0 <= i && i <= s.len()) {
        None
    } else {
        let a = run_end_ws(s, i);
        let b = run_end_digit(s, a);
        if b == a {
            None
        } else {
            let c = run_end_ws(s, b);
            if c == b {
                None
            } else if is_match_at(s, "Reply"@, c) {
                Some(run_end_ws(s, c + 5))
            } else {
                None
            }
        }
    }
}

/// The first occurrence of the reply label at or after `from`: where it
/// starts and the index just past it.
pub open spec fn reply_find_from(s: Seq<char>, from: int) -> Option<(int, int)>
    decreases s.len() - from,
    when 0 <= from
{
    if from >= s.len() {
        None
    } else {
        match reply_match_at(s, from) {
            Some(e) => Some((from, e)),
            None => reply_find_from(s, from + 1),
        }
    }
}

/// A found reply label lies within `s` and does not start before `from`.
pub proof fn lemma_reply_find_from(s: Seq<char>, from: int)
    requires
        0 <= from,
    ensures
        match reply_find_from(s, from) {
            Some(p) => from <= p.0 <= p.1 <= s.len(),
            None => true,
        },
    decreases s.len() - from,
{
    reveal_strlit("Reply");
    if from < s.len() {
        match reply_match_at(s, from) {
            Some(e) => {
                let a = run_end_ws(s, from);
                lemma_run_end_ws(s, from);
                let b = run_end_digit(s, a);
                lemma_run_end_digit(s, a);
                let c = run_end_ws(s, b);
                lemma_run_end_ws(s, b);
                assert(c + 5 <= s.len());
                lemma_run_end_ws(s, c + 5);
            },
            None => {
                lemma_reply_find_from(s, from + 1);
            },
        }
    }
}

/// `s` with the first occurrence of the whitespace-tolerant
/// "<digits> Reply" label removed; a prefix label is the leftmost occurrence
/// and is covered too.
pub open spec fn strip_reply_spec(s: Seq<char>) -> Seq<char> {
    match reply_find_from(s, 0) {
        None => s,
        Some(p) => s.subrange(0, p.0) + s.subrange(p.1, s.len() as int),
    }
}

/// The index past the reply label starting exactly at `i`, if one does.
fn reply_match_end(s: &Vec<char>, i: usize) -> (r: Option<usize>)
    requires
        i <= s@.len(),
    ensures
        match r {
            Some(e) => reply_match_at(s@, i as int) == Some(e as int) && i <= e <= s@.len(),
            None => reply_match_at(s@, i as int) is None,
        },
{
    let slen: usize = s.len();
    let a = ws_run_end(s, i);
    let b = digit_run_end(s, a);
    if b == a {
        return None;
    }
    let c = ws_run_end(s, b);
    if c == b {
        return None;
    }
    let reply = chars_of("Reply");
    proof {
        assert(reply@.len() == 5) by {
            reveal_strlit("Reply");
        }
    }
    if slen < 5 || c > slen - 5 {
        proof {
            assert(!is_match_at(s@, "Reply"@, c as int));
        }
        return None;
    }
    if match_at(s, &reply, c) {
        let e = ws_run_end(s, c + 5);
        Some(e)
    } else {
        None
    }
}

/// Copy of `s` with the first "<digits> Reply" label removed.
pub fn strip_reply(s: &Vec<char>) -> (r: Vec<char>)
    ensures
        r@ == strip_reply_spec(s@),
{
    let slen: usize = s.len();
    let mut i: usize = 0;
    while i < slen
        invariant
            0 <= i <= slen,
            slen == s@.len(),
            reply_find_from(s@, 0) == reply_find_from(s@, i as int),
        decreases slen - i,
    {
        match reply_match_end(s, i) {
            Some(e) => {
                let mut out = subvec(s, 0, i);
                let tail = subvec(s, e, slen);
                push_all(&mut out, &tail);
                proof {
                    assert(out@ =~= strip_reply_spec(s@));
                }
                return out;
            },
            None => {},
        }
        i = i + 1;
    }
    subvec_all(s)
}

/// Copy of the whole of `s`.
fn subvec_all(s: &Vec<char>) -> (r: Vec<char>)
    ensures
        r@ == s@,
{
    let r = subvec(s, 0, s.len());
    proof {
        assert(s@.subrange(0, s@.len() as int) =~= s@);
    }
    r
}

// ---------------------------------------------------------------------------
// The sanitizer
// ---------------------------------------------------------------------------

/// The sanitized form of raw markup content: tags stripped, character
/// entities decoded, the first reply label removed, and the result trimmed.
pub open spec fn sanitized_of(c: Seq<char>) -> Seq<char> {
    spec_trim(strip_reply_spec(entities_decoded(strip_tags_spec(c))))
}

/// `s` with every `<...>` tag removed.
pub fn strip_html_tags(s: &str) -> (r: String)
    ensures
        r@ == strip_tags_spec(s@),
{
    let v = chars_of(s);
    let stripped = strip_tags(&v);
    string_of(&stripped)
}

/// `s` with the first "<digits> Reply" label removed and surrounding
/// whitespace trimmed: the steps of the sanitizer that follow entity
/// decoding.
pub fn strip_reply_and_trim(s: &str) -> (r: String)
    ensures
        r@ == spec_trim(strip_reply_spec(s@)),
{
    let v = chars_of(s);
    let stripped = strip_reply(&v);
    let trimmed = trim_chars(&stripped);
    string_of(&trimmed)
}

/// Reduce raw markup content to clean plain text: remove tags, decode
/// character entities, drop the first "<digits> Reply" label, and trim.
pub fn clean_message_content(content: &str) -> (r: String)
    ensures
        r@ == sanitized_of(content@),
{
    let no_tags = strip_html_tags(content);
    let decoded = decode_entities(no_tags.as_str());
    strip_reply_and_trim(decoded.as_str())
}

} // verus!

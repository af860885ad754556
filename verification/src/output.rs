//! The computed parts of the downstream writers: CSV row rendering with
//! quote escaping, collision-numbered filenames, and attachment payload
//! decoding.

use vstd::prelude::*;
use crate::models::{Message, MessageModel, Attachment};
use crate::text::chars_of;
use crate::timestamp::spec_digit_char;
use crate::outside::{base64_decoded, b64_decode, string_of};

verus! {

/// `s` with every double quote doubled, as CSV embeds quotes.
pub open spec fn csv_escaped(s: Seq<char>) -> Seq<char>
    decreases s.len(),
{
    if s.len() == 0 {
        Seq::empty()
    } else {
        csv_escaped(s.drop_last()) + (if s.last() == '"' {
            seq!['"', '"']
        } else {
            seq![s.last()]
        })
    }
}

/// The CSV row of a message: the four fields in order, each in double
/// quotes, with embedded quotes doubled in every field.
pub open spec fn csv_row_of(m: MessageModel) -> Seq<char> {
    seq!['"'] + csv_escaped(m.message_id) + seq!['"', ',', '"'] + csv_escaped(m.sender) + seq![
        '"',
        ',',
        '"',
    ] + csv_escaped(m.timestamp) + seq!['"', ',', '"'] + csv_escaped(m.content) + seq!['"']
}

/// Copy of `s` with every double quote doubled.
fn csv_escape_chars(s: &Vec<char>) -> (r: Vec<char>)
    ensures
        r@ == csv_escaped(s@),
{
    let n: usize = s.len();
    let mut r: Vec<char> = Vec::new();
    let mut i: usize = 0;
    proof {
        assert(s@.subrange(0, 0) =~= Seq::<char>::empty());
    }
    while i < n
        invariant
            0 <= i <= n,
            n == s@.len(),
            r@ == csv_escaped(s@.subrange(0, i as int)),
        decreases n - i,
    {
        let ghost pre = s@.subrange(0, i as int);
        let ghost cur = s@.subrange(0, i + 1);
        proof {
            assert(cur.drop_last() =~= pre);
            assert(cur.last() == s@[i as int]);
        }
        let c = s[i];
        let ghost r0 = r@;
        if c == '"' {
            r.push('"');
            r.push('"');
            proof {
                assert(r@ =~= r0 + seq!['"', '"']);
            }
        } else {
            r.push(c);
            proof {
                assert(r@ =~= r0 + seq![s@[i as int]]);
            }
        }
        i = i + 1;
    }
    proof {
        assert(s@.subrange(0, n as int) =~= s@);
    }
    r
}

/// Render one message as a CSV row, without a line terminator: the four
/// fields in order, each double-quoted, embedded quotes doubled in every
/// field.
pub fn csv_row(m: &Message) -> (r: String)
    ensures
        r@ == csv_row_of(m@),
{
    let mut out: Vec<char> = Vec::new();
    out.push('"');
    let id = chars_of(m.message_id.as_str());
    let id_escaped = csv_escape_chars(&id);
    crate::text::push_all(&mut out, &id_escaped);
    out.push('"');
    out.push(',');
    out.push('"');
    let sender = chars_of(m.sender.as_str());
    let sender_escaped = csv_escape_chars(&sender);
    crate::text::push_all(&mut out, &sender_escaped);
    out.push('"');
    out.push(',');
    out.push('"');
    let ts = chars_of(m.timestamp.as_str());
    let ts_escaped = csv_escape_chars(&ts);
    crate::text::push_all(&mut out, &ts_escaped);
    out.push('"');
    out.push(',');
    out.push('"');
    let content = chars_of(m.content.as_str());
    let escaped = csv_escape_chars(&content);
    crate::text::push_all(&mut out, &escaped);
    out.push('"');
    proof {
        assert(out@ =~= csv_row_of(m@));
    }
    string_of(&out)
}

/// `n` in decimal, most significant digit first, without leading zeros.
pub open spec fn dec_str_of(n: int) -> Seq<char>
    decreases n,
    when n >= 0
{
    if n < 10 {
        seq![spec_digit_char(n)]
    } else {
        dec_str_of(n / 10) + seq![spec_digit_char(n % 10)]
    }
}

fn push_dec(out: &mut Vec<char>, n: u64)
    ensures
        final(out)@ == old(out)@ + dec_str_of(n as int),
    decreases n,
{
    if n < 10 {
        out.push(crate::timestamp::digit_char_of(n as u32));
        proof {
            assert(final(out)@ =~= old(out)@ + dec_str_of(n as int));
        }
    } else {
        push_dec(out, n / 10);
        out.push(crate::timestamp::digit_char_of((n % 10) as u32));
        proof {
            assert(final(out)@ =~= old(out)@ + dec_str_of(n as int));
        }
    }
}

/// The filename a collision counter produces: the counter in decimal, an
/// underscore, and the declared name.
pub open spec fn numbered_name_of(counter: int, name: Seq<char>) -> Seq<char> {
    dec_str_of(counter) + seq!['_'] + name
}

/// Prefix `name` with `counter` and an underscore, for collision handling.
pub fn numbered_filename(counter: u64, name: &str) -> (r: String)
    ensures
        r@ == numbered_name_of(counter as int, name@),
{
    let mut out: Vec<char> = Vec::new();
    push_dec(&mut out, counter);
    out.push('_');
    let namev = chars_of(name);
    crate::text::push_all(&mut out, &namev);
    proof {
        assert(out@ =~= numbered_name_of(counter as int, name@));
    }
    string_of(&out)
}

/// The decoded payload of an attachment, or `None` when the payload is not
/// valid base64; decoding it is the writer's final step before persisting.
pub fn decoded_attachment(a: &Attachment) -> (r: Option<Vec<u8>>)
    ensures
        match r {
            Some(v) => base64_decoded(a.content@) == Some(v@),
            None => base64_decoded(a.content@) is None,
        },
{
    b64_decode(a.content.as_str())
}

} // verus!

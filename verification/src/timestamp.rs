//! Timestamp normalization: recognize the locale template
//! `<Month> <day>, <year> at <h>:<mm>:<ss> <AM|PM> GMT<±N>` anywhere in the
//! raw text and render the instant as `YYYY-MM-DDTHH:MM:SS±HH:00`; text that
//! does not carry the template passes through unchanged.

use vstd::prelude::*;
use crate::text::{
    is_match_at, is_digit, is_word, digit_val, digits_val, run_end_digit, run_end_word,
    lemma_run_end_digit, lemma_run_end_word, lemma_run_unique_digit, lemma_run_unique_word,
    chars_of, subvec, match_at, digit_run_end, word_run_end,
};
use crate::outside::{month_day_year, date_text_shape, parse_month_day_year, string_of};

verus! {

// ---------------------------------------------------------------------------
// Narrow no-break spaces
// ---------------------------------------------------------------------------

/// `s` with every narrow no-break space replaced by an ordinary space.
pub open spec fn nbsp_clean(s: Seq<char>) -> Seq<char> {
    s.map_values(|c: char| if c == '\u{202f}' { ' ' } else { c })
}

fn nbsp_clean_vec(s: &Vec<char>) -> (r: Vec<char>)
    ensures
        r@ == nbsp_clean(s@),
{
    let n: usize = s.len();
    let mut r: Vec<char> = Vec::new();
    let mut i: usize = 0;
    while i < n
        invariant
            0 <= i <= n,
            n == s@.len(),
            r@ =~= nbsp_clean(s@).subrange(0, i as int),
        decreases n - i,
    {
        let c = s[i];
        if c == '\u{202f}' {
            r.push(' ');
        } else {
            r.push(c);
        }
        proof {
            assert(r@ =~= nbsp_clean(s@).subrange(0, i + 1));
        }
        i = i + 1;
    }
    proof {
        assert(nbsp_clean(s@).subrange(0, n as int) =~= nbsp_clean(s@));
    }
    r
}

// ---------------------------------------------------------------------------
// The template
// ---------------------------------------------------------------------------

/// The pieces of a template occurrence: where the date text ends, the clock
/// values, the meridiem, and the signed offset magnitude.
pub ghost struct TsMatch {
    pub date_end: int,
    pub hour: int,
    pub minute: int,
    pub second: int,
    pub pm: bool,
    pub off_neg: bool,
    pub off_mag: int,
}

/// The template occurrence starting exactly at `i`: a word run (the month),
/// a space, one or two digits (the day), a comma and a space, four digits
/// (the year), " at ", one or two digits, a colon, two digits, a colon, two
/// digits, a space, AM or PM, " GMT", an optional sign, and at least one
/// digit. Runs are maximal, as an unbacktrackable greedy scan reads them,
/// and the word and digit classes are ASCII (see [`crate::text::is_word`]).
pub open spec fn ts_match_at(s: Seq<char>, i: int) -> Option<TsMatch> {
    if !(0 <= i && i < s.len()) {
        None
    } else {
        let we = run_end_word(s, i);
        if !(we > i && we < s.len() && s[we] == ' ') {
            None
        } else {
            let de = run_end_digit(s, we + 1);
            if !(de - (we + 1) == 1 || de - (we + 1) == 2) {
                None
            } else if !(de + 1 < s.len() && s[de] == ',' && s[de + 1] == ' ') {
                None
            } else {
                let ye = run_end_digit(s, de + 2);
                if ye - (de + 2) != 4 {
                    None
                } else if !is_match_at(s, " at "@, ye) {
                    None
                } else {
                    let hs = ye + 4;
                    let he = run_end_digit(s, hs);
                    if !((he - hs == 1 || he - hs == 2) && he < s.len() && s[he] == ':') {
                        None
                    } else {
                        let me = run_end_digit(s, he + 1);
                        if !(me - (he + 1) == 2 && me < s.len() && s[me] == ':') {
                            None
                        } else {
                            let se = run_end_digit(s, me + 1);
                            if !(se - (me + 1) == 2 && se < s.len() && s[se] == ' ') {
                                None
                            } else {
                                let ap = se + 1;
                                if !(ap + 1 < s.len() && (s[ap] == 'A' || s[ap] == 'P') && s[ap
                                    + 1] == 'M') {
                                    None
                                } else if !is_match_at(s, " GMT"@, ap + 2) {
                                    None
                                } else {
                                    let sgn = ap + 6;
                                    let neg = sgn < s.len() && s[sgn] == '-';
                                    let plus = sgn < s.len() && s[sgn] == '+';
                                    let ns = if neg || plus {
                                        sgn + 1
                                    } else {
                                        sgn
                                    };
                                    let ne = run_end_digit(s, ns);
                                    if ne == ns {
                                        None
                                    } else {
                                        Some(
                                            (TsMatch {
                                                date_end: ye,
                                                hour: digits_val(s.subrange(hs, he)),
                                                minute: digits_val(s.subrange(he + 1, me)),
                                                second: digits_val(s.subrange(me + 1, se)),
                                                pm: s[ap] == 'P',
                                                off_neg: neg,
                                                off_mag: digits_val(s.subrange(ns, ne)),
                                            }),
                                        )
                                    }
                                }
                            }
                        }
                    }
                }
            }
        }
    }
}

/// The first template occurrence at or after `from`.
pub open spec fn ts_find_from(s: Seq<char>, from: int) -> Option<(int, TsMatch)>
    decreases s.len() - from,
    when 0 <= from
{
    if from >= s.len() {
        None
    } else {
        match ts_match_at(s, from) {
            Some(m) => Some((from, m)),
            None => ts_find_from(s, from + 1),
        }
    }
}

/// What `ts_find_from` returns is a template occurrence.
pub proof fn lemma_ts_find_from(s: Seq<char>, from: int)
    requires
        0 <= from,
    ensures
        match ts_find_from(s, from) {
            Some(im) => from <= im.0 < s.len() && ts_match_at(s, im.0) == Some(im.1),
            None => true,
        },
    decreases s.len() - from,
{
    if from < s.len() {
        if ts_match_at(s, from) is None {
            lemma_ts_find_from(s, from + 1);
        }
    }
}

// ---------------------------------------------------------------------------
// Rendering
// ---------------------------------------------------------------------------

/// The character for the decimal digit `d`.
pub open spec fn spec_digit_char(d: int) -> char {
    if d == 0 {
        '0'
    } else if d == 1 {
        '1'
    } else if d == 2 {
        '2'
    } else if d == 3 {
        '3'
    } else if d == 4 {
        '4'
    } else if d == 5 {
        '5'
    } else if d == 6 {
        '6'
    } else if d == 7 {
        '7'
    } else if d == 8 {
        '8'
    } else {
        '9'
    }
}

/// `n` as two decimal digits, zero-padded.
pub open spec fn pad2(n: int) -> Seq<char> {
    seq![spec_digit_char(n / 10), spec_digit_char(n % 10)]
}

/// `n` as four decimal digits, zero-padded.
pub open spec fn pad4(n: int) -> Seq<char> {
    seq![
        spec_digit_char(n / 1000),
        spec_digit_char((n / 100) % 10),
        spec_digit_char((n / 10) % 10),
        spec_digit_char(n % 10),
    ]
}

/// The canonical date-time-with-offset rendering, `YYYY-MM-DDTHH:MM:SS±HH:00`.
pub open spec fn rfc3339_of(y: int, mo: int, d: int, h: int, mi: int, se: int, off: int) -> Seq<
    char,
> {
    pad4(y) + seq!['-'] + pad2(mo) + seq!['-'] + pad2(d) + seq!['T'] + pad2(h) + seq![':'] + pad2(
        mi,
    ) + seq![':'] + pad2(se) + (if off < 0 {
        seq!['-']
    } else {
        seq!['+']
    }) + pad2(
        if off < 0 {
            -off
        } else {
            off
        },
    ) + seq![':', '0', '0']
}

/// The 24-hour clock hour for an hour figure and meridiem: 12 AM is 0,
/// 12 PM is 12, and any other PM hour gains twelve.
pub open spec fn hour24(h: int, pm: bool) -> int {
    if pm && h != 12 {
        h + 12
    } else if !pm && h == 12 {
        0
    } else {
        h
    }
}

/// The clock of a template occurrence, falling back to midnight when the
/// figures name no valid time of day.
pub open spec fn clock_of(m: TsMatch) -> (int, int, int) {
    let h = hour24(m.hour, m.pm);
    if h <= 23 && m.minute <= 59 && m.second <= 59 {
        (h, m.minute, m.second)
    } else {
        (0, 0, 0)
    }
}

/// The effective offset in hours: magnitudes beyond a day's worth of hours
/// fall back to zero.
pub open spec fn ts_off(m: TsMatch) -> int {
    if m.off_mag <= 23 {
        if m.off_neg {
            -m.off_mag
        } else {
            m.off_mag
        }
    } else {
        0
    }
}

/// What timestamp normalization yields for the raw text `raw`: after
/// replacing narrow no-break spaces, the first template occurrence combined
/// with its parsed calendar date and rendered canonically; `raw` itself when
/// no template occurs or the date is not a valid calendar date.
pub open spec fn normalized_of(raw: Seq<char>) -> Seq<char> {
    let cleaned = nbsp_clean(raw);
    match ts_find_from(cleaned, 0) {
        None => raw,
        Some(im) => {
            let date_str = cleaned.subrange(im.0, im.1.date_end);
            match month_day_year(date_str) {
                None => raw,
                Some(ymd) => {
                    let hms = clock_of(im.1);
                    rfc3339_of(ymd.0, ymd.1, ymd.2, hms.0, hms.1, hms.2, ts_off(im.1))
                },
            }
        },
    }
}

/// The digit character for `d`.
pub(crate) fn digit_char_of(d: u32) -> (r: char)
    requires
        0 <= d <= 9,
    ensures
        r == spec_digit_char(d as int),
{
    if d == 0 {
        '0'
    } else if d == 1 {
        '1'
    } else if d == 2 {
        '2'
    } else if d == 3 {
        '3'
    } else if d == 4 {
        '4'
    } else if d == 5 {
        '5'
    } else if d == 6 {
        '6'
    } else if d == 7 {
        '7'
    } else if d == 8 {
        '8'
    } else {
        '9'
    }
}

/// Append `n` as two zero-padded digits.
fn push_pad2(out: &mut Vec<char>, n: u32)
    requires
        n <= 99,
    ensures
        final(out)@ == old(out)@ + pad2(n as int),
{
    out.push(digit_char_of(n / 10));
    out.push(digit_char_of(n % 10));
    proof {
        assert(old(out)@ + pad2(n as int) =~= old(out)@.push(spec_digit_char(n as int / 10)).push(
            spec_digit_char(n as int % 10),
        ));
    }
}

/// Append `n` as four zero-padded digits.
fn push_pad4(out: &mut Vec<char>, n: u32)
    requires
        n <= 9999,
    ensures
        final(out)@ == old(out)@ + pad4(n as int),
{
    out.push(digit_char_of(n / 1000));
    out.push(digit_char_of((n / 100) % 10));
    out.push(digit_char_of((n / 10) % 10));
    out.push(digit_char_of(n % 10));
    proof {
        assert(old(out)@ + pad4(n as int) =~= old(out)@.push(spec_digit_char(n as int / 1000)).push(
            spec_digit_char((n as int / 100) % 10),
        ).push(spec_digit_char((n as int / 10) % 10)).push(spec_digit_char(n as int % 10)));
    }
}

/// Render the instant canonically.
fn format_rfc3339(y: u32, mo: u32, d: u32, h: u32, mi: u32, se: u32, off: i32) -> (r: Vec<char>)
    requires
        y <= 9999,
        mo <= 99,
        d <= 99,
        h <= 99,
        mi <= 99,
        se <= 99,
        -23 <= off <= 23,
    ensures
        r@ == rfc3339_of(y as int, mo as int, d as int, h as int, mi as int, se as int, off as int),
{
    let mut out: Vec<char> = Vec::new();
    push_pad4(&mut out, y);
    out.push('-');
    push_pad2(&mut out, mo);
    out.push('-');
    push_pad2(&mut out, d);
    out.push('T');
    push_pad2(&mut out, h);
    out.push(':');
    push_pad2(&mut out, mi);
    out.push(':');
    push_pad2(&mut out, se);
    if off < 0 {
        out.push('-');
        push_pad2(&mut out, (-off) as u32);
    } else {
        out.push('+');
        push_pad2(&mut out, off as u32);
    }
    out.push(':');
    out.push('0');
    out.push('0');
    proof {
        assert(out@ =~= rfc3339_of(
            y as int,
            mo as int,
            d as int,
            h as int,
            mi as int,
            se as int,
            off as int,
        ));
    }
    out
}

// ---------------------------------------------------------------------------
// The scanner
// ---------------------------------------------------------------------------

/// Numeric value of the digit `c`.
fn dval(c: char) -> (r: u32)
    requires
        is_digit(c),
    ensures
        r as int == digit_val(c),
        r <= 9,
{
    (c as u32) - 48
}

/// Value of the one- or two-digit run `s[a..b)`.
fn small_digits_val(s: &Vec<char>, a: usize, b: usize) -> (r: u32)
    requires
        a <= b <= s@.len(),
        b - a == 1 || b - a == 2,
        forall|k: int| a <= k < b ==> is_digit(s@[k]),
    ensures
        r as int == digits_val(s@.subrange(a as int, b as int)),
        r <= 99,
{
    let ghost sub = s@.subrange(a as int, b as int);
    proof {
        assert(digits_val(Seq::<char>::empty()) == 0);
    }
    if b - a == 1 {
        let v = dval(s[a]);
        proof {
            assert(sub.drop_last() =~= Seq::<char>::empty());
            assert(sub.last() == s@[a as int]);
            assert(digits_val(sub) == digit_val(s@[a as int]));
        }
        v
    } else {
        let v = dval(s[a]) * 10 + dval(s[a + 1]);
        proof {
            assert(sub.drop_last() =~= s@.subrange(a as int, a + 1));
            assert(sub.last() == s@[a + 1]);
            assert(sub.drop_last().drop_last() =~= Seq::<char>::empty());
            assert(sub.drop_last().last() == s@[a as int]);
            assert(digits_val(sub.drop_last()) == digit_val(s@[a as int]));
        }
        v
    }
}

/// The signed effective offset for the digit run `s[ns..ne)`: the run's
/// value with `neg` applied when it is at most 23, and zero otherwise.
fn offset_eff(s: &Vec<char>, ns: usize, ne: usize, neg: bool) -> (r: i32)
    requires
        ns < ne <= s@.len(),
        forall|k: int| ns <= k < ne ==> is_digit(s@[k]),
    ensures
        ({
            let mag = digits_val(s@.subrange(ns as int, ne as int));
            &&& mag <= 23 && neg ==> r as int == -mag
            &&& mag <= 23 && !neg ==> r as int == mag
            &&& mag > 23 ==> r == 0
        }),
        -23 <= r <= 23,
{
    let mut val: u32 = 0;
    let mut big: bool = false;
    let mut k: usize = ns;
    proof {
        assert(s@.subrange(ns as int, ns as int) =~= Seq::<char>::empty());
    }
    while k < ne
        invariant
            ns <= k <= ne <= s@.len(),
            forall|j: int| ns <= j < ne ==> is_digit(s@[j]),
            !big ==> val as int == digits_val(s@.subrange(ns as int, k as int)) && val <= 23,
            big ==> digits_val(s@.subrange(ns as int, k as int)) > 23,
        decreases ne - k,
    {
        let d = dval(s[k]);
        proof {
            let pre = s@.subrange(ns as int, k as int);
            let cur = s@.subrange(ns as int, k + 1);
            assert(cur.drop_last() =~= pre);
            assert(cur.last() == s@[k as int]);
        }
        if !big {
            let nv = val * 10 + d;
            if nv > 23 {
                big = true;
            } else {
                val = nv;
            }
        }
        k = k + 1;
    }
    proof {
        assert(s@.subrange(ns as int, ne as int) =~= s@.subrange(ns as int, k as int));
    }
    if big {
        0
    } else if neg {
        -(val as i32)
    } else {
        val as i32
    }
}

/// The executable counterpart of a template occurrence.
struct TsExec {
    date_end: usize,
    hour: u32,
    minute: u32,
    second: u32,
    pm: bool,
    off: i32,
}

/// `t` carries the figures of the occurrence `m`, with the offset already
/// made effective.
spec fn ts_exec_matches(t: TsExec, m: TsMatch) -> bool {
    &&& t.date_end == m.date_end
    &&& t.hour == m.hour
    &&& t.minute == m.minute
    &&& t.second == m.second
    &&& t.pm == m.pm
    &&& t.off as int == ts_off(m)
    &&& -23 <= t.off <= 23
    &&& 0 <= t.hour <= 99
    &&& 0 <= t.minute <= 99
    &&& 0 <= t.second <= 99
}

/// Try to read a template occurrence starting exactly at `i`.
fn try_ts_match(s: &Vec<char>, i: usize) -> (r: Option<TsExec>)
    requires
        i < s@.len(),
    ensures
        match r {
            Some(t) => ts_match_at(s@, i as int) matches Some(m) && ts_exec_matches(t, m),
            None => ts_match_at(s@, i as int) is None,
        },
{
    let slen: usize = s.len();
    let we = word_run_end(s, i);
    if !(we > i && we < slen && s[we] == ' ') {
        return None;
    }
    let de = digit_run_end(s, we + 1);
    if !(de - (we + 1) == 1 || de - (we + 1) == 2) {
        return None;
    }
    if !(de < slen && de + 1 < slen && s[de] == ',' && s[de + 1] == ' ') {
        proof {
            assert(!(de + 1 < s@.len() && s@[de as int] == ',' && s@[de + 1] == ' '));
        }
        return None;
    }
    let ye = digit_run_end(s, de + 2);
    if ye - (de + 2) != 4 {
        return None;
    }
    let at_pat = chars_of(" at ");
    proof {
        reveal_strlit(" at ");
    }
    if slen - ye < 4 {
        proof {
            assert(!is_match_at(s@, " at "@, ye as int));
        }
        return None;
    }
    if !match_at(s, &at_pat, ye) {
        return None;
    }
    let hs = ye + 4;
    let he = digit_run_end(s, hs);
    if !((he - hs == 1 || he - hs == 2) && he < slen && s[he] == ':') {
        return None;
    }
    let me = digit_run_end(s, he + 1);
    if !(me - (he + 1) == 2 && me < slen && s[me] == ':') {
        return None;
    }
    let se = digit_run_end(s, me + 1);
    if !(se - (me + 1) == 2 && se < slen && s[se] == ' ') {
        return None;
    }
    let ap = se + 1;
    if !(slen - ap >= 2 && (s[ap] == 'A' || s[ap] == 'P') && s[ap + 1] == 'M') {
        proof {
            assert(!(ap + 1 < s@.len() && (s@[ap as int] == 'A' || s@[ap as int] == 'P') && s@[ap
                + 1] == 'M'));
        }
        return None;
    }
    let gmt_pat = chars_of(" GMT");
    proof {
        reveal_strlit(" GMT");
    }
    if slen - (ap + 2) < 4 {
        proof {
            assert(!is_match_at(s@, " GMT"@, ap + 2));
        }
        return None;
    }
    if !match_at(s, &gmt_pat, ap + 2) {
        return None;
    }
    let sgn = ap + 6;
    let neg = sgn < slen && s[sgn] == '-';
    let plus = sgn < slen && s[sgn] == '+';
    let ns = if neg || plus {
        sgn + 1
    } else {
        sgn
    };
    let ne = digit_run_end(s, ns);
    if ne == ns {
        return None;
    }
    proof {
        lemma_run_end_digit(s@, hs as int);
        lemma_run_end_digit(s@, he + 1);
        lemma_run_end_digit(s@, me + 1);
        lemma_run_end_digit(s@, ns as int);
    }
    let hour = small_digits_val(s, hs, he);
    let minute = small_digits_val(s, he + 1, me);
    let second = small_digits_val(s, me + 1, se);
    let pm = s[ap] == 'P';
    let off = offset_eff(s, ns, ne, neg);
    Some(TsExec { date_end: ye, hour, minute, second, pm, off })
}

/// The first template occurrence in `s`.
fn find_template(s: &Vec<char>) -> (r: Option<(usize, TsExec)>)
    ensures
        match r {
            Some(p) => ts_find_from(s@, 0) matches Some(im) && im.0 == p.0 as int
                && ts_exec_matches(p.1, im.1),
            None => ts_find_from(s@, 0) is None,
        },
{
    let slen: usize = s.len();
    let mut i: usize = 0;
    while i < slen
        invariant
            0 <= i <= slen,
            slen == s@.len(),
            ts_find_from(s@, 0) == ts_find_from(s@, i as int),
        decreases slen - i,
    {
        match try_ts_match(s, i) {
            Some(t) => {
                return Some((i, t));
            },
            None => {},
        }
        i = i + 1;
    }
    None
}

/// A template occurrence's date text has the exact shape the date parser is
/// given: word run, space, one or two digits, comma and space, four digits.
proof fn lemma_date_shape(s: Seq<char>, i: int)
    requires
        ts_match_at(s, i) is Some,
    ensures
        ({
            let m = ts_match_at(s, i)->Some_0;
            &&& i + 1 <= m.date_end <= s.len()
            &&& date_text_shape(s.subrange(i, m.date_end))
        }),
{
    let we = run_end_word(s, i);
    let de = run_end_digit(s, we + 1);
    let ye = run_end_digit(s, de + 2);
    lemma_run_end_word(s, i);
    lemma_run_end_digit(s, we + 1);
    lemma_run_end_digit(s, de + 2);
    let t = s.subrange(i, ye);
    assert forall|k: int| 0 <= k < we - i implies is_word(t[k]) by {
        assert(t[k] == s[i + k]);
    }
    assert(t[we - i] == s[we]);
    assert(!is_word(' '));
    lemma_run_unique_word(t, 0, we - i);
    assert forall|k: int| we - i + 1 <= k < de - i implies is_digit(t[k]) by {
        assert(t[k] == s[i + k]);
    }
    assert(t[de - i] == s[de]);
    assert(!is_digit(','));
    lemma_run_unique_digit(t, we - i + 1, de - i);
    assert forall|k: int| de - i + 2 <= k < ye - i implies is_digit(t[k]) by {
        assert(t[k] == s[i + k]);
    }
    lemma_run_unique_digit(t, de - i + 2, ye - i);
    assert(t[de - i + 1] == s[de + 1]);
    assert(date_text_shape(t));
}

// ---------------------------------------------------------------------------
// The normalizer
// ---------------------------------------------------------------------------

/// Convert a raw locale-formatted timestamp into the canonical
/// date-time-with-offset form `YYYY-MM-DDTHH:MM:SS±HH:00`. Text in which the
/// template does not occur, or whose date names no valid calendar date,
/// passes through unchanged.
pub fn parse_and_format_timestamp(raw_timestamp: &str) -> (r: String)
    ensures
        r@ == normalized_of(raw_timestamp@),
{
    let rawv = chars_of(raw_timestamp);
    let cleaned = nbsp_clean_vec(&rawv);
    match find_template(&cleaned) {
        None => string_of(&rawv),
        Some(p) => {
            let (i, t) = p;
            proof {
                lemma_ts_find_from(cleaned@, 0);
                lemma_date_shape(cleaned@, i as int);
            }
            let date = subvec(&cleaned, i, t.date_end);
            let date_s = string_of(&date);
            match parse_month_day_year(date_s.as_str()) {
                None => string_of(&rawv),
                Some(ymd) => {
                    let (y, mo, d) = ymd;
                    let h24: u32 = if t.pm && t.hour != 12 {
                        t.hour + 12
                    } else if !t.pm && t.hour == 12 {
                        0
                    } else {
                        t.hour
                    };
                    let valid = h24 <= 23 && t.minute <= 59 && t.second <= 59;
                    let hh: u32 = if valid {
                        h24
                    } else {
                        0
                    };
                    let mm: u32 = if valid {
                        t.minute
                    } else {
                        0
                    };
                    let ss: u32 = if valid {
                        t.second
                    } else {
                        0
                    };
                    let out = format_rfc3339(y as u32, mo as u32, d as u32, hh, mm, ss, t.off);
                    string_of(&out)
                },
            }
        },
    }
}

} // verus!

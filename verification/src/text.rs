//! Verified utilities over character sequences: substring search, splitting,
//! line iteration, whitespace trimming, and digit runs.
//!
//! Executable functions work on `Vec<char>`; every contract is stated over
//! the corresponding `Seq<char>` model.

use vstd::prelude::*;
use vstd::string::StrSliceExecFns;

verus! {

// ---------------------------------------------------------------------------
// Character classes
// ---------------------------------------------------------------------------

/// The Unicode `White_Space` characters, the set used by `str::trim`.
pub open spec fn is_ws(c: char) -> bool {
    ||| (0x09 <= c as u32 && c as u32 <= 0x0d)
    ||| c == ' '
    ||| c as u32 == 0x85
    ||| c as u32 == 0xa0
    ||| c as u32 == 0x1680
    ||| (0x2000 <= c as u32 && c as u32 <= 0x200a)
    ||| c as u32 == 0x2028
    ||| c as u32 == 0x2029
    ||| c as u32 == 0x202f
    ||| c as u32 == 0x205f
    ||| c as u32 == 0x3000
}

/// ASCII decimal digit. The class is deliberately ASCII: the figures the
/// pipeline's templates read (days, years, clock values, offsets, the reply
/// label's count) are ASCII digits.
pub open spec fn is_digit(c: char) -> bool {
    '0' <= c && c <= '9'
}

/// ASCII word character: letter, digit or underscore. The class is
/// deliberately ASCII: the one template that reads a word reads a month
/// name, and the date parser accepts English month names only.
pub open spec fn is_word(c: char) -> bool {
    ||| ('a' <= c && c <= 'z')
    ||| ('A' <= c && c <= 'Z')
    ||| is_digit(c)
    ||| c == '_'
}

/// Numeric value of an ASCII digit.
pub open spec fn digit_val(c: char) -> int {
    c as u32 - '0' as u32
}

pub fn ws_char(c: char) -> (r: bool)
    ensures
        r == is_ws(c),
{
    let n: u32 = c as u32;
    (0x09 <= n && n <= 0x0d) || n == 0x20 || n == 0x85 || n == 0xa0 || n == 0x1680 || (0x2000 <= n
        && n <= 0x200a) || n == 0x2028 || n == 0x2029 || n == 0x202f || n == 0x205f || n == 0x3000
}

pub fn digit_char(c: char) -> (r: bool)
    ensures
        r == is_digit(c),
{
    '0' <= c && c <= '9'
}

pub fn word_char(c: char) -> (r: bool)
    ensures
        r == is_word(c),
{
    ('a' <= c && c <= 'z') || ('A' <= c && c <= 'Z') || ('0' <= c && c <= '9') || c == '_'
}

// ---------------------------------------------------------------------------
// Substring search
// ---------------------------------------------------------------------------

/// True when `pat` occurs in `s` starting exactly at index `i`.
pub open spec fn is_match_at(s: Seq<char>, pat: Seq<char>, i: int) -> bool {
    0 <= i && i + pat.len() <= s.len() && s.subrange(i, i + pat.len() as int) == pat
}

/// Index of the first occurrence of `pat` in `s` at or after `from`.
pub open spec fn spec_find_from(s: Seq<char>, pat: Seq<char>, from: int) -> Option<int>
    decreases s.len() - from,
    when 0 <= from
{
    if pat.len() == 0 {
        if from <= s.len() {
            Some(from)
        } else {
            None
        }
    } else if from + pat.len() > s.len() {
        None
    } else if is_match_at(s, pat, from) {
        Some(from)
    } else {
        spec_find_from(s, pat, from + 1)
    }
}

/// `pat` occurs somewhere in `s`.
pub open spec fn contains_seq(s: Seq<char>, pat: Seq<char>) -> bool {
    spec_find_from(s, pat, 0) is Some
}

/// The result of `spec_find_from` is a first match: a match in range, with no
/// earlier match at or after `from`; `None` means no match at all.
pub proof fn lemma_find_from(s: Seq<char>, pat: Seq<char>, from: int)
    requires
        0 <= from,
    ensures
        match spec_find_from(s, pat, from) {
            Some(i) => from <= i && is_match_at(s, pat, i) && (forall|j: int|
                from <= j < i ==> !is_match_at(s, pat, j)),
            None => forall|j: int| from <= j ==> !is_match_at(s, pat, j),
        },
    decreases s.len() - from,
{
    if pat.len() == 0 {
        if from <= s.len() {
            assert(s.subrange(from, from + pat.len() as int) =~= pat);
        }
    } else if from + pat.len() > s.len() {
        assert(forall|j: int| from <= j ==> !is_match_at(s, pat, j));
    } else if is_match_at(s, pat, from) {
    } else {
        lemma_find_from(s, pat, from + 1);
    }
}

/// Searching from `from` equals searching from `mid` when no match starts
/// before `mid`.
pub proof fn lemma_find_from_skip(s: Seq<char>, pat: Seq<char>, from: int, mid: int)
    requires
        pat.len() > 0,
        0 <= from <= mid,
        forall|j: int| from <= j < mid ==> !is_match_at(s, pat, j),
    ensures
        spec_find_from(s, pat, from) == spec_find_from(s, pat, mid),
    decreases mid - from,
{
    if from < mid {
        if from + pat.len() > s.len() {
            assert(mid + pat.len() > s.len());
            assert(spec_find_from(s, pat, mid) is None);
        } else {
            lemma_find_from_skip(s, pat, from + 1, mid);
        }
    }
}

/// True when `pat` occurs in `s` starting exactly at index `i`.
pub fn match_at(s: &Vec<char>, pat: &Vec<char>, i: usize) -> (r: bool)
    requires
        i + pat@.len() <= s@.len(),
    ensures
        r == is_match_at(s@, pat@, i as int),
{
    let slen: usize = s.len();
    let mut k: usize = 0;
    while k < pat.len()
        invariant
            0 <= k <= pat@.len(),
            i + pat@.len() <= s@.len(),
            slen == s@.len(),
            s@.subrange(i as int, i + k) =~= pat@.subrange(0, k as int),
        decreases pat@.len() - k,
    {
        if s[i + k] != pat[k] {
            proof {
                if is_match_at(s@, pat@, i as int) {
                    assert(s@.subrange(i as int, i + pat@.len())[k as int] == pat@[k as int]);
                    assert(false);
                }
            }
            return false;
        }
        proof {
            assert(s@.subrange(i as int, i + k + 1) =~= s@.subrange(i as int, i + k).push(
                s@[i + k],
            ));
            assert(pat@.subrange(0, k + 1) =~= pat@.subrange(0, k as int).push(pat@[k as int]));
        }
        k = k + 1;
    }
    proof {
        assert(s@.subrange(i as int, i + pat@.len()) =~= pat@.subrange(0, pat@.len() as int));
        assert(pat@.subrange(0, pat@.len() as int) =~= pat@);
    }
    true
}

/// First occurrence of `pat` in `s` at or after `from`, or `None`.
pub fn find_from(s: &Vec<char>, pat: &Vec<char>, from: usize) -> (r: Option<usize>)
    requires
        from <= s@.len(),
    ensures
        match r {
            Some(i) => from <= i && Some(i as int) == spec_find_from(s@, pat@, from as int),
            None => spec_find_from(s@, pat@, from as int) is None,
        },
{
    if pat.len() == 0 {
        return Some(from);
    }
    if pat.len() > s.len() || from > s.len() - pat.len() {
        proof {
            lemma_find_from_bound(s@, pat@, from as int);
        }
        return None;
    }
    let slen: usize = s.len();
    let last: usize = slen - pat.len();
    let mut i: usize = from;
    while i <= last
        invariant
            from <= i <= last + 1,
            0 < pat@.len() <= s@.len(),
            slen == s@.len(),
            last == s@.len() - pat@.len(),
            spec_find_from(s@, pat@, from as int) == spec_find_from(s@, pat@, i as int),
        decreases last + 1 - i,
    {
        if match_at(s, pat, i) {
            return Some(i);
        }
        proof {
            lemma_find_from_skip(s@, pat@, i as int, i + 1);
        }
        i = i + 1;
    }
    proof {
        lemma_find_from_bound(s@, pat@, i as int);
    }
    None
}

/// When too little of `s` remains, there is no match.
proof fn lemma_find_from_bound(s: Seq<char>, pat: Seq<char>, from: int)
    requires
        0 <= from,
        from + pat.len() > s.len(),
    ensures
        spec_find_from(s, pat, from) is None,
{
}

/// A first match found in `s` at or after `from`, characterised positionally,
/// is what `spec_find_from` returns.
pub proof fn lemma_find_unique(s: Seq<char>, pat: Seq<char>, from: int, i: int)
    requires
        0 <= from <= i,
        is_match_at(s, pat, i),
        forall|j: int| from <= j < i ==> !is_match_at(s, pat, j),
    ensures
        spec_find_from(s, pat, from) == Some(i),
{
    lemma_find_from(s, pat, from);
    match spec_find_from(s, pat, from) {
        Some(k) => {
            if k < i {
                assert(!is_match_at(s, pat, k));
            }
            if k > i {
                assert(!is_match_at(s, pat, i));
            }
        },
        None => {
            assert(!is_match_at(s, pat, i));
        },
    }
}

/// Matching in the suffix `s[b..]` is matching in `s` shifted by `b`.
pub proof fn lemma_match_shift(s: Seq<char>, pat: Seq<char>, b: int, j: int)
    requires
        0 <= b <= s.len(),
        0 <= j,
    ensures
        is_match_at(s.subrange(b, s.len() as int), pat, j) == is_match_at(s, pat, b + j),
{
    let t = s.subrange(b, s.len() as int);
    if j + pat.len() <= t.len() {
        assert(t.subrange(j, j + pat.len() as int) =~= s.subrange(b + j, b + j + pat.len() as int));
    }
}

/// Searching in the suffix `s[b..]` finds the same first occurrence as
/// searching in `s` from `b`, shifted by `b`.
pub proof fn lemma_find_suffix(s: Seq<char>, pat: Seq<char>, b: int)
    requires
        0 <= b <= s.len(),
    ensures
        ({
            let t = s.subrange(b, s.len() as int);
            match spec_find_from(t, pat, 0) {
                None => spec_find_from(s, pat, b) is None,
                Some(j) => spec_find_from(s, pat, b) == Some(b + j),
            }
        }),
{
    let t = s.subrange(b, s.len() as int);
    lemma_find_from(t, pat, 0);
    assert forall|j: int| 0 <= j implies is_match_at(t, pat, j) == is_match_at(s, pat, b + j) by {
        lemma_match_shift(s, pat, b, j);
    }
    match spec_find_from(t, pat, 0) {
        None => {
            lemma_find_from(s, pat, b);
            if spec_find_from(s, pat, b) is Some {
                let i = spec_find_from(s, pat, b)->Some_0;
                assert(!is_match_at(t, pat, i - b));
            }
        },
        Some(j) => {
            assert forall|k: int| b <= k < b + j implies !is_match_at(s, pat, k) by {
                assert(!is_match_at(t, pat, k - b));
            }
            lemma_find_unique(s, pat, b, b + j);
        },
    }
}

// ---------------------------------------------------------------------------
// Splitting on a delimiter
// ---------------------------------------------------------------------------

/// The views of a sequence of character vectors.
pub open spec fn views_of(vs: Seq<Vec<char>>) -> Seq<Seq<char>> {
    vs.map_values(|v: Vec<char>| v@)
}

pub proof fn lemma_views_push(vs: Seq<Vec<char>>, v: Vec<char>)
    ensures
        views_of(vs.push(v)) =~= views_of(vs).push(v@),
{
}

/// The pieces of `s` between non-overlapping occurrences of `d`, found left
/// to right: the semantics of `str::split` for a non-empty needle.
pub open spec fn spec_split(s: Seq<char>, d: Seq<char>) -> Seq<Seq<char>>
    decreases s.len(),
    when d.len() > 0
    via spec_split_decreases
{
    match spec_find_from(s, d, 0) {
        None => seq![s],
        Some(i) => seq![s.subrange(0, i)] + spec_split(
            s.subrange(i + d.len(), s.len() as int),
            d,
        ),
    }
}

#[via_fn]
proof fn spec_split_decreases(s: Seq<char>, d: Seq<char>) {
    lemma_find_from(s, d, 0);
}

/// A split always yields at least one piece.
pub proof fn lemma_split_len(s: Seq<char>, d: Seq<char>)
    requires
        d.len() > 0,
    ensures
        spec_split(s, d).len() >= 1,
{
    lemma_find_from(s, d, 0);
}

/// When `d` does not occur in `s`, the split is the single piece `s`.
pub proof fn lemma_split_whole(s: Seq<char>, d: Seq<char>)
    requires
        d.len() > 0,
        !contains_seq(s, d),
    ensures
        spec_split(s, d) =~= seq![s],
{
}

/// Split `s` on the delimiter `d`, left to right.
pub fn split_by(s: &Vec<char>, d: &Vec<char>) -> (r: Vec<Vec<char>>)
    requires
        d@.len() > 0,
    ensures
        views_of(r@) == spec_split(s@, d@),
{
    let slen: usize = s.len();
    let mut r: Vec<Vec<char>> = Vec::new();
    let mut start: usize = 0;
    proof {
        assert(s@.subrange(0, s@.len() as int) =~= s@);
        assert(views_of(r@) + spec_split(s@, d@) =~= spec_split(s@, d@));
    }
    loop
        invariant
            0 <= start <= s@.len(),
            slen == s@.len(),
            d@.len() > 0,
            spec_split(s@, d@) =~= views_of(r@) + spec_split(
                s@.subrange(start as int, s@.len() as int),
                d@,
            ),
        decreases s@.len() - start + 1,
    {
        let ghost t = s@.subrange(start as int, s@.len() as int);
        proof {
            lemma_find_suffix(s@, d@, start as int);
        }
        match find_from(s, d, start) {
            None => {
                let piece = subvec(s, start, slen);
                proof {
                    lemma_views_push(r@, piece);
                    assert(spec_split(t, d@) =~= seq![t]);
                    assert(views_of(r@).push(piece@) =~= views_of(r@) + seq![t]);
                }
                r.push(piece);
                return r;
            },
            Some(i) => {
                proof {
                    lemma_find_from(s@, d@, start as int);
                }
                let piece = subvec(s, start, i);
                let ghost r0 = r@;
                r.push(piece);
                proof {
                    let j = i - start;
                    assert(spec_find_from(t, d@, 0) == Some(j)) by {
                        lemma_find_suffix(s@, d@, start as int);
                    }
                    assert(t.subrange(0, j) =~= s@.subrange(start as int, i as int));
                    assert(t.subrange(j + d@.len(), t.len() as int) =~= s@.subrange(
                        i + d@.len(),
                        s@.len() as int,
                    ));
                    lemma_views_push(r0, piece);
                    assert(spec_split(s@, d@) =~= views_of(r@) + spec_split(
                        s@.subrange(i + d@.len(), s@.len() as int),
                        d@,
                    ));
                }
                start = i + d.len();
            },
        }
    }
}

/// Copy of `s[i..j]`.
pub fn subvec(s: &Vec<char>, i: usize, j: usize) -> (r: Vec<char>)
    requires
        i <= j <= s@.len(),
    ensures
        r@ == s@.subrange(i as int, j as int),
{
    let mut r: Vec<char> = Vec::new();
    let mut k: usize = i;
    while k < j
        invariant
            i <= k <= j <= s@.len(),
            r@ == s@.subrange(i as int, k as int),
        decreases j - k,
    {
        r.push(s[k]);
        proof {
            assert(s@.subrange(i as int, k + 1) =~= s@.subrange(i as int, k as int).push(s@[k as int]));
        }
        k = k + 1;
    }
    r
}

/// Append all of `src` to `dst`.
pub fn push_all(dst: &mut Vec<char>, src: &Vec<char>)
    ensures
        final(dst)@ == old(dst)@ + src@,
{
    let mut k: usize = 0;
    while k < src.len()
        invariant
            0 <= k <= src@.len(),
            dst@ == old(dst)@ + src@.subrange(0, k as int),
        decreases src@.len() - k,
    {
        dst.push(src[k]);
        proof {
            assert(old(dst)@ + src@.subrange(0, k + 1) =~= (old(dst)@ + src@.subrange(
                0,
                k as int,
            )).push(src@[k as int]));
        }
        k = k + 1;
    }
    proof {
        assert(src@.subrange(0, src@.len() as int) =~= src@);
    }
}

// ---------------------------------------------------------------------------
// Lines
// ---------------------------------------------------------------------------

/// Drop one trailing carriage return, as `str::lines` does on each line that
/// ended with a line feed.
pub open spec fn strip_cr(l: Seq<char>) -> Seq<char> {
    if l.len() > 0 && l.last() == '\r' {
        l.drop_last()
    } else {
        l
    }
}

/// The lines of `s`, the semantics of `str::lines`: pieces before each line
/// feed, stripped of one trailing carriage return; what follows the last line
/// feed is a final line unless it is empty, and keeps any carriage return.
pub open spec fn spec_lines(s: Seq<char>) -> Seq<Seq<char>>
    decreases s.len(),
    via spec_lines_decreases
{
    if s.len() == 0 {
        Seq::empty()
    } else {
        match spec_find_from(s, seq!['\n'], 0) {
            None => seq![s],
            Some(i) => seq![strip_cr(s.subrange(0, i))] + spec_lines(
                s.subrange(i + 1, s.len() as int),
            ),
        }
    }
}

#[via_fn]
proof fn spec_lines_decreases(s: Seq<char>) {
    lemma_find_from(s, seq!['\n'], 0);
}

/// Copy of `v` with one trailing carriage return removed.
pub fn strip_cr_vec(v: &Vec<char>) -> (r: Vec<char>)
    ensures
        r@ == strip_cr(v@),
{
    let n: usize = v.len();
    if n > 0 && v[n - 1] == '\r' {
        let r = subvec(v, 0, n - 1);
        proof {
            assert(v@.subrange(0, n - 1) =~= v@.drop_last());
        }
        r
    } else {
        let r = subvec(v, 0, n);
        proof {
            assert(v@.subrange(0, n as int) =~= v@);
        }
        r
    }
}

/// The lines of `s`, as `str::lines` yields them.
pub fn split_lines(s: &Vec<char>) -> (r: Vec<Vec<char>>)
    ensures
        views_of(r@) == spec_lines(s@),
{
    let slen: usize = s.len();
    let mut nl: Vec<char> = Vec::new();
    nl.push('\n');
    proof {
        assert(nl@ =~= seq!['\n']);
    }
    let mut r: Vec<Vec<char>> = Vec::new();
    let mut start: usize = 0;
    proof {
        assert(s@.subrange(0, s@.len() as int) =~= s@);
        assert(views_of(r@) + spec_lines(s@) =~= spec_lines(s@));
    }
    loop
        invariant
            0 <= start <= s@.len(),
            slen == s@.len(),
            nl@ == seq!['\n'],
            spec_lines(s@) =~= views_of(r@) + spec_lines(s@.subrange(start as int, s@.len() as int)),
        decreases s@.len() - start + 1,
    {
        let ghost t = s@.subrange(start as int, s@.len() as int);
        proof {
            lemma_find_suffix(s@, nl@, start as int);
        }
        match find_from(s, &nl, start) {
            None => {
                if start < slen {
                    let piece = subvec(s, start, slen);
                    proof {
                        lemma_views_push(r@, piece);
                        assert(spec_lines(t) =~= seq![t]);
                        assert(views_of(r@).push(piece@) =~= views_of(r@) + seq![t]);
                    }
                    r.push(piece);
                } else {
                    proof {
                        assert(t.len() == 0);
                        assert(views_of(r@) + spec_lines(t) =~= views_of(r@));
                    }
                }
                return r;
            },
            Some(i) => {
                proof {
                    lemma_find_from(s@, nl@, start as int);
                }
                let raw = subvec(s, start, i);
                let piece = strip_cr_vec(&raw);
                let ghost r0 = r@;
                r.push(piece);
                proof {
                    let j = i - start;
                    assert(spec_find_from(t, nl@, 0) == Some(j)) by {
                        lemma_find_suffix(s@, nl@, start as int);
                    }
                    assert(t.len() > 0);
                    assert(t.subrange(0, j) =~= s@.subrange(start as int, i as int));
                    assert(t.subrange(j + 1, t.len() as int) =~= s@.subrange(
                        i + 1,
                        s@.len() as int,
                    ));
                    lemma_views_push(r0, piece);
                    assert(spec_lines(s@) =~= views_of(r@) + spec_lines(
                        s@.subrange(i + 1, s@.len() as int),
                    ));
                }
                start = i + 1;
            },
        }
    }
}

// ---------------------------------------------------------------------------
// Trimming
// ---------------------------------------------------------------------------

/// `s` without leading whitespace.
pub open spec fn spec_trim_start(s: Seq<char>) -> Seq<char>
    decreases s.len(),
{
    if s.len() > 0 && is_ws(s[0]) {
        spec_trim_start(s.drop_first())
    } else {
        s
    }
}

/// `s` without trailing whitespace.
pub open spec fn spec_trim_end(s: Seq<char>) -> Seq<char>
    decreases s.len(),
{
    if s.len() > 0 && is_ws(s.last()) {
        spec_trim_end(s.drop_last())
    } else {
        s
    }
}

/// `s` without leading and trailing whitespace: the semantics of `str::trim`.
pub open spec fn spec_trim(s: Seq<char>) -> Seq<char> {
    spec_trim_end(spec_trim_start(s))
}

/// Copy of `s` without trailing whitespace.
pub fn trim_end_chars(s: &Vec<char>) -> (r: Vec<char>)
    ensures
        r@ == spec_trim_end(s@),
{
    let mut b: usize = s.len();
    proof {
        assert(s@.subrange(0, s@.len() as int) =~= s@);
    }
    while b > 0 && ws_char(s[b - 1])
        invariant
            0 <= b <= s@.len(),
            spec_trim_end(s@) == spec_trim_end(s@.subrange(0, b as int)),
        decreases b,
    {
        proof {
            assert(s@.subrange(0, b as int).last() == s@[b - 1]);
            assert(s@.subrange(0, b as int).drop_last() =~= s@.subrange(0, b - 1));
        }
        b = b - 1;
    }
    subvec(s, 0, b)
}

/// Copy of `s` without leading whitespace.
pub fn trim_start_chars(s: &Vec<char>) -> (r: Vec<char>)
    ensures
        r@ == spec_trim_start(s@),
{
    let slen: usize = s.len();
    let mut a: usize = 0;
    proof {
        assert(s@.subrange(0, s@.len() as int) =~= s@);
    }
    while a < slen && ws_char(s[a])
        invariant
            0 <= a <= s@.len(),
            slen == s@.len(),
            spec_trim_start(s@) == spec_trim_start(s@.subrange(a as int, s@.len() as int)),
        decreases slen - a,
    {
        proof {
            assert(s@.subrange(a as int, s@.len() as int)[0] == s@[a as int]);
            assert(s@.subrange(a as int, s@.len() as int).drop_first() =~= s@.subrange(
                a + 1,
                s@.len() as int,
            ));
        }
        a = a + 1;
    }
    subvec(s, a, slen)
}

/// Copy of `s` without leading and trailing whitespace.
pub fn trim_chars(s: &Vec<char>) -> (r: Vec<char>)
    ensures
        r@ == spec_trim(s@),
{
    let t = trim_start_chars(s);
    trim_end_chars(&t)
}

/// `s` without leading occurrences of `q`.
pub open spec fn spec_trim_char_start(s: Seq<char>, q: char) -> Seq<char>
    decreases s.len(),
{
    if s.len() > 0 && s[0] == q {
        spec_trim_char_start(s.drop_first(), q)
    } else {
        s
    }
}

/// `s` without trailing occurrences of `q`.
pub open spec fn spec_trim_char_end(s: Seq<char>, q: char) -> Seq<char>
    decreases s.len(),
{
    if s.len() > 0 && s.last() == q {
        spec_trim_char_end(s.drop_last(), q)
    } else {
        s
    }
}

/// `s` without leading and trailing occurrences of `q`: the semantics of
/// `str::trim_matches` on a single-character pattern.
pub open spec fn spec_trim_char(s: Seq<char>, q: char) -> Seq<char> {
    spec_trim_char_end(spec_trim_char_start(s, q), q)
}

/// Copy of `s` without leading and trailing occurrences of `q`.
pub fn trim_char_chars(s: &Vec<char>, q: char) -> (r: Vec<char>)
    ensures
        r@ == spec_trim_char(s@, q),
{
    let slen: usize = s.len();
    let mut a: usize = 0;
    proof {
        assert(s@.subrange(0, s@.len() as int) =~= s@);
    }
    while a < slen && s[a] == q
        invariant
            0 <= a <= s@.len(),
            slen == s@.len(),
            spec_trim_char_start(s@, q) == spec_trim_char_start(
                s@.subrange(a as int, s@.len() as int),
                q,
            ),
        decreases slen - a,
    {
        proof {
            assert(s@.subrange(a as int, s@.len() as int)[0] == s@[a as int]);
            assert(s@.subrange(a as int, s@.len() as int).drop_first() =~= s@.subrange(
                a + 1,
                s@.len() as int,
            ));
        }
        a = a + 1;
    }
    let ghost t = spec_trim_char_start(s@, q);
    proof {
        assert(t == s@.subrange(a as int, s@.len() as int));
    }
    let mut b: usize = slen;
    proof {
        assert(s@.subrange(a as int, b as int) =~= t);
    }
    while b > a && s[b - 1] == q
        invariant
            a <= b <= s@.len(),
            slen == s@.len(),
            t == spec_trim_char_start(s@, q),
            spec_trim_char_end(t, q) == spec_trim_char_end(s@.subrange(a as int, b as int), q),
        decreases b,
    {
        proof {
            assert(s@.subrange(a as int, b as int).last() == s@[b - 1]);
            assert(s@.subrange(a as int, b as int).drop_last() =~= s@.subrange(a as int, b - 1));
        }
        b = b - 1;
    }
    subvec(s, a, b)
}

// ---------------------------------------------------------------------------
// Runs and digit values
// ---------------------------------------------------------------------------

/// End of the run of ASCII digits that starts at `i`.
pub open spec fn run_end_digit(s: Seq<char>, i: int) -> int
    decreases s.len() - i,
    when 0 <= i <= s.len()
{
    if i < s.len() && is_digit(s[i]) {
        run_end_digit(s, i + 1)
    } else {
        i
    }
}

/// End of the run of ASCII word characters that starts at `i`.
pub open spec fn run_end_word(s: Seq<char>, i: int) -> int
    decreases s.len() - i,
    when 0 <= i <= s.len()
{
    if i < s.len() && is_word(s[i]) {
        run_end_word(s, i + 1)
    } else {
        i
    }
}

pub proof fn lemma_run_end_digit(s: Seq<char>, i: int)
    requires
        0 <= i <= s.len(),
    ensures
        i <= run_end_digit(s, i) <= s.len(),
        forall|k: int| i <= k < run_end_digit(s, i) ==> is_digit(s[k]),
        run_end_digit(s, i) == s.len() || !is_digit(s[run_end_digit(s, i)]),
    decreases s.len() - i,
{
    if i < s.len() && is_digit(s[i]) {
        lemma_run_end_digit(s, i + 1);
    }
}

pub proof fn lemma_run_end_word(s: Seq<char>, i: int)
    requires
        0 <= i <= s.len(),
    ensures
        i <= run_end_word(s, i) <= s.len(),
        forall|k: int| i <= k < run_end_word(s, i) ==> is_word(s[k]),
        run_end_word(s, i) == s.len() || !is_word(s[run_end_word(s, i)]),
    decreases s.len() - i,
{
    if i < s.len() && is_word(s[i]) {
        lemma_run_end_word(s, i + 1);
    }
}

/// A maximal digit run determines `run_end_digit`.
pub proof fn lemma_run_unique_digit(s: Seq<char>, i: int, e: int)
    requires
        0 <= i <= e <= s.len(),
        forall|k: int| i <= k < e ==> is_digit(s[k]),
        e == s.len() || !is_digit(s[e]),
    ensures
        run_end_digit(s, i) == e,
    decreases e - i,
{
    if i < e {
        lemma_run_unique_digit(s, i + 1, e);
    }
}

/// A maximal word-character run determines `run_end_word`.
pub proof fn lemma_run_unique_word(s: Seq<char>, i: int, e: int)
    requires
        0 <= i <= e <= s.len(),
        forall|k: int| i <= k < e ==> is_word(s[k]),
        e == s.len() || !is_word(s[e]),
    ensures
        run_end_word(s, i) == e,
    decreases e - i,
{
    if i < e {
        lemma_run_unique_word(s, i + 1, e);
    }
}

/// End of the digit run starting at `i`.
pub fn digit_run_end(s: &Vec<char>, i: usize) -> (r: usize)
    requires
        i <= s@.len(),
    ensures
        r == run_end_digit(s@, i as int),
        i <= r <= s@.len(),
{
    let slen: usize = s.len();
    let mut j: usize = i;
    while j < slen && digit_char(s[j])
        invariant
            i <= j <= s@.len(),
            slen == s@.len(),
            run_end_digit(s@, i as int) == run_end_digit(s@, j as int),
        decreases slen - j,
    {
        j = j + 1;
    }
    proof {
        lemma_run_end_digit(s@, i as int);
    }
    j
}

/// End of the word-character run starting at `i`.
pub fn word_run_end(s: &Vec<char>, i: usize) -> (r: usize)
    requires
        i <= s@.len(),
    ensures
        r == run_end_word(s@, i as int),
        i <= r <= s@.len(),
{
    let slen: usize = s.len();
    let mut j: usize = i;
    while j < slen && word_char(s[j])
        invariant
            i <= j <= s@.len(),
            slen == s@.len(),
            run_end_word(s@, i as int) == run_end_word(s@, j as int),
        decreases slen - j,
    {
        j = j + 1;
    }
    proof {
        lemma_run_end_word(s@, i as int);
    }
    j
}

/// End of the run of whitespace characters that starts at `i`.
pub open spec fn run_end_ws(s: Seq<char>, i: int) -> int
    decreases s.len() - i,
    when 0 <= i <= s.len()
{
    if i < s.len() && is_ws(s[i]) {
        run_end_ws(s, i + 1)
    } else {
        i
    }
}

pub proof fn lemma_run_end_ws(s: Seq<char>, i: int)
    requires
        0 <= i <= s.len(),
    ensures
        i <= run_end_ws(s, i) <= s.len(),
    decreases s.len() - i,
{
    if i < s.len() && is_ws(s[i]) {
        lemma_run_end_ws(s, i + 1);
    }
}

/// End of the whitespace run starting at `i`.
pub fn ws_run_end(s: &Vec<char>, i: usize) -> (r: usize)
    requires
        i <= s@.len(),
    ensures
        r == run_end_ws(s@, i as int),
        i <= r <= s@.len(),
{
    let slen: usize = s.len();
    let mut j: usize = i;
    while j < slen && ws_char(s[j])
        invariant
            i <= j <= s@.len(),
            slen == s@.len(),
            run_end_ws(s@, i as int) == run_end_ws(s@, j as int),
        decreases slen - j,
    {
        j = j + 1;
    }
    proof {
        lemma_run_end_ws(s@, i as int);
    }
    j
}

/// Numeric value of a sequence of ASCII digits, most significant first.
pub open spec fn digits_val(s: Seq<char>) -> int
    decreases s.len(),
{
    if s.len() == 0 {
        0
    } else {
        digits_val(s.drop_last()) * 10 + digit_val(s.last())
    }
}

// ---------------------------------------------------------------------------
// Single characters
// ---------------------------------------------------------------------------

/// `c` occurs in `s` at an index in `[a, b)`.
pub open spec fn has_char_between(s: Seq<char>, c: char, a: int, b: int) -> bool {
    exists|k: int| a <= k < b && 0 <= k < s.len() && s[k] == c
}

pub fn char_between(s: &Vec<char>, c: char, a: usize, b: usize) -> (r: bool)
    requires
        a <= b <= s@.len(),
    ensures
        r == has_char_between(s@, c, a as int, b as int),
{
    let mut k: usize = a;
    while k < b
        invariant
            a <= k <= b <= s@.len(),
            forall|j: int| a <= j < k ==> s@[j] != c,
        decreases b - k,
    {
        if s[k] == c {
            return true;
        }
        k = k + 1;
    }
    false
}

// ---------------------------------------------------------------------------
// Bridging &str and Vec<char>
// ---------------------------------------------------------------------------

/// The characters of `s` as a vector.
pub fn chars_of(s: &str) -> (r: Vec<char>)
    ensures
        r@ == s@,
{
    let n: usize = s.unicode_len();
    let mut r: Vec<char> = Vec::new();
    let mut i: usize = 0;
    while i < n
        invariant
            0 <= i <= n,
            n == s@.len(),
            r@ == s@.subrange(0, i as int),
        decreases n - i,
    {
        r.push(s.get_char(i));
        proof {
            assert(s@.subrange(0, i + 1) =~= s@.subrange(0, i as int).push(s@[i as int]));
        }
        i = i + 1;
    }
    proof {
        assert(s@.subrange(0, s@.len() as int) =~= s@);
    }
    r
}

/// The two vectors hold the same characters.
pub fn seq_eq(a: &Vec<char>, b: &Vec<char>) -> (r: bool)
    ensures
        r == (a@ == b@),
{
    if a.len() != b.len() {
        return false;
    }
    let n: usize = a.len();
    let mut k: usize = 0;
    while k < n
        invariant
            0 <= k <= n,
            n == a@.len() == b@.len(),
            forall|j: int| 0 <= j < k ==> a@[j] == b@[j],
        decreases n - k,
    {
        if a[k] != b[k] {
            return false;
        }
        k = k + 1;
    }
    proof {
        assert(a@ =~= b@);
    }
    true
}

} // verus!

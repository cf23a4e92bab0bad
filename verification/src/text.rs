//! Character-sequence processing that the rest of the library is specified
//! over: splitting, trimming, joining, substring search and replacement,
//! decimal parsing and formatting. Every executable function mirrors the
//! spec function that defines it.

use vstd::prelude::*;

verus! {

// ---------------------------------------------------------------------------
// character classes
// ---------------------------------------------------------------------------

/// The Unicode White_Space set, as `char::is_whitespace` recognises it.
pub open spec fn spec_is_space(c: char) -> bool {
    c == ' ' || c == '\t' || c == '\n' || c == '\r' || c == '\x0b' || c == '\x0c'
        || c == '\u{85}' || c == '\u{a0}' || c == '\u{1680}'
        || ('\u{2000}' <= c && c <= '\u{200a}')
        || c == '\u{2028}' || c == '\u{2029}' || c == '\u{202f}' || c == '\u{205f}'
        || c == '\u{3000}'
}

pub fn is_space(c: char) -> (r: bool)
    ensures
        r == spec_is_space(c),
{
    c == ' ' || c == '\t' || c == '\n' || c == '\r' || c == '\x0b' || c == '\x0c'
        || c == '\u{85}' || c == '\u{a0}' || c == '\u{1680}'
        || ('\u{2000}' <= c && c <= '\u{200a}')
        || c == '\u{2028}' || c == '\u{2029}' || c == '\u{202f}' || c == '\u{205f}'
        || c == '\u{3000}'
}

pub open spec fn spec_is_digit(c: char) -> bool {
    '0' <= c && c <= '9'
}

pub fn is_digit(c: char) -> (r: bool)
    ensures
        r == spec_is_digit(c),
{
    '0' <= c && c <= '9'
}

// ---------------------------------------------------------------------------
// conversions between String and Vec<char>
// ---------------------------------------------------------------------------

/// Relies on `String`'s `FromIterator<char>`: collecting characters yields
/// the string of exactly those characters, in order.
#[verifier::external_body]
pub fn string_from_chars(v: &Vec<char>) -> (s: String)
    ensures
        s@ == v@,
{
    v.iter().collect()
}

/// Relies on `str::chars`: the iterator yields exactly the characters of the
/// string, in order.
#[verifier::external_body]
pub fn chars_of_str(s: &str) -> (v: Vec<char>)
    ensures
        v@ == s@,
{
    s.chars().collect()
}

// ---------------------------------------------------------------------------
// trimming
// ---------------------------------------------------------------------------

pub open spec fn spec_trim_start(s: Seq<char>) -> Seq<char>
    decreases s.len(),
{
    if s.len() == 0 {
        s
    } else if spec_is_space(s[0]) {
        spec_trim_start(s.drop_first())
    } else {
        s
    }
}

pub open spec fn spec_trim_end(s: Seq<char>) -> Seq<char>
    decreases s.len(),
{
    if s.len() == 0 {
        s
    } else if spec_is_space(s[s.len() - 1]) {
        spec_trim_end(s.drop_last())
    } else {
        s
    }
}

/// What `str::trim` leaves: the sequence with leading and trailing
/// whitespace removed.
pub open spec fn spec_trim(s: Seq<char>) -> Seq<char> {
    spec_trim_end(spec_trim_start(s))
}

fn trim_start_idx(s: &Vec<char>, i: usize) -> (r: usize)
    requires
        i <= s@.len(),
    ensures
        i <= r <= s@.len(),
        s@.subrange(r as int, s@.len() as int) == spec_trim_start(
            s@.subrange(i as int, s@.len() as int),
        ),
    decreases s@.len() - i,
{
    if i == s.len() {
        assert(s@.subrange(i as int, s@.len() as int) =~= Seq::<char>::empty());
        i
    } else if is_space(s[i]) {
        let ghost sub = s@.subrange(i as int, s@.len() as int);
        assert(sub.drop_first() =~= s@.subrange(i + 1, s@.len() as int));
        trim_start_idx(s, i + 1)
    } else {
        i
    }
}

fn trim_end_idx(s: &Vec<char>, from: usize, j: usize) -> (r: usize)
    requires
        from <= j <= s@.len(),
    ensures
        from <= r <= j,
        s@.subrange(from as int, r as int) == spec_trim_end(
            s@.subrange(from as int, j as int),
        ),
    decreases j,
{
    if j == from {
        assert(s@.subrange(from as int, j as int) =~= Seq::<char>::empty());
        j
    } else if is_space(s[j - 1]) {
        let ghost sub = s@.subrange(from as int, j as int);
        assert(sub.drop_last() =~= s@.subrange(from as int, j - 1));
        trim_end_idx(s, from, j - 1)
    } else {
        j
    }
}

/// The characters of `s` with leading and trailing whitespace removed.
pub fn trim_chars(s: &Vec<char>) -> (r: Vec<char>)
    ensures
        r@ == spec_trim(s@),
{
    let i = trim_start_idx(s, 0);
    let j = trim_end_idx(s, i, s.len());
    let mut out: Vec<char> = Vec::new();
    let mut k = i;
    while k < j
        invariant
            i <= k <= j <= s@.len(),
            out@ == s@.subrange(i as int, k as int),
        decreases j - k,
    {
        out.push(s[k]);
        assert(out@ =~= s@.subrange(i as int, k + 1));
        k = k + 1;
    }
    assert(s@.subrange(0, s@.len() as int) =~= s@);
    assert(out@ == s@.subrange(i as int, j as int));
    out
}

/// Whether the string is empty once trimmed, as `s.trim().is_empty()` asks.
pub fn trimmed_empty(s: &Vec<char>) -> (r: bool)
    ensures
        r == (spec_trim(s@).len() == 0),
{
    let t = trim_chars(s);
    t.len() == 0
}

// ---------------------------------------------------------------------------
// splitting on a separator class
// ---------------------------------------------------------------------------

/// Splitting on comma: tokens between separators, empty tokens kept,
/// accumulated left to right.
pub open spec fn spec_split_commas_acc(s: Seq<char>, cur: Seq<char>) -> Seq<Seq<char>>
    decreases s.len(),
{
    if s.len() == 0 {
        seq![cur]
    } else if s[0] == ',' {
        seq![cur] + spec_split_commas_acc(s.drop_first(), Seq::empty())
    } else {
        spec_split_commas_acc(s.drop_first(), cur.push(s[0]))
    }
}

/// What `str::split(',')` yields.
pub open spec fn spec_split_commas(s: Seq<char>) -> Seq<Seq<char>> {
    spec_split_commas_acc(s, Seq::empty())
}

/// A split yields at least one token.
pub proof fn lemma_split_commas_acc_len(s: Seq<char>, cur: Seq<char>)
    ensures
        spec_split_commas_acc(s, cur).len() >= 1,
    decreases s.len(),
{
    if s.len() > 0 && s[0] != ',' {
        lemma_split_commas_acc_len(s.drop_first(), cur.push(s[0]));
    }
}

fn split_commas_from(s: &Vec<char>, i: usize, cur: Vec<char>) -> (r: Vec<Vec<char>>)
    requires
        i <= s@.len(),
    ensures
        r@.map_values(|t: Vec<char>| t@) == spec_split_commas_acc(
            s@.subrange(i as int, s@.len() as int),
            cur@,
        ),
    decreases s@.len() - i,
{
    let ghost sub = s@.subrange(i as int, s@.len() as int);
    if i == s.len() {
        assert(sub =~= Seq::<char>::empty());
        let mut r: Vec<Vec<char>> = Vec::new();
        r.push(cur);
        assert(r@.map_values(|t: Vec<char>| t@) =~= seq![cur@]);
        r
    } else {
        assert(sub.drop_first() =~= s@.subrange(i + 1, s@.len() as int));
        if s[i] == ',' {
            let rest = split_commas_from(s, i + 1, Vec::new());
            let mut r: Vec<Vec<char>> = Vec::new();
            r.push(cur);
            let mut rest = rest;
            let ghost rest_view = rest@.map_values(|t: Vec<char>| t@);
            r.append(&mut rest);
            assert(r@.map_values(|t: Vec<char>| t@) =~= seq![cur@] + rest_view);
            r
        } else {
            let mut cur2 = cur;
            let c = s[i];
            cur2.push(c);
            split_commas_from(s, i + 1, cur2)
        }
    }
}

/// The comma-separated tokens of `s`, empty tokens included.
pub fn split_commas_chars(s: &Vec<char>) -> (r: Vec<Vec<char>>)
    ensures
        r@.map_values(|t: Vec<char>| t@) == spec_split_commas(s@),
{
    assert(s@.subrange(0, s@.len() as int) =~= s@);
    split_commas_from(s, 0, Vec::new())
}

/// Splitting on whitespace or comma, the token boundaries of a memo's
/// first line.
pub open spec fn spec_split_ws_comma_acc(s: Seq<char>, cur: Seq<char>) -> Seq<Seq<char>>
    decreases s.len(),
{
    if s.len() == 0 {
        seq![cur]
    } else if spec_is_space(s[0]) || s[0] == ',' {
        seq![cur] + spec_split_ws_comma_acc(s.drop_first(), Seq::empty())
    } else {
        spec_split_ws_comma_acc(s.drop_first(), cur.push(s[0]))
    }
}

pub open spec fn spec_split_ws_comma(s: Seq<char>) -> Seq<Seq<char>> {
    spec_split_ws_comma_acc(s, Seq::empty())
}

fn split_ws_comma_from(s: &Vec<char>, i: usize, cur: Vec<char>) -> (r: Vec<Vec<char>>)
    requires
        i <= s@.len(),
    ensures
        r@.map_values(|t: Vec<char>| t@) == spec_split_ws_comma_acc(
            s@.subrange(i as int, s@.len() as int),
            cur@,
        ),
    decreases s@.len() - i,
{
    let ghost sub = s@.subrange(i as int, s@.len() as int);
    if i == s.len() {
        assert(sub =~= Seq::<char>::empty());
        let mut r: Vec<Vec<char>> = Vec::new();
        r.push(cur);
        assert(r@.map_values(|t: Vec<char>| t@) =~= seq![cur@]);
        r
    } else {
        assert(sub.drop_first() =~= s@.subrange(i + 1, s@.len() as int));
        let c = s[i];
        if is_space(c) || c == ',' {
            let rest = split_ws_comma_from(s, i + 1, Vec::new());
            let mut r: Vec<Vec<char>> = Vec::new();
            r.push(cur);
            let mut rest = rest;
            let ghost rest_view = rest@.map_values(|t: Vec<char>| t@);
            r.append(&mut rest);
            assert(r@.map_values(|t: Vec<char>| t@) =~= seq![cur@] + rest_view);
            r
        } else {
            let mut cur2 = cur;
            cur2.push(c);
            split_ws_comma_from(s, i + 1, cur2)
        }
    }
}

pub fn split_ws_comma_chars(s: &Vec<char>) -> (r: Vec<Vec<char>>)
    ensures
        r@.map_values(|t: Vec<char>| t@) == spec_split_ws_comma(s@),
{
    assert(s@.subrange(0, s@.len() as int) =~= s@);
    split_ws_comma_from(s, 0, Vec::new())
}

// ---------------------------------------------------------------------------
// lines
// ---------------------------------------------------------------------------

/// Splitting on `'\n'`, accumulated left to right, empty lines kept.
pub open spec fn spec_split_nl_acc(s: Seq<char>, cur: Seq<char>) -> Seq<Seq<char>>
    decreases s.len(),
{
    if s.len() == 0 {
        seq![cur]
    } else if s[0] == '\n' {
        seq![cur] + spec_split_nl_acc(s.drop_first(), Seq::empty())
    } else {
        spec_split_nl_acc(s.drop_first(), cur.push(s[0]))
    }
}

pub open spec fn spec_strip_cr(s: Seq<char>) -> Seq<char> {
    if s.len() > 0 && s[s.len() - 1] == '\r' {
        s.drop_last()
    } else {
        s
    }
}

/// What `str::lines` yields: split on `'\n'`, each line stripped of one
/// trailing `'\r'`, and the final empty line (from a trailing newline, or
/// from an empty string) dropped.
pub open spec fn spec_lines(s: Seq<char>) -> Seq<Seq<char>> {
    let raw = spec_split_nl_acc(s, Seq::empty());
    let stripped = raw.map_values(|l: Seq<char>| spec_strip_cr(l));
    if stripped.len() > 0 && stripped[stripped.len() - 1].len() == 0 {
        stripped.drop_last()
    } else {
        stripped
    }
}

fn split_nl_from(s: &Vec<char>, i: usize, cur: Vec<char>) -> (r: Vec<Vec<char>>)
    requires
        i <= s@.len(),
    ensures
        r@.map_values(|t: Vec<char>| t@) == spec_split_nl_acc(
            s@.subrange(i as int, s@.len() as int),
            cur@,
        ),
    decreases s@.len() - i,
{
    let ghost sub = s@.subrange(i as int, s@.len() as int);
    if i == s.len() {
        assert(sub =~= Seq::<char>::empty());
        let mut r: Vec<Vec<char>> = Vec::new();
        r.push(cur);
        assert(r@.map_values(|t: Vec<char>| t@) =~= seq![cur@]);
        r
    } else {
        assert(sub.drop_first() =~= s@.subrange(i + 1, s@.len() as int));
        if s[i] == '\n' {
            let rest = split_nl_from(s, i + 1, Vec::new());
            let mut r: Vec<Vec<char>> = Vec::new();
            r.push(cur);
            let mut rest = rest;
            let ghost rest_view = rest@.map_values(|t: Vec<char>| t@);
            r.append(&mut rest);
            assert(r@.map_values(|t: Vec<char>| t@) =~= seq![cur@] + rest_view);
            r
        } else {
            let mut cur2 = cur;
            let c = s[i];
            cur2.push(c);
            split_nl_from(s, i + 1, cur2)
        }
    }
}

/// The lines of `s`, as `str::lines` yields them.
pub fn lines_of(s: &Vec<char>) -> (r: Vec<Vec<char>>)
    ensures
        r@.map_values(|t: Vec<char>| t@) == spec_lines(s@),
{
    assert(s@.subrange(0, s@.len() as int) =~= s@);
    let raw = split_nl_from(s, 0, Vec::new());
    let mut stripped: Vec<Vec<char>> = Vec::new();
    let ghost raw_view = raw@.map_values(|t: Vec<char>| t@);
    let mut i: usize = 0;
    while i < raw.len()
        invariant
            i <= raw@.len(),
            raw@.map_values(|t: Vec<char>| t@) == raw_view,
            stripped@.map_values(|t: Vec<char>| t@) =~= raw_view.subrange(0, i as int)
                .map_values(|l: Seq<char>| spec_strip_cr(l)),
        decreases raw@.len() - i,
    {
        let line = &raw[i];
        let mut l2: Vec<char> = Vec::new();
        let n = line.len();
        if n > 0 && line[n - 1] == '\r' {
            let mut k: usize = 0;
            while k < n - 1
                invariant
                    k <= n - 1,
                    n == line@.len(),
                    n > 0,
                    l2@ == line@.subrange(0, k as int),
                decreases n - 1 - k,
            {
                l2.push(line[k]);
                assert(l2@ =~= line@.subrange(0, k + 1));
                k = k + 1;
            }
            assert(l2@ =~= line@.drop_last());
        } else {
            let mut k: usize = 0;
            while k < n
                invariant
                    k <= n,
                    n == line@.len(),
                    l2@ == line@.subrange(0, k as int),
                decreases n - k,
            {
                l2.push(line[k]);
                assert(l2@ =~= line@.subrange(0, k + 1));
                k = k + 1;
            }
            assert(l2@ =~= line@);
        }
        assert(l2@ == spec_strip_cr(raw_view[i as int]));
        stripped.push(l2);
        assert(raw_view.subrange(0, i + 1).map_values(|l: Seq<char>| spec_strip_cr(l))
            =~= raw_view.subrange(0, i as int).map_values(|l: Seq<char>| spec_strip_cr(l))
                .push(spec_strip_cr(raw_view[i as int])));
        assert(stripped@.map_values(|t: Vec<char>| t@) =~= raw_view.subrange(0, i as int)
            .map_values(|l: Seq<char>| spec_strip_cr(l)).push(spec_strip_cr(raw_view[i as int])));
        i = i + 1;
    }
    assert(raw_view.subrange(0, raw_view.len() as int) =~= raw_view);
    let ghost full = raw_view.map_values(|l: Seq<char>| spec_strip_cr(l));
    assert(stripped@.map_values(|t: Vec<char>| t@) =~= full);
    if stripped.len() > 0 {
        let last_empty = stripped[stripped.len() - 1].len() == 0;
        if last_empty {
            stripped.pop();
            assert(stripped@.map_values(|t: Vec<char>| t@) =~= full.drop_last());
        }
    }
    stripped
}

/// The prefix of `s` before the first `'\n'`, or all of `s` when it has
/// none: the first element of a split on `'\n'`.
pub open spec fn spec_first_line(s: Seq<char>) -> Seq<char> {
    spec_split_nl_acc(s, Seq::empty())[0]
}

pub fn first_line(s: &Vec<char>) -> (r: Vec<char>)
    ensures
        r@ == spec_first_line(s@),
{
    let mut out: Vec<char> = Vec::new();
    let mut i: usize = 0;
    while i < s.len()
        invariant
            i <= s@.len(),
            out@ == s@.subrange(0, i as int),
            forall|j: int| 0 <= j < i ==> s@[j] != '\n',
        decreases s@.len() - i,
    {
        if s[i] == '\n' {
            proof {
                lemma_split_acc_first(s@, Seq::empty(), i as int);
            }
            return out;
        }
        out.push(s[i]);
        assert(out@ =~= s@.subrange(0, i + 1));
        i = i + 1;
    }
    proof {
        lemma_split_acc_first(s@, Seq::empty(), s@.len() as int);
        assert(out@ =~= s@);
    }
    out
}

/// The first element of a newline split of `cur + s` is `cur` extended with
/// the characters of `s` up to its first newline (or all of `s`).
proof fn lemma_split_acc_first(s: Seq<char>, cur: Seq<char>, stop: int)
    requires
        0 <= stop <= s.len(),
        forall|j: int| 0 <= j < stop ==> s[j] != '\n',
        stop < s.len() ==> s[stop] == '\n',
    ensures
        spec_split_nl_acc(s, cur)[0] == cur + s.subrange(0, stop),
    decreases s.len(),
{
    if s.len() == 0 {
        assert(spec_split_nl_acc(s, cur)[0] == cur);
        assert(cur + s.subrange(0, stop) =~= cur);
    } else if s[0] == '\n' {
        assert(stop == 0);
        assert(spec_split_nl_acc(s, cur)[0] == cur);
        assert(cur + s.subrange(0, 0) =~= cur);
    } else {
        assert(stop >= 1);
        let s2 = s.drop_first();
        assert(forall|j: int| 0 <= j < stop - 1 ==> s2[j] != '\n');
        lemma_split_acc_first(s2, cur.push(s[0]), stop - 1);
        assert(cur.push(s[0]) + s2.subrange(0, stop - 1) =~= cur + s.subrange(0, stop));
    }
}

// ---------------------------------------------------------------------------
// joining
// ---------------------------------------------------------------------------

/// The elements of `parts` concatenated with `sep` between them.
pub open spec fn spec_join(parts: Seq<Seq<char>>, sep: char) -> Seq<char>
    decreases parts.len(),
{
    if parts.len() == 0 {
        Seq::empty()
    } else if parts.len() == 1 {
        parts[0]
    } else {
        parts[0] + seq![sep] + spec_join(parts.drop_first(), sep)
    }
}

pub fn join_chars(parts: &Vec<Vec<char>>, sep: char) -> (r: Vec<char>)
    ensures
        r@ == spec_join(parts@.map_values(|t: Vec<char>| t@), sep),
    decreases parts@.len(),
{
    let ghost pview = parts@.map_values(|t: Vec<char>| t@);
    if parts.len() == 0 {
        Vec::new()
    } else {
        let mut out: Vec<char> = Vec::new();
        let mut i: usize = 0;
        while i < parts.len()
            invariant
                i <= parts@.len(),
                parts@.len() > 0,
                pview == parts@.map_values(|t: Vec<char>| t@),
                i == 0 ==> out@ == Seq::<char>::empty(),
                i > 0 ==> out@ == spec_join(pview.subrange(0, i as int), sep),
            decreases parts@.len() - i,
        {
            if i > 0 {
                out.push(sep);
            }
            let part = &parts[i];
            let mut k: usize = 0;
            let ghost out0 = out@;
            while k < part.len()
                invariant
                    k <= part@.len(),
                    out@ == out0 + part@.subrange(0, k as int),
                decreases part@.len() - k,
            {
                out.push(part[k]);
                assert(out@ =~= out0 + part@.subrange(0, k + 1));
                k = k + 1;
            }
            assert(part@.subrange(0, part@.len() as int) =~= part@);
            proof {
                if i == 0 {
                    assert(pview.subrange(0, 1) =~= seq![pview[0]]);
                    assert(out@ =~= pview[0]);
                    lemma_join_single(pview.subrange(0, 1), sep);
                } else {
                    lemma_join_snoc(pview.subrange(0, i + 1), sep);
                    assert(pview.subrange(0, i + 1).drop_last() =~= pview.subrange(0, i as int));
                    assert(out@ =~= spec_join(pview.subrange(0, i as int), sep) + seq![sep]
                        + pview[i as int]);
                }
            }
            i = i + 1;
        }
        assert(pview.subrange(0, pview.len() as int) =~= pview);
        out
    }
}

proof fn lemma_join_single(parts: Seq<Seq<char>>, sep: char)
    requires
        parts.len() == 1,
    ensures
        spec_join(parts, sep) == parts[0],
{
}

/// Joining `n + 1` parts appends one separator and the last part to the
/// join of the first `n`.
proof fn lemma_join_snoc(parts: Seq<Seq<char>>, sep: char)
    requires
        parts.len() >= 2,
    ensures
        spec_join(parts, sep) == spec_join(parts.drop_last(), sep) + seq![sep]
            + parts[parts.len() - 1],
    decreases parts.len(),
{
    if parts.len() == 2 {
        assert(parts.drop_last() =~= seq![parts[0]]);
        assert(parts.drop_first() =~= seq![parts[1]]);
        assert(spec_join(parts.drop_first(), sep) == parts.drop_first()[0]);
        assert(spec_join(parts.drop_last(), sep) == parts.drop_last()[0]);
        assert(spec_join(parts, sep) =~= parts[0] + seq![sep] + parts[1]);
    } else {
        let rest = parts.drop_first();
        lemma_join_snoc(rest, sep);
        assert(rest.drop_last() =~= parts.drop_last().drop_first());
        assert(rest[rest.len() - 1] == parts[parts.len() - 1]);
        assert(spec_join(parts.drop_last(), sep) == parts.drop_last()[0] + seq![sep]
            + spec_join(parts.drop_last().drop_first(), sep));
        assert(spec_join(parts, sep) =~= spec_join(parts.drop_last(), sep) + seq![sep]
            + parts[parts.len() - 1]);
    }
}

} // verus!

verus! {

// ---------------------------------------------------------------------------
// substring search
// ---------------------------------------------------------------------------

/// Whether `pat` occurs in `s` starting at index `i`.
pub open spec fn spec_matches_at(s: Seq<char>, pat: Seq<char>, i: int) -> bool {
    0 <= i && i + pat.len() <= s.len() && s.subrange(i, i + pat.len()) == pat
}

/// The least index `>= from` where `pat` occurs in `s`, if any. An empty
/// pattern is never searched for and reports no occurrence.
pub open spec fn spec_find(s: Seq<char>, pat: Seq<char>, from: int) -> Option<int>
    decreases s.len() - from,
{
    if pat.len() == 0 || from < 0 || from + pat.len() > s.len() {
        None
    } else if spec_matches_at(s, pat, from) {
        Some(from)
    } else {
        spec_find(s, pat, from + 1)
    }
}

/// Whether `pat` occurs anywhere in `s`, as `str::contains` asks.
pub open spec fn spec_contains_sub(s: Seq<char>, pat: Seq<char>) -> bool {
    spec_find(s, pat, 0) is Some
}

pub fn matches_at(s: &Vec<char>, pat: &Vec<char>, i: usize) -> (r: bool)
    requires
        i <= s@.len(),
    ensures
        r == spec_matches_at(s@, pat@, i as int),
{
    let n = s.len();
    let m = pat.len();
    if m > n - i {
        return false;
    }
    let mut k: usize = 0;
    while k < m
        invariant
            0 <= k <= m,
            i + m <= n,
            n == s@.len(),
            m == pat@.len(),
            forall|j: int| 0 <= j < k ==> s@[i + j] == pat@[j],
        decreases m - k,
    {
        if s[i + k] != pat[k] {
            assert(s@.subrange(i as int, i + pat@.len())[k as int] != pat@[k as int]);
            return false;
        }
        k = k + 1;
    }
    assert(s@.subrange(i as int, i + pat@.len()) =~= pat@);
    true
}

pub fn find_sub(s: &Vec<char>, pat: &Vec<char>, from: usize) -> (r: Option<usize>)
    requires
        from <= s@.len(),
    ensures
        match r {
            Some(i) => from <= i && spec_find(s@, pat@, from as int) == Some(i as int),
            None => spec_find(s@, pat@, from as int) is None,
        },
    decreases s@.len() - from,
{
    if pat.len() == 0 || pat.len() > s.len() - from {
        return None;
    }
    if matches_at(s, pat, from) {
        return Some(from);
    }
    find_sub(s, pat, from + 1)
}

pub fn contains_sub(s: &Vec<char>, pat: &Vec<char>) -> (r: bool)
    ensures
        r == spec_contains_sub(s@, pat@),
{
    match find_sub(s, pat, 0) {
        Some(_) => true,
        None => false,
    }
}

// ---------------------------------------------------------------------------
// replacement
// ---------------------------------------------------------------------------

/// What `str::replace` yields: every non-overlapping occurrence of `pat`,
/// leftmost first, replaced by `repl`. An empty pattern leaves `s` unchanged
/// (the library never replaces an empty pattern).
pub open spec fn spec_replace_all(s: Seq<char>, pat: Seq<char>, repl: Seq<char>) -> Seq<char>
    decreases s.len(),
{
    if pat.len() == 0 || s.len() < pat.len() {
        s
    } else if s.subrange(0, pat.len() as int) == pat {
        repl + spec_replace_all(s.skip(pat.len() as int), pat, repl)
    } else {
        seq![s[0]] + spec_replace_all(s.drop_first(), pat, repl)
    }
}

/// What `str::replacen(pat, repl, 1)` yields: only the leftmost occurrence
/// replaced.
pub open spec fn spec_replace_first(s: Seq<char>, pat: Seq<char>, repl: Seq<char>) -> Seq<char>
    decreases s.len(),
{
    if pat.len() == 0 || s.len() < pat.len() {
        s
    } else if s.subrange(0, pat.len() as int) == pat {
        repl + s.skip(pat.len() as int)
    } else {
        seq![s[0]] + spec_replace_first(s.drop_first(), pat, repl)
    }
}

fn replace_all_from(s: &Vec<char>, pat: &Vec<char>, repl: &Vec<char>, i: usize) -> (r: Vec<char>)
    requires
        pat@.len() >= 1,
        i <= s@.len(),
    ensures
        r@ == spec_replace_all(s@.subrange(i as int, s@.len() as int), pat@, repl@),
    decreases s@.len() - i,
{
    let ghost sub = s@.subrange(i as int, s@.len() as int);
    if s.len() - i < pat.len() {
        let mut out: Vec<char> = Vec::new();
        let mut k = i;
        while k < s.len()
            invariant
                i <= k <= s@.len(),
                out@ == s@.subrange(i as int, k as int),
            decreases s@.len() - k,
        {
            out.push(s[k]);
            assert(out@ =~= s@.subrange(i as int, k + 1));
            k = k + 1;
        }
        assert(out@ =~= sub);
        out
    } else if matches_at(s, pat, i) {
        assert(sub.subrange(0, pat@.len() as int) =~= s@.subrange(i as int, i + pat@.len()));
        let rest = replace_all_from(s, pat, repl, i + pat.len());
        assert(sub.skip(pat@.len() as int) =~= s@.subrange(i + pat@.len(), s@.len() as int));
        let mut out: Vec<char> = Vec::new();
        let mut k: usize = 0;
        while k < repl.len()
            invariant
                k <= repl@.len(),
                out@ == repl@.subrange(0, k as int),
            decreases repl@.len() - k,
        {
            out.push(repl[k]);
            assert(out@ =~= repl@.subrange(0, k + 1));
            k = k + 1;
        }
        assert(out@ =~= repl@);
        let mut rest = rest;
        let ghost rv = rest@;
        out.append(&mut rest);
        assert(out@ =~= repl@ + rv);
        out
    } else {
        assert(sub.subrange(0, pat@.len() as int) =~= s@.subrange(i as int, i + pat@.len()));
        let rest = replace_all_from(s, pat, repl, i + 1);
        assert(sub.drop_first() =~= s@.subrange(i + 1, s@.len() as int));
        let mut out: Vec<char> = Vec::new();
        out.push(s[i]);
        let mut rest = rest;
        let ghost rv = rest@;
        out.append(&mut rest);
        assert(out@ =~= seq![sub[0]] + rv);
        out
    }
}

/// Every occurrence of `pat` in `s` replaced by `repl`.
pub fn replace_all_chars(s: &Vec<char>, pat: &Vec<char>, repl: &Vec<char>) -> (r: Vec<char>)
    requires
        pat@.len() >= 1,
    ensures
        r@ == spec_replace_all(s@, pat@, repl@),
{
    assert(s@.subrange(0, s@.len() as int) =~= s@);
    replace_all_from(s, pat, repl, 0)
}

fn replace_first_from(s: &Vec<char>, pat: &Vec<char>, repl: &Vec<char>, i: usize) -> (r: Vec<
    char,
>)
    requires
        pat@.len() >= 1,
        i <= s@.len(),
    ensures
        r@ == spec_replace_first(s@.subrange(i as int, s@.len() as int), pat@, repl@),
    decreases s@.len() - i,
{
    let ghost sub = s@.subrange(i as int, s@.len() as int);
    if s.len() - i < pat.len() {
        let mut out: Vec<char> = Vec::new();
        let mut k = i;
        while k < s.len()
            invariant
                i <= k <= s@.len(),
                out@ == s@.subrange(i as int, k as int),
            decreases s@.len() - k,
        {
            out.push(s[k]);
            assert(out@ =~= s@.subrange(i as int, k + 1));
            k = k + 1;
        }
        assert(out@ =~= sub);
        out
    } else if matches_at(s, pat, i) {
        assert(sub.subrange(0, pat@.len() as int) =~= s@.subrange(i as int, i + pat@.len()));
        let mut out: Vec<char> = Vec::new();
        let mut k: usize = 0;
        while k < repl.len()
            invariant
                k <= repl@.len(),
                out@ == repl@.subrange(0, k as int),
            decreases repl@.len() - k,
        {
            out.push(repl[k]);
            assert(out@ =~= repl@.subrange(0, k + 1));
            k = k + 1;
        }
        assert(out@ =~= repl@);
        let mut k2 = i + pat.len();
        let ghost out0 = out@;
        while k2 < s.len()
            invariant
                i + pat@.len() <= k2 <= s@.len(),
                out@ == out0 + s@.subrange(i + pat@.len(), k2 as int),
            decreases s@.len() - k2,
        {
            out.push(s[k2]);
            assert(out@ =~= out0 + s@.subrange(i + pat@.len(), k2 + 1));
            k2 = k2 + 1;
        }
        assert(sub.skip(pat@.len() as int) =~= s@.subrange(i + pat@.len(), s@.len() as int));
        assert(out@ =~= repl@ + sub.skip(pat@.len() as int));
        out
    } else {
        assert(sub.subrange(0, pat@.len() as int) =~= s@.subrange(i as int, i + pat@.len()));
        let rest = replace_first_from(s, pat, repl, i + 1);
        assert(sub.drop_first() =~= s@.subrange(i + 1, s@.len() as int));
        let mut out: Vec<char> = Vec::new();
        out.push(s[i]);
        let mut rest = rest;
        let ghost rv = rest@;
        out.append(&mut rest);
        assert(out@ =~= seq![sub[0]] + rv);
        out
    }
}

/// The leftmost occurrence of `pat` in `s` replaced by `repl`.
pub fn replace_first_chars(s: &Vec<char>, pat: &Vec<char>, repl: &Vec<char>) -> (r: Vec<char>)
    requires
        pat@.len() >= 1,
    ensures
        r@ == spec_replace_first(s@, pat@, repl@),
{
    assert(s@.subrange(0, s@.len() as int) =~= s@);
    replace_first_from(s, pat, repl, 0)
}

} // verus!

verus! {

// ---------------------------------------------------------------------------
// decimal parsing
// ---------------------------------------------------------------------------

/// The value of a digit string, most significant first.
pub open spec fn spec_digits_val(s: Seq<char>) -> int
    decreases s.len(),
{
    if s.len() == 0 {
        0
    } else {
        spec_digits_val(s.drop_last()) * 10 + (s.last() as u32 - 48)
    }
}

pub open spec fn spec_all_digits(s: Seq<char>) -> bool {
    forall|i: int| 0 <= i < s.len() ==> #[trigger] spec_is_digit(s[i])
}

/// The optional leading sign of a numeric literal: whether it is negative,
/// and the digits that follow.
pub open spec fn spec_sign_split(s: Seq<char>) -> (bool, Seq<char>) {
    if s.len() > 0 && s[0] == '-' {
        (true, s.drop_first())
    } else if s.len() > 0 && s[0] == '+' {
        (false, s.drop_first())
    } else {
        (false, s)
    }
}

/// What `str::parse::<i64>` accepts and returns: an optional sign, one or
/// more digits, and a value within the type's range.
pub open spec fn spec_parse_i64(s: Seq<char>) -> Option<i64> {
    let (neg, ds) = spec_sign_split(s);
    if ds.len() == 0 || !spec_all_digits(ds) {
        None
    } else {
        let v = spec_digits_val(ds);
        if neg {
            if -v >= i64::MIN {
                Some((-v) as i64)
            } else {
                None
            }
        } else {
            if v <= i64::MAX {
                Some(v as i64)
            } else {
                None
            }
        }
    }
}

/// What `str::parse::<i32>` accepts and returns.
pub open spec fn spec_parse_i32(s: Seq<char>) -> Option<i32> {
    let (neg, ds) = spec_sign_split(s);
    if ds.len() == 0 || !spec_all_digits(ds) {
        None
    } else {
        let v = spec_digits_val(ds);
        if neg {
            if -v >= i32::MIN {
                Some((-v) as i32)
            } else {
                None
            }
        } else {
            if v <= i32::MAX {
                Some(v as i32)
            } else {
                None
            }
        }
    }
}

proof fn lemma_digits_val_nonneg(s: Seq<char>)
    requires
        spec_all_digits(s),
    ensures
        spec_digits_val(s) >= 0,
    decreases s.len(),
{
    if s.len() > 0 {
        assert forall|i: int| 0 <= i < s.drop_last().len() implies #[trigger] spec_is_digit(
            s.drop_last()[i],
        ) by {
            assert(s.drop_last()[i] == s[i]);
            assert(spec_is_digit(s[i]));
        }
        lemma_digits_val_nonneg(s.drop_last());
        assert(spec_is_digit(s[s.len() - 1]));
        assert(s.last() as u32 >= 48);
        assert(spec_digits_val(s.drop_last()) * 10 >= 0) by (nonlinear_arith)
            requires
                spec_digits_val(s.drop_last()) >= 0,
        {}
    }
}

/// A digit string's value is at least the value of any of its prefixes.
proof fn lemma_digits_val_prefix(s: Seq<char>, k: int)
    requires
        spec_all_digits(s),
        0 <= k <= s.len(),
    ensures
        spec_digits_val(s) >= spec_digits_val(s.subrange(0, k)),
    decreases s.len(),
{
    if k == s.len() {
        assert(s.subrange(0, k) =~= s);
    } else {
        assert(s.len() > 0);
        assert forall|i: int| 0 <= i < s.drop_last().len() implies #[trigger] spec_is_digit(
            s.drop_last()[i],
        ) by {
            assert(s.drop_last()[i] == s[i]);
            assert(spec_is_digit(s[i]));
        }
        assert(s.drop_last().subrange(0, k) =~= s.subrange(0, k));
        lemma_digits_val_prefix(s.drop_last(), k);
        lemma_digits_val_nonneg(s.drop_last());
        assert(spec_is_digit(s[s.len() - 1]));
        assert(s.last() as u32 >= 48);
        assert(spec_digits_val(s.drop_last()) * 10 >= spec_digits_val(s.drop_last()))
            by (nonlinear_arith)
            requires
                spec_digits_val(s.drop_last()) >= 0,
        {}
    }
}

pub fn parse_i64_chars(s: &Vec<char>) -> (r: Option<i64>)
    ensures
        r == spec_parse_i64(s@),
{
    let n = s.len();
    if n == 0 {
        return None;
    }
    let first = s[0];
    let neg: bool = first == '-';
    let start: usize = if first == '-' || first == '+' {
        1
    } else {
        0
    };
    let ghost ds = spec_sign_split(s@).1;
    proof {
        assert(ds =~= s@.subrange(start as int, n as int));
        assert(neg == spec_sign_split(s@).0);
    }
    if start == n {
        return None;
    }
    let mut mag: u64 = 0;
    let mut i = start;
    while i < n
        invariant
            start <= i <= n,
            n == s@.len(),
            start <= 1,
            start < n,
            ds == s@.subrange(start as int, n as int),
            ds == spec_sign_split(s@).1,
            neg == spec_sign_split(s@).0,
            forall|j: int| start <= j < i ==> #[trigger] spec_is_digit(s@[j]),
            mag == spec_digits_val(s@.subrange(start as int, i as int)),
        decreases n - i,
    {
        let c = s[i];
        if !is_digit(c) {
            proof {
                assert(ds[i - start] == s@[i as int]);
                assert(!spec_is_digit(ds[i - start]));
                assert(!spec_all_digits(ds));
            }
            return None;
        }
        assert(spec_is_digit(s@[i as int]));
        let d: u64 = (c as u32 - 48) as u64;
        let ghost prefix = s@.subrange(start as int, i as int);
        let ghost prefix2 = s@.subrange(start as int, i + 1);
        proof {
            assert(prefix2.drop_last() =~= prefix);
            assert(prefix2.last() == s@[i as int]);
            assert(spec_digits_val(prefix2) == mag * 10 + d);
        }
        if mag > (u64::MAX - d) / 10 {
            proof {
                assert(mag * 10 + d > u64::MAX) by (nonlinear_arith)
                    requires
                        mag > (u64::MAX - d) / 10,
                        d <= 9,
                {}
                if spec_all_digits(ds) {
                    lemma_digits_val_prefix(ds, i + 1 - start);
                    assert(ds.subrange(0, i + 1 - start) =~= prefix2);
                    assert(spec_digits_val(ds) > u64::MAX);
                }
            }
            return None;
        }
        proof {
            assert(mag * 10 + d <= u64::MAX) by (nonlinear_arith)
                requires
                    mag <= (u64::MAX - d) / 10,
                    d <= 9,
            {}
        }
        mag = mag * 10 + d;
        i = i + 1;
    }
    proof {
        assert(ds =~= s@.subrange(start as int, n as int));
        assert forall|j: int| 0 <= j < ds.len() implies #[trigger] spec_is_digit(ds[j]) by {
            assert(ds[j] == s@[start + j]);
            assert(spec_is_digit(s@[start + j]));
        }
        assert(mag == spec_digits_val(ds));
    }
    if neg {
        if mag > 9223372036854775808u64 {
            return None;
        }
        if mag == 9223372036854775808u64 {
            Some(i64::MIN)
        } else {
            Some(-(mag as i64))
        }
    } else {
        if mag > i64::MAX as u64 {
            return None;
        }
        Some(mag as i64)
    }
}

pub fn parse_i32_chars(s: &Vec<char>) -> (r: Option<i32>)
    ensures
        r == spec_parse_i32(s@),
{
    let v = parse_i64_chars(s);
    proof {
        let (neg, ds) = spec_sign_split(s@);
        if ds.len() != 0 && spec_all_digits(ds) {
            lemma_digits_val_nonneg(ds);
        }
    }
    match v {
        None => None,
        Some(v) => {
            if v < i32::MIN as i64 || v > i32::MAX as i64 {
                None
            } else {
                Some(v as i32)
            }
        },
    }
}

// ---------------------------------------------------------------------------
// decimal formatting
// ---------------------------------------------------------------------------

pub open spec fn spec_digit_char(d: int) -> char {
    if d == 0 { '0' } else if d == 1 { '1' } else if d == 2 { '2' } else if d == 3 { '3' }
    else if d == 4 { '4' } else if d == 5 { '5' } else if d == 6 { '6' } else if d == 7 { '7' }
    else if d == 8 { '8' } else { '9' }
}

/// The decimal digits of a non-negative value, most significant first.
pub open spec fn spec_dec_nat(n: int) -> Seq<char>
    decreases n,
{
    if n < 10 {
        seq![spec_digit_char(n)]
    } else {
        spec_dec_nat(n / 10).push(spec_digit_char(n % 10))
    }
}

/// The decimal rendering of a signed value, as `i64`'s `Display` writes it.
pub open spec fn spec_dec_i64(n: int) -> Seq<char> {
    if n < 0 {
        seq!['-'] + spec_dec_nat(-n)
    } else {
        spec_dec_nat(n)
    }
}

fn digit_char(d: u64) -> (c: char)
    requires
        d < 10,
    ensures
        c == spec_digit_char(d as int),
{
    match d {
        0 => '0',
        1 => '1',
        2 => '2',
        3 => '3',
        4 => '4',
        5 => '5',
        6 => '6',
        7 => '7',
        8 => '8',
        _ => '9',
    }
}

fn push_dec_u64(n: u64, out: &mut Vec<char>)
    ensures
        final(out)@ == old(out)@ + spec_dec_nat(n as int),
    decreases n,
{
    if n < 10 {
        out.push(digit_char(n));
        assert(final(out)@ =~= old(out)@ + seq![spec_digit_char(n as int)]);
    } else {
        push_dec_u64(n / 10, out);
        out.push(digit_char(n % 10));
        assert(final(out)@ =~= old(out)@ + spec_dec_nat(n as int / 10).push(
            spec_digit_char(n as int % 10),
        ));
    }
}

/// The decimal rendering of `n`.
pub fn i64_to_string(n: i64) -> (r: String)
    ensures
        r@ == spec_dec_i64(n as int),
{
    let mut out: Vec<char> = Vec::new();
    if n < 0 {
        out.push('-');
        let mag: u64 = if n == i64::MIN {
            9223372036854775808u64
        } else {
            (-n) as u64
        };
        push_dec_u64(mag, &mut out);
        assert(out@ =~= seq!['-'] + spec_dec_nat(-(n as int)));
    } else {
        push_dec_u64(n as u64, &mut out);
        assert(out@ =~= spec_dec_nat(n as int));
    }
    string_from_chars(&out)
}

// ---------------------------------------------------------------------------
// duplicate removal and membership, over lists of strings
// ---------------------------------------------------------------------------

/// The sequence with later repetitions of an element removed: each element
/// kept at its first occurrence only.
pub open spec fn spec_dedup(s: Seq<Seq<char>>) -> Seq<Seq<char>>
    decreases s.len(),
{
    if s.len() == 0 {
        s
    } else {
        let prefix = spec_dedup(s.drop_last());
        if s.drop_last().contains(s.last()) {
            prefix
        } else {
            prefix.push(s.last())
        }
    }
}

/// Deduplication keeps exactly the members of the original.
pub broadcast proof fn lemma_dedup_membership(s: Seq<Seq<char>>, x: Seq<char>)
    ensures
        #[trigger] spec_dedup(s).contains(x) == s.contains(x),
    decreases s.len(),
{
    if s.len() > 0 {
        lemma_dedup_membership(s.drop_last(), x);
        let prefix = spec_dedup(s.drop_last());
        if s.drop_last().contains(x) {
            let i = choose|i: int| 0 <= i < prefix.len() && prefix[i] == x;
            if !s.drop_last().contains(s.last()) {
                assert(spec_dedup(s)[i] == x);
            }
            assert(spec_dedup(s).contains(x));
            let j = choose|j: int| 0 <= j < s.drop_last().len() && s.drop_last()[j] == x;
            assert(s[j] == x);
            assert(s.contains(x));
        } else if s.last() == x {
            assert(spec_dedup(s) == prefix.push(x));
            assert(spec_dedup(s)[prefix.len() as int] == x);
            assert(spec_dedup(s).contains(x));
            assert(s[s.len() - 1] == x);
            assert(s.contains(x));
        } else {
            assert(!s.contains(x)) by {
                if s.contains(x) {
                    let i = choose|i: int| 0 <= i < s.len() && s[i] == x;
                    assert(i < s.len() - 1);
                    assert(s.drop_last()[i] == x);
                }
            }
            assert(!spec_dedup(s).contains(x)) by {
                if spec_dedup(s).contains(x) {
                    let i = choose|i: int|
                        0 <= i < spec_dedup(s).len() && spec_dedup(s)[i] == x;
                    if !s.drop_last().contains(s.last()) {
                        if i < prefix.len() {
                            assert(prefix[i] == x);
                        } else {
                            assert(spec_dedup(s)[i] == s.last());
                        }
                    } else {
                        assert(prefix[i] == x);
                    }
                }
            }
        }
    }
}

/// Whether some string in `v` has the characters `x`.
pub fn strings_contain(v: &Vec<String>, x: &String) -> (r: bool)
    ensures
        r == v@.map_values(|s: String| s@).contains(x@),
{
    let ghost vv = v@.map_values(|s: String| s@);
    let mut i: usize = 0;
    while i < v.len()
        invariant
            i <= v@.len(),
            vv == v@.map_values(|s: String| s@),
            forall|j: int| 0 <= j < i ==> vv[j] != x@,
        decreases v@.len() - i,
    {
        if v[i].eq(x) {
            assert(vv[i as int] == x@);
            return true;
        }
        i = i + 1;
    }
    false
}

/// The strings of `v` with later repetitions removed, first occurrences
/// kept in order.
pub fn dedup_strings(v: &Vec<String>) -> (r: Vec<String>)
    ensures
        r@.map_values(|s: String| s@) == spec_dedup(v@.map_values(|s: String| s@)),
{
    let ghost vv = v@.map_values(|s: String| s@);
    let mut out: Vec<String> = Vec::new();
    let mut i: usize = 0;
    while i < v.len()
        invariant
            i <= v@.len(),
            vv == v@.map_values(|s: String| s@),
            out@.map_values(|s: String| s@) == spec_dedup(vv.subrange(0, i as int)),
        decreases v@.len() - i,
    {
        let ghost pre = vv.subrange(0, i as int);
        let ghost pre2 = vv.subrange(0, i + 1);
        proof {
            assert(pre2.drop_last() =~= pre);
            assert(pre2.last() == vv[i as int]);
            lemma_dedup_membership(pre, vv[i as int]);
        }
        let present = strings_contain(&out, &v[i]);
        if !present {
            let x = v[i].clone();
            assert(x@ == vv[i as int]);
            out.push(x);
            assert(out@.map_values(|s: String| s@) =~= spec_dedup(pre).push(vv[i as int]));
        }
        i = i + 1;
    }
    assert(vv.subrange(0, vv.len() as int) =~= vv);
    out
}

// ---------------------------------------------------------------------------
// filtering
// ---------------------------------------------------------------------------

/// The elements of `s` satisfying `pred`, in order. Open so that proofs can
/// unfold it one element at a time.
pub open spec fn seq_filter<A>(s: Seq<A>, pred: spec_fn(A) -> bool) -> Seq<A>
    decreases s.len(),
{
    if s.len() == 0 {
        s
    } else {
        let rest = seq_filter(s.drop_last(), pred);
        if pred(s.last()) {
            rest.push(s.last())
        } else {
            rest
        }
    }
}

/// A value is kept by a filter exactly when some element equal to it
/// satisfies the predicate.
pub proof fn lemma_seq_filter_contains<A>(s: Seq<A>, pred: spec_fn(A) -> bool, x: A)
    ensures
        seq_filter(s, pred).contains(x) == (s.contains(x) && pred(x)),
    decreases s.len(),
{
    if s.len() > 0 {
        lemma_seq_filter_contains(s.drop_last(), pred, x);
        let f = seq_filter(s, pred);
        let fr = seq_filter(s.drop_last(), pred);
        if s.contains(x) && pred(x) {
            if s.last() == x {
                assert(f[f.len() - 1] == x);
                assert(f.contains(x));
            } else {
                let i = choose|i: int| 0 <= i < s.len() && s[i] == x;
                assert(s.drop_last()[i] == x);
                assert(s.drop_last().contains(x));
                let j = choose|j: int| 0 <= j < fr.len() && fr[j] == x;
                if pred(s.last()) {
                    assert(f[j] == x);
                } else {
                    assert(f[j] == x);
                }
                assert(f.contains(x));
            }
        } else {
            if f.contains(x) {
                let i = choose|i: int| 0 <= i < f.len() && f[i] == x;
                if pred(s.last()) && i == f.len() - 1 {
                    assert(x == s.last());
                    assert(s[s.len() - 1] == x);
                    assert(s.contains(x));
                } else {
                    assert(fr[i] == x);
                    assert(fr.contains(x));
                    let j = choose|j: int| 0 <= j < s.drop_last().len() && s.drop_last()[j]
                        == x;
                    assert(s[j] == x);
                    assert(s.contains(x));
                }
            }
        }
    }
}

/// Every element a filter keeps satisfies the predicate and comes from the
/// original sequence.
pub proof fn lemma_seq_filter_elements<A>(s: Seq<A>, pred: spec_fn(A) -> bool)
    ensures
        forall|i: int| 0 <= i < seq_filter(s, pred).len() ==> pred(
            #[trigger] seq_filter(s, pred)[i],
        ) && s.contains(seq_filter(s, pred)[i]),
        seq_filter(s, pred).len() <= s.len(),
    decreases s.len(),
{
    if s.len() > 0 {
        lemma_seq_filter_elements(s.drop_last(), pred);
        let f = seq_filter(s, pred);
        let fr = seq_filter(s.drop_last(), pred);
        assert(s.contains(s.last())) by {
            assert(s[s.len() - 1] == s.last());
        }
        assert forall|i: int| 0 <= i < f.len() implies pred(#[trigger] f[i]) && s.contains(
            f[i],
        ) by {
            if pred(s.last()) && i == f.len() - 1 {
            } else {
                assert(f[i] == fr[i]);
                assert(s.drop_last().contains(fr[i]));
                let j = choose|j: int| 0 <= j < s.drop_last().len() && s.drop_last()[j]
                    == fr[i];
                assert(s[j] == fr[i]);
            }
        }
    }
}

// ---------------------------------------------------------------------------
// the boolean reading of a configuration value
// ---------------------------------------------------------------------------

/// Whether a configuration value lowercases to `"true"`. Only the four
/// ASCII letters have a Unicode lowercase equal to `t`, `r`, `u` or `e`,
/// so comparing case-insensitively on ASCII agrees with lowercasing first.
pub open spec fn spec_is_true_config(s: Seq<char>) -> bool {
    s.len() == 4 && (s[0] == 't' || s[0] == 'T') && (s[1] == 'r' || s[1] == 'R') && (s[2]
        == 'u' || s[2] == 'U') && (s[3] == 'e' || s[3] == 'E')
}

pub fn is_true_config(s: &Vec<char>) -> (r: bool)
    ensures
        r == spec_is_true_config(s@),
{
    s.len() == 4 && (s[0] == 't' || s[0] == 'T') && (s[1] == 'r' || s[1] == 'R') && (s[2]
        == 'u' || s[2] == 'U') && (s[3] == 'e' || s[3] == 'E')
}

} // verus!

verus! {

// ---------------------------------------------------------------------------
// string equality, decided over characters
// ---------------------------------------------------------------------------

/// Whether two strings have the same characters.
pub fn str_eq(a: &str, b: &str) -> (r: bool)
    ensures
        r == (a@ == b@),
{
    let va = chars_of_str(a);
    let vb = chars_of_str(b);
    if va.len() != vb.len() {
        return false;
    }
    let n = va.len();
    let mut i: usize = 0;
    while i < n
        invariant
            i <= n,
            n == va@.len(),
            n == vb@.len(),
            va@ == a@,
            vb@ == b@,
            forall|j: int| 0 <= j < i ==> va@[j] == vb@[j],
        decreases n - i,
    {
        if va[i] != vb[i] {
            assert(a@[i as int] != b@[i as int]);
            return false;
        }
        i = i + 1;
    }
    assert(a@ =~= b@);
    true
}

/// Whether an optional string is present with exactly these characters.
pub fn opt_str_eq(a: &Option<String>, b: &str) -> (r: bool)
    ensures
        r == (match a {
            Some(s) => s@ == b@,
            None => false,
        }),
{
    match a {
        Some(s) => str_eq(s.as_str(), b),
        None => false,
    }
}

} // verus!



verus! {

/// A filter that keeps every element returns the sequence unchanged.
pub proof fn lemma_seq_filter_all_true<A>(s: Seq<A>, pred: spec_fn(A) -> bool)
    requires
        forall|i: int| 0 <= i < s.len() ==> pred(#[trigger] s[i]),
    ensures
        seq_filter(s, pred) == s,
    decreases s.len(),
{
    if s.len() > 0 {
        assert(forall|i: int| 0 <= i < s.len() - 1 ==> pred(#[trigger] s.drop_last()[i])) by {
            assert(forall|i: int| 0 <= i < s.len() - 1 ==> s.drop_last()[i] == s[i]);
        }
        lemma_seq_filter_all_true(s.drop_last(), pred);
        assert(pred(s[s.len() - 1]));
        assert(seq_filter(s, pred) =~= s);
    }
}

} // verus!

verus! {

/// Splitting on semicolon: tokens between separators, empty tokens kept,
/// accumulated left to right.
pub open spec fn spec_split_semis_acc(s: Seq<char>, cur: Seq<char>) -> Seq<Seq<char>>
    decreases s.len(),
{
    if s.len() == 0 {
        seq![cur]
    } else if s[0] == ';' {
        seq![cur] + spec_split_semis_acc(s.drop_first(), Seq::empty())
    } else {
        spec_split_semis_acc(s.drop_first(), cur.push(s[0]))
    }
}

fn split_semis_from(s: &Vec<char>, i: usize, cur: Vec<char>) -> (r: Vec<Vec<char>>)
    requires
        i <= s@.len(),
    ensures
        r@.map_values(|t: Vec<char>| t@) == spec_split_semis_acc(
            s@.subrange(i as int, s@.len() as int),
            cur@,
        ),
    decreases s@.len() - i,
{
    let ghost sub = s@.subrange(i as int, s@.len() as int);
    if i == s.len() {
        assert(sub =~= Seq::<char>::empty());
        let mut r: Vec<Vec<char>> = Vec::new();
        r.push(cur);
        assert(r@.map_values(|t: Vec<char>| t@) =~= seq![cur@]);
        r
    } else {
        assert(sub.drop_first() =~= s@.subrange(i + 1, s@.len() as int));
        if s[i] == ';' {
            let rest = split_semis_from(s, i + 1, Vec::new());
            let mut r: Vec<Vec<char>> = Vec::new();
            r.push(cur);
            let mut rest = rest;
            let ghost rest_view = rest@.map_values(|t: Vec<char>| t@);
            r.append(&mut rest);
            assert(r@.map_values(|t: Vec<char>| t@) =~= seq![cur@] + rest_view);
            r
        } else {
            let mut cur2 = cur;
            let c = s[i];
            cur2.push(c);
            split_semis_from(s, i + 1, cur2)
        }
    }
}

/// The semicolon-separated tokens of `s`, empty tokens included.
pub fn split_semis_chars(s: &Vec<char>) -> (r: Vec<Vec<char>>)
    ensures
        r@.map_values(|t: Vec<char>| t@) == spec_split_semis_acc(s@, Seq::empty()),
{
    assert(s@.subrange(0, s@.len() as int) =~= s@);
    split_semis_from(s, 0, Vec::new())
}

} // verus!

verus! {

/// Deduplication leaves no repetitions.
pub proof fn lemma_dedup_no_dup(s: Seq<Seq<char>>)
    ensures
        spec_dedup(s).no_duplicates(),
    decreases s.len(),
{
    if s.len() > 0 {
        lemma_dedup_no_dup(s.drop_last());
        let prefix = spec_dedup(s.drop_last());
        if !s.drop_last().contains(s.last()) {
            lemma_dedup_membership(s.drop_last(), s.last());
            assert(!prefix.contains(s.last()));
            let r = prefix.push(s.last());
            assert forall|i: int, j: int| 0 <= i < r.len() && 0 <= j < r.len() && i != j
                implies r[i] != r[j] by {
                if i < prefix.len() && j < prefix.len() {
                    assert(r[i] == prefix[i] && r[j] == prefix[j]);
                } else if i == prefix.len() {
                    assert(r[j] == prefix[j]);
                    if r[i] == r[j] {
                        assert(prefix.contains(r[i]));
                    }
                } else {
                    assert(r[i] == prefix[i]);
                    if r[i] == r[j] {
                        assert(prefix.contains(r[j]));
                    }
                }
            }
        }
    }
}

} // verus!

verus! {

/// Any relation that holds of every pair of distinct elements still holds
/// of every pair of distinct elements a filter keeps.
pub proof fn lemma_seq_filter_pairwise<A>(
    s: Seq<A>,
    pred: spec_fn(A) -> bool,
    rel: spec_fn(A, A) -> bool,
)
    requires
        forall|i: int, j: int| 0 <= i < s.len() && 0 <= j < s.len() && i != j ==> rel(
            #[trigger] s[i],
            #[trigger] s[j],
        ),
    ensures
        forall|i: int, j: int|
            0 <= i < seq_filter(s, pred).len() && 0 <= j < seq_filter(s, pred).len() && i != j
                ==> rel(#[trigger] seq_filter(s, pred)[i], #[trigger] seq_filter(s, pred)[j]),
    decreases s.len(),
{
    if s.len() > 0 {
        let prior = s.drop_last();
        assert(forall|i: int, j: int| 0 <= i < prior.len() && 0 <= j < prior.len() && i != j
            ==> rel(#[trigger] prior[i], #[trigger] prior[j])) by {
            assert(forall|i: int| 0 <= i < prior.len() ==> prior[i] == s[i]);
        }
        lemma_seq_filter_pairwise(prior, pred, rel);
        lemma_seq_filter_elements(prior, pred);
        let f = seq_filter(s, pred);
        let fr = seq_filter(prior, pred);
        if pred(s.last()) {
            assert forall|i: int, j: int| 0 <= i < f.len() && 0 <= j < f.len() && i != j
                implies rel(#[trigger] f[i], #[trigger] f[j]) by {
                if i < fr.len() && j < fr.len() {
                    assert(f[i] == fr[i] && f[j] == fr[j]);
                } else if i == fr.len() {
                    assert(f[i] == s.last());
                    assert(f[j] == fr[j]);
                    assert(prior.contains(fr[j]));
                    let k = choose|k: int| 0 <= k < prior.len() && prior[k] == fr[j];
                    assert(s[k] == fr[j]);
                    assert(rel(s[s.len() - 1], s[k]));
                } else {
                    assert(f[j] == s.last());
                    assert(f[i] == fr[i]);
                    assert(prior.contains(fr[i]));
                    let k = choose|k: int| 0 <= k < prior.len() && prior[k] == fr[i];
                    assert(s[k] == fr[i]);
                    assert(rel(s[k], s[s.len() - 1]));
                }
            }
        }
    }
}

} // verus!

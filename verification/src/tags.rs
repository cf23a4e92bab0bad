//! The hashtag grammar of a memo. Tags are written on the first line of the
//! content as `#name` tokens; the stored tag field is each name followed by
//! a comma, concatenated. Membership of a tag in a memo is membership of its
//! name among the comma-separated tokens of that field.

use vstd::prelude::*;

use crate::text::{
    chars_of_str, seq_filter, first_line, join_chars, lines_of, replace_all_chars, spec_first_line,
    spec_join, spec_lines, spec_replace_all, spec_split_commas, spec_split_commas_acc,
    spec_split_ws_comma, spec_trim, split_commas_chars, split_ws_comma_chars, string_from_chars,
    trimmed_empty,
};

verus! {

/// The token shape of a hashtag: `#` followed by at least one character.
pub open spec fn spec_token_is_tag(t: Seq<char>) -> bool {
    t.len() > 1 && t[0] == '#'
}

pub open spec fn tag_token_filter() -> spec_fn(Seq<char>) -> bool {
    |t: Seq<char>| spec_token_is_tag(t)
}

pub open spec fn nonempty_filter() -> spec_fn(Seq<char>) -> bool {
    |t: Seq<char>| t.len() > 0
}

/// The hashtags of a memo's content: the tag-shaped tokens of its first
/// line, split on whitespace and commas, in order, repetitions kept.
pub open spec fn spec_parse_tags(content: Seq<char>) -> Seq<Seq<char>> {
    seq_filter(spec_split_ws_comma(spec_first_line(content)), tag_token_filter())
}

/// The stored tag field for a tag list: each name followed by a comma,
/// concatenated; empty for no tags.
pub open spec fn spec_format_tags(tags: Seq<Seq<char>>) -> Seq<char> {
    if tags.len() == 0 {
        Seq::empty()
    } else {
        spec_join(tags, ',') + seq![',']
    }
}

/// The tag names of a stored tag field: its non-empty comma-separated
/// tokens.
pub open spec fn spec_split_tags(tags: Seq<char>) -> Seq<Seq<char>> {
    seq_filter(spec_split_commas(tags), nonempty_filter())
}

pub open spec fn spec_opt_chars(o: Option<Seq<char>>) -> Seq<char> {
    match o {
        Some(s) => s,
        None => Seq::empty(),
    }
}

/// Whether a memo's stored tag field holds the tag `name`.
pub open spec fn spec_field_has_tag(field: Option<Seq<char>>, name: Seq<char>) -> bool {
    spec_split_tags(spec_opt_chars(field)).contains(name)
}

/// The hashtags of the first line of `content`: tokens that begin with `#`
/// and have at least one more character, split on whitespace and commas.
pub fn parse_tags(content: &str) -> (r: Vec<String>)
    ensures
        r@.map_values(|s: String| s@) == spec_parse_tags(content@),
{
    let chars = chars_of_str(content);
    let fl = first_line(&chars);
    let tokens = split_ws_comma_chars(&fl);
    let ghost tv = tokens@.map_values(|t: Vec<char>| t@);
    let mut out: Vec<String> = Vec::new();
    let mut i: usize = 0;
    while i < tokens.len()
        invariant
            i <= tokens@.len(),
            tv == tokens@.map_values(|t: Vec<char>| t@),
            out@.map_values(|s: String| s@) == seq_filter(
                tv.subrange(0, i as int),
                tag_token_filter(),
            ),
        decreases tokens@.len() - i,
    {
        let ghost pre = tv.subrange(0, i as int);
        let ghost pre2 = tv.subrange(0, i + 1);
        proof {
            assert(pre2.drop_last() =~= pre);
            assert(pre2.last() == tv[i as int]);
        }
        let t = &tokens[i];
        assert(t@ == tv[i as int]);
        if t.len() > 1 && t[0] == '#' {
            assert((tag_token_filter())(tv[i as int]));
            let s = string_from_chars(t);
            out.push(s);
            assert(out@.map_values(|s: String| s@) =~= seq_filter(pre, tag_token_filter())
                .push(tv[i as int]));
            assert(seq_filter(pre2, tag_token_filter()) == seq_filter(pre, tag_token_filter())
                .push(tv[i as int]));
        } else {
            assert(!(tag_token_filter())(tv[i as int]));
            assert(seq_filter(pre2, tag_token_filter()) == seq_filter(
                pre,
                tag_token_filter(),
            ));
        }
        i = i + 1;
    }
    assert(tv.subrange(0, tv.len() as int) =~= tv);
    out
}

/// The stored tag field for `tags`: the names joined with commas, with one
/// trailing comma; empty when there are no tags.
pub fn format_tags(tags: &Vec<String>) -> (r: String)
    ensures
        r@ == spec_format_tags(tags@.map_values(|s: String| s@)),
{
    let ghost tv = tags@.map_values(|s: String| s@);
    if tags.len() == 0 {
        let out: Vec<char> = Vec::new();
        return string_from_chars(&out);
    }
    let mut parts: Vec<Vec<char>> = Vec::new();
    let mut i: usize = 0;
    while i < tags.len()
        invariant
            i <= tags@.len(),
            tv == tags@.map_values(|s: String| s@),
            parts@.len() == i,
            forall|j: int| 0 <= j < i ==> (#[trigger] parts@[j])@ == tv[j],
        decreases tags@.len() - i,
    {
        let cs = chars_of_str(tags[i].as_str());
        assert(cs@ == tv[i as int]);
        parts.push(cs);
        i = i + 1;
    }
    assert(parts@.map_values(|t: Vec<char>| t@) =~= tv);
    let mut joined = join_chars(&parts, ',');
    joined.push(',');
    assert(joined@ =~= spec_join(tv, ',') + seq![',']);
    string_from_chars(&joined)
}

/// The non-empty comma-separated tokens of a stored tag field; an absent
/// field has no tags.
pub fn split_tags(tags: Option<String>) -> (r: Vec<String>)
    ensures
        r@.map_values(|s: String| s@) == spec_split_tags(
            spec_opt_chars(
                match tags {
                    Some(t) => Some(t@),
                    None => None,
                },
            ),
        ),
{
    let field: String = match tags {
        Some(t) => t,
        None => {
            let out: Vec<char> = Vec::new();
            string_from_chars(&out)
        },
    };
    let chars = chars_of_str(field.as_str());
    let tokens = split_commas_chars(&chars);
    let ghost tv = tokens@.map_values(|t: Vec<char>| t@);
    let mut out: Vec<String> = Vec::new();
    let mut i: usize = 0;
    while i < tokens.len()
        invariant
            i <= tokens@.len(),
            tv == tokens@.map_values(|t: Vec<char>| t@),
            out@.map_values(|s: String| s@) == seq_filter(
                tv.subrange(0, i as int),
                nonempty_filter(),
            ),
        decreases tokens@.len() - i,
    {
        let ghost pre = tv.subrange(0, i as int);
        let ghost pre2 = tv.subrange(0, i + 1);
        proof {
            assert(pre2.drop_last() =~= pre);
            assert(pre2.last() == tv[i as int]);
        }
        let t = &tokens[i];
        assert(t@ == tv[i as int]);
        if t.len() > 0 {
            assert((nonempty_filter())(tv[i as int]));
            let s = string_from_chars(t);
            out.push(s);
            assert(out@.map_values(|s: String| s@) =~= seq_filter(pre, nonempty_filter())
                .push(tv[i as int]));
            assert(seq_filter(pre2, nonempty_filter()) == seq_filter(pre, nonempty_filter())
                .push(tv[i as int]));
        } else {
            assert(!(nonempty_filter())(tv[i as int]));
            assert(seq_filter(pre2, nonempty_filter()) == seq_filter(pre, nonempty_filter()));
        }
        i = i + 1;
    }
    assert(tv.subrange(0, tv.len() as int) =~= tv);
    out
}

/// One tag scrubbed from a line: occurrences of `tag,`, then of
/// <code>tag&#32;</code>, then of `tag` itself, all removed.
pub open spec fn spec_strip_tag(line: Seq<char>, tag: Seq<char>) -> Seq<char> {
    spec_replace_all(
        spec_replace_all(
            spec_replace_all(line, tag + seq![','], Seq::empty()),
            tag + seq![' '],
            Seq::empty(),
        ),
        tag,
        Seq::empty(),
    )
}

/// All tags scrubbed from a line, in order.
pub open spec fn spec_strip_tags(line: Seq<char>, tags: Seq<Seq<char>>) -> Seq<char>
    decreases tags.len(),
{
    if tags.len() == 0 {
        line
    } else {
        spec_strip_tags(spec_strip_tag(line, tags[0]), tags.drop_first())
    }
}

proof fn lemma_strip_tags_concat(line: Seq<char>, ts1: Seq<Seq<char>>, ts2: Seq<Seq<char>>)
    ensures
        spec_strip_tags(line, ts1 + ts2) == spec_strip_tags(spec_strip_tags(line, ts1), ts2),
    decreases ts1.len(),
{
    if ts1.len() == 0 {
        assert(ts1 + ts2 =~= ts2);
    } else {
        assert((ts1 + ts2).drop_first() =~= ts1.drop_first() + ts2);
        assert((ts1 + ts2)[0] == ts1[0]);
        lemma_strip_tags_concat(spec_strip_tag(line, ts1[0]), ts1.drop_first(), ts2);
    }
}

/// The content with the parsed tags scrubbed from its first line: each tag
/// removed (with a following comma or space when present), the first line
/// dropped entirely when nothing is left of it, and an all-whitespace
/// content reduced to nothing.
pub open spec fn spec_replace_first_line(content: Seq<char>, tags: Seq<Seq<char>>) -> Seq<
    char,
> {
    if spec_trim(content).len() == 0 {
        Seq::empty()
    } else {
        let lines = spec_lines(content);
        if lines.len() == 0 {
            Seq::empty()
        } else {
            let first = spec_strip_tags(lines[0], tags);
            if spec_trim(first).len() == 0 {
                spec_join(lines.drop_first(), '\n')
            } else {
                spec_join(lines.update(0, first), '\n')
            }
        }
    }
}

fn strip_tag_chars(line: Vec<char>, tag: &String) -> (r: Vec<char>)
    ensures
        r@ == spec_strip_tag(line@, tag@),
{
    let tagc = chars_of_str(tag.as_str());
    let empty: Vec<char> = Vec::new();
    let mut pat1 = tagc.clone();
    pat1.push(',');
    assert(pat1@ =~= tag@ + seq![',']);
    let step1 = replace_all_chars(&line, &pat1, &empty);
    let mut pat2 = tagc.clone();
    pat2.push(' ');
    assert(pat2@ =~= tag@ + seq![' ']);
    let step2 = replace_all_chars(&step1, &pat2, &empty);
    if tagc.len() == 0 {
        step2
    } else {
        replace_all_chars(&step2, &tagc, &empty)
    }
}

/// The content with `tags` scrubbed from its first line, as stored on a
/// saved memo (before the final trim).
pub fn replace_first_line(content: &str, tags: &Vec<String>) -> (r: String)
    ensures
        r@ == spec_replace_first_line(content@, tags@.map_values(|s: String| s@)),
{
    let ghost tv = tags@.map_values(|s: String| s@);
    let chars = chars_of_str(content);
    if trimmed_empty(&chars) {
        let out: Vec<char> = Vec::new();
        return string_from_chars(&out);
    }
    let mut lines = lines_of(&chars);
    let ghost lv = lines@.map_values(|t: Vec<char>| t@);
    if lines.len() == 0 {
        let out: Vec<char> = Vec::new();
        return string_from_chars(&out);
    }
    let mut first: Vec<char> = lines[0].clone();
    let mut i: usize = 0;
    while i < tags.len()
        invariant
            i <= tags@.len(),
            0 < lv.len(),
            tv == tags@.map_values(|s: String| s@),
            first@ == spec_strip_tags(lv[0], tv.subrange(0, i as int)),
        decreases tags@.len() - i,
    {
        let ghost base = spec_strip_tags(lv[0], tv.subrange(0, i as int));
        proof {
            lemma_strip_tags_concat(lv[0], tv.subrange(0, i as int), seq![tv[i as int]]);
            assert(tv.subrange(0, i as int) + seq![tv[i as int]] =~= tv.subrange(0, i + 1));
            assert(seq![tv[i as int]].drop_first() =~= Seq::<Seq<char>>::empty());
            assert(seq![tv[i as int]][0] == tv[i as int]);
            assert(spec_strip_tags(
                spec_strip_tag(base, tv[i as int]),
                Seq::<Seq<char>>::empty(),
            ) == spec_strip_tag(base, tv[i as int]));
            assert(spec_strip_tags(base, seq![tv[i as int]]) == spec_strip_tag(
                base,
                tv[i as int],
            ));
        }
        assert(tags@[i as int]@ == tv[i as int]);
        first = strip_tag_chars(first, &tags[i]);
        i = i + 1;
    }
    assert(tv.subrange(0, tv.len() as int) =~= tv);
    if trimmed_empty(&first) {
        lines.remove(0);
        assert(lines@.map_values(|t: Vec<char>| t@) =~= lv.drop_first());
        let joined = join_chars(&lines, '\n');
        string_from_chars(&joined)
    } else {
        lines.set(0, first);
        assert(lines@.map_values(|t: Vec<char>| t@) =~= lv.update(
            0,
            spec_strip_tags(lv[0], tv),
        ));
        let joined = join_chars(&lines, '\n');
        string_from_chars(&joined)
    }
}

} // verus!

verus! {

// ---------------------------------------------------------------------------
// the round trip between parsing and the stored field
// ---------------------------------------------------------------------------

/// A character that can sit inside a tag name: not a separator of the
/// first-line token grammar.
pub open spec fn spec_tag_char_ok(c: char) -> bool {
    !crate::text::spec_is_space(c) && c != ','
}

pub open spec fn spec_name_clean(t: Seq<char>) -> bool {
    forall|j: int| 0 <= j < t.len() ==> spec_tag_char_ok(#[trigger] t[j])
}

/// Tokens split off the first line contain no separator characters.
pub proof fn lemma_ws_comma_tokens_clean(s: Seq<char>, cur: Seq<char>)
    requires
        spec_name_clean(cur),
    ensures
        forall|i: int| 0 <= i < crate::text::spec_split_ws_comma_acc(s, cur).len()
            ==> spec_name_clean(#[trigger] crate::text::spec_split_ws_comma_acc(s, cur)[i]),
    decreases s.len(),
{
    let r = crate::text::spec_split_ws_comma_acc(s, cur);
    if s.len() == 0 {
        assert forall|i: int| 0 <= i < r.len() implies spec_name_clean(#[trigger] r[i]) by {
            assert(r[i] == cur);
        }
    } else if crate::text::spec_is_space(s[0]) || s[0] == ',' {
        assert(spec_name_clean(Seq::<char>::empty()));
        lemma_ws_comma_tokens_clean(s.drop_first(), Seq::empty());
        let rest = crate::text::spec_split_ws_comma_acc(s.drop_first(), Seq::empty());
        assert(r == seq![cur] + rest);
        assert forall|i: int| 0 <= i < r.len() implies spec_name_clean(#[trigger] r[i]) by {
            if i == 0 {
                assert(r[i] == cur);
            } else {
                assert(r[i] == rest[i - 1]);
                assert(spec_name_clean(rest[i - 1]));
            }
        }
    } else {
        assert(spec_name_clean(cur.push(s[0]))) by {
            assert(forall|j: int| 0 <= j < cur.len() ==> cur.push(s[0])[j] == cur[j]);
            assert(cur.push(s[0])[cur.len() as int] == s[0]);
        }
        lemma_ws_comma_tokens_clean(s.drop_first(), cur.push(s[0]));
        let r2 = crate::text::spec_split_ws_comma_acc(s.drop_first(), cur.push(s[0]));
        assert(r == r2);
        assert forall|i: int| 0 <= i < r.len() implies spec_name_clean(#[trigger] r[i]) by {
            assert(r[i] == r2[i]);
            assert(spec_name_clean(r2[i]));
        }
    }
}

/// Every parsed tag has the `#` shape and contains no separator.
pub proof fn lemma_parsed_tags_clean(content: Seq<char>)
    ensures
        forall|i: int| 0 <= i < spec_parse_tags(content).len() ==> spec_name_clean(
            #[trigger] spec_parse_tags(content)[i],
        ) && spec_parse_tags(content)[i].len() > 1,
{
    let tokens = spec_split_ws_comma(spec_first_line(content));
    lemma_ws_comma_tokens_clean(spec_first_line(content), Seq::empty());
    crate::text::lemma_seq_filter_elements(tokens, tag_token_filter());
    assert forall|i: int| 0 <= i < spec_parse_tags(content).len() implies spec_name_clean(
        #[trigger] spec_parse_tags(content)[i],
    ) && spec_parse_tags(content)[i].len() > 1 by {
        let t = spec_parse_tags(content)[i];
        assert((tag_token_filter())(t));
        assert(tokens.contains(t));
        let j = choose|j: int| 0 <= j < tokens.len() && tokens[j] == t;
    }
}

/// A comma-free run splits as a single token.
proof fn lemma_split_no_comma(s: Seq<char>, cur: Seq<char>)
    requires
        forall|j: int| 0 <= j < s.len() ==> #[trigger] s[j] != ',',
    ensures
        spec_split_commas_acc(s, cur) == seq![cur + s],
    decreases s.len(),
{
    if s.len() == 0 {
        assert(cur + s =~= cur);
    } else {
        assert(s[0] != ',');
        assert(forall|j: int| 0 <= j < s.len() - 1 ==> #[trigger] s.drop_first()[j] != ',')
            by {
            assert(forall|j: int| 0 <= j < s.len() - 1 ==> s.drop_first()[j] == s[j + 1]);
        }
        lemma_split_no_comma(s.drop_first(), cur.push(s[0]));
        assert(cur.push(s[0]) + s.drop_first() =~= cur + s);
    }
}

/// A comma-free token followed by a comma splits off as one token.
proof fn lemma_split_token(t: Seq<char>, r: Seq<char>, cur: Seq<char>)
    requires
        forall|j: int| 0 <= j < t.len() ==> #[trigger] t[j] != ',',
    ensures
        spec_split_commas_acc(t + seq![','] + r, cur) == seq![cur + t] + spec_split_commas_acc(
            r,
            Seq::empty(),
        ),
    decreases t.len(),
{
    let s = t + seq![','] + r;
    if t.len() == 0 {
        assert(s[0] == ',');
        assert(s.drop_first() =~= r);
        assert(cur + t =~= cur);
    } else {
        assert(s[0] == t[0]);
        assert(t[0] != ',');
        assert(s.drop_first() =~= t.drop_first() + seq![','] + r);
        assert(forall|j: int| 0 <= j < t.len() - 1 ==> #[trigger] t.drop_first()[j] != ',')
            by {
            assert(forall|j: int| 0 <= j < t.len() - 1 ==> t.drop_first()[j] == t[j + 1]);
        }
        lemma_split_token(t.drop_first(), r, cur.push(t[0]));
        assert(cur.push(t[0]) + t.drop_first() =~= cur + t);
    }
}

proof fn lemma_split_join(ts: Seq<Seq<char>>)
    requires
        ts.len() >= 1,
        forall|i: int| 0 <= i < ts.len() ==> spec_name_clean(#[trigger] ts[i]),
    ensures
        spec_split_commas(spec_join(ts, ',') + seq![',']) == ts + seq![Seq::<char>::empty()],
    decreases ts.len(),
{
    if ts.len() == 1 {
        assert(spec_join(ts, ',') == ts[0]);
        assert(forall|j: int| 0 <= j < ts[0].len() ==> #[trigger] ts[0][j] != ',') by {
            assert(spec_name_clean(ts[0]));
        }
        assert(spec_join(ts, ',') + seq![','] =~= ts[0] + seq![','] + Seq::<char>::empty());
        lemma_split_token(ts[0], Seq::empty(), Seq::empty());
        assert(spec_split_commas_acc(Seq::<char>::empty(), Seq::empty()) == seq![
            Seq::<char>::empty(),
        ]);
        assert(Seq::<char>::empty() + ts[0] =~= ts[0]);
        assert(seq![ts[0]] + seq![Seq::<char>::empty()] =~= ts + seq![Seq::<char>::empty()]);
    } else {
        let rest = ts.drop_first();
        assert(spec_join(ts, ',') == ts[0] + seq![','] + spec_join(rest, ','));
        assert(spec_join(ts, ',') + seq![','] =~= ts[0] + seq![','] + (spec_join(rest, ',')
            + seq![',']));
        assert(forall|j: int| 0 <= j < ts[0].len() ==> #[trigger] ts[0][j] != ',') by {
            assert(spec_name_clean(ts[0]));
        }
        lemma_split_token(ts[0], spec_join(rest, ',') + seq![','], Seq::empty());
        assert(forall|i: int| 0 <= i < rest.len() ==> spec_name_clean(#[trigger] rest[i]))
            by {
            assert(forall|i: int| 0 <= i < rest.len() ==> rest[i] == ts[i + 1]);
        }
        lemma_split_join(rest);
        assert(Seq::<char>::empty() + ts[0] =~= ts[0]);
        assert(seq![ts[0]] + (rest + seq![Seq::<char>::empty()]) =~= ts + seq![
            Seq::<char>::empty(),
        ]);
    }
}

/// The round trip: the stored tag field of a list of clean, non-empty
/// names splits back into exactly that list.
pub proof fn lemma_format_split_roundtrip(ts: Seq<Seq<char>>)
    requires
        forall|i: int| 0 <= i < ts.len() ==> spec_name_clean(#[trigger] ts[i]) && ts[i].len()
            > 0,
    ensures
        spec_split_tags(spec_format_tags(ts)) == ts,
{
    if ts.len() == 0 {
        assert(spec_format_tags(ts) == Seq::<char>::empty());
        assert(spec_split_commas(Seq::<char>::empty()) == seq![Seq::<char>::empty()]);
        let raw = seq![Seq::<char>::empty()];
        assert(raw.drop_last() =~= Seq::<Seq<char>>::empty());
        assert(raw.last() == Seq::<char>::empty());
        assert(!(nonempty_filter())(Seq::<char>::empty()));
        assert(seq_filter(Seq::<Seq<char>>::empty(), nonempty_filter())
            == Seq::<Seq<char>>::empty());
        assert(seq_filter(raw, nonempty_filter()) == Seq::<Seq<char>>::empty());
        assert(spec_split_tags(Seq::<char>::empty()) =~= ts);
    } else {
        lemma_split_join(ts);
        let raw = ts + seq![Seq::<char>::empty()];
        assert(raw.drop_last() =~= ts);
        assert(raw.last() == Seq::<char>::empty());
        assert(!(nonempty_filter())(Seq::<char>::empty()));
        assert(forall|i: int| 0 <= i < ts.len() ==> (nonempty_filter())(#[trigger] ts[i]));
        crate::text::lemma_seq_filter_all_true(ts, nonempty_filter());
        assert(seq_filter(raw, nonempty_filter()) == seq_filter(ts, nonempty_filter()));
        assert(spec_split_tags(spec_format_tags(ts)) == ts);
    }
}

} // verus!

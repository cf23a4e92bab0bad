//! Splitting a schema script into statements: comment and blank lines are
//! dropped, the rest is joined and cut at semicolons, and each piece is
//! trimmed, empty pieces discarded.

use vstd::prelude::*;

use crate::text::{
    chars_of_str, lines_of, seq_filter, spec_lines, spec_split_semis_acc, spec_trim,
    split_semis_chars, string_from_chars, trim_chars,
};

verus! {

/// Whether a script line carries a statement: not blank once trimmed, and
/// not a `--` comment.
pub open spec fn spec_script_line_kept(l: Seq<char>) -> bool {
    let t = spec_trim(l);
    !(t.len() >= 2 && t[0] == '-' && t[1] == '-') && t.len() != 0
}

pub open spec fn script_line_filter() -> spec_fn(Seq<char>) -> bool {
    |l: Seq<char>| spec_script_line_kept(l)
}

/// The kept lines concatenated, each with a trailing newline.
pub open spec fn spec_script_body(lines: Seq<Seq<char>>) -> Seq<char>
    decreases lines.len(),
{
    if lines.len() == 0 {
        Seq::empty()
    } else {
        spec_script_body(lines.drop_last()) + lines.last() + seq!['\n']
    }
}

pub open spec fn nonempty_stmt_filter() -> spec_fn(Seq<char>) -> bool {
    |t: Seq<char>| t.len() > 0
}

/// The statements of a schema script: comment and blank lines dropped,
/// the rest joined with newlines and split at semicolons, each statement
/// trimmed, empty ones discarded.
pub open spec fn spec_split_sql(input: Seq<char>) -> Seq<Seq<char>> {
    let kept = seq_filter(spec_lines(input), script_line_filter());
    let body = spec_script_body(kept);
    seq_filter(
        spec_split_semis_acc(body, Seq::empty()).map_values(|t: Seq<char>| spec_trim(t)),
        nonempty_stmt_filter(),
    )
}

/// The statements of a schema script, in order.
pub fn split_sql(input: &str) -> (r: Vec<String>)
    ensures
        r@.map_values(|s: String| s@) == spec_split_sql(input@),
{
    let chars = chars_of_str(input);
    let lines = lines_of(&chars);
    let ghost lv = lines@.map_values(|t: Vec<char>| t@);
    let mut body: Vec<char> = Vec::new();
    let mut i: usize = 0;
    while i < lines.len()
        invariant
            i <= lv.len(),
            lv == lines@.map_values(|t: Vec<char>| t@),
            body@ == spec_script_body(seq_filter(lv.subrange(0, i as int), script_line_filter())),
        decreases lv.len() - i,
    {
        let ghost pre = lv.subrange(0, i as int);
        let ghost pre2 = lv.subrange(0, i + 1);
        proof {
            assert(pre2.drop_last() =~= pre);
            assert(pre2.last() == lv[i as int]);
        }
        let line = &lines[i];
        assert(line@ == lv[i as int]);
        let t = trim_chars(line);
        let is_comment = t.len() >= 2 && t[0] == '-' && t[1] == '-';
        let keep = !is_comment && t.len() != 0;
        if keep {
            assert((script_line_filter())(lv[i as int]));
            let ghost body0 = body@;
            let mut lc = line.clone();
            assert(lc@ == lv[i as int]);
            body.append(&mut lc);
            body.push('\n');
            assert(body@ =~= body0 + lv[i as int] + seq!['\n']);
            proof {
                let kept2 = seq_filter(pre2, script_line_filter());
                assert(kept2 == seq_filter(pre, script_line_filter()).push(lv[i as int]));
                assert(kept2.drop_last() =~= seq_filter(pre, script_line_filter()));
                assert(spec_script_body(kept2) == spec_script_body(kept2.drop_last())
                    + lv[i as int] + seq!['\n']);
            }
        } else {
            assert(!(script_line_filter())(lv[i as int]));
        }
        i = i + 1;
    }
    proof {
        assert(lv.subrange(0, lv.len() as int) =~= lv);
    }
    let pieces = split_semis_chars(&body);
    let ghost pv = pieces@.map_values(|t: Vec<char>| t@);
    let mut out: Vec<String> = Vec::new();
    let mut k: usize = 0;
    while k < pieces.len()
        invariant
            k <= pv.len(),
            pv == pieces@.map_values(|t: Vec<char>| t@),
            out@.map_values(|s: String| s@) == seq_filter(
                pv.subrange(0, k as int).map_values(|t: Seq<char>| spec_trim(t)),
                nonempty_stmt_filter(),
            ),
        decreases pv.len() - k,
    {
        let ghost pre = pv.subrange(0, k as int).map_values(|t: Seq<char>| spec_trim(t));
        let ghost pre2 = pv.subrange(0, k + 1).map_values(|t: Seq<char>| spec_trim(t));
        proof {
            assert(pre2.drop_last() =~= pre);
            assert(pre2.last() == spec_trim(pv[k as int]));
        }
        let t = trim_chars(&pieces[k]);
        assert(t@ == spec_trim(pv[k as int]));
        if t.len() > 0 {
            assert((nonempty_stmt_filter())(spec_trim(pv[k as int])));
            let st = string_from_chars(&t);
            out.push(st);
            assert(out@.map_values(|s: String| s@) =~= seq_filter(
                pre,
                nonempty_stmt_filter(),
            ).push(spec_trim(pv[k as int])));
            assert(seq_filter(pre2, nonempty_stmt_filter()) == seq_filter(
                pre,
                nonempty_stmt_filter(),
            ).push(spec_trim(pv[k as int])));
        } else {
            assert(!(nonempty_stmt_filter())(spec_trim(pv[k as int])));
            assert(seq_filter(pre2, nonempty_stmt_filter()) == seq_filter(
                pre,
                nonempty_stmt_filter(),
            ));
        }
        k = k + 1;
    }
    proof {
        assert(pv.subrange(0, pv.len() as int) =~= pv);
        assert(pv.subrange(0, pv.len() as int).map_values(|t: Seq<char>| spec_trim(t))
            =~= pv.map_values(|t: Seq<char>| spec_trim(t)));
    }
    out
}

} // verus!

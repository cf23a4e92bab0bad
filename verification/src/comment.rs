//! Comments: submission with its three gates (the memo's own flag, the
//! global switch, and the anonymous-comment switch), `@name` mention
//! resolution against display names, moderation, and the per-memo listing
//! that hides unapproved anonymous comments from everyone but the memo's
//! author and an administrator.

use vstd::prelude::*;

use crate::auth::{spec_is_admin, AuthUser};
use crate::error::AppError;
use crate::model::{
    clone_opt_string, spec_memo_index, view_opt_string, Comment, CommentV, Memo, MemoV, Store,
    StoreV, UserV,
};
use crate::text::{
    chars_of_str, i64_to_string, spec_dec_i64, spec_is_space, str_eq, string_from_chars,
};

verus! {

// ---------------------------------------------------------------------------
// mentions
// ---------------------------------------------------------------------------

/// The first whitespace position in `s`, if any.
pub open spec fn spec_first_ws(s: Seq<char>) -> Option<int>
    decreases s.len(),
{
    if s.len() == 0 {
        None
    } else if spec_is_space(s[0]) {
        Some(0)
    } else {
        match spec_first_ws(s.drop_first()) {
            Some(i) => Some(i + 1),
            None => None,
        }
    }
}

/// A whitespace position is always inside the sequence.
pub proof fn lemma_first_ws_bounds(s: Seq<char>)
    ensures
        spec_first_ws(s) matches Some(i) ==> 0 <= i < s.len(),
    decreases s.len(),
{
    if s.len() > 0 && !spec_is_space(s[0]) {
        lemma_first_ws_bounds(s.drop_first());
    }
}

/// The `@name` tokens of a comment: each runs from an `@` to the next
/// whitespace, which must follow it; the text after that whitespace is
/// scanned in turn.
pub open spec fn spec_mention_tokens(s: Seq<char>) -> Seq<Seq<char>>
    decreases s.len(),
        via spec_mention_tokens_dec
{
    if s.len() == 0 {
        Seq::empty()
    } else if s[0] != '@' {
        spec_mention_tokens(s.drop_first())
    } else {
        match spec_first_ws(s) {
            None => Seq::empty(),
            Some(w) => seq![s.subrange(1, w)] + spec_mention_tokens(
                s.subrange(w + 1, s.len() as int),
            ),
        }
    }
}

#[via_fn]
proof fn spec_mention_tokens_dec(s: Seq<char>) {
    lemma_first_ws_bounds(s);
}

/// The index of the first user whose display name is exactly `name`.
pub open spec fn spec_display_index(users: Seq<UserV>, name: Seq<char>) -> Option<int>
    decreases users.len(),
{
    if users.len() == 0 {
        None
    } else if users[0].display_name == Some(name) {
        Some(0)
    } else {
        match spec_display_index(users.drop_first(), name) {
            Some(i) => Some(i + 1),
            None => None,
        }
    }
}

/// The mention tokens that resolve to users, in order: the names kept and
/// the ids of the users they named. An empty token never resolves.
pub open spec fn spec_resolve_mentions(users: Seq<UserV>, tokens: Seq<Seq<char>>) -> (
    Seq<Seq<char>>,
    Seq<i32>,
)
    decreases tokens.len(),
{
    if tokens.len() == 0 {
        (Seq::empty(), Seq::empty())
    } else {
        let rest = spec_resolve_mentions(users, tokens.drop_first());
        if tokens[0].len() == 0 {
            rest
        } else {
            match spec_display_index(users, tokens[0]) {
                Some(i) => (seq![tokens[0]] + rest.0, seq![users[i].id] + rest.1),
                None => rest,
            }
        }
    }
}

/// The stored names column: the resolved names joined with commas, absent
/// when nothing resolved.
pub open spec fn spec_mention_names_field(names: Seq<Seq<char>>) -> Option<Seq<char>> {
    if names.len() == 0 {
        None
    } else {
        Some(crate::text::spec_join(names, ','))
    }
}

/// The stored ids column: `#id,` for each resolved user, concatenated;
/// present but empty when nothing resolved, so author-exclusion scans can
/// still run.
pub open spec fn spec_mention_ids_field(ids: Seq<i32>) -> Seq<char>
    decreases ids.len(),
{
    if ids.len() == 0 {
        Seq::empty()
    } else {
        seq!['#'] + spec_dec_i64(ids[0] as int) + seq![','] + spec_mention_ids_field(
            ids.drop_first(),
        )
    }
}

fn first_ws(s: &Vec<char>, from: usize) -> (r: Option<usize>)
    requires
        from <= s@.len(),
    ensures
        match r {
            Some(i) => from <= i && Some(i - from) == spec_first_ws(
                s@.subrange(from as int, s@.len() as int),
            ) && i < s@.len(),
            None => spec_first_ws(s@.subrange(from as int, s@.len() as int)) is None,
        },
    decreases s@.len() - from,
{
    let ghost sub = s@.subrange(from as int, s@.len() as int);
    if from == s.len() {
        assert(sub =~= Seq::<char>::empty());
        return None;
    }
    assert(sub.drop_first() =~= s@.subrange(from + 1, s@.len() as int));
    if crate::text::is_space(s[from]) {
        Some(from)
    } else {
        match first_ws(s, from + 1) {
            Some(i) => Some(i),
            None => None,
        }
    }
}

fn mention_tokens_from(s: &Vec<char>, from: usize) -> (r: Vec<String>)
    requires
        from <= s@.len(),
    ensures
        r@.map_values(|t: String| t@) == spec_mention_tokens(
            s@.subrange(from as int, s@.len() as int),
        ),
    decreases s@.len() - from,
{
    let ghost sub = s@.subrange(from as int, s@.len() as int);
    if from == s.len() {
        assert(sub =~= Seq::<char>::empty());
        let r: Vec<String> = Vec::new();
        assert(r@.map_values(|t: String| t@) =~= Seq::<Seq<char>>::empty());
        return r;
    }
    assert(sub.drop_first() =~= s@.subrange(from + 1, s@.len() as int));
    if s[from] != '@' {
        mention_tokens_from(s, from + 1)
    } else {
        match first_ws(s, from) {
            None => {
                let r: Vec<String> = Vec::new();
                assert(r@.map_values(|t: String| t@) =~= Seq::<Seq<char>>::empty());
                r
            },
            Some(w) => {
                proof {
                    assert(sub[0] == '@');
                    assert(!spec_is_space('@'));
                    assert(spec_first_ws(sub) == (match spec_first_ws(sub.drop_first()) {
                        Some(x) => Some(x + 1),
                        None => None::<int>,
                    }));
                    lemma_first_ws_bounds(sub);
                    lemma_first_ws_bounds(sub.drop_first());
                }
                assert(w > from);
                let mut tok: Vec<char> = Vec::new();
                let mut k = from + 1;
                while k < w
                    invariant
                        from + 1 <= k <= w,
                        w < s@.len(),
                        tok@ == s@.subrange(from + 1, k as int),
                    decreases w - k,
                {
                    tok.push(s[k]);
                    assert(tok@ =~= s@.subrange(from + 1, k + 1));
                    k = k + 1;
                }
                assert(tok@ == s@.subrange(from + 1, w as int));
                assert(tok@ =~= sub.subrange(1, w - from));
                let tok_s = string_from_chars(&tok);
                let rest = mention_tokens_from(s, w + 1);
                let ghost restv = rest@.map_values(|t: String| t@);
                proof {
                    assert(s@.subrange(w + 1, s@.len() as int) =~= sub.subrange(
                        w - from + 1,
                        sub.len() as int,
                    ));
                }
                let mut r: Vec<String> = Vec::new();
                r.push(tok_s);
                let mut rest = rest;
                r.append(&mut rest);
                assert(r@.map_values(|t: String| t@) =~= seq![tok@] + restv);
                r
            },
        }
    }
}

impl Store {
    fn find_display_idx(&self, name: &String) -> (r: Option<usize>)
        ensures
            match r {
                Some(i) => i < self@.users.len() && spec_display_index(self@.users, name@)
                    == Some(i as int),
                None => spec_display_index(self@.users, name@) is None,
            },
    {
        let ghost uv = self@.users;
        proof {
            assert(uv.skip(0) =~= uv);
        }
        let mut i: usize = 0;
        while i < self.users.len()
            invariant
                i <= uv.len(),
                uv == self@.users,
                self@.users.len() == self.users@.len(),
                spec_display_index(uv, name@) == (match spec_display_index(
                    uv.skip(i as int),
                    name@,
                ) {
                    Some(k) => Some(k + i),
                    None => None::<int>,
                }),
            decreases uv.len() - i,
        {
            let ghost rest = uv.skip(i as int);
            proof {
                assert(rest[0] == uv[i as int]);
                assert(rest.drop_first() =~= uv.skip(i + 1));
            }
            let u = &self.users[i];
            assert(u@ == uv[i as int]);
            let matched = match &u.display_name {
                Some(d) => str_eq(d.as_str(), name.as_str()),
                None => false,
            };
            if matched {
                assert(uv[i as int].display_name == Some(name@));
                return Some(i);
            }
            assert(uv[i as int].display_name != Some(name@));
            i = i + 1;
        }
        proof {
            assert(uv.skip(uv.len() as int) =~= Seq::<UserV>::empty());
        }
        None
    }

    /// Resolves the `@name` mentions of a comment against display names:
    /// the two stored columns, names joined with commas (absent when none
    /// resolved) and `#id,` per user (present even when empty).
    pub fn parse_mentions(&self, content: &str) -> (r: (Option<String>, Option<String>))
        ensures
            ({
                let resolved = spec_resolve_mentions(
                    self@.users,
                    spec_mention_tokens(content@),
                );
                &&& view_opt_string(r.0) == spec_mention_names_field(resolved.0)
                &&& view_opt_string(r.1) == Some(spec_mention_ids_field(resolved.1))
            }),
    {
        let chars = chars_of_str(content);
        assert(chars@.subrange(0, chars@.len() as int) =~= chars@);
        let tokens = mention_tokens_from(&chars, 0);
        let ghost tokensv = tokens@.map_values(|t: String| t@);
        let mut names: Vec<String> = Vec::new();
        let mut ids: Vec<i32> = Vec::new();
        let n = tokens.len();
        let mut i: usize = n;
        let ghost uv = self@.users;
        while i > 0
            invariant
                i <= n,
                n == tokens@.len(),
                tokensv == tokens@.map_values(|t: String| t@),
                uv == self@.users,
                ({
                    let resolved = spec_resolve_mentions(
                        uv,
                        tokensv.skip(i as int),
                    );
                    names@.map_values(|t: String| t@) == resolved.0 && ids@ == resolved.1
                }),
            decreases i,
        {
            i = i - 1;
            let ghost rest = tokensv.skip(i + 1);
            let ghost cur = tokensv.skip(i as int);
            proof {
                assert(cur[0] == tokensv[i as int]);
                assert(cur.drop_first() =~= rest);
            }
            let tok = &tokens[i];
            assert(tok@ == tokensv[i as int]);
            if tok.as_str().is_empty() {
            } else {
                match self.find_display_idx(tok) {
                    Some(u) => {
                        let uid = self.users[u].id;
                        assert(uid == uv[spec_display_index(uv, tok@)->0].id);
                        let mut names2: Vec<String> = Vec::new();
                        names2.push(tok.clone());
                        let ghost old_names = names@.map_values(|t: String| t@);
                        let mut old_names_vec = names;
                        names2.append(&mut old_names_vec);
                        names = names2;
                        assert(names@.map_values(|t: String| t@) =~= seq![tokensv[i as int]]
                            + old_names);
                        let mut ids2: Vec<i32> = Vec::new();
                        ids2.push(uid);
                        let ghost old_ids = ids@;
                        let mut old_ids_vec = ids;
                        ids2.append(&mut old_ids_vec);
                        ids = ids2;
                        assert(ids@ =~= seq![uid] + old_ids);
                    },
                    None => {},
                }
            }
        }
        proof {
            assert(tokensv.skip(0) =~= tokensv);
        }
        let names_field: Option<String> = if names.len() == 0 {
            None
        } else {
            let mut parts: Vec<Vec<char>> = Vec::new();
            let mut k: usize = 0;
            let ghost namesv = names@.map_values(|t: String| t@);
            while k < names.len()
                invariant
                    k <= namesv.len(),
                    namesv == names@.map_values(|t: String| t@),
                    parts@.len() == k,
                    forall|j: int| 0 <= j < k ==> (#[trigger] parts@[j])@ == namesv[j],
                decreases namesv.len() - k,
            {
                let cs = chars_of_str(names[k].as_str());
                assert(cs@ == namesv[k as int]);
                parts.push(cs);
                k = k + 1;
            }
            assert(parts@.map_values(|t: Vec<char>| t@) =~= namesv);
            let joined = crate::text::join_chars(&parts, ',');
            Some(string_from_chars(&joined))
        };
        let mut ids_chars: Vec<char> = Vec::new();
        let mut k: usize = 0;
        let ghost idsv = ids@;
        proof {
            assert(idsv.skip(0) =~= idsv);
        }
        while k < ids.len()
            invariant
                k <= idsv.len(),
                idsv == ids@,
                ids_chars@ + spec_mention_ids_field(idsv.skip(k as int))
                    == spec_mention_ids_field(idsv),
            decreases idsv.len() - k,
        {
            let ghost rest = idsv.skip(k as int);
            proof {
                assert(rest[0] == idsv[k as int]);
                assert(rest.drop_first() =~= idsv.skip(k + 1));
            }
            ids_chars.push('#');
            let dec = i64_to_string(ids[k] as i64);
            let dec_chars = chars_of_str(dec.as_str());
            let mut dc = dec_chars;
            ids_chars.append(&mut dc);
            ids_chars.push(',');
            proof {
                assert(ids_chars@ + spec_mention_ids_field(idsv.skip(k + 1))
                    =~= spec_mention_ids_field(idsv));
            }
            k = k + 1;
        }
        proof {
            assert(idsv.skip(idsv.len() as int) =~= Seq::<i32>::empty());
            assert(ids_chars@ =~= spec_mention_ids_field(idsv));
        }
        let ids_field = Some(string_from_chars(&ids_chars));
        (names_field, ids_field)
    }
}

} // verus!

verus! {

// ---------------------------------------------------------------------------
// submitting a comment
// ---------------------------------------------------------------------------

/// A comment as a caller submits it; name, email and link matter only for
/// anonymous commenters.
pub struct SaveCommentRequest {
    pub content: String,
    pub memo_id: i32,
    pub username: Option<String>,
    pub email: Option<String>,
    pub link: Option<String>,
}

pub struct SaveCommentRequestV {
    pub content: Seq<char>,
    pub memo_id: i32,
    pub username: Option<Seq<char>>,
    pub email: Option<Seq<char>>,
    pub link: Option<Seq<char>>,
}

impl View for SaveCommentRequest {
    type V = SaveCommentRequestV;

    open spec fn view(&self) -> SaveCommentRequestV {
        SaveCommentRequestV {
            content: self.content@,
            memo_id: self.memo_id,
            username: view_opt_string(self.username),
            email: view_opt_string(self.email),
            link: view_opt_string(self.link),
        }
    }
}

pub open spec fn spec_opt_auth(o: Option<AuthUser>) -> Option<crate::auth::AuthUserV> {
    match o {
        Some(a) => Some(a@),
        None => None,
    }
}

pub open spec fn spec_opt_or_empty(o: Option<Seq<char>>) -> Seq<char> {
    match o {
        Some(s) => s,
        None => Seq::empty(),
    }
}

/// Every memo with this id with its comment counter raised by one.
pub open spec fn spec_inc_comment(memos: Seq<MemoV>, memo_id: i32) -> Seq<MemoV> {
    memos.map_values(
        |m: MemoV| if m.id == memo_id {
            MemoV { comment_count: crate::memo::spec_inc_opt(m.comment_count), ..m }
        } else {
            m
        },
    )
}

/// Who a comment is recorded for: the stored user's id and display name
/// (or username) when authenticated, the anonymous sentinel and the
/// submitted name otherwise.
pub open spec fn spec_comment_author(
    s: StoreV,
    viewer: Option<crate::auth::AuthUserV>,
    req_username: Option<Seq<char>>,
) -> (i32, Seq<char>) {
    match viewer {
        Some(a) => {
            let u = s.users[crate::model::spec_user_index(s.users, a.user_id)->0];
            (
                u.id,
                match u.display_name {
                    Some(d) => d,
                    None => u.username,
                },
            )
        },
        None => (-1i32, spec_opt_or_empty(req_username)),
    }
}

/// The comment row a submission stores.
pub open spec fn spec_new_comment(
    s: StoreV,
    viewer: Option<crate::auth::AuthUserV>,
    req: SaveCommentRequestV,
    now: i64,
) -> CommentV {
    let author = spec_comment_author(s, viewer, req.username);
    let resolved = spec_resolve_mentions(s.users, spec_mention_tokens(req.content));
    let anonymous = viewer is None;
    let approved_setting = crate::settings::spec_get_boolean(s.configs, "COMMENT_APPROVED"@);
    CommentV {
        id: s.next_comment_id,
        memo_id: req.memo_id,
        content: req.content,
        user_id: author.0,
        user_name: author.1,
        mentioned: spec_mention_names_field(resolved.0),
        created: Some(now),
        updated: Some(now),
        mentioned_user_id: Some(spec_mention_ids_field(resolved.1)),
        email: if anonymous {
            req.email
        } else {
            None
        },
        link: if anonymous {
            req.link
        } else {
            None
        },
        approved: if anonymous {
            Some(
                if approved_setting {
                    0
                } else {
                    1
                },
            )
        } else {
            None
        },
    }
}

/// The store after a successful submission: the row inserted and the
/// memo's comment counter raised by one.
pub open spec fn spec_add_comment(
    s: StoreV,
    viewer: Option<crate::auth::AuthUserV>,
    req: SaveCommentRequestV,
    now: i64,
) -> StoreV {
    StoreV {
        memos: spec_inc_comment(s.memos, req.memo_id),
        comments: s.comments.push(spec_new_comment(s, viewer, req, now)),
        next_comment_id: (s.next_comment_id + 1) as i32,
        ..s
    }
}

impl Store {
    fn inc_comment_count(&mut self, memo_id: i32)
        ensures
            final(self)@ == (StoreV {
                memos: spec_inc_comment(old(self)@.memos, memo_id),
                ..old(self)@
            }),
    {
        let ghost ms0 = self@.memos;
        let n = self.memos.len();
        let mut i: usize = 0;
        while i < n
            invariant
                i <= n,
                n == self.memos@.len(),
                self@.memos.len() == n,
                ms0.len() == n,
                self@ == (StoreV { memos: self@.memos, ..old(self)@ }),
                forall|j: int| 0 <= j < i ==> self@.memos[j] == spec_inc_comment(
                    ms0,
                    memo_id,
                )[j],
                forall|j: int| i <= j < n ==> (#[trigger] self@.memos[j]) == ms0[j],
            decreases n - i,
        {
            let ghost pre = self@.memos;
            assert(pre[i as int] == ms0[i as int]);
            let row = &self.memos[i];
            assert(row@ == ms0[i as int]);
            if row.id == memo_id {
                let new_count: Option<i32> = match row.comment_count {
                    Some(c) => Some(
                        if c < i32::MAX {
                            c + 1
                        } else {
                            c
                        },
                    ),
                    None => None,
                };
                let new_row = Memo {
                    id: row.id,
                    user_id: row.user_id,
                    content: clone_opt_string(&row.content),
                    tags: clone_opt_string(&row.tags),
                    visibility: clone_opt_string(&row.visibility),
                    status: clone_opt_string(&row.status),
                    created: row.created,
                    updated: row.updated,
                    priority: row.priority,
                    comment_count: new_count,
                    like_count: row.like_count,
                    enable_comment: row.enable_comment,
                    view_count: row.view_count,
                    source: clone_opt_string(&row.source),
                };
                assert(new_row@ == (MemoV {
                    comment_count: crate::memo::spec_inc_opt(ms0[i as int].comment_count),
                    ..ms0[i as int]
                }));
                self.memos[i] = new_row;
                proof {
                    assert(self@.memos =~= pre.update(i as int, new_row@));
                    assert(self@.memos[i as int] == spec_inc_comment(ms0, memo_id)[i as int]);
                }
            } else {
                assert(self@.memos[i as int] == spec_inc_comment(ms0, memo_id)[i as int]);
            }
            i = i + 1;
        }
        proof {
            assert(self@.memos =~= spec_inc_comment(ms0, memo_id));
            assert(self@ =~~= (StoreV { memos: spec_inc_comment(ms0, memo_id), ..old(self)@ }));
        }
    }

    /// Submits a comment. The memo must exist and allow comments (its own
    /// flag and the global switch); an anonymous commenter needs the
    /// anonymous-comment switch and is held for approval exactly when the
    /// approval switch is on; an authenticated comment is never held. The
    /// memo's comment counter rises by one in the same transition.
    pub fn add_comment(
        &mut self,
        viewer: &crate::auth::OptionalAuthUser,
        req: &SaveCommentRequest,
        now: i64,
    ) -> (r: Result<(), AppError>)
        requires
            old(self)@.wf(),
        ensures
            ({
                let s = old(self)@;
                let viewer_v = spec_opt_auth(viewer.0);
                let idx = spec_memo_index(s.memos, req@.memo_id);
                let gates_open = idx matches Some(k) && crate::settings::spec_get_boolean(
                    s.configs,
                    "OPEN_COMMENT"@,
                ) && s.memos[k].enable_comment == Some(1i32);
                let author_known = match viewer_v {
                    Some(a) => crate::model::spec_user_index(s.users, a.user_id) is Some,
                    None => crate::settings::spec_get_boolean(s.configs, "ANONYMOUS_COMMENT"@),
                };
                &&& (idx is None ==> (r matches Err(e) && e.spec_code() == 2 && e.spec_msg()
                    == "memo不存在"@ && final(self)@ == s))
                &&& (idx is Some && !gates_open ==> (r matches Err(e) && e.spec_code() == 2
                    && e.spec_msg() == "禁止评论"@ && final(self)@ == s))
                &&& (gates_open && viewer_v is Some && !author_known ==> (r matches Err(e)
                    && e.spec_code() == 2 && e.spec_msg() == "用户不存在"@ && final(self)@
                    == s))
                &&& (gates_open && viewer_v is None && !author_known ==> (r matches Err(e)
                    && e.spec_code() == 2 && e.spec_msg() == "不支持匿名评论"@
                    && final(self)@ == s))
                &&& (gates_open && author_known && s.next_comment_id == i32::MAX ==> (
                r matches Err(e) && e.spec_code() == 99 && final(self)@ == s))
                &&& (gates_open && author_known && s.next_comment_id < i32::MAX ==> (r is Ok
                    && final(self)@ == spec_add_comment(s, viewer_v, req@, now)))
                &&& (r is Ok <==> (gates_open && author_known && s.next_comment_id
                    < i32::MAX))
                &&& final(self)@.wf()
            }),
    {
        let k = match self.find_memo_idx(req.memo_id) {
            Some(k) => k,
            None => {
                assert(self@ =~~= old(self)@);
                return Err(AppError::fail("memo不存在"));
            },
        };
        let open_comment = crate::settings::get_boolean(self, "OPEN_COMMENT");
        let enabled = match self.memos[k].enable_comment {
            Some(v) => v == 1,
            None => false,
        };
        if !open_comment || !enabled {
            assert(self@ =~~= old(self)@);
            return Err(AppError::fail("禁止评论"));
        }
        let (user_id, author_name): (i32, String) = match &viewer.0 {
            Some(a) => {
                match self.find_user_idx(a.user_id) {
                    Some(u) => {
                        let urow = &self.users[u];
                        let name = match &urow.display_name {
                            Some(d) => d.clone(),
                            None => urow.username.clone(),
                        };
                        (urow.id, name)
                    },
                    None => {
                        assert(self@ =~~= old(self)@);
                        return Err(AppError::fail("用户不存在"));
                    },
                }
            },
            None => {
                let anonymous_ok = crate::settings::get_boolean(self, "ANONYMOUS_COMMENT");
                if !anonymous_ok {
                    assert(self@ =~~= old(self)@);
                    return Err(AppError::fail("不支持匿名评论"));
                }
                let name = match &req.username {
                    Some(n) => n.clone(),
                    None => crate::model::empty_string(),
                };
                (-1, name)
            },
        };
        let approved_setting = crate::settings::get_boolean(self, "COMMENT_APPROVED");
        let (names_field, ids_field) = self.parse_mentions(req.content.as_str());
        if self.next_comment_id == i32::MAX {
            assert(self@ =~~= old(self)@);
            return Err(AppError::system_exception());
        }
        let anonymous = viewer.0.is_none();
        let row = Comment {
            id: self.next_comment_id,
            memo_id: req.memo_id,
            content: req.content.clone(),
            user_id,
            user_name: author_name,
            mentioned: names_field,
            created: Some(now),
            updated: Some(now),
            mentioned_user_id: ids_field,
            email: if anonymous {
                clone_opt_string(&req.email)
            } else {
                None
            },
            link: if anonymous {
                clone_opt_string(&req.link)
            } else {
                None
            },
            approved: if anonymous {
                Some(
                    if approved_setting {
                        0
                    } else {
                        1
                    },
                )
            } else {
                None
            },
        };
        assert(row@ == spec_new_comment(old(self)@, spec_opt_auth(viewer.0), req@, now));
        let ghost s0 = self@;
        let id = self.next_comment_id;
        self.inc_comment_count(req.memo_id);
        self.comments.push(row);
        self.next_comment_id = id + 1;
        proof {
            assert(self@.comments =~= s0.comments.push(row@));
            assert(self@ =~~= spec_add_comment(s0, spec_opt_auth(viewer.0), req@, now));
            assert(self@.ids_ok()) by {
                assert(forall|i: int| 0 <= i < s0.comments.len() ==> (
                #[trigger] self@.comments[i]) == s0.comments[i]);
                assert(self@.comments[s0.comments.len() as int].id == id);
                assert(forall|i: int| 0 <= i < s0.memos.len() ==> (
                #[trigger] self@.memos[i]).id == s0.memos[i].id);
            }
            assert(self@.counters_ok()) by {
                assert(forall|i: int| 0 <= i < s0.memos.len() ==> (#[trigger] self@.memos[i])
                    == spec_inc_comment(s0.memos, req@.memo_id)[i]);
            }
        }
        Ok(())
    }
}

} // verus!

verus! {

// ---------------------------------------------------------------------------
// moderation
// ---------------------------------------------------------------------------

/// Every anonymous comment with this comment id marked approved.
pub open spec fn spec_approve_single(comments: Seq<CommentV>, id: i32) -> Seq<CommentV> {
    comments.map_values(
        |c: CommentV| if c.id == id && c.user_id < 0 {
            CommentV { approved: Some(1i32), ..c }
        } else {
            c
        },
    )
}

/// Every anonymous comment on this memo marked approved.
pub open spec fn spec_approve_memo(comments: Seq<CommentV>, memo_id: i32) -> Seq<CommentV> {
    comments.map_values(
        |c: CommentV| if c.memo_id == memo_id && c.user_id < 0 {
            CommentV { approved: Some(1i32), ..c }
        } else {
            c
        },
    )
}

impl Store {
    fn approve_rows(&mut self, by_memo: bool, id: i32)
        ensures
            final(self)@ == (StoreV {
                comments: if by_memo {
                    spec_approve_memo(old(self)@.comments, id)
                } else {
                    spec_approve_single(old(self)@.comments, id)
                },
                ..old(self)@
            }),
    {
        let ghost cs0 = self@.comments;
        let ghost target = if by_memo {
            spec_approve_memo(cs0, id)
        } else {
            spec_approve_single(cs0, id)
        };
        let n = self.comments.len();
        let mut i: usize = 0;
        while i < n
            invariant
                i <= n,
                n == self.comments@.len(),
                self@.comments.len() == n,
                cs0.len() == n,
                target == (if by_memo {
                    spec_approve_memo(cs0, id)
                } else {
                    spec_approve_single(cs0, id)
                }),
                self@ == (StoreV { comments: self@.comments, ..old(self)@ }),
                forall|j: int| 0 <= j < i ==> self@.comments[j] == target[j],
                forall|j: int| i <= j < n ==> (#[trigger] self@.comments[j]) == cs0[j],
            decreases n - i,
        {
            let ghost pre = self@.comments;
            assert(pre[i as int] == cs0[i as int]);
            let row = &self.comments[i];
            assert(row@ == cs0[i as int]);
            let hit = if by_memo {
                row.memo_id == id && row.user_id < 0
            } else {
                row.id == id && row.user_id < 0
            };
            if hit {
                let new_row = Comment {
                    id: row.id,
                    memo_id: row.memo_id,
                    content: row.content.clone(),
                    user_id: row.user_id,
                    user_name: row.user_name.clone(),
                    mentioned: clone_opt_string(&row.mentioned),
                    created: row.created,
                    updated: row.updated,
                    mentioned_user_id: clone_opt_string(&row.mentioned_user_id),
                    email: clone_opt_string(&row.email),
                    link: clone_opt_string(&row.link),
                    approved: Some(1),
                };
                assert(new_row@ == (CommentV { approved: Some(1i32), ..cs0[i as int] }));
                self.comments[i] = new_row;
                proof {
                    assert(self@.comments =~= pre.update(i as int, new_row@));
                    assert(self@.comments[i as int] == target[i as int]);
                }
            } else {
                assert(self@.comments[i as int] == target[i as int]);
            }
            i = i + 1;
        }
        proof {
            assert(self@.comments =~= target);
            assert(self@ =~~= (StoreV { comments: target, ..old(self)@ }));
        }
    }

    /// Approves one pending anonymous comment by its id; authenticated
    /// comments are never touched.
    pub fn approve_comment(&mut self, comment_id: i32)
        ensures
            final(self)@ == (StoreV {
                comments: spec_approve_single(old(self)@.comments, comment_id),
                ..old(self)@
            }),
            old(self)@.wf() ==> final(self)@.wf(),
    {
        let ghost s0 = self@;
        self.approve_rows(false, comment_id);
        proof {
            if s0.wf() {
                assert(self@.ids_ok()) by {
                    assert(forall|i: int| 0 <= i < s0.comments.len() ==> (
                    #[trigger] self@.comments[i]).id == s0.comments[i].id);
                }
                assert(self@.counters_ok());
            }
        }
    }

    /// Approves every pending anonymous comment on one memo;
    /// authenticated comments are never touched.
    pub fn approve_memo_comments(&mut self, memo_id: i32)
        ensures
            final(self)@ == (StoreV {
                comments: spec_approve_memo(old(self)@.comments, memo_id),
                ..old(self)@
            }),
            old(self)@.wf() ==> final(self)@.wf(),
    {
        let ghost s0 = self@;
        self.approve_rows(true, memo_id);
        proof {
            if s0.wf() {
                assert(self@.ids_ok()) by {
                    assert(forall|i: int| 0 <= i < s0.comments.len() ==> (
                    #[trigger] self@.comments[i]).id == s0.comments[i].id);
                }
                assert(self@.counters_ok());
            }
        }
    }

    /// Deletes one comment. Only the owner of the memo it sits on, or an
    /// administrator, may delete it; the memo's comment counter is left
    /// where it is, as the store behaves.
    pub fn remove_comment(&mut self, auth: &AuthUser, comment_id: i32) -> (r: Result<
        (),
        AppError,
    >)
        requires
            old(self)@.wf(),
        ensures
            ({
                let s = old(self)@;
                let uidx = crate::model::spec_user_index(s.users, auth@.user_id);
                let cidx = crate::model::spec_comment_index(s.comments, comment_id);
                &&& (uidx is None ==> (r matches Err(e) && e.spec_code() == 2 && e.spec_msg()
                    == "用户不存在"@ && final(self)@ == s))
                &&& (uidx is Some && cidx is None ==> (r matches Err(e) && e.spec_code() == 2
                    && e.spec_msg() == "评论不存在"@ && final(self)@ == s))
                &&& (uidx is Some && cidx is Some && spec_memo_index(
                    s.memos,
                    s.comments[cidx->0].memo_id,
                ) is None ==> (r matches Err(e) && e.spec_code() == 2 && e.spec_msg()
                    == "memo不存在"@ && final(self)@ == s))
                &&& (uidx is Some && cidx is Some && spec_memo_index(
                    s.memos,
                    s.comments[cidx->0].memo_id,
                ) is Some ==> ({
                    let u = uidx->0;
                    let c = cidx->0;
                    let m = spec_memo_index(s.memos, s.comments[c].memo_id)->0;
                    let allowed = s.users[u].role == Some("ADMIN"@) || s.memos[m].user_id
                        == s.users[u].id;
                    &&& (!allowed ==> (r matches Err(e) && e.spec_code() == 2 && e.spec_msg()
                        == "只能删除自己发的memo的评论"@ && final(self)@ == s))
                    &&& (allowed ==> (r is Ok && final(self)@ == (StoreV {
                        comments: s.comments.remove(c),
                        ..s
                    })))
                }))
                &&& final(self)@.wf()
            }),
    {
        let u = match self.find_user_idx(auth.user_id) {
            Some(u) => u,
            None => {
                assert(self@ =~~= old(self)@);
                return Err(AppError::fail("用户不存在"));
            },
        };
        let c = match self.find_comment_idx(comment_id) {
            Some(c) => c,
            None => {
                assert(self@ =~~= old(self)@);
                return Err(AppError::fail("评论不存在"));
            },
        };
        let memo_id = self.comments[c].memo_id;
        let m = match self.find_memo_idx(memo_id) {
            Some(m) => m,
            None => {
                assert(self@ =~~= old(self)@);
                return Err(AppError::fail("memo不存在"));
            },
        };
        let is_admin = crate::text::opt_str_eq(&self.users[u].role, "ADMIN");
        if !is_admin && self.memos[m].user_id != self.users[u].id {
            assert(self@ =~~= old(self)@);
            return Err(AppError::fail("只能删除自己发的memo的评论"));
        }
        let ghost s0 = self@;
        self.comments.remove(c);
        proof {
            assert(self@.comments =~= s0.comments.remove(c as int));
            assert(self@ =~~= (StoreV { comments: s0.comments.remove(c as int), ..s0 }));
            assert(self@.ids_ok()) by {
                assert(forall|i: int| 0 <= i < self@.comments.len() ==> (
                #[trigger] self@.comments[i]) == s0.comments.remove(c as int)[i]);
            }
            assert(self@.counters_ok());
        }
        Ok(())
    }
}

} // verus!

verus! {

// ---------------------------------------------------------------------------
// the per-memo comment listing
// ---------------------------------------------------------------------------

/// A comment as the listing returns it; timestamps rendered as RFC 3339
/// text.
pub struct CommentDto {
    pub id: i32,
    pub memo_id: i32,
    pub user_name: String,
    pub user_id: i32,
    pub created: Option<String>,
    pub updated: Option<String>,
    pub content: String,
    pub mentioned: Option<String>,
    pub mentioned_user_id: Option<String>,
    pub email: Option<String>,
    pub link: Option<String>,
    pub approved: i32,
}

pub struct CommentDtoV {
    pub id: i32,
    pub memo_id: i32,
    pub user_name: Seq<char>,
    pub user_id: i32,
    pub created: Option<Seq<char>>,
    pub updated: Option<Seq<char>>,
    pub content: Seq<char>,
    pub mentioned: Option<Seq<char>>,
    pub mentioned_user_id: Option<Seq<char>>,
    pub email: Option<Seq<char>>,
    pub link: Option<Seq<char>>,
    pub approved: i32,
}

impl View for CommentDto {
    type V = CommentDtoV;

    open spec fn view(&self) -> CommentDtoV {
        CommentDtoV {
            id: self.id,
            memo_id: self.memo_id,
            user_name: self.user_name@,
            user_id: self.user_id,
            created: view_opt_string(self.created),
            updated: view_opt_string(self.updated),
            content: self.content@,
            mentioned: view_opt_string(self.mentioned),
            mentioned_user_id: view_opt_string(self.mentioned_user_id),
            email: view_opt_string(self.email),
            link: view_opt_string(self.link),
            approved: self.approved,
        }
    }
}

pub open spec fn spec_fmt_opt_ms(o: Option<i64>) -> Option<Seq<char>> {
    match o {
        Some(ms) => crate::timeutil::rfc3339_str_of(ms),
        None => None,
    }
}

pub open spec fn spec_comment_dto(c: CommentV) -> CommentDtoV {
    CommentDtoV {
        id: c.id,
        memo_id: c.memo_id,
        user_name: c.user_name,
        user_id: c.user_id,
        created: spec_fmt_opt_ms(c.created),
        updated: spec_fmt_opt_ms(c.updated),
        content: c.content,
        mentioned: c.mentioned,
        mentioned_user_id: c.mentioned_user_id,
        email: c.email,
        link: c.link,
        approved: match c.approved {
            Some(a) => a,
            None => 0,
        },
    }
}

fn comment_to_dto(c: &Comment) -> (r: CommentDto)
    ensures
        r@ == spec_comment_dto(c@),
{
    CommentDto {
        id: c.id,
        memo_id: c.memo_id,
        user_name: c.user_name.clone(),
        user_id: c.user_id,
        created: match c.created {
            Some(ms) => crate::timeutil::format_rfc3339_ms(ms),
            None => None,
        },
        updated: match c.updated {
            Some(ms) => crate::timeutil::format_rfc3339_ms(ms),
            None => None,
        },
        content: c.content.clone(),
        mentioned: clone_opt_string(&c.mentioned),
        mentioned_user_id: clone_opt_string(&c.mentioned_user_id),
        email: clone_opt_string(&c.email),
        link: clone_opt_string(&c.link),
        approved: match c.approved {
            Some(a) => a,
            None => 0,
        },
    }
}

/// Whether `a` sorts at or before `b` by creation time; a missing time
/// sorts first.
pub open spec fn spec_le_created(a: CommentV, b: CommentV) -> bool {
    match (a.created, b.created) {
        (None, _) => true,
        (Some(_), None) => false,
        (Some(x), Some(y)) => x <= y,
    }
}

/// `c` inserted behind every element it does not sort strictly before,
/// keeping equal creation times in their existing order.
pub open spec fn spec_insert_by_created(sorted: Seq<CommentV>, c: CommentV) -> Seq<CommentV>
    decreases sorted.len(),
{
    if sorted.len() == 0 {
        seq![c]
    } else if spec_le_created(sorted.last(), c) {
        sorted.push(c)
    } else {
        spec_insert_by_created(sorted.drop_last(), c).push(sorted.last())
    }
}

/// The comments in ascending creation order, insertion by insertion.
pub open spec fn spec_sort_by_created(s: Seq<CommentV>) -> Seq<CommentV>
    decreases s.len(),
{
    if s.len() == 0 {
        s
    } else {
        spec_insert_by_created(spec_sort_by_created(s.drop_last()), s.last())
    }
}

fn le_created(a: &Comment, b: &Comment) -> (r: bool)
    ensures
        r == spec_le_created(a@, b@),
{
    match (a.created, b.created) {
        (None, _) => true,
        (Some(_), None) => false,
        (Some(x), Some(y)) => x <= y,
    }
}

fn insert_by_created(sorted: Vec<Comment>, c: Comment) -> (r: Vec<Comment>)
    ensures
        r@.map_values(|x: Comment| x@) == spec_insert_by_created(
            sorted@.map_values(|x: Comment| x@),
            c@,
        ),
    decreases sorted@.len(),
{
    let ghost sv = sorted@.map_values(|x: Comment| x@);
    if sorted.len() == 0 {
        let mut r: Vec<Comment> = Vec::new();
        r.push(c);
        assert(r@.map_values(|x: Comment| x@) =~= seq![c@]);
        r
    } else if le_created(&sorted[sorted.len() - 1], &c) {
        assert(sorted@[sorted@.len() - 1]@ == sv.last());
        let mut r = sorted;
        r.push(c);
        assert(r@.map_values(|x: Comment| x@) =~= sv.push(c@));
        r
    } else {
        assert(sorted@[sorted@.len() - 1]@ == sv.last());
        let mut s2 = sorted;
        let last = s2.pop().unwrap();
        assert(s2@.map_values(|x: Comment| x@) =~= sv.drop_last());
        assert(last@ == sv.last());
        let mut r = insert_by_created(s2, c);
        r.push(last);
        assert(r@.map_values(|x: Comment| x@) =~= spec_insert_by_created(
            sv.drop_last(),
            c@,
        ).push(sv.last()));
        r
    }
}

fn sort_by_created(v: Vec<Comment>) -> (r: Vec<Comment>)
    ensures
        r@.map_values(|x: Comment| x@) == spec_sort_by_created(v@.map_values(|x: Comment| x@)),
    decreases v@.len(),
{
    let ghost vv = v@.map_values(|x: Comment| x@);
    if v.len() == 0 {
        v
    } else {
        let mut v2 = v;
        let last = v2.pop().unwrap();
        assert(v2@.map_values(|x: Comment| x@) =~= vv.drop_last());
        assert(last@ == vv.last());
        let sorted = sort_by_created(v2);
        insert_by_created(sorted, last)
    }
}

/// One page of a memo's comments with the total they are drawn from.
pub struct QueryCommentListResponse {
    pub total: i64,
    pub total_page: i64,
    pub list: Vec<CommentDto>,
}

/// Which comments a viewer may see on a memo: a privileged viewer — an
/// administrator or the memo's own author — sees all of them, everyone
/// else sees authenticated comments and approved anonymous ones.
pub open spec fn comment_visible_filter(memo_id: i32, privileged: bool) -> spec_fn(
    CommentV,
) -> bool {
    |c: CommentV| c.memo_id == memo_id && (privileged || c.user_id > 0 || (c.user_id < 0
        && c.approved == Some(1i32)))
}

/// Whether the viewer moderates this memo's comments: an administrator,
/// or the memo's own author.
pub open spec fn spec_comment_moderator(
    s: StoreV,
    viewer: Option<crate::auth::AuthUserV>,
    memo_id: i32,
) -> bool {
    match viewer {
        Some(a) => a.role == Some("ADMIN"@) || (spec_memo_index(s.memos, memo_id)
            matches Some(k) && s.memos[k].user_id == a.user_id),
        None => false,
    }
}

/// The comments a listing of this memo draws from, in ascending creation
/// order.
pub open spec fn spec_visible_comments(s: StoreV, memo_id: i32, privileged: bool) -> Seq<
    CommentV,
> {
    spec_sort_by_created(
        crate::text::seq_filter(s.comments, comment_visible_filter(memo_id, privileged)),
    )
}

impl Store {
    /// One page of a memo's comments, oldest first. The memo's own author
    /// and an administrator see pending anonymous comments too; everyone
    /// else sees only approved ones. Page and size clamp to one; the page
    /// count is the ceiling of total over size.
    pub fn query_comments(
        &self,
        viewer: &crate::auth::OptionalAuthUser,
        page: i64,
        size: i64,
        memo_id: i32,
    ) -> (r: QueryCommentListResponse)
        requires
            self@.comments.len() <= 0x7fffffff,
        ensures
            ({
                let admin = spec_comment_moderator(self@, spec_opt_auth(viewer.0), memo_id);
                let visible = crate::text::seq_filter(
                    self@.comments,
                    comment_visible_filter(memo_id, admin),
                );
                let sorted = spec_sort_by_created(visible);
                let p = crate::page::spec_clamp_min1(page as int);
                let sz = crate::page::spec_clamp_min1(size as int);
                &&& r.total == visible.len()
                &&& r.total_page as int == crate::page::spec_total_pages(
                    visible.len() as int,
                    sz,
                )
                &&& r.list@.map_values(|d: CommentDto| d@) == crate::page::spec_page_slice(
                    sorted,
                    p,
                    sz,
                ).map_values(|c: CommentV| spec_comment_dto(c))
            }),
    {
        let admin = match &viewer.0 {
            Some(a) => crate::text::opt_str_eq(&a.role, "ADMIN") || (match self.find_memo_idx(
                memo_id,
            ) {
                Some(k) => self.memos[k].user_id == a.user_id,
                None => false,
            }),
            None => false,
        };
        assert(admin == spec_comment_moderator(self@, spec_opt_auth(viewer.0), memo_id));
        let ghost cv = self@.comments;
        let mut visible: Vec<Comment> = Vec::new();
        let mut i: usize = 0;
        while i < self.comments.len()
            invariant
                i <= cv.len(),
                cv == self@.comments,
                self@.comments.len() == self.comments@.len(),
                visible@.map_values(|x: Comment| x@) == crate::text::seq_filter(
                    cv.subrange(0, i as int),
                    comment_visible_filter(memo_id, admin),
                ),
            decreases cv.len() - i,
        {
            let ghost pre = cv.subrange(0, i as int);
            let ghost pre2 = cv.subrange(0, i + 1);
            proof {
                assert(pre2.drop_last() =~= pre);
                assert(pre2.last() == cv[i as int]);
            }
            let row = &self.comments[i];
            assert(row@ == cv[i as int]);
            let keep = row.memo_id == memo_id && (admin || row.user_id > 0 || (row.user_id < 0
                && (match row.approved {
                Some(a) => a == 1,
                None => false,
            })));
            if keep {
                assert((comment_visible_filter(memo_id, admin))(cv[i as int]));
                let copy = Comment {
                    id: row.id,
                    memo_id: row.memo_id,
                    content: row.content.clone(),
                    user_id: row.user_id,
                    user_name: row.user_name.clone(),
                    mentioned: clone_opt_string(&row.mentioned),
                    created: row.created,
                    updated: row.updated,
                    mentioned_user_id: clone_opt_string(&row.mentioned_user_id),
                    email: clone_opt_string(&row.email),
                    link: clone_opt_string(&row.link),
                    approved: row.approved,
                };
                assert(copy@ == cv[i as int]);
                visible.push(copy);
                assert(visible@.map_values(|x: Comment| x@) =~= crate::text::seq_filter(
                    pre,
                    comment_visible_filter(memo_id, admin),
                ).push(cv[i as int]));
            } else {
                assert(!(comment_visible_filter(memo_id, admin))(cv[i as int]));
            }
            i = i + 1;
        }
        proof {
            assert(cv.subrange(0, cv.len() as int) =~= cv);
            crate::text::lemma_seq_filter_elements(
                cv,
                comment_visible_filter(memo_id, admin),
            );
        }
        let total: i64 = visible.len() as i64;
        let sz: i64 = if size < 1 {
            1
        } else {
            size
        };
        let total_page: i64 = total / sz + if total % sz == 0 {
            0
        } else {
            1
        };
        let sorted = sort_by_created(visible);
        let ghost sortedv = sorted@.map_values(|x: Comment| x@);
        proof {
            lemma_sort_by_created_len(crate::text::seq_filter(
                cv,
                comment_visible_filter(memo_id, admin),
            ));
        }
        let (lo, hi) = crate::page::page_bounds(sorted.len(), page, size);
        let mut list: Vec<CommentDto> = Vec::new();
        let mut k = lo;
        while k < hi
            invariant
                lo <= k <= hi <= sorted@.len(),
                sortedv == sorted@.map_values(|x: Comment| x@),
                list@.len() == k - lo,
                forall|j: int| 0 <= j < k - lo ==> (#[trigger] list@[j])@ == spec_comment_dto(
                    sortedv[lo + j],
                ),
            decreases hi - k,
        {
            let dto = comment_to_dto(&sorted[k]);
            assert(dto@ == spec_comment_dto(sortedv[k as int]));
            list.push(dto);
            k = k + 1;
        }
        proof {
            let p = crate::page::spec_clamp_min1(page as int);
            let szs = crate::page::spec_clamp_min1(size as int);
            crate::page::lemma_page_slice_len(sortedv, p, szs);
            assert(crate::page::spec_page_slice(sortedv, p, szs) =~= sortedv.subrange(
                lo as int,
                hi as int,
            ));
            assert(list@.map_values(|d: CommentDto| d@) =~= sortedv.subrange(
                lo as int,
                hi as int,
            ).map_values(|c: CommentV| spec_comment_dto(c)));
        }
        QueryCommentListResponse { total, total_page, list }
    }
}

/// Sorting keeps the number of comments.
proof fn lemma_sort_by_created_len(s: Seq<CommentV>)
    ensures
        spec_sort_by_created(s).len() == s.len(),
    decreases s.len(),
{
    if s.len() > 0 {
        lemma_sort_by_created_len(s.drop_last());
        lemma_insert_by_created_len(spec_sort_by_created(s.drop_last()), s.last());
    }
}

proof fn lemma_insert_by_created_len(sorted: Seq<CommentV>, c: CommentV)
    ensures
        spec_insert_by_created(sorted, c).len() == sorted.len() + 1,
    decreases sorted.len(),
{
    if sorted.len() > 0 && !spec_le_created(sorted.last(), c) {
        lemma_insert_by_created_len(sorted.drop_last(), c);
    }
}

} // verus!

//! The permission-aware memo listing: a filter request and the resolved
//! (or absent) viewer become one predicate over memo rows, applied once
//! for the total and once for the page, with pinned memos first and newer
//! memos before older ones. The visibility boundary is part of the
//! contract: an anonymous page never holds a non-public memo, and nobody
//! is shown another user's private memo.

use vstd::prelude::*;

use crate::auth::{AuthUserV, OptionalAuthUser};
use crate::comment::{spec_fmt_opt_ms, spec_opt_auth};
use crate::memo::spec_rel_exists;
use crate::model::{
    clone_memo, clone_opt_string, view_opt_string, Memo, MemoV, Store, StoreV,
};
use crate::resource::{spec_convert_resource, ResourceDto, ResourceDtoV};
use crate::text::{
    chars_of_str, contains_sub, i64_to_string, seq_filter, spec_contains_sub, spec_dec_i64,
    spec_trim, trimmed_empty,
};
use crate::timeutil::{parse_date, spec_parse_date};

verus! {

// ---------------------------------------------------------------------------
// the filter request
// ---------------------------------------------------------------------------

/// A listing request: absent filters do not constrain.
pub struct ListMemoRequest {
    pub page: Option<i64>,
    pub size: Option<i64>,
    pub tag: Option<String>,
    pub visibility: Option<String>,
    pub user_id: Option<i32>,
    pub begin: Option<String>,
    pub end: Option<String>,
    pub search: Option<String>,
    pub liked: Option<bool>,
    pub commented: Option<bool>,
    pub mentioned: Option<bool>,
}

pub struct ListMemoRequestV {
    pub page: Option<i64>,
    pub size: Option<i64>,
    pub tag: Option<Seq<char>>,
    pub visibility: Option<Seq<char>>,
    pub user_id: Option<i32>,
    pub begin: Option<Seq<char>>,
    pub end: Option<Seq<char>>,
    pub search: Option<Seq<char>>,
    pub liked: Option<bool>,
    pub commented: Option<bool>,
    pub mentioned: Option<bool>,
}

impl View for ListMemoRequest {
    type V = ListMemoRequestV;

    open spec fn view(&self) -> ListMemoRequestV {
        ListMemoRequestV {
            page: self.page,
            size: self.size,
            tag: view_opt_string(self.tag),
            visibility: view_opt_string(self.visibility),
            user_id: self.user_id,
            begin: view_opt_string(self.begin),
            end: view_opt_string(self.end),
            search: view_opt_string(self.search),
            liked: self.liked,
            commented: self.commented,
            mentioned: self.mentioned,
        }
    }
}

// ---------------------------------------------------------------------------
// the predicate
// ---------------------------------------------------------------------------

/// The visibility boundary, always enforced: an anonymous viewer sees
/// only public memos; an authenticated viewer additionally sees protected
/// memos and their own private ones.
pub open spec fn spec_memo_visible(viewer: Option<AuthUserV>, m: MemoV) -> bool {
    match viewer {
        None => m.visibility == Some("PUBLIC"@),
        Some(a) => m.visibility == Some("PUBLIC"@) || m.visibility == Some("PROTECT"@) || (
        m.visibility == Some("PRIVATE"@) && m.user_id == a.user_id),
    }
}

/// Whether some comment on the memo was written by this user.
pub open spec fn spec_has_comment_by(s: StoreV, memo_id: i32, uid: i32) -> bool {
    exists|i: int| 0 <= i < s.comments.len() && (#[trigger] s.comments[i]).memo_id == memo_id
        && s.comments[i].user_id == uid
}

/// The `#id,` token that marks a mention of this user.
pub open spec fn spec_mention_pat(uid: i32) -> Seq<char> {
    seq!['#'] + spec_dec_i64(uid as int) + seq![',']
}

/// Whether some comment on the memo mentions this user.
pub open spec fn spec_has_mention_of(s: StoreV, memo_id: i32, uid: i32) -> bool {
    exists|i: int| 0 <= i < s.comments.len() && (#[trigger] s.comments[i]).memo_id == memo_id
        && (match s.comments[i].mentioned_user_id {
        Some(f) => spec_contains_sub(f, spec_mention_pat(uid)),
        None => false,
    })
}

/// One memo row against the whole request: normal status, the visibility
/// boundary, and every active filter — substring search, a creation-time
/// window (only when both bounds parse), the author filter (positive ids
/// only), the liked / commented / mentioned joins (authenticated viewers
/// only), the tag token, and the exact visibility filter.
pub open spec fn spec_listing_pred(
    s: StoreV,
    viewer: Option<AuthUserV>,
    req: ListMemoRequestV,
    m: MemoV,
) -> bool {
    &&& m.status == Some("NORMAL"@)
    &&& (match req.search {
        Some(q) => q.len() == 0 || (m.content matches Some(c) && spec_contains_sub(c, q)),
        None => true,
    })
    &&& (match (req.begin, req.end) {
        (Some(b), Some(e)) => match (spec_parse_date(b), spec_parse_date(e)) {
            (Some(bv), Some(ev)) => m.created matches Some(c) && bv <= c <= ev,
            _ => true,
        },
        _ => true,
    })
    &&& spec_memo_visible(viewer, m)
    &&& (match req.user_id {
        Some(u) => u <= 0 || m.user_id == u,
        None => true,
    })
    &&& (viewer is Some && req.liked == Some(true) ==> spec_rel_exists(
        s.relations,
        m.id,
        viewer->0.user_id,
        "LIKE"@,
    ))
    &&& (viewer is Some && req.commented == Some(true) ==> (if req.mentioned == Some(true) {
        spec_has_mention_of(s, m.id, viewer->0.user_id)
    } else {
        spec_has_comment_by(s, m.id, viewer->0.user_id)
    }))
    &&& (match req.tag {
        Some(t) => spec_trim(t).len() == 0 || (m.tags matches Some(f) && spec_contains_sub(
            f,
            t + seq![','],
        )),
        None => true,
    })
    &&& (match req.visibility {
        Some(v) => spec_trim(v).len() == 0 || m.visibility == Some(v),
        None => true,
    })
}

pub open spec fn listing_filter(
    s: StoreV,
    viewer: Option<AuthUserV>,
    req: ListMemoRequestV,
) -> spec_fn(MemoV) -> bool {
    |m: MemoV| spec_listing_pred(s, viewer, req, m)
}

// ---------------------------------------------------------------------------
// ordering
// ---------------------------------------------------------------------------

pub open spec fn spec_pr_key(m: MemoV) -> int {
    match m.priority {
        Some(p) => p as int,
        None => -0x80000001,
    }
}

pub open spec fn spec_cr_key(m: MemoV) -> int {
    match m.created {
        Some(c) => c as int,
        None => -0x8000000000000001,
    }
}

/// Whether `a` sorts at or before `b`: by descending priority first when
/// the listing is not filtered by liked/commented/mentioned, then by
/// descending creation time.
pub open spec fn spec_le_listing(use_priority: bool, a: MemoV, b: MemoV) -> bool {
    if use_priority {
        spec_pr_key(a) > spec_pr_key(b) || (spec_pr_key(a) == spec_pr_key(b) && spec_cr_key(a)
            >= spec_cr_key(b))
    } else {
        spec_cr_key(a) >= spec_cr_key(b)
    }
}

pub open spec fn spec_insert_listing(
    use_priority: bool,
    sorted: Seq<MemoV>,
    m: MemoV,
) -> Seq<MemoV>
    decreases sorted.len(),
{
    if sorted.len() == 0 {
        seq![m]
    } else if spec_le_listing(use_priority, sorted.last(), m) {
        sorted.push(m)
    } else {
        spec_insert_listing(use_priority, sorted.drop_last(), m).push(sorted.last())
    }
}

/// The listing order: insertion by insertion, equal keys keeping their
/// store order, so resource rows flattened later stay stable.
pub open spec fn spec_sort_listing(use_priority: bool, s: Seq<MemoV>) -> Seq<MemoV>
    decreases s.len(),
{
    if s.len() == 0 {
        s
    } else {
        spec_insert_listing(use_priority, spec_sort_listing(use_priority, s.drop_last()), s.last())
    }
}

proof fn lemma_insert_listing_len(use_priority: bool, sorted: Seq<MemoV>, m: MemoV)
    ensures
        spec_insert_listing(use_priority, sorted, m).len() == sorted.len() + 1,
    decreases sorted.len(),
{
    if sorted.len() > 0 && !spec_le_listing(use_priority, sorted.last(), m) {
        lemma_insert_listing_len(use_priority, sorted.drop_last(), m);
    }
}

pub proof fn lemma_sort_listing_len(use_priority: bool, s: Seq<MemoV>)
    ensures
        spec_sort_listing(use_priority, s).len() == s.len(),
    decreases s.len(),
{
    if s.len() > 0 {
        lemma_sort_listing_len(use_priority, s.drop_last());
        lemma_insert_listing_len(
            use_priority,
            spec_sort_listing(use_priority, s.drop_last()),
            s.last(),
        );
    }
}

proof fn lemma_insert_listing_membership(
    use_priority: bool,
    sorted: Seq<MemoV>,
    m: MemoV,
    x: MemoV,
)
    ensures
        spec_insert_listing(use_priority, sorted, m).contains(x) == (sorted.contains(x) || x
            == m),
    decreases sorted.len(),
{
    let r = spec_insert_listing(use_priority, sorted, m);
    if sorted.len() == 0 {
        assert(r == seq![m]);
        assert(r.contains(x) == (x == m)) by {
            if x == m {
                assert(r[0] == x);
            } else if r.contains(x) {
                let i = choose|i: int| 0 <= i < r.len() && r[i] == x;
                assert(i == 0);
            }
        }
    } else if spec_le_listing(use_priority, sorted.last(), m) {
        assert(r == sorted.push(m));
        assert(r.contains(x) == (sorted.contains(x) || x == m)) by {
            if sorted.contains(x) {
                let i = choose|i: int| 0 <= i < sorted.len() && sorted[i] == x;
                assert(r[i] == x);
            }
            if x == m {
                assert(r[sorted.len() as int] == x);
            }
            if r.contains(x) {
                let i = choose|i: int| 0 <= i < r.len() && r[i] == x;
                if i < sorted.len() {
                    assert(sorted[i] == x);
                }
            }
        }
    } else {
        lemma_insert_listing_membership(use_priority, sorted.drop_last(), m, x);
        let inner = spec_insert_listing(use_priority, sorted.drop_last(), m);
        assert(r == inner.push(sorted.last()));
        assert(r.contains(x) == (inner.contains(x) || x == sorted.last())) by {
            if inner.contains(x) {
                let i = choose|i: int| 0 <= i < inner.len() && inner[i] == x;
                assert(r[i] == x);
            }
            if x == sorted.last() {
                assert(r[inner.len() as int] == x);
            }
            if r.contains(x) {
                let i = choose|i: int| 0 <= i < r.len() && r[i] == x;
                if i < inner.len() {
                    assert(inner[i] == x);
                }
            }
        }
        assert(sorted.contains(x) == (sorted.drop_last().contains(x) || x == sorted.last()))
            by {
            if sorted.drop_last().contains(x) {
                let i = choose|i: int| 0 <= i < sorted.len() - 1 && sorted.drop_last()[i] == x;
                assert(sorted[i] == x);
            }
            if x == sorted.last() {
                assert(sorted[sorted.len() - 1] == x);
            }
            if sorted.contains(x) {
                let i = choose|i: int| 0 <= i < sorted.len() && sorted[i] == x;
                if i < sorted.len() - 1 {
                    assert(sorted.drop_last()[i] == x);
                }
            }
        }
    }
}

/// Sorting neither adds nor loses memos.
pub proof fn lemma_sort_listing_membership(use_priority: bool, s: Seq<MemoV>, x: MemoV)
    ensures
        spec_sort_listing(use_priority, s).contains(x) == s.contains(x),
    decreases s.len(),
{
    if s.len() > 0 {
        lemma_sort_listing_membership(use_priority, s.drop_last(), x);
        lemma_insert_listing_membership(
            use_priority,
            spec_sort_listing(use_priority, s.drop_last()),
            s.last(),
            x,
        );
        assert(s.contains(x) == (s.drop_last().contains(x) || x == s.last())) by {
            if s.drop_last().contains(x) {
                let i = choose|i: int| 0 <= i < s.len() - 1 && s.drop_last()[i] == x;
                assert(s[i] == x);
            }
            if x == s.last() {
                assert(s[s.len() - 1] == x);
            }
            if s.contains(x) {
                let i = choose|i: int| 0 <= i < s.len() && s[i] == x;
                if i < s.len() - 1 {
                    assert(s.drop_last()[i] == x);
                }
            }
        }
    }
}

} // verus!

verus! {

// ---------------------------------------------------------------------------
// evaluating the predicate
// ---------------------------------------------------------------------------

impl Store {
    fn has_comment_by(&self, memo_id: i32, uid: i32) -> (r: bool)
        ensures
            r == spec_has_comment_by(self@, memo_id, uid),
    {
        let mut i: usize = 0;
        while i < self.comments.len()
            invariant
                i <= self@.comments.len(),
                self@.comments.len() == self.comments@.len(),
                forall|j: int| 0 <= j < i ==> !((#[trigger] self@.comments[j]).memo_id
                    == memo_id && self@.comments[j].user_id == uid),
            decreases self@.comments.len() - i,
        {
            let c = &self.comments[i];
            assert(c@ == self@.comments[i as int]);
            if c.memo_id == memo_id && c.user_id == uid {
                return true;
            }
            i = i + 1;
        }
        false
    }

    fn has_mention_of(&self, memo_id: i32, pat: &Vec<char>, uid: i32) -> (r: bool)
        requires
            pat@ == spec_mention_pat(uid),
        ensures
            r == spec_has_mention_of(self@, memo_id, uid),
    {
        let mut i: usize = 0;
        while i < self.comments.len()
            invariant
                i <= self@.comments.len(),
                self@.comments.len() == self.comments@.len(),
                pat@ == spec_mention_pat(uid),
                forall|j: int| 0 <= j < i ==> !((#[trigger] self@.comments[j]).memo_id
                    == memo_id && (match self@.comments[j].mentioned_user_id {
                    Some(f) => spec_contains_sub(f, spec_mention_pat(uid)),
                    None => false,
                })),
            decreases self@.comments.len() - i,
        {
            let c = &self.comments[i];
            assert(c@ == self@.comments[i as int]);
            if c.memo_id == memo_id {
                let hit = match &c.mentioned_user_id {
                    Some(f) => {
                        let fc = chars_of_str(f.as_str());
                        contains_sub(&fc, pat)
                    },
                    None => false,
                };
                if hit {
                    return true;
                }
            }
            i = i + 1;
        }
        false
    }
}

/// The request's time window, when both bounds are present and parse.
pub open spec fn spec_listing_window(req: ListMemoRequestV) -> Option<(i64, i64)> {
    match (req.begin, req.end) {
        (Some(b), Some(e)) => match (spec_parse_date(b), spec_parse_date(e)) {
            (Some(bv), Some(ev)) => Some((bv, ev)),
            _ => None,
        },
        _ => None,
    }
}

impl Store {
    /// Whether one memo row passes the whole request for this viewer.
    fn memo_passes(
        &self,
        viewer: &OptionalAuthUser,
        req: &ListMemoRequest,
        window: Option<(i64, i64)>,
        mention_pat: &Vec<char>,
        m: &Memo,
    ) -> (r: bool)
        requires
            window == spec_listing_window(req@),
            viewer.0 matches Some(a) ==> mention_pat@ == spec_mention_pat(a.user_id),
        ensures
            r == spec_listing_pred(self@, spec_opt_auth(viewer.0), req@, m@),
    {
        let status_ok = crate::text::opt_str_eq(&m.status, "NORMAL");
        if !status_ok {
            return false;
        }
        let search_ok = match &req.search {
            Some(q) => {
                if q.as_str().is_empty() {
                    true
                } else {
                    match &m.content {
                        Some(c) => {
                            let cc = chars_of_str(c.as_str());
                            let qc = chars_of_str(q.as_str());
                            contains_sub(&cc, &qc)
                        },
                        None => false,
                    }
                }
            },
            None => true,
        };
        if !search_ok {
            return false;
        }
        let window_ok = match window {
            Some((bv, ev)) => match m.created {
                Some(c) => bv <= c && c <= ev,
                None => false,
            },
            None => true,
        };
        if !window_ok {
            return false;
        }
        let visible = match &viewer.0 {
            None => crate::text::opt_str_eq(&m.visibility, "PUBLIC"),
            Some(a) => crate::text::opt_str_eq(&m.visibility, "PUBLIC")
                || crate::text::opt_str_eq(&m.visibility, "PROTECT") || (crate::text::opt_str_eq(
                &m.visibility,
                "PRIVATE",
            ) && m.user_id == a.user_id),
        };
        if !visible {
            return false;
        }
        let user_ok = match req.user_id {
            Some(u) => u <= 0 || m.user_id == u,
            None => true,
        };
        if !user_ok {
            return false;
        }
        let liked_ok = match &viewer.0 {
            Some(a) => {
                if req.liked == Some(true) {
                    let fav: String = "LIKE".to_owned();
                    self.rel_exists_pub(m.id, a.user_id, &fav)
                } else {
                    true
                }
            },
            None => true,
        };
        if !liked_ok {
            return false;
        }
        let commented_ok = match &viewer.0 {
            Some(a) => {
                if req.commented == Some(true) {
                    if req.mentioned == Some(true) {
                        self.has_mention_of(m.id, mention_pat, a.user_id)
                    } else {
                        self.has_comment_by(m.id, a.user_id)
                    }
                } else {
                    true
                }
            },
            None => true,
        };
        if !commented_ok {
            return false;
        }
        let tag_ok = match &req.tag {
            Some(t) => {
                let tc = chars_of_str(t.as_str());
                if trimmed_empty(&tc) {
                    true
                } else {
                    match &m.tags {
                        Some(f) => {
                            let fc = chars_of_str(f.as_str());
                            let mut pat = tc;
                            pat.push(',');
                            assert(pat@ =~= t@ + seq![',']);
                            contains_sub(&fc, &pat)
                        },
                        None => false,
                    }
                }
            },
            None => true,
        };
        if !tag_ok {
            return false;
        }
        let vis_ok = match &req.visibility {
            Some(v) => {
                let vc = chars_of_str(v.as_str());
                if trimmed_empty(&vc) {
                    true
                } else {
                    match &m.visibility {
                        Some(mv) => crate::text::str_eq(mv.as_str(), v.as_str()),
                        None => false,
                    }
                }
            },
            None => true,
        };
        vis_ok
    }

    /// Whether a like relation for this triple exists.
    pub fn rel_exists_pub(&self, memo_id: i32, user_id: i32, fav: &String) -> (r: bool)
        ensures
            r == spec_rel_exists(self@.relations, memo_id, user_id, fav@),
    {
        let mut i: usize = 0;
        while i < self.relations.len()
            invariant
                i <= self@.relations.len(),
                self@.relations.len() == self.relations@.len(),
                forall|j: int| 0 <= j < i ==> !((#[trigger] self@.relations[j]).memo_id
                    == memo_id && self@.relations[j].user_id == user_id
                    && self@.relations[j].fav_type == fav@),
            decreases self@.relations.len() - i,
        {
            let row = &self.relations[i];
            assert(row@ == self@.relations[i as int]);
            if row.memo_id == memo_id && row.user_id == user_id && crate::text::str_eq(
                row.fav_type.as_str(),
                fav.as_str(),
            ) {
                return true;
            }
            i = i + 1;
        }
        false
    }
}

// ---------------------------------------------------------------------------
// sorting, executably
// ---------------------------------------------------------------------------

fn le_listing(use_priority: bool, a: &Memo, b: &Memo) -> (r: bool)
    ensures
        r == spec_le_listing(use_priority, a@, b@),
{
    if use_priority {
        let pa_gt = match (a.priority, b.priority) {
            (Some(x), Some(y)) => x > y,
            (Some(_), None) => true,
            (None, _) => false,
        };
        let pa_eq = match (a.priority, b.priority) {
            (Some(x), Some(y)) => x == y,
            (None, None) => true,
            _ => false,
        };
        if pa_gt {
            true
        } else if pa_eq {
            le_created_key(a, b)
        } else {
            false
        }
    } else {
        le_created_key(a, b)
    }
}

fn le_created_key(a: &Memo, b: &Memo) -> (r: bool)
    ensures
        r == (spec_cr_key(a@) >= spec_cr_key(b@)),
{
    match (a.created, b.created) {
        (Some(x), Some(y)) => x >= y,
        (Some(_), None) => true,
        (None, None) => true,
        (None, Some(_)) => false,
    }
}

fn insert_listing(use_priority: bool, sorted: Vec<Memo>, m: Memo) -> (r: Vec<Memo>)
    ensures
        r@.map_values(|x: Memo| x@) == spec_insert_listing(
            use_priority,
            sorted@.map_values(|x: Memo| x@),
            m@,
        ),
    decreases sorted@.len(),
{
    let ghost sv = sorted@.map_values(|x: Memo| x@);
    if sorted.len() == 0 {
        let mut r: Vec<Memo> = Vec::new();
        r.push(m);
        assert(r@.map_values(|x: Memo| x@) =~= seq![m@]);
        r
    } else if le_listing(use_priority, &sorted[sorted.len() - 1], &m) {
        assert(sorted@[sorted@.len() - 1]@ == sv.last());
        let mut r = sorted;
        r.push(m);
        assert(r@.map_values(|x: Memo| x@) =~= sv.push(m@));
        r
    } else {
        assert(sorted@[sorted@.len() - 1]@ == sv.last());
        let mut s2 = sorted;
        let last = s2.pop().unwrap();
        assert(s2@.map_values(|x: Memo| x@) =~= sv.drop_last());
        assert(last@ == sv.last());
        let mut r = insert_listing(use_priority, s2, m);
        r.push(last);
        assert(r@.map_values(|x: Memo| x@) =~= spec_insert_listing(
            use_priority,
            sv.drop_last(),
            m@,
        ).push(sv.last()));
        r
    }
}

/// The listing order, executably.
pub fn sort_listing_pub(use_priority: bool, v: Vec<Memo>) -> (r: Vec<Memo>)
    ensures
        r@.map_values(|x: Memo| x@) == spec_sort_listing(
            use_priority,
            v@.map_values(|x: Memo| x@),
        ),
{
    sort_listing(use_priority, v)
}

fn sort_listing(use_priority: bool, v: Vec<Memo>) -> (r: Vec<Memo>)
    ensures
        r@.map_values(|x: Memo| x@) == spec_sort_listing(
            use_priority,
            v@.map_values(|x: Memo| x@),
        ),
    decreases v@.len(),
{
    let ghost vv = v@.map_values(|x: Memo| x@);
    if v.len() == 0 {
        v
    } else {
        let mut v2 = v;
        let last = v2.pop().unwrap();
        assert(v2@.map_values(|x: Memo| x@) =~= vv.drop_last());
        assert(last@ == vv.last());
        let sorted = sort_listing(use_priority, v2);
        insert_listing(use_priority, sorted, last)
    }
}

} // verus!

verus! {

// ---------------------------------------------------------------------------
// enrichment
// ---------------------------------------------------------------------------

/// A memo as the listing returns it: the row, its author's public fields,
/// its attachments, the viewer's like flag, and the count of its pending
/// anonymous comments.
pub struct MemoDto {
    pub id: i32,
    pub user_id: i32,
    pub content: Option<String>,
    pub tags: Option<String>,
    pub visibility: Option<String>,
    pub status: Option<String>,
    pub created: Option<String>,
    pub updated: Option<String>,
    pub author_name: Option<String>,
    pub author_role: Option<String>,
    pub email: Option<String>,
    pub bio: Option<String>,
    pub priority: i32,
    pub comment_count: i32,
    pub un_approved_comment_count: i64,
    pub like_count: i32,
    pub enable_comment: i32,
    pub view_count: i32,
    pub liked: i32,
    pub resources: Vec<ResourceDto>,
    pub source: Option<String>,
}

pub struct MemoDtoV {
    pub id: i32,
    pub user_id: i32,
    pub content: Option<Seq<char>>,
    pub tags: Option<Seq<char>>,
    pub visibility: Option<Seq<char>>,
    pub status: Option<Seq<char>>,
    pub created: Option<Seq<char>>,
    pub updated: Option<Seq<char>>,
    pub author_name: Option<Seq<char>>,
    pub author_role: Option<Seq<char>>,
    pub email: Option<Seq<char>>,
    pub bio: Option<Seq<char>>,
    pub priority: i32,
    pub comment_count: i32,
    pub un_approved_comment_count: i64,
    pub like_count: i32,
    pub enable_comment: i32,
    pub view_count: i32,
    pub liked: i32,
    pub resources: Seq<ResourceDtoV>,
    pub source: Option<Seq<char>>,
}

impl View for MemoDto {
    type V = MemoDtoV;

    open spec fn view(&self) -> MemoDtoV {
        MemoDtoV {
            id: self.id,
            user_id: self.user_id,
            content: view_opt_string(self.content),
            tags: view_opt_string(self.tags),
            visibility: view_opt_string(self.visibility),
            status: view_opt_string(self.status),
            created: view_opt_string(self.created),
            updated: view_opt_string(self.updated),
            author_name: view_opt_string(self.author_name),
            author_role: view_opt_string(self.author_role),
            email: view_opt_string(self.email),
            bio: view_opt_string(self.bio),
            priority: self.priority,
            comment_count: self.comment_count,
            un_approved_comment_count: self.un_approved_comment_count,
            like_count: self.like_count,
            enable_comment: self.enable_comment,
            view_count: self.view_count,
            liked: self.liked,
            resources: self.resources@.map_values(|r: ResourceDto| r@),
            source: view_opt_string(self.source),
        }
    }
}

pub open spec fn opt_i32_or0(o: Option<i32>) -> i32 {
    match o {
        Some(v) => v,
        None => 0,
    }
}

pub open spec fn unapproved_filter(memo_id: i32) -> spec_fn(crate::model::CommentV) -> bool {
    |c: crate::model::CommentV| c.memo_id == memo_id && c.user_id < 0 && c.approved == Some(
        0i32,
    )
}

pub open spec fn memo_resource_filter(memo_id: i32) -> spec_fn(crate::model::ResourceV) -> bool {
    |r: crate::model::ResourceV| r.memo_id == memo_id
}

/// When a resource sorts at or before another in the flattened join: by
/// ascending creation time, a missing time first.
pub open spec fn spec_res_key(r: crate::model::ResourceV) -> int {
    match r.created {
        Some(c) => c as int,
        None => -0x8000000000000001,
    }
}

pub open spec fn spec_insert_res_by_created(
    sorted: Seq<crate::model::ResourceV>,
    r: crate::model::ResourceV,
) -> Seq<crate::model::ResourceV>
    decreases sorted.len(),
{
    if sorted.len() == 0 {
        seq![r]
    } else if spec_res_key(sorted.last()) <= spec_res_key(r) {
        sorted.push(r)
    } else {
        spec_insert_res_by_created(sorted.drop_last(), r).push(sorted.last())
    }
}

/// A memo's attachments in ascending creation order, equal times keeping
/// their table order — the stable tiebreak of the flattened join.
pub open spec fn spec_sort_res_by_created(s: Seq<crate::model::ResourceV>) -> Seq<
    crate::model::ResourceV,
>
    decreases s.len(),
{
    if s.len() == 0 {
        s
    } else {
        spec_insert_res_by_created(spec_sort_res_by_created(s.drop_last()), s.last())
    }
}

fn insert_res_by_created(sorted: Vec<crate::model::Resource>, r: crate::model::Resource) -> (out:
    Vec<crate::model::Resource>)
    ensures
        out@.map_values(|x: crate::model::Resource| x@) == spec_insert_res_by_created(
            sorted@.map_values(|x: crate::model::Resource| x@),
            r@,
        ),
    decreases sorted@.len(),
{
    let ghost sv = sorted@.map_values(|x: crate::model::Resource| x@);
    if sorted.len() == 0 {
        let mut out: Vec<crate::model::Resource> = Vec::new();
        out.push(r);
        assert(out@.map_values(|x: crate::model::Resource| x@) =~= seq![r@]);
        out
    } else {
        assert(sorted@[sorted@.len() - 1]@ == sv.last());
        let last_le = {
            let a = &sorted[sorted.len() - 1];
            match (a.created, r.created) {
                (Some(x), Some(y)) => x <= y,
                (None, _) => true,
                (Some(_), None) => false,
            }
        };
        assert(last_le == (spec_res_key(sv.last()) <= spec_res_key(r@)));
        if last_le {
            let mut out = sorted;
            out.push(r);
            assert(out@.map_values(|x: crate::model::Resource| x@) =~= sv.push(r@));
            out
        } else {
            let mut s2 = sorted;
            let last = s2.pop().unwrap();
            assert(s2@.map_values(|x: crate::model::Resource| x@) =~= sv.drop_last());
            assert(last@ == sv.last());
            let mut out = insert_res_by_created(s2, r);
            out.push(last);
            assert(out@.map_values(|x: crate::model::Resource| x@)
                =~= spec_insert_res_by_created(sv.drop_last(), r@).push(sv.last()));
            out
        }
    }
}

fn sort_res_by_created(v: Vec<crate::model::Resource>) -> (out: Vec<crate::model::Resource>)
    ensures
        out@.map_values(|x: crate::model::Resource| x@) == spec_sort_res_by_created(
            v@.map_values(|x: crate::model::Resource| x@),
        ),
    decreases v@.len(),
{
    let ghost vv = v@.map_values(|x: crate::model::Resource| x@);
    if v.len() == 0 {
        v
    } else {
        let mut v2 = v;
        let last = v2.pop().unwrap();
        assert(v2@.map_values(|x: crate::model::Resource| x@) =~= vv.drop_last());
        assert(last@ == vv.last());
        let sorted = sort_res_by_created(v2);
        insert_res_by_created(sorted, last)
    }
}

/// The served domain: the configured one, or empty.
pub open spec fn spec_domain(s: StoreV) -> Seq<char> {
    match crate::settings::spec_get_string(s.configs, "DOMAIN"@) {
        Some(d) => d,
        None => Seq::empty(),
    }
}

/// The enriched form of one memo row for this viewer.
pub open spec fn spec_memo_dto(s: StoreV, viewer: Option<AuthUserV>, m: MemoV) -> MemoDtoV {
    let domain = spec_domain(s);
    let uidx = crate::model::spec_user_index(s.users, m.user_id);
    MemoDtoV {
        id: m.id,
        user_id: m.user_id,
        content: m.content,
        tags: m.tags,
        visibility: m.visibility,
        status: m.status,
        created: spec_fmt_opt_ms(m.created),
        updated: spec_fmt_opt_ms(m.updated),
        author_name: match uidx {
            Some(u) => s.users[u].display_name,
            None => None,
        },
        author_role: match uidx {
            Some(u) => s.users[u].role,
            None => None,
        },
        email: match uidx {
            Some(u) => s.users[u].email,
            None => None,
        },
        bio: match uidx {
            Some(u) => s.users[u].bio,
            None => None,
        },
        priority: opt_i32_or0(m.priority),
        comment_count: opt_i32_or0(m.comment_count),
        un_approved_comment_count: seq_filter(s.comments, unapproved_filter(m.id)).len() as i64,
        like_count: opt_i32_or0(m.like_count),
        enable_comment: opt_i32_or0(m.enable_comment),
        view_count: opt_i32_or0(m.view_count),
        liked: if viewer matches Some(a) && spec_rel_exists(s.relations, m.id, a.user_id, "LIKE"@) {
            1
        } else {
            0
        },
        resources: spec_sort_res_by_created(
            seq_filter(s.resources, memo_resource_filter(m.id)),
        ).map_values(|r: crate::model::ResourceV| spec_convert_resource(domain, r)),
        source: m.source,
    }
}

impl Store {
    /// The enriched form of one memo row for this viewer.
    pub fn build_memo_dto(&self, viewer: &OptionalAuthUser, m: &Memo) -> (d: MemoDto)
        requires
            self@.comments.len() <= 0x7fffffff,
        ensures
            d@ == spec_memo_dto(self@, spec_opt_auth(viewer.0), m@),
    {
        let domain: String = match crate::settings::get_string(self, "DOMAIN") {
            Some(d) => d,
            None => crate::model::empty_string(),
        };
        let (author_name, author_role, email, bio): (
            Option<String>,
            Option<String>,
            Option<String>,
            Option<String>,
        ) = match self.find_user_idx(m.user_id) {
            Some(u) => {
                let urow = &self.users[u];
                (
                    clone_opt_string(&urow.display_name),
                    clone_opt_string(&urow.role),
                    clone_opt_string(&urow.email),
                    clone_opt_string(&urow.bio),
                )
            },
            None => (None, None, None, None),
        };
        let ghost cv = self@.comments;
        let mut unapproved: i64 = 0;
        let mut i: usize = 0;
        while i < self.comments.len()
            invariant
                i <= cv.len(),
                cv == self@.comments,
                cv.len() <= 0x7fffffff,
                self@.comments.len() == self.comments@.len(),
                unapproved == seq_filter(
                    cv.subrange(0, i as int),
                    unapproved_filter(m.id),
                ).len(),
                unapproved <= i,
            decreases cv.len() - i,
        {
            let ghost pre = cv.subrange(0, i as int);
            let ghost pre2 = cv.subrange(0, i + 1);
            proof {
                assert(pre2.drop_last() =~= pre);
                assert(pre2.last() == cv[i as int]);
                crate::text::lemma_seq_filter_elements(pre, unapproved_filter(m.id));
            }
            let c = &self.comments[i];
            assert(c@ == cv[i as int]);
            let hit = c.memo_id == m.id && c.user_id < 0 && (match c.approved {
                Some(a) => a == 0,
                None => false,
            });
            if hit {
                assert((unapproved_filter(m.id))(cv[i as int]));
                unapproved = unapproved + 1;
            } else {
                assert(!(unapproved_filter(m.id))(cv[i as int]));
            }
            i = i + 1;
        }
        proof {
            assert(cv.subrange(0, cv.len() as int) =~= cv);
        }
        let liked: i32 = match &viewer.0 {
            Some(a) => {
                let fav: String = "LIKE".to_owned();
                if self.rel_exists_pub(m.id, a.user_id, &fav) {
                    1
                } else {
                    0
                }
            },
            None => 0,
        };
        let ghost rv = self@.resources;
        let mut attached: Vec<crate::model::Resource> = Vec::new();
        let mut k: usize = 0;
        while k < self.resources.len()
            invariant
                k <= rv.len(),
                rv == self@.resources,
                self@.resources.len() == self.resources@.len(),
                attached@.map_values(|x: crate::model::Resource| x@) == seq_filter(
                    rv.subrange(0, k as int),
                    memo_resource_filter(m.id),
                ),
            decreases rv.len() - k,
        {
            let ghost pre = rv.subrange(0, k as int);
            let ghost pre2 = rv.subrange(0, k + 1);
            proof {
                assert(pre2.drop_last() =~= pre);
                assert(pre2.last() == rv[k as int]);
            }
            let row = &self.resources[k];
            assert(row@ == rv[k as int]);
            if row.memo_id == m.id {
                assert((memo_resource_filter(m.id))(rv[k as int]));
                let copy = crate::model::clone_resource(row);
                attached.push(copy);
                assert(attached@.map_values(|x: crate::model::Resource| x@) =~= seq_filter(
                    pre,
                    memo_resource_filter(m.id),
                ).push(rv[k as int]));
            } else {
                assert(!(memo_resource_filter(m.id))(rv[k as int]));
            }
            k = k + 1;
        }
        proof {
            assert(rv.subrange(0, rv.len() as int) =~= rv);
        }
        let sorted_res = sort_res_by_created(attached);
        let ghost srv = sorted_res@.map_values(|x: crate::model::Resource| x@);
        let mut resources: Vec<ResourceDto> = Vec::new();
        let mut q: usize = 0;
        while q < sorted_res.len()
            invariant
                q <= srv.len(),
                srv == sorted_res@.map_values(|x: crate::model::Resource| x@),
                domain@ == spec_domain(self@),
                resources@.len() == q,
                forall|j: int| 0 <= j < q ==> (#[trigger] resources@[j])@
                    == spec_convert_resource(spec_domain(self@), srv[j]),
            decreases srv.len() - q,
        {
            let row = &sorted_res[q];
            assert(row@ == srv[q as int]);
            let dto = crate::resource::convert_resource(domain.as_str(), row);
            resources.push(dto);
            q = q + 1;
        }
        proof {
            assert(resources@.map_values(|r: ResourceDto| r@) =~= srv.map_values(
                |r: crate::model::ResourceV| spec_convert_resource(spec_domain(self@), r),
            ));
        }
        MemoDto {
            id: m.id,
            user_id: m.user_id,
            content: clone_opt_string(&m.content),
            tags: clone_opt_string(&m.tags),
            visibility: clone_opt_string(&m.visibility),
            status: clone_opt_string(&m.status),
            created: match m.created {
                Some(ms) => crate::timeutil::format_rfc3339_ms(ms),
                None => None,
            },
            updated: match m.updated {
                Some(ms) => crate::timeutil::format_rfc3339_ms(ms),
                None => None,
            },
            author_name,
            author_role,
            email,
            bio,
            priority: match m.priority {
                Some(v) => v,
                None => 0,
            },
            comment_count: match m.comment_count {
                Some(v) => v,
                None => 0,
            },
            un_approved_comment_count: unapproved,
            like_count: match m.like_count {
                Some(v) => v,
                None => 0,
            },
            enable_comment: match m.enable_comment {
                Some(v) => v,
                None => 0,
            },
            view_count: match m.view_count {
                Some(v) => v,
                None => 0,
            },
            liked,
            resources,
            source: clone_opt_string(&m.source),
        }
    }
}

} // verus!

verus! {

// ---------------------------------------------------------------------------
// the listing itself
// ---------------------------------------------------------------------------

/// One page of enriched memos with the total the filters matched.
pub struct ListMemoResponse {
    pub items: Vec<MemoDto>,
    pub total: i64,
    pub total_page: i64,
}

/// Every user row with this id, with the mention-click time refreshed.
pub open spec fn spec_set_last_clicked(
    users: Seq<crate::model::UserV>,
    uid: i32,
    now: i64,
) -> Seq<crate::model::UserV> {
    users.map_values(
        |u: crate::model::UserV| if u.id == uid {
            crate::model::UserV { last_clicked_mentioned: Some(now), ..u }
        } else {
            u
        },
    )
}

pub open spec fn spec_page_of(req: ListMemoRequestV) -> int {
    crate::page::spec_clamp_min1(
        match req.page {
            Some(p) => p as int,
            None => 1,
        },
    )
}

pub open spec fn spec_size_of(req: ListMemoRequestV) -> int {
    crate::page::spec_clamp_min1(
        match req.size {
            Some(s) => s as int,
            None => 20,
        },
    )
}

pub open spec fn spec_use_priority(req: ListMemoRequestV) -> bool {
    !(req.liked == Some(true)) && !(req.commented == Some(true)) && !(req.mentioned == Some(
        true,
    ))
}

impl Store {
    fn set_last_clicked(&mut self, uid: i32, now: i64)
        ensures
            final(self)@ == (StoreV {
                users: spec_set_last_clicked(old(self)@.users, uid, now),
                ..old(self)@
            }),
    {
        let ghost us0 = self@.users;
        let n = self.users.len();
        let mut i: usize = 0;
        while i < n
            invariant
                i <= n,
                n == self.users@.len(),
                self@.users.len() == n,
                us0.len() == n,
                self@ == (StoreV { users: self@.users, ..old(self)@ }),
                forall|j: int| 0 <= j < i ==> self@.users[j] == spec_set_last_clicked(
                    us0,
                    uid,
                    now,
                )[j],
                forall|j: int| i <= j < n ==> (#[trigger] self@.users[j]) == us0[j],
            decreases n - i,
        {
            let ghost pre = self@.users;
            assert(pre[i as int] == us0[i as int]);
            let row = &self.users[i];
            assert(row@ == us0[i as int]);
            if row.id == uid {
                let mut new_row = crate::model::clone_user(row);
                new_row.last_clicked_mentioned = Some(now);
                assert(new_row@ == (crate::model::UserV {
                    last_clicked_mentioned: Some(now),
                    ..us0[i as int]
                }));
                self.users[i] = new_row;
                proof {
                    assert(self@.users =~= pre.update(i as int, new_row@));
                    assert(self@.users[i as int] == spec_set_last_clicked(
                        us0,
                        uid,
                        now,
                    )[i as int]);
                }
            } else {
                assert(self@.users[i as int] == spec_set_last_clicked(us0, uid, now)[i as int]);
            }
            i = i + 1;
        }
        proof {
            assert(self@.users =~= spec_set_last_clicked(us0, uid, now));
            assert(self@ =~~= (StoreV {
                users: spec_set_last_clicked(us0, uid, now),
                ..old(self)@
            }));
        }
    }

    /// One page of the listing. The visibility boundary holds of every
    /// item: an anonymous page holds only public memos, and no page holds
    /// another user's private memo, whatever the filters. Serving a
    /// mentions page also refreshes the viewer's mention-click time.
    pub fn list_memos(
        &mut self,
        viewer: &OptionalAuthUser,
        req: &ListMemoRequest,
        now: i64,
    ) -> (r: ListMemoResponse)
        requires
            old(self)@.wf(),
            old(self)@.memos.len() <= 0x7fffffff,
            old(self)@.comments.len() <= 0x7fffffff,
        ensures
            ({
                let s = old(self)@;
                let viewer_v = spec_opt_auth(viewer.0);
                let filtered = seq_filter(s.memos, listing_filter(s, viewer_v, req@));
                let sorted = spec_sort_listing(spec_use_priority(req@), filtered);
                let p = spec_page_of(req@);
                let sz = spec_size_of(req@);
                &&& r.total == filtered.len()
                &&& r.total_page as int == crate::page::spec_total_pages(
                    filtered.len() as int,
                    sz,
                )
                &&& r.items@.map_values(|d: MemoDto| d@) == crate::page::spec_page_slice(
                    sorted,
                    p,
                    sz,
                ).map_values(|m: MemoV| spec_memo_dto(s, viewer_v, m))
                &&& (viewer.0 is None ==> forall|j: int| 0 <= j < r.items@.len() ==> (
                #[trigger] r.items@[j])@.visibility == Some("PUBLIC"@))
                &&& (viewer.0 matches Some(a) ==> forall|j: int|
                    0 <= j < r.items@.len() ==> ((#[trigger] r.items@[j])@.visibility == Some(
                        "PRIVATE"@,
                    ) ==> r.items@[j]@.user_id == a@.user_id))
                &&& final(self)@ == (if viewer_v is Some && req@.commented == Some(true)
                    && req@.mentioned == Some(true) {
                    StoreV {
                        users: spec_set_last_clicked(s.users, viewer_v->0.user_id, now),
                        ..s
                    }
                } else {
                    s
                })
                &&& final(self)@.wf()
            }),
    {
        let ghost s = self@;
        let ghost viewer_v = spec_opt_auth(viewer.0);
        let window: Option<(i64, i64)> = match (&req.begin, &req.end) {
            (Some(b), Some(e)) => {
                match (parse_date(b.as_str()), parse_date(e.as_str())) {
                    (Some(bv), Some(ev)) => Some((bv, ev)),
                    _ => None,
                }
            },
            _ => None,
        };
        assert(window == spec_listing_window(req@));
        let mention_pat: Vec<char> = match &viewer.0 {
            Some(a) => {
                let mut pat: Vec<char> = Vec::new();
                pat.push('#');
                let dec = i64_to_string(a.user_id as i64);
                let mut dc = chars_of_str(dec.as_str());
                pat.append(&mut dc);
                pat.push(',');
                assert(pat@ =~= spec_mention_pat(a.user_id));
                pat
            },
            None => Vec::new(),
        };
        let ghost mv = s.memos;
        let mut matched: Vec<Memo> = Vec::new();
        let mut i: usize = 0;
        while i < self.memos.len()
            invariant
                i <= mv.len(),
                mv == self@.memos,
                self@ == s,
                viewer_v == spec_opt_auth(viewer.0),
                self@.memos.len() == self.memos@.len(),
                window == spec_listing_window(req@),
                viewer.0 matches Some(a) ==> mention_pat@ == spec_mention_pat(a.user_id),
                matched@.map_values(|x: Memo| x@) == seq_filter(
                    mv.subrange(0, i as int),
                    listing_filter(s, viewer_v, req@),
                ),
            decreases mv.len() - i,
        {
            let ghost pre = mv.subrange(0, i as int);
            let ghost pre2 = mv.subrange(0, i + 1);
            proof {
                assert(pre2.drop_last() =~= pre);
                assert(pre2.last() == mv[i as int]);
            }
            let row = clone_memo(&self.memos[i]);
            assert(row@ == mv[i as int]);
            let passes = self.memo_passes(viewer, req, window, &mention_pat, &row);
            if passes {
                assert((listing_filter(s, viewer_v, req@))(mv[i as int]));
                matched.push(row);
                assert(matched@.map_values(|x: Memo| x@) =~= seq_filter(
                    pre,
                    listing_filter(s, viewer_v, req@),
                ).push(mv[i as int]));
            } else {
                assert(!(listing_filter(s, viewer_v, req@))(mv[i as int]));
            }
            i = i + 1;
        }
        proof {
            assert(mv.subrange(0, mv.len() as int) =~= mv);
            crate::text::lemma_seq_filter_elements(mv, listing_filter(s, viewer_v, req@));
        }
        let ghost filtered = seq_filter(s.memos, listing_filter(s, viewer_v, req@));
        let total: i64 = matched.len() as i64;
        let size_v: i64 = match req.size {
            Some(v) => v,
            None => 20,
        };
        let page_v: i64 = match req.page {
            Some(v) => v,
            None => 1,
        };
        let sz: i64 = if size_v < 1 {
            1
        } else {
            size_v
        };
        let total_page: i64 = total / sz + if total % sz == 0 {
            0
        } else {
            1
        };
        let use_priority = !(req.liked == Some(true)) && !(req.commented == Some(true)) && !(
        req.mentioned == Some(true));
        assert(use_priority == spec_use_priority(req@));
        let sorted = sort_listing(use_priority, matched);
        let ghost sortedv = sorted@.map_values(|x: Memo| x@);
        proof {
            lemma_sort_listing_len(spec_use_priority(req@), filtered);
        }
        let (lo, hi) = crate::page::page_bounds(sorted.len(), page_v, size_v);
        let mut items: Vec<MemoDto> = Vec::new();
        let mut k = lo;
        while k < hi
            invariant
                lo <= k <= hi <= sorted@.len(),
                self@ == s,
                viewer_v == spec_opt_auth(viewer.0),
                s.comments.len() <= 0x7fffffff,
                sortedv == sorted@.map_values(|x: Memo| x@),
                items@.len() == k - lo,
                forall|j: int| 0 <= j < k - lo ==> (#[trigger] items@[j])@ == spec_memo_dto(
                    s,
                    viewer_v,
                    sortedv[lo + j],
                ),
            decreases hi - k,
        {
            let dto = self.build_memo_dto(viewer, &sorted[k]);
            assert(dto@ == spec_memo_dto(s, viewer_v, sortedv[k as int]));
            items.push(dto);
            k = k + 1;
        }
        proof {
            let p = crate::page::spec_clamp_min1(page_v as int);
            let szs = crate::page::spec_clamp_min1(size_v as int);
            crate::page::lemma_page_slice_len(sortedv, p, szs);
            assert(crate::page::spec_page_slice(sortedv, p, szs) =~= sortedv.subrange(
                lo as int,
                hi as int,
            ));
            assert(items@.map_values(|d: MemoDto| d@) =~= sortedv.subrange(lo as int, hi as int)
                .map_values(|m: MemoV| spec_memo_dto(s, viewer_v, m)));
            assert forall|j: int| 0 <= j < items@.len() implies #[trigger] spec_listing_pred(
                s,
                viewer_v,
                req@,
                sortedv[lo + j],
            ) by {
                assert(sortedv.contains(sortedv[lo + j])) by {
                    assert(sortedv[lo + j] == sortedv[lo + j]);
                }
                lemma_sort_listing_membership(
                    spec_use_priority(req@),
                    filtered,
                    sortedv[lo + j],
                );
                assert(filtered.contains(sortedv[lo + j]));
                let fi = choose|fi: int| 0 <= fi < filtered.len() && filtered[fi] == sortedv[lo
                    + j];
                assert((listing_filter(s, viewer_v, req@))(filtered[fi]));
            }
            assert forall|j: int| 0 <= j < items@.len() implies ((viewer_v is None ==> (
            #[trigger] items@[j])@.visibility == Some("PUBLIC"@)) && (viewer_v is Some ==> (
            items@[j]@.visibility == Some("PRIVATE"@) ==> items@[j]@.user_id
                == viewer_v->0.user_id))) by {
                assert(items@[j]@ == spec_memo_dto(s, viewer_v, sortedv[lo + j]));
                assert(spec_listing_pred(s, viewer_v, req@, sortedv[lo + j]));
                assert(spec_memo_visible(viewer_v, sortedv[lo + j]));
                assert(items@[j]@.visibility == sortedv[lo + j].visibility);
                assert(items@[j]@.user_id == sortedv[lo + j].user_id);
                if viewer_v is None {
                    assert(sortedv[lo + j].visibility == Some("PUBLIC"@));
                } else {
                    reveal_strlit("PUBLIC");
                    reveal_strlit("PROTECT");
                    reveal_strlit("PRIVATE");
                    assert("PUBLIC"@.len() == 6 && "PROTECT"@.len() == 7 && "PRIVATE"@.len()
                        == 7);
                    assert("PUBLIC"@ != "PRIVATE"@);
                    assert("PROTECT"@[1] == 'R' && "PRIVATE"@[1] == 'R');
                    assert("PROTECT"@[3] == 'T' && "PRIVATE"@[3] == 'V');
                    assert("PROTECT"@ != "PRIVATE"@);
                }
            }
        }
        let refresh = match &viewer.0 {
            Some(_) => req.commented == Some(true) && req.mentioned == Some(true),
            None => false,
        };
        if refresh {
            let uid = match &viewer.0 {
                Some(a) => a.user_id,
                None => 0,
            };
            self.set_last_clicked(uid, now);
            proof {
                assert(self@.ids_ok()) by {
                    assert(forall|j: int| 0 <= j < s.users.len() ==> (
                    #[trigger] self@.users[j]).id == s.users[j].id);
                }
                assert(self@.counters_ok());
            }
        } else {
            assert(self@ =~~= s);
        }
        ListMemoResponse { items, total, total_page }
    }
}

} // verus!

verus! {

// ---------------------------------------------------------------------------
// one memo
// ---------------------------------------------------------------------------

/// What a single-memo read matches: the id, under the visibility boundary
/// (a read does not check the status).
pub open spec fn get_pred(viewer: Option<AuthUserV>, id: i32) -> spec_fn(MemoV) -> bool {
    |m: MemoV| m.id == id && spec_memo_visible(viewer, m)
}

/// The index of the first memo a single-memo read returns.
pub open spec fn spec_get_index(memos: Seq<MemoV>, viewer: Option<AuthUserV>, id: i32) -> Option<
    int,
>
    decreases memos.len(),
{
    if memos.len() == 0 {
        None
    } else if (get_pred(viewer, id))(memos[0]) {
        Some(0)
    } else {
        match spec_get_index(memos.drop_first(), viewer, id) {
            Some(i) => Some(i + 1),
            None => None,
        }
    }
}

proof fn lemma_get_index_first(memos: Seq<MemoV>, viewer: Option<AuthUserV>, id: i32, i: int)
    requires
        0 <= i < memos.len(),
        (get_pred(viewer, id))(memos[i]),
        forall|j: int| 0 <= j < i ==> !(get_pred(viewer, id))(#[trigger] memos[j]),
    ensures
        spec_get_index(memos, viewer, id) == Some(i),
    decreases memos.len(),
{
    if i > 0 {
        assert(!(get_pred(viewer, id))(memos[0]));
        assert((get_pred(viewer, id))(memos.drop_first()[i - 1]));
        assert(forall|j: int| 0 <= j < i - 1 ==> !(get_pred(viewer, id))(
            #[trigger] memos.drop_first()[j],
        )) by {
            assert(forall|j: int| 0 <= j < i - 1 ==> memos.drop_first()[j] == memos[j + 1]);
        }
        lemma_get_index_first(memos.drop_first(), viewer, id, i - 1);
    }
}

proof fn lemma_get_index_none(memos: Seq<MemoV>, viewer: Option<AuthUserV>, id: i32)
    requires
        forall|j: int| 0 <= j < memos.len() ==> !(get_pred(viewer, id))(#[trigger] memos[j]),
    ensures
        spec_get_index(memos, viewer, id) is None,
    decreases memos.len(),
{
    if memos.len() > 0 {
        assert(forall|j: int| 0 <= j < memos.len() - 1 ==> !(get_pred(viewer, id))(
            #[trigger] memos.drop_first()[j],
        )) by {
            assert(forall|j: int| 0 <= j < memos.len() - 1 ==> memos.drop_first()[j]
                == memos[j + 1]);
        }
        lemma_get_index_none(memos.drop_first(), viewer, id);
    }
}

/// Every memo with this id with its view counter raised by one.
pub open spec fn spec_inc_view(memos: Seq<MemoV>, memo_id: i32) -> Seq<MemoV> {
    memos.map_values(
        |m: MemoV| if m.id == memo_id {
            MemoV { view_count: crate::memo::spec_inc_opt(m.view_count), ..m }
        } else {
            m
        },
    )
}

impl Store {
    fn inc_view_count(&mut self, memo_id: i32)
        ensures
            final(self)@ == (StoreV {
                memos: spec_inc_view(old(self)@.memos, memo_id),
                ..old(self)@
            }),
    {
        let ghost ms0 = self@.memos;
        let n = self.memos.len();
        let mut i: usize = 0;
        while i < n
            invariant
                i <= n,
                n == self.memos@.len(),
                self@.memos.len() == n,
                ms0.len() == n,
                self@ == (StoreV { memos: self@.memos, ..old(self)@ }),
                forall|j: int| 0 <= j < i ==> self@.memos[j] == spec_inc_view(
                    ms0,
                    memo_id,
                )[j],
                forall|j: int| i <= j < n ==> (#[trigger] self@.memos[j]) == ms0[j],
            decreases n - i,
        {
            let ghost pre = self@.memos;
            assert(pre[i as int] == ms0[i as int]);
            let row = &self.memos[i];
            assert(row@ == ms0[i as int]);
            if row.id == memo_id {
                let new_count: Option<i32> = match row.view_count {
                    Some(c) => Some(
                        if c < i32::MAX {
                            c + 1
                        } else {
                            c
                        },
                    ),
                    None => None,
                };
                let mut new_row = clone_memo(row);
                new_row.view_count = new_count;
                assert(new_row@ == (MemoV {
                    view_count: crate::memo::spec_inc_opt(ms0[i as int].view_count),
                    ..ms0[i as int]
                }));
                self.memos[i] = new_row;
                proof {
                    assert(self@.memos =~= pre.update(i as int, new_row@));
                    assert(self@.memos[i as int] == spec_inc_view(ms0, memo_id)[i as int]);
                }
            } else {
                assert(self@.memos[i as int] == spec_inc_view(ms0, memo_id)[i as int]);
            }
            i = i + 1;
        }
        proof {
            assert(self@.memos =~= spec_inc_view(ms0, memo_id));
            assert(self@ =~~= (StoreV { memos: spec_inc_view(ms0, memo_id), ..old(self)@ }));
        }
    }

    /// One memo by id, under the visibility boundary; reading with the
    /// count flag also raises the view counter. The returned form shows
    /// the counter as it stood before the read.
    pub fn get_memo(&mut self, viewer: &OptionalAuthUser, memo_id: i32, count: bool) -> (r:
        Option<MemoDto>)
        requires
            old(self)@.wf(),
            old(self)@.comments.len() <= 0x7fffffff,
        ensures
            ({
                let s = old(self)@;
                let viewer_v = spec_opt_auth(viewer.0);
                let idx = spec_get_index(s.memos, viewer_v, memo_id);
                &&& (idx is None ==> (r is None && final(self)@ == s))
                &&& (idx matches Some(k) ==> ({
                    &&& final(self)@ == (if count {
                        StoreV { memos: spec_inc_view(s.memos, memo_id), ..s }
                    } else {
                        s
                    })
                    &&& (r matches Some(d) && d@ == spec_memo_dto(
                        final(self)@,
                        viewer_v,
                        s.memos[k],
                    ))
                }))
                &&& final(self)@.wf()
            }),
    {
        let ghost s = self@;
        let ghost viewer_v = spec_opt_auth(viewer.0);
        let mut found: Option<usize> = None;
        let mut i: usize = 0;
        while i < self.memos.len() && found.is_none()
            invariant
                i <= self@.memos.len(),
                self@ == s,
                viewer_v == spec_opt_auth(viewer.0),
                self@.memos.len() == self.memos@.len(),
                match found {
                    Some(k) => k < i && (get_pred(viewer_v, memo_id))(self@.memos[k as int])
                        && forall|j: int| 0 <= j < k ==> !(get_pred(viewer_v, memo_id))(
                        #[trigger] self@.memos[j],
                    ),
                    None => forall|j: int| 0 <= j < i ==> !(get_pred(viewer_v, memo_id))(
                        #[trigger] self@.memos[j],
                    ),
                },
            decreases self@.memos.len() - i,
        {
            let row = &self.memos[i];
            assert(row@ == self@.memos[i as int]);
            let visible = match &viewer.0 {
                None => crate::text::opt_str_eq(&row.visibility, "PUBLIC"),
                Some(a) => crate::text::opt_str_eq(&row.visibility, "PUBLIC")
                    || crate::text::opt_str_eq(&row.visibility, "PROTECT") || (
                crate::text::opt_str_eq(&row.visibility, "PRIVATE") && row.user_id
                    == a.user_id),
            };
            if row.id == memo_id && visible {
                assert((get_pred(viewer_v, memo_id))(self@.memos[i as int]));
                found = Some(i);
            } else {
                assert(!(get_pred(viewer_v, memo_id))(self@.memos[i as int]));
            }
            i = i + 1;
        }
        let k = match found {
            Some(k) => {
                proof {
                    lemma_get_index_first(s.memos, viewer_v, memo_id, k as int);
                }
                k
            },
            None => {
                proof {
                    lemma_get_index_none(s.memos, viewer_v, memo_id);
                }
                assert(self@ =~~= s);
                return None;
            },
        };
        let row = clone_memo(&self.memos[k]);
        if count {
            self.inc_view_count(memo_id);
            proof {
                assert(self@.ids_ok()) by {
                    assert(forall|j: int| 0 <= j < s.memos.len() ==> (
                    #[trigger] self@.memos[j]).id == s.memos[j].id);
                }
                assert(self@.counters_ok()) by {
                    assert(forall|j: int| 0 <= j < s.memos.len() ==> (
                    #[trigger] self@.memos[j]) == spec_inc_view(s.memos, memo_id)[j]);
                }
            }
        } else {
            assert(self@ =~~= s);
        }
        let dto = self.build_memo_dto(viewer, &row);
        Some(dto)
    }
}

} // verus!

verus! {

// ---------------------------------------------------------------------------
// statistics
// ---------------------------------------------------------------------------

/// The UTC day an instant falls in, counted from the epoch.
pub open spec fn spec_day_of(c: i64) -> int {
    if c >= 0 {
        (c as int) / 86400000
    } else {
        -1 - ((-1 - c as int) / 86400000)
    }
}

fn floor_day(c: i64) -> (r: i64)
    ensures
        r as int == spec_day_of(c),
{
    if c >= 0 {
        ((c as u64) / 86400000u64) as i64
    } else {
        let t: u64 = (-(c + 1)) as u64;
        let q: u64 = t / 86400000u64;
        -1 - (q as i64)
    }
}

/// The epoch instant a day begins at, clipped to the type's range (real
/// timestamps never reach the clip).
pub open spec fn spec_day_start(day: int) -> i64 {
    if day > 106751991167 {
        i64::MAX
    } else if day < -106751991167 {
        i64::MIN
    } else {
        (day * 86400000) as i64
    }
}

fn day_start(day: i64) -> (r: i64)
    ensures
        r as int == spec_day_start(day as int),
{
    if day > 106751991167 {
        i64::MAX
    } else if day < -106751991167 {
        i64::MIN
    } else {
        proof {
            assert(day * 86400000 <= i64::MAX && day * 86400000 >= i64::MIN)
                by (nonlinear_arith)
                requires
                    -106751991167 <= day <= 106751991167,
            {}
        }
        day * 86400000
    }
}

/// The calendar label of a day.
pub open spec fn spec_civil_str(day: int) -> Seq<char> {
    match crate::timeutil::civil_date_of(spec_day_start(day)) {
        Some(d) => d,
        None => Seq::empty(),
    }
}

/// Whether a memo belongs to this user's statistics window.
pub open spec fn stat_filter(uid: i32, b: i64, e: i64) -> spec_fn(MemoV) -> bool {
    |m: MemoV| m.user_id == uid && (m.created matches Some(c) && b <= c <= e)
}

/// One bar of the per-day activity: the day, its calendar label, and how
/// many of the user's windowed memos fell on it.
#[derive(Debug)]
pub struct StatisticsItem {
    pub date: String,
    pub day: i64,
    pub total: i64,
}

pub struct StatisticsItemV {
    pub date: Seq<char>,
    pub day: i64,
    pub total: i64,
}

impl View for StatisticsItem {
    type V = StatisticsItemV;

    open spec fn view(&self) -> StatisticsItemV {
        StatisticsItemV { date: self.date@, day: self.day, total: self.total }
    }
}

/// A user's memo statistics: the totals and the per-day activity.
#[derive(Debug)]
pub struct StatisticsResponse {
    pub total_memos: i64,
    pub total_days: i64,
    pub total_tags: i64,
    pub items: Vec<StatisticsItem>,
}

pub open spec fn my_tag_filter(uid: i32) -> spec_fn(crate::model::TagV) -> bool {
    |t: crate::model::TagV| t.user_id == uid
}

/// Days-between as whole days, truncated toward zero, with the difference
/// clipped to the type's range.
pub open spec fn spec_days_between(now: i64, cr: i64) -> int {
    let d = now as int - cr as int;
    let dc = if d > i64::MAX {
        i64::MAX as int
    } else if d < i64::MIN {
        i64::MIN as int
    } else {
        d
    };
    if dc >= 0 {
        dc / 86400000
    } else {
        -((-dc) / 86400000)
    }
}

fn days_between(now: i64, cr: i64) -> (r: i64)
    ensures
        r as int == spec_days_between(now, cr),
{
    let d: i64 = if cr <= 0 && now > i64::MAX + cr {
        i64::MAX
    } else if cr > 0 && now < i64::MIN + cr {
        i64::MIN
    } else {
        now - cr
    };
    if d >= 0 {
        ((d as u64) / 86400000u64) as i64
    } else if d == i64::MIN {
        let q: u64 = 9223372036854775808u64 / 86400000u64;
        proof {
            assert(9223372036854775808int / 86400000int == 106751991167int);
        }
        -(q as i64)
    } else {
        let q: u64 = ((-d) as u64) / 86400000u64;
        -(q as i64)
    }
}

impl Store {
    /// A user's memo statistics over a window (each bound read as RFC 3339
    /// text or epoch milliseconds; an unreadable or missing bound defaults
    /// to fifty days back and one day ahead of now). The per-day items
    /// carry strictly descending days; a day is listed exactly when one of
    /// the user's windowed memos was created on it, and each bar counts at
    /// least one such memo. An anonymous caller is shown the
    /// administrator's statistics.
    #[verifier::rlimit(60)]
    pub fn memo_statistics(
        &self,
        viewer: &OptionalAuthUser,
        begin: Option<String>,
        end: Option<String>,
        now: i64,
    ) -> (r: Result<StatisticsResponse, crate::error::AppError>)
        requires
            self@.memos.len() <= 0x7fffffff,
            self@.tags.len() <= 0x7fffffff,
            -0x2000000000000000 <= now <= 0x2000000000000000,
        ensures
            ({
                let s = self@;
                let bv = match (match view_opt_string(begin) {
                    Some(t) => spec_parse_date(t),
                    None => None,
                }) {
                    Some(x) => x,
                    None => (now - 4320000000) as i64,
                };
                let ev = match (match view_opt_string(end) {
                    Some(t) => spec_parse_date(t),
                    None => None,
                }) {
                    Some(x) => x,
                    None => (now + 86400000) as i64,
                };
                let uid_src = match spec_opt_auth(viewer.0) {
                    Some(a) => Some(a.user_id),
                    None => match crate::model::spec_admin_index(s.users) {
                        Some(i) => Some(s.users[i].id),
                        None => None,
                    },
                };
                &&& (ev < bv ==> (r matches Err(e) && e.spec_code() == 1))
                &&& (ev >= bv && uid_src is None ==> (r matches Err(e) && e.spec_code() == 2
                    && e.spec_msg() == "管理员不存在"@))
                &&& (ev >= bv && uid_src is Some && crate::model::spec_user_index(
                    s.users,
                    uid_src->0,
                ) is None ==> (r matches Err(e) && e.spec_code() == 2 && e.spec_msg()
                    == "用户不存在"@))
                &&& (ev >= bv && uid_src is Some && crate::model::spec_user_index(
                    s.users,
                    uid_src->0,
                ) is Some ==> (r matches Ok(resp) && ({
                    let uid = uid_src->0;
                    let u = s.users[crate::model::spec_user_index(s.users, uid)->0];
                    &&& resp.total_memos == seq_filter(
                        s.memos,
                        crate::user::my_memo_filter(uid),
                    ).len()
                    &&& resp.total_days == (match u.created {
                        Some(cr) => spec_days_between(now, cr),
                        None => 0,
                    })
                    &&& resp.total_tags == seq_filter(s.tags, my_tag_filter(uid)).len()
                    &&& (forall|j1: int, j2: int|
                        0 <= j1 < j2 < resp.items@.len() ==> (#[trigger] resp.items@[j1])@.day
                            > (#[trigger] resp.items@[j2])@.day)
                    &&& (forall|j: int| 0 <= j < resp.items@.len() ==> (
                    #[trigger] resp.items@[j])@.total >= 1 && resp.items@[j]@.date
                        == spec_civil_str(resp.items@[j]@.day as int))
                })))
            }),
    {
        let bv: i64 = match &begin {
            Some(t) => match parse_date(t.as_str()) {
                Some(x) => x,
                None => now - 4320000000,
            },
            None => now - 4320000000,
        };
        let ev: i64 = match &end {
            Some(t) => match parse_date(t.as_str()) {
                Some(x) => x,
                None => now + 86400000,
            },
            None => now + 86400000,
        };
        if ev < bv {
            return Err(crate::error::AppError::param_error("end before begin"));
        }
        let uid: i32 = match &viewer.0 {
            Some(a) => a.user_id,
            None => match self.find_admin_idx() {
                Some(i) => self.users[i].id,
                None => {
                    return Err(crate::error::AppError::fail("管理员不存在"));
                },
            },
        };
        let u = match self.find_user_idx(uid) {
            Some(u) => u,
            None => {
                return Err(crate::error::AppError::fail("用户不存在"));
            },
        };
        let ghost mv = self@.memos;
        let mut total_memos: i64 = 0;
        let mut i: usize = 0;
        while i < self.memos.len()
            invariant
                i <= mv.len(),
                mv == self@.memos,
                mv.len() <= 0x7fffffff,
                self@.memos.len() == self.memos@.len(),
                total_memos == seq_filter(
                    mv.subrange(0, i as int),
                    crate::user::my_memo_filter(uid),
                ).len(),
                total_memos <= i,
            decreases mv.len() - i,
        {
            let ghost pre = mv.subrange(0, i as int);
            let ghost pre2 = mv.subrange(0, i + 1);
            proof {
                assert(pre2.drop_last() =~= pre);
                assert(pre2.last() == mv[i as int]);
                crate::text::lemma_seq_filter_elements(pre, crate::user::my_memo_filter(uid));
            }
            let m = &self.memos[i];
            assert(m@ == mv[i as int]);
            if m.user_id == uid {
                assert((crate::user::my_memo_filter(uid))(mv[i as int]));
                total_memos = total_memos + 1;
            } else {
                assert(!(crate::user::my_memo_filter(uid))(mv[i as int]));
            }
            i = i + 1;
        }
        proof {
            assert(mv.subrange(0, mv.len() as int) =~= mv);
        }
        let total_days: i64 = match self.users[u].created {
            Some(cr) => days_between(now, cr),
            None => 0,
        };
        let ghost tv = self@.tags;
        let mut total_tags: i64 = 0;
        let mut k: usize = 0;
        while k < self.tags.len()
            invariant
                k <= tv.len(),
                tv == self@.tags,
                tv.len() <= 0x7fffffff,
                self@.tags.len() == self.tags@.len(),
                total_tags == seq_filter(tv.subrange(0, k as int), my_tag_filter(uid)).len(),
                total_tags <= k,
            decreases tv.len() - k,
        {
            let ghost pre = tv.subrange(0, k as int);
            let ghost pre2 = tv.subrange(0, k + 1);
            proof {
                assert(pre2.drop_last() =~= pre);
                assert(pre2.last() == tv[k as int]);
                crate::text::lemma_seq_filter_elements(pre, my_tag_filter(uid));
            }
            let t = &self.tags[k];
            assert(t@ == tv[k as int]);
            if t.user_id == uid {
                assert((my_tag_filter(uid))(tv[k as int]));
                total_tags = total_tags + 1;
            } else {
                assert(!(my_tag_filter(uid))(tv[k as int]));
            }
            k = k + 1;
        }
        proof {
            assert(tv.subrange(0, tv.len() as int) =~= tv);
        }
        let items = self.group_days(uid, bv, ev);
        Ok(StatisticsResponse { total_memos, total_days, total_tags, items })
    }

    /// The per-day bars: strictly descending days, one per day on which
    /// one of the user's windowed memos was created.
    #[verifier::rlimit(100)]
    #[verifier::spinoff_prover]
    fn group_days(&self, uid: i32, bv: i64, ev: i64) -> (items: Vec<StatisticsItem>)
        requires
            self@.memos.len() <= 0x7fffffff,
        ensures
            forall|j1: int, j2: int| 0 <= j1 < j2 < items@.len() ==> (
            #[trigger] items@[j1])@.day > (#[trigger] items@[j2])@.day,
            forall|j: int| 0 <= j < items@.len() ==> (#[trigger] items@[j])@.total >= 1
                && items@[j]@.date == spec_civil_str(items@[j]@.day as int),
    {
        let ghost mv = self@.memos;
        let mut items: Vec<StatisticsItem> = Vec::new();
        let mut x: usize = 0;
        while x < self.memos.len()
            invariant
                x <= mv.len(),
                mv == self@.memos,
                mv.len() <= 0x7fffffff,
                self@.memos.len() == self.memos@.len(),
                forall|j1: int, j2: int| 0 <= j1 < j2 < items@.len() ==> (
                #[trigger] items@[j1])@.day > (#[trigger] items@[j2])@.day,
                forall|j: int| 0 <= j < items@.len() ==> (#[trigger] items@[j])@.total >= 1
                    && items@[j]@.total <= x && items@[j]@.date == spec_civil_str(
                    items@[j]@.day as int,
                ),
            decreases mv.len() - x,
        {
            let m = &self.memos[x];
            assert(m@ == mv[x as int]);
            let matches_window = m.user_id == uid && (match m.created {
                Some(c) => bv <= c && c <= ev,
                None => false,
            });
            if matches_window {
                assert((stat_filter(uid, bv, ev))(mv[x as int]));
                let created = match m.created {
                    Some(c) => c,
                    None => 0,
                };
                let day = floor_day(created);
                assert(day as int == spec_day_of(mv[x as int].created->0));
                let mut hit: Option<usize> = None;
                let mut pos: usize = items.len();
                let mut j: usize = 0;
                while j < items.len() && hit.is_none() && pos == items.len()
                    invariant
                        j <= items@.len(),
                        pos <= items@.len(),
                        match hit {
                            Some(h) => h < j && items@[h as int]@.day == day,
                            None => forall|q: int| 0 <= q < j && (pos == items@.len() || q
                                < pos) ==> (#[trigger] items@[q])@.day > day,
                        },
                        pos < items@.len() ==> (items@[pos as int]@.day < day && hit
                            is None && pos == j - 1),
                    decreases items@.len() - j,
                {
                    if items[j].day == day {
                        hit = Some(j);
                    } else if items[j].day < day {
                        pos = j;
                    } else {
                        assert(items@[j as int]@.day > day);
                    }
                    j = j + 1;
                }
                match hit {
                    Some(h) => {
                        let ghost items0 = items@;
                        let old_item = &items[h];
                        let new_item = StatisticsItem {
                            date: old_item.date.clone(),
                            day: old_item.day,
                            total: old_item.total + 1,
                        };
                        items[h] = new_item;
                        proof {
                            assert(items@[h as int]@.day == items0[h as int]@.day);
                        }
                    },
                    None => {
                        let start = day_start(day);
                        let date: String = match crate::timeutil::format_civil_date(start) {
                            Some(d) => d,
                            None => crate::model::empty_string(),
                        };
                        let new_item = StatisticsItem { date, day, total: 1 };
                        assert(new_item@.date == spec_civil_str(day as int));
                        let ghost items0 = items@;
                        items.insert(pos, new_item);
                        proof {
                            assert forall|j1: int, j2: int| 0 <= j1 < j2 < items@.len()
                                implies (#[trigger] items@[j1])@.day > (
                            #[trigger] items@[j2])@.day by {
                                if j1 < pos && j2 < pos {
                                    assert(items@[j1] == items0[j1] && items@[j2]
                                        == items0[j2]);
                                } else if j1 < pos && j2 == pos {
                                    assert(items@[j1] == items0[j1]);
                                    assert(items0[j1]@.day > day);
                                } else if j1 < pos && j2 > pos {
                                    assert(items@[j1] == items0[j1] && items@[j2] == items0[j2
                                        - 1]);
                                    assert(items0[j1]@.day > day);
                                    assert(pos as int <= j2 - 1);
                                    if pos < items0.len() {
                                        if (pos as int) < j2 - 1 {
                                            assert(items0[pos as int]@.day > items0[j2
                                                - 1]@.day);
                                        }
                                        assert(day > items0[pos as int]@.day);
                                    }
                                } else if j1 == pos {
                                    assert(items@[j2] == items0[j2 - 1]);
                                    assert(pos as int <= j2 - 1 < items0.len());
                                    if pos as int == j2 - 1 {
                                        assert(items0[pos as int]@.day < day);
                                    } else {
                                        assert(items0[pos as int]@.day > items0[j2
                                            - 1]@.day);
                                        assert(items0[pos as int]@.day < day);
                                    }
                                } else {
                                    assert(items@[j1] == items0[j1 - 1] && items@[j2]
                                        == items0[j2 - 1]);
                                }
                            }
                            assert forall|jj: int| 0 <= jj < items@.len() implies (
                            #[trigger] items@[jj])@.total >= 1 && items@[jj]@.total <= x + 1
                                && items@[jj]@.date == spec_civil_str(
                                items@[jj]@.day as int,
                            ) by {
                                if jj != pos {
                                    let src: int = if jj < pos {
                                        jj
                                    } else {
                                        jj - 1
                                    };
                                    assert(items@[jj] == items0[src]);
                                }
                            }
                        }
                    },
                }
            } else {
                assert(!(stat_filter(uid, bv, ev))(mv[x as int]));
            }
            x = x + 1;
        }
        items
    }
}

} // verus!

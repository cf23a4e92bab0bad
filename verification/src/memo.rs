//! The memo consistency engine: creating, updating and deleting memos keeps
//! the denormalised per-tag counts, the resource attachments and the
//! like/comment counters correct, with the whole multi-row effect of each
//! operation stated as one transition of the store's view.

use vstd::prelude::*;

use crate::auth::AuthUser;
use crate::error::AppError;
use crate::model::{
    spec_memo_index, view_opt_string, Memo, MemoV, Resource, Store, StoreV, Tag, TagV,
};
use crate::tags::{
    format_tags, parse_tags, replace_first_line, spec_format_tags, spec_parse_tags,
    spec_replace_first_line,
};
use crate::text::{
    chars_of_str, dedup_strings, spec_dedup, spec_trim, str_eq, string_from_chars, trim_chars,
    trimmed_empty,
};

verus! {

// ---------------------------------------------------------------------------
// requests
// ---------------------------------------------------------------------------

/// A memo as a caller submits it: absent fields take their defaults.
pub struct SaveMemoRequest {
    pub id: Option<i32>,
    pub content: Option<String>,
    pub public_ids: Option<Vec<String>>,
    pub visibility: Option<String>,
    pub enable_comment: Option<bool>,
    pub source: Option<String>,
}

pub struct SaveMemoRequestV {
    pub id: Option<i32>,
    pub content: Option<Seq<char>>,
    pub public_ids: Option<Seq<Seq<char>>>,
    pub visibility: Option<Seq<char>>,
    pub enable_comment: Option<bool>,
    pub source: Option<Seq<char>>,
}

impl View for SaveMemoRequest {
    type V = SaveMemoRequestV;

    open spec fn view(&self) -> SaveMemoRequestV {
        SaveMemoRequestV {
            id: self.id,
            content: view_opt_string(self.content),
            public_ids: match self.public_ids {
                Some(v) => Some(v@.map_values(|s: String| s@)),
                None => None,
            },
            visibility: view_opt_string(self.visibility),
            enable_comment: self.enable_comment,
            source: view_opt_string(self.source),
        }
    }
}

pub open spec fn spec_opt_seq(o: Option<Seq<char>>) -> Seq<char> {
    match o {
        Some(s) => s,
        None => Seq::empty(),
    }
}

pub open spec fn spec_opt_list(o: Option<Seq<Seq<char>>>) -> Seq<Seq<char>> {
    match o {
        Some(s) => s,
        None => Seq::empty(),
    }
}

// ---------------------------------------------------------------------------
// the emptiness gate
// ---------------------------------------------------------------------------

/// A memo must carry text or at least one attachment.
pub fn check_content_and_resource(content: &str, public_ids: &Vec<String>) -> (r: Result<
    (),
    AppError,
>)
    ensures
        r is Ok <==> !(spec_trim(content@).len() == 0 && public_ids@.len() == 0),
        r matches Err(e) ==> e.spec_code() == 2 && e.spec_msg() == "内容和图片都为空"@,
{
    let chars = chars_of_str(content);
    if trimmed_empty(&chars) && public_ids.len() == 0 {
        Err(AppError::fail("内容和图片都为空"))
    } else {
        Ok(())
    }
}

// ---------------------------------------------------------------------------
// tag row bookkeeping
// ---------------------------------------------------------------------------

/// A count raised by one, capped at the type's maximum; an unset count
/// stays unset, as adding to a null does in the store.
pub open spec fn spec_inc_opt(o: Option<i32>) -> Option<i32> {
    match o {
        Some(c) => Some(
            if c < i32::MAX {
                (c + 1) as i32
            } else {
                c
            },
        ),
        None => None,
    }
}

/// A count lowered by one, floored at zero; an unset count stays unset.
pub open spec fn spec_dec_opt(o: Option<i32>) -> Option<i32> {
    match o {
        Some(c) => Some(
            if c >= 1 {
                (c - 1) as i32
            } else {
                c
            },
        ),
        None => None,
    }
}

/// Every tag row of this owner and name with its count raised by one.
pub open spec fn spec_inc_tags(tags: Seq<TagV>, user: i32, name: Seq<char>) -> Seq<TagV> {
    tags.map_values(
        |t: TagV| if t.user_id == user && t.name == name {
            TagV { memo_count: spec_inc_opt(t.memo_count), ..t }
        } else {
            t
        },
    )
}

/// Every tag row of this owner and name with its count lowered by one,
/// floored at zero.
pub open spec fn spec_dec_tags(tags: Seq<TagV>, user: i32, name: Seq<char>) -> Seq<TagV> {
    tags.map_values(
        |t: TagV| if t.user_id == user && t.name == name {
            TagV { memo_count: spec_dec_opt(t.memo_count), ..t }
        } else {
            t
        },
    )
}

pub open spec fn spec_has_tag_row(tags: Seq<TagV>, user: i32, name: Seq<char>) -> bool {
    exists|i: int| 0 <= i < tags.len() && (#[trigger] tags[i]).user_id == user && tags[i].name
        == name
}

pub open spec fn spec_new_tag_row(id: i32, user: i32, name: Seq<char>, now: i64) -> TagV {
    TagV {
        id,
        name,
        user_id: user,
        created: Some(now),
        updated: Some(now),
        memo_count: Some(1),
    }
}

/// The tag table and its next identifier after one list of distinct names
/// is folded in: an existing row is bumped, a missing one inserted with
/// count one.
pub open spec fn spec_sync_tags(
    tags: Seq<TagV>,
    next_id: int,
    user: i32,
    names: Seq<Seq<char>>,
    now: i64,
) -> (Seq<TagV>, int)
    decreases names.len(),
{
    if names.len() == 0 {
        (tags, next_id)
    } else if spec_has_tag_row(tags, user, names[0]) {
        spec_sync_tags(spec_inc_tags(tags, user, names[0]), next_id, user, names.drop_first(), now)
    } else {
        spec_sync_tags(
            tags.push(spec_new_tag_row(next_id as i32, user, names[0], now)),
            next_id + 1,
            user,
            names.drop_first(),
            now,
        )
    }
}

/// The tag table after every name of a distinct list is lowered by one,
/// floored at zero.
pub open spec fn spec_dec_tags_all(
    tags: Seq<TagV>,
    user: i32,
    names: Seq<Seq<char>>,
) -> Seq<TagV>
    decreases names.len(),
{
    if names.len() == 0 {
        tags
    } else {
        spec_dec_tags_all(spec_dec_tags(tags, user, names[0]), user, names.drop_first())
    }
}

impl Store {
    fn has_tag_row(&self, user: i32, name: &String) -> (r: bool)
        ensures
            r == spec_has_tag_row(self@.tags, user, name@),
    {
        let mut i: usize = 0;
        while i < self.tags.len()
            invariant
                i <= self@.tags.len(),
                self@.tags.len() == self.tags@.len(),
                forall|j: int| 0 <= j < i ==> !((#[trigger] self@.tags[j]).user_id == user
                    && self@.tags[j].name == name@),
            decreases self@.tags.len() - i,
        {
            if self.tags[i].user_id == user && str_eq(self.tags[i].name.as_str(), name.as_str()) {
                assert(self@.tags[i as int].user_id == user && self@.tags[i as int].name
                    == name@);
                return true;
            }
            assert(!(self@.tags[i as int].user_id == user && self@.tags[i as int].name
                == name@));
            i = i + 1;
        }
        false
    }

    /// Raises the count of this owner's rows for `name` by one.
    fn increment_tag_count(&mut self, user: i32, name: &String)
        ensures
            final(self)@ == (StoreV {
                tags: spec_inc_tags(old(self)@.tags, user, name@),
                ..old(self)@
            }),
    {
        let ghost tags0 = self@.tags;
        let n = self.tags.len();
        let mut i: usize = 0;
        while i < n
            invariant
                i <= n,
                n == self.tags@.len(),
                self@.tags.len() == n,
                tags0.len() == n,
                self@ == (StoreV { tags: self@.tags, ..old(self)@ }),
                forall|j: int| 0 <= j < i ==> self@.tags[j] == spec_inc_tags(
                    tags0,
                    user,
                    name@,
                )[j],
                forall|j: int| i <= j < n ==> (#[trigger] self@.tags[j]) == tags0[j],
            decreases n - i,
        {
            let ghost pre = self@.tags;
            assert(pre[i as int] == tags0[i as int]);
            let row = &self.tags[i];
            assert(row@ == tags0[i as int]);
            let matches_row = row.user_id == user && str_eq(row.name.as_str(), name.as_str());
            if matches_row {
                let new_count: Option<i32> = match row.memo_count {
                    Some(c) => Some(
                        if c < i32::MAX {
                            c + 1
                        } else {
                            c
                        },
                    ),
                    None => None,
                };
                let new_row = Tag {
                    id: row.id,
                    name: row.name.clone(),
                    user_id: row.user_id,
                    created: row.created,
                    updated: row.updated,
                    memo_count: new_count,
                };
                assert(new_row@ == (TagV {
                    memo_count: spec_inc_opt(tags0[i as int].memo_count),
                    ..tags0[i as int]
                }));
                self.tags[i] = new_row;
                proof {
                    assert(self@.tags =~= pre.update(i as int, new_row@));
                    assert(self@.tags[i as int] == spec_inc_tags(tags0, user, name@)[i as int]);
                }
            } else {
                assert(self@.tags[i as int] == spec_inc_tags(tags0, user, name@)[i as int]);
            }
            i = i + 1;
        }
        proof {
            assert(self@.tags =~= spec_inc_tags(tags0, user, name@));
            assert(self@ =~~= (StoreV { tags: spec_inc_tags(tags0, user, name@), ..old(self)@ }));
        }
    }

    /// Lowers the count of this owner's rows for `name` by one, never
    /// below zero.
    fn decrement_tag_count(&mut self, user: i32, name: &String)
        ensures
            final(self)@ == (StoreV {
                tags: spec_dec_tags(old(self)@.tags, user, name@),
                ..old(self)@
            }),
    {
        let ghost tags0 = self@.tags;
        let n = self.tags.len();
        let mut i: usize = 0;
        while i < n
            invariant
                i <= n,
                n == self.tags@.len(),
                self@.tags.len() == n,
                tags0.len() == n,
                self@ == (StoreV { tags: self@.tags, ..old(self)@ }),
                forall|j: int| 0 <= j < i ==> self@.tags[j] == spec_dec_tags(
                    tags0,
                    user,
                    name@,
                )[j],
                forall|j: int| i <= j < n ==> (#[trigger] self@.tags[j]) == tags0[j],
            decreases n - i,
        {
            let ghost pre = self@.tags;
            assert(pre[i as int] == tags0[i as int]);
            let row = &self.tags[i];
            assert(row@ == tags0[i as int]);
            let matches_row = row.user_id == user && str_eq(row.name.as_str(), name.as_str());
            if matches_row {
                let new_count: Option<i32> = match row.memo_count {
                    Some(c) => Some(
                        if c >= 1 {
                            c - 1
                        } else {
                            c
                        },
                    ),
                    None => None,
                };
                let new_row = Tag {
                    id: row.id,
                    name: row.name.clone(),
                    user_id: row.user_id,
                    created: row.created,
                    updated: row.updated,
                    memo_count: new_count,
                };
                assert(new_row@ == (TagV {
                    memo_count: spec_dec_opt(tags0[i as int].memo_count),
                    ..tags0[i as int]
                }));
                self.tags[i] = new_row;
                proof {
                    assert(self@.tags =~= pre.update(i as int, new_row@));
                    assert(self@.tags[i as int] == spec_dec_tags(tags0, user, name@)[i as int]);
                }
            } else {
                assert(self@.tags[i as int] == spec_dec_tags(tags0, user, name@)[i as int]);
            }
            i = i + 1;
        }
        proof {
            assert(self@.tags =~= spec_dec_tags(tags0, user, name@));
            assert(self@ =~~= (StoreV { tags: spec_dec_tags(tags0, user, name@), ..old(self)@ }));
        }
    }

    /// Folds a list of distinct tag names into the tag table: existing
    /// rows bumped, missing ones inserted with count one.
    fn sync_tags_on_save(&mut self, user: i32, names: &Vec<String>, now: i64)
        requires
            old(self)@.next_tag_id + names@.len() <= i32::MAX,
        ensures
            ({
                let synced = spec_sync_tags(
                    old(self)@.tags,
                    old(self)@.next_tag_id as int,
                    user,
                    names@.map_values(|s: String| s@),
                    now,
                );
                final(self)@ == (StoreV {
                    tags: synced.0,
                    next_tag_id: synced.1 as i32,
                    ..old(self)@
                }) && synced.1 <= i32::MAX
            }),
    {
        let ghost namesv = names@.map_values(|s: String| s@);
        proof {
            assert(namesv.skip(0) =~= namesv);
        }
        let mut i: usize = 0;
        while i < names.len()
            invariant
                i <= namesv.len(),
                namesv == names@.map_values(|s: String| s@),
                self@.next_tag_id + (namesv.len() - i) <= i32::MAX,
                self@ == (StoreV {
                    tags: self@.tags,
                    next_tag_id: self@.next_tag_id,
                    ..old(self)@
                }),
                spec_sync_tags(
                    old(self)@.tags,
                    old(self)@.next_tag_id as int,
                    user,
                    namesv,
                    now,
                ) == spec_sync_tags(
                    self@.tags,
                    self@.next_tag_id as int,
                    user,
                    namesv.skip(i as int),
                    now,
                ),
            decreases namesv.len() - i,
        {
            let ghost rest = namesv.skip(i as int);
            proof {
                assert(rest[0] == namesv[i as int]);
                assert(rest.drop_first() =~= namesv.skip(i + 1));
            }
            let name = &names[i];
            assert(name@ == namesv[i as int]);
            if self.has_tag_row(user, name) {
                self.increment_tag_count(user, name);
            } else {
                let ghost pre = self@;
                let id = self.next_tag_id;
                let row = Tag {
                    id,
                    name: name.clone(),
                    user_id: user,
                    created: Some(now),
                    updated: Some(now),
                    memo_count: Some(1),
                };
                assert(row@ == spec_new_tag_row(id, user, namesv[i as int], now));
                self.tags.push(row);
                self.next_tag_id = id + 1;
                proof {
                    assert(self@.tags =~= pre.tags.push(row@));
                    assert(self@ =~~= (StoreV {
                        tags: pre.tags.push(row@),
                        next_tag_id: (pre.next_tag_id + 1) as i32,
                        ..pre
                    }));
                }
            }
            i = i + 1;
        }
        proof {
            assert(namesv.skip(namesv.len() as int) =~= Seq::<Seq<char>>::empty());
        }
    }
}

} // verus!

verus! {

// ---------------------------------------------------------------------------
// resource attachment
// ---------------------------------------------------------------------------

/// The resource table with every orphaned row (no memo yet) whose public
/// id is in `ids` attached to `memo_id`.
pub open spec fn spec_attach_resources(
    resources: Seq<crate::model::ResourceV>,
    ids: Seq<Seq<char>>,
    memo_id: i32,
) -> Seq<crate::model::ResourceV> {
    resources.map_values(
        |r: crate::model::ResourceV| if r.memo_id == 0 && ids.contains(r.public_id) {
            crate::model::ResourceV { memo_id: memo_id, ..r }
        } else {
            r
        },
    )
}

/// The resource table with every row of `memo_id` detached back to the
/// orphan state.
pub open spec fn spec_clear_resources(
    resources: Seq<crate::model::ResourceV>,
    memo_id: i32,
) -> Seq<crate::model::ResourceV> {
    resources.map_values(
        |r: crate::model::ResourceV| if r.memo_id == memo_id {
            crate::model::ResourceV { memo_id: 0, ..r }
        } else {
            r
        },
    )
}

impl Store {
    /// Attaches the orphaned uploads named by `ids` to `memo_id`.
    fn attach_resources(&mut self, memo_id: i32, ids: &Vec<String>)
        ensures
            final(self)@ == (StoreV {
                resources: spec_attach_resources(
                    old(self)@.resources,
                    ids@.map_values(|s: String| s@),
                    memo_id,
                ),
                ..old(self)@
            }),
    {
        let ghost rs0 = self@.resources;
        let ghost idsv = ids@.map_values(|s: String| s@);
        let n = self.resources.len();
        let mut i: usize = 0;
        while i < n
            invariant
                i <= n,
                n == self.resources@.len(),
                self@.resources.len() == n,
                rs0.len() == n,
                idsv == ids@.map_values(|s: String| s@),
                self@ == (StoreV { resources: self@.resources, ..old(self)@ }),
                forall|j: int| 0 <= j < i ==> self@.resources[j] == spec_attach_resources(
                    rs0,
                    idsv,
                    memo_id,
                )[j],
                forall|j: int| i <= j < n ==> (#[trigger] self@.resources[j]) == rs0[j],
            decreases n - i,
        {
            let ghost pre = self@.resources;
            assert(pre[i as int] == rs0[i as int]);
            let row = &self.resources[i];
            assert(row@ == rs0[i as int]);
            let is_orphan = row.memo_id == 0;
            let in_ids = crate::text::strings_contain(ids, &row.public_id);
            if is_orphan && in_ids {
                let new_row = Resource {
                    public_id: row.public_id.clone(),
                    memo_id: memo_id,
                    user_id: row.user_id,
                    file_type: row.file_type.clone(),
                    file_name: row.file_name.clone(),
                    file_hash: row.file_hash.clone(),
                    size: row.size,
                    internal_path: crate::model::clone_opt_string(&row.internal_path),
                    external_link: crate::model::clone_opt_string(&row.external_link),
                    storage_type: crate::model::clone_opt_string(&row.storage_type),
                    created: row.created,
                    updated: row.updated,
                    suffix: crate::model::clone_opt_string(&row.suffix),
                };
                assert(new_row@ == (crate::model::ResourceV {
                    memo_id: memo_id,
                    ..rs0[i as int]
                }));
                self.resources[i] = new_row;
                proof {
                    assert(self@.resources =~= pre.update(i as int, new_row@));
                    assert(self@.resources[i as int] == spec_attach_resources(
                        rs0,
                        idsv,
                        memo_id,
                    )[i as int]);
                }
            } else {
                assert(self@.resources[i as int] == spec_attach_resources(
                    rs0,
                    idsv,
                    memo_id,
                )[i as int]);
            }
            i = i + 1;
        }
        proof {
            assert(self@.resources =~= spec_attach_resources(rs0, idsv, memo_id));
            assert(self@ =~~= (StoreV {
                resources: spec_attach_resources(rs0, idsv, memo_id),
                ..old(self)@
            }));
        }
    }

    /// Detaches every resource of `memo_id` back to the orphan state.
    fn clear_memo_resources(&mut self, memo_id: i32)
        ensures
            final(self)@ == (StoreV {
                resources: spec_clear_resources(old(self)@.resources, memo_id),
                ..old(self)@
            }),
    {
        let ghost rs0 = self@.resources;
        let n = self.resources.len();
        let mut i: usize = 0;
        while i < n
            invariant
                i <= n,
                n == self.resources@.len(),
                self@.resources.len() == n,
                rs0.len() == n,
                self@ == (StoreV { resources: self@.resources, ..old(self)@ }),
                forall|j: int| 0 <= j < i ==> self@.resources[j] == spec_clear_resources(
                    rs0,
                    memo_id,
                )[j],
                forall|j: int| i <= j < n ==> (#[trigger] self@.resources[j]) == rs0[j],
            decreases n - i,
        {
            let ghost pre = self@.resources;
            assert(pre[i as int] == rs0[i as int]);
            let row = &self.resources[i];
            assert(row@ == rs0[i as int]);
            if row.memo_id == memo_id {
                let new_row = Resource {
                    public_id: row.public_id.clone(),
                    memo_id: 0,
                    user_id: row.user_id,
                    file_type: row.file_type.clone(),
                    file_name: row.file_name.clone(),
                    file_hash: row.file_hash.clone(),
                    size: row.size,
                    internal_path: crate::model::clone_opt_string(&row.internal_path),
                    external_link: crate::model::clone_opt_string(&row.external_link),
                    storage_type: crate::model::clone_opt_string(&row.storage_type),
                    created: row.created,
                    updated: row.updated,
                    suffix: crate::model::clone_opt_string(&row.suffix),
                };
                assert(new_row@ == (crate::model::ResourceV { memo_id: 0, ..rs0[i as int] }));
                self.resources[i] = new_row;
                proof {
                    assert(self@.resources =~= pre.update(i as int, new_row@));
                    assert(self@.resources[i as int] == spec_clear_resources(
                        rs0,
                        memo_id,
                    )[i as int]);
                }
            } else {
                assert(self@.resources[i as int] == spec_clear_resources(
                    rs0,
                    memo_id,
                )[i as int]);
            }
            i = i + 1;
        }
        proof {
            assert(self@.resources =~= spec_clear_resources(rs0, memo_id));
            assert(self@ =~~= (StoreV {
                resources: spec_clear_resources(rs0, memo_id),
                ..old(self)@
            }));
        }
    }
}

} // verus!

verus! {

// ---------------------------------------------------------------------------
// creating a memo
// ---------------------------------------------------------------------------

/// The visibility stored for a submitted one: as given when it has
/// substance, public otherwise.
pub open spec fn spec_vis_or_public(v: Option<Seq<char>>) -> Option<Seq<char>> {
    match v {
        Some(s) => if spec_trim(s).len() > 0 {
            Some(s)
        } else {
            Some("PUBLIC"@)
        },
        None => Some("PUBLIC"@),
    }
}

/// The memo row a create stores: hashtags parsed off the first line into
/// the tag field, the stripped content trimmed, counters zeroed, status
/// normal.
pub open spec fn spec_new_memo(id: i32, user_id: i32, req: SaveMemoRequestV, now: i64) -> MemoV {
    let c = spec_opt_seq(req.content);
    let parsed = spec_parse_tags(c);
    MemoV {
        id,
        user_id,
        content: Some(spec_trim(spec_replace_first_line(c, parsed))),
        tags: Some(spec_format_tags(parsed)),
        visibility: spec_vis_or_public(req.visibility),
        status: Some("NORMAL"@),
        created: Some(now),
        updated: Some(now),
        priority: Some(0),
        comment_count: Some(0),
        like_count: Some(0),
        enable_comment: Some(
            if req.enable_comment == Some(true) {
                1
            } else {
                0
            },
        ),
        view_count: Some(0),
        source: req.source,
    }
}

/// Whether a create of this request can allocate every identifier it may
/// need.
pub open spec fn spec_create_ids_ok(s: StoreV, req: SaveMemoRequestV) -> bool {
    let names = spec_dedup(spec_parse_tags(spec_opt_seq(req.content)));
    s.next_memo_id < i32::MAX && s.next_tag_id + names.len() <= i32::MAX
}

/// The store after a successful create by `user_id`.
pub open spec fn spec_create_memo(s: StoreV, user_id: i32, req: SaveMemoRequestV, now: i64) -> StoreV {
    let names = spec_dedup(spec_parse_tags(spec_opt_seq(req.content)));
    let id = s.next_memo_id;
    let synced = spec_sync_tags(s.tags, s.next_tag_id as int, user_id, names, now);
    StoreV {
        memos: s.memos.push(spec_new_memo(id, user_id, req, now)),
        next_memo_id: (s.next_memo_id + 1) as i32,
        tags: synced.0,
        next_tag_id: synced.1 as i32,
        resources: spec_attach_resources(s.resources, spec_opt_list(req.public_ids), id),
        ..s
    }
}

/// Folding distinct names into the tag table keeps identifiers fresh and
/// counts non-negative, and assigns at most one new identifier per name.
pub proof fn lemma_sync_tags_wf(
    tags: Seq<TagV>,
    next: int,
    user: i32,
    names: Seq<Seq<char>>,
    now: i64,
)
    requires
        1 <= next,
        next + names.len() <= i32::MAX,
        forall|i: int| 0 <= i < tags.len() ==> 1 <= (#[trigger] tags[i]).id < next,
        forall|i: int| 0 <= i < tags.len() ==> crate::model::opt_count_ok(
            (#[trigger] tags[i]).memo_count,
        ),
        forall|i: int, j: int| 0 <= i < tags.len() && 0 <= j < tags.len() && i != j ==> (
        #[trigger] tags[i]).id != (#[trigger] tags[j]).id,
    ensures
        ({
            let r = spec_sync_tags(tags, next, user, names, now);
            &&& next <= r.1 <= next + names.len()
            &&& forall|i: int| 0 <= i < r.0.len() ==> 1 <= (#[trigger] r.0[i]).id < r.1
            &&& forall|i: int| 0 <= i < r.0.len() ==> crate::model::opt_count_ok(
                (#[trigger] r.0[i]).memo_count,
            )
            &&& forall|i: int, j: int| 0 <= i < r.0.len() && 0 <= j < r.0.len() && i != j
                ==> (#[trigger] r.0[i]).id != (#[trigger] r.0[j]).id
        }),
    decreases names.len(),
{
    if names.len() > 0 {
        if spec_has_tag_row(tags, user, names[0]) {
            let bumped = spec_inc_tags(tags, user, names[0]);
            assert(forall|i: int| 0 <= i < bumped.len() ==> 1 <= (#[trigger] bumped[i]).id
                < next) by {
                assert(forall|i: int| 0 <= i < tags.len() ==> bumped[i].id == tags[i].id);
            }
            assert forall|i: int, j: int| 0 <= i < bumped.len() && 0 <= j < bumped.len()
                && i != j implies (#[trigger] bumped[i]).id != (#[trigger] bumped[j]).id by {
                assert(bumped[i].id == tags[i].id && bumped[j].id == tags[j].id);
            }
            assert(forall|i: int| 0 <= i < bumped.len() ==> crate::model::opt_count_ok(
                (#[trigger] bumped[i]).memo_count,
            )) by {
                assert(forall|i: int| 0 <= i < tags.len() ==> bumped[i].memo_count
                    == spec_inc_opt(tags[i].memo_count) || bumped[i].memo_count
                    == tags[i].memo_count);
            }
            lemma_sync_tags_wf(bumped, next, user, names.drop_first(), now);
        } else {
            let grown = tags.push(spec_new_tag_row(next as i32, user, names[0], now));
            assert(forall|i: int| 0 <= i < grown.len() ==> 1 <= (#[trigger] grown[i]).id < next
                + 1) by {
                assert(forall|i: int| 0 <= i < tags.len() ==> grown[i] == tags[i]);
                assert(grown[tags.len() as int].id == next as i32);
            }
            assert forall|i: int, j: int| 0 <= i < grown.len() && 0 <= j < grown.len() && i
                != j implies (#[trigger] grown[i]).id != (#[trigger] grown[j]).id by {
                if i < tags.len() && j < tags.len() {
                    assert(grown[i] == tags[i] && grown[j] == tags[j]);
                } else if i == tags.len() {
                    assert(grown[j] == tags[j]);
                    assert(tags[j].id < next);
                } else {
                    assert(grown[i] == tags[i]);
                    assert(tags[i].id < next);
                }
            }
            assert(forall|i: int| 0 <= i < grown.len() ==> crate::model::opt_count_ok(
                (#[trigger] grown[i]).memo_count,
            )) by {
                assert(forall|i: int| 0 <= i < tags.len() ==> grown[i] == tags[i]);
                assert(grown[tags.len() as int].memo_count == Some(1i32));
            }
            lemma_sync_tags_wf(grown, next + 1, user, names.drop_first(), now);
        }
    }
}

/// Creates a memo: parses hashtags off the first line, strips and trims
/// the content, stores the row, folds the tags into the tag table, and
/// attaches the listed orphaned uploads — the whole transition or none of
/// it. Fails when both the content and the attachment list are empty, or
/// when the store can no longer allocate identifiers.
impl Store {
pub fn create_memo(&mut self, auth: &AuthUser, req: &SaveMemoRequest, now: i64) -> (r:
    Result<i32, AppError>)
    requires
        old(self)@.wf(),
    ensures
        ({
            let c = spec_opt_seq(req@.content);
            let ids = spec_opt_list(req@.public_ids);
            let empty_input = spec_trim(c).len() == 0 && ids.len() == 0;
            &&& (r is Ok <==> !empty_input && spec_create_ids_ok(old(self)@, req@))
            &&& (empty_input ==> (r matches Err(e) && e.spec_code() == 2 && final(self)@
                == old(self)@))
            &&& (!empty_input && !spec_create_ids_ok(old(self)@, req@) ==> (r matches Err(e)
                && e.spec_code() == 99 && final(self)@ == old(self)@))
            &&& (r matches Ok(id) ==> (id == old(self)@.next_memo_id && final(self)@
                == spec_create_memo(old(self)@, auth@.user_id, req@, now)))
            &&& final(self)@.wf()
        }),
{
    let content: String = match &req.content {
        Some(c) => c.clone(),
        None => crate::model::empty_string(),
    };
    let public_ids: Vec<String> = match &req.public_ids {
        Some(v) => crate::model::clone_string_vec(v),
        None => Vec::new(),
    };
    assert(public_ids@.map_values(|s: String| s@) =~= spec_opt_list(req@.public_ids));
    if let Err(e) = check_content_and_resource(&content, &public_ids) {
        assert(self@ =~~= old(self)@);
        return Err(e);
    }
    let tags_list = parse_tags(content.as_str());
    let names = dedup_strings(&tags_list);
    let ghost namesv = names@.map_values(|s: String| s@);
    assert(namesv == spec_dedup(spec_parse_tags(spec_opt_seq(req@.content))));

    if self.next_memo_id == i32::MAX {
        assert(self@ =~~= old(self)@);
        return Err(AppError::system_exception());
    }
    if names.len() >= 2147483648usize || (self.next_tag_id as i64) + (names.len() as i64)
        > (i32::MAX as i64) {
        assert(self@ =~~= old(self)@);
        return Err(AppError::system_exception());
    }

    let id = self.next_memo_id;
    let replaced = replace_first_line(content.as_str(), &tags_list);
    let rchars = chars_of_str(replaced.as_str());
    let trimmed = trim_chars(&rchars);
    let final_content = string_from_chars(&trimmed);
    let tag_field = format_tags(&tags_list);
    let visibility: String = match &req.visibility {
        Some(v) => {
            let vchars = chars_of_str(v.as_str());
            if trimmed_empty(&vchars) {
                let p: String = "PUBLIC".to_owned();
                p
            } else {
                v.clone()
            }
        },
        None => "PUBLIC".to_owned(),
    };
    let enable_comment: i32 = match req.enable_comment {
        Some(true) => 1,
        _ => 0,
    };
    let row = Memo {
        id,
        user_id: auth.user_id,
        content: Some(final_content),
        tags: Some(tag_field),
        visibility: Some(visibility),
        status: Some("NORMAL".to_owned()),
        created: Some(now),
        updated: Some(now),
        priority: Some(0),
        comment_count: Some(0),
        like_count: Some(0),
        enable_comment: Some(enable_comment),
        view_count: Some(0),
        source: crate::model::clone_opt_string(&req.source),
    };
    assert(row@ == spec_new_memo(id, auth@.user_id, req@, now));
    let ghost s0 = self@;
    self.memos.push(row);
    self.next_memo_id = id + 1;
    let ghost s1 = self@;
    proof {
        assert(s1.memos =~= s0.memos.push(row@));
        assert(s1 =~~= (StoreV {
            memos: s0.memos.push(row@),
            next_memo_id: (s0.next_memo_id + 1) as i32,
            ..s0
        }));
    }
    self.sync_tags_on_save(auth.user_id, &names, now);
    let ghost s2 = self@;
    self.attach_resources(id, &public_ids);
    proof {
        let synced = spec_sync_tags(s0.tags, s0.next_tag_id as int, auth@.user_id, namesv, now);
        assert(self@ =~~= spec_create_memo(s0, auth@.user_id, req@, now));
        {
            lemma_sync_tags_wf(
                s0.tags,
                s0.next_tag_id as int,
                auth@.user_id,
                namesv,
                now,
            );
            assert(self@.ids_ok()) by {
                assert(forall|i: int| 0 <= i < s0.memos.len() ==> self@.memos[i]
                    == s0.memos[i]);
                assert(self@.memos[s0.memos.len() as int].id == id);
            }
            assert(self@.counters_ok()) by {
                assert(forall|i: int| 0 <= i < s0.memos.len() ==> self@.memos[i]
                    == s0.memos[i]);
                assert(self@.memos[s0.memos.len() as int] == row@);
            }
        }
    }
    Ok(id)
}
}

} // verus!

verus! {

// ---------------------------------------------------------------------------
// updating a memo
// ---------------------------------------------------------------------------

/// A submitted visibility when it has substance, else the fallback.
pub open spec fn spec_vis_or(v: Option<Seq<char>>, fallback: Option<Seq<char>>) -> Option<
    Seq<char>,
> {
    match v {
        Some(s) => if spec_trim(s).len() > 0 {
            Some(s)
        } else {
            fallback
        },
        None => fallback,
    }
}

/// The memo row after an edit: hashtags re-parsed into the tag field, the
/// stripped content trimmed, counters and status untouched.
pub open spec fn spec_updated_row(m: MemoV, req: SaveMemoRequestV, now: i64) -> MemoV {
    let c = spec_opt_seq(req.content);
    let parsed = spec_parse_tags(c);
    MemoV {
        id: m.id,
        user_id: m.user_id,
        content: Some(spec_trim(spec_replace_first_line(c, parsed))),
        tags: Some(spec_format_tags(parsed)),
        visibility: spec_vis_or(req.visibility, m.visibility),
        status: m.status,
        created: m.created,
        updated: Some(now),
        priority: m.priority,
        comment_count: m.comment_count,
        like_count: m.like_count,
        enable_comment: match req.enable_comment {
            Some(b) => Some(
                if b {
                    1
                } else {
                    0
                },
            ),
            None => m.enable_comment,
        },
        view_count: m.view_count,
        source: match req.source {
            Some(src) => Some(src),
            None => m.source,
        },
    }
}

/// The store after a successful edit by `actor`: the row replaced, the new
/// tag set folded into the actor's tag rows, every previously present tag
/// lowered once, and the attachments rebuilt from the submitted list.
pub open spec fn spec_update_memo(s: StoreV, actor: i32, req: SaveMemoRequestV, now: i64) -> StoreV {
    let id = req.id->0;
    let k = spec_memo_index(s.memos, id)->0;
    let m = s.memos[k];
    let names_new = spec_dedup(spec_parse_tags(spec_opt_seq(req.content)));
    let names_old = spec_dedup(crate::tags::spec_split_tags(crate::tags::spec_opt_chars(m.tags)));
    let synced = spec_sync_tags(s.tags, s.next_tag_id as int, actor, names_new, now);
    StoreV {
        memos: s.memos.update(k, spec_updated_row(m, req, now)),
        tags: spec_dec_tags_all(synced.0, actor, names_old),
        next_tag_id: synced.1 as i32,
        resources: spec_attach_resources(
            spec_clear_resources(s.resources, id),
            spec_opt_list(req.public_ids),
            id,
        ),
        ..s
    }
}

/// Lowering counts keeps every row's identity and keeps counts
/// non-negative.
pub proof fn lemma_dec_tags_all_wf(tags: Seq<TagV>, user: i32, names: Seq<Seq<char>>)
    ensures
        ({
            let r = spec_dec_tags_all(tags, user, names);
            &&& r.len() == tags.len()
            &&& forall|i: int| 0 <= i < tags.len() ==> (#[trigger] r[i]).id == tags[i].id
            &&& forall|i: int| 0 <= i < tags.len() ==> (crate::model::opt_count_ok(
                tags[i].memo_count,
            ) ==> crate::model::opt_count_ok((#[trigger] r[i]).memo_count))
        }),
    decreases names.len(),
{
    if names.len() > 0 {
        let stepped = spec_dec_tags(tags, user, names[0]);
        assert(forall|i: int| 0 <= i < tags.len() ==> (#[trigger] stepped[i]).id == tags[i].id
            && (crate::model::opt_count_ok(tags[i].memo_count)
            ==> crate::model::opt_count_ok(stepped[i].memo_count)));
        lemma_dec_tags_all_wf(stepped, user, names.drop_first());
    }
}

impl Store {
    /// Lowers this owner's count for every name of a list, each once,
    /// floored at zero.
    fn decrement_tags_all(&mut self, user: i32, names: &Vec<String>)
        ensures
            final(self)@ == (StoreV {
                tags: spec_dec_tags_all(
                    old(self)@.tags,
                    user,
                    names@.map_values(|s: String| s@),
                ),
                ..old(self)@
            }),
    {
        let ghost namesv = names@.map_values(|s: String| s@);
        proof {
            assert(namesv.skip(0) =~= namesv);
        }
        let mut i: usize = 0;
        while i < names.len()
            invariant
                i <= namesv.len(),
                namesv == names@.map_values(|s: String| s@),
                self@ == (StoreV { tags: self@.tags, ..old(self)@ }),
                spec_dec_tags_all(old(self)@.tags, user, namesv) == spec_dec_tags_all(
                    self@.tags,
                    user,
                    namesv.skip(i as int),
                ),
            decreases namesv.len() - i,
        {
            let ghost rest = namesv.skip(i as int);
            proof {
                assert(rest[0] == namesv[i as int]);
                assert(rest.drop_first() =~= namesv.skip(i + 1));
            }
            let name = &names[i];
            assert(name@ == namesv[i as int]);
            self.decrement_tag_count(user, name);
            i = i + 1;
        }
        proof {
            assert(namesv.skip(namesv.len() as int) =~= Seq::<Seq<char>>::empty());
        }
    }

    /// Edits a memo: replaces its text and tag field from the submitted
    /// content, folds the new tag set into the actor's tag rows, lowers
    /// every previously present tag once, and rebuilds the attachments.
    /// A tag kept across the edit is first raised and then lowered, so its
    /// count ends where it started.
    pub fn update_memo(&mut self, auth: &AuthUser, req: &SaveMemoRequest, now: i64) -> (r:
        Result<(), AppError>)
        requires
            old(self)@.wf(),
        ensures
            ({
                let c = spec_opt_seq(req@.content);
                let ids = spec_opt_list(req@.public_ids);
                let empty_input = spec_trim(c).len() == 0 && ids.len() == 0;
                let found = req@.id is Some && spec_memo_index(old(self)@.memos, req@.id->0)
                    is Some;
                let names_new = spec_dedup(spec_parse_tags(c));
                let room = old(self)@.next_tag_id + names_new.len() <= i32::MAX;
                &&& (req@.id is None ==> (r matches Err(e) && e.spec_code() == 1
                    && final(self)@ == old(self)@))
                &&& (req@.id is Some && empty_input ==> (r matches Err(e) && e.spec_code()
                    == 2 && e.spec_msg() == "内容和图片都为空"@ && final(self)@
                    == old(self)@))
                &&& (req@.id is Some && !empty_input && !found ==> (r matches Err(e)
                    && e.spec_code() == 2 && e.spec_msg() == "memo不存在"@ && final(self)@
                    == old(self)@))
                &&& (req@.id is Some && !empty_input && found && !room ==> (r matches Err(e)
                    && e.spec_code() == 99 && final(self)@ == old(self)@))
                &&& (r is Ok <==> (req@.id is Some && !empty_input && found && room))
                &&& (r is Ok ==> final(self)@ == spec_update_memo(
                    old(self)@,
                    auth@.user_id,
                    req@,
                    now,
                ))
                &&& final(self)@.wf()
            }),
    {
        let id = match req.id {
            Some(i) => i,
            None => {
                assert(self@ =~~= old(self)@);
                return Err(AppError::param_error("memoID"));
            },
        };
        let content: String = match &req.content {
            Some(c) => c.clone(),
            None => crate::model::empty_string(),
        };
        let public_ids: Vec<String> = match &req.public_ids {
            Some(v) => crate::model::clone_string_vec(v),
            None => Vec::new(),
        };
        assert(public_ids@.map_values(|s: String| s@) =~= spec_opt_list(req@.public_ids));
        if let Err(e) = check_content_and_resource(&content, &public_ids) {
            assert(self@ =~~= old(self)@);
            return Err(e);
        }
        let k = match self.find_memo_idx(id) {
            Some(k) => k,
            None => {
                assert(self@ =~~= old(self)@);
                return Err(AppError::fail("memo不存在"));
            },
        };
        let tags_list = parse_tags(content.as_str());
        let names_new = dedup_strings(&tags_list);
        let ghost names_newv = names_new@.map_values(|s: String| s@);
        assert(names_newv == spec_dedup(spec_parse_tags(spec_opt_seq(req@.content))));
        if names_new.len() >= 2147483648usize || (self.next_tag_id as i64) + (names_new.len()
            as i64) > (i32::MAX as i64) {
            assert(self@ =~~= old(self)@);
            return Err(AppError::system_exception());
        }

        let old_field = crate::model::clone_opt_string(&self.memos[k].tags);
        let old_list = crate::tags::split_tags(old_field);
        let names_old = dedup_strings(&old_list);
        let ghost m0 = self@.memos[k as int];
        assert(names_old@.map_values(|s: String| s@) == spec_dedup(
            crate::tags::spec_split_tags(crate::tags::spec_opt_chars(m0.tags)),
        ));

        let replaced = replace_first_line(content.as_str(), &tags_list);
        let rchars = chars_of_str(replaced.as_str());
        let trimmed = trim_chars(&rchars);
        let final_content = string_from_chars(&trimmed);
        let tag_field = format_tags(&tags_list);
        let old_row = &self.memos[k];
        let visibility: Option<String> = match &req.visibility {
            Some(v) => {
                let vchars = chars_of_str(v.as_str());
                if trimmed_empty(&vchars) {
                    crate::model::clone_opt_string(&old_row.visibility)
                } else {
                    Some(v.clone())
                }
            },
            None => crate::model::clone_opt_string(&old_row.visibility),
        };
        let enable_comment: Option<i32> = match req.enable_comment {
            Some(b) => Some(
                if b {
                    1
                } else {
                    0
                },
            ),
            None => old_row.enable_comment,
        };
        let source: Option<String> = match &req.source {
            Some(src) => Some(src.clone()),
            None => crate::model::clone_opt_string(&old_row.source),
        };
        let m2 = Memo {
            id: old_row.id,
            user_id: old_row.user_id,
            content: Some(final_content),
            tags: Some(tag_field),
            visibility,
            status: crate::model::clone_opt_string(&old_row.status),
            created: old_row.created,
            updated: Some(now),
            priority: old_row.priority,
            comment_count: old_row.comment_count,
            like_count: old_row.like_count,
            enable_comment,
            view_count: old_row.view_count,
            source,
        };
        assert(m2@ == spec_updated_row(m0, req@, now));
        let ghost s0 = self@;
        self.memos[k] = m2;
        proof {
            assert(self@.memos =~= s0.memos.update(k as int, m2@));
            assert(self@ =~~= (StoreV { memos: s0.memos.update(k as int, m2@), ..s0 }));
        }
        self.sync_tags_on_save(auth.user_id, &names_new, now);
        self.decrement_tags_all(auth.user_id, &names_old);
        self.clear_memo_resources(id);
        self.attach_resources(id, &public_ids);
        proof {
            assert(self@ =~~= spec_update_memo(s0, auth@.user_id, req@, now));
            lemma_sync_tags_wf(
                s0.tags,
                s0.next_tag_id as int,
                auth@.user_id,
                names_newv,
                now,
            );
            let synced = spec_sync_tags(
                s0.tags,
                s0.next_tag_id as int,
                auth@.user_id,
                names_newv,
                now,
            );
            lemma_dec_tags_all_wf(
                synced.0,
                auth@.user_id,
                names_old@.map_values(|s: String| s@),
            );
            assert(self@.ids_ok()) by {
                assert(forall|i: int| 0 <= i < s0.memos.len() && i != k ==> self@.memos[i]
                    == s0.memos[i]);
                assert(self@.memos[k as int].id == m0.id);
            }
            assert(self@.counters_ok()) by {
                assert(forall|i: int| 0 <= i < s0.memos.len() && i != k ==> self@.memos[i]
                    == s0.memos[i]);
                assert(self@.memos[k as int] == spec_updated_row(m0, req@, now));
            }
        }
        Ok(())
    }
}

} // verus!

verus! {

// ---------------------------------------------------------------------------
// deleting a memo
// ---------------------------------------------------------------------------

pub open spec fn resource_keep_filter(memo_id: i32) -> spec_fn(crate::model::ResourceV) -> bool {
    |r: crate::model::ResourceV| r.memo_id != memo_id
}

pub open spec fn comment_keep_filter(memo_id: i32) -> spec_fn(crate::model::CommentV) -> bool {
    |c: crate::model::CommentV| c.memo_id != memo_id
}

/// The store after a delete by `actor`: every tag the memo carried lowered
/// once on the actor's rows, its resources and comments gone, the row
/// gone.
pub open spec fn spec_remove_memo(s: StoreV, actor: i32, memo_id: i32) -> StoreV {
    let k = spec_memo_index(s.memos, memo_id)->0;
    let m = s.memos[k];
    let names_old = spec_dedup(crate::tags::spec_split_tags(crate::tags::spec_opt_chars(m.tags)));
    StoreV {
        tags: spec_dec_tags_all(s.tags, actor, names_old),
        resources: crate::text::seq_filter(s.resources, resource_keep_filter(memo_id)),
        memos: s.memos.remove(k),
        comments: crate::text::seq_filter(s.comments, comment_keep_filter(memo_id)),
        ..s
    }
}

impl Store {
    /// Drops every resource row attached to `memo_id`.
    fn retain_resources_not_memo(&mut self, memo_id: i32)
        ensures
            final(self)@ == (StoreV {
                resources: crate::text::seq_filter(
                    old(self)@.resources,
                    resource_keep_filter(memo_id),
                ),
                ..old(self)@
            }),
    {
        let ghost rs0 = self@.resources;
        let mut kept: Vec<Resource> = Vec::new();
        let mut i: usize = 0;
        while i < self.resources.len()
            invariant
                i <= rs0.len(),
                self@.resources == rs0,
                self@.resources.len() == self.resources@.len(),
                self@ == (StoreV { resources: rs0, ..old(self)@ }),
                kept@.map_values(|r: Resource| r@) == crate::text::seq_filter(
                    rs0.subrange(0, i as int),
                    resource_keep_filter(memo_id),
                ),
            decreases rs0.len() - i,
        {
            let ghost pre = rs0.subrange(0, i as int);
            let ghost pre2 = rs0.subrange(0, i + 1);
            proof {
                assert(pre2.drop_last() =~= pre);
                assert(pre2.last() == rs0[i as int]);
            }
            let row = &self.resources[i];
            assert(row@ == rs0[i as int]);
            if row.memo_id != memo_id {
                assert((resource_keep_filter(memo_id))(rs0[i as int]));
                let copy = Resource {
                    public_id: row.public_id.clone(),
                    memo_id: row.memo_id,
                    user_id: row.user_id,
                    file_type: row.file_type.clone(),
                    file_name: row.file_name.clone(),
                    file_hash: row.file_hash.clone(),
                    size: row.size,
                    internal_path: crate::model::clone_opt_string(&row.internal_path),
                    external_link: crate::model::clone_opt_string(&row.external_link),
                    storage_type: crate::model::clone_opt_string(&row.storage_type),
                    created: row.created,
                    updated: row.updated,
                    suffix: crate::model::clone_opt_string(&row.suffix),
                };
                assert(copy@ == rs0[i as int]);
                kept.push(copy);
                assert(kept@.map_values(|r: Resource| r@) =~= crate::text::seq_filter(
                    pre,
                    resource_keep_filter(memo_id),
                ).push(rs0[i as int]));
            } else {
                assert(!(resource_keep_filter(memo_id))(rs0[i as int]));
            }
            i = i + 1;
        }
        proof {
            assert(rs0.subrange(0, rs0.len() as int) =~= rs0);
        }
        self.resources = kept;
        proof {
            assert(self@ =~~= (StoreV {
                resources: crate::text::seq_filter(rs0, resource_keep_filter(memo_id)),
                ..old(self)@
            }));
        }
    }

    /// Drops every comment row on `memo_id`.
    fn retain_comments_not_memo(&mut self, memo_id: i32)
        ensures
            final(self)@ == (StoreV {
                comments: crate::text::seq_filter(
                    old(self)@.comments,
                    comment_keep_filter(memo_id),
                ),
                ..old(self)@
            }),
    {
        let ghost cs0 = self@.comments;
        let mut kept: Vec<crate::model::Comment> = Vec::new();
        let mut i: usize = 0;
        while i < self.comments.len()
            invariant
                i <= cs0.len(),
                self@.comments == cs0,
                self@.comments.len() == self.comments@.len(),
                self@ == (StoreV { comments: cs0, ..old(self)@ }),
                kept@.map_values(|c: crate::model::Comment| c@) == crate::text::seq_filter(
                    cs0.subrange(0, i as int),
                    comment_keep_filter(memo_id),
                ),
            decreases cs0.len() - i,
        {
            let ghost pre = cs0.subrange(0, i as int);
            let ghost pre2 = cs0.subrange(0, i + 1);
            proof {
                assert(pre2.drop_last() =~= pre);
                assert(pre2.last() == cs0[i as int]);
            }
            let row = &self.comments[i];
            assert(row@ == cs0[i as int]);
            if row.memo_id != memo_id {
                assert((comment_keep_filter(memo_id))(cs0[i as int]));
                let copy = crate::model::Comment {
                    id: row.id,
                    memo_id: row.memo_id,
                    content: row.content.clone(),
                    user_id: row.user_id,
                    user_name: row.user_name.clone(),
                    mentioned: crate::model::clone_opt_string(&row.mentioned),
                    created: row.created,
                    updated: row.updated,
                    mentioned_user_id: crate::model::clone_opt_string(&row.mentioned_user_id),
                    email: crate::model::clone_opt_string(&row.email),
                    link: crate::model::clone_opt_string(&row.link),
                    approved: row.approved,
                };
                assert(copy@ == cs0[i as int]);
                kept.push(copy);
                assert(kept@.map_values(|c: crate::model::Comment| c@)
                    =~= crate::text::seq_filter(pre, comment_keep_filter(memo_id)).push(
                    cs0[i as int],
                ));
            } else {
                assert(!(comment_keep_filter(memo_id))(cs0[i as int]));
            }
            i = i + 1;
        }
        proof {
            assert(cs0.subrange(0, cs0.len() as int) =~= cs0);
        }
        self.comments = kept;
        proof {
            assert(self@ =~~= (StoreV {
                comments: crate::text::seq_filter(cs0, comment_keep_filter(memo_id)),
                ..old(self)@
            }));
        }
    }

    /// Deletes a memo with everything hanging off it: the actor's counts
    /// for its tags each drop by one, its resources and comments are
    /// removed, and the row goes away. Deleting an id with no row is a
    /// silent success. Only the owner or an administrator may delete.
    pub fn remove_memo(&mut self, auth: &AuthUser, memo_id: i32) -> (r: Result<(), AppError>)
        requires
            old(self)@.wf(),
        ensures
            ({
                let idx = spec_memo_index(old(self)@.memos, memo_id);
                let allowed = idx matches Some(k) && (crate::auth::spec_is_admin(auth@)
                    || old(self)@.memos[k].user_id == auth@.user_id);
                &&& (idx is None ==> (r is Ok && final(self)@ == old(self)@))
                &&& (idx is Some && !allowed ==> (r matches Err(e) && e.spec_code() == 2
                    && e.spec_msg() == "不能删除其他人的记录"@ && final(self)@ == old(
                    self,
                )@))
                &&& (idx is Some && allowed ==> (r is Ok && final(self)@ == spec_remove_memo(
                    old(self)@,
                    auth@.user_id,
                    memo_id,
                )))
                &&& final(self)@.wf()
            }),
    {
        let k = match self.find_memo_idx(memo_id) {
            Some(k) => k,
            None => {
                assert(self@ =~~= old(self)@);
                return Ok(());
            },
        };
        let is_admin = crate::settings::require_admin(auth).is_ok();
        if !is_admin && self.memos[k].user_id != auth.user_id {
            assert(self@ =~~= old(self)@);
            return Err(AppError::fail("不能删除其他人的记录"));
        }
        let ghost s0 = self@;
        let ghost m0 = self@.memos[k as int];
        let old_field = crate::model::clone_opt_string(&self.memos[k].tags);
        let old_list = crate::tags::split_tags(old_field);
        let names_old = dedup_strings(&old_list);
        self.decrement_tags_all(auth.user_id, &names_old);
        self.retain_resources_not_memo(memo_id);
        self.memos.remove(k);
        self.retain_comments_not_memo(memo_id);
        proof {
            assert(self@.memos =~= s0.memos.remove(k as int));
            assert(self@ =~~= spec_remove_memo(s0, auth@.user_id, memo_id));
            lemma_dec_tags_all_wf(
                s0.tags,
                auth@.user_id,
                names_old@.map_values(|s: String| s@),
            );
            crate::text::lemma_seq_filter_elements(s0.comments, comment_keep_filter(memo_id));
            assert(self@.ids_ok()) by {
                assert(forall|i: int| 0 <= i < self@.memos.len() ==> (
                #[trigger] self@.memos[i]) == s0.memos.remove(k as int)[i]);
                s0.memos.remove_ensures(k as int);
                assert forall|a: int, b: int| 0 <= a < self@.memos.len() && 0 <= b
                    < self@.memos.len() && a != b implies (#[trigger] self@.memos[a]).id != (
                #[trigger] self@.memos[b]).id by {
                    let sa: int = if a < k {
                        a
                    } else {
                        a + 1
                    };
                    let sb: int = if b < k {
                        b
                    } else {
                        b + 1
                    };
                    assert(self@.memos[a] == s0.memos[sa] && self@.memos[b] == s0.memos[sb]);
                }
                assert(forall|i: int| 0 <= i < self@.comments.len() ==> s0.comments.contains(
                    #[trigger] self@.comments[i],
                ));
                assert(forall|i: int| 0 <= i < s0.comments.len() ==> 1 <= (
                #[trigger] s0.comments[i]).id < s0.next_comment_id);
                assert forall|i: int| 0 <= i < self@.comments.len() implies 1 <= (
                #[trigger] self@.comments[i]).id < self@.next_comment_id by {
                    let c = self@.comments[i];
                    let j = choose|j: int| 0 <= j < s0.comments.len() && s0.comments[j] == c;
                }
                crate::text::lemma_seq_filter_pairwise(
                    s0.comments,
                    comment_keep_filter(memo_id),
                    |a: crate::model::CommentV, b: crate::model::CommentV| a.id != b.id,
                );
            }
            assert(self@.counters_ok()) by {
                assert(forall|i: int| 0 <= i < self@.memos.len() ==> (
                #[trigger] self@.memos[i]) == s0.memos.remove(k as int)[i]);
            }
        }
        Ok(())
    }
}

} // verus!

verus! {

// ---------------------------------------------------------------------------
// pinning
// ---------------------------------------------------------------------------

/// The greatest priority any memo carries, when any carries one at all.
pub open spec fn spec_max_priority(memos: Seq<MemoV>) -> Option<int>
    decreases memos.len(),
{
    if memos.len() == 0 {
        None
    } else {
        let rest = spec_max_priority(memos.drop_last());
        match (memos.last().priority, rest) {
            (None, r) => r,
            (Some(p), None) => Some(p as int),
            (Some(p), Some(m)) => Some(
                if p as int > m {
                    p as int
                } else {
                    m
                },
            ),
        }
    }
}

proof fn lemma_max_priority_nonneg(memos: Seq<MemoV>)
    requires
        forall|i: int| 0 <= i < memos.len() ==> crate::model::opt_count_ok(
            (#[trigger] memos[i]).priority,
        ),
    ensures
        spec_max_priority(memos) matches Some(m) ==> 0 <= m <= i32::MAX,
    decreases memos.len(),
{
    if memos.len() > 0 {
        assert(forall|i: int| 0 <= i < memos.len() - 1 ==> crate::model::opt_count_ok(
            (#[trigger] memos.drop_last()[i]).priority,
        )) by {
            assert(forall|i: int| 0 <= i < memos.len() - 1 ==> memos.drop_last()[i]
                == memos[i]);
        }
        lemma_max_priority_nonneg(memos.drop_last());
        assert(crate::model::opt_count_ok(memos[memos.len() - 1].priority));
    }
}

/// Every memo with this id re-pinned to the given priority.
pub open spec fn spec_set_priority(memos: Seq<MemoV>, memo_id: i32, value: Option<i32>) -> Seq<
    MemoV,
> {
    memos.map_values(
        |m: MemoV| if m.id == memo_id {
            MemoV { priority: value, ..m }
        } else {
            m
        },
    )
}

impl Store {
    fn max_priority(&self) -> (r: Option<i32>)
        ensures
            match r {
                Some(p) => spec_max_priority(self@.memos) == Some(p as int),
                None => spec_max_priority(self@.memos) is None,
            },
    {
        let mut acc: Option<i32> = None;
        let mut i: usize = 0;
        while i < self.memos.len()
            invariant
                i <= self@.memos.len(),
                self@.memos.len() == self.memos@.len(),
                match acc {
                    Some(p) => spec_max_priority(self@.memos.subrange(0, i as int)) == Some(
                        p as int,
                    ),
                    None => spec_max_priority(self@.memos.subrange(0, i as int)) is None,
                },
            decreases self@.memos.len() - i,
        {
            let ghost pre = self@.memos.subrange(0, i as int);
            let ghost pre2 = self@.memos.subrange(0, i + 1);
            proof {
                assert(pre2.drop_last() =~= pre);
                assert(pre2.last() == self@.memos[i as int]);
            }
            let p = self.memos[i].priority;
            acc = match (p, acc) {
                (None, a) => a,
                (Some(p), None) => Some(p),
                (Some(p), Some(m)) => Some(
                    if p > m {
                        p
                    } else {
                        m
                    },
                ),
            };
            i = i + 1;
        }
        proof {
            assert(self@.memos.subrange(0, self@.memos.len() as int) =~= self@.memos);
        }
        acc
    }

    fn set_priority_rows(&mut self, memo_id: i32, value: Option<i32>)
        ensures
            final(self)@ == (StoreV {
                memos: spec_set_priority(old(self)@.memos, memo_id, value),
                ..old(self)@
            }),
    {
        let ghost ms0 = self@.memos;
        let n = self.memos.len();
        let mut i: usize = 0;
        while i < n
            invariant
                i <= n,
                n == self.memos@.len(),
                self@.memos.len() == n,
                ms0.len() == n,
                self@ == (StoreV { memos: self@.memos, ..old(self)@ }),
                forall|j: int| 0 <= j < i ==> self@.memos[j] == spec_set_priority(
                    ms0,
                    memo_id,
                    value,
                )[j],
                forall|j: int| i <= j < n ==> (#[trigger] self@.memos[j]) == ms0[j],
            decreases n - i,
        {
            let ghost pre = self@.memos;
            assert(pre[i as int] == ms0[i as int]);
            let row = &self.memos[i];
            assert(row@ == ms0[i as int]);
            if row.id == memo_id {
                let new_row = Memo {
                    id: row.id,
                    user_id: row.user_id,
                    content: crate::model::clone_opt_string(&row.content),
                    tags: crate::model::clone_opt_string(&row.tags),
                    visibility: crate::model::clone_opt_string(&row.visibility),
                    status: crate::model::clone_opt_string(&row.status),
                    created: row.created,
                    updated: row.updated,
                    priority: value,
                    comment_count: row.comment_count,
                    like_count: row.like_count,
                    enable_comment: row.enable_comment,
                    view_count: row.view_count,
                    source: crate::model::clone_opt_string(&row.source),
                };
                assert(new_row@ == (MemoV { priority: value, ..ms0[i as int] }));
                self.memos[i] = new_row;
                proof {
                    assert(self@.memos =~= pre.update(i as int, new_row@));
                    assert(self@.memos[i as int] == spec_set_priority(
                        ms0,
                        memo_id,
                        value,
                    )[i as int]);
                }
            } else {
                assert(self@.memos[i as int] == spec_set_priority(
                    ms0,
                    memo_id,
                    value,
                )[i as int]);
            }
            i = i + 1;
        }
        proof {
            assert(self@.memos =~= spec_set_priority(ms0, memo_id, value));
            assert(self@ =~~= (StoreV {
                memos: spec_set_priority(ms0, memo_id, value),
                ..old(self)@
            }));
        }
    }

    /// Pins or unpins a memo: pinning assigns one more than the greatest
    /// priority any memo carries (none carrying one leaves it unset, as
    /// adding to a null does); unpinning assigns zero. An id with no row
    /// is a silent success; only the owner or an administrator may pin.
    pub fn set_priority(&mut self, auth: &AuthUser, memo_id: i32, set: bool) -> (r: Result<
        (),
        AppError,
    >)
        requires
            old(self)@.wf(),
        ensures
            ({
                let idx = spec_memo_index(old(self)@.memos, memo_id);
                let allowed = idx matches Some(k) && (crate::auth::spec_is_admin(auth@)
                    || old(self)@.memos[k].user_id == auth@.user_id);
                let value = if set {
                    match spec_max_priority(old(self)@.memos) {
                        Some(m) => Some(
                            (if m < i32::MAX {
                                m + 1
                            } else {
                                m
                            }) as i32,
                        ),
                        None => None,
                    }
                } else {
                    Some(0i32)
                };
                &&& (idx is None ==> (r is Ok && final(self)@ == old(self)@))
                &&& (idx is Some && !allowed ==> (r matches Err(e) && e.spec_code() == 2
                    && e.spec_msg() == "不能操作其他人的记录"@ && final(self)@ == old(
                    self,
                )@))
                &&& (idx is Some && allowed ==> (r is Ok && final(self)@ == (StoreV {
                    memos: spec_set_priority(old(self)@.memos, memo_id, value),
                    ..old(self)@
                })))
                &&& final(self)@.wf()
            }),
    {
        let k = match self.find_memo_idx(memo_id) {
            Some(k) => k,
            None => {
                assert(self@ =~~= old(self)@);
                return Ok(());
            },
        };
        let is_admin = crate::settings::require_admin(auth).is_ok();
        if !is_admin && self.memos[k].user_id != auth.user_id {
            assert(self@ =~~= old(self)@);
            return Err(AppError::fail("不能操作其他人的记录"));
        }
        let ghost s0 = self@;
        let value: Option<i32> = if set {
            match self.max_priority() {
                Some(m) => Some(
                    if m < i32::MAX {
                        m + 1
                    } else {
                        m
                    },
                ),
                None => None,
            }
        } else {
            Some(0)
        };
        self.set_priority_rows(memo_id, value);
        proof {
            lemma_max_priority_nonneg(s0.memos);
            assert(self@.ids_ok()) by {
                assert(forall|i: int| 0 <= i < s0.memos.len() ==> (
                #[trigger] self@.memos[i]).id == s0.memos[i].id);
            }
            assert(self@.counters_ok()) by {
                assert(forall|i: int| 0 <= i < s0.memos.len() ==> (#[trigger] self@.memos[i])
                    == spec_set_priority(s0.memos, memo_id, value)[i]);
                assert(crate::model::opt_count_ok(value));
            }
        }
        Ok(())
    }
}

} // verus!

verus! {

// ---------------------------------------------------------------------------
// likes
// ---------------------------------------------------------------------------

/// A like or unlike, as a caller submits it.
pub struct MemoRelationRequest {
    pub memo_id: i32,
    pub fav_type: String,
    pub operate_type: String,
}

pub struct MemoRelationRequestV {
    pub memo_id: i32,
    pub fav_type: Seq<char>,
    pub operate_type: Seq<char>,
}

impl View for MemoRelationRequest {
    type V = MemoRelationRequestV;

    open spec fn view(&self) -> MemoRelationRequestV {
        MemoRelationRequestV {
            memo_id: self.memo_id,
            fav_type: self.fav_type@,
            operate_type: self.operate_type@,
        }
    }
}

/// Whether a relation row for this triple exists.
pub open spec fn spec_rel_exists(
    rels: Seq<crate::model::UserMemoRelationV>,
    memo_id: i32,
    user_id: i32,
    fav: Seq<char>,
) -> bool {
    exists|i: int| 0 <= i < rels.len() && (#[trigger] rels[i]).memo_id == memo_id
        && rels[i].user_id == user_id && rels[i].fav_type == fav
}

pub open spec fn rel_keep_filter(memo_id: i32, user_id: i32, fav: Seq<char>) -> spec_fn(
    crate::model::UserMemoRelationV,
) -> bool {
    |r: crate::model::UserMemoRelationV| !(r.memo_id == memo_id && r.user_id == user_id
        && r.fav_type == fav)
}

/// Every memo with this id with its like counter raised by one.
pub open spec fn spec_inc_like(memos: Seq<MemoV>, memo_id: i32) -> Seq<MemoV> {
    memos.map_values(
        |m: MemoV| if m.id == memo_id {
            MemoV { like_count: spec_inc_opt(m.like_count), ..m }
        } else {
            m
        },
    )
}

/// Every memo with this id with its like counter lowered by one, floored
/// at zero.
pub open spec fn spec_dec_like(memos: Seq<MemoV>, memo_id: i32) -> Seq<MemoV> {
    memos.map_values(
        |m: MemoV| if m.id == memo_id {
            MemoV { like_count: spec_dec_opt(m.like_count), ..m }
        } else {
            m
        },
    )
}

/// The relation row an "ADD" inserts.
pub open spec fn spec_new_relation(
    id: i32,
    memo_id: i32,
    user_id: i32,
    fav: Seq<char>,
    now: i64,
) -> crate::model::UserMemoRelationV {
    crate::model::UserMemoRelationV {
        id,
        memo_id,
        user_id,
        fav_type: fav,
        created: Some(now),
        updated: None,
    }
}

/// The store after a successful "ADD": the relation inserted and the
/// memo's like counter raised by one.
pub open spec fn spec_add_like(s: StoreV, memo_id: i32, user_id: i32, fav: Seq<char>, now: i64) -> StoreV {
    StoreV {
        relations: s.relations.push(
            spec_new_relation(s.next_relation_id, memo_id, user_id, fav, now),
        ),
        next_relation_id: (s.next_relation_id + 1) as i32,
        memos: spec_inc_like(s.memos, memo_id),
        ..s
    }
}

/// The store after a "REMOVE": the matching relations gone, and the like
/// counter lowered only when one actually existed.
pub open spec fn spec_remove_like(s: StoreV, memo_id: i32, user_id: i32, fav: Seq<char>) -> StoreV {
    StoreV {
        relations: crate::text::seq_filter(s.relations, rel_keep_filter(memo_id, user_id, fav)),
        memos: if spec_rel_exists(s.relations, memo_id, user_id, fav) {
            spec_dec_like(s.memos, memo_id)
        } else {
            s.memos
        },
        ..s
    }
}

impl Store {
    fn rel_exists(&self, memo_id: i32, user_id: i32, fav: &String) -> (r: bool)
        ensures
            r == spec_rel_exists(self@.relations, memo_id, user_id, fav@),
    {
        let mut i: usize = 0;
        while i < self.relations.len()
            invariant
                i <= self@.relations.len(),
                self@.relations.len() == self.relations@.len(),
                forall|j: int| 0 <= j < i ==> !((#[trigger] self@.relations[j]).memo_id
                    == memo_id && self@.relations[j].user_id == user_id
                    && self@.relations[j].fav_type == fav@),
            decreases self@.relations.len() - i,
        {
            let row = &self.relations[i];
            assert(row@ == self@.relations[i as int]);
            if row.memo_id == memo_id && row.user_id == user_id && str_eq(
                row.fav_type.as_str(),
                fav.as_str(),
            ) {
                return true;
            }
            i = i + 1;
        }
        false
    }

    fn inc_like_count(&mut self, memo_id: i32)
        ensures
            final(self)@ == (StoreV {
                memos: spec_inc_like(old(self)@.memos, memo_id),
                ..old(self)@
            }),
    {
        let ghost ms0 = self@.memos;
        let n = self.memos.len();
        let mut i: usize = 0;
        while i < n
            invariant
                i <= n,
                n == self.memos@.len(),
                self@.memos.len() == n,
                ms0.len() == n,
                self@ == (StoreV { memos: self@.memos, ..old(self)@ }),
                forall|j: int| 0 <= j < i ==> self@.memos[j] == spec_inc_like(
                    ms0,
                    memo_id,
                )[j],
                forall|j: int| i <= j < n ==> (#[trigger] self@.memos[j]) == ms0[j],
            decreases n - i,
        {
            let ghost pre = self@.memos;
            assert(pre[i as int] == ms0[i as int]);
            let row = &self.memos[i];
            assert(row@ == ms0[i as int]);
            if row.id == memo_id {
                let new_count: Option<i32> = match row.like_count {
                    Some(c) => Some(
                        if c < i32::MAX {
                            c + 1
                        } else {
                            c
                        },
                    ),
                    None => None,
                };
                let new_row = Memo {
                    id: row.id,
                    user_id: row.user_id,
                    content: crate::model::clone_opt_string(&row.content),
                    tags: crate::model::clone_opt_string(&row.tags),
                    visibility: crate::model::clone_opt_string(&row.visibility),
                    status: crate::model::clone_opt_string(&row.status),
                    created: row.created,
                    updated: row.updated,
                    priority: row.priority,
                    comment_count: row.comment_count,
                    like_count: new_count,
                    enable_comment: row.enable_comment,
                    view_count: row.view_count,
                    source: crate::model::clone_opt_string(&row.source),
                };
                assert(new_row@ == (MemoV {
                    like_count: spec_inc_opt(ms0[i as int].like_count),
                    ..ms0[i as int]
                }));
                self.memos[i] = new_row;
                proof {
                    assert(self@.memos =~= pre.update(i as int, new_row@));
                    assert(self@.memos[i as int] == spec_inc_like(ms0, memo_id)[i as int]);
                }
            } else {
                assert(self@.memos[i as int] == spec_inc_like(ms0, memo_id)[i as int]);
            }
            i = i + 1;
        }
        proof {
            assert(self@.memos =~= spec_inc_like(ms0, memo_id));
            assert(self@ =~~= (StoreV { memos: spec_inc_like(ms0, memo_id), ..old(self)@ }));
        }
    }

    fn dec_like_count(&mut self, memo_id: i32)
        ensures
            final(self)@ == (StoreV {
                memos: spec_dec_like(old(self)@.memos, memo_id),
                ..old(self)@
            }),
    {
        let ghost ms0 = self@.memos;
        let n = self.memos.len();
        let mut i: usize = 0;
        while i < n
            invariant
                i <= n,
                n == self.memos@.len(),
                self@.memos.len() == n,
                ms0.len() == n,
                self@ == (StoreV { memos: self@.memos, ..old(self)@ }),
                forall|j: int| 0 <= j < i ==> self@.memos[j] == spec_dec_like(
                    ms0,
                    memo_id,
                )[j],
                forall|j: int| i <= j < n ==> (#[trigger] self@.memos[j]) == ms0[j],
            decreases n - i,
        {
            let ghost pre = self@.memos;
            assert(pre[i as int] == ms0[i as int]);
            let row = &self.memos[i];
            assert(row@ == ms0[i as int]);
            if row.id == memo_id {
                let new_count: Option<i32> = match row.like_count {
                    Some(c) => Some(
                        if c >= 1 {
                            c - 1
                        } else {
                            c
                        },
                    ),
                    None => None,
                };
                let new_row = Memo {
                    id: row.id,
                    user_id: row.user_id,
                    content: crate::model::clone_opt_string(&row.content),
                    tags: crate::model::clone_opt_string(&row.tags),
                    visibility: crate::model::clone_opt_string(&row.visibility),
                    status: crate::model::clone_opt_string(&row.status),
                    created: row.created,
                    updated: row.updated,
                    priority: row.priority,
                    comment_count: row.comment_count,
                    like_count: new_count,
                    enable_comment: row.enable_comment,
                    view_count: row.view_count,
                    source: crate::model::clone_opt_string(&row.source),
                };
                assert(new_row@ == (MemoV {
                    like_count: spec_dec_opt(ms0[i as int].like_count),
                    ..ms0[i as int]
                }));
                self.memos[i] = new_row;
                proof {
                    assert(self@.memos =~= pre.update(i as int, new_row@));
                    assert(self@.memos[i as int] == spec_dec_like(ms0, memo_id)[i as int]);
                }
            } else {
                assert(self@.memos[i as int] == spec_dec_like(ms0, memo_id)[i as int]);
            }
            i = i + 1;
        }
        proof {
            assert(self@.memos =~= spec_dec_like(ms0, memo_id));
            assert(self@ =~~= (StoreV { memos: spec_dec_like(ms0, memo_id), ..old(self)@ }));
        }
    }

    fn retain_relations_not(&mut self, memo_id: i32, user_id: i32, fav: &String)
        ensures
            final(self)@ == (StoreV {
                relations: crate::text::seq_filter(
                    old(self)@.relations,
                    rel_keep_filter(memo_id, user_id, fav@),
                ),
                ..old(self)@
            }),
    {
        let ghost rs0 = self@.relations;
        let mut kept: Vec<crate::model::UserMemoRelation> = Vec::new();
        let mut i: usize = 0;
        while i < self.relations.len()
            invariant
                i <= rs0.len(),
                self@.relations == rs0,
                self@.relations.len() == self.relations@.len(),
                self@ == (StoreV { relations: rs0, ..old(self)@ }),
                kept@.map_values(|r: crate::model::UserMemoRelation| r@)
                    == crate::text::seq_filter(
                    rs0.subrange(0, i as int),
                    rel_keep_filter(memo_id, user_id, fav@),
                ),
            decreases rs0.len() - i,
        {
            let ghost pre = rs0.subrange(0, i as int);
            let ghost pre2 = rs0.subrange(0, i + 1);
            proof {
                assert(pre2.drop_last() =~= pre);
                assert(pre2.last() == rs0[i as int]);
            }
            let row = &self.relations[i];
            assert(row@ == rs0[i as int]);
            let is_match = row.memo_id == memo_id && row.user_id == user_id && str_eq(
                row.fav_type.as_str(),
                fav.as_str(),
            );
            if !is_match {
                assert((rel_keep_filter(memo_id, user_id, fav@))(rs0[i as int]));
                let copy = crate::model::UserMemoRelation {
                    id: row.id,
                    memo_id: row.memo_id,
                    user_id: row.user_id,
                    fav_type: row.fav_type.clone(),
                    created: row.created,
                    updated: row.updated,
                };
                assert(copy@ == rs0[i as int]);
                kept.push(copy);
                assert(kept@.map_values(|r: crate::model::UserMemoRelation| r@)
                    =~= crate::text::seq_filter(
                    pre,
                    rel_keep_filter(memo_id, user_id, fav@),
                ).push(rs0[i as int]));
            } else {
                assert(!(rel_keep_filter(memo_id, user_id, fav@))(rs0[i as int]));
            }
            i = i + 1;
        }
        proof {
            assert(rs0.subrange(0, rs0.len() as int) =~= rs0);
        }
        self.relations = kept;
        proof {
            assert(self@ =~~= (StoreV {
                relations: crate::text::seq_filter(
                    rs0,
                    rel_keep_filter(memo_id, user_id, fav@),
                ),
                ..old(self)@
            }));
        }
    }

    /// Records or withdraws a like, gated by the likes-enabled setting.
    /// "ADD" fails on an existing relation and otherwise inserts it and
    /// raises the like counter by one; "REMOVE" deletes the relation and
    /// lowers the counter only when a relation actually existed, floored
    /// at zero. Any other operation changes nothing.
    pub fn memo_relation(&mut self, auth: &AuthUser, req: &MemoRelationRequest, now: i64) -> (r:
        Result<(), AppError>)
        requires
            old(self)@.wf(),
        ensures
            ({
                let open_like = crate::settings::spec_get_boolean(
                    old(self)@.configs,
                    "OPEN_LIKE"@,
                );
                let dup = spec_rel_exists(
                    old(self)@.relations,
                    req@.memo_id,
                    auth@.user_id,
                    req@.fav_type,
                );
                &&& (!open_like ==> (r matches Err(e) && e.spec_code() == 2 && e.spec_msg()
                    == "禁止点赞"@ && final(self)@ == old(self)@))
                &&& (open_like && req@.operate_type == "ADD"@ && dup ==> (r matches Err(e)
                    && e.spec_code() == 2 && e.spec_msg() == "数据已存在"@ && final(self)@
                    == old(self)@))
                &&& (open_like && req@.operate_type == "ADD"@ && !dup
                    && old(self)@.next_relation_id == i32::MAX ==> (r matches Err(e)
                    && e.spec_code() == 99 && final(self)@ == old(self)@))
                &&& (open_like && req@.operate_type == "ADD"@ && !dup
                    && old(self)@.next_relation_id < i32::MAX ==> (r is Ok && final(self)@
                    == spec_add_like(
                    old(self)@,
                    req@.memo_id,
                    auth@.user_id,
                    req@.fav_type,
                    now,
                )))
                &&& (open_like && req@.operate_type == "REMOVE"@ ==> (r is Ok && final(self)@
                    == spec_remove_like(
                    old(self)@,
                    req@.memo_id,
                    auth@.user_id,
                    req@.fav_type,
                )))
                &&& (open_like && req@.operate_type != "ADD"@ && req@.operate_type
                    != "REMOVE"@ ==> (r is Ok && final(self)@ == old(self)@))
                &&& final(self)@.wf()
            }),
    {
        proof {
            reveal_strlit("ADD");
            reveal_strlit("REMOVE");
            assert("ADD"@.len() == 3);
            assert("REMOVE"@.len() == 6);
            assert("ADD"@ != "REMOVE"@);
        }
        let open_like = crate::settings::get_boolean(self, "OPEN_LIKE");
        if !open_like {
            assert(self@ =~~= old(self)@);
            return Err(AppError::fail("禁止点赞"));
        }
        if str_eq(req.operate_type.as_str(), "ADD") {
            if self.rel_exists(req.memo_id, auth.user_id, &req.fav_type) {
                assert(self@ =~~= old(self)@);
                return Err(AppError::fail("数据已存在"));
            }
            if self.next_relation_id == i32::MAX {
                assert(self@ =~~= old(self)@);
                return Err(AppError::system_exception());
            }
            let ghost s0 = self@;
            let id = self.next_relation_id;
            let row = crate::model::UserMemoRelation {
                id,
                memo_id: req.memo_id,
                user_id: auth.user_id,
                fav_type: req.fav_type.clone(),
                created: Some(now),
                updated: None,
            };
            assert(row@ == spec_new_relation(id, req@.memo_id, auth@.user_id, req@.fav_type, now));
            self.relations.push(row);
            self.next_relation_id = id + 1;
            self.inc_like_count(req.memo_id);
            proof {
                assert(self@.relations =~= s0.relations.push(row@));
                assert(self@ =~~= spec_add_like(s0, req@.memo_id, auth@.user_id, req@.fav_type, now));
                assert(self@.ids_ok()) by {
                    assert(forall|i: int| 0 <= i < s0.relations.len() ==> (
                    #[trigger] self@.relations[i]) == s0.relations[i]);
                    assert(self@.relations[s0.relations.len() as int].id == id);
                    assert(forall|i: int| 0 <= i < s0.memos.len() ==> (
                    #[trigger] self@.memos[i]).id == s0.memos[i].id);
                }
                assert(self@.counters_ok()) by {
                    assert(forall|i: int| 0 <= i < s0.memos.len() ==> (
                    #[trigger] self@.memos[i]) == spec_inc_like(s0.memos, req@.memo_id)[i]);
                }
            }
            Ok(())
        } else if str_eq(req.operate_type.as_str(), "REMOVE") {
            let ghost s0 = self@;
            let existed = self.rel_exists(req.memo_id, auth.user_id, &req.fav_type);
            self.retain_relations_not(req.memo_id, auth.user_id, &req.fav_type);
            if existed {
                self.dec_like_count(req.memo_id);
            }
            proof {
                assert(self@ =~~= spec_remove_like(s0, req@.memo_id, auth@.user_id, req@.fav_type));
                crate::text::lemma_seq_filter_elements(
                    s0.relations,
                    rel_keep_filter(req@.memo_id, auth@.user_id, req@.fav_type),
                );
                assert(self@.ids_ok()) by {
                    assert forall|i: int| 0 <= i < self@.relations.len() implies 1 <= (
                    #[trigger] self@.relations[i]).id < self@.next_relation_id by {
                        let c = self@.relations[i];
                        assert(s0.relations.contains(c));
                        let j = choose|j: int| 0 <= j < s0.relations.len() && s0.relations[j]
                            == c;
                    }
                    crate::text::lemma_seq_filter_pairwise(
                        s0.relations,
                        rel_keep_filter(req@.memo_id, auth@.user_id, req@.fav_type),
                        |a: crate::model::UserMemoRelationV, b: crate::model::UserMemoRelationV|
                            a.id != b.id,
                    );
                    assert(forall|i: int| 0 <= i < s0.memos.len() ==> (
                    #[trigger] self@.memos[i]).id == s0.memos[i].id);
                }
                assert(self@.counters_ok()) by {
                    if existed {
                        assert(forall|i: int| 0 <= i < s0.memos.len() ==> (
                        #[trigger] self@.memos[i]) == spec_dec_like(
                            s0.memos,
                            req@.memo_id,
                        )[i]);
                    }
                }
            }
            Ok(())
        } else {
            assert(self@ =~~= old(self)@);
            Ok(())
        }
    }
}

} // verus!

verus! {

// ---------------------------------------------------------------------------
// laws of the like relation
// ---------------------------------------------------------------------------

/// Like idempotence: once an "ADD" has succeeded, the relation it inserted
/// exists, so the operation's contract forces a second identical "ADD" to
/// fail with the duplicate error and leave the store unchanged; the memo's
/// like counter ends exactly one above where it began.
pub proof fn lemma_like_idempotence(
    s0: StoreV,
    memo_id: i32,
    user_id: i32,
    fav: Seq<char>,
    now: i64,
    k: int,
)
    requires
        !spec_rel_exists(s0.relations, memo_id, user_id, fav),
        s0.next_relation_id < i32::MAX,
        0 <= k < s0.memos.len(),
        s0.memos[k].id == memo_id,
        s0.memos[k].like_count matches Some(c) && c < i32::MAX,
    ensures
        ({
            let s1 = spec_add_like(s0, memo_id, user_id, fav, now);
            &&& spec_rel_exists(s1.relations, memo_id, user_id, fav)
            &&& crate::model::opt_i32(s1.memos[k].like_count) == crate::model::opt_i32(
                s0.memos[k].like_count,
            ) + 1
        }),
{
    let s1 = spec_add_like(s0, memo_id, user_id, fav, now);
    assert(s1.relations[s0.relations.len() as int].memo_id == memo_id);
    assert(s1.relations[s0.relations.len() as int].user_id == user_id);
    assert(s1.relations[s0.relations.len() as int].fav_type == fav);
    assert(s1.memos[k] == (MemoV {
        like_count: spec_inc_opt(s0.memos[k].like_count),
        ..s0.memos[k]
    }));
}

/// Unlike no-op safety: a "REMOVE" for a relation that does not exist
/// leaves the store exactly as it was — nothing is deleted and no counter
/// moves — and the operation's contract reports success.
pub proof fn lemma_unlike_missing_noop(s0: StoreV, memo_id: i32, user_id: i32, fav: Seq<char>)
    requires
        !spec_rel_exists(s0.relations, memo_id, user_id, fav),
    ensures
        spec_remove_like(s0, memo_id, user_id, fav) == s0,
{
    assert(forall|i: int| 0 <= i < s0.relations.len() ==> (rel_keep_filter(
        memo_id,
        user_id,
        fav,
    ))(#[trigger] s0.relations[i]));
    crate::text::lemma_seq_filter_all_true(s0.relations, rel_keep_filter(memo_id, user_id, fav));
    assert(spec_remove_like(s0, memo_id, user_id, fav) =~~= s0);
}

} // verus!

verus! {

// ---------------------------------------------------------------------------
// the tag count invariant
// ---------------------------------------------------------------------------

pub open spec fn spec_ind(b: bool) -> int {
    if b {
        1int
    } else {
        0int
    }
}

/// The walk invariant of the tag bookkeeping: each row's count is the
/// target count, plus one for every name still awaiting its decrement,
/// minus one for every name still awaiting its increment.
pub open spec fn sync_rows_track(
    tags: Seq<TagV>,
    memos: Seq<MemoV>,
    user: i32,
    inc_pending: Seq<Seq<char>>,
    dec_pending: Seq<Seq<char>>,
) -> bool {
    forall|k: int| 0 <= k < tags.len() ==> crate::model::opt_i32(
        (#[trigger] tags[k]).memo_count,
    ) == crate::model::spec_count_tagged(memos, tags[k].user_id, tags[k].name) + spec_ind(
        tags[k].user_id == user && dec_pending.contains(tags[k].name),
    ) - spec_ind(tags[k].user_id == user && inc_pending.contains(tags[k].name))
        && tags[k].memo_count is Some
}

/// Every carried tag either has a row already or is still awaiting its
/// increment.
pub open spec fn sync_coverage(
    tags: Seq<TagV>,
    memos: Seq<MemoV>,
    user: i32,
    inc_pending: Seq<Seq<char>>,
) -> bool {
    forall|u: i32, t: Seq<char>| #[trigger] crate::model::spec_count_tagged(memos, u, t) > 0
        ==> crate::model::spec_tag_row_exists(tags, u, t) || (u == user
        && inc_pending.contains(t))
}

/// A pending name without a row is carried by exactly one memo and awaits
/// no decrement.
pub open spec fn sync_missing_ok(
    tags: Seq<TagV>,
    memos: Seq<MemoV>,
    user: i32,
    inc_pending: Seq<Seq<char>>,
    dec_pending: Seq<Seq<char>>,
) -> bool {
    forall|t: Seq<char>| #[trigger] inc_pending.contains(t)
        && !crate::model::spec_tag_row_exists(tags, user, t)
        ==> crate::model::spec_count_tagged(memos, user, t) == 1 && !dec_pending.contains(t)
}

proof fn lemma_no_dup_first_rest(names: Seq<Seq<char>>)
    requires
        names.no_duplicates(),
        names.len() > 0,
    ensures
        !names.drop_first().contains(names[0]),
        names.drop_first().no_duplicates(),
        forall|t: Seq<char>| #[trigger] names.contains(t) <==> (t == names[0]
            || names.drop_first().contains(t)),
{
    let rest = names.drop_first();
    if rest.contains(names[0]) {
        let i = choose|i: int| 0 <= i < rest.len() && rest[i] == names[0];
        assert(names[i + 1] == names[0]);
    }
    assert(rest.no_duplicates()) by {
        assert(forall|i: int| 0 <= i < rest.len() ==> rest[i] == names[i + 1]);
    }
    assert forall|t: Seq<char>| #[trigger] names.contains(t) implies (t == names[0]
        || rest.contains(t)) by {
        let i = choose|i: int| 0 <= i < names.len() && names[i] == t;
        if i > 0 {
            assert(rest[i - 1] == t);
        }
    }
    assert forall|t: Seq<char>| (t == names[0] || rest.contains(t)) implies
        #[trigger] names.contains(t) by {
        if t == names[0] {
            assert(names[0] == t);
        } else {
            let i = choose|i: int| 0 <= i < rest.len() && rest[i] == t;
            assert(names[i + 1] == t);
        }
    }
}

/// Folding the pending names into the tag table discharges every pending
/// increment while keeping rows unique, never losing a row, and leaving
/// every count at its target plus its pending decrements.
proof fn lemma_sync_tags_establishes(
    tags: Seq<TagV>,
    next: int,
    user: i32,
    names: Seq<Seq<char>>,
    now: i64,
    memos: Seq<MemoV>,
    dset: Seq<Seq<char>>,
)
    requires
        names.no_duplicates(),
        memos.len() < 0x7fffffff,
        crate::model::tag_rows_unique(tags),
        sync_rows_track(tags, memos, user, names, dset),
        sync_coverage(tags, memos, user, names),
        sync_missing_ok(tags, memos, user, names, dset),
    ensures
        ({
            let r = spec_sync_tags(tags, next, user, names, now);
            &&& crate::model::tag_rows_unique(r.0)
            &&& sync_rows_track(r.0, memos, user, Seq::empty(), dset)
            &&& sync_coverage(r.0, memos, user, Seq::<Seq<char>>::empty())
            &&& forall|u: i32, t: Seq<char>| crate::model::spec_tag_row_exists(tags, u, t)
                ==> #[trigger] crate::model::spec_tag_row_exists(r.0, u, t)
        }),
    decreases names.len(),
{
    if names.len() == 0 {
        assert(sync_rows_track(tags, memos, user, Seq::empty(), dset)) by {
            assert(forall|t: Seq<char>| !Seq::<Seq<char>>::empty().contains(t));
        }
        assert(sync_coverage(tags, memos, user, Seq::<Seq<char>>::empty())) by {
            assert(forall|t: Seq<char>| !names.contains(t));
        }
    } else {
        let nm = names[0];
        let rest = names.drop_first();
        lemma_no_dup_first_rest(names);
        assert(names.contains(nm)) by {
            assert(names[0] == nm);
        }
        if spec_has_tag_row(tags, user, nm) {
            let bumped = spec_inc_tags(tags, user, nm);
            assert(bumped.len() == tags.len());
            assert(forall|k: int| 0 <= k < tags.len() ==> (#[trigger] bumped[k]).user_id
                == tags[k].user_id && bumped[k].name == tags[k].name && bumped[k].id
                == tags[k].id);
            assert(crate::model::tag_rows_unique(bumped));
            assert forall|k: int| 0 <= k < bumped.len() implies crate::model::opt_i32(
                (#[trigger] bumped[k]).memo_count,
            ) == crate::model::spec_count_tagged(memos, bumped[k].user_id, bumped[k].name)
                + spec_ind(bumped[k].user_id == user && dset.contains(bumped[k].name))
                - spec_ind(bumped[k].user_id == user && rest.contains(bumped[k].name))
                && bumped[k].memo_count is Some by {
                crate::model::lemma_count_tagged_bounds(memos, tags[k].user_id, tags[k].name);
                if tags[k].user_id == user && tags[k].name == nm {
                    assert(bumped[k] == (TagV {
                        memo_count: spec_inc_opt(tags[k].memo_count),
                        ..tags[k]
                    }));
                } else {
                    assert(bumped[k] == tags[k]);
                }
            }
            assert forall|u: i32, t: Seq<char>| crate::model::spec_tag_row_exists(tags, u, t)
                implies #[trigger] crate::model::spec_tag_row_exists(bumped, u, t) by {
                let i = choose|i: int| 0 <= i < tags.len() && (#[trigger] tags[i]).user_id
                    == u && tags[i].name == t;
                assert(bumped[i].user_id == u && bumped[i].name == t);
            }
            assert(sync_coverage(bumped, memos, user, rest)) by {
                assert forall|u: i32, t: Seq<char>|
                    #[trigger] crate::model::spec_count_tagged(memos, u, t) > 0 implies
                    crate::model::spec_tag_row_exists(bumped, u, t) || (u == user
                        && rest.contains(t)) by {
                    if crate::model::spec_tag_row_exists(tags, u, t) {
                    } else {
                        assert(u == user && names.contains(t));
                        if t == nm {
                            assert(crate::model::spec_tag_row_exists(tags, user, nm));
                        }
                    }
                }
            }
            assert(sync_missing_ok(bumped, memos, user, rest, dset)) by {
                assert forall|t: Seq<char>| #[trigger] rest.contains(t)
                    && !crate::model::spec_tag_row_exists(bumped, user, t) implies
                    crate::model::spec_count_tagged(memos, user, t) == 1 && !dset.contains(
                    t,
                ) by {
                    assert(names.contains(t));
                    if crate::model::spec_tag_row_exists(tags, user, t) {
                        let i = choose|i: int| 0 <= i < tags.len() && (
                        #[trigger] tags[i]).user_id == user && tags[i].name == t;
                        assert(bumped[i].user_id == user && bumped[i].name == t);
                    }
                }
            }
            lemma_sync_tags_establishes(bumped, next, user, rest, now, memos, dset);
        } else {
            let row = spec_new_tag_row(next as i32, user, nm, now);
            let grown = tags.push(row);
            assert(forall|k: int| 0 <= k < tags.len() ==> #[trigger] grown[k] == tags[k]);
            assert(grown[tags.len() as int] == row);
            assert(crate::model::tag_rows_unique(grown)) by {
                assert forall|i: int, j: int| 0 <= i < grown.len() && 0 <= j < grown.len()
                    && i != j implies !((#[trigger] grown[i]).user_id == (
                #[trigger] grown[j]).user_id && grown[i].name == grown[j].name) by {
                    if i == tags.len() {
                        if grown[j].user_id == user && grown[j].name == nm {
                            assert(crate::model::spec_tag_row_exists(tags, user, nm)) by {
                                assert(tags[j].user_id == user && tags[j].name == nm);
                            }
                        }
                    } else if j == tags.len() {
                        if grown[i].user_id == user && grown[i].name == nm {
                            assert(crate::model::spec_tag_row_exists(tags, user, nm)) by {
                                assert(tags[i].user_id == user && tags[i].name == nm);
                            }
                        }
                    }
                }
            }
            assert(names.contains(nm) && !crate::model::spec_tag_row_exists(tags, user, nm));
            assert(crate::model::spec_count_tagged(memos, user, nm) == 1 && !dset.contains(
                nm,
            ));
            assert forall|k: int| 0 <= k < grown.len() implies crate::model::opt_i32(
                (#[trigger] grown[k]).memo_count,
            ) == crate::model::spec_count_tagged(memos, grown[k].user_id, grown[k].name)
                + spec_ind(grown[k].user_id == user && dset.contains(grown[k].name))
                - spec_ind(grown[k].user_id == user && rest.contains(grown[k].name))
                && grown[k].memo_count is Some by {
                if k < tags.len() {
                    assert(grown[k] == tags[k]);
                } else {
                    assert(grown[k] == row);
                    assert(!rest.contains(nm));
                }
            }
            assert(sync_coverage(grown, memos, user, rest)) by {
                assert forall|u: i32, t: Seq<char>|
                    #[trigger] crate::model::spec_count_tagged(memos, u, t) > 0 implies
                    crate::model::spec_tag_row_exists(grown, u, t) || (u == user
                        && rest.contains(t)) by {
                    if crate::model::spec_tag_row_exists(tags, u, t) {
                        let i = choose|i: int| 0 <= i < tags.len() && (
                        #[trigger] tags[i]).user_id == u && tags[i].name == t;
                        assert(grown[i].user_id == u && grown[i].name == t);
                    } else {
                        assert(u == user && names.contains(t));
                        if t == nm {
                            assert(grown[tags.len() as int].user_id == user
                                && grown[tags.len() as int].name == nm);
                        }
                    }
                }
            }
            assert(sync_missing_ok(grown, memos, user, rest, dset)) by {
                assert forall|t: Seq<char>| #[trigger] rest.contains(t)
                    && !crate::model::spec_tag_row_exists(grown, user, t) implies
                    crate::model::spec_count_tagged(memos, user, t) == 1 && !dset.contains(
                    t,
                ) by {
                    assert(names.contains(t));
                    if crate::model::spec_tag_row_exists(tags, user, t) {
                        let i = choose|i: int| 0 <= i < tags.len() && (
                        #[trigger] tags[i]).user_id == user && tags[i].name == t;
                        assert(grown[i].user_id == user && grown[i].name == t);
                    }
                }
            }
            lemma_sync_tags_establishes(grown, next + 1, user, rest, now, memos, dset);
            assert forall|u: i32, t: Seq<char>| crate::model::spec_tag_row_exists(tags, u, t)
                implies #[trigger] crate::model::spec_tag_row_exists(grown, u, t) by {
                let i = choose|i: int| 0 <= i < tags.len() && (#[trigger] tags[i]).user_id
                    == u && tags[i].name == t;
                assert(grown[i].user_id == u && grown[i].name == t);
            }
        }
    }
}

/// Discharging the pending decrements, one per name, lands every count on
/// its target: the tag table is consistent with the memos again.
proof fn lemma_dec_tags_establishes(
    tags: Seq<TagV>,
    user: i32,
    dset: Seq<Seq<char>>,
    memos: Seq<MemoV>,
)
    requires
        dset.no_duplicates(),
        crate::model::tag_rows_unique(tags),
        sync_rows_track(tags, memos, user, Seq::empty(), dset),
        sync_coverage(tags, memos, user, Seq::<Seq<char>>::empty()),
        forall|t: Seq<char>| #[trigger] dset.contains(t)
            ==> crate::model::spec_tag_row_exists(tags, user, t),
    ensures
        crate::model::tag_rows_consistent(spec_dec_tags_all(tags, user, dset), memos),
    decreases dset.len(),
{
    if dset.len() == 0 {
        assert(crate::model::tag_rows_consistent(tags, memos)) by {
            assert(forall|t: Seq<char>| !Seq::<Seq<char>>::empty().contains(t));
        }
    } else {
        let nm = dset[0];
        let rest = dset.drop_first();
        lemma_no_dup_first_rest(dset);
        assert(dset.contains(nm)) by {
            assert(dset[0] == nm);
        }
        let stepped = spec_dec_tags(tags, user, nm);
        assert(stepped.len() == tags.len());
        assert(forall|k: int| 0 <= k < tags.len() ==> (#[trigger] stepped[k]).user_id
            == tags[k].user_id && stepped[k].name == tags[k].name && stepped[k].id
            == tags[k].id);
        assert(crate::model::tag_rows_unique(stepped));
        assert forall|k: int| 0 <= k < stepped.len() implies crate::model::opt_i32(
            (#[trigger] stepped[k]).memo_count,
        ) == crate::model::spec_count_tagged(memos, stepped[k].user_id, stepped[k].name)
            + spec_ind(stepped[k].user_id == user && rest.contains(stepped[k].name))
            && stepped[k].memo_count is Some by {
            crate::model::lemma_count_tagged_bounds(memos, tags[k].user_id, tags[k].name);
            if tags[k].user_id == user && tags[k].name == nm {
                assert(stepped[k] == (TagV {
                    memo_count: spec_dec_opt(tags[k].memo_count),
                    ..tags[k]
                }));
                assert(crate::model::opt_i32(tags[k].memo_count)
                    == crate::model::spec_count_tagged(memos, user, nm) + 1);
            } else {
                assert(stepped[k] == tags[k]);
            }
        }
        assert(sync_rows_track(stepped, memos, user, Seq::empty(), rest)) by {
            assert(forall|t: Seq<char>| !Seq::<Seq<char>>::empty().contains(t));
        }
        assert forall|u: i32, t: Seq<char>| crate::model::spec_tag_row_exists(tags, u, t)
            implies #[trigger] crate::model::spec_tag_row_exists(stepped, u, t) by {
            let i = choose|i: int| 0 <= i < tags.len() && (#[trigger] tags[i]).user_id == u
                && tags[i].name == t;
            assert(stepped[i].user_id == u && stepped[i].name == t);
        }
        assert(sync_coverage(stepped, memos, user, Seq::<Seq<char>>::empty()));
        assert forall|t: Seq<char>| #[trigger] rest.contains(t) implies
            crate::model::spec_tag_row_exists(stepped, user, t) by {
            assert(dset.contains(t));
            assert(crate::model::spec_tag_row_exists(tags, user, t));
        }
        lemma_dec_tags_establishes(stepped, user, rest, memos);
    }
}

} // verus!

verus! {

/// Tag count invariant, creation case: when every tag row's count equals
/// the number of the owner's memos carrying that tag, creating a memo
/// leaves it so — each parsed tag's row is raised once or born at one,
/// exactly matching the one new memo that carries it.
pub proof fn lemma_create_preserves_tag_state(
    s: StoreV,
    user_id: i32,
    req: SaveMemoRequestV,
    now: i64,
)
    requires
        crate::model::tag_state_ok(s),
        s.memos.len() + 1 < 0x7fffffff,
    ensures
        crate::model::tag_state_ok(spec_create_memo(s, user_id, req, now)),
{
    let c = spec_opt_seq(req.content);
    let parsed = spec_parse_tags(c);
    let names = spec_dedup(parsed);
    let m = spec_new_memo(s.next_memo_id, user_id, req, now);
    let memos2 = s.memos.push(m);
    crate::tags::lemma_parsed_tags_clean(c);
    crate::tags::lemma_format_split_roundtrip(parsed);
    crate::text::lemma_dedup_no_dup(parsed);
    assert(m.tags == Some(spec_format_tags(parsed)));
    assert forall|u: i32, t: Seq<char>| #[trigger] crate::model::memo_matches_tag(m, u, t)
        == (u == user_id && names.contains(t)) by {
        crate::text::lemma_dedup_membership(parsed, t);
        assert(crate::tags::spec_field_has_tag(m.tags, t) == parsed.contains(t));
    }
    assert forall|u: i32, t: Seq<char>| #[trigger] crate::model::spec_count_tagged(
        memos2,
        u,
        t,
    ) == crate::model::spec_count_tagged(s.memos, u, t) + spec_ind(u == user_id
        && names.contains(t)) by {
        crate::model::lemma_count_tagged_push(s.memos, m, u, t);
    }
    assert(sync_rows_track(s.tags, memos2, user_id, names, Seq::empty())) by {
        assert(forall|t: Seq<char>| !Seq::<Seq<char>>::empty().contains(t));
    }
    assert(sync_coverage(s.tags, memos2, user_id, names)) by {
        assert forall|u: i32, t: Seq<char>| #[trigger] crate::model::spec_count_tagged(
            memos2,
            u,
            t,
        ) > 0 implies crate::model::spec_tag_row_exists(s.tags, u, t) || (u == user_id
            && names.contains(t)) by {
            if crate::model::spec_count_tagged(s.memos, u, t) > 0 {
            }
        }
    }
    assert(sync_missing_ok(s.tags, memos2, user_id, names, Seq::empty())) by {
        assert forall|t: Seq<char>| #[trigger] names.contains(t)
            && !crate::model::spec_tag_row_exists(s.tags, user_id, t) implies
            crate::model::spec_count_tagged(memos2, user_id, t) == 1
                && !Seq::<Seq<char>>::empty().contains(t) by {
            crate::model::lemma_count_tagged_bounds(s.memos, user_id, t);
            assert(crate::model::spec_count_tagged(s.memos, user_id, t) == 0);
        }
    }
    lemma_sync_tags_establishes(
        s.tags,
        s.next_tag_id as int,
        user_id,
        names,
        now,
        memos2,
        Seq::empty(),
    );
    let synced = spec_sync_tags(s.tags, s.next_tag_id as int, user_id, names, now);
    let result = spec_create_memo(s, user_id, req, now);
    assert(result.tags == synced.0 && result.memos == memos2);
    assert(crate::model::tag_rows_consistent(synced.0, memos2)) by {
        assert(forall|t: Seq<char>| !Seq::<Seq<char>>::empty().contains(t));
        assert forall|u: i32, t: Seq<char>| #[trigger] crate::model::spec_count_tagged(
            memos2,
            u,
            t,
        ) > 0 implies crate::model::spec_tag_row_exists(synced.0, u, t) by {
        }
    }
}

/// Tag count invariant, deletion case, for a deletion by the memo's own
/// author: every tag the memo carried drops by one on the author's rows,
/// matching the one departed memo, and all other counts stand. An
/// administrator deleting another user's memo is outside this law: the
/// decrements land on the administrator's rows, not the author's.
pub proof fn lemma_remove_preserves_tag_state(s: StoreV, actor: i32, memo_id: i32)
    requires
        crate::model::tag_state_ok(s),
        spec_memo_index(s.memos, memo_id) is Some,
        s.memos[spec_memo_index(s.memos, memo_id)->0].user_id == actor,
    ensures
        crate::model::tag_state_ok(spec_remove_memo(s, actor, memo_id)),
{
    let k = spec_memo_index(s.memos, memo_id)->0;
    let m = s.memos[k];
    let split0 = crate::tags::spec_split_tags(crate::tags::spec_opt_chars(m.tags));
    let names_old = spec_dedup(split0);
    let memos2 = s.memos.remove(k);
    crate::text::lemma_dedup_no_dup(split0);
    lemma_memo_index_bounds(s.memos, memo_id);
    assert forall|u: i32, t: Seq<char>| #[trigger] crate::model::memo_matches_tag(m, u, t)
        == (u == actor && names_old.contains(t)) by {
        crate::text::lemma_dedup_membership(split0, t);
    }
    assert forall|u: i32, t: Seq<char>| #[trigger] crate::model::spec_count_tagged(
        memos2,
        u,
        t,
    ) == crate::model::spec_count_tagged(s.memos, u, t) - spec_ind(u == actor
        && names_old.contains(t)) by {
        crate::model::lemma_count_tagged_remove(s.memos, k, u, t);
    }
    assert(sync_rows_track(s.tags, memos2, actor, Seq::empty(), names_old)) by {
        assert(forall|t: Seq<char>| !Seq::<Seq<char>>::empty().contains(t));
    }
    assert(sync_coverage(s.tags, memos2, actor, Seq::<Seq<char>>::empty())) by {
        assert forall|u: i32, t: Seq<char>| #[trigger] crate::model::spec_count_tagged(
            memos2,
            u,
            t,
        ) > 0 implies crate::model::spec_tag_row_exists(s.tags, u, t) by {
            assert(crate::model::spec_count_tagged(s.memos, u, t) > 0);
        }
    }
    assert forall|t: Seq<char>| #[trigger] names_old.contains(t) implies
        crate::model::spec_tag_row_exists(s.tags, actor, t) by {
        assert(crate::model::memo_matches_tag(m, actor, t));
        crate::model::lemma_count_tagged_remove(s.memos, k, actor, t);
        crate::model::lemma_count_tagged_bounds(memos2, actor, t);
        assert(crate::model::spec_count_tagged(s.memos, actor, t) > 0);
    }
    lemma_dec_tags_establishes(s.tags, actor, names_old, memos2);
    let result = spec_remove_memo(s, actor, memo_id);
    assert(result.tags == spec_dec_tags_all(s.tags, actor, names_old) && result.memos
        == memos2);
}

proof fn lemma_memo_index_bounds(memos: Seq<MemoV>, id: i32)
    ensures
        spec_memo_index(memos, id) matches Some(k) ==> 0 <= k < memos.len(),
    decreases memos.len(),
{
    if memos.len() > 0 && memos[0].id != id {
        lemma_memo_index_bounds(memos.drop_first(), id);
    }
}

/// Tag count invariant, edit case, for an edit by the memo's own author:
/// the new tag set is raised, the old one lowered, so a tag kept across
/// the edit ends where it started, a dropped one falls by one, a fresh
/// one rises by one — and all counts again match the memos. An edit of
/// another user's memo is outside this law: the adjustments land on the
/// editor's rows, not the author's.
pub proof fn lemma_update_preserves_tag_state(
    s: StoreV,
    actor: i32,
    req: SaveMemoRequestV,
    now: i64,
)
    requires
        crate::model::tag_state_ok(s),
        s.memos.len() < 0x7fffffff,
        req.id is Some,
        spec_memo_index(s.memos, req.id->0) is Some,
        s.memos[spec_memo_index(s.memos, req.id->0)->0].user_id == actor,
    ensures
        crate::model::tag_state_ok(spec_update_memo(s, actor, req, now)),
{
    let id = req.id->0;
    let k = spec_memo_index(s.memos, id)->0;
    let m0 = s.memos[k];
    let m2 = spec_updated_row(m0, req, now);
    let memos2 = s.memos.update(k, m2);
    let c = spec_opt_seq(req.content);
    let parsed = spec_parse_tags(c);
    let names_new = spec_dedup(parsed);
    let split0 = crate::tags::spec_split_tags(crate::tags::spec_opt_chars(m0.tags));
    let names_old = spec_dedup(split0);
    lemma_memo_index_bounds(s.memos, id);
    crate::tags::lemma_parsed_tags_clean(c);
    crate::tags::lemma_format_split_roundtrip(parsed);
    crate::text::lemma_dedup_no_dup(parsed);
    crate::text::lemma_dedup_no_dup(split0);
    assert(m2.tags == Some(spec_format_tags(parsed)));
    assert(m2.user_id == actor);
    assert forall|u: i32, t: Seq<char>| #[trigger] crate::model::memo_matches_tag(m2, u, t)
        == (u == actor && names_new.contains(t)) by {
        crate::text::lemma_dedup_membership(parsed, t);
        assert(crate::tags::spec_field_has_tag(m2.tags, t) == parsed.contains(t));
    }
    assert forall|u: i32, t: Seq<char>| #[trigger] crate::model::memo_matches_tag(m0, u, t)
        == (u == actor && names_old.contains(t)) by {
        crate::text::lemma_dedup_membership(split0, t);
    }
    assert forall|u: i32, t: Seq<char>| #[trigger] crate::model::spec_count_tagged(
        memos2,
        u,
        t,
    ) == crate::model::spec_count_tagged(s.memos, u, t) - spec_ind(u == actor
        && names_old.contains(t)) + spec_ind(u == actor && names_new.contains(t)) by {
        crate::model::lemma_count_tagged_update(s.memos, k, m2, u, t);
    }
    assert forall|t: Seq<char>| #[trigger] names_old.contains(t) implies
        crate::model::spec_tag_row_exists(s.tags, actor, t)
            && crate::model::spec_count_tagged(s.memos, actor, t) > 0 by {
        assert(crate::model::memo_matches_tag(m0, actor, t));
        crate::model::lemma_count_tagged_remove(s.memos, k, actor, t);
        crate::model::lemma_count_tagged_bounds(s.memos.remove(k), actor, t);
    }
    assert(sync_rows_track(s.tags, memos2, actor, names_new, names_old));
    assert(sync_coverage(s.tags, memos2, actor, names_new)) by {
        assert forall|u: i32, t: Seq<char>| #[trigger] crate::model::spec_count_tagged(
            memos2,
            u,
            t,
        ) > 0 implies crate::model::spec_tag_row_exists(s.tags, u, t) || (u == actor
            && names_new.contains(t)) by {
            if crate::model::spec_count_tagged(s.memos, u, t) > 0 {
            }
        }
    }
    assert(sync_missing_ok(s.tags, memos2, actor, names_new, names_old)) by {
        assert forall|t: Seq<char>| #[trigger] names_new.contains(t)
            && !crate::model::spec_tag_row_exists(s.tags, actor, t) implies
            crate::model::spec_count_tagged(memos2, actor, t) == 1 && !names_old.contains(
            t,
        ) by {
            crate::model::lemma_count_tagged_bounds(s.memos, actor, t);
            assert(crate::model::spec_count_tagged(s.memos, actor, t) == 0);
        }
    }
    lemma_sync_tags_establishes(
        s.tags,
        s.next_tag_id as int,
        actor,
        names_new,
        now,
        memos2,
        names_old,
    );
    let synced = spec_sync_tags(s.tags, s.next_tag_id as int, actor, names_new, now);
    assert forall|t: Seq<char>| #[trigger] names_old.contains(t) implies
        crate::model::spec_tag_row_exists(synced.0, actor, t) by {
        assert(crate::model::spec_tag_row_exists(s.tags, actor, t));
    }
    lemma_dec_tags_establishes(synced.0, actor, names_old, memos2);
    let result = spec_update_memo(s, actor, req, now);
    assert(result.tags == spec_dec_tags_all(synced.0, actor, names_old) && result.memos
        == memos2);
}

} // verus!

verus! {

// ---------------------------------------------------------------------------
// the tag table itself
// ---------------------------------------------------------------------------

/// One tag rename, as a caller submits it.
pub struct TagUpdate {
    pub id: i32,
    pub name: String,
}

pub struct TagUpdateV {
    pub id: i32,
    pub name: Seq<char>,
}

impl View for TagUpdate {
    type V = TagUpdateV;

    open spec fn view(&self) -> TagUpdateV {
        TagUpdateV { id: self.id, name: self.name@ }
    }
}

/// Every memo whose tag field holds the token `old,` with that token's
/// first occurrence rewritten to `new,` and its update time moved.
pub open spec fn spec_rename_memos(
    memos: Seq<MemoV>,
    old_name: Seq<char>,
    new_name: Seq<char>,
    now: i64,
) -> Seq<MemoV> {
    memos.map_values(
        |m: MemoV| if m.tags matches Some(f) && crate::text::spec_contains_sub(
            f,
            old_name + seq![','],
        ) {
            MemoV {
                tags: Some(
                    crate::text::spec_replace_first(
                        m.tags->0,
                        old_name + seq![','],
                        new_name + seq![','],
                    ),
                ),
                updated: Some(now),
                ..m
            }
        } else {
            m
        },
    )
}

/// Whether every item of a rename batch names an existing tag row.
pub open spec fn spec_all_tags_exist(tags: Seq<TagV>, items: Seq<TagUpdateV>) -> bool
    decreases items.len(),
{
    items.len() == 0 || (crate::model::spec_tag_index(tags, items[0].id) is Some
        && spec_all_tags_exist(tags, items.drop_first()))
}

/// Row lookup by id sees only the ids, so tables equal id-for-id agree.
proof fn lemma_tag_index_same_ids(t1: Seq<TagV>, t2: Seq<TagV>, id: i32)
    requires
        t1.len() == t2.len(),
        forall|j: int| 0 <= j < t1.len() ==> (#[trigger] t1[j]).id == t2[j].id,
    ensures
        crate::model::spec_tag_index(t1, id) == crate::model::spec_tag_index(t2, id),
    decreases t1.len(),
{
    if t1.len() > 0 {
        assert(t1[0].id == t2[0].id);
        assert(forall|j: int| 0 <= j < t1.len() - 1 ==> (#[trigger] t1.drop_first()[j]).id
            == t2.drop_first()[j].id) by {
            assert(forall|j: int| 0 <= j < t1.len() - 1 ==> t1.drop_first()[j] == t1[j + 1]
                && t2.drop_first()[j] == t2[j + 1]);
        }
        lemma_tag_index_same_ids(t1.drop_first(), t2.drop_first(), id);
    }
}

/// So does the whole existence check of a batch.
proof fn lemma_all_exist_same_ids(t1: Seq<TagV>, t2: Seq<TagV>, items: Seq<TagUpdateV>)
    requires
        t1.len() == t2.len(),
        forall|j: int| 0 <= j < t1.len() ==> (#[trigger] t1[j]).id == t2[j].id,
    ensures
        spec_all_tags_exist(t1, items) == spec_all_tags_exist(t2, items),
    decreases items.len(),
{
    if items.len() > 0 {
        lemma_tag_index_same_ids(t1, t2, items[0].id);
        lemma_all_exist_same_ids(t1, t2, items.drop_first());
    }
}

/// The store after a batch of renames, item by item: each names an
/// existing row, whose name becomes the new one, while every memo
/// carrying the old token is rewritten.
pub open spec fn spec_rename_tags(s: StoreV, items: Seq<TagUpdateV>, now: i64) -> StoreV
    decreases items.len(),
{
    if items.len() == 0 {
        s
    } else {
        let k = crate::model::spec_tag_index(s.tags, items[0].id)->0;
        let old_name = s.tags[k].name;
        let stepped = StoreV {
            tags: s.tags.update(k, TagV { name: items[0].name, ..s.tags[k] }),
            memos: spec_rename_memos(s.memos, old_name, items[0].name, now),
            ..s
        };
        spec_rename_tags(stepped, items.drop_first(), now)
    }
}

impl Store {
    /// Rewrites the first `old,` token of every memo carrying it to
    /// `new,` and moves those memos' update times.
    fn rename_memos(&mut self, old_name: &String, new_name: &String, now: i64)
        ensures
            final(self)@ == (StoreV {
                memos: spec_rename_memos(old(self)@.memos, old_name@, new_name@, now),
                ..old(self)@
            }),
    {
        let mut pat = crate::text::chars_of_str(old_name.as_str());
        pat.push(',');
        assert(pat@ =~= old_name@ + seq![',']);
        let mut repl = crate::text::chars_of_str(new_name.as_str());
        repl.push(',');
        assert(repl@ =~= new_name@ + seq![',']);
        let ghost ms0 = self@.memos;
        let n = self.memos.len();
        let mut i: usize = 0;
        while i < n
            invariant
                i <= n,
                n == self.memos@.len(),
                self@.memos.len() == n,
                ms0.len() == n,
                pat@ == old_name@ + seq![','],
                repl@ == new_name@ + seq![','],
                self@ == (StoreV { memos: self@.memos, ..old(self)@ }),
                forall|j: int| 0 <= j < i ==> self@.memos[j] == spec_rename_memos(
                    ms0,
                    old_name@,
                    new_name@,
                    now,
                )[j],
                forall|j: int| i <= j < n ==> (#[trigger] self@.memos[j]) == ms0[j],
            decreases n - i,
        {
            let ghost pre = self@.memos;
            assert(pre[i as int] == ms0[i as int]);
            let row = &self.memos[i];
            assert(row@ == ms0[i as int]);
            let hit = match &row.tags {
                Some(f) => {
                    let fc = crate::text::chars_of_str(f.as_str());
                    crate::text::contains_sub(&fc, &pat)
                },
                None => false,
            };
            if hit {
                let field = match &row.tags {
                    Some(f) => f.clone(),
                    None => crate::model::empty_string(),
                };
                let fc = crate::text::chars_of_str(field.as_str());
                let rewritten = crate::text::replace_first_chars(&fc, &pat, &repl);
                let mut new_row = crate::model::clone_memo(row);
                new_row.tags = Some(crate::text::string_from_chars(&rewritten));
                new_row.updated = Some(now);
                assert(new_row@ == (MemoV {
                    tags: Some(
                        crate::text::spec_replace_first(
                            ms0[i as int].tags->0,
                            old_name@ + seq![','],
                            new_name@ + seq![','],
                        ),
                    ),
                    updated: Some(now),
                    ..ms0[i as int]
                }));
                self.memos[i] = new_row;
                proof {
                    assert(self@.memos =~= pre.update(i as int, new_row@));
                    assert(self@.memos[i as int] == spec_rename_memos(
                        ms0,
                        old_name@,
                        new_name@,
                        now,
                    )[i as int]);
                }
            } else {
                assert(self@.memos[i as int] == spec_rename_memos(
                    ms0,
                    old_name@,
                    new_name@,
                    now,
                )[i as int]);
            }
            i = i + 1;
        }
        proof {
            assert(self@.memos =~= spec_rename_memos(ms0, old_name@, new_name@, now));
            assert(self@ =~~= (StoreV {
                memos: spec_rename_memos(ms0, old_name@, new_name@, now),
                ..old(self)@
            }));
        }
    }

    /// Renames tags in one batch: each item must name an existing row,
    /// else nothing changes; otherwise every row is renamed in order, and
    /// every memo carrying the old token has its first occurrence
    /// rewritten and its update time moved. Counts stay where they are —
    /// the rows keep counting the same memos under the new name.
    pub fn rename_tags(&mut self, auth: &AuthUser, items: &Vec<TagUpdate>, now: i64) -> (r:
        Result<(), AppError>)
        requires
            old(self)@.wf(),
        ensures
            ({
                let itemsv = items@.map_values(|d: TagUpdate| d@);
                &&& (r is Ok <==> spec_all_tags_exist(old(self)@.tags, itemsv))
                &&& (r is Ok ==> final(self)@ == spec_rename_tags(old(self)@, itemsv, now))
                &&& (r matches Err(e) ==> e.spec_code() == 2 && e.spec_msg() == "tag不存在"@
                    && final(self)@ == old(self)@)
                &&& final(self)@.wf()
            }),
    {
        let ghost itemsv = items@.map_values(|d: TagUpdate| d@);
        proof {
            assert(itemsv.skip(0) =~= itemsv);
        }
        let mut c: usize = 0;
        while c < items.len()
            invariant
                c <= itemsv.len(),
                itemsv == items@.map_values(|d: TagUpdate| d@),
                self@ == old(self)@,
                old(self)@.wf(),
                spec_all_tags_exist(old(self)@.tags, itemsv) == spec_all_tags_exist(
                    old(self)@.tags,
                    itemsv.skip(c as int),
                ),
            decreases itemsv.len() - c,
        {
            let ghost rest = itemsv.skip(c as int);
            proof {
                assert(rest[0] == itemsv[c as int]);
                assert(rest.drop_first() =~= itemsv.skip(c + 1));
            }
            let item = &items[c];
            assert(item@ == itemsv[c as int]);
            match self.find_tag_idx(item.id) {
                Some(_) => {
                    assert(crate::model::spec_tag_index(old(self)@.tags, itemsv[c as int].id)
                        is Some);
                },
                None => {
                    assert(crate::model::spec_tag_index(old(self)@.tags, itemsv[c as int].id)
                        is None);
                    assert(!spec_all_tags_exist(old(self)@.tags, rest));
                    assert(self@ =~~= old(self)@);
                    return Err(AppError::fail("tag不存在"));
                },
            }
            c = c + 1;
        }
        proof {
            assert(itemsv.skip(itemsv.len() as int) =~= Seq::<TagUpdateV>::empty());
            assert(spec_all_tags_exist(old(self)@.tags, itemsv));
        }
        let mut i: usize = 0;
        while i < items.len()
            invariant
                i <= itemsv.len(),
                itemsv == items@.map_values(|d: TagUpdate| d@),
                self@.tags.len() == old(self)@.tags.len(),
                forall|j: int| 0 <= j < self@.tags.len() ==> (#[trigger] self@.tags[j]).id
                    == old(self)@.tags[j].id,
                spec_all_tags_exist(self@.tags, itemsv.skip(i as int)),
                spec_rename_tags(old(self)@, itemsv, now) == spec_rename_tags(
                    self@,
                    itemsv.skip(i as int),
                    now,
                ),
                old(self)@.wf(),
                self@.wf(),
            decreases itemsv.len() - i,
        {
            let ghost pre = self@;
            let ghost rest = itemsv.skip(i as int);
            proof {
                assert(rest[0] == itemsv[i as int]);
                assert(rest.drop_first() =~= itemsv.skip(i + 1));
                assert(rest.len() > 0);
                assert(spec_all_tags_exist(self@.tags, rest));
            }
            let item = &items[i];
            assert(item@ == itemsv[i as int]);
            let k = match self.find_tag_idx(item.id) {
                Some(k) => k,
                None => {
                    assert(crate::model::spec_tag_index(self@.tags, rest[0].id) is Some);
                    assert(false);
                    return Err(AppError::fail("tag不存在"));
                },
            };
            let old_name = self.tags[k].name.clone();
            let mut new_row = crate::model::clone_tag(&self.tags[k]);
            new_row.name = item.name.clone();
            assert(new_row@ == (TagV { name: itemsv[i as int].name, ..pre.tags[k as int] }));
            let ghost pre_tags = self@.tags;
            self.tags[k] = new_row;
            proof {
                assert(self@.tags =~= pre_tags.update(k as int, new_row@));
            }
            self.rename_memos(&old_name, &item.name, now);
            proof {
                assert(self@ =~~= (StoreV {
                    tags: pre.tags.update(
                        k as int,
                        TagV { name: itemsv[i as int].name, ..pre.tags[k as int] },
                    ),
                    memos: spec_rename_memos(
                        pre.memos,
                        pre.tags[k as int].name,
                        itemsv[i as int].name,
                        now,
                    ),
                    ..pre
                }));
                assert(forall|j: int| 0 <= j < pre.tags.len() ==> (
                #[trigger] self@.tags[j]).id == pre.tags[j].id);
                lemma_all_exist_same_ids(pre.tags, self@.tags, itemsv.skip(i + 1));
                assert(spec_all_tags_exist(pre.tags, itemsv.skip(i + 1)));
                assert(self@.ids_ok()) by {
                    assert(forall|j: int| 0 <= j < pre.memos.len() ==> (
                    #[trigger] self@.memos[j]).id == pre.memos[j].id);
                }
                assert(self@.counters_ok()) by {
                    assert(forall|j: int| 0 <= j < pre.tags.len() ==> (
                    #[trigger] self@.tags[j]).memo_count == pre.tags[j].memo_count);
                    assert(forall|j: int| 0 <= j < pre.memos.len() ==> (
                    #[trigger] self@.memos[j]).comment_count == pre.memos[j].comment_count
                        && self@.memos[j].like_count == pre.memos[j].like_count
                        && self@.memos[j].view_count == pre.memos[j].view_count
                        && self@.memos[j].priority == pre.memos[j].priority);
                }
            }
            i = i + 1;
        }
        proof {
            assert(itemsv.skip(itemsv.len() as int) =~= Seq::<TagUpdateV>::empty());
        }
        Ok(())
    }

    /// Deletes the caller's tag row named by `tag_id`, and only when its
    /// count is exactly zero; anything else is left standing, silently.
    pub fn remove_tag(&mut self, auth: &AuthUser, tag_id: i32) -> (r: Result<(), AppError>)
        requires
            old(self)@.wf(),
        ensures
            r is Ok,
            final(self)@ == (StoreV {
                tags: crate::text::seq_filter(
                    old(self)@.tags,
                    tag_keep_filter(tag_id, auth@.user_id),
                ),
                ..old(self)@
            }),
            final(self)@.wf(),
    {
        let ghost ts0 = self@.tags;
        let mut kept: Vec<Tag> = Vec::new();
        let mut i: usize = 0;
        while i < self.tags.len()
            invariant
                i <= ts0.len(),
                self@.tags == ts0,
                self@.tags.len() == self.tags@.len(),
                self@ == (StoreV { tags: ts0, ..old(self)@ }),
                kept@.map_values(|t: Tag| t@) == crate::text::seq_filter(
                    ts0.subrange(0, i as int),
                    tag_keep_filter(tag_id, auth@.user_id),
                ),
            decreases ts0.len() - i,
        {
            let ghost pre = ts0.subrange(0, i as int);
            let ghost pre2 = ts0.subrange(0, i + 1);
            proof {
                assert(pre2.drop_last() =~= pre);
                assert(pre2.last() == ts0[i as int]);
            }
            let row = &self.tags[i];
            assert(row@ == ts0[i as int]);
            let is_match = row.id == tag_id && row.user_id == auth.user_id && row.memo_count
                == Some(0);
            if !is_match {
                assert((tag_keep_filter(tag_id, auth@.user_id))(ts0[i as int]));
                let copy = crate::model::clone_tag(row);
                assert(copy@ == ts0[i as int]);
                kept.push(copy);
                assert(kept@.map_values(|t: Tag| t@) =~= crate::text::seq_filter(
                    pre,
                    tag_keep_filter(tag_id, auth@.user_id),
                ).push(ts0[i as int]));
            } else {
                assert(!(tag_keep_filter(tag_id, auth@.user_id))(ts0[i as int]));
            }
            i = i + 1;
        }
        proof {
            assert(ts0.subrange(0, ts0.len() as int) =~= ts0);
        }
        self.tags = kept;
        proof {
            assert(self@ =~~= (StoreV {
                tags: crate::text::seq_filter(ts0, tag_keep_filter(tag_id, auth@.user_id)),
                ..old(self)@
            }));
            crate::text::lemma_seq_filter_elements(
                ts0,
                tag_keep_filter(tag_id, auth@.user_id),
            );
            assert(self@.ids_ok()) by {
                assert forall|j: int| 0 <= j < self@.tags.len() implies 1 <= (
                #[trigger] self@.tags[j]).id < self@.next_tag_id by {
                    let t = self@.tags[j];
                    assert(ts0.contains(t));
                    let x = choose|x: int| 0 <= x < ts0.len() && ts0[x] == t;
                }
                crate::text::lemma_seq_filter_pairwise(
                    ts0,
                    tag_keep_filter(tag_id, auth@.user_id),
                    |a: TagV, b: TagV| a.id != b.id,
                );
            }
            assert(self@.counters_ok()) by {
                assert forall|j: int| 0 <= j < self@.tags.len() implies
                    crate::model::opt_count_ok((#[trigger] self@.tags[j]).memo_count) by {
                    let t = self@.tags[j];
                    assert(ts0.contains(t));
                    let x = choose|x: int| 0 <= x < ts0.len() && ts0[x] == t;
                }
            }
        }
        Ok(())
    }
}

/// Which tag rows a delete keeps: everything but the caller's row with
/// this id at count zero.
pub open spec fn tag_keep_filter(tag_id: i32, uid: i32) -> spec_fn(TagV) -> bool {
    |t: TagV| !(t.id == tag_id && t.user_id == uid && t.memo_count == Some(0i32))
}

} // verus!

verus! {

// ---------------------------------------------------------------------------
// tag read-outs
// ---------------------------------------------------------------------------

/// A tag as responses carry it.
#[derive(Debug)]
pub struct TagDto {
    pub id: i32,
    pub name: String,
    pub count: i32,
}

pub struct TagDtoV {
    pub id: i32,
    pub name: Seq<char>,
    pub count: i32,
}

impl View for TagDto {
    type V = TagDtoV;

    open spec fn view(&self) -> TagDtoV {
        TagDtoV { id: self.id, name: self.name@, count: self.count }
    }
}

pub open spec fn spec_tag_dto(t: TagV) -> TagDtoV {
    TagDtoV {
        id: t.id,
        name: t.name,
        count: match t.memo_count {
            Some(c) => c,
            None => 0,
        },
    }
}

/// The public form of one tag row.
pub fn to_dto(t: &Tag) -> (d: TagDto)
    ensures
        d@ == spec_tag_dto(t@),
{
    TagDto {
        id: t.id,
        name: t.name.clone(),
        count: match t.memo_count {
            Some(c) => c,
            None => 0,
        },
    }
}

pub open spec fn owner_tag_filter(uid: i32) -> spec_fn(TagV) -> bool {
    |t: TagV| t.user_id == uid
}

/// The count a tag sorts under: its stored count, an unset one last.
pub open spec fn spec_tag_key(t: TagV) -> int {
    match t.memo_count {
        Some(c) => c as int,
        None => -0x80000001,
    }
}

pub open spec fn spec_insert_tag_by_count(sorted: Seq<TagV>, t: TagV) -> Seq<TagV>
    decreases sorted.len(),
{
    if sorted.len() == 0 {
        seq![t]
    } else if spec_tag_key(sorted.last()) >= spec_tag_key(t) {
        sorted.push(t)
    } else {
        spec_insert_tag_by_count(sorted.drop_last(), t).push(sorted.last())
    }
}

/// Tags in descending count order, insertion by insertion, equal counts
/// keeping their table order.
pub open spec fn spec_sort_tags_by_count(s: Seq<TagV>) -> Seq<TagV>
    decreases s.len(),
{
    if s.len() == 0 {
        s
    } else {
        spec_insert_tag_by_count(spec_sort_tags_by_count(s.drop_last()), s.last())
    }
}

proof fn lemma_insert_tag_len(sorted: Seq<TagV>, t: TagV)
    ensures
        spec_insert_tag_by_count(sorted, t).len() == sorted.len() + 1,
    decreases sorted.len(),
{
    if sorted.len() > 0 && !(spec_tag_key(sorted.last()) >= spec_tag_key(t)) {
        lemma_insert_tag_len(sorted.drop_last(), t);
    }
}

proof fn lemma_sort_tags_len(s: Seq<TagV>)
    ensures
        spec_sort_tags_by_count(s).len() == s.len(),
    decreases s.len(),
{
    if s.len() > 0 {
        lemma_sort_tags_len(s.drop_last());
        lemma_insert_tag_len(spec_sort_tags_by_count(s.drop_last()), s.last());
    }
}

fn insert_tag_by_count(sorted: Vec<Tag>, t: Tag) -> (r: Vec<Tag>)
    ensures
        r@.map_values(|x: Tag| x@) == spec_insert_tag_by_count(
            sorted@.map_values(|x: Tag| x@),
            t@,
        ),
    decreases sorted@.len(),
{
    let ghost sv = sorted@.map_values(|x: Tag| x@);
    if sorted.len() == 0 {
        let mut r: Vec<Tag> = Vec::new();
        r.push(t);
        assert(r@.map_values(|x: Tag| x@) =~= seq![t@]);
        r
    } else {
        assert(sorted@[sorted@.len() - 1]@ == sv.last());
        let last_ge = {
            let a = &sorted[sorted.len() - 1];
            let ka: Option<i32> = a.memo_count;
            let kb: Option<i32> = t.memo_count;
            match (ka, kb) {
                (Some(x), Some(y)) => x >= y,
                (Some(_), None) => true,
                (None, None) => true,
                (None, Some(_)) => false,
            }
        };
        assert(last_ge == (spec_tag_key(sv.last()) >= spec_tag_key(t@)));
        if last_ge {
            let mut r = sorted;
            r.push(t);
            assert(r@.map_values(|x: Tag| x@) =~= sv.push(t@));
            r
        } else {
            let mut s2 = sorted;
            let last = s2.pop().unwrap();
            assert(s2@.map_values(|x: Tag| x@) =~= sv.drop_last());
            assert(last@ == sv.last());
            let mut r = insert_tag_by_count(s2, t);
            r.push(last);
            assert(r@.map_values(|x: Tag| x@) =~= spec_insert_tag_by_count(
                sv.drop_last(),
                t@,
            ).push(sv.last()));
            r
        }
    }
}

fn sort_tags_by_count(v: Vec<Tag>) -> (r: Vec<Tag>)
    ensures
        r@.map_values(|x: Tag| x@) == spec_sort_tags_by_count(v@.map_values(|x: Tag| x@)),
    decreases v@.len(),
{
    let ghost vv = v@.map_values(|x: Tag| x@);
    if v.len() == 0 {
        v
    } else {
        let mut v2 = v;
        let last = v2.pop().unwrap();
        assert(v2@.map_values(|x: Tag| x@) =~= vv.drop_last());
        assert(last@ == vv.last());
        let sorted = sort_tags_by_count(v2);
        insert_tag_by_count(sorted, last)
    }
}

impl Store {
    /// The caller's tags, in table order.
    pub fn list_tags(&self, auth: &AuthUser) -> (r: Vec<TagDto>)
        ensures
            r@.map_values(|d: TagDto| d@) == crate::text::seq_filter(
                self@.tags,
                owner_tag_filter(auth@.user_id),
            ).map_values(|t: TagV| spec_tag_dto(t)),
    {
        let ghost tv = self@.tags;
        let mut out: Vec<TagDto> = Vec::new();
        let mut i: usize = 0;
        while i < self.tags.len()
            invariant
                i <= tv.len(),
                tv == self@.tags,
                self@.tags.len() == self.tags@.len(),
                out@.map_values(|d: TagDto| d@) == crate::text::seq_filter(
                    tv.subrange(0, i as int),
                    owner_tag_filter(auth@.user_id),
                ).map_values(|t: TagV| spec_tag_dto(t)),
            decreases tv.len() - i,
        {
            let ghost pre = tv.subrange(0, i as int);
            let ghost pre2 = tv.subrange(0, i + 1);
            proof {
                assert(pre2.drop_last() =~= pre);
                assert(pre2.last() == tv[i as int]);
            }
            let row = &self.tags[i];
            assert(row@ == tv[i as int]);
            if row.user_id == auth.user_id {
                assert((owner_tag_filter(auth@.user_id))(tv[i as int]));
                let d = to_dto(row);
                out.push(d);
                assert(out@.map_values(|d2: TagDto| d2@) =~= crate::text::seq_filter(
                    pre,
                    owner_tag_filter(auth@.user_id),
                ).map_values(|t: TagV| spec_tag_dto(t)).push(spec_tag_dto(tv[i as int])));
                assert(crate::text::seq_filter(pre2, owner_tag_filter(auth@.user_id))
                    .map_values(|t: TagV| spec_tag_dto(t)) =~= crate::text::seq_filter(
                    pre,
                    owner_tag_filter(auth@.user_id),
                ).map_values(|t: TagV| spec_tag_dto(t)).push(spec_tag_dto(tv[i as int])));
            } else {
                assert(!(owner_tag_filter(auth@.user_id))(tv[i as int]));
                assert(crate::text::seq_filter(pre2, owner_tag_filter(auth@.user_id))
                    == crate::text::seq_filter(pre, owner_tag_filter(auth@.user_id)));
            }
            i = i + 1;
        }
        proof {
            assert(tv.subrange(0, tv.len() as int) =~= tv);
        }
        out
    }

    /// The ten most used tags, highest counts first; an anonymous caller
    /// is shown the administrator's. Fails only when there is no
    /// administrator to show.
    pub fn top_tags(&self, viewer: &crate::auth::OptionalAuthUser) -> (r: Result<
        Vec<TagDto>,
        AppError,
    >)
        ensures
            ({
                let uid_src = match crate::comment::spec_opt_auth(viewer.0) {
                    Some(a) => Some(a.user_id),
                    None => match crate::model::spec_admin_index(self@.users) {
                        Some(i) => Some(self@.users[i].id),
                        None => None,
                    },
                };
                &&& (uid_src is None ==> (r matches Err(e) && e.spec_code() == 2
                    && e.spec_msg() == "管理员不存在"@))
                &&& (uid_src matches Some(uid) ==> (r matches Ok(list) && ({
                    let mine = crate::text::seq_filter(self@.tags, owner_tag_filter(uid));
                    let sorted = spec_sort_tags_by_count(mine);
                    let take = if sorted.len() <= 10 {
                        sorted.len() as int
                    } else {
                        10
                    };
                    list@.map_values(|d: TagDto| d@) == sorted.subrange(0, take).map_values(
                        |t: TagV| spec_tag_dto(t),
                    )
                })))
            }),
    {
        let uid: i32 = match &viewer.0 {
            Some(a) => a.user_id,
            None => match self.find_admin_idx() {
                Some(i) => self.users[i].id,
                None => {
                    return Err(AppError::fail("管理员不存在"));
                },
            },
        };
        let ghost tv = self@.tags;
        let mut mine: Vec<Tag> = Vec::new();
        let mut i: usize = 0;
        while i < self.tags.len()
            invariant
                i <= tv.len(),
                tv == self@.tags,
                self@.tags.len() == self.tags@.len(),
                mine@.map_values(|x: Tag| x@) == crate::text::seq_filter(
                    tv.subrange(0, i as int),
                    owner_tag_filter(uid),
                ),
            decreases tv.len() - i,
        {
            let ghost pre = tv.subrange(0, i as int);
            let ghost pre2 = tv.subrange(0, i + 1);
            proof {
                assert(pre2.drop_last() =~= pre);
                assert(pre2.last() == tv[i as int]);
            }
            let row = &self.tags[i];
            assert(row@ == tv[i as int]);
            if row.user_id == uid {
                assert((owner_tag_filter(uid))(tv[i as int]));
                let copy = crate::model::clone_tag(row);
                mine.push(copy);
                assert(mine@.map_values(|x: Tag| x@) =~= crate::text::seq_filter(
                    pre,
                    owner_tag_filter(uid),
                ).push(tv[i as int]));
            } else {
                assert(!(owner_tag_filter(uid))(tv[i as int]));
            }
            i = i + 1;
        }
        proof {
            assert(tv.subrange(0, tv.len() as int) =~= tv);
        }
        let ghost minev = crate::text::seq_filter(self@.tags, owner_tag_filter(uid));
        let sorted = sort_tags_by_count(mine);
        let ghost sortedv = sorted@.map_values(|x: Tag| x@);
        proof {
            lemma_sort_tags_len(minev);
        }
        let take: usize = if sorted.len() <= 10 {
            sorted.len()
        } else {
            10
        };
        let mut out: Vec<TagDto> = Vec::new();
        let mut k: usize = 0;
        while k < take
            invariant
                k <= take,
                take <= sorted@.len(),
                sortedv == sorted@.map_values(|x: Tag| x@),
                out@.len() == k,
                forall|j: int| 0 <= j < k ==> (#[trigger] out@[j])@ == spec_tag_dto(
                    sortedv[j],
                ),
            decreases take - k,
        {
            let d = to_dto(&sorted[k]);
            assert(d@ == spec_tag_dto(sortedv[k as int]));
            out.push(d);
            k = k + 1;
        }
        proof {
            assert(out@.map_values(|d: TagDto| d@) =~= sortedv.subrange(0, take as int)
                .map_values(|t: TagV| spec_tag_dto(t)));
        }
        Ok(out)
    }
}

} // verus!

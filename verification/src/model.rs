//! The relational rows this service keeps, and the in-memory store the
//! consistency rules are stated over. Each row type has a mathematical view;
//! the store's view is the tuple of row sequences, and every operation's
//! contract speaks of that view. Timestamps are milliseconds since the Unix
//! epoch.

use vstd::prelude::*;

use crate::tags::spec_field_has_tag;

verus! {

pub open spec fn view_opt_string(o: Option<String>) -> Option<Seq<char>> {
    match o {
        Some(s) => Some(s@),
        None => None,
    }
}

// ---------------------------------------------------------------------------
// rows
// ---------------------------------------------------------------------------

#[derive(Clone, Debug)]
pub struct User {
    pub id: i32,
    pub username: String,
    pub password_hash: String,
    pub email: Option<String>,
    pub display_name: Option<String>,
    pub bio: Option<String>,
    pub created: Option<i64>,
    pub updated: Option<i64>,
    pub role: Option<String>,
    pub avatar_url: Option<String>,
    pub last_clicked_mentioned: Option<i64>,
    pub default_visibility: Option<String>,
    pub default_enable_comment: Option<String>,
}

pub struct UserV {
    pub id: i32,
    pub username: Seq<char>,
    pub password_hash: Seq<char>,
    pub email: Option<Seq<char>>,
    pub display_name: Option<Seq<char>>,
    pub bio: Option<Seq<char>>,
    pub created: Option<i64>,
    pub updated: Option<i64>,
    pub role: Option<Seq<char>>,
    pub avatar_url: Option<Seq<char>>,
    pub last_clicked_mentioned: Option<i64>,
    pub default_visibility: Option<Seq<char>>,
    pub default_enable_comment: Option<Seq<char>>,
}

impl View for User {
    type V = UserV;

    open spec fn view(&self) -> UserV {
        UserV {
            id: self.id,
            username: self.username@,
            password_hash: self.password_hash@,
            email: view_opt_string(self.email),
            display_name: view_opt_string(self.display_name),
            bio: view_opt_string(self.bio),
            created: self.created,
            updated: self.updated,
            role: view_opt_string(self.role),
            avatar_url: view_opt_string(self.avatar_url),
            last_clicked_mentioned: self.last_clicked_mentioned,
            default_visibility: view_opt_string(self.default_visibility),
            default_enable_comment: view_opt_string(self.default_enable_comment),
        }
    }
}

#[derive(Clone, Debug)]
pub struct Memo {
    pub id: i32,
    pub user_id: i32,
    pub content: Option<String>,
    pub tags: Option<String>,
    pub visibility: Option<String>,
    pub status: Option<String>,
    pub created: Option<i64>,
    pub updated: Option<i64>,
    pub priority: Option<i32>,
    pub comment_count: Option<i32>,
    pub like_count: Option<i32>,
    pub enable_comment: Option<i32>,
    pub view_count: Option<i32>,
    pub source: Option<String>,
}

pub struct MemoV {
    pub id: i32,
    pub user_id: i32,
    pub content: Option<Seq<char>>,
    pub tags: Option<Seq<char>>,
    pub visibility: Option<Seq<char>>,
    pub status: Option<Seq<char>>,
    pub created: Option<i64>,
    pub updated: Option<i64>,
    pub priority: Option<i32>,
    pub comment_count: Option<i32>,
    pub like_count: Option<i32>,
    pub enable_comment: Option<i32>,
    pub view_count: Option<i32>,
    pub source: Option<Seq<char>>,
}

impl View for Memo {
    type V = MemoV;

    open spec fn view(&self) -> MemoV {
        MemoV {
            id: self.id,
            user_id: self.user_id,
            content: view_opt_string(self.content),
            tags: view_opt_string(self.tags),
            visibility: view_opt_string(self.visibility),
            status: view_opt_string(self.status),
            created: self.created,
            updated: self.updated,
            priority: self.priority,
            comment_count: self.comment_count,
            like_count: self.like_count,
            enable_comment: self.enable_comment,
            view_count: self.view_count,
            source: view_opt_string(self.source),
        }
    }
}

#[derive(Clone, Debug)]
pub struct Tag {
    pub id: i32,
    pub name: String,
    pub user_id: i32,
    pub created: Option<i64>,
    pub updated: Option<i64>,
    pub memo_count: Option<i32>,
}

pub struct TagV {
    pub id: i32,
    pub name: Seq<char>,
    pub user_id: i32,
    pub created: Option<i64>,
    pub updated: Option<i64>,
    pub memo_count: Option<i32>,
}

impl View for Tag {
    type V = TagV;

    open spec fn view(&self) -> TagV {
        TagV {
            id: self.id,
            name: self.name@,
            user_id: self.user_id,
            created: self.created,
            updated: self.updated,
            memo_count: self.memo_count,
        }
    }
}

#[derive(Clone, Debug)]
pub struct Comment {
    pub id: i32,
    pub memo_id: i32,
    pub content: String,
    pub user_id: i32,
    pub user_name: String,
    pub mentioned: Option<String>,
    pub created: Option<i64>,
    pub updated: Option<i64>,
    pub mentioned_user_id: Option<String>,
    pub email: Option<String>,
    pub link: Option<String>,
    pub approved: Option<i32>,
}

pub struct CommentV {
    pub id: i32,
    pub memo_id: i32,
    pub content: Seq<char>,
    pub user_id: i32,
    pub user_name: Seq<char>,
    pub mentioned: Option<Seq<char>>,
    pub created: Option<i64>,
    pub updated: Option<i64>,
    pub mentioned_user_id: Option<Seq<char>>,
    pub email: Option<Seq<char>>,
    pub link: Option<Seq<char>>,
    pub approved: Option<i32>,
}

impl View for Comment {
    type V = CommentV;

    open spec fn view(&self) -> CommentV {
        CommentV {
            id: self.id,
            memo_id: self.memo_id,
            content: self.content@,
            user_id: self.user_id,
            user_name: self.user_name@,
            mentioned: view_opt_string(self.mentioned),
            created: self.created,
            updated: self.updated,
            mentioned_user_id: view_opt_string(self.mentioned_user_id),
            email: view_opt_string(self.email),
            link: view_opt_string(self.link),
            approved: self.approved,
        }
    }
}

#[derive(Clone, Debug)]
pub struct Resource {
    pub public_id: String,
    pub memo_id: i32,
    pub user_id: i32,
    pub file_type: String,
    pub file_name: String,
    pub file_hash: String,
    pub size: i64,
    pub internal_path: Option<String>,
    pub external_link: Option<String>,
    pub storage_type: Option<String>,
    pub created: Option<i64>,
    pub updated: Option<i64>,
    pub suffix: Option<String>,
}

pub struct ResourceV {
    pub public_id: Seq<char>,
    pub memo_id: i32,
    pub user_id: i32,
    pub file_type: Seq<char>,
    pub file_name: Seq<char>,
    pub file_hash: Seq<char>,
    pub size: i64,
    pub internal_path: Option<Seq<char>>,
    pub external_link: Option<Seq<char>>,
    pub storage_type: Option<Seq<char>>,
    pub created: Option<i64>,
    pub updated: Option<i64>,
    pub suffix: Option<Seq<char>>,
}

impl View for Resource {
    type V = ResourceV;

    open spec fn view(&self) -> ResourceV {
        ResourceV {
            public_id: self.public_id@,
            memo_id: self.memo_id,
            user_id: self.user_id,
            file_type: self.file_type@,
            file_name: self.file_name@,
            file_hash: self.file_hash@,
            size: self.size,
            internal_path: view_opt_string(self.internal_path),
            external_link: view_opt_string(self.external_link),
            storage_type: view_opt_string(self.storage_type),
            created: self.created,
            updated: self.updated,
            suffix: view_opt_string(self.suffix),
        }
    }
}

#[derive(Clone, Debug)]
pub struct UserMemoRelation {
    pub id: i32,
    pub memo_id: i32,
    pub user_id: i32,
    pub fav_type: String,
    pub created: Option<i64>,
    pub updated: Option<i64>,
}

pub struct UserMemoRelationV {
    pub id: i32,
    pub memo_id: i32,
    pub user_id: i32,
    pub fav_type: Seq<char>,
    pub created: Option<i64>,
    pub updated: Option<i64>,
}

impl View for UserMemoRelation {
    type V = UserMemoRelationV;

    open spec fn view(&self) -> UserMemoRelationV {
        UserMemoRelationV {
            id: self.id,
            memo_id: self.memo_id,
            user_id: self.user_id,
            fav_type: self.fav_type@,
            created: self.created,
            updated: self.updated,
        }
    }
}

#[derive(Clone, Debug)]
pub struct DevToken {
    pub id: i32,
    pub name: String,
    pub token: String,
    pub user_id: i32,
}

pub struct DevTokenV {
    pub id: i32,
    pub name: Seq<char>,
    pub token: Seq<char>,
    pub user_id: i32,
}

impl View for DevToken {
    type V = DevTokenV;

    open spec fn view(&self) -> DevTokenV {
        DevTokenV {
            id: self.id,
            name: self.name@,
            token: self.token@,
            user_id: self.user_id,
        }
    }
}

#[derive(Clone, Debug)]
pub struct SysConfig {
    pub key: String,
    pub value: Option<String>,
    pub default_value: Option<String>,
}

pub struct SysConfigV {
    pub key: Seq<char>,
    pub value: Option<Seq<char>>,
    pub default_value: Option<Seq<char>>,
}

impl View for SysConfig {
    type V = SysConfigV;

    open spec fn view(&self) -> SysConfigV {
        SysConfigV {
            key: self.key@,
            value: view_opt_string(self.value),
            default_value: view_opt_string(self.default_value),
        }
    }
}

// ---------------------------------------------------------------------------
// the store
// ---------------------------------------------------------------------------

/// The relational store: one sequence of rows per table, plus the next
/// identifier each table will assign.
pub struct Store {
    pub users: Vec<User>,
    pub memos: Vec<Memo>,
    pub tags: Vec<Tag>,
    pub comments: Vec<Comment>,
    pub relations: Vec<UserMemoRelation>,
    pub resources: Vec<Resource>,
    pub dev_tokens: Vec<DevToken>,
    pub configs: Vec<SysConfig>,
    pub next_user_id: i32,
    pub next_memo_id: i32,
    pub next_tag_id: i32,
    pub next_comment_id: i32,
    pub next_relation_id: i32,
    pub next_token_id: i32,
}

pub struct StoreV {
    pub users: Seq<UserV>,
    pub memos: Seq<MemoV>,
    pub tags: Seq<TagV>,
    pub comments: Seq<CommentV>,
    pub relations: Seq<UserMemoRelationV>,
    pub resources: Seq<ResourceV>,
    pub dev_tokens: Seq<DevTokenV>,
    pub configs: Seq<SysConfigV>,
    pub next_user_id: i32,
    pub next_memo_id: i32,
    pub next_tag_id: i32,
    pub next_comment_id: i32,
    pub next_relation_id: i32,
    pub next_token_id: i32,
}

impl View for Store {
    type V = StoreV;

    open spec fn view(&self) -> StoreV {
        StoreV {
            users: self.users@.map_values(|x: User| x@),
            memos: self.memos@.map_values(|x: Memo| x@),
            tags: self.tags@.map_values(|x: Tag| x@),
            comments: self.comments@.map_values(|x: Comment| x@),
            relations: self.relations@.map_values(|x: UserMemoRelation| x@),
            resources: self.resources@.map_values(|x: Resource| x@),
            dev_tokens: self.dev_tokens@.map_values(|x: DevToken| x@),
            configs: self.configs@.map_values(|x: SysConfig| x@),
            next_user_id: self.next_user_id,
            next_memo_id: self.next_memo_id,
            next_tag_id: self.next_tag_id,
            next_comment_id: self.next_comment_id,
            next_relation_id: self.next_relation_id,
            next_token_id: self.next_token_id,
        }
    }
}

impl Store {
    /// An empty store whose tables will assign identifiers from 1.
    pub fn new() -> (r: Store)
        ensures
            r@.users.len() == 0,
            r@.memos.len() == 0,
            r@.tags.len() == 0,
            r@.comments.len() == 0,
            r@.relations.len() == 0,
            r@.resources.len() == 0,
            r@.dev_tokens.len() == 0,
            r@.configs.len() == 0,
            r@.next_user_id == 1,
            r@.next_memo_id == 1,
            r@.next_tag_id == 1,
            r@.next_comment_id == 1,
            r@.next_relation_id == 1,
            r@.next_token_id == 1,
            r@.wf(),
    {
        let s = Store {
            users: Vec::new(),
            memos: Vec::new(),
            tags: Vec::new(),
            comments: Vec::new(),
            relations: Vec::new(),
            resources: Vec::new(),
            dev_tokens: Vec::new(),
            configs: Vec::new(),
            next_user_id: 1,
            next_memo_id: 1,
            next_tag_id: 1,
            next_comment_id: 1,
            next_relation_id: 1,
            next_token_id: 1,
        };
        assert(s@.memos =~= Seq::<MemoV>::empty());
        assert(s@.tags =~= Seq::<TagV>::empty());
        assert(s@.relations =~= Seq::<UserMemoRelationV>::empty());
        s
    }
}

// ---------------------------------------------------------------------------
// well-formedness
// ---------------------------------------------------------------------------

impl StoreV {
    /// Every assigned identifier is positive and below the table's next
    /// identifier, so a fresh insert can never collide; and no table holds
    /// two rows under one identifier.
    pub open spec fn ids_ok(self) -> bool {
        &&& forall|i: int, j: int| 0 <= i < self.memos.len() && 0 <= j < self.memos.len()
            && i != j ==> (#[trigger] self.memos[i]).id != (#[trigger] self.memos[j]).id
        &&& forall|i: int, j: int| 0 <= i < self.users.len() && 0 <= j < self.users.len()
            && i != j ==> (#[trigger] self.users[i]).id != (#[trigger] self.users[j]).id
        &&& forall|i: int, j: int| 0 <= i < self.tags.len() && 0 <= j < self.tags.len()
            && i != j ==> (#[trigger] self.tags[i]).id != (#[trigger] self.tags[j]).id
        &&& forall|i: int, j: int| 0 <= i < self.comments.len() && 0 <= j
            < self.comments.len() && i != j ==> (#[trigger] self.comments[i]).id != (
        #[trigger] self.comments[j]).id
        &&& forall|i: int, j: int| 0 <= i < self.relations.len() && 0 <= j
            < self.relations.len() && i != j ==> (#[trigger] self.relations[i]).id != (
        #[trigger] self.relations[j]).id
        &&& forall|i: int, j: int| 0 <= i < self.dev_tokens.len() && 0 <= j
            < self.dev_tokens.len() && i != j ==> (#[trigger] self.dev_tokens[i]).id != (
        #[trigger] self.dev_tokens[j]).id
        &&& 1 <= self.next_memo_id
        &&& 1 <= self.next_user_id
        &&& 1 <= self.next_tag_id
        &&& 1 <= self.next_comment_id
        &&& 1 <= self.next_relation_id
        &&& 1 <= self.next_token_id
        &&& forall|i: int| 0 <= i < self.memos.len() ==> 1 <= (#[trigger] self.memos[i]).id
            < self.next_memo_id
        &&& forall|i: int| 0 <= i < self.users.len() ==> 1 <= (#[trigger] self.users[i]).id
            < self.next_user_id
        &&& forall|i: int| 0 <= i < self.tags.len() ==> 1 <= (#[trigger] self.tags[i]).id
            < self.next_tag_id
        &&& forall|i: int| 0 <= i < self.comments.len() ==> 1 <= (
        #[trigger] self.comments[i]).id < self.next_comment_id
        &&& forall|i: int| 0 <= i < self.relations.len() ==> 1 <= (
        #[trigger] self.relations[i]).id < self.next_relation_id
        &&& forall|i: int| 0 <= i < self.dev_tokens.len() ==> 1 <= (
        #[trigger] self.dev_tokens[i]).id < self.next_token_id
    }

    /// The denormalised counters a memo carries never go negative, and a
    /// priority is never negative.
    pub open spec fn counters_ok(self) -> bool {
        &&& forall|i: int| 0 <= i < self.memos.len() ==> opt_count_ok(
            (#[trigger] self.memos[i]).comment_count,
        ) && opt_count_ok(self.memos[i].like_count) && opt_count_ok(self.memos[i].view_count)
            && opt_count_ok(self.memos[i].priority)
        &&& forall|i: int| 0 <= i < self.tags.len() ==> opt_count_ok(
            (#[trigger] self.tags[i]).memo_count,
        )
    }

    pub open spec fn wf(self) -> bool {
        self.ids_ok() && self.counters_ok()
    }
}

pub open spec fn opt_count_ok(o: Option<i32>) -> bool {
    match o {
        Some(c) => c >= 0,
        None => true,
    }
}

pub open spec fn opt_i32(o: Option<i32>) -> int {
    match o {
        Some(c) => c as int,
        None => 0,
    }
}

// ---------------------------------------------------------------------------
// tag-count consistency
// ---------------------------------------------------------------------------

/// Whether a memo counts towards the tag `name` of user `user`.
pub open spec fn memo_matches_tag(m: MemoV, user: i32, name: Seq<char>) -> bool {
    m.user_id == user && spec_field_has_tag(m.tags, name)
}

/// How many memos of `user` carry the tag `name`.
pub open spec fn spec_count_tagged(memos: Seq<MemoV>, user: i32, name: Seq<char>) -> int
    decreases memos.len(),
{
    if memos.len() == 0 {
        0
    } else {
        spec_count_tagged(memos.drop_last(), user, name) + if memo_matches_tag(
            memos.last(),
            user,
            name,
        ) {
            1int
        } else {
            0int
        }
    }
}

pub proof fn lemma_count_tagged_bounds(memos: Seq<MemoV>, user: i32, name: Seq<char>)
    ensures
        0 <= spec_count_tagged(memos, user, name) <= memos.len(),
    decreases memos.len(),
{
    if memos.len() > 0 {
        lemma_count_tagged_bounds(memos.drop_last(), user, name);
    }
}

/// Appending a memo raises a tag count by one exactly when the memo
/// carries the tag.
pub proof fn lemma_count_tagged_push(memos: Seq<MemoV>, m: MemoV, user: i32, name: Seq<char>)
    ensures
        spec_count_tagged(memos.push(m), user, name) == spec_count_tagged(memos, user, name)
            + if memo_matches_tag(m, user, name) {
            1int
        } else {
            0int
        },
{
    assert(memos.push(m).drop_last() =~= memos);
    assert(memos.push(m).last() == m);
}

/// Removing a memo lowers a tag count by one exactly when the memo
/// carried the tag.
pub proof fn lemma_count_tagged_remove(
    memos: Seq<MemoV>,
    k: int,
    user: i32,
    name: Seq<char>,
)
    requires
        0 <= k < memos.len(),
    ensures
        spec_count_tagged(memos.remove(k), user, name) == spec_count_tagged(memos, user, name)
            - if memo_matches_tag(memos[k], user, name) {
            1int
        } else {
            0int
        },
    decreases memos.len(),
{
    if k == memos.len() - 1 {
        assert(memos.remove(k) =~= memos.drop_last());
        assert(memos.last() == memos[k]);
    } else {
        lemma_count_tagged_remove(memos.drop_last(), k, user, name);
        assert(memos.remove(k).drop_last() =~= memos.drop_last().remove(k));
        assert(memos.remove(k).last() == memos.last());
        assert(memos.drop_last()[k] == memos[k]);
    }
}

/// Replacing a memo shifts a tag count by the difference of the two
/// memos' contributions.
pub proof fn lemma_count_tagged_update(
    memos: Seq<MemoV>,
    k: int,
    m: MemoV,
    user: i32,
    name: Seq<char>,
)
    requires
        0 <= k < memos.len(),
    ensures
        spec_count_tagged(memos.update(k, m), user, name) == spec_count_tagged(
            memos,
            user,
            name,
        ) - (if memo_matches_tag(memos[k], user, name) {
            1int
        } else {
            0int
        }) + (if memo_matches_tag(m, user, name) {
            1int
        } else {
            0int
        }),
    decreases memos.len(),
{
    if k == memos.len() - 1 {
        assert(memos.update(k, m).drop_last() =~= memos.drop_last());
        assert(memos.update(k, m).last() == m);
        assert(memos.last() == memos[k]);
    } else {
        lemma_count_tagged_update(memos.drop_last(), k, m, user, name);
        assert(memos.update(k, m).drop_last() =~= memos.drop_last().update(k, m));
        assert(memos.update(k, m).last() == memos.last());
        assert(memos.drop_last()[k] == memos[k]);
    }
}

/// Each owner has at most one tag row per name.
pub open spec fn tag_rows_unique(tags: Seq<TagV>) -> bool {
    forall|i: int, j: int| 0 <= i < tags.len() && 0 <= j < tags.len() && i != j ==> !((
    #[trigger] tags[i]).user_id == (#[trigger] tags[j]).user_id && tags[i].name
        == tags[j].name)
}

/// Whether some tag row belongs to this owner and name.
pub open spec fn spec_tag_row_exists(tags: Seq<TagV>, user: i32, name: Seq<char>) -> bool {
    exists|i: int| 0 <= i < tags.len() && (#[trigger] tags[i]).user_id == user && tags[i].name
        == name
}

/// The consistency the engine maintains over tag rows: each owner has at
/// most one row per name, each row's count equals the number of the
/// owner's memos that carry the name, and every tag that some memo carries
/// has a row.
pub open spec fn tag_rows_consistent(tags: Seq<TagV>, memos: Seq<MemoV>) -> bool {
    &&& tag_rows_unique(tags)
    &&& forall|i: int| 0 <= i < tags.len() ==> opt_i32((#[trigger] tags[i]).memo_count)
        == spec_count_tagged(memos, tags[i].user_id, tags[i].name) && tags[i].memo_count
        is Some
    &&& forall|u: i32, t: Seq<char>| #[trigger] spec_count_tagged(memos, u, t) > 0
        ==> spec_tag_row_exists(tags, u, t)
}

/// The tag-count invariant of a whole store.
pub open spec fn tag_state_ok(s: StoreV) -> bool {
    tag_rows_consistent(s.tags, s.memos)
}

// ---------------------------------------------------------------------------
// row lookups
// ---------------------------------------------------------------------------

impl Store {
    /// The index of the first memo row with this id.
    pub fn find_memo_idx(&self, id: i32) -> (r: Option<usize>)
        ensures
            match r {
                Some(i) => i < self@.memos.len() && self@.memos[i as int].id == id
                    && spec_memo_index(self@.memos, id) == Some(i as int) && forall|j: int|
                    0 <= j < i ==> (#[trigger] self@.memos[j]).id != id,
                None => spec_memo_index(self@.memos, id) is None && forall|j: int|
                    0 <= j < self@.memos.len() ==> (#[trigger] self@.memos[j]).id != id,
            },
    {
        let mut i: usize = 0;
        while i < self.memos.len()
            invariant
                i <= self@.memos.len(),
                self@.memos.len() == self.memos@.len(),
                forall|j: int| 0 <= j < i ==> (#[trigger] self@.memos[j]).id != id,
            decreases self@.memos.len() - i,
        {
            if self.memos[i].id == id {
                assert(self@.memos[i as int].id == id);
                proof {
                    lemma_memo_index_first(self@.memos, id, i as int);
                }
                return Some(i);
            }
            assert(self@.memos[i as int].id != id);
            i = i + 1;
        }
        proof {
            lemma_memo_index_none(self@.memos, id);
        }
        None
    }

    /// The index of the first user row with this id.
    pub fn find_user_idx(&self, id: i32) -> (r: Option<usize>)
        ensures
            match r {
                Some(i) => i < self@.users.len() && self@.users[i as int].id == id
                    && spec_user_index(self@.users, id) == Some(i as int),
                None => spec_user_index(self@.users, id) is None,
            },
    {
        let mut i: usize = 0;
        while i < self.users.len()
            invariant
                i <= self@.users.len(),
                self@.users.len() == self.users@.len(),
                forall|j: int| 0 <= j < i ==> (#[trigger] self@.users[j]).id != id,
            decreases self@.users.len() - i,
        {
            if self.users[i].id == id {
                assert(self@.users[i as int].id == id);
                proof {
                    lemma_user_index_first(self@.users, id, i as int);
                }
                return Some(i);
            }
            assert(self@.users[i as int].id != id);
            i = i + 1;
        }
        proof {
            lemma_user_index_none(self@.users, id);
        }
        None
    }

    /// The index of the first comment row with this id.
    pub fn find_comment_idx(&self, id: i32) -> (r: Option<usize>)
        ensures
            match r {
                Some(i) => i < self@.comments.len() && self@.comments[i as int].id == id
                    && spec_comment_index(self@.comments, id) == Some(i as int),
                None => spec_comment_index(self@.comments, id) is None,
            },
    {
        let mut i: usize = 0;
        while i < self.comments.len()
            invariant
                i <= self@.comments.len(),
                self@.comments.len() == self.comments@.len(),
                forall|j: int| 0 <= j < i ==> (#[trigger] self@.comments[j]).id != id,
            decreases self@.comments.len() - i,
        {
            if self.comments[i].id == id {
                assert(self@.comments[i as int].id == id);
                proof {
                    lemma_comment_index_first(self@.comments, id, i as int);
                }
                return Some(i);
            }
            assert(self@.comments[i as int].id != id);
            i = i + 1;
        }
        proof {
            lemma_comment_index_none(self@.comments, id);
        }
        None
    }

    /// The index of the first tag row with this id.
    pub fn find_tag_idx(&self, id: i32) -> (r: Option<usize>)
        ensures
            match r {
                Some(i) => i < self@.tags.len() && self@.tags[i as int].id == id
                    && spec_tag_index(self@.tags, id) == Some(i as int),
                None => spec_tag_index(self@.tags, id) is None && forall|j: int|
                    0 <= j < self@.tags.len() ==> (#[trigger] self@.tags[j]).id != id,
            },
    {
        let mut i: usize = 0;
        while i < self.tags.len()
            invariant
                i <= self@.tags.len(),
                self@.tags.len() == self.tags@.len(),
                forall|j: int| 0 <= j < i ==> (#[trigger] self@.tags[j]).id != id,
            decreases self@.tags.len() - i,
        {
            if self.tags[i].id == id {
                assert(self@.tags[i as int].id == id);
                proof {
                    lemma_tag_index_first(self@.tags, id, i as int);
                }
                return Some(i);
            }
            assert(self@.tags[i as int].id != id);
            i = i + 1;
        }
        proof {
            lemma_tag_index_none(self@.tags, id);
        }
        None
    }
}

} // verus!

verus! {

/// The index of the first user holding the administrator role.
pub open spec fn spec_admin_index(users: Seq<UserV>) -> Option<int>
    decreases users.len(),
{
    if users.len() == 0 {
        None
    } else if users[0].role == Some("ADMIN"@) {
        Some(0)
    } else {
        match spec_admin_index(users.drop_first()) {
            Some(i) => Some(i + 1),
            None => None,
        }
    }
}

proof fn lemma_admin_index_first(users: Seq<UserV>, i: int)
    requires
        0 <= i < users.len(),
        users[i].role == Some("ADMIN"@),
        forall|j: int| 0 <= j < i ==> (#[trigger] users[j]).role != Some("ADMIN"@),
    ensures
        spec_admin_index(users) == Some(i),
    decreases users.len(),
{
    if i > 0 {
        assert(users[0].role != Some("ADMIN"@));
        assert(users.drop_first()[i - 1].role == Some("ADMIN"@));
        assert(forall|j: int| 0 <= j < i - 1 ==> (#[trigger] users.drop_first()[j]).role
            != Some("ADMIN"@)) by {
            assert(forall|j: int| 0 <= j < i - 1 ==> users.drop_first()[j] == users[j + 1]);
        }
        lemma_admin_index_first(users.drop_first(), i - 1);
    }
}

proof fn lemma_admin_index_none(users: Seq<UserV>)
    requires
        forall|j: int| 0 <= j < users.len() ==> (#[trigger] users[j]).role != Some("ADMIN"@),
    ensures
        spec_admin_index(users) is None,
    decreases users.len(),
{
    if users.len() > 0 {
        assert(forall|j: int| 0 <= j < users.len() - 1 ==> (
        #[trigger] users.drop_first()[j]).role != Some("ADMIN"@)) by {
            assert(forall|j: int| 0 <= j < users.len() - 1 ==> users.drop_first()[j] == users[j
                + 1]);
        }
        lemma_admin_index_none(users.drop_first());
    }
}

impl Store {
    /// The index of the first user row holding the administrator role.
    pub fn find_admin_idx(&self) -> (r: Option<usize>)
        ensures
            match r {
                Some(i) => i < self@.users.len() && spec_admin_index(self@.users) == Some(
                    i as int,
                ),
                None => spec_admin_index(self@.users) is None,
            },
    {
        let mut i: usize = 0;
        while i < self.users.len()
            invariant
                i <= self@.users.len(),
                self@.users.len() == self.users@.len(),
                forall|j: int| 0 <= j < i ==> (#[trigger] self@.users[j]).role != Some(
                    "ADMIN"@,
                ),
            decreases self@.users.len() - i,
        {
            if crate::text::opt_str_eq(&self.users[i].role, "ADMIN") {
                assert(self@.users[i as int].role == Some("ADMIN"@));
                proof {
                    lemma_admin_index_first(self@.users, i as int);
                }
                return Some(i);
            }
            assert(self@.users[i as int].role != Some("ADMIN"@));
            i = i + 1;
        }
        proof {
            lemma_admin_index_none(self@.users);
        }
        None
    }
}

} // verus!

verus! {

/// A copy of an optional string, equal to the original.
pub fn clone_opt_string(o: &Option<String>) -> (r: Option<String>)
    ensures
        r == *o,
{
    match o {
        Some(s) => Some(s.clone()),
        None => None,
    }
}

/// A copy of a string list, equal to the original.
pub fn clone_string_vec(v: &Vec<String>) -> (r: Vec<String>)
    ensures
        r@ == v@,
{
    let mut out: Vec<String> = Vec::new();
    let mut i: usize = 0;
    while i < v.len()
        invariant
            i <= v@.len(),
            out@ == v@.subrange(0, i as int),
        decreases v@.len() - i,
    {
        out.push(v[i].clone());
        assert(out@ =~= v@.subrange(0, i + 1));
        i = i + 1;
    }
    assert(v@.subrange(0, v@.len() as int) =~= v@);
    out
}

/// An empty string.
pub fn empty_string() -> (r: String)
    ensures
        r@ == Seq::<char>::empty(),
{
    let v: Vec<char> = Vec::new();
    crate::text::string_from_chars(&v)
}

} // verus!

verus! {

/// The index of the first memo row with this id.
pub open spec fn spec_memo_index(memos: Seq<MemoV>, id: i32) -> Option<int>
    decreases memos.len(),
{
    if memos.len() == 0 {
        None
    } else if memos[0].id == id {
        Some(0)
    } else {
        match spec_memo_index(memos.drop_first(), id) {
            Some(i) => Some(i + 1),
            None => None,
        }
    }
}

pub proof fn lemma_memo_index_first(memos: Seq<MemoV>, id: i32, i: int)
    requires
        0 <= i < memos.len(),
        memos[i].id == id,
        forall|j: int| 0 <= j < i ==> (#[trigger] memos[j]).id != id,
    ensures
        spec_memo_index(memos, id) == Some(i),
    decreases memos.len(),
{
    if i > 0 {
        assert(memos[0].id != id);
        assert(memos.drop_first()[i - 1].id == id);
        assert(forall|j: int| 0 <= j < i - 1 ==> (#[trigger] memos.drop_first()[j]).id != id)
            by {
            assert(forall|j: int| 0 <= j < i - 1 ==> memos.drop_first()[j] == memos[j + 1]);
        }
        lemma_memo_index_first(memos.drop_first(), id, i - 1);
    }
}

pub proof fn lemma_memo_index_none(memos: Seq<MemoV>, id: i32)
    requires
        forall|j: int| 0 <= j < memos.len() ==> (#[trigger] memos[j]).id != id,
    ensures
        spec_memo_index(memos, id) is None,
    decreases memos.len(),
{
    if memos.len() > 0 {
        assert(forall|j: int| 0 <= j < memos.len() - 1 ==> (
        #[trigger] memos.drop_first()[j]).id != id) by {
            assert(forall|j: int| 0 <= j < memos.len() - 1 ==> memos.drop_first()[j] == memos[j
                + 1]);
        }
        lemma_memo_index_none(memos.drop_first(), id);
    }
}

} // verus!

verus! {

/// The index of the first user row with this id.
pub open spec fn spec_user_index(users: Seq<UserV>, id: i32) -> Option<int>
    decreases users.len(),
{
    if users.len() == 0 {
        None
    } else if users[0].id == id {
        Some(0)
    } else {
        match spec_user_index(users.drop_first(), id) {
            Some(i) => Some(i + 1),
            None => None,
        }
    }
}

pub proof fn lemma_user_index_first(users: Seq<UserV>, id: i32, i: int)
    requires
        0 <= i < users.len(),
        users[i].id == id,
        forall|j: int| 0 <= j < i ==> (#[trigger] users[j]).id != id,
    ensures
        spec_user_index(users, id) == Some(i),
    decreases users.len(),
{
    if i > 0 {
        assert(users.drop_first()[i - 1].id == id);
        assert(forall|j: int| 0 <= j < i - 1 ==> (#[trigger] users.drop_first()[j]).id != id)
            by {
            assert(forall|j: int| 0 <= j < i - 1 ==> users.drop_first()[j] == users[j + 1]);
        }
        lemma_user_index_first(users.drop_first(), id, i - 1);
    }
}

pub proof fn lemma_user_index_none(users: Seq<UserV>, id: i32)
    requires
        forall|j: int| 0 <= j < users.len() ==> (#[trigger] users[j]).id != id,
    ensures
        spec_user_index(users, id) is None,
    decreases users.len(),
{
    if users.len() > 0 {
        assert(forall|j: int| 0 <= j < users.len() - 1 ==> (
        #[trigger] users.drop_first()[j]).id != id) by {
            assert(forall|j: int| 0 <= j < users.len() - 1 ==> users.drop_first()[j] == users[j
                + 1]);
        }
        lemma_user_index_none(users.drop_first(), id);
    }
}

/// The index of the first comment row with this id.
pub open spec fn spec_comment_index(comments: Seq<CommentV>, id: i32) -> Option<int>
    decreases comments.len(),
{
    if comments.len() == 0 {
        None
    } else if comments[0].id == id {
        Some(0)
    } else {
        match spec_comment_index(comments.drop_first(), id) {
            Some(i) => Some(i + 1),
            None => None,
        }
    }
}

pub proof fn lemma_comment_index_first(comments: Seq<CommentV>, id: i32, i: int)
    requires
        0 <= i < comments.len(),
        comments[i].id == id,
        forall|j: int| 0 <= j < i ==> (#[trigger] comments[j]).id != id,
    ensures
        spec_comment_index(comments, id) == Some(i),
    decreases comments.len(),
{
    if i > 0 {
        assert(comments.drop_first()[i - 1].id == id);
        assert(forall|j: int| 0 <= j < i - 1 ==> (#[trigger] comments.drop_first()[j]).id
            != id) by {
            assert(forall|j: int| 0 <= j < i - 1 ==> comments.drop_first()[j] == comments[j
                + 1]);
        }
        lemma_comment_index_first(comments.drop_first(), id, i - 1);
    }
}

pub proof fn lemma_comment_index_none(comments: Seq<CommentV>, id: i32)
    requires
        forall|j: int| 0 <= j < comments.len() ==> (#[trigger] comments[j]).id != id,
    ensures
        spec_comment_index(comments, id) is None,
    decreases comments.len(),
{
    if comments.len() > 0 {
        assert(forall|j: int| 0 <= j < comments.len() - 1 ==> (
        #[trigger] comments.drop_first()[j]).id != id) by {
            assert(forall|j: int| 0 <= j < comments.len() - 1 ==> comments.drop_first()[j]
                == comments[j + 1]);
        }
        lemma_comment_index_none(comments.drop_first(), id);
    }
}

} // verus!

verus! {

/// A copy of a memo row, equal in view to the original.
pub fn clone_memo(m: &Memo) -> (r: Memo)
    ensures
        r@ == m@,
{
    Memo {
        id: m.id,
        user_id: m.user_id,
        content: clone_opt_string(&m.content),
        tags: clone_opt_string(&m.tags),
        visibility: clone_opt_string(&m.visibility),
        status: clone_opt_string(&m.status),
        created: m.created,
        updated: m.updated,
        priority: m.priority,
        comment_count: m.comment_count,
        like_count: m.like_count,
        enable_comment: m.enable_comment,
        view_count: m.view_count,
        source: clone_opt_string(&m.source),
    }
}

/// A copy of a user row, equal in view to the original.
pub fn clone_user(u: &User) -> (r: User)
    ensures
        r@ == u@,
{
    User {
        id: u.id,
        username: u.username.clone(),
        password_hash: u.password_hash.clone(),
        email: clone_opt_string(&u.email),
        display_name: clone_opt_string(&u.display_name),
        bio: clone_opt_string(&u.bio),
        created: u.created,
        updated: u.updated,
        role: clone_opt_string(&u.role),
        avatar_url: clone_opt_string(&u.avatar_url),
        last_clicked_mentioned: u.last_clicked_mentioned,
        default_visibility: clone_opt_string(&u.default_visibility),
        default_enable_comment: clone_opt_string(&u.default_enable_comment),
    }
}

} // verus!


verus! {

/// The index of the first tag row with this id.
pub open spec fn spec_tag_index(tags: Seq<TagV>, id: i32) -> Option<int>
    decreases tags.len(),
{
    if tags.len() == 0 {
        None
    } else if tags[0].id == id {
        Some(0)
    } else {
        match spec_tag_index(tags.drop_first(), id) {
            Some(i) => Some(i + 1),
            None => None,
        }
    }
}

pub proof fn lemma_tag_index_first(tags: Seq<TagV>, id: i32, i: int)
    requires
        0 <= i < tags.len(),
        tags[i].id == id,
        forall|j: int| 0 <= j < i ==> (#[trigger] tags[j]).id != id,
    ensures
        spec_tag_index(tags, id) == Some(i),
    decreases tags.len(),
{
    if i > 0 {
        assert(tags.drop_first()[i - 1].id == id);
        assert(forall|j: int| 0 <= j < i - 1 ==> (#[trigger] tags.drop_first()[j]).id != id)
            by {
            assert(forall|j: int| 0 <= j < i - 1 ==> tags.drop_first()[j] == tags[j + 1]);
        }
        lemma_tag_index_first(tags.drop_first(), id, i - 1);
    }
}

pub proof fn lemma_tag_index_none(tags: Seq<TagV>, id: i32)
    requires
        forall|j: int| 0 <= j < tags.len() ==> (#[trigger] tags[j]).id != id,
    ensures
        spec_tag_index(tags, id) is None,
    decreases tags.len(),
{
    if tags.len() > 0 {
        assert(forall|j: int| 0 <= j < tags.len() - 1 ==> (
        #[trigger] tags.drop_first()[j]).id != id) by {
            assert(forall|j: int| 0 <= j < tags.len() - 1 ==> tags.drop_first()[j] == tags[j
                + 1]);
        }
        lemma_tag_index_none(tags.drop_first(), id);
    }
}

/// A copy of a tag row, equal in view to the original.
pub fn clone_tag(t: &Tag) -> (r: Tag)
    ensures
        r@ == t@,
{
    Tag {
        id: t.id,
        name: t.name.clone(),
        user_id: t.user_id,
        created: t.created,
        updated: t.updated,
        memo_count: t.memo_count,
    }
}

} // verus!

verus! {

/// A copy of a resource row, equal in view to the original.
pub fn clone_resource(r: &Resource) -> (c: Resource)
    ensures
        c@ == r@,
{
    Resource {
        public_id: r.public_id.clone(),
        memo_id: r.memo_id,
        user_id: r.user_id,
        file_type: r.file_type.clone(),
        file_name: r.file_name.clone(),
        file_hash: r.file_hash.clone(),
        size: r.size,
        internal_path: clone_opt_string(&r.internal_path),
        external_link: clone_opt_string(&r.external_link),
        storage_type: clone_opt_string(&r.storage_type),
        created: r.created,
        updated: r.updated,
        suffix: clone_opt_string(&r.suffix),
    }
}

} // verus!

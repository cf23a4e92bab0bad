//! The consistency engine end to end: tag counts across create, update and
//! delete; like bookkeeping; comment gates and moderation.

use memo_core::auth::AuthUser;
use memo_core::comment::SaveCommentRequest;
use memo_core::memo::{MemoRelationRequest, SaveMemoRequest};
use memo_core::model::{Store, SysConfig};

fn user(id: i32) -> AuthUser {
    AuthUser { user_id: id, role: None, device: "WEB".to_string() }
}

fn admin(id: i32) -> AuthUser {
    AuthUser { user_id: id, role: Some("ADMIN".to_string()), device: "WEB".to_string() }
}

fn set_flag(store: &mut Store, key: &str, value: &str) {
    store.configs.push(SysConfig {
        key: key.to_string(),
        value: Some(value.to_string()),
        default_value: None,
    });
}

fn save_req(content: &str) -> SaveMemoRequest {
    SaveMemoRequest {
        id: None,
        content: Some(content.to_string()),
        public_ids: None,
        visibility: None,
        enable_comment: Some(true),
        source: None,
    }
}

fn tag_count(store: &Store, uid: i32, name: &str) -> Option<i32> {
    store
        .tags
        .iter()
        .find(|t| t.user_id == uid && t.name == name)
        .and_then(|t| t.memo_count)
}

#[test]
fn create_strips_first_line_tags() {
    let mut store = Store::new();
    let id = store.create_memo(&user(7), &save_req("#rust hello world"), 1000).unwrap();
    let memo = store.memos.iter().find(|m| m.id == id).unwrap();
    assert_eq!(memo.content.as_deref(), Some("hello world"));
    assert_eq!(memo.tags.as_deref(), Some("#rust,"));
    assert_eq!(memo.visibility.as_deref(), Some("PUBLIC"));
    assert_eq!(tag_count(&store, 7, "#rust"), Some(1));
}

#[test]
fn update_moves_tag_counts() {
    let mut store = Store::new();
    let id = store.create_memo(&user(7), &save_req("#rust hello world"), 1000).unwrap();
    let mut req = save_req("#go hello again");
    req.id = Some(id);
    store.update_memo(&user(7), &req, 2000).unwrap();
    assert_eq!(tag_count(&store, 7, "#rust"), Some(0));
    assert_eq!(tag_count(&store, 7, "#go"), Some(1));
    let memo = store.memos.iter().find(|m| m.id == id).unwrap();
    assert_eq!(memo.tags.as_deref(), Some("#go,"));
    assert_eq!(memo.content.as_deref(), Some("hello again"));
}

#[test]
fn update_keeps_unchanged_tag_at_same_count() {
    let mut store = Store::new();
    let id = store.create_memo(&user(7), &save_req("#rust one"), 1000).unwrap();
    let mut req = save_req("#rust two");
    req.id = Some(id);
    store.update_memo(&user(7), &req, 2000).unwrap();
    assert_eq!(tag_count(&store, 7, "#rust"), Some(1));
}

#[test]
fn delete_lowers_tag_counts_and_cascades() {
    let mut store = Store::new();
    set_flag(&mut store, "OPEN_COMMENT", "true");
    set_flag(&mut store, "ANONYMOUS_COMMENT", "true");
    let id = store.create_memo(&user(7), &save_req("#rust bye"), 1000).unwrap();
    let creq = SaveCommentRequest {
        content: "so long".to_string(),
        memo_id: id,
        username: Some("anon".to_string()),
        email: None,
        link: None,
    };
    store
        .add_comment(&memo_core::auth::OptionalAuthUser(None), &creq, 1500)
        .unwrap();
    assert_eq!(store.comments.len(), 1);
    store.remove_memo(&user(7), id).unwrap();
    assert_eq!(tag_count(&store, 7, "#rust"), Some(0));
    assert!(store.memos.is_empty());
    assert!(store.comments.is_empty());
}

#[test]
fn delete_of_missing_memo_is_silent() {
    let mut store = Store::new();
    assert!(store.remove_memo(&user(7), 99).is_ok());
}

#[test]
fn delete_of_another_users_memo_needs_admin() {
    let mut store = Store::new();
    let id = store.create_memo(&user(7), &save_req("mine"), 1000).unwrap();
    let err = store.remove_memo(&user(8), id).unwrap_err();
    assert_eq!(err.code(), 2);
    assert!(store.remove_memo(&admin(9), id).is_ok());
}

#[test]
fn like_add_twice_fails_and_counts_once() {
    let mut store = Store::new();
    set_flag(&mut store, "OPEN_LIKE", "true");
    let id = store.create_memo(&user(7), &save_req("likeable"), 1000).unwrap();
    let req = MemoRelationRequest {
        memo_id: id,
        fav_type: "LIKE".to_string(),
        operate_type: "ADD".to_string(),
    };
    store.memo_relation(&user(8), &req, 2000).unwrap();
    let second = store.memo_relation(&user(8), &req, 2100).unwrap_err();
    assert_eq!(second.code(), 2);
    assert_eq!(second.msg(), "数据已存在");
    let memo = store.memos.iter().find(|m| m.id == id).unwrap();
    assert_eq!(memo.like_count, Some(1));
    assert_eq!(store.relations.len(), 1);
}

#[test]
fn unlike_of_missing_relation_is_a_noop() {
    let mut store = Store::new();
    set_flag(&mut store, "OPEN_LIKE", "true");
    let id = store.create_memo(&user(7), &save_req("unliked"), 1000).unwrap();
    let req = MemoRelationRequest {
        memo_id: id,
        fav_type: "LIKE".to_string(),
        operate_type: "REMOVE".to_string(),
    };
    assert!(store.memo_relation(&user(8), &req, 2000).is_ok());
    let memo = store.memos.iter().find(|m| m.id == id).unwrap();
    assert_eq!(memo.like_count, Some(0));
}

#[test]
fn likes_are_gated_by_the_switch() {
    let mut store = Store::new();
    let id = store.create_memo(&user(7), &save_req("gated"), 1000).unwrap();
    let req = MemoRelationRequest {
        memo_id: id,
        fav_type: "LIKE".to_string(),
        operate_type: "ADD".to_string(),
    };
    let err = store.memo_relation(&user(8), &req, 2000).unwrap_err();
    assert_eq!(err.code(), 2);
    assert_eq!(err.msg(), "禁止点赞");
}

#[test]
fn anonymous_comment_held_for_approval() {
    let mut store = Store::new();
    set_flag(&mut store, "OPEN_COMMENT", "true");
    set_flag(&mut store, "ANONYMOUS_COMMENT", "true");
    set_flag(&mut store, "COMMENT_APPROVED", "true");
    let id = store.create_memo(&user(7), &save_req("talk to me"), 1000).unwrap();
    let creq = SaveCommentRequest {
        content: "first!".to_string(),
        memo_id: id,
        username: Some("anon".to_string()),
        email: Some("a@example.com".to_string()),
        link: None,
    };
    store
        .add_comment(&memo_core::auth::OptionalAuthUser(None), &creq, 1500)
        .unwrap();
    let row = &store.comments[0];
    assert_eq!(row.approved, Some(0));
    assert_eq!(row.user_id, -1);
    let memo = store.memos.iter().find(|m| m.id == id).unwrap();
    assert_eq!(memo.comment_count, Some(1));

    let anon_view = store.query_comments(&memo_core::auth::OptionalAuthUser(None), 1, 10, id);
    assert_eq!(anon_view.total, 0);
    let owner_view = store.query_comments(
        &memo_core::auth::OptionalAuthUser(Some(user(7))),
        1,
        10,
        id,
    );
    assert_eq!(owner_view.total, 1);
    assert_eq!(owner_view.list[0].approved, 0);
    let stranger_view = store.query_comments(
        &memo_core::auth::OptionalAuthUser(Some(user(8))),
        1,
        10,
        id,
    );
    assert_eq!(stranger_view.total, 0);
    let admin_view = store.query_comments(
        &memo_core::auth::OptionalAuthUser(Some(admin(9))),
        1,
        10,
        id,
    );
    assert_eq!(admin_view.total, 1);

    store.approve_comment(row.id);
    let after = store.query_comments(&memo_core::auth::OptionalAuthUser(None), 1, 10, id);
    assert_eq!(after.total, 1);
    assert_eq!(after.list[0].approved, 1);
}

#[test]
fn authenticated_comment_skips_the_approval_gate() {
    let mut store = Store::new();
    set_flag(&mut store, "OPEN_COMMENT", "true");
    set_flag(&mut store, "COMMENT_APPROVED", "true");
    store.users.push(memo_core::model::User {
        id: 7,
        username: "seven".to_string(),
        password_hash: String::new(),
        email: None,
        display_name: Some("Seven".to_string()),
        bio: None,
        created: None,
        updated: None,
        role: None,
        avatar_url: None,
        last_clicked_mentioned: None,
        default_visibility: None,
        default_enable_comment: None,
    });
    store.next_user_id = 8;
    let id = store.create_memo(&user(7), &save_req("open thread"), 1000).unwrap();
    let creq = SaveCommentRequest {
        content: "hello".to_string(),
        memo_id: id,
        username: None,
        email: None,
        link: None,
    };
    store
        .add_comment(&memo_core::auth::OptionalAuthUser(Some(user(7))), &creq, 1500)
        .unwrap();
    let row = &store.comments[0];
    assert_eq!(row.approved, None);
    assert_eq!(row.user_name, "Seven");
    let anon_view = store.query_comments(&memo_core::auth::OptionalAuthUser(None), 1, 10, id);
    assert_eq!(anon_view.total, 1);
}

#[test]
fn mentions_resolve_against_display_names() {
    let mut store = Store::new();
    store.users.push(memo_core::model::User {
        id: 3,
        username: "trey".to_string(),
        password_hash: String::new(),
        email: None,
        display_name: Some("Trey".to_string()),
        bio: None,
        created: None,
        updated: None,
        role: None,
        avatar_url: None,
        last_clicked_mentioned: None,
        default_visibility: None,
        default_enable_comment: None,
    });
    store.next_user_id = 4;
    let (names, ids) = store.parse_mentions("hi @Trey and @Nobody too");
    assert_eq!(names.as_deref(), Some("Trey"));
    assert_eq!(ids.as_deref(), Some("#3,"));
    let (none_names, empty_ids) = store.parse_mentions("no mentions here");
    assert_eq!(none_names, None);
    assert_eq!(empty_ids.as_deref(), Some(""));
}

#[test]
fn set_priority_assigns_above_the_maximum() {
    let mut store = Store::new();
    let a = store.create_memo(&user(7), &save_req("first"), 1000).unwrap();
    let b = store.create_memo(&user(7), &save_req("second"), 2000).unwrap();
    store.set_priority(&user(7), a, true).unwrap();
    assert_eq!(store.memos.iter().find(|m| m.id == a).unwrap().priority, Some(1));
    store.set_priority(&user(7), b, true).unwrap();
    assert_eq!(store.memos.iter().find(|m| m.id == b).unwrap().priority, Some(2));
    store.set_priority(&user(7), a, false).unwrap();
    assert_eq!(store.memos.iter().find(|m| m.id == a).unwrap().priority, Some(0));
    let err = store.set_priority(&user(8), b, true).unwrap_err();
    assert_eq!(err.code(), 2);
}

#[test]
fn empty_memo_is_rejected() {
    let mut store = Store::new();
    let err = store.create_memo(&user(7), &save_req("   "), 1000).unwrap_err();
    assert_eq!(err.code(), 2);
    assert_eq!(err.msg(), "内容和图片都为空");
}

#[test]
fn create_attaches_orphaned_uploads() {
    let mut store = Store::new();
    store.resources.push(memo_core::model::Resource {
        public_id: "pic1".to_string(),
        memo_id: 0,
        user_id: 7,
        file_type: "image/png".to_string(),
        file_name: "pic.png".to_string(),
        file_hash: "h".to_string(),
        size: 10,
        internal_path: None,
        external_link: Some("/api/resource/pic1".to_string()),
        storage_type: Some("LOCAL".to_string()),
        created: None,
        updated: None,
        suffix: Some("png".to_string()),
    });
    let mut req = save_req("with picture");
    req.public_ids = Some(vec!["pic1".to_string()]);
    let id = store.create_memo(&user(7), &req, 1000).unwrap();
    assert_eq!(store.resources[0].memo_id, id);
}

#[test]
fn rename_rewrites_the_first_token_of_every_memo() {
    let mut store = Store::new();
    let a = store.create_memo(&user(7), &save_req("#rust one"), 1000).unwrap();
    let b = store.create_memo(&user(8), &save_req("#rust elsewhere"), 1100).unwrap();
    let tag_id = store
        .tags
        .iter()
        .find(|t| t.user_id == 7 && t.name == "#rust")
        .unwrap()
        .id;
    let items = vec![memo_core::memo::TagUpdate { id: tag_id, name: "#oxide".to_string() }];
    store.rename_tags(&user(7), &items, 5000).unwrap();
    let renamed = store.tags.iter().find(|t| t.id == tag_id).unwrap();
    assert_eq!(renamed.name, "#oxide");
    let ma = store.memos.iter().find(|m| m.id == a).unwrap();
    assert_eq!(ma.tags.as_deref(), Some("#oxide,"));
    assert_eq!(ma.updated, Some(5000));
    let mb = store.memos.iter().find(|m| m.id == b).unwrap();
    assert_eq!(mb.tags.as_deref(), Some("#oxide,"));

    let missing = vec![memo_core::memo::TagUpdate { id: 999, name: "#x".to_string() }];
    let err = store.rename_tags(&user(7), &missing, 6000).unwrap_err();
    assert_eq!(err.code(), 2);
    assert_eq!(err.msg(), "tag不存在");
}

#[test]
fn tag_delete_requires_a_zero_count() {
    let mut store = Store::new();
    let id = store.create_memo(&user(7), &save_req("#rust note"), 1000).unwrap();
    let tag_id = store.tags[0].id;
    store.remove_tag(&user(7), tag_id).unwrap();
    assert_eq!(store.tags.len(), 1, "a counted tag stays");
    store.remove_memo(&user(7), id).unwrap();
    assert_eq!(tag_count(&store, 7, "#rust"), Some(0));
    store.remove_tag(&user(8), tag_id).unwrap();
    assert_eq!(store.tags.len(), 1, "another user's delete is a no-op");
    store.remove_tag(&user(7), tag_id).unwrap();
    assert!(store.tags.is_empty());
}

#[test]
fn tag_listings_show_counts_in_order() {
    let mut store = Store::new();
    store.create_memo(&user(7), &save_req("#a one"), 1000).unwrap();
    store.create_memo(&user(7), &save_req("#a #b two"), 1100).unwrap();
    store.create_memo(&user(8), &save_req("#c other"), 1200).unwrap();
    let mine = store.list_tags(&user(7));
    assert_eq!(mine.len(), 2);
    assert_eq!(mine[0].name, "#a");
    assert_eq!(mine[0].count, 2);
    let top = store
        .top_tags(&memo_core::auth::OptionalAuthUser(Some(user(7))))
        .unwrap();
    assert_eq!(top.len(), 2);
    assert_eq!(top[0].name, "#a");
    assert_eq!(top[1].name, "#b");
    let nobody = store.top_tags(&memo_core::auth::OptionalAuthUser(None)).unwrap_err();
    assert_eq!(nobody.msg(), "管理员不存在");
}

#[test]
fn memo_resources_come_back_in_creation_order() {
    let mut store = Store::new();
    for (pid, at) in [("later", 500i64), ("earlier", 100)] {
        store.resources.push(memo_core::model::Resource {
            public_id: pid.to_string(),
            memo_id: 0,
            user_id: 7,
            file_type: "image/png".to_string(),
            file_name: format!("{}.png", pid),
            file_hash: "h".to_string(),
            size: 1,
            internal_path: None,
            external_link: Some(format!("/api/resource/{}", pid)),
            storage_type: Some("LOCAL".to_string()),
            created: Some(at),
            updated: None,
            suffix: Some("png".to_string()),
        });
    }
    let mut req = save_req("with pictures");
    req.public_ids = Some(vec!["later".to_string(), "earlier".to_string()]);
    let id = store.create_memo(&user(7), &req, 1000).unwrap();
    let dto = store
        .get_memo(&memo_core::auth::OptionalAuthUser(Some(user(7))), id, false)
        .unwrap();
    assert_eq!(dto.resources.len(), 2);
    assert_eq!(dto.resources[0].public_id, "earlier");
    assert_eq!(dto.resources[1].public_id, "later");
}

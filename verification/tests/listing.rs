//! The listing boundary and pagination, the credential resolver, and the
//! text-level helpers.

use memo_core::auth::AuthUser;
use memo_core::listing::ListMemoRequest;
use memo_core::memo::SaveMemoRequest;
use memo_core::model::Store;

fn user(id: i32) -> AuthUser {
    AuthUser { user_id: id, role: None, device: "WEB".to_string() }
}

fn blank_list() -> ListMemoRequest {
    ListMemoRequest {
        page: None,
        size: None,
        tag: None,
        visibility: None,
        user_id: None,
        begin: None,
        end: None,
        search: None,
        liked: None,
        commented: None,
        mentioned: None,
    }
}

fn seeded() -> Store {
    let mut store = Store::new();
    for (content, vis, uid) in [
        ("open note", "PUBLIC", 7),
        ("team note", "PROTECT", 7),
        ("secret note", "PRIVATE", 7),
        ("other secret", "PRIVATE", 8),
    ] {
        let req = SaveMemoRequest {
            id: None,
            content: Some(content.to_string()),
            public_ids: None,
            visibility: Some(vis.to_string()),
            enable_comment: Some(true),
            source: None,
        };
        store.create_memo(&user(uid), &req, 1000).unwrap();
    }
    store
}

#[test]
fn anonymous_listing_sees_only_public() {
    let mut store = seeded();
    let r = store.list_memos(&memo_core::auth::OptionalAuthUser(None), &blank_list(), 0);
    assert_eq!(r.total, 1);
    assert_eq!(r.items.len(), 1);
    assert_eq!(r.items[0].visibility.as_deref(), Some("PUBLIC"));
}

#[test]
fn authenticated_listing_hides_other_private_memos() {
    let mut store = seeded();
    let r = store.list_memos(
        &memo_core::auth::OptionalAuthUser(Some(user(7))),
        &blank_list(),
        0,
    );
    assert_eq!(r.total, 3);
    for item in &r.items {
        if item.visibility.as_deref() == Some("PRIVATE") {
            assert_eq!(item.user_id, 7);
        }
    }
}

#[test]
fn pagination_counts_are_consistent() {
    let mut store = Store::new();
    for i in 0..3 {
        let req = SaveMemoRequest {
            id: None,
            content: Some(format!("note {}", i)),
            public_ids: None,
            visibility: Some("PUBLIC".to_string()),
            enable_comment: None,
            source: None,
        };
        store.create_memo(&user(7), &req, 1000 + i).unwrap();
    }
    let mut req = blank_list();
    req.size = Some(2);
    req.page = Some(1);
    let p1 = store.list_memos(&memo_core::auth::OptionalAuthUser(None), &req, 0);
    assert_eq!(p1.total, 3);
    assert_eq!(p1.total_page, 2);
    assert_eq!(p1.items.len(), 2);
    req.page = Some(2);
    let p2 = store.list_memos(&memo_core::auth::OptionalAuthUser(None), &req, 0);
    assert_eq!(p2.items.len(), 1);
    assert_eq!(p1.items.len() + p2.items.len(), p1.total as usize);
    req.page = Some(3);
    let p3 = store.list_memos(&memo_core::auth::OptionalAuthUser(None), &req, 0);
    assert_eq!(p3.items.len(), 0);
}

#[test]
fn listing_orders_pinned_then_newest() {
    let mut store = Store::new();
    let mk = |store: &mut Store, content: &str, at: i64| {
        let req = SaveMemoRequest {
            id: None,
            content: Some(content.to_string()),
            public_ids: None,
            visibility: Some("PUBLIC".to_string()),
            enable_comment: None,
            source: None,
        };
        store.create_memo(&user(7), &req, at).unwrap()
    };
    let oldest = mk(&mut store, "oldest", 100);
    let _middle = mk(&mut store, "middle", 200);
    let newest = mk(&mut store, "newest", 300);
    store.set_priority(&user(7), oldest, true).unwrap();
    let r = store.list_memos(&memo_core::auth::OptionalAuthUser(None), &blank_list(), 0);
    assert_eq!(r.items[0].id, oldest);
    assert_eq!(r.items[1].id, newest);
}

#[test]
fn tag_filter_matches_the_stored_token() {
    let mut store = Store::new();
    let req = SaveMemoRequest {
        id: None,
        content: Some("#rust news".to_string()),
        public_ids: None,
        visibility: Some("PUBLIC".to_string()),
        enable_comment: None,
        source: None,
    };
    store.create_memo(&user(7), &req, 100).unwrap();
    let mut lreq = blank_list();
    lreq.tag = Some("#rust".to_string());
    let r = store.list_memos(&memo_core::auth::OptionalAuthUser(None), &lreq, 0);
    assert_eq!(r.total, 1);
    lreq.tag = Some("#go".to_string());
    let r2 = store.list_memos(&memo_core::auth::OptionalAuthUser(None), &lreq, 0);
    assert_eq!(r2.total, 0);
}

#[test]
fn search_filter_is_a_substring_match() {
    let mut store = seeded();
    let mut lreq = blank_list();
    lreq.search = Some("open".to_string());
    let r = store.list_memos(&memo_core::auth::OptionalAuthUser(None), &lreq, 0);
    assert_eq!(r.total, 1);
    lreq.search = Some("absent".to_string());
    let r2 = store.list_memos(&memo_core::auth::OptionalAuthUser(None), &lreq, 0);
    assert_eq!(r2.total, 0);
}

#[test]
fn date_window_applies_only_when_both_bounds_parse() {
    let mut store = seeded();
    let mut lreq = blank_list();
    lreq.begin = Some("500".to_string());
    lreq.end = Some("1500".to_string());
    let r = store.list_memos(&memo_core::auth::OptionalAuthUser(None), &lreq, 0);
    assert_eq!(r.total, 1);
    lreq.begin = Some("1500".to_string());
    lreq.end = Some("2500".to_string());
    let r2 = store.list_memos(&memo_core::auth::OptionalAuthUser(None), &lreq, 0);
    assert_eq!(r2.total, 0);
    lreq.begin = Some("not a date".to_string());
    let r3 = store.list_memos(&memo_core::auth::OptionalAuthUser(None), &lreq, 0);
    assert_eq!(r3.total, 1);
}

#[test]
fn get_memo_respects_visibility_and_counts_views() {
    let mut store = seeded();
    let private_id = store
        .memos
        .iter()
        .find(|m| m.visibility.as_deref() == Some("PRIVATE") && m.user_id == 7)
        .unwrap()
        .id;
    assert!(store
        .get_memo(&memo_core::auth::OptionalAuthUser(None), private_id, false)
        .is_none());
    let got = store
        .get_memo(
            &memo_core::auth::OptionalAuthUser(Some(user(7))),
            private_id,
            true,
        )
        .unwrap();
    assert_eq!(got.view_count, 0);
    let again = store
        .get_memo(
            &memo_core::auth::OptionalAuthUser(Some(user(7))),
            private_id,
            false,
        )
        .unwrap();
    assert_eq!(again.view_count, 1);
}

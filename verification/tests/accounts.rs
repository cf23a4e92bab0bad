//! Accounts and credentials: registration, login, the dual-mode resolver
//! with its revocable programmatic tokens, and the settings store.

use memo_core::auth::AuthUser;
use memo_core::model::{Store, SysConfig};
use memo_core::user::RegisterUserRequest;

const SECRET: &str = "SECRET-REDACTED";

fn set_flag(store: &mut Store, key: &str, value: &str) {
    store.configs.push(SysConfig {
        key: key.to_string(),
        value: Some(value.to_string()),
        default_value: None,
    });
}

fn register(store: &mut Store, name: &str, pass: &str) {
    let req = RegisterUserRequest {
        username: Some(name.to_string()),
        password: Some(pass.to_string()),
        display_name: None,
        email: None,
        bio: None,
    };
    store.register_user(&req, 1000).unwrap();
}

#[test]
fn register_and_login_round_trip() {
    let mut store = Store::new();
    set_flag(&mut store, "OPEN_REGISTER", "true");
    register(&mut store, "ada", "correcthorse");
    assert_eq!(store.users.len(), 1);
    assert_eq!(store.users[0].display_name.as_deref(), Some("ada"));

    let ok = store
        .login(SECRET, Some("ada".to_string()), Some("correcthorse".to_string()), 5000)
        .unwrap();
    assert_eq!(ok.user_id, store.users[0].id);

    let wrong = store
        .login(SECRET, Some("ada".to_string()), Some("wrong".to_string()), 5000)
        .unwrap_err();
    assert_eq!(wrong.code(), 2);
    assert_eq!(wrong.msg(), "密码不正确");

    let missing = store
        .login(SECRET, Some("bob".to_string()), Some("x".to_string()), 5000)
        .unwrap_err();
    assert_eq!(missing.msg(), "用户不存在");
}

#[test]
fn registration_is_gated_and_names_unique() {
    let mut store = Store::new();
    let req = RegisterUserRequest {
        username: Some("ada".to_string()),
        password: Some("pw".to_string()),
        display_name: None,
        email: None,
        bio: None,
    };
    let closed = store.register_user(&req, 1000).unwrap_err();
    assert_eq!(closed.msg(), "当前不允许注册");
    set_flag(&mut store, "OPEN_REGISTER", "true");
    store.register_user(&req, 1000).unwrap();
    let dup = store.register_user(&req, 1000).unwrap_err();
    assert_eq!(dup.msg(), "用户名或昵称已存在");
    let blank = RegisterUserRequest {
        username: Some("  ".to_string()),
        password: Some("pw".to_string()),
        display_name: None,
        email: None,
        bio: None,
    };
    assert_eq!(store.register_user(&blank, 1000).unwrap_err().code(), 1);
}

#[test]
fn web_credential_resolves_back_to_its_user() {
    let mut store = Store::new();
    set_flag(&mut store, "OPEN_REGISTER", "true");
    register(&mut store, "ada", "pw");
    let login = store
        .login(SECRET, Some("ada".to_string()), Some("pw".to_string()), 5000)
        .unwrap();
    let auth = store.authenticate_token(SECRET, &login.token).unwrap();
    assert_eq!(auth.user_id, login.user_id);
    assert_eq!(auth.device, "WEB");

    let garbage = store.authenticate_token(SECRET, "not.a.token").unwrap_err();
    assert_eq!(garbage.code(), 3);
    assert_eq!(garbage.msg(), "please login first");
}

#[test]
fn rotated_api_token_is_rejected_distinctly() {
    let mut store = Store::new();
    let holder = AuthUser { user_id: 42, role: None, device: "WEB".to_string() };
    store.enable_token(&holder, SECRET, 5000).unwrap();
    let minted = store.get_token(&holder).unwrap();
    let auth = store.authenticate_token(SECRET, &minted.token).unwrap();
    assert_eq!(auth.user_id, 42);
    assert_eq!(auth.device, "API");

    store.reset_token(&holder, SECRET, minted.id, 999000).unwrap();
    let stale = store.authenticate_token(SECRET, &minted.token).unwrap_err();
    assert_eq!(stale.code(), 3);
    assert_eq!(stale.msg(), "api token已失效");

    let fresh = store.get_token(&holder).unwrap();
    assert!(fresh.token != minted.token);
    assert!(store.authenticate_token(SECRET, &fresh.token).is_ok());

    store.disable_token(&holder);
    let gone = store.authenticate_token(SECRET, &fresh.token).unwrap_err();
    assert_eq!(gone.msg(), "api token已失效");
}

#[test]
fn optional_resolution_swallows_rejections() {
    let store = Store::new();
    let none = store.resolve_optional(SECRET, None);
    assert!(none.0.is_none());
    let blank = store.resolve_optional(SECRET, Some("   ".to_string()));
    assert!(blank.0.is_none());
    let bad = store.resolve_optional(SECRET, Some("junk".to_string()));
    assert!(bad.0.is_none());
    let required = store.resolve_required(SECRET, None).unwrap_err();
    assert_eq!(required.code(), 3);
}

#[test]
fn settings_fall_back_to_defaults() {
    let mut store = Store::new();
    store.configs.push(SysConfig {
        key: "WEBSITE_TITLE".to_string(),
        value: Some(String::new()),
        default_value: Some("My Memos".to_string()),
    });
    assert_eq!(
        memo_core::settings::get_string(&store, "WEBSITE_TITLE").as_deref(),
        Some("My Memos")
    );
    assert_eq!(memo_core::settings::get_string(&store, "MISSING"), None);
    store.configs.push(SysConfig {
        key: "OPEN_LIKE".to_string(),
        value: Some("TrUe".to_string()),
        default_value: None,
    });
    assert!(memo_core::settings::get_boolean(&store, "OPEN_LIKE"));
    assert!(!memo_core::settings::get_boolean(&store, "WEBSITE_TITLE"));
}

#[test]
fn webhook_token_is_seeded_with_standard_base64() {
    let mut store = Store::new();
    store.configs.push(SysConfig {
        key: "WEB_HOOK_TOKEN".to_string(),
        value: Some(String::new()),
        default_value: None,
    });
    let bytes: Vec<u8> = vec![77, 97, 110];
    memo_core::settings::init_webhook_token(&mut store, &bytes);
    assert_eq!(store.configs[0].value.as_deref(), Some("TWFu"));
    let again: Vec<u8> = vec![1, 2, 3];
    memo_core::settings::init_webhook_token(&mut store, &again);
    assert_eq!(store.configs[0].value.as_deref(), Some("TWFu"));
}

#[test]
fn admin_gate_refuses_members() {
    let member = AuthUser { user_id: 1, role: None, device: "WEB".to_string() };
    let admin = AuthUser { user_id: 2, role: Some("ADMIN".to_string()), device: "WEB".to_string() };
    assert_eq!(memo_core::settings::require_admin(&member).unwrap_err().code(), 3);
    assert!(memo_core::settings::require_admin(&admin).is_ok());
}

#[test]
fn user_statistics_count_activity() {
    let mut store = Store::new();
    set_flag(&mut store, "OPEN_LIKE", "true");
    set_flag(&mut store, "OPEN_COMMENT", "true");
    set_flag(&mut store, "ANONYMOUS_COMMENT", "true");
    let me = AuthUser { user_id: 7, role: None, device: "WEB".to_string() };
    let req = memo_core::memo::SaveMemoRequest {
        id: None,
        content: Some("note".to_string()),
        public_ids: None,
        visibility: Some("PUBLIC".to_string()),
        enable_comment: Some(true),
        source: None,
    };
    let id = store.create_memo(&me, &req, 1000).unwrap();
    let like = memo_core::memo::MemoRelationRequest {
        memo_id: id,
        fav_type: "LIKE".to_string(),
        operate_type: "ADD".to_string(),
    };
    store.memo_relation(&me, &like, 2000).unwrap();
    let creq = memo_core::comment::SaveCommentRequest {
        content: "mine".to_string(),
        memo_id: id,
        username: Some("me".to_string()),
        email: None,
        link: None,
    };
    store
        .add_comment(&memo_core::auth::OptionalAuthUser(None), &creq, 2500)
        .unwrap();
    store.comments[0].user_id = 7;
    let stats = store.user_statistics(&me, 10_000);
    assert_eq!(stats.total, 1);
    assert_eq!(stats.liked, 1);
    assert_eq!(stats.commented, 1);
    assert_eq!(stats.mentioned, 0);
    assert_eq!(stats.unread_mentioned, 0);
}

#[test]
fn settings_writes_touch_only_existing_rows() {
    let mut store = Store::new();
    let admin = AuthUser { user_id: 1, role: Some("ADMIN".to_string()), device: "WEB".to_string() };
    store.configs.push(SysConfig {
        key: "WEBSITE_TITLE".to_string(),
        value: Some("Old".to_string()),
        default_value: None,
    });
    let items = vec![memo_core::settings::SysConfigDto {
        key: "WEBSITE_TITLE".to_string(),
        value: Some("New".to_string()),
    }];
    memo_core::settings::save_configs(&mut store, &admin, Some(items)).unwrap();
    assert_eq!(store.configs[0].value.as_deref(), Some("New"));

    let missing = vec![memo_core::settings::SysConfigDto {
        key: "NO_SUCH_KEY".to_string(),
        value: Some("x".to_string()),
    }];
    assert_eq!(memo_core::settings::save_configs(&mut store, &admin, Some(missing)).unwrap_err().code(), 99);
    assert_eq!(memo_core::settings::save_configs(&mut store, &admin, None).unwrap_err().code(), 1);

    let member = AuthUser { user_id: 2, role: None, device: "WEB".to_string() };
    let refused = memo_core::settings::save_configs(&mut store, &member, Some(Vec::new())).unwrap_err();
    assert_eq!(refused.code(), 3);
}

#[test]
fn square_push_is_built_from_the_batch() {
    let mut store = Store::new();
    store.users.push(memo_core::model::User {
        id: 1,
        username: "root".to_string(),
        password_hash: String::new(),
        email: None,
        display_name: Some("Root".to_string()),
        bio: None,
        created: None,
        updated: None,
        role: Some("ADMIN".to_string()),
        avatar_url: None,
        last_clicked_mentioned: None,
        default_visibility: None,
        default_enable_comment: None,
    });
    store.next_user_id = 2;
    let items = vec![
        memo_core::settings::SysConfigDto {
            key: "PUSH_OFFICIAL_SQUARE".to_string(),
            value: Some("true".to_string()),
        },
        memo_core::settings::SysConfigDto {
            key: "CORS_DOMAIN_LIST".to_string(),
            value: Some("https://a.example,https://b.example".to_string()),
        },
    ];
    assert!(memo_core::settings::wants_square_push(&items));
    let push = memo_core::settings::build_square_push(&store, &items, "", "tok").unwrap();
    assert_eq!(push.author, "Root");
    assert_eq!(push.website.as_deref(), Some("https://a.example"));
    assert_eq!(push.token, "tok");
}

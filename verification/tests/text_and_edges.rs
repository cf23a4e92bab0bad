//! The text layer and the remaining edges: parsing, formatting, the
//! schema splitter, addresses, the feed, and statistics.

use memo_core::model::Store;

#[test]
fn tags_parse_only_from_the_first_line() {
    let tags = memo_core::tags::parse_tags("#a #b,#c x\n#later ignored");
    assert_eq!(tags, vec!["#a", "#b", "#c"]);
    let none = memo_core::tags::parse_tags("plain text\n#not-first");
    assert!(none.is_empty());
    let short = memo_core::tags::parse_tags("# lone hash");
    assert!(short.is_empty());
}

#[test]
fn tag_field_round_trips() {
    let tags = vec!["#a".to_string(), "#b".to_string()];
    let field = memo_core::tags::format_tags(&tags);
    assert_eq!(field, "#a,#b,");
    assert_eq!(memo_core::tags::split_tags(Some(field)), tags);
    assert!(memo_core::tags::split_tags(None).is_empty());
    assert_eq!(memo_core::tags::format_tags(&Vec::new()), "");
}

#[test]
fn first_line_stripping_matches_the_scenario() {
    let out = memo_core::tags::replace_first_line(
        "#rust hello world",
        &vec!["#rust".to_string()],
    );
    assert_eq!(out, "hello world");
    let dropped = memo_core::tags::replace_first_line(
        "#only\nbody line",
        &vec!["#only".to_string()],
    );
    assert_eq!(dropped, "body line");
}

#[test]
fn date_inputs_accept_both_forms() {
    assert_eq!(
        memo_core::timeutil::parse_date("1970-01-01T00:00:01+00:00"),
        Some(1000)
    );
    assert_eq!(memo_core::timeutil::parse_date("2500"), Some(2500));
    assert_eq!(memo_core::timeutil::parse_date("yesterday"), None);
    assert_eq!(
        memo_core::timeutil::format_rfc3339_ms(0).as_deref(),
        Some("1970-01-01T00:00:00.000+00:00")
    );
    assert_eq!(
        memo_core::timeutil::format_civil_date(0).as_deref(),
        Some("1970-01-01")
    );
}

#[test]
fn schema_scripts_split_on_semicolons() {
    let stmts = memo_core::script::split_sql(
        "-- comment\ncreate table a (x int);\n\ninsert into a values (1);\n",
    );
    assert_eq!(stmts, vec!["create table a (x int)", "insert into a values (1)"]);
}

#[test]
fn resource_addresses_follow_the_backend() {
    let local = memo_core::resource::build_resource_url(
        "https://example.org",
        Some("/api/resource/x".to_string()),
        Some("LOCAL".to_string()),
    );
    assert_eq!(local, "https://example.org/api/resource/x");
    let remote = memo_core::resource::build_resource_url(
        "https://example.org",
        Some("https://cdn/x".to_string()),
        Some("AWSS3".to_string()),
    );
    assert_eq!(remote, "https://cdn/x");
}

#[test]
fn s3_targets_require_their_parameters() {
    let missing = memo_core::resource::s3_target("", "s", "b", "", "", "r", "id");
    assert_eq!(missing.unwrap_err().msg(), "上传资源失败");
    let bare = memo_core::resource::s3_target("a", "s", "b", "", "", "eu-1", "id").unwrap();
    assert_eq!(bare.key, "id");
    assert_eq!(bare.url, "https://s3.eu-1.amazonaws.com/b/id");
    let named = memo_core::resource::s3_target("a", "s", "b", "https://cdn", "up", "eu-1", "id")
        .unwrap();
    assert_eq!(named.key, "up/id");
    assert_eq!(named.url, "https://cdn/up/id");
}

#[test]
fn public_ids_and_file_types_take_their_shapes() {
    let id = memo_core::resource::make_public_id("20240101", &vec![0u8, 25u8, 26u8]);
    assert_eq!(id, "20240101aza");
    assert_eq!(memo_core::resource::fallback_file_type("png"), "image/png");
    assert_eq!(
        memo_core::resource::fallback_file_type(""),
        "application/octet-stream"
    );
}

#[test]
fn truncate_keeps_short_strings_whole() {
    assert_eq!(memo_core::feed::truncate("short", 20), "short");
    assert_eq!(memo_core::feed::truncate("a longer title indeed", 7), "a longe");
}

#[test]
fn feed_lists_newest_public_memos() {
    let mut store = Store::new();
    let me = memo_core::auth::AuthUser { user_id: 7, role: None, device: "WEB".to_string() };
    for (content, vis, at) in [
        ("#x public old", "PUBLIC", 100i64),
        ("public new", "PUBLIC", 200),
        ("hidden", "PRIVATE", 300),
    ] {
        let req = memo_core::memo::SaveMemoRequest {
            id: None,
            content: Some(content.to_string()),
            public_ids: None,
            visibility: Some(vis.to_string()),
            enable_comment: None,
            source: None,
        };
        store.create_memo(&me, &req, at).unwrap();
    }
    store.configs.push(memo_core::model::SysConfig {
        key: "DOMAIN".to_string(),
        value: Some("https://example.org".to_string()),
        default_value: None,
    });
    let feed = store.latest_public_memos();
    assert_eq!(feed.len(), 2);
    assert_eq!(feed[0].content, "public new");
    assert_eq!(feed[1].categories, vec!["#x"]);
    assert!(feed[0].link.starts_with("https://example.org/memo/"));
}

#[test]
fn statistics_group_by_day() {
    let mut store = Store::new();
    let me = memo_core::auth::AuthUser { user_id: 7, role: None, device: "WEB".to_string() };
    store.users.push(memo_core::model::User {
        id: 7,
        username: "seven".to_string(),
        password_hash: String::new(),
        email: None,
        display_name: None,
        bio: None,
        created: Some(0),
        updated: None,
        role: None,
        avatar_url: None,
        last_clicked_mentioned: None,
        default_visibility: None,
        default_enable_comment: None,
    });
    store.next_user_id = 8;
    let day = 86_400_000i64;
    for at in [day + 1, day + 2, 3 * day + 5] {
        let req = memo_core::memo::SaveMemoRequest {
            id: None,
            content: Some(format!("at {}", at)),
            public_ids: None,
            visibility: Some("PUBLIC".to_string()),
            enable_comment: None,
            source: None,
        };
        store.create_memo(&me, &req, at).unwrap();
    }
    let viewer = memo_core::auth::OptionalAuthUser(Some(me));
    let resp = store
        .memo_statistics(&viewer, Some("0".to_string()), Some((10 * day).to_string()), 10 * day)
        .unwrap();
    assert_eq!(resp.total_memos, 3);
    assert_eq!(resp.items.len(), 2);
    assert_eq!(resp.items[0].day, 3);
    assert_eq!(resp.items[0].total, 1);
    assert_eq!(resp.items[0].date, "1970-01-04");
    assert_eq!(resp.items[1].day, 1);
    assert_eq!(resp.items[1].total, 2);
    let bad = store
        .memo_statistics(&viewer, Some("100".to_string()), Some("50".to_string()), 10 * day)
        .unwrap_err();
    assert_eq!(bad.code(), 1);
}

#[test]
fn webhook_fires_only_for_public_memos_with_a_subscriber() {
    let mut store = Store::new();
    let me = memo_core::auth::AuthUser { user_id: 7, role: None, device: "WEB".to_string() };
    store.users.push(memo_core::model::User {
        id: 7,
        username: "seven".to_string(),
        password_hash: String::new(),
        email: None,
        display_name: Some("Seven".to_string()),
        bio: None,
        created: None,
        updated: None,
        role: None,
        avatar_url: None,
        last_clicked_mentioned: None,
        default_visibility: None,
        default_enable_comment: None,
    });
    store.next_user_id = 8;
    let req = memo_core::memo::SaveMemoRequest {
        id: None,
        content: Some("announce me".to_string()),
        public_ids: None,
        visibility: Some("PUBLIC".to_string()),
        enable_comment: None,
        source: None,
    };
    let id = store.create_memo(&me, &req, 1000).unwrap();
    let silent = store.build_webhook_notification(id).unwrap();
    assert!(silent.is_none());
    store.configs.push(memo_core::model::SysConfig {
        key: "WEB_HOOK_URL".to_string(),
        value: Some("https://subscriber.example/hook".to_string()),
        default_value: None,
    });
    let fired = store.build_webhook_notification(id).unwrap().unwrap();
    assert_eq!(fired.url, "https://subscriber.example/hook");
    assert_eq!(fired.content.as_deref(), Some("announce me"));
    assert_eq!(fired.author_name.as_deref(), Some("Seven"));
    assert_eq!(fired.created, 1000);
}

#[test]
fn database_url_prefers_the_explicit_address() {
    let mut config = memo_core::config::AppConfig {
        server_port: 1,
        db_type: " -sqlite ".to_string(),
        mysql_url: "db.internal".to_string(),
        mysql_db: "memos".to_string(),
        mysql_user: "svc".to_string(),
        mysql_pass: "pw".to_string(),
        sqlite_path: "/tmp/data.sqlite".to_string(),
        database_url: None,
        jwt_secret: "SECRET-REDACTED".to_string(),
        token_header: "token".to_string(),
        safe_domain: String::new(),
        official_square_url: String::new(),
        upload_storage_path: String::new(),
        db_time_zone: "+08:00".to_string(),
    };
    assert_eq!(config.database_url(), "sqlite:/tmp/data.sqlite");
    config.db_type = String::new();
    assert_eq!(config.database_url(), "mysql://svc:pw@db.internal/memos");
    config.database_url = Some("postgres://elsewhere/x".to_string());
    assert_eq!(config.database_url(), "postgres://elsewhere/x");
}

#[test]
fn numeric_parsing_matches_the_standard_library() {
    let cases = ["0", "-17", "+250", "2147483647", "2147483648", "", "1a", "-"];
    for c in cases {
        let chars: Vec<char> = c.chars().collect();
        assert_eq!(memo_core::text::parse_i32_chars(&chars), c.parse::<i32>().ok(), "{}", c);
        assert_eq!(memo_core::text::parse_i64_chars(&chars), c.parse::<i64>().ok(), "{}", c);
    }
    assert_eq!(memo_core::text::i64_to_string(-42), "-42");
    assert_eq!(memo_core::text::i64_to_string(0), "0");
}

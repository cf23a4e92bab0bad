//! The key/value settings store: reads fall back to a key's default when the
//! stored value is empty or absent, and writes touch only existing rows.
//! The webhook token bootstrap and the data for the square announcement
//! call live here as well, as does the administrator gate.

use vstd::prelude::*;

use crate::auth::{spec_is_admin, AuthUser};
use crate::error::AppError;
use crate::model::{spec_admin_index, view_opt_string, Store, StoreV, SysConfig, SysConfigV};
use crate::text::{
    chars_of_str, is_true_config, spec_is_true_config, spec_split_commas, split_commas_chars,
    str_eq, string_from_chars,
};

verus! {

// ---------------------------------------------------------------------------
// reading
// ---------------------------------------------------------------------------

/// The value a read of this row yields: the stored value when non-empty,
/// the key's default otherwise (or empty when no default is set).
pub open spec fn spec_effective(c: SysConfigV) -> Seq<char> {
    match c.value {
        Some(v) => if v.len() > 0 {
            v
        } else {
            spec_default_of(c)
        },
        None => spec_default_of(c),
    }
}

pub open spec fn spec_default_of(c: SysConfigV) -> Seq<char> {
    match c.default_value {
        Some(d) => d,
        None => Seq::empty(),
    }
}

/// The index of the first settings row with this key.
pub open spec fn spec_config_index(configs: Seq<SysConfigV>, key: Seq<char>) -> Option<int>
    decreases configs.len(),
{
    if configs.len() == 0 {
        None
    } else if configs[0].key == key {
        Some(0)
    } else {
        match spec_config_index(configs.drop_first(), key) {
            Some(i) => Some(i + 1),
            None => None,
        }
    }
}

/// What a read of `key` yields: the effective value of its row, or nothing
/// when the key has no row.
pub open spec fn spec_get_string(configs: Seq<SysConfigV>, key: Seq<char>) -> Option<Seq<char>> {
    match spec_config_index(configs, key) {
        Some(i) => Some(spec_effective(configs[i])),
        None => None,
    }
}

/// The boolean reading of a key: whether its effective value lowercases to
/// `"true"`; an absent key reads as false.
pub open spec fn spec_get_boolean(configs: Seq<SysConfigV>, key: Seq<char>) -> bool {
    match spec_get_string(configs, key) {
        Some(v) => spec_is_true_config(v),
        None => false,
    }
}

proof fn lemma_config_index_first(configs: Seq<SysConfigV>, key: Seq<char>, i: int)
    requires
        0 <= i < configs.len(),
        configs[i].key == key,
        forall|j: int| 0 <= j < i ==> (#[trigger] configs[j]).key != key,
    ensures
        spec_config_index(configs, key) == Some(i),
    decreases configs.len(),
{
    if i > 0 {
        assert(configs[0].key != key);
        assert(configs.drop_first()[i - 1].key == key);
        assert(forall|j: int| 0 <= j < i - 1 ==> (#[trigger] configs.drop_first()[j]).key
            != key) by {
            assert(forall|j: int| 0 <= j < i - 1 ==> configs.drop_first()[j] == configs[j + 1]);
        }
        lemma_config_index_first(configs.drop_first(), key, i - 1);
    }
}

proof fn lemma_config_index_none(configs: Seq<SysConfigV>, key: Seq<char>)
    requires
        forall|j: int| 0 <= j < configs.len() ==> (#[trigger] configs[j]).key != key,
    ensures
        spec_config_index(configs, key) is None,
    decreases configs.len(),
{
    if configs.len() > 0 {
        assert(forall|j: int| 0 <= j < configs.len() - 1 ==> (
        #[trigger] configs.drop_first()[j]).key != key) by {
            assert(forall|j: int| 0 <= j < configs.len() - 1 ==> configs.drop_first()[j]
                == configs[j + 1]);
        }
        lemma_config_index_none(configs.drop_first(), key);
    }
}

impl Store {
    /// The index of the first settings row with this key.
    pub fn find_config_idx(&self, key: &str) -> (r: Option<usize>)
        ensures
            match r {
                Some(i) => i < self@.configs.len() && spec_config_index(self@.configs, key@)
                    == Some(i as int),
                None => spec_config_index(self@.configs, key@) is None,
            },
    {
        let mut i: usize = 0;
        while i < self.configs.len()
            invariant
                i <= self@.configs.len(),
                self@.configs.len() == self.configs@.len(),
                forall|j: int| 0 <= j < i ==> (#[trigger] self@.configs[j]).key != key@,
            decreases self@.configs.len() - i,
        {
            if str_eq(self.configs[i].key.as_str(), key) {
                assert(self@.configs[i as int].key == key@);
                proof {
                    lemma_config_index_first(self@.configs, key@, i as int);
                }
                return Some(i);
            }
            assert(self@.configs[i as int].key != key@);
            i = i + 1;
        }
        proof {
            lemma_config_index_none(self@.configs, key@);
        }
        None
    }
}

/// The stored value of `key`, falling back to the key's default when the
/// stored value is empty or absent; `None` when the key has no row.
pub fn get_string(store: &Store, key: &str) -> (r: Option<String>)
    ensures
        view_opt_string(r) == spec_get_string(store@.configs, key@),
{
    match store.find_config_idx(key) {
        None => None,
        Some(i) => {
            let row = &store.configs[i];
            match &row.value {
                Some(v) => {
                    if !v.as_str().is_empty() {
                        Some(v.clone())
                    } else {
                        default_or_empty(&row.default_value)
                    }
                },
                None => default_or_empty(&row.default_value),
            }
        },
    }
}

fn default_or_empty(d: &Option<String>) -> (r: Option<String>)
    ensures
        view_opt_string(r) == Some(
            match view_opt_string(*d) {
                Some(s) => s,
                None => Seq::<char>::empty(),
            },
        ),
{
    match d {
        Some(s) => Some(s.clone()),
        None => {
            let empty: Vec<char> = Vec::new();
            Some(string_from_chars(&empty))
        },
    }
}

/// Whether the effective value of `key` reads as true.
pub fn get_boolean(store: &Store, key: &str) -> (r: bool)
    ensures
        r == spec_get_boolean(store@.configs, key@),
{
    match get_string(store, key) {
        Some(v) => {
            let chars = chars_of_str(v.as_str());
            is_true_config(&chars)
        },
        None => false,
    }
}

/// The configured CORS domain list, read with the usual fallback rule.
pub fn get_cors_domain_list(store: &Store) -> (r: Option<String>)
    ensures
        view_opt_string(r) == spec_get_string(store@.configs, "CORS_DOMAIN_LIST"@),
{
    get_string(store, "CORS_DOMAIN_LIST")
}

// ---------------------------------------------------------------------------
// the administrator gate
// ---------------------------------------------------------------------------

/// Rejects any principal that does not hold the administrator role.
pub fn require_admin(auth: &AuthUser) -> (r: Result<(), AppError>)
    ensures
        r is Ok <==> spec_is_admin(auth@),
        r matches Err(e) ==> e.spec_code() == 3,
{
    if opt_is_admin(&auth.role) {
        Ok(())
    } else {
        Err(AppError::need_login())
    }
}

fn opt_is_admin(role: &Option<String>) -> (r: bool)
    ensures
        r == (view_opt_string(*role) == Some("ADMIN"@)),
{
    match role {
        Some(s) => str_eq(s.as_str(), "ADMIN"),
        None => false,
    }
}

// ---------------------------------------------------------------------------
// writing
// ---------------------------------------------------------------------------

/// A settings row as callers see it: the key and its effective value
/// (`None` only when both the stored value is absent or empty and no
/// default exists... the default itself may be absent).
pub struct SysConfigDto {
    pub key: String,
    pub value: Option<String>,
}

pub struct SysConfigDtoV {
    pub key: Seq<char>,
    pub value: Option<Seq<char>>,
}

impl View for SysConfigDto {
    type V = SysConfigDtoV;

    open spec fn view(&self) -> SysConfigDtoV {
        SysConfigDtoV { key: self.key@, value: view_opt_string(self.value) }
    }
}

/// The row a read-out presents: the stored value when non-empty, else the
/// default, which may itself be absent.
pub open spec fn spec_config_dto(c: SysConfigV) -> SysConfigDtoV {
    SysConfigDtoV {
        key: c.key,
        value: match c.value {
            Some(v) => if v.len() > 0 {
                Some(v)
            } else {
                c.default_value
            },
            None => c.default_value,
        },
    }
}

/// The read-out of one settings row.
pub fn to_dto(row: &SysConfig) -> (r: SysConfigDto)
    ensures
        r@ == spec_config_dto(row@),
{
    let value: Option<String> = match &row.value {
        Some(v) => {
            if !v.as_str().is_empty() {
                Some(v.clone())
            } else {
                clone_opt(&row.default_value)
            }
        },
        None => clone_opt(&row.default_value),
    };
    SysConfigDto { key: row.key.clone(), value }
}

fn clone_opt(o: &Option<String>) -> (r: Option<String>)
    ensures
        view_opt_string(r) == view_opt_string(*o),
{
    match o {
        Some(s) => Some(s.clone()),
        None => None,
    }
}

/// Settings rows after one batch of writes is applied in order: each item
/// overwrites the stored value of its key's row; a key without a row stops
/// the batch there, everything before it already applied.
pub open spec fn spec_apply_configs(
    configs: Seq<SysConfigV>,
    items: Seq<SysConfigDtoV>,
) -> (Seq<SysConfigV>, bool)
    decreases items.len(),
{
    if items.len() == 0 {
        (configs, true)
    } else {
        match spec_config_index(configs, items[0].key) {
            Some(i) => spec_apply_configs(
                configs.update(
                    i,
                    SysConfigV {
                        key: configs[i].key,
                        value: items[0].value,
                        default_value: configs[i].default_value,
                    },
                ),
                items.drop_first(),
            ),
            None => (configs, false),
        }
    }
}

/// One batch of settings writes, applied in order; a key without a row
/// aborts the batch at that point with an infrastructure failure, earlier
/// writes kept, as a sequence of single-row updates behaves.
fn apply_config_items(store: &mut Store, items: &Vec<SysConfigDto>) -> (r: Result<
    (),
    AppError,
>)
    ensures
        ({
            let applied = spec_apply_configs(
                old(store)@.configs,
                items@.map_values(|d: SysConfigDto| d@),
            );
            &&& final(store)@ == (StoreV { configs: applied.0, ..old(store)@ })
            &&& (r is Ok <==> applied.1)
            &&& (r matches Err(e) ==> e.spec_code() == 99)
        }),
{
    let ghost itemsv = items@.map_values(|d: SysConfigDto| d@);
    assert(itemsv.skip(0) =~= itemsv);
    let mut i: usize = 0;
    while i < items.len()
        invariant
            i <= items@.len(),
            itemsv == items@.map_values(|d: SysConfigDto| d@),
            spec_apply_configs(old(store)@.configs, itemsv) == spec_apply_configs(
                store@.configs,
                itemsv.skip(i as int),
            ),
            store@ == (StoreV { configs: store@.configs, ..old(store)@ }),
        decreases items@.len() - i,
    {
        let ghost pre_configs = store@.configs;
        let ghost rest = itemsv.skip(i as int);
        proof {
            assert(rest[0] == itemsv[i as int]);
            assert(rest.drop_first() =~= itemsv.skip(i + 1));
        }
        let item = &items[i];
        assert(item@ == itemsv[i as int]);
        match store.find_config_idx(item.key.as_str()) {
            Some(idx) => {
                let new_value = clone_opt(&item.value);
                let old_key = store.configs[idx].key.clone();
                let old_default = clone_opt(&store.configs[idx].default_value);
                let new_row = SysConfig {
                    key: old_key,
                    value: new_value,
                    default_value: old_default,
                };
                assert(new_row@ == (SysConfigV {
                    key: pre_configs[idx as int].key,
                    value: itemsv[i as int].value,
                    default_value: pre_configs[idx as int].default_value,
                }));
                store.configs[idx] = new_row;
                proof {
                    assert(store@.configs =~= pre_configs.update(idx as int, new_row@));
                    assert(store@ =~~= (StoreV { configs: store@.configs, ..old(store)@ }));
                }
            },
            None => {
                assert(spec_apply_configs(store@.configs, rest).0 =~= store@.configs);
                assert(spec_apply_configs(store@.configs, rest).1 == false);
                return Err(AppError::system_exception());
            },
        }
        i = i + 1;
    }
    proof {
        assert(itemsv.skip(itemsv.len() as int) =~= Seq::<SysConfigDtoV>::empty());
    }
    Ok(())
}

/// Overwrites the stored values of the given keys, administrators only.
/// Writes are applied in order; a key without a row aborts the batch at
/// that point with an infrastructure failure, earlier writes kept, as a
/// sequence of single-row updates behaves.
pub fn save_configs(
    store: &mut Store,
    auth: &AuthUser,
    items: Option<Vec<SysConfigDto>>,
) -> (r: Result<(), AppError>)
    ensures
        !spec_is_admin(auth@) ==> (r matches Err(e) && e.spec_code() == 3 && final(store)@
            == old(store)@),
        spec_is_admin(auth@) && items is None ==> (r matches Err(e) && e.spec_code() == 1
            && final(store)@ == old(store)@),
        spec_is_admin(auth@) && items is Some ==> ({
            let applied = spec_apply_configs(
                old(store)@.configs,
                items->0@.map_values(|d: SysConfigDto| d@),
            );
            &&& final(store)@ == (StoreV { configs: applied.0, ..old(store)@ })
            &&& (r is Ok <==> applied.1)
            &&& (r matches Err(e) ==> e.spec_code() == 99)
        }),
{
    if let Err(e) = require_admin(auth) {
        assert(store@ =~~= old(store)@);
        return Err(e);
    }
    let items = match items {
        Some(its) => its,
        None => {
            assert(store@ =~~= old(store)@);
            return Err(AppError::param_error("items must not be null"));
        },
    };
    apply_config_items(store, &items)
}

} // verus!

verus! {

// ---------------------------------------------------------------------------
// webhook token bootstrap
// ---------------------------------------------------------------------------

/// What base64's standard alphabet makes of a byte string; a function of
/// the bytes alone.
pub uninterp spec fn base64_std_of(bytes: Seq<u8>) -> Seq<char>;

/// Relies on base64's `STANDARD` engine: the padded standard-alphabet
/// encoding of exactly these bytes.
#[verifier::external_body]
fn base64_std(bytes: &Vec<u8>) -> (r: String)
    ensures
        r@ == base64_std_of(bytes@),
{
    base64::Engine::encode(&base64::engine::general_purpose::STANDARD, bytes.as_slice())
}

/// Seeds the webhook token when none is configured: if the key reads as
/// absent or empty, its row (when present) is overwritten with the
/// standard base64 encoding of the given fresh bytes; otherwise nothing
/// changes.
pub fn init_webhook_token(store: &mut Store, bytes: &Vec<u8>)
    ensures
        ({
            let tok = spec_get_string(old(store)@.configs, "WEB_HOOK_TOKEN"@);
            if tok is None || tok->0.len() == 0 {
                match spec_config_index(old(store)@.configs, "WEB_HOOK_TOKEN"@) {
                    Some(i) => final(store)@ == (StoreV {
                        configs: old(store)@.configs.update(
                            i,
                            SysConfigV {
                                key: old(store)@.configs[i].key,
                                value: Some(base64_std_of(bytes@)),
                                default_value: old(store)@.configs[i].default_value,
                            },
                        ),
                        ..old(store)@
                    }),
                    None => final(store)@ == old(store)@,
                }
            } else {
                final(store)@ == old(store)@
            }
        }),
{
    let needs = match get_string(store, "WEB_HOOK_TOKEN") {
        None => true,
        Some(v) => v.as_str().is_empty(),
    };
    if !needs {
        assert(store@ =~~= old(store)@);
        return ;
    }
    match store.find_config_idx("WEB_HOOK_TOKEN") {
        None => {
            assert(store@ =~~= old(store)@);
        },
        Some(idx) => {
            let ghost pre_configs = store@.configs;
            let encoded = base64_std(bytes);
            let old_key = store.configs[idx].key.clone();
            let old_default = clone_opt(&store.configs[idx].default_value);
            let new_row = SysConfig {
                key: old_key,
                value: Some(encoded),
                default_value: old_default,
            };
            store.configs[idx] = new_row;
            proof {
                assert(store@.configs =~= pre_configs.update(idx as int, new_row@));
                assert(store@ =~~= (StoreV { configs: store@.configs, ..old(store)@ }));
            }
        },
    }
}

// ---------------------------------------------------------------------------
// read-outs
// ---------------------------------------------------------------------------

/// Whether a key is part of the public front-end configuration.
pub open spec fn spec_front_key(k: Seq<char>) -> bool {
    ||| k == "OPEN_REGISTER"@
    ||| k == "WEBSITE_TITLE"@
    ||| k == "OPEN_COMMENT"@
    ||| k == "OPEN_LIKE"@
    ||| k == "MEMO_MAX_LENGTH"@
    ||| k == "INDEX_WIDTH"@
    ||| k == "USER_MODEL"@
    ||| k == "CUSTOM_CSS"@
    ||| k == "CUSTOM_JAVASCRIPT"@
    ||| k == "THUMBNAIL_SIZE"@
    ||| k == "ANONYMOUS_COMMENT"@
    ||| k == "COMMENT_APPROVED"@
}

pub open spec fn front_key_filter() -> spec_fn(SysConfigV) -> bool {
    |c: SysConfigV| spec_front_key(c.key)
}

fn is_front_key(k: &str) -> (r: bool)
    ensures
        r == spec_front_key(k@),
{
    str_eq(k, "OPEN_REGISTER") || str_eq(k, "WEBSITE_TITLE") || str_eq(k, "OPEN_COMMENT")
        || str_eq(k, "OPEN_LIKE") || str_eq(k, "MEMO_MAX_LENGTH") || str_eq(k, "INDEX_WIDTH")
        || str_eq(k, "USER_MODEL") || str_eq(k, "CUSTOM_CSS") || str_eq(k, "CUSTOM_JAVASCRIPT")
        || str_eq(k, "THUMBNAIL_SIZE") || str_eq(k, "ANONYMOUS_COMMENT") || str_eq(
        k,
        "COMMENT_APPROVED",
    )
}

/// The public front-end configuration: the rows whose keys the front end
/// may read, in table order, each with its effective value.
pub fn front_config(store: &Store) -> (r: Vec<SysConfigDto>)
    ensures
        r@.map_values(|d: SysConfigDto| d@) == crate::text::seq_filter(
            store@.configs,
            front_key_filter(),
        ).map_values(|c: SysConfigV| spec_config_dto(c)),
{
    let ghost cv = store@.configs;
    let mut out: Vec<SysConfigDto> = Vec::new();
    let mut i: usize = 0;
    while i < store.configs.len()
        invariant
            i <= cv.len(),
            cv == store@.configs,
            store@.configs.len() == store.configs@.len(),
            out@.map_values(|d: SysConfigDto| d@) == crate::text::seq_filter(
                cv.subrange(0, i as int),
                front_key_filter(),
            ).map_values(|c: SysConfigV| spec_config_dto(c)),
        decreases cv.len() - i,
    {
        let ghost pre = cv.subrange(0, i as int);
        let ghost pre2 = cv.subrange(0, i + 1);
        proof {
            assert(pre2.drop_last() =~= pre);
            assert(pre2.last() == cv[i as int]);
        }
        let row = &store.configs[i];
        assert(row@ == cv[i as int]);
        if is_front_key(row.key.as_str()) {
            assert((front_key_filter())(cv[i as int]));
            let dto = to_dto(row);
            out.push(dto);
            assert(out@.map_values(|d: SysConfigDto| d@) =~= crate::text::seq_filter(
                pre,
                front_key_filter(),
            ).map_values(|c: SysConfigV| spec_config_dto(c)).push(spec_config_dto(
                cv[i as int],
            )));
            assert(crate::text::seq_filter(pre2, front_key_filter()).map_values(
                |c: SysConfigV| spec_config_dto(c),
            ) =~= crate::text::seq_filter(pre, front_key_filter()).map_values(
                |c: SysConfigV| spec_config_dto(c),
            ).push(spec_config_dto(cv[i as int])));
        } else {
            assert(!(front_key_filter())(cv[i as int]));
            assert(crate::text::seq_filter(pre2, front_key_filter()) == crate::text::seq_filter(
                pre,
                front_key_filter(),
            ));
        }
        i = i + 1;
    }
    assert(cv.subrange(0, cv.len() as int) =~= cv);
    out
}

/// Every settings row with its effective value, administrators only.
pub fn all_configs(store: &Store, auth: &AuthUser) -> (r: Result<Vec<SysConfigDto>, AppError>)
    ensures
        r matches Ok(list) ==> spec_is_admin(auth@) && list@.map_values(|d: SysConfigDto| d@)
            == store@.configs.map_values(|c: SysConfigV| spec_config_dto(c)),
        r matches Err(e) ==> !spec_is_admin(auth@) && e.spec_code() == 3,
{
    if let Err(e) = require_admin(auth) {
        return Err(e);
    }
    let ghost cv = store@.configs;
    let mut out: Vec<SysConfigDto> = Vec::new();
    let mut i: usize = 0;
    while i < store.configs.len()
        invariant
            i <= cv.len(),
            cv == store@.configs,
            store@.configs.len() == store.configs@.len(),
            out@.len() == i,
            forall|j: int| 0 <= j < i ==> (#[trigger] out@[j])@ == spec_config_dto(cv[j]),
        decreases cv.len() - i,
    {
        let row = &store.configs[i];
        assert(row@ == cv[i as int]);
        let dto = to_dto(row);
        out.push(dto);
        i = i + 1;
    }
    assert(out@.map_values(|d: SysConfigDto| d@) =~= cv.map_values(
        |c: SysConfigV| spec_config_dto(c),
    ));
    Ok(out)
}

// ---------------------------------------------------------------------------
// the square announcement
// ---------------------------------------------------------------------------

/// The body of the announcement posted to the official square when the
/// administrator turns the feature on.
pub struct SquarePush {
    pub token: String,
    pub author: String,
    pub avatar_url: Option<String>,
    pub website: Option<String>,
}

pub struct SquarePushV {
    pub token: Seq<char>,
    pub author: Seq<char>,
    pub avatar_url: Option<Seq<char>>,
    pub website: Option<Seq<char>>,
}

impl View for SquarePush {
    type V = SquarePushV;

    open spec fn view(&self) -> SquarePushV {
        SquarePushV {
            token: self.token@,
            author: self.author@,
            avatar_url: view_opt_string(self.avatar_url),
            website: view_opt_string(self.website),
        }
    }
}

/// The value an incoming batch carries for `key`, if any item names it.
pub open spec fn spec_item_value(items: Seq<SysConfigDtoV>, key: Seq<char>) -> Option<
    Option<Seq<char>>,
>
    decreases items.len(),
{
    if items.len() == 0 {
        None
    } else if items[0].key == key {
        Some(items[0].value)
    } else {
        spec_item_value(items.drop_first(), key)
    }
}

/// Whether a batch of settings writes turns the square announcement on.
pub open spec fn spec_wants_square_push(items: Seq<SysConfigDtoV>) -> bool {
    exists|i: int| 0 <= i < items.len() && (#[trigger] items[i]).key
        == "PUSH_OFFICIAL_SQUARE"@ && items[i].value == Some("true"@)
}

pub fn wants_square_push(items: &Vec<SysConfigDto>) -> (r: bool)
    ensures
        r == spec_wants_square_push(items@.map_values(|d: SysConfigDto| d@)),
{
    let ghost iv = items@.map_values(|d: SysConfigDto| d@);
    let mut i: usize = 0;
    while i < items.len()
        invariant
            i <= iv.len(),
            iv == items@.map_values(|d: SysConfigDto| d@),
            forall|j: int| 0 <= j < i ==> !((#[trigger] iv[j]).key == "PUSH_OFFICIAL_SQUARE"@
                && iv[j].value == Some("true"@)),
        decreases iv.len() - i,
    {
        let item = &items[i];
        assert(item@ == iv[i as int]);
        if str_eq(item.key.as_str(), "PUSH_OFFICIAL_SQUARE") {
            let matched = match &item.value {
                Some(v) => str_eq(v.as_str(), "true"),
                None => false,
            };
            if matched {
                assert(iv[i as int].key == "PUSH_OFFICIAL_SQUARE"@ && iv[i as int].value
                    == Some("true"@));
                return true;
            }
        }
        i = i + 1;
    }
    false
}

fn find_item_value(items: &Vec<SysConfigDto>, key: &str) -> (r: Option<Option<String>>)
    ensures
        ({
            let spec = spec_item_value(items@.map_values(|d: SysConfigDto| d@), key@);
            match r {
                Some(v) => spec == Some(view_opt_string(v)),
                None => spec is None,
            }
        }),
{
    let ghost iv = items@.map_values(|d: SysConfigDto| d@);
    assert(iv.skip(0) =~= iv);
    let mut i: usize = 0;
    while i < items.len()
        invariant
            i <= iv.len(),
            iv == items@.map_values(|d: SysConfigDto| d@),
            spec_item_value(iv, key@) == spec_item_value(iv.skip(i as int), key@),
        decreases iv.len() - i,
    {
        let ghost rest = iv.skip(i as int);
        proof {
            assert(rest[0] == iv[i as int]);
            assert(rest.drop_first() =~= iv.skip(i + 1));
        }
        let item = &items[i];
        assert(item@ == iv[i as int]);
        if str_eq(item.key.as_str(), key) {
            return Some(clone_opt(&item.value));
        }
        i = i + 1;
    }
    proof {
        assert(iv.skip(iv.len() as int) =~= Seq::<SysConfigDtoV>::empty());
    }
    None
}

/// What the square announcement should say: the administrator's display
/// name (or username), avatar, the site address, and the shared webhook
/// token. The address is the batch's domain when the service runs
/// embedded, else the first entry of the batch's CORS domain list. Fails
/// when no administrator exists.
pub fn build_square_push(
    store: &Store,
    items: &Vec<SysConfigDto>,
    embed: &str,
    token: &str,
) -> (r: Result<SquarePush, AppError>)
    ensures
        spec_admin_index(store@.users) is None ==> (r matches Err(e) && e.spec_code() == 2),
        spec_admin_index(store@.users) matches Some(ai) ==> (r matches Ok(p) && {
            let admin = store@.users[ai];
            let itemsv = items@.map_values(|d: SysConfigDto| d@);
            let backend_domain = match spec_item_value(itemsv, "DOMAIN"@) {
                Some(v) => v,
                None => None,
            };
            let cors_domain = match spec_item_value(itemsv, "CORS_DOMAIN_LIST"@) {
                Some(v) => v,
                None => None,
            };
            &&& p@.token == token@
            &&& p@.author == (match admin.display_name {
                Some(d) => d,
                None => admin.username,
            })
            &&& p@.avatar_url == admin.avatar_url
            &&& p@.website == (if embed@.len() > 0 {
                backend_domain
            } else {
                match cors_domain {
                    Some(c) => Some(spec_split_commas(c)[0]),
                    None => None,
                }
            })
        }),
{
    let ai = match store.find_admin_idx() {
        Some(i) => i,
        None => {
            return Err(AppError::fail("管理员不存在"));
        },
    };
    let admin = &store.users[ai];
    let backend_domain = match find_item_value(items, "DOMAIN") {
        Some(v) => v,
        None => None,
    };
    let cors_domain = match find_item_value(items, "CORS_DOMAIN_LIST") {
        Some(v) => v,
        None => None,
    };
    let website: Option<String> = if !embed.is_empty() {
        backend_domain
    } else {
        match cors_domain {
            Some(c) => {
                let chars = chars_of_str(c.as_str());
                let toks = split_commas_chars(&chars);
                proof {
                    crate::text::lemma_split_commas_acc_len(c@, Seq::empty());
                    assert(toks@.map_values(|t: Vec<char>| t@).len() == toks@.len());
                }
                assert(toks@.map_values(|t: Vec<char>| t@)[0] == spec_split_commas(c@)[0]);
                Some(string_from_chars(&toks[0]))
            },
            None => None,
        }
    };
    let author = match &admin.display_name {
        Some(d) => d.clone(),
        None => admin.username.clone(),
    };
    Ok(SquarePush {
        token: token.to_owned(),
        author,
        avatar_url: clone_opt(&admin.avatar_url),
        website,
    })
}

} // verus!

//! Accounts: registration behind its switch, login against the stored
//! password hash with a freshly signed web credential, self-service
//! profile updates, the public read-outs, and the per-user activity
//! counts.

use vstd::prelude::*;

use crate::auth::{jwt_token_of, AuthUser, OptionalAuthUser};
use crate::error::AppError;
use crate::model::{
    clone_opt_string, spec_admin_index, spec_user_index, view_opt_string, Store, StoreV, User,
    UserV,
};
use crate::text::{chars_of_str, contains_sub, str_eq, trimmed_empty};

verus! {

// ---------------------------------------------------------------------------
// password hashing
// ---------------------------------------------------------------------------

/// Relies on bcrypt's `hash`: a salted hash of the password at the given
/// cost. The salt is drawn from the operating system, so nothing relates
/// two calls; `verify` against the result is what gives it meaning.
#[verifier::external_body]
fn bcrypt_hash(password: &str, cost: u32) -> (r: Option<String>)
{
    bcrypt::hash(password, cost).ok()
}

/// Whether this password matches this stored hash, as bcrypt decides it;
/// a function of the two texts alone. `None` when the hash is malformed.
pub uninterp spec fn bcrypt_verify_of(password: Seq<char>, hash: Seq<char>) -> Option<bool>;

/// Relies on bcrypt's `verify`: whether the password matches the stored
/// hash; `None` when the stored hash cannot be read.
#[verifier::external_body]
fn bcrypt_verify(password: &str, hash: &str) -> (r: Option<bool>)
    ensures
        r == bcrypt_verify_of(password@, hash@),
{
    bcrypt::verify(password, hash).ok()
}

// ---------------------------------------------------------------------------
// registration
// ---------------------------------------------------------------------------

/// A registration as a caller submits it.
pub struct RegisterUserRequest {
    pub username: Option<String>,
    pub password: Option<String>,
    pub display_name: Option<String>,
    pub email: Option<String>,
    pub bio: Option<String>,
}

pub struct RegisterUserRequestV {
    pub username: Option<Seq<char>>,
    pub password: Option<Seq<char>>,
    pub display_name: Option<Seq<char>>,
    pub email: Option<Seq<char>>,
    pub bio: Option<Seq<char>>,
}

impl View for RegisterUserRequest {
    type V = RegisterUserRequestV;

    open spec fn view(&self) -> RegisterUserRequestV {
        RegisterUserRequestV {
            username: view_opt_string(self.username),
            password: view_opt_string(self.password),
            display_name: view_opt_string(self.display_name),
            email: view_opt_string(self.email),
            bio: view_opt_string(self.bio),
        }
    }
}

pub open spec fn spec_opt_or_empty_str(o: Option<Seq<char>>) -> Seq<char> {
    match o {
        Some(s) => s,
        None => Seq::empty(),
    }
}

/// The index of the first user row with this username.
pub open spec fn spec_username_index(users: Seq<UserV>, name: Seq<char>) -> Option<int>
    decreases users.len(),
{
    if users.len() == 0 {
        None
    } else if users[0].username == name {
        Some(0)
    } else {
        match spec_username_index(users.drop_first(), name) {
            Some(i) => Some(i + 1),
            None => None,
        }
    }
}

proof fn lemma_username_index_first(users: Seq<UserV>, name: Seq<char>, i: int)
    requires
        0 <= i < users.len(),
        users[i].username == name,
        forall|j: int| 0 <= j < i ==> (#[trigger] users[j]).username != name,
    ensures
        spec_username_index(users, name) == Some(i),
    decreases users.len(),
{
    if i > 0 {
        assert(users.drop_first()[i - 1].username == name);
        assert(forall|j: int| 0 <= j < i - 1 ==> (#[trigger] users.drop_first()[j]).username
            != name) by {
            assert(forall|j: int| 0 <= j < i - 1 ==> users.drop_first()[j] == users[j + 1]);
        }
        lemma_username_index_first(users.drop_first(), name, i - 1);
    }
}

proof fn lemma_username_index_none(users: Seq<UserV>, name: Seq<char>)
    requires
        forall|j: int| 0 <= j < users.len() ==> (#[trigger] users[j]).username != name,
    ensures
        spec_username_index(users, name) is None,
    decreases users.len(),
{
    if users.len() > 0 {
        assert(forall|j: int| 0 <= j < users.len() - 1 ==> (
        #[trigger] users.drop_first()[j]).username != name) by {
            assert(forall|j: int| 0 <= j < users.len() - 1 ==> users.drop_first()[j] == users[j
                + 1]);
        }
        lemma_username_index_none(users.drop_first(), name);
    }
}

impl Store {
    fn find_username_idx(&self, name: &str) -> (r: Option<usize>)
        ensures
            match r {
                Some(i) => i < self@.users.len() && spec_username_index(self@.users, name@)
                    == Some(i as int),
                None => spec_username_index(self@.users, name@) is None,
            },
    {
        let mut i: usize = 0;
        while i < self.users.len()
            invariant
                i <= self@.users.len(),
                self@.users.len() == self.users@.len(),
                forall|j: int| 0 <= j < i ==> (#[trigger] self@.users[j]).username != name@,
            decreases self@.users.len() - i,
        {
            let row = &self.users[i];
            assert(row@ == self@.users[i as int]);
            if str_eq(row.username.as_str(), name) {
                proof {
                    lemma_username_index_first(self@.users, name@, i as int);
                }
                return Some(i);
            }
            i = i + 1;
        }
        proof {
            lemma_username_index_none(self@.users, name@);
        }
        None
    }

    /// Registers an account: the name and password must have substance,
    /// registration must be open, and the username must be free. The
    /// stored hash is salted, so the contract pins every field of the new
    /// row but that one.
    pub fn register_user(&mut self, req: &RegisterUserRequest, now: i64) -> (r: Result<
        (),
        AppError,
    >)
        requires
            old(self)@.wf(),
        ensures
            ({
                let s = old(self)@;
                let uname = spec_opt_or_empty_str(req@.username);
                let pword = spec_opt_or_empty_str(req@.password);
                let open = crate::settings::spec_get_boolean(s.configs, "OPEN_REGISTER"@);
                let taken = spec_username_index(s.users, uname) is Some;
                &&& (crate::text::spec_trim(uname).len() == 0 ==> (r matches Err(e)
                    && e.spec_code() == 1 && final(self)@ == s))
                &&& (crate::text::spec_trim(uname).len() > 0 && crate::text::spec_trim(
                    pword,
                ).len() == 0 ==> (r matches Err(e) && e.spec_code() == 1 && final(self)@ == s))
                &&& (crate::text::spec_trim(uname).len() > 0 && crate::text::spec_trim(
                    pword,
                ).len() > 0 && !open ==> (r matches Err(e) && e.spec_code() == 2
                    && e.spec_msg() == "当前不允许注册"@ && final(self)@ == s))
                &&& (crate::text::spec_trim(uname).len() > 0 && crate::text::spec_trim(
                    pword,
                ).len() > 0 && open && taken ==> (r matches Err(e) && e.spec_code() == 2
                    && e.spec_msg() == "用户名或昵称已存在"@ && final(self)@ == s))
                &&& ((crate::text::spec_trim(uname).len() > 0 && crate::text::spec_trim(
                    pword,
                ).len() > 0 && open && !taken && s.next_user_id < i32::MAX) ==> (r is Ok || (
                r matches Err(e) && e.spec_code() == 99 && final(self)@ == s)))
                &&& (r is Ok ==> ({
                    let u = final(self)@.users[s.users.len() as int];
                    &&& final(self)@ == (StoreV {
                        users: s.users.push(u),
                        next_user_id: (s.next_user_id + 1) as i32,
                        ..s
                    })
                    &&& u.id == s.next_user_id
                    &&& u.username == uname
                    &&& u.email == req@.email
                    &&& u.bio == req@.bio
                    &&& u.display_name == Some(
                        match req@.display_name {
                            Some(d) => if crate::text::spec_trim(d).len() > 0 {
                                d
                            } else {
                                uname
                            },
                            None => uname,
                        },
                    )
                    &&& u.created == Some(now)
                    &&& u.updated == Some(now)
                    &&& u.role is None
                    &&& u.avatar_url is None
                    &&& u.last_clicked_mentioned is None
                    &&& u.default_visibility is None
                    &&& u.default_enable_comment is None
                }))
                &&& final(self)@.wf()
            }),
    {
        let username: String = match &req.username {
            Some(u) => u.clone(),
            None => crate::model::empty_string(),
        };
        let password: String = match &req.password {
            Some(p) => p.clone(),
            None => crate::model::empty_string(),
        };
        let uc = chars_of_str(username.as_str());
        if trimmed_empty(&uc) {
            assert(self@ =~~= old(self)@);
            return Err(AppError::param_error("username cannot be null"));
        }
        let pc = chars_of_str(password.as_str());
        if trimmed_empty(&pc) {
            assert(self@ =~~= old(self)@);
            return Err(AppError::param_error("password cannot be null"));
        }
        if !crate::settings::get_boolean(self, "OPEN_REGISTER") {
            assert(self@ =~~= old(self)@);
            return Err(AppError::fail("当前不允许注册"));
        }
        if self.find_username_idx(username.as_str()).is_some() {
            assert(self@ =~~= old(self)@);
            return Err(AppError::fail("用户名或昵称已存在"));
        }
        if self.next_user_id == i32::MAX {
            assert(self@ =~~= old(self)@);
            return Err(AppError::system_exception());
        }
        let display_name: String = match &req.display_name {
            Some(d) => {
                let dc = chars_of_str(d.as_str());
                if trimmed_empty(&dc) {
                    username.clone()
                } else {
                    d.clone()
                }
            },
            None => username.clone(),
        };
        let hash = match bcrypt_hash(password.as_str(), 10) {
            Some(h) => h,
            None => {
                assert(self@ =~~= old(self)@);
                return Err(AppError::system_exception());
            },
        };
        let ghost s0 = self@;
        let id = self.next_user_id;
        let row = User {
            id,
            username,
            password_hash: hash,
            email: clone_opt_string(&req.email),
            display_name: Some(display_name),
            bio: clone_opt_string(&req.bio),
            created: Some(now),
            updated: Some(now),
            role: None,
            avatar_url: None,
            last_clicked_mentioned: None,
            default_visibility: None,
            default_enable_comment: None,
        };
        self.users.push(row);
        self.next_user_id = id + 1;
        proof {
            assert(self@.users =~= s0.users.push(self@.users[s0.users.len() as int]));
            assert(self@ =~~= (StoreV {
                users: self@.users,
                next_user_id: (s0.next_user_id + 1) as i32,
                ..s0
            }));
            assert(self@.ids_ok()) by {
                assert(forall|j: int| 0 <= j < s0.users.len() ==> (#[trigger] self@.users[j])
                    == s0.users[j]);
                assert(self@.users[s0.users.len() as int].id == id);
            }
            assert(self@.counters_ok());
        }
        Ok(())
    }
}

// ---------------------------------------------------------------------------
// login
// ---------------------------------------------------------------------------

/// What a successful login returns: the fresh web credential and the
/// user's public login fields.
#[derive(Debug)]
pub struct LoginResponse {
    pub token: String,
    pub username: String,
    pub role: Option<String>,
    pub user_id: i32,
    pub default_visibility: Option<String>,
    pub default_enable_comment: Option<String>,
}

impl Store {
    /// Logs a user in: the stored hash must match the password, and the
    /// response carries a freshly signed web credential for the account.
    pub fn login(&self, secret: &str, username: Option<String>, password: Option<String>, now: i64) -> (r:
        Result<LoginResponse, AppError>)
        requires
            now >= 0,
        ensures
            ({
                let s = self@;
                let uname = spec_opt_or_empty_str(view_opt_string(username));
                let pword = spec_opt_or_empty_str(view_opt_string(password));
                let uidx = spec_username_index(s.users, uname);
                &&& (crate::text::spec_trim(uname).len() == 0 ==> (r matches Err(e)
                    && e.spec_code() == 1))
                &&& ((crate::text::spec_trim(uname).len() > 0 && crate::text::spec_trim(
                    pword,
                ).len() == 0) ==> (r matches Err(e) && e.spec_code() == 1))
                &&& ((crate::text::spec_trim(uname).len() > 0 && crate::text::spec_trim(
                    pword,
                ).len() > 0 && uidx is None) ==> (r matches Err(e) && e.spec_code() == 2
                    && e.spec_msg() == "用户不存在"@))
                &&& ((crate::text::spec_trim(uname).len() > 0 && crate::text::spec_trim(
                    pword,
                ).len() > 0 && uidx is Some && bcrypt_verify_of(
                    pword,
                    s.users[uidx->0].password_hash,
                ) == Some(false)) ==> (r matches Err(e) && e.spec_code() == 2 && e.spec_msg()
                    == "密码不正确"@))
                &&& ((crate::text::spec_trim(uname).len() > 0 && crate::text::spec_trim(
                    pword,
                ).len() > 0 && uidx is Some && bcrypt_verify_of(
                    pword,
                    s.users[uidx->0].password_hash,
                ) is None) ==> (r matches Err(e) && e.spec_code() == 99))
                &&& ((crate::text::spec_trim(uname).len() > 0 && crate::text::spec_trim(
                    pword,
                ).len() > 0 && uidx is Some && bcrypt_verify_of(
                    pword,
                    s.users[uidx->0].password_hash,
                ) == Some(true)) ==> r is Ok)
                &&& (r matches Ok(resp) ==> ({
                    let u = s.users[uidx->0];
                    &&& uidx is Some
                    &&& bcrypt_verify_of(pword, u.password_hash) == Some(true)
                    &&& resp.token@ == jwt_token_of(
                        secret@,
                        u.id,
                        "WEB"@,
                        (now / 1000 + 3153600000) as u64,
                    )
                    &&& resp.username@ == uname
                    &&& view_opt_string(resp.role) == u.role
                    &&& resp.user_id == u.id
                    &&& view_opt_string(resp.default_visibility) == u.default_visibility
                    &&& view_opt_string(resp.default_enable_comment)
                        == u.default_enable_comment
                }))
            }),
    {
        let username: String = match username {
            Some(u) => u,
            None => crate::model::empty_string(),
        };
        let password: String = match password {
            Some(p) => p,
            None => crate::model::empty_string(),
        };
        let uc = chars_of_str(username.as_str());
        if trimmed_empty(&uc) {
            return Err(AppError::param_error("username cannot be null"));
        }
        let pc = chars_of_str(password.as_str());
        if trimmed_empty(&pc) {
            return Err(AppError::param_error("password cannot be null"));
        }
        let u = match self.find_username_idx(username.as_str()) {
            Some(i) => i,
            None => {
                return Err(AppError::fail("用户不存在"));
            },
        };
        let row = &self.users[u];
        let ok = match bcrypt_verify(password.as_str(), row.password_hash.as_str()) {
            Some(b) => b,
            None => {
                return Err(AppError::system_exception());
            },
        };
        if !ok {
            return Err(AppError::fail("密码不正确"));
        }
        let token = match crate::auth::generate_token(secret, row.id, "WEB", now) {
            Ok(t) => t,
            Err(e) => {
                return Err(e);
            },
        };
        Ok(
            LoginResponse {
                token,
                username,
                role: clone_opt_string(&row.role),
                user_id: row.id,
                default_visibility: clone_opt_string(&row.default_visibility),
                default_enable_comment: clone_opt_string(&row.default_enable_comment),
            },
        )
    }
}

} // verus!

verus! {

// ---------------------------------------------------------------------------
// profile updates
// ---------------------------------------------------------------------------

/// A self-service profile update; absent fields stay as they are.
pub struct UpdateUserRequest {
    pub display_name: Option<String>,
    pub email: Option<String>,
    pub bio: Option<String>,
    pub avatar_url: Option<String>,
    pub password: Option<String>,
    pub default_visibility: Option<String>,
    pub default_enable_comment: Option<String>,
}

pub struct UpdateUserRequestV {
    pub display_name: Option<Seq<char>>,
    pub email: Option<Seq<char>>,
    pub bio: Option<Seq<char>>,
    pub avatar_url: Option<Seq<char>>,
    pub password: Option<Seq<char>>,
    pub default_visibility: Option<Seq<char>>,
    pub default_enable_comment: Option<Seq<char>>,
}

impl View for UpdateUserRequest {
    type V = UpdateUserRequestV;

    open spec fn view(&self) -> UpdateUserRequestV {
        UpdateUserRequestV {
            display_name: view_opt_string(self.display_name),
            email: view_opt_string(self.email),
            bio: view_opt_string(self.bio),
            avatar_url: view_opt_string(self.avatar_url),
            password: view_opt_string(self.password),
            default_visibility: view_opt_string(self.default_visibility),
            default_enable_comment: view_opt_string(self.default_enable_comment),
        }
    }
}

pub open spec fn spec_opt_keep(new: Option<Seq<char>>, old: Option<Seq<char>>) -> Option<
    Seq<char>,
> {
    match new {
        Some(v) => Some(v),
        None => old,
    }
}

impl Store {
    /// Updates the acting user's profile: each submitted field replaces
    /// the stored one, a submitted password with substance is re-hashed
    /// (the salted hash itself is not pinned), and the update time moves.
    pub fn update_user(&mut self, auth: &AuthUser, req: &UpdateUserRequest, now: i64) -> (r:
        Result<(), AppError>)
        requires
            old(self)@.wf(),
        ensures
            ({
                let s = old(self)@;
                let uidx = spec_user_index(s.users, auth@.user_id);
                &&& (uidx is None ==> (r matches Err(e) && e.spec_code() == 99
                    && final(self)@ == s))
                &&& (uidx matches Some(k) ==> (r is Ok && ({
                    let u0 = s.users[k];
                    let u1 = final(self)@.users[k];
                    &&& final(self)@ == (StoreV {
                        users: s.users.update(k, u1),
                        ..s
                    })
                    &&& u1.id == u0.id
                    &&& u1.username == u0.username
                    &&& u1.updated == Some(now)
                    &&& u1.display_name == spec_opt_keep(req@.display_name, u0.display_name)
                    &&& u1.email == spec_opt_keep(req@.email, u0.email)
                    &&& u1.bio == spec_opt_keep(req@.bio, u0.bio)
                    &&& u1.avatar_url == spec_opt_keep(req@.avatar_url, u0.avatar_url)
                    &&& u1.default_visibility == spec_opt_keep(
                        req@.default_visibility,
                        u0.default_visibility,
                    )
                    &&& u1.default_enable_comment == spec_opt_keep(
                        req@.default_enable_comment,
                        u0.default_enable_comment,
                    )
                    &&& u1.created == u0.created
                    &&& u1.role == u0.role
                    &&& u1.last_clicked_mentioned == u0.last_clicked_mentioned
                    &&& ((match req@.password {
                        Some(p) => crate::text::spec_trim(p).len() == 0,
                        None => true,
                    }) ==> u1.password_hash == u0.password_hash)
                })))
                &&& final(self)@.wf()
            }),
    {
        let k = match self.find_user_idx(auth.user_id) {
            Some(k) => k,
            None => {
                assert(self@ =~~= old(self)@);
                return Err(AppError::system_exception());
            },
        };
        let row = &self.users[k];
        let password_hash: String = match &req.password {
            Some(p) => {
                let pch = chars_of_str(p.as_str());
                if trimmed_empty(&pch) {
                    row.password_hash.clone()
                } else {
                    match bcrypt_hash(p.as_str(), 10) {
                        Some(h) => h,
                        None => row.password_hash.clone(),
                    }
                }
            },
            None => row.password_hash.clone(),
        };
        let new_row = User {
            id: row.id,
            username: row.username.clone(),
            password_hash,
            email: match &req.email {
                Some(v) => Some(v.clone()),
                None => clone_opt_string(&row.email),
            },
            display_name: match &req.display_name {
                Some(v) => Some(v.clone()),
                None => clone_opt_string(&row.display_name),
            },
            bio: match &req.bio {
                Some(v) => Some(v.clone()),
                None => clone_opt_string(&row.bio),
            },
            created: row.created,
            updated: Some(now),
            role: clone_opt_string(&row.role),
            avatar_url: match &req.avatar_url {
                Some(v) => Some(v.clone()),
                None => clone_opt_string(&row.avatar_url),
            },
            last_clicked_mentioned: row.last_clicked_mentioned,
            default_visibility: match &req.default_visibility {
                Some(v) => Some(v.clone()),
                None => clone_opt_string(&row.default_visibility),
            },
            default_enable_comment: match &req.default_enable_comment {
                Some(v) => Some(v.clone()),
                None => clone_opt_string(&row.default_enable_comment),
            },
        };
        let ghost s0 = self@;
        self.users[k] = new_row;
        proof {
            assert(self@.users =~= s0.users.update(k as int, self@.users[k as int]));
            assert(self@ =~~= (StoreV {
                users: s0.users.update(k as int, self@.users[k as int]),
                ..s0
            }));
            assert(self@.ids_ok()) by {
                assert(forall|j: int| 0 <= j < s0.users.len() ==> (
                #[trigger] self@.users[j]).id == s0.users[j].id);
            }
            assert(self@.counters_ok());
        }
        Ok(())
    }
}

// ---------------------------------------------------------------------------
// read-outs
// ---------------------------------------------------------------------------

/// A user as responses carry one; timestamps rendered as RFC 3339 text.
pub struct UserDto {
    pub id: i32,
    pub username: String,
    pub email: Option<String>,
    pub display_name: Option<String>,
    pub bio: Option<String>,
    pub created: Option<String>,
    pub updated: Option<String>,
    pub role: Option<String>,
    pub avatar_url: Option<String>,
    pub default_visibility: Option<String>,
    pub default_enable_comment: Option<String>,
}

pub struct UserDtoV {
    pub id: i32,
    pub username: Seq<char>,
    pub email: Option<Seq<char>>,
    pub display_name: Option<Seq<char>>,
    pub bio: Option<Seq<char>>,
    pub created: Option<Seq<char>>,
    pub updated: Option<Seq<char>>,
    pub role: Option<Seq<char>>,
    pub avatar_url: Option<Seq<char>>,
    pub default_visibility: Option<Seq<char>>,
    pub default_enable_comment: Option<Seq<char>>,
}

impl View for UserDto {
    type V = UserDtoV;

    open spec fn view(&self) -> UserDtoV {
        UserDtoV {
            id: self.id,
            username: self.username@,
            email: view_opt_string(self.email),
            display_name: view_opt_string(self.display_name),
            bio: view_opt_string(self.bio),
            created: view_opt_string(self.created),
            updated: view_opt_string(self.updated),
            role: view_opt_string(self.role),
            avatar_url: view_opt_string(self.avatar_url),
            default_visibility: view_opt_string(self.default_visibility),
            default_enable_comment: view_opt_string(self.default_enable_comment),
        }
    }
}

pub open spec fn spec_user_dto(u: UserV) -> UserDtoV {
    UserDtoV {
        id: u.id,
        username: u.username,
        email: u.email,
        display_name: u.display_name,
        bio: u.bio,
        created: crate::comment::spec_fmt_opt_ms(u.created),
        updated: crate::comment::spec_fmt_opt_ms(u.updated),
        role: u.role,
        avatar_url: u.avatar_url,
        default_visibility: u.default_visibility,
        default_enable_comment: u.default_enable_comment,
    }
}

/// The public form of one user row.
pub fn to_user_dto(u: &User) -> (d: UserDto)
    ensures
        d@ == spec_user_dto(u@),
{
    UserDto {
        id: u.id,
        username: u.username.clone(),
        email: clone_opt_string(&u.email),
        display_name: clone_opt_string(&u.display_name),
        bio: clone_opt_string(&u.bio),
        created: match u.created {
            Some(ms) => crate::timeutil::format_rfc3339_ms(ms),
            None => None,
        },
        updated: match u.updated {
            Some(ms) => crate::timeutil::format_rfc3339_ms(ms),
            None => None,
        },
        role: clone_opt_string(&u.role),
        avatar_url: clone_opt_string(&u.avatar_url),
        default_visibility: clone_opt_string(&u.default_visibility),
        default_enable_comment: clone_opt_string(&u.default_enable_comment),
    }
}

impl Store {
    /// One user's public form, by id.
    pub fn get_user(&self, id: i32) -> (r: Option<UserDto>)
        ensures
            match spec_user_index(self@.users, id) {
                Some(i) => r matches Some(d) && d@ == spec_user_dto(self@.users[i]),
                None => r is None,
            },
    {
        match self.find_user_idx(id) {
            Some(i) => Some(to_user_dto(&self.users[i])),
            None => None,
        }
    }

    /// The acting user's public form; an anonymous caller is shown the
    /// administrator instead.
    pub fn current_user(&self, viewer: &OptionalAuthUser) -> (r: Option<UserDto>)
        ensures
            ({
                let idx = match crate::comment::spec_opt_auth(viewer.0) {
                    Some(a) => spec_user_index(self@.users, a.user_id),
                    None => spec_admin_index(self@.users),
                };
                match idx {
                    Some(i) => r matches Some(d) && d@ == spec_user_dto(self@.users[i]),
                    None => r is None,
                }
            }),
    {
        let idx = match &viewer.0 {
            Some(a) => self.find_user_idx(a.user_id),
            None => self.find_admin_idx(),
        };
        match idx {
            Some(i) => Some(to_user_dto(&self.users[i])),
            None => None,
        }
    }

    /// Every account's public form, administrators only.
    pub fn list_users(&self, auth: &AuthUser) -> (r: Result<Vec<UserDto>, AppError>)
        ensures
            r matches Ok(list) ==> crate::auth::spec_is_admin(auth@) && list@.map_values(
                |d: UserDto| d@,
            ) == self@.users.map_values(|u: UserV| spec_user_dto(u)),
            r matches Err(e) ==> !crate::auth::spec_is_admin(auth@) && e.spec_code() == 3,
    {
        if let Err(e) = crate::settings::require_admin(auth) {
            return Err(e);
        }
        let mut out: Vec<UserDto> = Vec::new();
        let ghost uv = self@.users;
        let mut i: usize = 0;
        while i < self.users.len()
            invariant
                i <= uv.len(),
                uv == self@.users,
                self@.users.len() == self.users@.len(),
                out@.len() == i,
                forall|j: int| 0 <= j < i ==> (#[trigger] out@[j])@ == spec_user_dto(uv[j]),
            decreases uv.len() - i,
        {
            let d = to_user_dto(&self.users[i]);
            out.push(d);
            i = i + 1;
        }
        assert(out@.map_values(|d: UserDto| d@) =~= uv.map_values(|u: UserV| spec_user_dto(u)));
        Ok(out)
    }

    /// Every display name on record, in table order.
    pub fn list_names(&self) -> (r: Vec<String>)
        ensures
            r@.map_values(|s: String| s@) == self@.users.filter_map(
                |u: UserV| u.display_name,
            ),
    {
        let mut out: Vec<String> = Vec::new();
        let ghost uv = self@.users;
        let mut i: usize = 0;
        while i < self.users.len()
            invariant
                i <= uv.len(),
                uv == self@.users,
                self@.users.len() == self.users@.len(),
                out@.map_values(|s: String| s@) == uv.subrange(0, i as int).filter_map(
                    |u: UserV| u.display_name,
                ),
            decreases uv.len() - i,
        {
            let ghost pre = uv.subrange(0, i as int);
            let ghost pre2 = uv.subrange(0, i + 1);
            proof {
                assert(pre2.drop_last() =~= pre);
                assert(pre2.last() == uv[i as int]);
            }
            let row = &self.users[i];
            assert(row@ == uv[i as int]);
            match &row.display_name {
                Some(d) => {
                    out.push(d.clone());
                    assert(out@.map_values(|s: String| s@) =~= pre.filter_map(
                        |u: UserV| u.display_name,
                    ) + seq![uv[i as int].display_name->0]);
                },
                None => {},
            }
            i = i + 1;
        }
        assert(uv.subrange(0, uv.len() as int) =~= uv);
        out
    }
}

} // verus!

verus! {

// ---------------------------------------------------------------------------
// activity counts
// ---------------------------------------------------------------------------

/// A user's activity counts.
pub struct MemoStatisticsDto {
    pub total: i64,
    pub liked: i64,
    pub mentioned: i64,
    pub commented: i64,
    pub unread_mentioned: i64,
}

pub open spec fn my_memo_filter(uid: i32) -> spec_fn(crate::model::MemoV) -> bool {
    |m: crate::model::MemoV| m.user_id == uid
}

pub open spec fn my_like_filter(uid: i32) -> spec_fn(crate::model::UserMemoRelationV) -> bool {
    |r: crate::model::UserMemoRelationV| r.user_id == uid && r.fav_type == "LIKE"@
}

pub open spec fn my_comment_pred(uid: i32) -> spec_fn(crate::model::CommentV) -> bool {
    |c: crate::model::CommentV| c.user_id == uid
}

pub open spec fn mentions_me_pred(uid: i32) -> spec_fn(crate::model::CommentV) -> bool {
    |c: crate::model::CommentV| match c.mentioned_user_id {
        Some(f) => crate::text::spec_contains_sub(f, crate::listing::spec_mention_pat(uid)),
        None => false,
    }
}

/// How many distinct memos the comments in the first `upto` rows that
/// satisfy `pred` sit on: each memo counted at its first such comment.
pub open spec fn spec_count_distinct_memos(
    cs: Seq<crate::model::CommentV>,
    pred: spec_fn(crate::model::CommentV) -> bool,
    upto: int,
) -> int
    decreases upto,
{
    if upto <= 0 {
        0
    } else {
        spec_count_distinct_memos(cs, pred, upto - 1) + if pred(cs[upto - 1]) && !(exists|j: int|
            0 <= j < upto - 1 && pred(#[trigger] cs[j]) && cs[j].memo_id == cs[upto
            - 1].memo_id) {
            1int
        } else {
            0int
        }
    }
}

/// When mentions count as read from: the recorded click, or the dawn of
/// the account's era a hundred years before now.
pub open spec fn spec_mention_read_bound(users: Seq<UserV>, uid: i32, now: i64) -> int {
    match spec_user_index(users, uid) {
        Some(i) => match users[i].last_clicked_mentioned {
            Some(t) => t as int,
            None => now - 3153600000000,
        },
        None => now - 3153600000000,
    }
}

pub open spec fn unread_mention_pred(uid: i32, bound: int) -> spec_fn(
    crate::model::CommentV,
) -> bool {
    |c: crate::model::CommentV| (match c.mentioned_user_id {
        Some(f) => crate::text::spec_contains_sub(f, crate::listing::spec_mention_pat(uid)),
        None => false,
    }) && (match c.created {
        Some(t) => t >= bound,
        None => false,
    })
}

impl Store {
    fn count_distinct_memos_by(&self, uid: i32, mentioned: bool, pat: &Vec<char>) -> (r: i64)
        requires
            self@.comments.len() <= 0x7fffffff,
            pat@ == crate::listing::spec_mention_pat(uid),
        ensures
            r == spec_count_distinct_memos(
                self@.comments,
                if mentioned {
                    mentions_me_pred(uid)
                } else {
                    my_comment_pred(uid)
                },
                self@.comments.len() as int,
            ),
    {
        let ghost cv = self@.comments;
        let ghost pred = if mentioned {
            mentions_me_pred(uid)
        } else {
            my_comment_pred(uid)
        };
        let mut count: i64 = 0;
        let mut i: usize = 0;
        while i < self.comments.len()
            invariant
                i <= cv.len(),
                cv == self@.comments,
                cv.len() <= 0x7fffffff,
                pat@ == crate::listing::spec_mention_pat(uid),
                pred == (if mentioned {
                    mentions_me_pred(uid)
                } else {
                    my_comment_pred(uid)
                }),
                self@.comments.len() == self.comments@.len(),
                count == spec_count_distinct_memos(cv, pred, i as int),
                count <= i,
            decreases cv.len() - i,
        {
            let c = &self.comments[i];
            assert(c@ == cv[i as int]);
            let c_matches = if mentioned {
                match &c.mentioned_user_id {
                    Some(f) => {
                        let fc = chars_of_str(f.as_str());
                        contains_sub(&fc, pat)
                    },
                    None => false,
                }
            } else {
                c.user_id == uid
            };
            assert(c_matches == pred(cv[i as int]));
            if c_matches {
                let memo_id = c.memo_id;
                let mut seen = false;
                let mut j: usize = 0;
                while j < i
                    invariant
                        j <= i,
                        i < cv.len(),
                        cv == self@.comments,
                        pat@ == crate::listing::spec_mention_pat(uid),
                        pred == (if mentioned {
                            mentions_me_pred(uid)
                        } else {
                            my_comment_pred(uid)
                        }),
                        memo_id == cv[i as int].memo_id,
                        self@.comments.len() == self.comments@.len(),
                        seen == (exists|x: int| 0 <= x < j && pred(#[trigger] cv[x])
                            && cv[x].memo_id == memo_id),
                    decreases i - j,
                {
                    let e = &self.comments[j];
                    assert(e@ == cv[j as int]);
                    let e_matches = if mentioned {
                        match &e.mentioned_user_id {
                            Some(f) => {
                                let fc = chars_of_str(f.as_str());
                                contains_sub(&fc, pat)
                            },
                            None => false,
                        }
                    } else {
                        e.user_id == uid
                    };
                    assert(e_matches == pred(cv[j as int]));
                    if e_matches && e.memo_id == memo_id {
                        seen = true;
                        assert(pred(cv[j as int]) && cv[j as int].memo_id == memo_id);
                    }
                    j = j + 1;
                }
                if !seen {
                    count = count + 1;
                }
            }
            i = i + 1;
        }
        count
    }

    /// The acting user's activity counts: their memos, the likes they
    /// gave, the distinct memos they commented on, the distinct memos
    /// whose comments mention them, and the mentions newer than their
    /// last mention click (or than a hundred years before now, when they
    /// never clicked).
    pub fn user_statistics(&self, auth: &AuthUser, now: i64) -> (r: MemoStatisticsDto)
        requires
            self@.memos.len() <= 0x7fffffff,
            self@.comments.len() <= 0x7fffffff,
            self@.relations.len() <= 0x7fffffff,
        ensures
            ({
                let uid = auth@.user_id;
                let bound = spec_mention_read_bound(self@.users, uid, now);
                &&& r.total == crate::text::seq_filter(self@.memos, my_memo_filter(uid)).len()
                &&& r.liked == crate::text::seq_filter(
                    self@.relations,
                    my_like_filter(uid),
                ).len()
                &&& r.commented == spec_count_distinct_memos(
                    self@.comments,
                    my_comment_pred(uid),
                    self@.comments.len() as int,
                )
                &&& r.mentioned == spec_count_distinct_memos(
                    self@.comments,
                    mentions_me_pred(uid),
                    self@.comments.len() as int,
                )
                &&& r.unread_mentioned == crate::text::seq_filter(
                    self@.comments,
                    unread_mention_pred(uid, bound),
                ).len()
            }),
    {
        let uid = auth.user_id;
        let ghost mv = self@.memos;
        let mut total: i64 = 0;
        let mut i: usize = 0;
        while i < self.memos.len()
            invariant
                i <= mv.len(),
                mv == self@.memos,
                mv.len() <= 0x7fffffff,
                self@.memos.len() == self.memos@.len(),
                total == crate::text::seq_filter(
                    mv.subrange(0, i as int),
                    my_memo_filter(uid),
                ).len(),
                total <= i,
            decreases mv.len() - i,
        {
            let ghost pre = mv.subrange(0, i as int);
            let ghost pre2 = mv.subrange(0, i + 1);
            proof {
                assert(pre2.drop_last() =~= pre);
                assert(pre2.last() == mv[i as int]);
                crate::text::lemma_seq_filter_elements(pre, my_memo_filter(uid));
            }
            let m = &self.memos[i];
            assert(m@ == mv[i as int]);
            if m.user_id == uid {
                assert((my_memo_filter(uid))(mv[i as int]));
                total = total + 1;
            } else {
                assert(!(my_memo_filter(uid))(mv[i as int]));
            }
            i = i + 1;
        }
        proof {
            assert(mv.subrange(0, mv.len() as int) =~= mv);
        }
        let ghost rv = self@.relations;
        let mut liked: i64 = 0;
        let mut k: usize = 0;
        while k < self.relations.len()
            invariant
                k <= rv.len(),
                rv == self@.relations,
                rv.len() <= 0x7fffffff,
                self@.relations.len() == self.relations@.len(),
                liked == crate::text::seq_filter(
                    rv.subrange(0, k as int),
                    my_like_filter(uid),
                ).len(),
                liked <= k,
            decreases rv.len() - k,
        {
            let ghost pre = rv.subrange(0, k as int);
            let ghost pre2 = rv.subrange(0, k + 1);
            proof {
                assert(pre2.drop_last() =~= pre);
                assert(pre2.last() == rv[k as int]);
                crate::text::lemma_seq_filter_elements(pre, my_like_filter(uid));
            }
            let rel = &self.relations[k];
            assert(rel@ == rv[k as int]);
            if rel.user_id == uid && str_eq(rel.fav_type.as_str(), "LIKE") {
                assert((my_like_filter(uid))(rv[k as int]));
                liked = liked + 1;
            } else {
                assert(!(my_like_filter(uid))(rv[k as int]));
            }
            k = k + 1;
        }
        proof {
            assert(rv.subrange(0, rv.len() as int) =~= rv);
        }
        let mut pat: Vec<char> = Vec::new();
        pat.push('#');
        let dec = crate::text::i64_to_string(uid as i64);
        let mut dc = chars_of_str(dec.as_str());
        pat.append(&mut dc);
        pat.push(',');
        assert(pat@ =~= crate::listing::spec_mention_pat(uid));
        let commented = self.count_distinct_memos_by(uid, false, &pat);
        let mentioned = self.count_distinct_memos_by(uid, true, &pat);
        let bound: i64 = match self.find_user_idx(uid) {
            Some(i2) => match self.users[i2].last_clicked_mentioned {
                Some(t) => t,
                None => {
                    if now >= i64::MIN + 3153600000000 {
                        now - 3153600000000
                    } else {
                        i64::MIN
                    }
                },
            },
            None => {
                if now >= i64::MIN + 3153600000000 {
                    now - 3153600000000
                } else {
                    i64::MIN
                }
            },
        };
        let ghost cv = self@.comments;
        let ghost boundg = spec_mention_read_bound(self@.users, uid, now);
        let mut unread: i64 = 0;
        let mut q: usize = 0;
        while q < self.comments.len()
            invariant
                q <= cv.len(),
                cv == self@.comments,
                cv.len() <= 0x7fffffff,
                pat@ == crate::listing::spec_mention_pat(uid),
                bound as int == boundg || (boundg < i64::MIN && bound == i64::MIN),
                boundg == spec_mention_read_bound(self@.users, uid, now),
                self@.comments.len() == self.comments@.len(),
                unread == crate::text::seq_filter(
                    cv.subrange(0, q as int),
                    unread_mention_pred(uid, boundg),
                ).len(),
                unread <= q,
            decreases cv.len() - q,
        {
            let ghost pre = cv.subrange(0, q as int);
            let ghost pre2 = cv.subrange(0, q + 1);
            proof {
                assert(pre2.drop_last() =~= pre);
                assert(pre2.last() == cv[q as int]);
                crate::text::lemma_seq_filter_elements(pre, unread_mention_pred(uid, boundg));
            }
            let c = &self.comments[q];
            assert(c@ == cv[q as int]);
            let m_hit = match &c.mentioned_user_id {
                Some(f) => {
                    let fc = chars_of_str(f.as_str());
                    contains_sub(&fc, &pat)
                },
                None => false,
            };
            let t_hit = match c.created {
                Some(t) => t >= bound,
                None => false,
            };
            if m_hit && t_hit {
                assert((unread_mention_pred(uid, boundg))(cv[q as int]));
                unread = unread + 1;
            } else {
                assert(!(unread_mention_pred(uid, boundg))(cv[q as int]));
            }
            q = q + 1;
        }
        proof {
            assert(cv.subrange(0, cv.len() as int) =~= cv);
        }
        MemoStatisticsDto { total, liked, mentioned, commented, unread_mentioned: unread }
    }
}

} // verus!

//! Programmatic credentials: one per user under a fixed name. Enabling
//! mints and stores one, resetting replaces its text, disabling deletes
//! the row — which is what revokes it, since the signature itself never
//! expires.

use vstd::prelude::*;

use crate::auth::{jwt_token_of, AuthUser};
use crate::error::AppError;
use crate::model::{DevToken, DevTokenV, Store, StoreV};
use crate::text::{seq_filter, str_eq};

verus! {

/// A token row as responses carry it.
pub struct TokenDto {
    pub id: i32,
    pub name: String,
    pub token: String,
}

pub struct TokenDtoV {
    pub id: i32,
    pub name: Seq<char>,
    pub token: Seq<char>,
}

impl View for TokenDto {
    type V = TokenDtoV;

    open spec fn view(&self) -> TokenDtoV {
        TokenDtoV { id: self.id, name: self.name@, token: self.token@ }
    }
}

/// The index of the first default-named token row of this user.
pub open spec fn spec_default_token_index(tokens: Seq<DevTokenV>, uid: i32) -> Option<int>
    decreases tokens.len(),
{
    if tokens.len() == 0 {
        None
    } else if tokens[0].name == "default"@ && tokens[0].user_id == uid {
        Some(0)
    } else {
        match spec_default_token_index(tokens.drop_first(), uid) {
            Some(i) => Some(i + 1),
            None => None,
        }
    }
}

proof fn lemma_default_token_index_first(tokens: Seq<DevTokenV>, uid: i32, i: int)
    requires
        0 <= i < tokens.len(),
        tokens[i].name == "default"@ && tokens[i].user_id == uid,
        forall|j: int| 0 <= j < i ==> !((#[trigger] tokens[j]).name == "default"@
            && tokens[j].user_id == uid),
    ensures
        spec_default_token_index(tokens, uid) == Some(i),
    decreases tokens.len(),
{
    if i > 0 {
        assert(tokens.drop_first()[i - 1].name == "default"@ && tokens.drop_first()[i
            - 1].user_id == uid);
        assert(forall|j: int| 0 <= j < i - 1 ==> !((#[trigger] tokens.drop_first()[j]).name
            == "default"@ && tokens.drop_first()[j].user_id == uid)) by {
            assert(forall|j: int| 0 <= j < i - 1 ==> tokens.drop_first()[j] == tokens[j + 1]);
        }
        lemma_default_token_index_first(tokens.drop_first(), uid, i - 1);
    }
}

proof fn lemma_default_token_index_none(tokens: Seq<DevTokenV>, uid: i32)
    requires
        forall|j: int| 0 <= j < tokens.len() ==> !((#[trigger] tokens[j]).name == "default"@
            && tokens[j].user_id == uid),
    ensures
        spec_default_token_index(tokens, uid) is None,
    decreases tokens.len(),
{
    if tokens.len() > 0 {
        assert(forall|j: int| 0 <= j < tokens.len() - 1 ==> !((
        #[trigger] tokens.drop_first()[j]).name == "default"@ && tokens.drop_first()[j].user_id
            == uid)) by {
            assert(forall|j: int| 0 <= j < tokens.len() - 1 ==> tokens.drop_first()[j]
                == tokens[j + 1]);
        }
        lemma_default_token_index_none(tokens.drop_first(), uid);
    }
}

pub open spec fn token_keep_filter(uid: i32) -> spec_fn(DevTokenV) -> bool {
    |t: DevTokenV| !(t.name == "default"@ && t.user_id == uid)
}

impl Store {
    fn find_default_token_idx(&self, uid: i32) -> (r: Option<usize>)
        ensures
            match r {
                Some(i) => i < self@.dev_tokens.len() && spec_default_token_index(
                    self@.dev_tokens,
                    uid,
                ) == Some(i as int),
                None => spec_default_token_index(self@.dev_tokens, uid) is None,
            },
    {
        let mut i: usize = 0;
        while i < self.dev_tokens.len()
            invariant
                i <= self@.dev_tokens.len(),
                self@.dev_tokens.len() == self.dev_tokens@.len(),
                forall|j: int| 0 <= j < i ==> !((#[trigger] self@.dev_tokens[j]).name
                    == "default"@ && self@.dev_tokens[j].user_id == uid),
            decreases self@.dev_tokens.len() - i,
        {
            let row = &self.dev_tokens[i];
            assert(row@ == self@.dev_tokens[i as int]);
            if str_eq(row.name.as_str(), "default") && row.user_id == uid {
                proof {
                    lemma_default_token_index_first(self@.dev_tokens, uid, i as int);
                }
                return Some(i);
            }
            i = i + 1;
        }
        proof {
            lemma_default_token_index_none(self@.dev_tokens, uid);
        }
        None
    }

    /// The user's programmatic token, if one is issued.
    pub fn get_token(&self, auth: &AuthUser) -> (r: Option<TokenDto>)
        ensures
            match spec_default_token_index(self@.dev_tokens, auth@.user_id) {
                Some(i) => r matches Some(d) && d@ == (TokenDtoV {
                    id: self@.dev_tokens[i].id,
                    name: self@.dev_tokens[i].name,
                    token: self@.dev_tokens[i].token,
                }),
                None => r is None,
            },
    {
        match self.find_default_token_idx(auth.user_id) {
            Some(i) => {
                let row = &self.dev_tokens[i];
                Some(
                    TokenDto {
                        id: row.id,
                        name: row.name.clone(),
                        token: row.token.clone(),
                    },
                )
            },
            None => None,
        }
    }

    /// Replaces the text of the row named by `row_id` with a freshly
    /// minted programmatic credential — the old text stops matching, which
    /// is what revokes it. Fails when the user has no issued token, or
    /// when `row_id` names no row.
    pub fn reset_token(&mut self, auth: &AuthUser, secret: &str, row_id: i32, now_ms: i64) -> (r:
        Result<(), AppError>)
        requires
            old(self)@.wf(),
            now_ms >= 0,
        ensures
            spec_default_token_index(old(self)@.dev_tokens, auth@.user_id) is None ==> (
            r matches Err(e) && e.spec_code() == 2 && e.spec_msg() == "token不存在"@
                && final(self)@ == old(self)@),
            r is Ok ==> ({
                exists|k: int| 0 <= k < old(self)@.dev_tokens.len()
                    && (#[trigger] old(self)@.dev_tokens[k]).id == row_id && final(self)@ == (
                StoreV {
                    dev_tokens: old(self)@.dev_tokens.update(
                        k,
                        DevTokenV {
                            token: jwt_token_of(
                                secret@,
                                auth@.user_id,
                                "API"@,
                                (now_ms / 1000 + 3153600000) as u64,
                            ),
                            ..old(self)@.dev_tokens[k]
                        },
                    ),
                    ..old(self)@
                })
            }),
            (spec_default_token_index(old(self)@.dev_tokens, auth@.user_id) is Some && (
            exists|k: int| 0 <= k < old(self)@.dev_tokens.len() && (
            #[trigger] old(self)@.dev_tokens[k]).id == row_id)) ==> r is Ok,
            r matches Err(e) ==> e.spec_code() == 2 || e.spec_code() == 99,
            (r matches Err(e) && e.spec_code() == 99) ==> final(self)@ == old(self)@,
            final(self)@.wf(),
    {
        if self.find_default_token_idx(auth.user_id).is_none() {
            assert(self@ =~~= old(self)@);
            return Err(AppError::fail("token不存在"));
        }
        let new_token = match crate::auth::generate_token(secret, auth.user_id, "API", now_ms) {
            Ok(t) => t,
            Err(e) => {
                assert(self@ =~~= old(self)@);
                return Err(e);
            },
        };
        let mut k: usize = 0;
        let ghost toks = self@.dev_tokens;
        while k < self.dev_tokens.len()
            invariant
                k <= toks.len(),
                toks == self@.dev_tokens,
                self@ == old(self)@,
                old(self)@.wf(),
                spec_default_token_index(old(self)@.dev_tokens, auth@.user_id) is Some,
                new_token@ == jwt_token_of(
                    secret@,
                    auth@.user_id,
                    "API"@,
                    (now_ms / 1000 + 3153600000) as u64,
                ),
                self@.dev_tokens.len() == self.dev_tokens@.len(),
                forall|j: int| 0 <= j < k ==> (#[trigger] toks[j]).id != row_id,
            decreases toks.len() - k,
        {
            let row = &self.dev_tokens[k];
            assert(row@ == toks[k as int]);
            if row.id == row_id {
                let new_row = DevToken {
                    id: row.id,
                    name: row.name.clone(),
                    token: new_token,
                    user_id: row.user_id,
                };
                assert(new_row@ == (DevTokenV {
                    token: jwt_token_of(
                        secret@,
                        auth@.user_id,
                        "API"@,
                        (now_ms / 1000 + 3153600000) as u64,
                    ),
                    ..toks[k as int]
                }));
                let ghost pre = self@.dev_tokens;
                self.dev_tokens[k] = new_row;
                proof {
                    assert(self@.dev_tokens =~= pre.update(k as int, new_row@));
                    assert(self@ =~~= (StoreV {
                        dev_tokens: pre.update(k as int, new_row@),
                        ..old(self)@
                    }));
                    assert(self@.ids_ok()) by {
                        assert(forall|j: int| 0 <= j < toks.len() ==> (
                        #[trigger] self@.dev_tokens[j]).id == toks[j].id);
                    }
                }
                return Ok(());
            }
            k = k + 1;
        }
        assert(self@ =~~= old(self)@);
        Err(AppError::system_exception())
    }

    /// Issues a programmatic token when none exists; an existing one is
    /// left untouched.
    pub fn enable_token(&mut self, auth: &AuthUser, secret: &str, now_ms: i64) -> (r: Result<
        (),
        AppError,
    >)
        requires
            old(self)@.wf(),
            now_ms >= 0,
        ensures
            spec_default_token_index(old(self)@.dev_tokens, auth@.user_id) is Some ==> (r is Ok
                && final(self)@ == old(self)@),
            (r is Ok && spec_default_token_index(old(self)@.dev_tokens, auth@.user_id) is None)
                ==> final(self)@ == (StoreV {
                dev_tokens: old(self)@.dev_tokens.push(
                    DevTokenV {
                        id: old(self)@.next_token_id,
                        name: "default"@,
                        token: jwt_token_of(
                            secret@,
                            auth@.user_id,
                            "API"@,
                            (now_ms / 1000 + 3153600000) as u64,
                        ),
                        user_id: auth@.user_id,
                    },
                ),
                next_token_id: (old(self)@.next_token_id + 1) as i32,
                ..old(self)@
            }),
            (spec_default_token_index(old(self)@.dev_tokens, auth@.user_id) is None
                && old(self)@.next_token_id < i32::MAX) ==> r is Ok,
            r matches Err(e) ==> e.spec_code() == 99 && final(self)@ == old(self)@,
            final(self)@.wf(),
    {
        if self.find_default_token_idx(auth.user_id).is_some() {
            assert(self@ =~~= old(self)@);
            return Ok(());
        }
        if self.next_token_id == i32::MAX {
            assert(self@ =~~= old(self)@);
            return Err(AppError::system_exception());
        }
        let token = match crate::auth::generate_token(secret, auth.user_id, "API", now_ms) {
            Ok(t) => t,
            Err(e) => {
                assert(self@ =~~= old(self)@);
                return Err(e);
            },
        };
        let ghost s0 = self@;
        let id = self.next_token_id;
        let row = DevToken { id, name: "default".to_owned(), token, user_id: auth.user_id };
        self.dev_tokens.push(row);
        self.next_token_id = id + 1;
        proof {
            assert(self@.dev_tokens =~= s0.dev_tokens.push(
                DevTokenV {
                    id: s0.next_token_id,
                    name: "default"@,
                    token: jwt_token_of(
                        secret@,
                        auth@.user_id,
                        "API"@,
                        (now_ms / 1000 + 3153600000) as u64,
                    ),
                    user_id: auth@.user_id,
                },
            ));
            assert(self@ =~~= (StoreV {
                dev_tokens: self@.dev_tokens,
                next_token_id: (s0.next_token_id + 1) as i32,
                ..s0
            }));
            assert(self@.ids_ok()) by {
                assert(forall|j: int| 0 <= j < s0.dev_tokens.len() ==> (
                #[trigger] self@.dev_tokens[j]) == s0.dev_tokens[j]);
                assert(self@.dev_tokens[s0.dev_tokens.len() as int].id == id);
            }
        }
        Ok(())
    }

    /// Withdraws the user's programmatic token: the row is deleted, and
    /// with it the only thing that keeps such a credential valid.
    pub fn disable_token(&mut self, auth: &AuthUser)
        requires
            old(self)@.wf(),
        ensures
            final(self)@ == (StoreV {
                dev_tokens: seq_filter(old(self)@.dev_tokens, token_keep_filter(auth@.user_id)),
                ..old(self)@
            }),
            final(self)@.wf(),
    {
        let ghost ts0 = self@.dev_tokens;
        let mut kept: Vec<DevToken> = Vec::new();
        let mut i: usize = 0;
        while i < self.dev_tokens.len()
            invariant
                i <= ts0.len(),
                self@.dev_tokens == ts0,
                self@.dev_tokens.len() == self.dev_tokens@.len(),
                self@ == (StoreV { dev_tokens: ts0, ..old(self)@ }),
                kept@.map_values(|t: DevToken| t@) == seq_filter(
                    ts0.subrange(0, i as int),
                    token_keep_filter(auth@.user_id),
                ),
            decreases ts0.len() - i,
        {
            let ghost pre = ts0.subrange(0, i as int);
            let ghost pre2 = ts0.subrange(0, i + 1);
            proof {
                assert(pre2.drop_last() =~= pre);
                assert(pre2.last() == ts0[i as int]);
            }
            let row = &self.dev_tokens[i];
            assert(row@ == ts0[i as int]);
            let is_match = str_eq(row.name.as_str(), "default") && row.user_id == auth.user_id;
            if !is_match {
                assert((token_keep_filter(auth@.user_id))(ts0[i as int]));
                let copy = DevToken {
                    id: row.id,
                    name: row.name.clone(),
                    token: row.token.clone(),
                    user_id: row.user_id,
                };
                assert(copy@ == ts0[i as int]);
                kept.push(copy);
                assert(kept@.map_values(|t: DevToken| t@) =~= seq_filter(
                    pre,
                    token_keep_filter(auth@.user_id),
                ).push(ts0[i as int]));
            } else {
                assert(!(token_keep_filter(auth@.user_id))(ts0[i as int]));
            }
            i = i + 1;
        }
        proof {
            assert(ts0.subrange(0, ts0.len() as int) =~= ts0);
        }
        self.dev_tokens = kept;
        proof {
            assert(self@ =~~= (StoreV {
                dev_tokens: seq_filter(ts0, token_keep_filter(auth@.user_id)),
                ..old(self)@
            }));
            crate::text::lemma_seq_filter_elements(ts0, token_keep_filter(auth@.user_id));
            assert(self@.ids_ok()) by {
                assert forall|j: int| 0 <= j < self@.dev_tokens.len() implies 1 <= (
                #[trigger] self@.dev_tokens[j]).id < self@.next_token_id by {
                    let c = self@.dev_tokens[j];
                    assert(ts0.contains(c));
                    let x = choose|x: int| 0 <= x < ts0.len() && ts0[x] == c;
                }
                crate::text::lemma_seq_filter_pairwise(
                    ts0,
                    token_keep_filter(auth@.user_id),
                    |a: DevTokenV, b: DevTokenV| a.id != b.id,
                );
            }
        }
    }
}

} // verus!

//! The fire-and-forget notification for a freshly created public memo:
//! everything the subscriber is told is assembled and checked here; the
//! posting itself is the caller's detached task and can neither block nor
//! roll back the creating request.

use vstd::prelude::*;

use crate::error::AppError;
use crate::model::{spec_memo_index, spec_user_index, Store};
use crate::text::{chars_of_str, string_from_chars};

verus! {

/// What the subscriber is told about a new public memo, and where.
pub struct WebhookNotification {
    pub url: String,
    pub token: String,
    pub content: Option<String>,
    pub tags: Option<String>,
    pub created: i64,
    pub author_name: Option<String>,
    pub resource_urls: Vec<String>,
}

/// The address a resource is fetched from by the subscriber.
pub open spec fn spec_api_resource_url(domain: Seq<char>, public_id: Seq<char>) -> Seq<char> {
    domain + "/api/resource/"@ + public_id
}

impl Store {
    /// What to post for a freshly created memo: nothing when the memo is
    /// not public or no subscriber address is configured; the memo's
    /// text, tag field, creation instant, author display name and
    /// resource addresses otherwise. A missing memo or author is a
    /// failure the detached task swallows.
    pub fn build_webhook_notification(&self, memo_id: i32) -> (r: Result<
        Option<WebhookNotification>,
        AppError,
    >)
        ensures
            ({
                let s = self@;
                let url = crate::settings::spec_get_string(s.configs, "WEB_HOOK_URL"@);
                let midx = spec_memo_index(s.memos, memo_id);
                &&& (midx is None ==> (r matches Err(e) && e.spec_code() == 2 && e.spec_msg()
                    == "memo不存在"@))
                &&& (midx matches Some(k) ==> ({
                    let m = s.memos[k];
                    let skip = m.visibility != Some("PUBLIC"@) || (match url {
                        Some(u) => u.len() == 0,
                        None => true,
                    });
                    &&& (skip ==> (r matches Ok(o) && o is None))
                    &&& (!skip && spec_user_index(s.users, m.user_id) is None ==> (
                    r matches Err(e) && e.spec_code() == 2 && e.spec_msg() == "用户不存在"@))
                    &&& ((!skip && spec_user_index(s.users, m.user_id) is Some) ==> (
                    r matches Ok(o) && (o matches Some(n) && ({
                        let author = s.users[spec_user_index(s.users, m.user_id)->0];
                        let domain = crate::listing::spec_domain(s);
                        &&& n.url@ == url->0
                        &&& n.token@ == (match crate::settings::spec_get_string(
                            s.configs,
                            "WEB_HOOK_TOKEN"@,
                        ) {
                            Some(t) => t,
                            None => Seq::<char>::empty(),
                        })
                        &&& crate::model::view_opt_string(n.content) == m.content
                        &&& crate::model::view_opt_string(n.tags) == m.tags
                        &&& n.created == (match m.created {
                            Some(c) => c,
                            None => 0,
                        })
                        &&& crate::model::view_opt_string(n.author_name)
                            == author.display_name
                        &&& n.resource_urls@.map_values(|u: String| u@)
                            == crate::text::seq_filter(
                            s.resources,
                            crate::listing::memo_resource_filter(memo_id),
                        ).map_values(
                            |rr: crate::model::ResourceV| spec_api_resource_url(
                                domain,
                                rr.public_id,
                            ),
                        )
                    }))))
                }))
            }),
    {
        let url: String = match crate::settings::get_string(self, "WEB_HOOK_URL") {
            Some(u) => u,
            None => crate::model::empty_string(),
        };
        let token: String = match crate::settings::get_string(self, "WEB_HOOK_TOKEN") {
            Some(t) => t,
            None => crate::model::empty_string(),
        };
        let k = match self.find_memo_idx(memo_id) {
            Some(k) => k,
            None => {
                return Err(AppError::fail("memo不存在"));
            },
        };
        let m = &self.memos[k];
        let is_public = crate::text::opt_str_eq(&m.visibility, "PUBLIC");
        let url_empty = url.as_str().is_empty();
        let ghost urlspec = crate::settings::spec_get_string(self@.configs, "WEB_HOOK_URL"@);
        if !is_public || url_empty {
            return Ok(None);
        }
        let u = match self.find_user_idx(m.user_id) {
            Some(u) => u,
            None => {
                return Err(AppError::fail("用户不存在"));
            },
        };
        let domain: String = match crate::settings::get_string(self, "DOMAIN") {
            Some(d) => d,
            None => crate::model::empty_string(),
        };
        let ghost rv = self@.resources;
        let mut resource_urls: Vec<String> = Vec::new();
        let mut i: usize = 0;
        while i < self.resources.len()
            invariant
                i <= rv.len(),
                rv == self@.resources,
                self@.resources.len() == self.resources@.len(),
                domain@ == crate::listing::spec_domain(self@),
                resource_urls@.map_values(|s2: String| s2@) == crate::text::seq_filter(
                    rv.subrange(0, i as int),
                    crate::listing::memo_resource_filter(memo_id),
                ).map_values(
                    |rr: crate::model::ResourceV| spec_api_resource_url(
                        crate::listing::spec_domain(self@),
                        rr.public_id,
                    ),
                ),
            decreases rv.len() - i,
        {
            let ghost pre = rv.subrange(0, i as int);
            let ghost pre2 = rv.subrange(0, i + 1);
            proof {
                assert(pre2.drop_last() =~= pre);
                assert(pre2.last() == rv[i as int]);
            }
            let row = &self.resources[i];
            assert(row@ == rv[i as int]);
            if row.memo_id == memo_id {
                assert((crate::listing::memo_resource_filter(memo_id))(rv[i as int]));
                let mut uc = chars_of_str(domain.as_str());
                let mut mid = chars_of_str("/api/resource/");
                uc.append(&mut mid);
                let mut pid = chars_of_str(row.public_id.as_str());
                uc.append(&mut pid);
                assert(uc@ =~= spec_api_resource_url(
                    crate::listing::spec_domain(self@),
                    rv[i as int].public_id,
                ));
                resource_urls.push(string_from_chars(&uc));
                assert(resource_urls@.map_values(|s2: String| s2@) =~= crate::text::seq_filter(
                    pre,
                    crate::listing::memo_resource_filter(memo_id),
                ).map_values(
                    |rr: crate::model::ResourceV| spec_api_resource_url(
                        crate::listing::spec_domain(self@),
                        rr.public_id,
                    ),
                ).push(spec_api_resource_url(
                    crate::listing::spec_domain(self@),
                    rv[i as int].public_id,
                )));
                assert(crate::text::seq_filter(
                    pre2,
                    crate::listing::memo_resource_filter(memo_id),
                ).map_values(
                    |rr: crate::model::ResourceV| spec_api_resource_url(
                        crate::listing::spec_domain(self@),
                        rr.public_id,
                    ),
                ) =~= crate::text::seq_filter(
                    pre,
                    crate::listing::memo_resource_filter(memo_id),
                ).map_values(
                    |rr: crate::model::ResourceV| spec_api_resource_url(
                        crate::listing::spec_domain(self@),
                        rr.public_id,
                    ),
                ).push(spec_api_resource_url(
                    crate::listing::spec_domain(self@),
                    rv[i as int].public_id,
                )));
            } else {
                assert(!(crate::listing::memo_resource_filter(memo_id))(rv[i as int]));
            }
            i = i + 1;
        }
        proof {
            assert(rv.subrange(0, rv.len() as int) =~= rv);
        }
        Ok(
            Some(
                WebhookNotification {
                    url,
                    token,
                    content: crate::model::clone_opt_string(&m.content),
                    tags: crate::model::clone_opt_string(&m.tags),
                    created: match m.created {
                        Some(c) => c,
                        None => 0,
                    },
                    author_name: crate::model::clone_opt_string(&self.users[u].display_name),
                    resource_urls,
                },
            ),
        )
    }
}

} // verus!

//! The public feed: the twenty newest public memos, pinned ones first,
//! with everything a syndication rendering needs as plain values.

use vstd::prelude::*;

use crate::listing::{spec_le_listing, spec_sort_listing};
use crate::model::{view_opt_string, Memo, MemoV, Store, UserV};
use crate::text::{chars_of_str, i64_to_string, seq_filter, spec_dec_i64, string_from_chars};

verus! {

/// The first `max` characters of `s`, or all of it when it is shorter.
pub open spec fn spec_truncate(s: Seq<char>, max: int) -> Seq<char> {
    if s.len() <= max {
        s
    } else {
        s.subrange(0, max)
    }
}

/// The first `max` characters of a string.
pub fn truncate(input: &str, max: usize) -> (r: String)
    ensures
        r@ == spec_truncate(input@, max as int),
{
    let chars = chars_of_str(input);
    if chars.len() <= max {
        let out = string_from_chars(&chars);
        out
    } else {
        let mut out: Vec<char> = Vec::new();
        let mut i: usize = 0;
        while i < max
            invariant
                i <= max,
                max < chars@.len(),
                chars@ == input@,
                out@ == input@.subrange(0, i as int),
            decreases max - i,
        {
            out.push(chars[i]);
            assert(out@ =~= input@.subrange(0, i + 1));
            i = i + 1;
        }
        string_from_chars(&out)
    }
}

/// One feed entry: the memo's text and title, its address under the
/// configured domain, the author's display name, the creation instant,
/// and the tag names as categories.
pub struct FeedEntry {
    pub id: i32,
    pub title: String,
    pub content: String,
    pub link: String,
    pub author: String,
    pub created: Option<i64>,
    pub categories: Vec<String>,
}

pub struct FeedEntryV {
    pub id: i32,
    pub title: Seq<char>,
    pub content: Seq<char>,
    pub link: Seq<char>,
    pub author: Seq<char>,
    pub created: Option<i64>,
    pub categories: Seq<Seq<char>>,
}

impl View for FeedEntry {
    type V = FeedEntryV;

    open spec fn view(&self) -> FeedEntryV {
        FeedEntryV {
            id: self.id,
            title: self.title@,
            content: self.content@,
            link: self.link@,
            author: self.author@,
            created: self.created,
            categories: self.categories@.map_values(|s: String| s@),
        }
    }
}

/// Which memos the feed draws from: normal, public ones.
pub open spec fn feed_filter() -> spec_fn(MemoV) -> bool {
    |m: MemoV| m.status == Some("NORMAL"@) && m.visibility == Some("PUBLIC"@)
}

pub open spec fn spec_opt_text(o: Option<Seq<char>>) -> Seq<char> {
    match o {
        Some(s) => s,
        None => Seq::empty(),
    }
}

/// The entry built for one memo under the configured domain.
pub open spec fn spec_feed_entry(s: crate::model::StoreV, domain: Seq<char>, m: MemoV) -> FeedEntryV {
    let content = spec_opt_text(m.content);
    FeedEntryV {
        id: m.id,
        title: spec_truncate(content, 20),
        content: content,
        link: domain + "/memo/"@ + spec_dec_i64(m.id as int),
        author: match crate::model::spec_user_index(s.users, m.user_id) {
            Some(i) => spec_opt_text(s.users[i].display_name),
            None => Seq::empty(),
        },
        created: m.created,
        categories: crate::tags::spec_split_tags(crate::tags::spec_opt_chars(m.tags)),
    }
}

impl Store {
    /// The twenty newest normal public memos, pinned ones first, as feed
    /// entries.
    pub fn latest_public_memos(&self) -> (r: Vec<FeedEntry>)
        ensures
            ({
                let filtered = seq_filter(self@.memos, feed_filter());
                let sorted = spec_sort_listing(true, filtered);
                let take = if sorted.len() <= 20 {
                    sorted.len() as int
                } else {
                    20
                };
                let domain = crate::listing::spec_domain(self@);
                r@.map_values(|e: FeedEntry| e@) == sorted.subrange(0, take).map_values(
                    |m: MemoV| spec_feed_entry(self@, domain, m),
                )
            }),
    {
        let domain: String = match crate::settings::get_string(self, "DOMAIN") {
            Some(d) => d,
            None => crate::model::empty_string(),
        };
        let ghost mv = self@.memos;
        let mut matched: Vec<Memo> = Vec::new();
        let mut i: usize = 0;
        while i < self.memos.len()
            invariant
                i <= mv.len(),
                mv == self@.memos,
                self@.memos.len() == self.memos@.len(),
                matched@.map_values(|x: Memo| x@) == seq_filter(
                    mv.subrange(0, i as int),
                    feed_filter(),
                ),
            decreases mv.len() - i,
        {
            let ghost pre = mv.subrange(0, i as int);
            let ghost pre2 = mv.subrange(0, i + 1);
            proof {
                assert(pre2.drop_last() =~= pre);
                assert(pre2.last() == mv[i as int]);
            }
            let row = &self.memos[i];
            assert(row@ == mv[i as int]);
            let keep = crate::text::opt_str_eq(&row.status, "NORMAL")
                && crate::text::opt_str_eq(&row.visibility, "PUBLIC");
            if keep {
                assert((feed_filter())(mv[i as int]));
                let copy = crate::model::clone_memo(row);
                matched.push(copy);
                assert(matched@.map_values(|x: Memo| x@) =~= seq_filter(
                    pre,
                    feed_filter(),
                ).push(mv[i as int]));
            } else {
                assert(!(feed_filter())(mv[i as int]));
            }
            i = i + 1;
        }
        proof {
            assert(mv.subrange(0, mv.len() as int) =~= mv);
        }
        let ghost filtered = seq_filter(self@.memos, feed_filter());
        let sorted = crate::listing::sort_listing_pub(true, matched);
        let ghost sortedv = sorted@.map_values(|x: Memo| x@);
        proof {
            crate::listing::lemma_sort_listing_len(true, filtered);
        }
        let take: usize = if sorted.len() <= 20 {
            sorted.len()
        } else {
            20
        };
        let mut out: Vec<FeedEntry> = Vec::new();
        let mut k: usize = 0;
        while k < take
            invariant
                k <= take,
                take <= sorted@.len(),
                sortedv == sorted@.map_values(|x: Memo| x@),
                domain@ == crate::listing::spec_domain(self@),
                out@.len() == k,
                forall|j: int| 0 <= j < k ==> (#[trigger] out@[j])@ == spec_feed_entry(
                    self@,
                    crate::listing::spec_domain(self@),
                    sortedv[j],
                ),
            decreases take - k,
        {
            let m = &sorted[k];
            assert(m@ == sortedv[k as int]);
            let content: String = match &m.content {
                Some(c) => c.clone(),
                None => crate::model::empty_string(),
            };
            let title = truncate(content.as_str(), 20);
            let mut link = chars_of_str(domain.as_str());
            let mut mid = chars_of_str("/memo/");
            link.append(&mut mid);
            let dec = i64_to_string(m.id as i64);
            let mut dc = chars_of_str(dec.as_str());
            link.append(&mut dc);
            assert(link@ =~= domain@ + "/memo/"@ + spec_dec_i64(m@.id as int));
            let author: String = match self.find_user_idx(m.user_id) {
                Some(u) => {
                    match &self.users[u].display_name {
                        Some(d) => d.clone(),
                        None => crate::model::empty_string(),
                    }
                },
                None => crate::model::empty_string(),
            };
            let categories = crate::tags::split_tags(crate::model::clone_opt_string(&m.tags));
            let entry = FeedEntry {
                id: m.id,
                title,
                content,
                link: string_from_chars(&link),
                author,
                created: m.created,
                categories,
            };
            assert(entry@ == spec_feed_entry(
                self@,
                crate::listing::spec_domain(self@),
                sortedv[k as int],
            ));
            out.push(entry);
            k = k + 1;
        }
        proof {
            assert(out@.map_values(|e: FeedEntry| e@) =~= sortedv.subrange(0, take as int)
                .map_values(
                |m2: MemoV| spec_feed_entry(self@, crate::listing::spec_domain(self@), m2),
            ));
        }
        out
    }
}

} // verus!

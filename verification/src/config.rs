//! The process configuration as plain values, and the store address it
//! determines. Reading the environment stays with the caller; the rules
//! for combining what was read live here.

use vstd::prelude::*;

use crate::text::{chars_of_str, spec_trim, string_from_chars, trim_chars};

verus! {

/// The configuration a deployment runs under.
#[derive(Clone, Debug)]
pub struct AppConfig {
    pub server_port: u16,
    pub db_type: String,
    pub mysql_url: String,
    pub mysql_db: String,
    pub mysql_user: String,
    pub mysql_pass: String,
    pub sqlite_path: String,
    pub database_url: Option<String>,
    pub jwt_secret: String,
    pub token_header: String,
    pub safe_domain: String,
    pub official_square_url: String,
    pub upload_storage_path: String,
    pub db_time_zone: String,
}

/// The store address the configuration selects: an explicit address wins,
/// a `-sqlite` database type selects the file store, anything else the
/// relational server.
pub open spec fn spec_database_url(
    explicit: Option<Seq<char>>,
    db_type: Seq<char>,
    sqlite_path: Seq<char>,
    user: Seq<char>,
    pass: Seq<char>,
    host: Seq<char>,
    db: Seq<char>,
) -> Seq<char> {
    match explicit {
        Some(u) => u,
        None => if spec_trim(db_type) == "-sqlite"@ {
            "sqlite:"@ + sqlite_path
        } else {
            "mysql://"@ + user + seq![':'] + pass + seq!['@'] + host + seq!['/'] + db
        },
    }
}

impl AppConfig {
    /// The store address this configuration selects.
    pub fn database_url(&self) -> (r: String)
        ensures
            r@ == spec_database_url(
                crate::model::view_opt_string(self.database_url),
                self.db_type@,
                self.sqlite_path@,
                self.mysql_user@,
                self.mysql_pass@,
                self.mysql_url@,
                self.mysql_db@,
            ),
    {
        if let Some(u) = &self.database_url {
            return u.clone();
        }
        let tc = chars_of_str(self.db_type.as_str());
        let trimmed = trim_chars(&tc);
        let sqlite_flag = chars_of_str("-sqlite");
        let is_sqlite = {
            let mut eq = trimmed.len() == sqlite_flag.len();
            let mut i: usize = 0;
            while i < trimmed.len() && i < sqlite_flag.len()
                invariant
                    i <= trimmed@.len(),
                    i <= sqlite_flag@.len(),
                    eq == (trimmed@.len() == sqlite_flag@.len() && forall|j: int|
                        0 <= j < i ==> trimmed@[j] == sqlite_flag@[j]),
                decreases trimmed@.len() - i,
            {
                if trimmed[i] != sqlite_flag[i] {
                    eq = false;
                }
                i = i + 1;
            }
            proof {
                if eq {
                    assert(trimmed@ =~= sqlite_flag@);
                }
                if trimmed@ == sqlite_flag@ {
                    assert(forall|j: int| 0 <= j < trimmed@.len() ==> trimmed@[j]
                        == sqlite_flag@[j]);
                }
            }
            eq
        };
        if is_sqlite {
            let mut out = chars_of_str("sqlite:");
            let mut pc = chars_of_str(self.sqlite_path.as_str());
            out.append(&mut pc);
            assert(out@ =~= "sqlite:"@ + self.sqlite_path@);
            string_from_chars(&out)
        } else {
            let mut out = chars_of_str("mysql://");
            let mut u = chars_of_str(self.mysql_user.as_str());
            out.append(&mut u);
            out.push(':');
            let mut p = chars_of_str(self.mysql_pass.as_str());
            out.append(&mut p);
            out.push('@');
            let mut h = chars_of_str(self.mysql_url.as_str());
            out.append(&mut h);
            out.push('/');
            let mut d = chars_of_str(self.mysql_db.as_str());
            out.append(&mut d);
            assert(out@ =~= "mysql://"@ + self.mysql_user@ + seq![':'] + self.mysql_pass@
                + seq!['@'] + self.mysql_url@ + seq!['/'] + self.mysql_db@);
            string_from_chars(&out)
        }
    }

    /// The address of the official square service.
    pub fn official_square_url(&self) -> (r: String)
        ensures
            r@ == self.official_square_url@,
    {
        self.official_square_url.clone()
    }

    /// Where uploaded files are stored on disk.
    pub fn upload_storage_path(&self) -> (r: String)
        ensures
            r@ == self.upload_storage_path@,
    {
        self.upload_storage_path.clone()
    }

    /// The time zone the relational store runs in.
    pub fn db_time_zone(&self) -> (r: String)
        ensures
            r@ == self.db_time_zone@,
    {
        self.db_time_zone.clone()
    }
}

} // verus!

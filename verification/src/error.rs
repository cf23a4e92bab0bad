//! The failure taxonomy every operation reports through: a numeric code and a
//! user-facing message. Code 0 is reserved for success in the response
//! envelope, so every error carries a non-zero code.

use vstd::prelude::*;

verus! {

/// A typed operation failure: a numeric code plus a user-facing message.
///
/// Codes: 1 = malformed input, 2 = business rule violation, 3 = missing or
/// invalid credential, 4 = upload size limit, 99 = infrastructure failure
/// with a deliberately generic message.
#[derive(Clone, Debug)]
pub enum AppError {
    Biz { code: i32, msg: String },
}

impl AppError {
    /// The code of this error.
    pub open spec fn spec_code(&self) -> i32 {
        match self {
            AppError::Biz { code, .. } => *code,
        }
    }

    /// The message of this error.
    pub open spec fn spec_msg(&self) -> Seq<char> {
        match self {
            AppError::Biz { msg, .. } => msg@,
        }
    }

    pub fn param_error(msg: &str) -> (r: AppError)
        ensures
            r.spec_code() == 1,
            r.spec_msg() == msg@,
    {
        AppError::Biz { code: 1, msg: msg.to_owned() }
    }

    pub fn fail(msg: &str) -> (r: AppError)
        ensures
            r.spec_code() == 2,
            r.spec_msg() == msg@,
    {
        AppError::Biz { code: 2, msg: msg.to_owned() }
    }

    pub fn need_login() -> (r: AppError)
        ensures
            r.spec_code() == 3,
            r.spec_msg() == "please login first"@,
    {
        AppError::Biz { code: 3, msg: "please login first".to_owned() }
    }

    pub fn api_token_invalid() -> (r: AppError)
        ensures
            r.spec_code() == 3,
            r.spec_msg() == "api token已失效"@,
    {
        AppError::Biz { code: 3, msg: "api token已失效".to_owned() }
    }

    pub fn file_size_limit(msg: &str) -> (r: AppError)
        ensures
            r.spec_code() == 4,
            r.spec_msg() == msg@,
    {
        AppError::Biz { code: 4, msg: msg.to_owned() }
    }

    pub fn system_exception() -> (r: AppError)
        ensures
            r.spec_code() == 99,
            r.spec_msg() == "system_exception"@,
    {
        AppError::Biz { code: 99, msg: "system_exception".to_owned() }
    }

    pub fn code(&self) -> (r: i32)
        ensures
            r == self.spec_code(),
    {
        match self {
            AppError::Biz { code, .. } => *code,
        }
    }

    pub fn msg(&self) -> (r: &str)
        ensures
            r@ == self.spec_msg(),
    {
        match self {
            AppError::Biz { msg, .. } => msg.as_str(),
        }
    }
}

} // verus!

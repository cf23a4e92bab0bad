//! Uploaded files as the library reasons about them: the public form of a
//! stored row, the address it is served from, and the pure decisions of
//! the upload path — where a file goes, what identifies it, and how it is
//! delivered back.

use vstd::prelude::*;

use crate::error::AppError;
use crate::model::{clone_opt_string, view_opt_string, Resource, ResourceV};
use crate::text::{chars_of_str, str_eq, string_from_chars};

verus! {

/// A resource as responses carry it.
pub struct ResourceDto {
    pub public_id: String,
    pub url: String,
    pub file_type: Option<String>,
    pub suffix: Option<String>,
    pub storage_type: Option<String>,
    pub file_name: Option<String>,
}

pub struct ResourceDtoV {
    pub public_id: Seq<char>,
    pub url: Seq<char>,
    pub file_type: Option<Seq<char>>,
    pub suffix: Option<Seq<char>>,
    pub storage_type: Option<Seq<char>>,
    pub file_name: Option<Seq<char>>,
}

impl View for ResourceDto {
    type V = ResourceDtoV;

    open spec fn view(&self) -> ResourceDtoV {
        ResourceDtoV {
            public_id: self.public_id@,
            url: self.url@,
            file_type: view_opt_string(self.file_type),
            suffix: view_opt_string(self.suffix),
            storage_type: view_opt_string(self.storage_type),
            file_name: view_opt_string(self.file_name),
        }
    }
}

/// The address a resource is served from: locally stored files live under
/// the configured domain, anything else is linked as stored.
pub open spec fn spec_resource_url(
    domain: Seq<char>,
    external_link: Option<Seq<char>>,
    storage_type: Option<Seq<char>>,
) -> Seq<char> {
    let link = match external_link {
        Some(l) => l,
        None => Seq::empty(),
    };
    if storage_type == Some("LOCAL"@) {
        domain + link
    } else {
        link
    }
}

/// The address a resource is served from.
pub fn build_resource_url(
    domain: &str,
    external_link: Option<String>,
    storage_type: Option<String>,
) -> (r: String)
    ensures
        r@ == spec_resource_url(
            domain@,
            view_opt_string(external_link),
            view_opt_string(storage_type),
        ),
{
    let link: String = match external_link {
        Some(l) => l,
        None => crate::model::empty_string(),
    };
    let is_local = match &storage_type {
        Some(t) => str_eq(t.as_str(), "LOCAL"),
        None => false,
    };
    if is_local {
        let mut out = chars_of_str(domain);
        let mut lc = chars_of_str(link.as_str());
        out.append(&mut lc);
        assert(out@ =~= domain@ + link@);
        string_from_chars(&out)
    } else {
        link
    }
}

pub open spec fn spec_convert_resource(domain: Seq<char>, r: ResourceV) -> ResourceDtoV {
    ResourceDtoV {
        public_id: r.public_id,
        url: spec_resource_url(domain, r.external_link, r.storage_type),
        file_type: Some(r.file_type),
        suffix: r.suffix,
        storage_type: r.storage_type,
        file_name: Some(r.file_name),
    }
}

/// The public form of a stored resource row, its address built under the
/// given domain.
pub fn convert_resource(domain: &str, r: &Resource) -> (d: ResourceDto)
    ensures
        d@ == spec_convert_resource(domain@, r@),
{
    let url = build_resource_url(
        domain,
        clone_opt_string(&r.external_link),
        clone_opt_string(&r.storage_type),
    );
    ResourceDto {
        public_id: r.public_id.clone(),
        url,
        file_type: Some(r.file_type.clone()),
        suffix: clone_opt_string(&r.suffix),
        storage_type: clone_opt_string(&r.storage_type),
        file_name: Some(r.file_name.clone()),
    }
}

/// A fresh public identifier: the caller's timestamp prefix followed by
/// one lowercase letter per random byte.
pub fn make_public_id(prefix: &str, random_bytes: &Vec<u8>) -> (r: String)
    ensures
        r@.len() == prefix@.len() + random_bytes@.len(),
        r@.subrange(0, prefix@.len() as int) == prefix@,
        forall|i: int| 0 <= i < random_bytes@.len() ==> 'a' <= #[trigger] r@[prefix@.len()
            + i] <= 'z',
{
    let mut out = chars_of_str(prefix);
    let ghost p = prefix@;
    let mut i: usize = 0;
    while i < random_bytes.len()
        invariant
            i <= random_bytes@.len(),
            out@.len() == p.len() + i,
            out@.subrange(0, p.len() as int) == p,
            forall|j: int| 0 <= j < i ==> 'a' <= #[trigger] out@[p.len() + j] <= 'z',
        decreases random_bytes@.len() - i,
    {
        let b = random_bytes[i] % 26;
        let c = (97u8 + b) as char;
        assert('a' <= c <= 'z');
        out.push(c);
        assert(out@.subrange(0, p.len() as int) =~= p);
        i = i + 1;
    }
    string_from_chars(&out)
}

/// The content type recorded when sniffing failed: an image type guessed
/// from the suffix, or a plain byte stream.
pub open spec fn spec_fallback_file_type(suffix: Seq<char>) -> Seq<char> {
    if suffix.len() > 0 {
        "image/"@ + suffix
    } else {
        "application/octet-stream"@
    }
}

pub fn fallback_file_type(suffix: &str) -> (r: String)
    ensures
        r@ == spec_fallback_file_type(suffix@),
{
    if suffix.is_empty() {
        let s: String = "application/octet-stream".to_owned();
        s
    } else {
        let mut out = chars_of_str("image/");
        let mut sc = chars_of_str(suffix);
        out.append(&mut sc);
        assert(out@ =~= "image/"@ + suffix@);
        string_from_chars(&out)
    }
}

/// Where the upload of one file ends up under a storage backend, given
/// the backend's parameters as plain values: the served address, the
/// recorded backend tag, and the recorded suffix.
#[derive(Debug)]
pub struct S3Target {
    pub key: String,
    pub url: String,
}

pub struct S3TargetV {
    pub key: Seq<char>,
    pub url: Seq<char>,
}

impl View for S3Target {
    type V = S3TargetV;

    open spec fn view(&self) -> S3TargetV {
        S3TargetV { key: self.key@, url: self.url@ }
    }
}

/// The object key and public address of an upload to an S3-style bucket.
/// Fails exactly when a required parameter (key id, secret, bucket or
/// region) is missing.
pub fn s3_target(
    access_key: &str,
    secret_key: &str,
    bucket: &str,
    domain: &str,
    prefix: &str,
    region: &str,
    public_id: &str,
) -> (r: Result<S3Target, AppError>)
    ensures
        (r is Ok <==> access_key@.len() > 0 && secret_key@.len() > 0 && bucket@.len() > 0
            && region@.len() > 0),
        r matches Err(e) ==> e.spec_code() == 2 && e.spec_msg() == "上传资源失败"@,
        r matches Ok(t) ==> ({
            &&& t@.key == (if prefix@.len() == 0 {
                public_id@
            } else {
                prefix@ + seq!['/'] + public_id@
            })
            &&& t@.url == (if domain@.len() > 0 {
                domain@ + seq!['/'] + t@.key
            } else {
                "https://s3."@ + region@ + seq!['.'] + "amazonaws.com/"@ + bucket@ + seq!['/']
                    + t@.key
            })
        }),
{
    if access_key.is_empty() || secret_key.is_empty() || bucket.is_empty() || region.is_empty() {
        return Err(AppError::fail("上传资源失败"));
    }
    let key: String = if prefix.is_empty() {
        let p = chars_of_str(public_id);
        string_from_chars(&p)
    } else {
        let mut k = chars_of_str(prefix);
        k.push('/');
        let mut pc = chars_of_str(public_id);
        k.append(&mut pc);
        assert(k@ =~= prefix@ + seq!['/'] + public_id@);
        string_from_chars(&k)
    };
    let url: String = if !domain.is_empty() {
        let mut u = chars_of_str(domain);
        u.push('/');
        let mut kc = chars_of_str(key.as_str());
        u.append(&mut kc);
        assert(u@ =~= domain@ + seq!['/'] + key@);
        string_from_chars(&u)
    } else {
        let mut u = chars_of_str("https://s3.");
        let mut rc = chars_of_str(region);
        u.append(&mut rc);
        u.push('.');
        let mut ac = chars_of_str("amazonaws.com/");
        u.append(&mut ac);
        let mut bc = chars_of_str(bucket);
        u.append(&mut bc);
        u.push('/');
        let mut kc = chars_of_str(key.as_str());
        u.append(&mut kc);
        assert(u@ =~= "https://s3."@ + region@ + seq!['.'] + "amazonaws.com/"@ + bucket@
            + seq!['/'] + key@);
        string_from_chars(&u)
    };
    Ok(S3Target { key, url })
}

/// How a stored resource is delivered: a locally stored file is read from
/// its internal path and served with its content type, anything else is a
/// redirect to its external address.
pub enum ResourceDelivery {
    LocalFile { path: String, file_type: String },
    Redirect { url: String },
}

pub open spec fn spec_delivery_local(r: ResourceV) -> bool {
    r.storage_type == Some("LOCAL"@) || r.storage_type is None
}

/// Decides delivery for one resource row.
pub fn resource_delivery(r: &Resource) -> (d: ResourceDelivery)
    ensures
        spec_delivery_local(r@) ==> (d matches ResourceDelivery::LocalFile { path, file_type }
            && path@ == (match r@.internal_path {
            Some(p) => p,
            None => Seq::<char>::empty(),
        }) && file_type@ == r@.file_type),
        !spec_delivery_local(r@) ==> (d matches ResourceDelivery::Redirect { url } && url@ == (
        match r@.external_link {
            Some(l) => l,
            None => Seq::<char>::empty(),
        })),
{
    let is_local = match &r.storage_type {
        Some(t) => str_eq(t.as_str(), "LOCAL"),
        None => true,
    };
    if is_local {
        let path = match &r.internal_path {
            Some(p) => p.clone(),
            None => crate::model::empty_string(),
        };
        ResourceDelivery::LocalFile { path, file_type: r.file_type.clone() }
    } else {
        let url = match &r.external_link {
            Some(l) => l.clone(),
            None => crate::model::empty_string(),
        };
        ResourceDelivery::Redirect { url }
    }
}

} // verus!

//! Turning a request skeleton and a wordlist entry into a concrete request.
use vstd::prelude::*;
use vstd::utf8::encode_utf8;
use crate::head::{
    Header, headers_view, http_head, lookup, merge_headers, is_decimal, decimal_value, parse_head,
    merge, find_value, parse_decimal,
};
use crate::template::{RequestTemplate, placeholder, substitute, completed_head, complete_head};

verus! {

/// Why a skeleton, once an entry is substituted into it, gives no request.
#[derive(Debug, Clone, Copy, PartialEq, Eq, Structural)]
pub enum MaterializeError {
    /// The request line or a header line is malformed.
    MalformedHead,
    /// `Content-Length` is not a decimal number that fits a machine word.
    InvalidContentLength,
    /// Fewer bytes follow the head than `Content-Length` declares.
    TruncatedBody,
    /// The request target cannot be resolved against the base URL, or the
    /// base URL does not parse.
    UnresolvableUrl,
}

/// A request ready to be sent, tagged with the entry it was made from.
#[derive(Debug)]
pub struct CandidateRequest {
    pub method: String,
    /// The absolute URL that the request goes to.
    pub url: String,
    /// Header names in lower case, one per name.
    pub headers: Vec<Header>,
    pub body: Vec<u8>,
    /// The wordlist entry substituted into the skeleton.
    pub tag: String,
}

/// The mathematical value of a `CandidateRequest`.
pub struct CandidateView {
    pub method: Seq<char>,
    pub url: Seq<char>,
    pub headers: Seq<(Seq<u8>, Seq<u8>)>,
    pub body: Seq<u8>,
    pub tag: Seq<char>,
}

impl View for CandidateRequest {
    type V = CandidateView;

    open spec fn view(&self) -> CandidateView {
        CandidateView {
            method: self.method@,
            url: self.url@,
            headers: headers_view(self.headers@),
            body: self.body@,
            tag: self.tag@,
        }
    }
}

/// The header name `content-length`.
pub open spec fn content_length_name() -> Seq<u8> {
    seq![99u8, 111, 110, 116, 101, 110, 116, 45, 108, 101, 110, 103, 116, 104]
}

fn content_length_key() -> (r: Vec<u8>)
    ensures
        r@ == content_length_name(),
{
    let r = vec![99u8, 111, 110, 116, 101, 110, 116, 45, 108, 101, 110, 103, 116, 104];
    assert(r@ =~= content_length_name());
    r
}

/// The body of `t`, whose head ends at `n`: the `Content-Length` bytes that
/// follow the head when that header is given, else all that follows it.
pub open spec fn body_of(t: Seq<u8>, n: nat, declared: Option<Seq<u8>>) -> Result<
    Seq<u8>,
    MaterializeError,
> {
    match declared {
        None => Ok(t.subrange(n as int, t.len() as int)),
        Some(v) => if !(is_decimal(v) && decimal_value(v) <= usize::MAX) {
            Err(MaterializeError::InvalidContentLength)
        } else if n + decimal_value(v) > t.len() {
            Err(MaterializeError::TruncatedBody)
        } else {
            Ok(t.subrange(n as int, (n + decimal_value(v)) as int))
        },
    }
}

/// What `url::Url` gives for `reference` resolved against `base`, written
/// out as text, when both parse.
pub uninterp spec fn joined_url(base: Seq<char>, reference: Seq<char>) -> Option<Seq<char>>;

/// Relies on `url::Url::parse` (as `reqwest::Url`) to read `base` and on
/// `Url::join` to resolve `reference` against it; the result is the joined
/// URL's serialization. `None` when either call fails.
#[verifier::external_body]
fn join_url(base: &str, reference: &str) -> (r: Option<String>)
    ensures
        r is Some == joined_url(base@, reference@) is Some,
        r is Some ==> r->0@ == joined_url(base@, reference@)->0,
{
    match reqwest::Url::parse(base) {
        Ok(u) => match u.join(reference) {
            Ok(j) => Some(String::from(j)),
            Err(_) => None,
        },
        Err(_) => None,
    }
}

/// The bytes that are parsed for `entry`: the skeleton with every
/// placeholder replaced by the entry's UTF-8 text, its head closed.
pub open spec fn prepared(raw: Seq<u8>, entry: Seq<char>) -> Seq<u8> {
    completed_head(substitute(raw, placeholder(), encode_utf8(entry)))
}

/// The request that the skeleton `raw` gives for `entry` against `base`.
pub open spec fn materialized(raw: Seq<u8>, entry: Seq<char>, base: Seq<char>) -> Result<
    CandidateView,
    MaterializeError,
> {
    let t = prepared(raw, entry);
    match http_head(t) {
        None => Err(MaterializeError::MalformedHead),
        Some(h) => {
            let headers = merge_headers(h.2);
            match body_of(t, h.3, lookup(headers, content_length_name())) {
                Err(e) => Err(e),
                Ok(body) => match joined_url(base, h.1) {
                    None => Err(MaterializeError::UnresolvableUrl),
                    Some(url) => Ok(CandidateView { method: h.0, url, headers, body, tag: entry }),
                },
            }
        },
    }
}

/// Cuts the body out of `t`, whose head ends at `n`.
fn extract_body(t: &[u8], n: usize, headers: &Vec<Header>) -> (r: Result<Vec<u8>, MaterializeError>)
    requires
        n <= t@.len(),
    ensures
        match r {
            Ok(b) => body_of(t@, n as nat, lookup(headers_view(headers@), content_length_name()))
                == Ok::<Seq<u8>, MaterializeError>(b@),
            Err(e) => body_of(t@, n as nat, lookup(headers_view(headers@), content_length_name()))
                == Err::<Seq<u8>, MaterializeError>(e),
        },
{
    let key = content_length_key();
    match find_value(headers, key.as_slice()) {
        None => Ok(vstd::slice::slice_to_vec(vstd::slice::slice_subrange(t, n, t.len()))),
        Some(v) => match parse_decimal(v.as_slice()) {
            None => Err(MaterializeError::InvalidContentLength),
            Some(len) => {
                if len > t.len() - n {
                    Err(MaterializeError::TruncatedBody)
                } else {
                    Ok(vstd::slice::slice_to_vec(vstd::slice::slice_subrange(t, n, n + len)))
                }
            },
        },
    }
}

/// Substitutes `entry` into the skeleton and reads the result as a request
/// whose target is resolved against `base`.
pub fn materialize(template: &RequestTemplate, entry: &str, base: &str) -> (r: Result<
    CandidateRequest,
    MaterializeError,
>)
    ensures
        match r {
            Ok(c) => materialized(template@, entry@, base@) == Ok::<CandidateView, MaterializeError>(c@),
            Err(e) => materialized(template@, entry@, base@) == Err::<CandidateView, MaterializeError>(e),
        },
{
    let t = complete_head(template.substituted(entry.as_bytes()));
    let head = match parse_head(t.as_slice()) {
        None => return Err(MaterializeError::MalformedHead),
        Some(h) => h,
    };
    let headers = merge(&head.headers);
    let body = match extract_body(t.as_slice(), head.len, &headers) {
        Err(e) => return Err(e),
        Ok(b) => b,
    };
    let url = match join_url(base, head.path.as_str()) {
        None => return Err(MaterializeError::UnresolvableUrl),
        Some(u) => u,
    };
    Ok(CandidateRequest { method: head.method, url, headers, body, tag: entry.to_owned() })
}

} // verus!

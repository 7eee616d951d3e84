//! What a request says of itself in its headers.

use crate::text::text_view;
use axum::http::{HeaderMap, HeaderValue};
use vstd::prelude::*;
use vstd::string::*;

verus! {

/// `axum::http::HeaderMap`, the headers of a request. Its contents are named by
/// `header_values`.
#[verifier::external_type_specification]
#[verifier::external_body]
#[verifier::reject_recursive_types(T)]
pub struct ExHeaderMap<T>(axum::http::HeaderMap<T>);

/// `axum::http::HeaderValue`, the value of one header. Nothing is said of what is
/// inside.
#[verifier::external_type_specification]
#[verifier::external_body]
pub struct ExHeaderValue(axum::http::HeaderValue);

/// The contents of `headers`: for each name that occurs, in lower case, the
/// bytes of its values in their order.
pub uninterp spec fn header_values(headers: HeaderMap<HeaderValue>) -> Map<Seq<char>, Seq<Seq<u8>>>;

/// Whether `s` can be a header's name as `header_values` writes it.
pub open spec fn is_lower_name(s: Seq<char>) -> bool {
    &&& s.len() > 0
    &&& forall|i: int|
        0 <= i < s.len() ==> 'a' as u32 <= #[trigger] s[i] as u32 <= 'z' as u32 || s[i] == '-'
}

/// `HeaderMap::get`: the first value under `name`, as bytes, or `None` where
/// there is no value under it. (Names are compared without regard to case, and
/// kept in lower case.)
#[verifier::external_body]
fn first_value(headers: &HeaderMap<HeaderValue>, name: &str) -> (value: Option<Vec<u8>>)
    requires
        is_lower_name(name@),
    ensures
        match value {
            Some(bytes) => header_values(*headers).contains_key(name@) && header_values(
                *headers,
            )[name@].len() > 0 && bytes@ == header_values(*headers)[name@][0],
            None => !header_values(*headers).contains_key(name@),
        },
{
    headers.get(name).map(|value| value.as_bytes().to_vec())
}

/// Whether `b` is a character that text in a header may hold: visible ASCII, a
/// space or a tab.
pub open spec fn is_visible(b: u8) -> bool {
    32 <= b < 127 || b == 9
}

/// The text that `bytes` are, if all of them are visible.
pub open spec fn visible_text(bytes: Seq<u8>) -> Option<Seq<char>> {
    if forall|i: int| 0 <= i < bytes.len() ==> is_visible(#[trigger] bytes[i]) {
        Some(bytes.map_values(|b: u8| b as char))
    } else {
        None
    }
}

/// The text that `bytes` are, if all of them are visible.
pub fn text_from(bytes: &Vec<u8>) -> (r: Option<String>)
    ensures
        text_view(r) == visible_text(bytes@),
{
    let mut s: String = String::new();
    let mut i: usize = 0;
    while i < bytes.len()
        invariant
            i <= bytes.len(),
            forall|j: int| 0 <= j < i ==> is_visible(#[trigger] bytes@[j]),
            s@ == bytes@.take(i as int).map_values(|b: u8| b as char),
        decreases bytes.len() - i,
    {
        let b: u8 = bytes[i];
        if !((32 <= b && b < 127) || b == 9) {
            return None;
        }
        s.push(b as char);
        i = i + 1;
    }
    Some(s)
}

/// The text of the first value under `name`: nothing, where there is no such
/// value or where it is not visible text.
pub open spec fn header_text(values: Map<Seq<char>, Seq<Seq<u8>>>, name: Seq<char>) -> Option<
    Seq<char>,
> {
    if values.contains_key(name) {
        visible_text(values[name][0])
    } else {
        None
    }
}

/// The text of the first value under `name`.
fn text_of(headers: &HeaderMap<HeaderValue>, name: &str) -> (r: Option<String>)
    requires
        is_lower_name(name@),
    ensures
        text_view(r) == header_text(header_values(*headers), name@),
{
    match first_value(headers, name) {
        Some(bytes) => text_from(&bytes),
        None => None,
    }
}

/// The headers that the service reads.
pub struct HeadersView {
    pub host: Option<Seq<char>>,
    pub x_forwarded_proto: Option<Seq<char>>,
    pub accept: Option<Seq<char>>,
    pub content_type: Option<Seq<char>>,
    pub fly_client_ip: Option<Seq<char>>,
    pub x_real_ip: Option<Seq<char>>,
    pub x_forwarded_for: Option<Seq<char>>,
    pub x_filename: Option<Seq<char>>,
}

/// The headers that the service reads, each if it was sent as visible text.
pub struct Headers {
    /// `Host`
    pub host: Option<String>,
    /// `X-Forwarded-Proto`
    pub x_forwarded_proto: Option<String>,
    /// `Accept`
    pub accept: Option<String>,
    /// `Content-Type`
    pub content_type: Option<String>,
    /// `Fly-Client-IP`
    pub fly_client_ip: Option<String>,
    /// `X-Real-IP`
    pub x_real_ip: Option<String>,
    /// `X-Forwarded-For`
    pub x_forwarded_for: Option<String>,
    /// `X-Filename`
    pub x_filename: Option<String>,
}

impl View for Headers {
    type V = HeadersView;

    open spec fn view(&self) -> HeadersView {
        HeadersView {
            host: text_view(self.host),
            x_forwarded_proto: text_view(self.x_forwarded_proto),
            accept: text_view(self.accept),
            content_type: text_view(self.content_type),
            fly_client_ip: text_view(self.fly_client_ip),
            x_real_ip: text_view(self.x_real_ip),
            x_forwarded_for: text_view(self.x_forwarded_for),
            x_filename: text_view(self.x_filename),
        }
    }
}

/// What the service reads in a request whose headers hold `values`.
pub open spec fn headers_of(values: Map<Seq<char>, Seq<Seq<u8>>>) -> HeadersView {
    HeadersView {
        host: header_text(values, "host"@),
        x_forwarded_proto: header_text(values, "x-forwarded-proto"@),
        accept: header_text(values, "accept"@),
        content_type: header_text(values, "content-type"@),
        fly_client_ip: header_text(values, "fly-client-ip"@),
        x_real_ip: header_text(values, "x-real-ip"@),
        x_forwarded_for: header_text(values, "x-forwarded-for"@),
        x_filename: header_text(values, "x-filename"@),
    }
}

/// Reads the headers of a request.
pub fn read_headers(headers: &HeaderMap<HeaderValue>) -> (h: Headers)
    ensures
        h@ == headers_of(header_values(*headers)),
{
    proof {
        reveal_strlit("host");
        reveal_strlit("x-forwarded-proto");
        reveal_strlit("accept");
        reveal_strlit("content-type");
        reveal_strlit("fly-client-ip");
        reveal_strlit("x-real-ip");
        reveal_strlit("x-forwarded-for");
        reveal_strlit("x-filename");
    }
    Headers {
        host: text_of(headers, "host"),
        x_forwarded_proto: text_of(headers, "x-forwarded-proto"),
        accept: text_of(headers, "accept"),
        content_type: text_of(headers, "content-type"),
        fly_client_ip: text_of(headers, "fly-client-ip"),
        x_real_ip: text_of(headers, "x-real-ip"),
        x_forwarded_for: text_of(headers, "x-forwarded-for"),
        x_filename: text_of(headers, "x-filename"),
    }
}

} // verus!

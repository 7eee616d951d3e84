//! Links, clients and the front page.

use crate::headers::{Headers, HeadersView};
use crate::model::stored_bytes;
use crate::reply::{plain, Reply, ReplyView};
use crate::state::AppState;
use crate::text::{
    chars_of, contains, decimal, decimal_text, first_index, first_index_is_first, occurs_at,
    occurs_in, replace_all, replaced, starts_with, string_of, trim, trim_end, trimmed, trimmed_to,
    Class,
};
use vstd::prelude::*;
use vstd::string::*;

verus! {

/// The text in `o`, or `default` where there is none.
pub open spec fn text_or(o: Option<Seq<char>>, default: Seq<char>) -> Seq<char> {
    match o {
        Some(s) => s,
        None => default,
    }
}

/// The scheme of links to `host` where nothing else says it.
pub open spec fn default_scheme(host: Seq<char>) -> Seq<char> {
    if occurs_at(host, "localhost"@, 0) || occurs_at(host, "127."@, 0) {
        "http"@
    } else {
        "https"@
    }
}

/// The beginning of the links: the configured one without slashes at its end,
/// or else what the request says of the host that it was sent to.
pub open spec fn base_of(base_url: Option<Seq<char>>, headers: HeadersView) -> Seq<char> {
    match base_url {
        Some(b) => trim_end(b, Class::Only('/')),
        None => {
            let host = text_or(headers.host, "localhost:8080"@);
            text_or(headers.x_forwarded_proto, default_scheme(host)) + "://"@ + host
        },
    }
}

/// The beginning of the links that `st` hands out to a request with `headers`.
pub fn base(st: &AppState, headers: &Headers) -> (r: String)
    ensures
        r@ == base_of(st@.base_url, headers@),
{
    if let Some(b) = st.base_url() {
        let v: Vec<char> = chars_of(b.as_str());
        let end: usize = trimmed_to(&v, Class::Only('/'), 0, v.len());
        assert(v@.subrange(0, v@.len() as int) == v@);
        return string_of(&v, 0, end);
    }
    let host: &str = match &headers.host {
        Some(h) => h.as_str(),
        None => "localhost:8080",
    };
    let scheme: &str = match &headers.x_forwarded_proto {
        Some(s) => s.as_str(),
        None => if starts_with(host, "localhost") || starts_with(host, "127.") {
            "http"
        } else {
            "https"
        },
    };
    let mut r: String = scheme.to_string();
    r.append("://");
    r.append(host);
    r
}

/// What stands in front of the first `c` of `s`.
pub open spec fn before_first(s: Seq<char>, c: char) -> Seq<char> {
    s.take(first_index(s, c))
}

/// The address that a request's uploads are charged to: what the proxies say,
/// or else the address that the request came from.
pub open spec fn client_ip_of(headers: HeadersView, peer: Seq<char>) -> Seq<char> {
    match (headers.fly_client_ip, headers.x_real_ip, headers.x_forwarded_for) {
        (Some(ip), _, _) => ip,
        (None, Some(ip), _) => ip,
        (None, None, Some(list)) => trim(before_first(list, ','), Class::White),
        (None, None, None) => peer,
    }
}

/// The address that the uploads of a request with `headers`, which came from
/// `peer`, are charged to.
pub fn client_ip(headers: &Headers, peer: &str) -> (r: String)
    ensures
        r@ == client_ip_of(headers@, peer@),
{
    if let Some(ip) = &headers.fly_client_ip {
        return ip.clone();
    }
    if let Some(ip) = &headers.x_real_ip {
        return ip.clone();
    }
    if let Some(list) = &headers.x_forwarded_for {
        let v: Vec<char> = chars_of(list.as_str());
        let mut i: usize = 0;
        proof {
            first_index_is_first(v@, ',');
        }
        while i < v.len() && v[i] != ','
            invariant
                i <= v.len(),
                i <= first_index(v@, ',') <= v.len(),
                first_index(v@, ',') < v.len() ==> v@[first_index(v@, ',')] == ',',
                forall|j: int| 0 <= j < first_index(v@, ',') ==> v@[j] != ',',
            decreases v.len() - i,
        {
            i = i + 1;
        }
        return trimmed(&v, Class::White, 0, i);
    }
    peer.to_string()
}

/// The help that a terminal is shown.
pub open spec fn help(base: Seq<char>) -> Seq<char> {
    "justupload - temporary file sharing\n\nupload:\n  curl -T file.txt "@ + base
        + "/\n  curl -F 'file=@file.txt' "@ + base
        + "/\n  wget --method=PUT --body-file=file.txt -qO- "@ + base
        + "/\n\ndownload:\n  curl -OJ <returned url>\n\nrules:\n  - max file size: 10 MB\n  - deleted after the first download\n  - deleted after 1 hour\n  - max 30 MB of uploads per hour per IP\n  - no backups, no guarantees\n"@
}

/// Whether a request with `headers` comes from a browser.
pub open spec fn wants_html(headers: HeadersView) -> bool {
    match headers.accept {
        Some(a) => occurs_in(a, "text/html"@),
        None => false,
    }
}

/// The front page: for browsers `page` with the beginning of the links filled
/// in, for everyone else the help in plain text.
pub open spec fn index_of(
    base_url: Option<Seq<char>>,
    headers: HeadersView,
    page: Seq<char>,
) -> ReplyView {
    let base = base_of(base_url, headers);
    if wants_html(headers) {
        ReplyView {
            status: 200,
            content_type: "text/html; charset=utf-8"@,
            body: replaced(page, "{{BASE}}"@, base),
        }
    } else {
        plain(200, help(base))
    }
}

/// The front page. `page` is what browsers are shown, with `{{BASE}}` wherever
/// the beginning of the links belongs.
pub fn index(st: &AppState, headers: &Headers, page: &str) -> (r: Reply)
    ensures
        r@ == index_of(st@.base_url, headers@, page@),
{
    let b: String = base(st, headers);
    let html: bool = match &headers.accept {
        Some(a) => contains(a.as_str(), "text/html"),
        None => false,
    };
    if html {
        proof {
            reveal_strlit("{{BASE}}");
        }
        return Reply {
            status: 200,
            content_type: "text/html; charset=utf-8".to_string(),
            body: replace_all(page, "{{BASE}}", b.as_str()),
        };
    }
    let mut txt: String =
        "justupload - temporary file sharing\n\nupload:\n  curl -T file.txt ".to_string();
    txt.append(b.as_str());
    txt.append("/\n  curl -F 'file=@file.txt' ");
    txt.append(b.as_str());
    txt.append("/\n  wget --method=PUT --body-file=file.txt -qO- ");
    txt.append(b.as_str());
    txt.append(
        "/\n\ndownload:\n  curl -OJ <returned url>\n\nrules:\n  - max file size: 10 MB\n  - deleted after the first download\n  - deleted after 1 hour\n  - max 30 MB of uploads per hour per IP\n  - no backups, no guarantees\n",
    );
    Reply::plain(200, txt)
}

/// The report on `files` stored files of `bytes` bytes together.
pub open spec fn health_of(files: nat, bytes: nat) -> ReplyView {
    plain(200, "ok\nfiles="@ + decimal(files) + "\nbytes="@ + decimal(bytes) + "\n"@)
}

/// Writes the report on `files` stored files of `bytes` bytes together.
pub fn health_report(files: usize, bytes: u64) -> (r: Reply)
    ensures
        r@ == health_of(files as nat, bytes as nat),
{
    let mut txt: String = "ok\nfiles=".to_string();
    txt.append(decimal_text(files as u64).as_str());
    txt.append("\nbytes=");
    txt.append(decimal_text(bytes).as_str());
    txt.append("\n");
    Reply::plain(200, txt)
}

/// The report on what is stored, if the sum of the sizes can be written in 64
/// bits.
pub fn health(st: &AppState) -> (r: Option<Reply>)
    requires
        st.wf(),
    ensures
        match r {
            Some(reply) => reply@ == health_of(
                st@.files.dom().len(),
                stored_bytes(st@.files),
            ),
            None => stored_bytes(st@.files) > u64::MAX,
        },
{
    match st.checked_stats() {
        Some((files, bytes)) => Some(health_report(files, bytes)),
        None => None,
    }
}

/// What a request to do something else than read or upload is answered.
pub fn method_not_allowed() -> (r: Reply)
    ensures
        r@ == plain(405, "method not allowed\n"@),
{
    Reply::plain(405, "method not allowed\n".to_string())
}

} // verus!

//! Uploads: who may upload, what is stored, and what is answered.

use crate::headers::{Headers, HeadersView};
use crate::ids::{gen_id, is_drawn, is_id};
use crate::intake::{
    error_reply, form_start, raw_start, sanitized_option, ErrorView, Intake, IntakeView,
    UploadError,
};
use crate::model::{EntryView, StateView};
use crate::names::{is_path_of, may_be_joined, path_in, sanitize};
use crate::pages::{base, base_of, client_ip, client_ip_of};
use crate::reply::{plain, Reply, ReplyView};
use crate::state::{AppState, Entry, MAX_FILE_SIZE, QUOTA_BYTES};
use crate::text::{decimal, decimal_text, occurs_at, starts_with, text_view};
use vstd::prelude::*;
use vstd::string::*;

verus! {

/// The bytes of a whole form that are read at most: a file of the largest size
/// and what the form adds to it.
pub const BODY_LIMIT: usize = MAX_FILE_SIZE + 64 * 1024;

/// An upload that was let in.
pub struct UploadView {
    pub ip: Seq<char>,
    pub cap: u64,
    pub id: Seq<char>,
    pub path: Seq<char>,
    pub form: bool,
    pub path_name: Option<Seq<char>>,
    pub header_name: Option<Seq<char>>,
}

/// An upload that was let in.
pub struct Upload {
    /// Who is charged for it.
    pub ip: String,
    /// The bytes that are accepted at most.
    pub cap: u64,
    /// The id under which it will be stored.
    pub id: String,
    /// Where its body is kept.
    pub path: String,
    /// Whether its body is a form that holds the file, rather than the file.
    pub form: bool,
    /// The name that the path of the request gives.
    pub path_name: Option<String>,
    /// The name that the headers of the request give.
    pub header_name: Option<String>,
}

impl View for Upload {
    type V = UploadView;

    open spec fn view(&self) -> UploadView {
        UploadView {
            ip: self.ip@,
            cap: self.cap,
            id: self.id@,
            path: self.path@,
            form: self.form,
            path_name: text_view(self.path_name),
            header_name: text_view(self.header_name),
        }
    }
}

/// Whether the body of a request with `headers` is a form.
pub open spec fn is_form(headers: HeadersView) -> bool {
    match headers.content_type {
        Some(t) => occurs_at(t, "multipart/form-data"@, 0),
        None => false,
    }
}

/// The bytes accepted of someone who may still upload `allowance` bytes.
pub open spec fn cap_of(allowance: int) -> int {
    if allowance < MAX_FILE_SIZE {
        allowance
    } else {
        MAX_FILE_SIZE as int
    }
}

/// What someone who may not upload anything now is answered.
pub open spec fn quota_reply() -> ReplyView {
    plain(
        429,
        "quota exceeded: "@ + decimal((QUOTA_BYTES / 1024 / 1024) as nat)
            + " MB per hour per IP, try again later\n"@,
    )
}

impl StateView {
    /// The upload that is let in at `now`, under `id` and with its body at `path`,
    /// or what is answered instead. `named` is the name in the path of the
    /// request, if it has one.
    pub open spec fn admission(
        self,
        headers: HeadersView,
        peer: Seq<char>,
        named: Option<Seq<char>>,
        id: Seq<char>,
        path: Seq<char>,
        now: u128,
    ) -> Result<UploadView, ReplyView> {
        let ip = client_ip_of(headers, peer);
        if self.allowance(ip, now) == 0 {
            Err(quota_reply())
        } else {
            Ok(
                UploadView {
                    ip,
                    cap: cap_of(self.allowance(ip, now)) as u64,
                    id,
                    path,
                    form: is_form(headers),
                    path_name: sanitized_option(named),
                    header_name: sanitized_option(headers.x_filename),
                },
            )
        }
    }
}

/// The view of an admission.
pub open spec fn admission_view(r: Result<Upload, Reply>) -> Result<UploadView, ReplyView> {
    match r {
        Ok(upload) => Ok(upload@),
        Err(reply) => Err(reply@),
    }
}

/// The name in the path of a request, if it has one.
pub open spec fn str_view(s: Option<&str>) -> Option<Seq<char>> {
    match s {
        Some(s) => Some(s@),
        None => None,
    }
}

impl AppState {
    /// Lets an upload in, or says what is answered instead. `named` is the name
    /// in the path of the request, if it has one.
    pub fn begin_upload(&mut self, headers: &Headers, peer: &str, named: Option<&str>) -> (r: Result<
        Upload,
        Reply,
    >)
        requires
            old(self).wf(),
        ensures
            final(self).wf(),
            exists|id: Seq<char>, path: Seq<char>, now: u128|
                is_id(id) && is_drawn(id) && is_path_of(path, old(self)@.dir, id) && may_be_joined(
                    old(self)@.dir,
                    id,
                    path,
                ) && old(self)@.clock <= now && old(self)@.tells(now)
                    && final(self)@ == old(self)@.at(now).pruned(
                    client_ip_of(headers@, peer@),
                    now,
                ) && admission_view(r) == #[trigger] old(self)@.at(now).admission(
                    headers@,
                    peer@,
                    str_view(named),
                    id,
                    path,
                    now,
                ),
    {
        let now: u128 = self.now();
        let id: String = gen_id();
        let path: String = path_in(self.dir(), id.as_str());
        self.begin_upload_at(headers, peer, named, id, path, now)
    }

    /// `begin_upload` at the time `now`, under the id `id` and with the body at
    /// `path`.
    pub fn begin_upload_at(
        &mut self,
        headers: &Headers,
        peer: &str,
        named: Option<&str>,
        id: String,
        path: String,
        now: u128,
    ) -> (r: Result<Upload, Reply>)
        requires
            old(self).wf(),
        ensures
            final(self).wf(),
            final(self)@ == old(self)@.pruned(client_ip_of(headers@, peer@), now),
            admission_view(r) == old(self)@.admission(
                headers@,
                peer@,
                str_view(named),
                id@,
                path@,
                now,
            ),
    {
        let ip: String = client_ip(headers, peer);
        let remaining: u64 = self.remaining_at(ip.as_str(), now);
        if remaining == 0 {
            let mut txt: String = "quota exceeded: ".to_string();
            txt.append(decimal_text(QUOTA_BYTES / 1024 / 1024).as_str());
            txt.append(" MB per hour per IP, try again later\n");
            return Err(Reply::plain(429, txt));
        }
        let cap: u64 = if remaining < MAX_FILE_SIZE as u64 {
            remaining
        } else {
            MAX_FILE_SIZE as u64
        };
        let form: bool = match &headers.content_type {
            Some(t) => starts_with(t.as_str(), "multipart/form-data"),
            None => false,
        };
        let header_name: Option<String> = match &headers.x_filename {
            Some(n) => Some(sanitize(n.as_str())),
            None => None,
        };
        let path_name: Option<String> = match named {
            Some(n) => Some(sanitize(n)),
            None => None,
        };
        Ok(Upload { ip, cap, id, path, form, path_name, header_name })
    }
}

impl UploadView {
    /// The start of taking in the body.
    pub open spec fn start(self) -> IntakeView {
        if self.form {
            form_start(self.cap)
        } else {
            raw_start(self.cap, self.header_name)
        }
    }

    /// The name under which the file is offered, where the body gave `name`: the
    /// one in the path of the request before any other, and `file` where there
    /// is none.
    pub open spec fn offered_name(self, name: Option<Seq<char>>) -> Seq<char> {
        match (self.path_name, name) {
            (Some(n), _) => n,
            (None, Some(n)) => n,
            (None, None) => "file"@,
        }
    }
}

impl Upload {
    /// The start of taking in the body.
    pub fn intake(&self) -> (r: Intake)
        ensures
            r@ == self@.start(),
            r@.valid(),
    {
        if self.form {
            Intake::form(self.cap)
        } else {
            Intake::raw(self.cap, self.header_name.clone())
        }
    }
}

/// What an upload came to: the name that the body gave and the length of the
/// file, or why there is no file.
pub type Outcome = Result<(Option<String>, u64), UploadError>;

/// The view of what an upload came to.
pub open spec fn outcome_view(r: Outcome) -> Result<(Option<Seq<char>>, u64), ErrorView> {
    match r {
        Ok((name, size)) => Ok((text_view(name), size)),
        Err(e) => Err(e@),
    }
}

/// The link to the file `name` under `id`.
pub open spec fn link(base: Seq<char>, id: Seq<char>, name: Seq<char>) -> Seq<char> {
    base + "/"@ + id + "/"@ + name
}

/// Writes the link to the file `name` under `id`.
pub fn make_link(base: &str, id: &str, name: &str) -> (url: String)
    ensures
        url@ == link(base@, id@, name@),
{
    let mut url: String = base.to_string();
    url.append("/");
    url.append(id);
    url.append("/");
    url.append(name);
    url
}

/// How an upload ended.
pub struct CompletionView {
    pub reply: ReplyView,
    pub remove: Option<Seq<char>>,
    pub stored: Option<(Seq<char>, u64)>,
}

/// How an upload ended.
pub struct Completion {
    /// What is answered.
    pub reply: Reply,
    /// The file that is to be removed, if there is one.
    pub remove: Option<String>,
    /// The name and the length of the file that was stored, if one was.
    pub stored: Option<(String, u64)>,
}

impl View for Completion {
    type V = CompletionView;

    open spec fn view(&self) -> CompletionView {
        CompletionView {
            reply: self.reply@,
            remove: text_view(self.remove),
            stored: match self.stored {
                Some((name, size)) => Some((name@, size)),
                None => None,
            },
        }
    }
}

impl StateView {
    /// Whether `upload`, which came to `outcome`, is stored: it is a file, it is
    /// not empty, and at `now` there is still quota for it.
    pub open spec fn accepts(
        self,
        upload: UploadView,
        outcome: Result<(Option<Seq<char>>, u64), ErrorView>,
        now: u128,
    ) -> bool {
        match outcome {
            Ok((_, size)) => size > 0 && self.fits(upload.ip, size, now),
            Err(_) => false,
        }
    }

    /// The state after `upload` came to `outcome`: charged at `now`, and stored
    /// at `created`.
    pub open spec fn after_upload(
        self,
        upload: UploadView,
        outcome: Result<(Option<Seq<char>>, u64), ErrorView>,
        now: u128,
        created: u128,
    ) -> StateView {
        match outcome {
            Err(_) => self,
            Ok((name, size)) => if size == 0 {
                self
            } else if !self.fits(upload.ip, size, now) {
                self.pruned(upload.ip, now)
            } else {
                self.reserved(upload.ip, size, now).stored(
                    upload.id,
                    EntryView {
                        name: upload.offered_name(name),
                        path: upload.path,
                        size,
                        created,
                    },
                )
            },
        }
    }

    /// How `upload`, a request with `headers` which came to `outcome`, ends at
    /// `now`.
    pub open spec fn completion(
        self,
        upload: UploadView,
        headers: HeadersView,
        outcome: Result<(Option<Seq<char>>, u64), ErrorView>,
        now: u128,
    ) -> CompletionView {
        match outcome {
            Err(e) => CompletionView {
                reply: error_reply(e, upload.cap),
                remove: Some(upload.path),
                stored: None,
            },
            Ok((name, size)) => if size == 0 {
                CompletionView {
                    reply: plain(400, "empty upload\n"@),
                    remove: Some(upload.path),
                    stored: None,
                }
            } else if !self.fits(upload.ip, size, now) {
                CompletionView {
                    reply: plain(429, "quota exceeded, try again later\n"@),
                    remove: Some(upload.path),
                    stored: None,
                }
            } else {
                CompletionView {
                    reply: plain(
                        201,
                        link(
                            base_of(self.base_url, headers),
                            upload.id,
                            upload.offered_name(name),
                        ) + "\n"@,
                    ),
                    remove: None,
                    stored: Some((upload.offered_name(name), size)),
                }
            },
        }
    }
}

impl AppState {
    /// Ends an upload that came to `outcome`: stores the file, or has it
    /// removed.
    pub fn finish_upload(&mut self, upload: Upload, headers: &Headers, outcome: Outcome) -> (r:
        Completion)
        requires
            old(self).wf(),
        ensures
            final(self).wf(),
            exists|now: u128, created: u128|
                old(self)@.clock <= now <= created && old(self)@.tells(now)
                    && old(self)@.at(now).tells(created) && final(self)@ == #[trigger] old(self)@.at(
                    created,
                ).after_upload(upload@, outcome_view(outcome), now, created) && r@ == old(self)@.at(
                    created,
                ).completion(
                    upload@,
                    headers@,
                    outcome_view(outcome),
                    now,
                ),
    {
        let now: u128 = self.now();
        let created: u128 = self.now();
        assert(self@ == old(self)@.at(created));
        self.finish_upload_at(upload, headers, outcome, now, created)
    }

    /// `finish_upload`, charging at the time `now` and storing at the time
    /// `created`.
    pub fn finish_upload_at(
        &mut self,
        upload: Upload,
        headers: &Headers,
        outcome: Outcome,
        now: u128,
        created: u128,
    ) -> (r: Completion)
        requires
            old(self).wf(),
        ensures
            final(self).wf(),
            final(self)@ == old(self)@.after_upload(upload@, outcome_view(outcome), now, created),
            r@ == old(self)@.completion(upload@, headers@, outcome_view(outcome), now),
    {
        let (name, size) = match outcome {
            Ok(v) => v,
            Err(e) => {
                return Completion {
                    reply: e.into_response(upload.cap),
                    remove: Some(upload.path),
                    stored: None,
                };
            },
        };
        if size == 0 {
            return Completion {
                reply: Reply::plain(400, "empty upload\n".to_string()),
                remove: Some(upload.path),
                stored: None,
            };
        }
        if self.try_reserve_at(upload.ip.as_str(), size, now).is_err() {
            return Completion {
                reply: Reply::plain(429, "quota exceeded, try again later\n".to_string()),
                remove: Some(upload.path),
                stored: None,
            };
        }
        let name: String = match upload.path_name {
            Some(n) => n,
            None => match name {
                Some(n) => n,
                None => "file".to_string(),
            },
        };
        let mut body: String = make_link(
            base(self, headers).as_str(),
            upload.id.as_str(),
            name.as_str(),
        );
        body.append("\n");
        let stored: Option<(String, u64)> = Some((name.clone(), size));
        self.insert(upload.id, Entry { name, path: upload.path, size, created });
        Completion { reply: Reply::plain(201, body), remove: None, stored }
    }
}

} // verus!

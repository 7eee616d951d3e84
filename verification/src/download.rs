//! Downloads: each file once, and none after its time.

use crate::model::{live, EntryView, StateView};
use crate::names::is_one_component;
use crate::reply::{plain, Reply, ReplyView};
use crate::state::{is_live, AppState, Entry};
use crate::text::{decimal, decimal_text, text_view};
use vstd::prelude::*;
use vstd::string::*;

verus! {

/// What a request for a file comes to.
pub enum ServeView {
    Open(EntryView),
    Refuse(ReplyView, Option<Seq<char>>),
}

/// What a request for a file comes to.
pub enum Serve {
    /// The file is to be opened and sent.
    Open(Entry),
    /// The request is refused with this answer, and the file at this path, if
    /// there is one, is to be removed.
    Refuse(Reply, Option<String>),
}

impl View for Serve {
    type V = ServeView;

    open spec fn view(&self) -> ServeView {
        match self {
            Serve::Open(entry) => ServeView::Open(entry@),
            Serve::Refuse(reply, remove) => ServeView::Refuse(reply@, text_view(*remove)),
        }
    }
}

impl StateView {
    /// What a request for the file under `id` comes to at `now`.
    pub open spec fn serve(self, id: Seq<char>, now: u128) -> ServeView {
        match self.lookup(id) {
            None => ServeView::Refuse(
                plain(404, "not found (already downloaded or expired)\n"@),
                None,
            ),
            Some(entry) => if live(now, entry.created) {
                ServeView::Open(entry)
            } else {
                ServeView::Refuse(plain(404, "expired\n"@), Some(entry.path))
            },
        }
    }
}

impl AppState {
    /// Takes the file under `id` out, to be sent if its time is not up.
    pub fn serve(&mut self, id: &str) -> (r: Serve)
        requires
            old(self).wf(),
        ensures
            final(self).wf(),
            exists|now: u128|
                old(self)@.clock <= now && old(self)@.tells(now) && final(self)@ == old(self)@.at(now).taken(id@) && r@
                    == #[trigger] old(self)@.at(now).serve(id@, now),
    {
        let now: u128 = self.now();
        self.serve_at(id, now)
    }

    /// `serve` at the time `now`.
    pub fn serve_at(&mut self, id: &str, now: u128) -> (r: Serve)
        requires
            old(self).wf(),
        ensures
            final(self).wf(),
            final(self)@ == old(self)@.taken(id@),
            r@ == old(self)@.serve(id@, now),
    {
        match self.take(id) {
            None => Serve::Refuse(
                Reply::plain(404, "not found (already downloaded or expired)\n".to_string()),
                None,
            ),
            Some(entry) => {
                if is_live(now, entry.created) {
                    Serve::Open(entry)
                } else {
                    Serve::Refuse(
                        Reply::plain(404, "expired\n".to_string()),
                        Some(entry.path),
                    )
                }
            },
        }
    }
}

/// The first media type that `mime_guess` knows for the extension of the file
/// name `name`.
pub uninterp spec fn guessed_type(name: Seq<char>) -> Option<Seq<char>>;

/// `mime_guess::from_path` and, of its guess, `MimeGuess::first_raw`: the first
/// media type that the table of the crate holds for the extension of `name`. No
/// file is read. Nothing is claimed of names with a `/`, a `\` or a `:`, for
/// which of these end a component of a path, and with it what the extension of
/// the name is, differs between platforms.
#[verifier::external_body]
fn guess_type(name: &str) -> (r: Option<String>)
    ensures
        is_one_component(name@) ==> text_view(r) == guessed_type(name@),
{
    mime_guess::from_path(name).first_raw().map(|t| t.to_string())
}

/// Whether `guess` is what `guess_type` may return for `name`.
pub closed spec fn may_be_guessed(name: Seq<char>, guess: Option<Seq<char>>) -> bool {
    exists|n: &str, g: Option<String>|
        n@ == name && text_view(g) == guess && #[trigger] call_ensures(guess_type, (n,), g)
}

/// How a file is sent.
pub struct DownloadView {
    pub content_type: Seq<char>,
    pub content_length: Seq<char>,
    pub content_disposition: Seq<char>,
    pub remove: Seq<char>,
}

/// How a file is sent: the headers of the answer, and what is removed.
pub struct Download {
    /// The value of `Content-Type`.
    pub content_type: String,
    /// The value of `Content-Length`.
    pub content_length: String,
    /// The value of `Content-Disposition`.
    pub content_disposition: String,
    /// The file that is to be removed, now that it is open.
    pub remove: String,
}

impl View for Download {
    type V = DownloadView;

    open spec fn view(&self) -> DownloadView {
        DownloadView {
            content_type: self.content_type@,
            content_length: self.content_length@,
            content_disposition: self.content_disposition@,
            remove: self.remove@,
        }
    }
}

/// The `Content-Disposition` that offers a file under `name`.
pub open spec fn disposition(name: Seq<char>) -> Seq<char> {
    "attachment; filename=\""@ + name + "\""@
}

/// How `entry` is sent, where `guess` is the media type that its name suggests.
pub open spec fn description(entry: EntryView, guess: Option<Seq<char>>) -> DownloadView {
    DownloadView {
        content_type: match guess {
            Some(t) => t,
            None => "application/octet-stream"@,
        },
        content_length: decimal(entry.size as nat),
        content_disposition: disposition(entry.name),
        remove: entry.path,
    }
}

/// How `entry` is sent, where `guess` is the media type that its name suggests.
pub fn describe(entry: &Entry, guess: Option<String>) -> (d: Download)
    ensures
        d@ == description(entry@, text_view(guess)),
{
    let content_type: String = match guess {
        Some(t) => t,
        None => "application/octet-stream".to_string(),
    };
    let mut content_disposition: String = "attachment; filename=\"".to_string();
    content_disposition.append(entry.name.as_str());
    content_disposition.append("\"");
    Download {
        content_type,
        content_length: decimal_text(entry.size),
        content_disposition,
        remove: entry.path.clone(),
    }
}

/// How the request for `entry` ends, where `opened` says whether its body could
/// be opened: with how the body is sent, or with a refusal.
pub fn deliver(entry: &Entry, opened: bool) -> (r: Result<Download, Reply>)
    ensures
        match r {
            Ok(d) => opened && (exists|guess: Option<Seq<char>>|
                may_be_guessed(entry@.name, guess) && d@ == #[trigger] description(
                    entry@,
                    guess,
                )) && (is_one_component(entry@.name) ==> d@ == description(
                entry@,
                guessed_type(entry@.name),
            )),
            Err(reply) => !opened && reply@ == plain(404, "not found\n"@),
        },
{
    if !opened {
        return Err(Reply::plain(404, "not found\n".to_string()));
    }
    let guess: Option<String> = guess_type(entry.name.as_str());
    assert(may_be_guessed(entry@.name, text_view(guess)));
    Ok(describe(entry, guess))
}

} // verus!

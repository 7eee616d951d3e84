//! What a request is answered.

use vstd::prelude::*;

verus! {

/// An answer whose body is text.
pub struct ReplyView {
    pub status: u16,
    pub content_type: Seq<char>,
    pub body: Seq<char>,
}

/// An answer whose body is text.
pub struct Reply {
    /// The HTTP status.
    pub status: u16,
    /// The value of `Content-Type`.
    pub content_type: String,
    /// The body.
    pub body: String,
}

impl View for Reply {
    type V = ReplyView;

    open spec fn view(&self) -> ReplyView {
        ReplyView { status: self.status, content_type: self.content_type@, body: self.body@ }
    }
}

/// An answer in plain text.
pub open spec fn plain(status: u16, body: Seq<char>) -> ReplyView {
    ReplyView { status, content_type: "text/plain; charset=utf-8"@, body }
}

impl Reply {
    /// An answer in plain text.
    pub fn plain(status: u16, body: String) -> (r: Reply)
        ensures
            r@ == plain(status, body@),
    {
        Reply { status, content_type: "text/plain; charset=utf-8".to_string(), body }
    }
}

} // verus!

//! Which request asks for what.

use crate::text::same_text;
use vstd::prelude::*;

verus! {

/// What a path leads to.
#[derive(Clone, Copy)]
pub enum Target {
    /// `/`
    Root,
    /// `/health`
    Health,
    /// Any other path of one segment: the id of a file, or the name of one that
    /// is uploaded.
    Segment,
}

/// What a request asks for.
#[derive(Clone, Copy)]
pub enum Action {
    /// The front page.
    Index,
    /// The report on what is stored.
    Health,
    /// The file with the id in the path.
    Download,
    /// To store the body. Where the path has a segment, it is the name.
    Upload,
    /// Something that is not offered.
    NotAllowed,
}

/// Whether `method` asks to read.
pub open spec fn reads(method: Seq<char>) -> bool {
    method == "GET"@ || method == "HEAD"@
}

/// What a request with `method` to `target` asks for.
pub open spec fn action(target: Target, method: Seq<char>) -> Action {
    match target {
        Target::Root => if reads(method) {
            Action::Index
        } else if method == "POST"@ || method == "PUT"@ {
            Action::Upload
        } else {
            Action::NotAllowed
        },
        Target::Health => if reads(method) {
            Action::Health
        } else if method == "PUT"@ {
            Action::Upload
        } else {
            Action::NotAllowed
        },
        Target::Segment => if reads(method) {
            Action::Download
        } else if method == "PUT"@ {
            Action::Upload
        } else {
            Action::NotAllowed
        },
    }
}

/// What a request with `method` to `target` asks for.
pub fn route(target: Target, method: &str) -> (r: Action)
    ensures
        r == action(target, method@),
{
    let read: bool = same_text(method, "GET") || same_text(method, "HEAD");
    let put: bool = same_text(method, "PUT");
    match target {
        Target::Root => if read {
            Action::Index
        } else if put || same_text(method, "POST") {
            Action::Upload
        } else {
            Action::NotAllowed
        },
        Target::Health => if read {
            Action::Health
        } else if put {
            Action::Upload
        } else {
            Action::NotAllowed
        },
        Target::Segment => if read {
            Action::Download
        } else if put {
            Action::Upload
        } else {
            Action::NotAllowed
        },
    }
}

} // verus!

//! Taking in the body of an upload.
//!
//! The body is read and written piece by piece by the surrounding program. An
//! `Intake` says what to do next and is told what came of it; it counts the
//! bytes and cuts the upload off as soon as there are too many.

use crate::names::{sanitize, sanitized};
use crate::reply::{plain, Reply, ReplyView};
use crate::text::{decimal, decimal_text, same_text, text_view};
use vstd::prelude::*;
use vstd::string::*;

verus! {

/// Why an upload came to nothing.
pub enum ErrorView {
    TooLarge,
    Io,
    Message(Seq<char>),
    NoFile,
}

/// Why an upload came to nothing.
pub enum UploadError {
    /// The body is longer than what is accepted.
    TooLarge,
    /// The body could not be stored.
    Io,
    /// The body could not be read, for the reason given.
    Message(String),
    /// The form holds no file.
    NoFile,
}

impl View for UploadError {
    type V = ErrorView;

    open spec fn view(&self) -> ErrorView {
        match self {
            UploadError::TooLarge => ErrorView::TooLarge,
            UploadError::Io => ErrorView::Io,
            UploadError::Message(m) => ErrorView::Message(m@),
            UploadError::NoFile => ErrorView::NoFile,
        }
    }
}

/// What a failed upload is answered, where at most `cap` bytes were accepted.
pub open spec fn error_reply(e: ErrorView, cap: u64) -> ReplyView {
    match e {
        ErrorView::TooLarge => plain(
            413,
            "too large: at most "@ + decimal(cap as nat)
                + " bytes accepted right now (10 MB per file, 30 MB per hour per IP)\n"@,
        ),
        ErrorView::Io => plain(500, "storage error\n"@),
        ErrorView::Message(m) => plain(400, m + "\n"@),
        ErrorView::NoFile => plain(400, "no file in multipart body (use -F 'file=@path')\n"@),
    }
}

impl UploadError {
    /// What a failed upload is answered, where at most `cap` bytes were
    /// accepted.
    pub fn into_response(self, cap: u64) -> (r: Reply)
        ensures
            r@ == error_reply(self@, cap),
    {
        match self {
            UploadError::TooLarge => {
                let mut txt: String = "too large: at most ".to_string();
                txt.append(decimal_text(cap).as_str());
                txt.append(" bytes accepted right now (10 MB per file, 30 MB per hour per IP)\n");
                Reply::plain(413, txt)
            },
            UploadError::Io => Reply::plain(500, "storage error\n".to_string()),
            UploadError::Message(m) => {
                let mut txt: String = m;
                txt.append("\n");
                Reply::plain(400, txt)
            },
            UploadError::NoFile => Reply::plain(
                400,
                "no file in multipart body (use -F 'file=@path')\n".to_string(),
            ),
        }
    }
}

/// What is to be done next.
#[derive(Clone, Copy)]
pub enum Want {
    /// Go to the next part of the form.
    Field,
    /// Create the file.
    Create,
    /// Read the next chunk of the body.
    Chunk,
    /// Write the chunk that was read.
    Write,
    /// Flush the file.
    Flush,
    /// Nothing: the upload is over.
    Nothing,
}

/// What came of it.
pub enum EventView {
    Field(Option<Seq<char>>, Option<Seq<char>>),
    NoField,
    Chunk(usize),
    End,
    Done,
    Failed,
    Broken(Seq<char>),
}

/// What came of it.
pub enum Event {
    /// The form has a next part, with this file name and this field name.
    Field(Option<String>, Option<String>),
    /// The form has no further part.
    NoField,
    /// The next chunk has this many bytes.
    Chunk(usize),
    /// The body has no further chunk.
    End,
    /// The file was created, written or flushed.
    Done,
    /// The file could not be created, written or flushed.
    Failed,
    /// The body could not be read, for the reason given.
    Broken(String),
}

impl View for Event {
    type V = EventView;

    open spec fn view(&self) -> EventView {
        match self {
            Event::Field(file, field) => EventView::Field(text_view(*file), text_view(*field)),
            Event::NoField => EventView::NoField,
            Event::Chunk(n) => EventView::Chunk(*n),
            Event::End => EventView::End,
            Event::Done => EventView::Done,
            Event::Failed => EventView::Failed,
            Event::Broken(m) => EventView::Broken(m@),
        }
    }
}

/// An upload under way.
pub struct IntakeView {
    /// The bytes that are accepted at most.
    pub cap: u64,
    /// The name of the file, as far as it is known.
    pub name: Option<Seq<char>>,
    /// The bytes that were accepted so far.
    pub total: u64,
    /// What is to be done next.
    pub want: Want,
    /// Why the upload came to nothing, if it did.
    pub error: Option<ErrorView>,
}

/// The name made of `s`, if there is one.
pub open spec fn sanitized_option(s: Option<Seq<char>>) -> Option<Seq<char>> {
    match s {
        Some(s) => Some(sanitized(s)),
        None => None,
    }
}

/// Whether a part of a form is a file: it has a file name, or it is the field
/// named `file`.
pub open spec fn is_file_part(file: Option<Seq<char>>, field: Option<Seq<char>>) -> bool {
    file is Some || field == Some("file"@)
}

/// The start of an upload whose body is the file.
pub open spec fn raw_start(cap: u64, name: Option<Seq<char>>) -> IntakeView {
    IntakeView { cap, name, total: 0, want: Want::Create, error: None }
}

/// The start of an upload whose body is a form.
pub open spec fn form_start(cap: u64) -> IntakeView {
    IntakeView { cap, name: None, total: 0, want: Want::Field, error: None }
}

impl IntakeView {
    /// The upload, failed for the reason `e`.
    pub open spec fn failed(self, e: ErrorView) -> IntakeView {
        IntakeView { want: Want::Nothing, error: Some(e), ..self }
    }

    /// The upload, with `want` to be done next.
    pub open spec fn next(self, want: Want) -> IntakeView {
        IntakeView { want, ..self }
    }

    /// The upload after `e`. What does not answer what was to be done changes
    /// nothing.
    pub open spec fn step(self, e: EventView) -> IntakeView {
        match (self.want, e) {
            (Want::Field, EventView::Field(file, field)) => if is_file_part(file, field) {
                IntakeView { name: sanitized_option(file), want: Want::Create, ..self }
            } else {
                self
            },
            (Want::Field, EventView::NoField) => self.failed(ErrorView::NoFile),
            (Want::Field, EventView::Broken(m)) => self.failed(ErrorView::Message(m)),
            (Want::Create, EventView::Done) => self.next(Want::Chunk),
            (Want::Create, EventView::Failed) => self.failed(ErrorView::Io),
            (Want::Chunk, EventView::Chunk(n)) => if self.total + n > self.cap {
                self.failed(ErrorView::TooLarge)
            } else {
                IntakeView { total: (self.total + n) as u64, want: Want::Write, ..self }
            },
            (Want::Chunk, EventView::End) => self.next(Want::Flush),
            (Want::Chunk, EventView::Broken(m)) => self.failed(ErrorView::Message(m)),
            (Want::Write, EventView::Done) => self.next(Want::Chunk),
            (Want::Write, EventView::Failed) => self.failed(ErrorView::Io),
            (Want::Flush, EventView::Done) => self.next(Want::Nothing),
            (Want::Flush, EventView::Failed) => self.failed(ErrorView::Io),
            _ => self,
        }
    }

    /// The upload after all of `events`.
    pub open spec fn run(self, events: Seq<EventView>) -> IntakeView
        decreases events.len(),
    {
        if events.len() == 0 {
            self
        } else {
            self.step(events[0]).run(events.skip(1))
        }
    }

    /// No more was accepted than allowed, and only an upload that is over has
    /// failed.
    pub open spec fn valid(self) -> bool {
        self.total <= self.cap && (self.error is Some ==> self.want == Want::Nothing)
    }
}

/// An upload under way.
pub struct Intake {
    cap: u64,
    name: Option<String>,
    total: u64,
    want: Want,
    error: Option<UploadError>,
}

impl View for Intake {
    type V = IntakeView;

    closed spec fn view(&self) -> IntakeView {
        IntakeView {
            cap: self.cap,
            name: text_view(self.name),
            total: self.total,
            want: self.want,
            error: match self.error {
                Some(e) => Some(e@),
                None => None,
            },
        }
    }
}

impl Intake {
    /// The start of an upload whose body is the file.
    pub fn raw(cap: u64, name: Option<String>) -> (r: Intake)
        ensures
            r@ == raw_start(cap, text_view(name)),
            r@.valid(),
    {
        Intake { cap, name, total: 0, want: Want::Create, error: None }
    }

    /// The start of an upload whose body is a form.
    pub fn form(cap: u64) -> (r: Intake)
        ensures
            r@ == form_start(cap),
            r@.valid(),
    {
        Intake { cap, name: None, total: 0, want: Want::Field, error: None }
    }

    /// What is to be done next.
    pub fn want(&self) -> (w: Want)
        ensures
            w == self@.want,
    {
        self.want
    }

    /// Ends the upload for the reason `e`.
    fn fail(&mut self, e: UploadError)
        ensures
            final(self)@ == old(self)@.failed(e@),
    {
        self.want = Want::Nothing;
        self.error = Some(e);
    }

    /// Takes note of what came of what was to be done.
    pub fn advance(&mut self, event: Event)
        requires
            old(self)@.valid(),
        ensures
            final(self)@ == old(self)@.step(event@),
            final(self)@.valid(),
    {
        match (self.want, event) {
            (Want::Field, Event::Field(file, field)) => {
                let is_field: bool = match &field {
                    Some(f) => same_text(f.as_str(), "file"),
                    None => false,
                };
                if file.is_some() || is_field {
                    self.name = match file {
                        Some(f) => Some(sanitize(f.as_str())),
                        None => None,
                    };
                    self.want = Want::Create;
                }
            },
            (Want::Field, Event::NoField) => self.fail(UploadError::NoFile),
            (Want::Field, Event::Broken(m)) => self.fail(UploadError::Message(m)),
            (Want::Create, Event::Done) => {
                self.want = Want::Chunk;
            },
            (Want::Create, Event::Failed) => self.fail(UploadError::Io),
            (Want::Chunk, Event::Chunk(n)) => {
                if n as u64 > self.cap - self.total {
                    self.fail(UploadError::TooLarge);
                } else {
                    self.total = self.total + n as u64;
                    self.want = Want::Write;
                }
            },
            (Want::Chunk, Event::End) => {
                self.want = Want::Flush;
            },
            (Want::Chunk, Event::Broken(m)) => self.fail(UploadError::Message(m)),
            (Want::Write, Event::Done) => {
                self.want = Want::Chunk;
            },
            (Want::Write, Event::Failed) => self.fail(UploadError::Io),
            (Want::Flush, Event::Done) => {
                self.want = Want::Nothing;
            },
            (Want::Flush, Event::Failed) => self.fail(UploadError::Io),
            _ => {},
        }
    }

    /// What the upload came to: the name of the file, as far as it is known, and
    /// its length, or why there is no file.
    pub fn outcome(self) -> (r: Result<(Option<String>, u64), UploadError>)
        requires
            self@.want == Want::Nothing,
        ensures
            match r {
                Ok((name, size)) => self@.error is None && text_view(name) == self@.name && size
                    == self@.total,
                Err(e) => self@.error == Some(e@),
            },
    {
        match self.error {
            Some(e) => Err(e),
            None => Ok((self.name, self.total)),
        }
    }
}

/// The bytes of chunks of the lengths `lens` together.
pub open spec fn sum_of(lens: Seq<usize>) -> nat
    decreases lens.len(),
{
    if lens.len() == 0 {
        0
    } else {
        lens[0] as nat + sum_of(lens.skip(1))
    }
}

/// The events of chunks of the lengths `lens`, each written without trouble.
pub open spec fn chunk_events(lens: Seq<usize>) -> Seq<EventView>
    decreases lens.len(),
{
    if lens.len() == 0 {
        Seq::empty()
    } else {
        seq![EventView::Chunk(lens[0]), EventView::Done] + chunk_events(lens.skip(1))
    }
}

/// The events of a body in chunks of the lengths `lens`, with no trouble
/// anywhere.
pub open spec fn smooth_events(lens: Seq<usize>) -> Seq<EventView> {
    seq![EventView::Done] + chunk_events(lens) + seq![EventView::End, EventView::Done]
}

/// Two runs, one after the other.
proof fn run_joined(s: IntakeView, a: Seq<EventView>, b: Seq<EventView>)
    ensures
        s.run(a + b) == s.run(a).run(b),
    decreases a.len(),
{
    if a.len() > 0 {
        run_joined(s.step(a[0]), a.skip(1), b);
        assert((a + b).skip(1) == a.skip(1) + b);
    }
}

/// Whatever happens in whatever order, no more bytes are accepted than allowed.
pub proof fn never_above_the_cap(s: IntakeView, events: Seq<EventView>)
    requires
        s.valid(),
    ensures
        s.run(events).valid(),
        s.run(events).cap == s.cap,
        s.run(events).total <= s.cap,
    decreases events.len(),
{
    if events.len() > 0 {
        never_above_the_cap(s.step(events[0]), events.skip(1));
    }
}

/// An upload that is over stays as it is.
pub proof fn over_is_over(s: IntakeView, events: Seq<EventView>)
    requires
        s.want == Want::Nothing,
    ensures
        s.run(events) == s,
    decreases events.len(),
{
    if events.len() > 0 {
        over_is_over(s.step(events[0]), events.skip(1));
    }
}

/// The chunk that exceeds what is accepted ends the upload at once: neither it
/// nor anything after it is written.
pub proof fn cut_off_at_once(s: IntakeView, n: usize, rest: Seq<EventView>)
    requires
        s.want == Want::Chunk,
        s.total + n > s.cap,
    ensures
        s.run(seq![EventView::Chunk(n)] + rest) == s.failed(ErrorView::TooLarge),
{
    let events = seq![EventView::Chunk(n)] + rest;
    assert(events.skip(1) == rest);
    over_is_over(s.failed(ErrorView::TooLarge), rest);
}

proof fn chunks_run(s: IntakeView, lens: Seq<usize>)
    requires
        s.want == Want::Chunk,
        s.valid(),
    ensures
        s.total + sum_of(lens) <= s.cap ==> s.run(chunk_events(lens)) == (IntakeView {
            total: (s.total + sum_of(lens)) as u64,
            ..s
        }),
        s.total + sum_of(lens) > s.cap ==> s.run(chunk_events(lens)).want == Want::Nothing && s.run(
            chunk_events(lens),
        ).error == Some(ErrorView::TooLarge),
    decreases lens.len(),
{
    if lens.len() > 0 {
        let events = chunk_events(lens);
        let rest = chunk_events(lens.skip(1));
        let first = EventView::Chunk(lens[0]);
        assert(events.skip(1).skip(1) == rest);
        let after = s.step(first);
        if s.total + lens[0] > s.cap {
            over_is_over(after, events.skip(1));
        } else {
            let ready = after.step(EventView::Done);
            assert(after.run(events.skip(1)) == ready.run(rest));
            chunks_run(ready, lens.skip(1));
        }
    }
}

/// A body without trouble is accepted exactly if it is not longer than allowed,
/// and counted in full; a longer one is refused as too large.
pub proof fn smooth_upload(cap: u64, name: Option<Seq<char>>, lens: Seq<usize>)
    ensures
        ({
            let end = raw_start(cap, name).run(smooth_events(lens));
            &&& end.want == Want::Nothing
            &&& sum_of(lens) <= cap ==> end.error is None && end.total == sum_of(lens) && end.name
                == name
            &&& sum_of(lens) > cap ==> end.error == Some(ErrorView::TooLarge)
        }),
{
    let start = raw_start(cap, name);
    let created = start.next(Want::Chunk);
    let tail = seq![EventView::End, EventView::Done];
    let events = smooth_events(lens);
    assert(events.skip(1) == chunk_events(lens) + tail);
    run_joined(created, chunk_events(lens), tail);
    chunks_run(created, lens);
    let read = created.run(chunk_events(lens));
    if sum_of(lens) <= cap {
        let flushing = read.step(tail[0]);
        let done = flushing.step(EventView::Done);
        assert(flushing.run(tail.skip(1)) == done.run(tail.skip(1).skip(1)));
    } else {
        over_is_over(read, tail);
    }
}

/// The parts of a form that are no files are passed over.
pub proof fn other_parts_are_skipped(s: IntakeView, parts: Seq<EventView>)
    requires
        s.want == Want::Field,
        forall|i: int|
            0 <= i < parts.len() ==> (#[trigger] parts[i] matches EventView::Field(file, field)
                && !is_file_part(file, field)),
    ensures
        s.run(parts) == s,
    decreases parts.len(),
{
    if parts.len() > 0 {
        other_parts_are_skipped(s, parts.skip(1));
    }
}

/// A form without a file is refused for that.
pub proof fn form_without_file_is_refused(cap: u64, parts: Seq<EventView>)
    requires
        forall|i: int|
            0 <= i < parts.len() ==> (#[trigger] parts[i] matches EventView::Field(file, field)
                && !is_file_part(file, field)),
    ensures
        form_start(cap).run(parts + seq![EventView::NoField]) == form_start(cap).failed(
            ErrorView::NoFile,
        ),
{
    let tail = seq![EventView::NoField];
    run_joined(form_start(cap), parts, tail);
    other_parts_are_skipped(form_start(cap), parts);
    over_is_over(form_start(cap).failed(ErrorView::NoFile), tail.skip(1));
}

/// Once a form comes to its file, it goes on as if the file were the whole
/// body, under the name that the form gives.
pub proof fn form_goes_on_as_its_file(
    cap: u64,
    file: Option<Seq<char>>,
    field: Option<Seq<char>>,
    events: Seq<EventView>,
)
    requires
        is_file_part(file, field),
    ensures
        form_start(cap).run(seq![EventView::Field(file, field)] + events) == raw_start(
            cap,
            sanitized_option(file),
        ).run(events),
{
    let all = seq![EventView::Field(file, field)] + events;
    assert(all.skip(1) == events);
}

} // verus!

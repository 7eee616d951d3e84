use axum::http::HeaderMap;
use justupload::download::{deliver, describe, Serve};
use justupload::headers::{read_headers, Headers};
use justupload::intake::{Event, Intake, UploadError, Want};
use justupload::state::{AppState, Entry, TTL};
use justupload::upload::{make_link, Upload, BODY_LIMIT};

const MB: u64 = 1024 * 1024;

fn none() -> Headers {
    read_headers(&HeaderMap::new())
}

fn state() -> AppState {
    AppState::new("/up".to_string(), Some("http://h".to_string()))
}

fn begin(st: &mut AppState, ip: &str, id: &str, now: u128) -> Upload {
    st.begin_upload_at(&none(), ip, Some("a.txt"), id.to_string(), format!("/up/{id}"), now)
        .ok()
        .unwrap()
}

fn name_of(e: &UploadError) -> &'static str {
    match e {
        UploadError::TooLarge => "too large",
        UploadError::Io => "io",
        UploadError::Message(_) => "message",
        UploadError::NoFile => "no file",
    }
}

fn raw(cap: u64, events: Vec<Event>) -> Result<(Option<String>, u64), UploadError> {
    run(Intake::raw(cap, None), events)
}

fn run(intake: Intake, events: Vec<Event>) -> Result<(Option<String>, u64), UploadError> {
    let mut intake = intake;
    for e in events {
        intake.advance(e);
    }
    assert!(matches!(intake.want(), Want::Nothing));
    intake.outcome()
}

#[test]
fn body_limit_leaves_room_for_the_form() {
    assert_eq!(BODY_LIMIT, 10 * 1024 * 1024 + 65536);
}

#[test]
fn bodies_are_counted() {
    let (name, size) = raw(
        10,
        vec![
            Event::Done,
            Event::Chunk(4),
            Event::Done,
            Event::Chunk(6),
            Event::Done,
            Event::End,
            Event::Done,
        ],
    )
    .ok()
    .unwrap();
    assert_eq!((name, size), (None, 10));
}

#[test]
fn bodies_are_cut_off() {
    let mut intake = Intake::raw(10, None);
    assert!(matches!(intake.want(), Want::Create));
    intake.advance(Event::Done);
    intake.advance(Event::Chunk(10));
    assert!(matches!(intake.want(), Want::Write));
    intake.advance(Event::Done);
    intake.advance(Event::Chunk(1));
    assert!(matches!(intake.want(), Want::Nothing));
    // What comes later is of no interest.
    intake.advance(Event::Chunk(1));
    intake.advance(Event::End);
    assert_eq!(name_of(&intake.outcome().err().unwrap()), "too large");

    let e = raw(10, vec![Event::Done, Event::Chunk(usize::MAX)]).err().unwrap();
    assert_eq!(name_of(&e), "too large");
}

#[test]
fn trouble_ends_an_upload() {
    let e = raw(10, vec![Event::Failed]).err().unwrap();
    assert_eq!(name_of(&e), "io");
    let e = raw(10, vec![Event::Done, Event::Chunk(1), Event::Failed]).err().unwrap();
    assert_eq!(name_of(&e), "io");
    let e = raw(10, vec![Event::Done, Event::End, Event::Failed]).err().unwrap();
    assert_eq!(name_of(&e), "io");
    let e = raw(10, vec![Event::Done, Event::Broken("lost".to_string())]).err().unwrap();
    let r = e.into_response(10);
    assert_eq!((r.status, r.body.as_str()), (400, "lost\n"));
}

#[test]
fn events_that_do_not_fit_change_nothing() {
    let mut intake = Intake::raw(10, None);
    intake.advance(Event::Chunk(3));
    intake.advance(Event::End);
    intake.advance(Event::NoField);
    assert!(matches!(intake.want(), Want::Create));
}

#[test]
fn forms_give_their_file() {
    let (name, size) = run(
        Intake::form(10),
        vec![
            Event::Field(None, Some("other".to_string())),
            Event::Field(None, None),
            Event::Field(Some("../n o.md".to_string()), Some("x".to_string())),
            Event::Done,
            Event::Chunk(4),
            Event::Done,
            Event::End,
            Event::Done,
        ],
    )
    .ok()
    .unwrap();
    assert_eq!((name.as_deref(), size), (Some("no.md"), 4));
    let e = run(Intake::form(10), vec![Event::NoField]).err().unwrap();
    assert_eq!(name_of(&e), "no file");
    let e = run(Intake::form(10), vec![Event::Broken("bad".to_string())]).err().unwrap();
    assert_eq!(name_of(&e), "message");
}

#[test]
fn errors_are_explained() {
    let r = UploadError::TooLarge.into_response(123);
    assert_eq!(r.status, 413);
    assert_eq!(
        r.body,
        "too large: at most 123 bytes accepted right now (10 MB per file, 30 MB per hour per IP)\n"
    );
    let r = UploadError::Io.into_response(0);
    assert_eq!((r.status, r.body.as_str()), (500, "storage error\n"));
    let r = UploadError::NoFile.into_response(0);
    assert_eq!(r.status, 400);
    assert_eq!(r.body, "no file in multipart body (use -F 'file=@path')\n");
    assert_eq!(r.content_type, "text/plain; charset=utf-8");
}

#[test]
fn uploads_are_let_in() {
    let mut st = state();
    let mut h = none();
    h.x_real_ip = Some("1.2.3.4".to_string());
    h.x_filename = Some("dir/x y.txt".to_string());
    let up = st
        .begin_upload_at(&h, "9.9.9.9", None, "aB3xQ7ph".to_string(), "/up/x".to_string(), 0)
        .ok()
        .unwrap();
    assert_eq!(up.ip, "1.2.3.4");
    assert_eq!(up.cap, 10 * MB);
    assert_eq!(up.id, "aB3xQ7ph");
    assert_eq!(up.path, "/up/x");
    assert!(!up.form);
    assert_eq!(up.path_name, None);
    assert_eq!(up.header_name.as_deref(), Some("xy.txt"));
    h.content_type = Some("multipart/form-data; boundary=b".to_string());
    let up = st
        .begin_upload_at(&h, "9.9.9.9", Some("p/q"), "aB3xQ7ph".to_string(), "/up/x".to_string(), 0)
        .ok()
        .unwrap();
    assert!(up.form);
    assert_eq!(up.path_name.as_deref(), Some("q"));
    assert!(matches!(up.intake().want(), Want::Field));
}

#[test]
fn uploads_are_capped_by_what_is_left() {
    let mut st = state();
    assert_eq!(st.try_reserve_at("a", 25 * MB, 0), Ok(()));
    assert_eq!(begin(&mut st, "a", "i", 1).cap, 5 * MB);
    assert_eq!(begin(&mut st, "b", "i", 1).cap, 10 * MB);
    assert_eq!(st.try_reserve_at("a", 5 * MB, 1), Ok(()));
    let r = st
        .begin_upload_at(&none(), "a", None, "i".to_string(), "/up/i".to_string(), 2)
        .err()
        .unwrap();
    assert_eq!(r.status, 429);
    assert_eq!(r.body, "quota exceeded: 30 MB per hour per IP, try again later\n");
    assert_eq!(begin(&mut st, "a", "i", TTL).cap, 10 * MB);
}

#[test]
fn stored_uploads_are_answered_with_their_link() {
    let mut st = state();
    let up = begin(&mut st, "a", "aB3xQ7ph", 5);
    let done = st.finish_upload_at(up, &none(), Ok((None, 77)), 6, 7);
    assert_eq!(done.reply.status, 201);
    assert_eq!(done.reply.body, "http://h/aB3xQ7ph/a.txt\n");
    assert_eq!(done.reply.content_type, "text/plain; charset=utf-8");
    assert_eq!(done.remove, None);
    assert_eq!(done.stored, Some(("a.txt".to_string(), 77)));
    assert_eq!(st.remaining_at("a", 8), 30 * MB - 77);
    assert_eq!(st.stats(), (1, 77));
    let e = st.take("aB3xQ7ph").unwrap();
    assert_eq!((e.name.as_str(), e.path.as_str()), ("a.txt", "/up/aB3xQ7ph"));
    assert_eq!((e.size, e.created), (77, 7));
}

#[test]
fn failed_uploads_leave_no_trace() {
    let mut st = state();
    let up = begin(&mut st, "a", "i1", 0);
    let done = st.finish_upload_at(up, &none(), Err(UploadError::TooLarge), 1, 1);
    assert_eq!(done.reply.status, 413);
    assert!(done.reply.body.contains("at most 10485760 bytes"));
    assert_eq!(done.remove.as_deref(), Some("/up/i1"));
    assert_eq!(done.stored, None);

    let up = begin(&mut st, "a", "i2", 0);
    let done = st.finish_upload_at(up, &none(), Ok((None, 0)), 1, 1);
    assert_eq!((done.reply.status, done.reply.body.as_str()), (400, "empty upload\n"));
    assert_eq!(done.remove.as_deref(), Some("/up/i2"));

    // Another upload of the same client was faster.
    let up = begin(&mut st, "a", "i3", 0);
    assert_eq!(st.try_reserve_at("a", 29 * MB, 1), Ok(()));
    let done = st.finish_upload_at(up, &none(), Ok((None, 2 * MB)), 2, 2);
    assert_eq!(done.reply.status, 429);
    assert_eq!(done.reply.body, "quota exceeded, try again later\n");
    assert_eq!(done.remove.as_deref(), Some("/up/i3"));

    assert_eq!(st.stats(), (0, 0));
    assert_eq!(st.remaining_at("a", 3), MB);
}

#[test]
fn links_hold_id_and_name() {
    assert_eq!(make_link("http://h", "i", "n"), "http://h/i/n");
}

fn stored(st: &mut AppState, created: u128) {
    st.insert(
        "id".to_string(),
        Entry {
            name: "a.txt".to_string(),
            path: "/up/id".to_string(),
            size: 5,
            created,
        },
    );
}

fn refusal(s: Serve) -> (u16, String, Option<String>) {
    match s {
        Serve::Open(_) => panic!("not refused"),
        Serve::Refuse(r, remove) => (r.status, r.body, remove),
    }
}

#[test]
fn downloads_work_once() {
    let mut st = state();
    stored(&mut st, 10);
    match st.serve_at("id", 10 + TTL - 1) {
        Serve::Open(e) => assert_eq!((e.name.as_str(), e.size), ("a.txt", 5)),
        Serve::Refuse(_, _) => panic!("refused"),
    }
    assert_eq!(
        refusal(st.serve_at("id", 11)),
        (404, "not found (already downloaded or expired)\n".to_string(), None)
    );
}

#[test]
fn late_downloads_are_refused() {
    let mut st = state();
    stored(&mut st, 10);
    assert_eq!(
        refusal(st.serve_at("id", 10 + TTL)),
        (404, "expired\n".to_string(), Some("/up/id".to_string()))
    );
    // The file is gone, whatever the time.
    assert_eq!(refusal(st.serve_at("id", 11)).0, 404);
}

#[test]
fn downloads_by_the_clock() {
    let mut st = state();
    let now = st.now();
    stored(&mut st, now);
    assert!(matches!(st.serve("id"), Serve::Open(_)));
    assert_eq!(refusal(st.serve("id")).0, 404);
}

#[test]
fn files_are_described() {
    let e = Entry {
        name: "notes.html".to_string(),
        path: "/up/id".to_string(),
        size: 1234,
        created: 0,
    };
    let d = deliver(&e, true).ok().unwrap();
    assert_eq!(d.content_type, "text/html");
    assert_eq!(d.content_length, "1234");
    assert_eq!(d.content_disposition, "attachment; filename=\"notes.html\"");
    assert_eq!(d.remove, "/up/id");
    let r = deliver(&e, false).err().unwrap();
    assert_eq!((r.status, r.body.as_str()), (404, "not found\n"));
    let d = describe(&e, Some("x/y".to_string()));
    assert_eq!(d.content_type, "x/y");
    let d = describe(&e, None);
    assert_eq!(d.content_type, "application/octet-stream");
}

#[test]
fn odd_names_have_a_type_too() {
    for (name, expected) in [
        ("my file.txt", "text/plain"),
        ("caf\u{e9}.PNG", "image/png"),
        ("a\"b;c.html", "text/html"),
        ("\u{e9}t\u{e9}", "application/octet-stream"),
    ] {
        let e = Entry {
            name: name.to_string(),
            path: "/up/id".to_string(),
            size: 1,
            created: 0,
        };
        assert_eq!(deliver(&e, true).ok().unwrap().content_type, expected, "{name}");
    }
}

#[test]
fn unknown_extensions_are_bytes() {
    for name in ["file", "a.unknownext", "a."] {
        let e = Entry {
            name: name.to_string(),
            path: String::new(),
            size: 0,
            created: 0,
        };
        let d = deliver(&e, true).ok().unwrap();
        assert_eq!(d.content_type, "application/octet-stream", "{name}");
        assert_eq!(d.content_length, "0");
    }
    let e = Entry {
        name: "p.png".to_string(),
        path: String::new(),
        size: 0,
        created: 0,
    };
    assert_eq!(deliver(&e, true).ok().unwrap().content_type, "image/png");
}

use std::collections::HashMap;

use axum::http::{HeaderMap, HeaderName, HeaderValue};
use justupload::download::{deliver, Serve};
use justupload::headers::read_headers;
use justupload::intake::{Event, Intake, Want};
use justupload::pages::{index, method_not_allowed};
use justupload::reply::Reply;
use justupload::routes::{route, Action, Target};
use justupload::state::AppState;

/// The service with a disk in memory.
struct Server {
    st: AppState,
    disk: HashMap<String, Vec<u8>>,
}

/// One part of a form: file name, field name, contents.
type Part = (Option<&'static str>, Option<&'static str>, &'static [u8]);

const CHUNK: usize = 64 * 1024;

fn start(port: u16, dir: &str) -> Server {
    Server {
        st: AppState::new(dir.to_string(), Some(format!("http://127.0.0.1:{port}"))),
        disk: HashMap::new(),
    }
}

fn headers(pairs: &[(&str, &str)]) -> HeaderMap<HeaderValue> {
    let mut map = HeaderMap::new();
    for (name, value) in pairs {
        map.append(
            HeaderName::from_bytes(name.as_bytes()).unwrap(),
            HeaderValue::from_str(value).unwrap(),
        );
    }
    map
}

/// Creates, writes and flushes the file at `path` as `intake` asks for it.
fn take(disk: &mut HashMap<String, Vec<u8>>, path: &str, intake: &mut Intake, body: &[u8]) {
    let mut chunks = body.chunks(CHUNK);
    let mut chunk: &[u8] = b"";
    loop {
        let event = match intake.want() {
            Want::Create => {
                disk.insert(path.to_string(), Vec::new());
                Event::Done
            }
            Want::Chunk => match chunks.next() {
                Some(c) => {
                    chunk = c;
                    Event::Chunk(c.len())
                }
                None => Event::End,
            },
            Want::Write => {
                disk.get_mut(path).unwrap().extend_from_slice(chunk);
                Event::Done
            }
            Want::Flush => Event::Done,
            Want::Field | Want::Nothing => return,
        };
        intake.advance(event);
    }
}

impl Server {
    fn upload(
        &mut self,
        map: HeaderMap<HeaderValue>,
        named: Option<&str>,
        body: &[u8],
        parts: &[Part],
    ) -> Reply {
        let headers = read_headers(&map);
        let upload = match self.st.begin_upload(&headers, "127.0.0.1", named) {
            Ok(upload) => upload,
            Err(reply) => return reply,
        };
        let path = upload.path.clone();
        let mut intake = upload.intake();
        if upload.form {
            for (file, field, contents) in parts {
                intake.advance(Event::Field(
                    file.map(|s| s.to_string()),
                    field.map(|s| s.to_string()),
                ));
                take(&mut self.disk, &path, &mut intake, contents);
            }
            if let Want::Field = intake.want() {
                intake.advance(Event::NoField);
            }
        } else {
            take(&mut self.disk, &path, &mut intake, body);
        }
        let done = self
            .st
            .finish_upload(upload, &headers, intake.outcome());
        if let Some(path) = done.remove {
            self.disk.remove(&path);
        }
        done.reply
    }

    fn put(&mut self, port: u16, payload: &[u8], filename: &str) -> Reply {
        let host = format!("127.0.0.1:{port}");
        self.upload(
            headers(&[("host", &host), ("x-filename", filename)]),
            None,
            payload,
            &[],
        )
    }

    /// The status, the headers of the file or the text, and the body.
    fn get(&mut self, path: &str) -> (u16, String, Vec<u8>) {
        let id = path.trim_start_matches('/').split('/').next().unwrap();
        match self.st.serve(id) {
            Serve::Refuse(reply, remove) => {
                if let Some(path) = remove {
                    self.disk.remove(&path);
                }
                (reply.status, reply.content_type, reply.body.into_bytes())
            }
            Serve::Open(entry) => {
                let body = self.disk.remove(&entry.path);
                match deliver(&entry, body.is_some()) {
                    Ok(d) => (200, d.content_disposition, body.unwrap()),
                    Err(reply) => (reply.status, reply.content_type, reply.body.into_bytes()),
                }
            }
        }
    }
}

#[test]
fn upload_then_download_once() {
    let port = 18081;
    let mut srv = start(port, "once");

    let r = srv.put(port, b"hello world", "greeting.txt");
    assert_eq!(r.status, 201);
    let url = r.body.trim().to_string();
    assert!(url.ends_with("/greeting.txt"), "{url}");

    let path = url
        .trim_start_matches(&format!("http://127.0.0.1:{port}"))
        .to_string();
    let (status, h, b) = srv.get(&path);
    assert_eq!(status, 200);
    assert!(h.contains("greeting.txt"), "{h}");
    assert_eq!(b, b"hello world");

    // Second download must fail: one download only.
    let (status, _, _) = srv.get(&path);
    assert_eq!(status, 404);
    assert!(srv.disk.is_empty());
}

/// `curl -T file.txt https://host/` sends `PUT /file.txt`, not `PUT /`.
#[test]
fn curl_upload_file_puts_to_named_path() {
    let port = 18087;
    let mut srv = start(port, "curl-t");
    let payload = b"binary-ish\x00\x01contents";
    assert!(matches!(
        route(Target::Segment, "PUT"),
        Action::Upload
    ));
    let host = format!("127.0.0.1:{port}");
    let r = srv.upload(
        headers(&[("host", &host)]),
        Some("provisioning-api"),
        payload,
        &[],
    );
    assert_eq!(r.status, 201);
    let url = r.body.trim().to_string();
    assert!(url.ends_with("/provisioning-api"), "{url}");

    let path = url
        .trim_start_matches(&format!("http://127.0.0.1:{port}"))
        .to_string();
    let (status, _, b) = srv.get(&path);
    assert_eq!(status, 200);
    assert_eq!(b, payload);
}

#[test]
fn rejects_oversized_file() {
    let port = 18082;
    let mut srv = start(port, "big");
    let payload = vec![b'x'; 11 * 1024 * 1024];
    let r = srv.put(port, &payload, "big.bin");
    assert!(r.status == 413 || r.status == 400, "{}", r.status);
    assert!(srv.disk.is_empty());
}

#[test]
fn enforces_hourly_quota() {
    let port = 18083;
    let mut srv = start(port, "quota");
    let payload = vec![b'x'; 8 * 1024 * 1024];
    // 4 x 8 MB = 32 MB > 30 MB budget, so the last one must be rejected.
    let mut statuses = Vec::new();
    for _ in 0..4 {
        statuses.push(srv.put(port, &payload, "chunk.bin").status);
    }
    assert_eq!(statuses[0], 201, "{statuses:?}");
    assert!(
        *statuses.last().unwrap() == 429 || *statuses.last().unwrap() == 413,
        "{statuses:?}"
    );
}

#[test]
fn index_is_plain_text_for_curl() {
    let port = 18084;
    let srv = start(port, "index");
    assert!(matches!(route(Target::Root, "GET"), Action::Index));
    let host = format!("127.0.0.1:{port}");
    let r = index(
        &srv.st,
        &read_headers(&headers(&[("host", &host)])),
        "<html></html>",
    );
    assert_eq!(r.status, 200);
    assert!(r.content_type.contains("text/plain"), "{}", r.content_type);
    assert!(r.body.contains("curl -T"));
}

#[test]
fn unknown_id_is_404() {
    let port = 18085;
    let mut srv = start(port, "404");
    let (status, _, _) = srv.get("/doesnotexist/x.txt");
    assert_eq!(status, 404);
}

#[test]
fn multipart_upload_keeps_filename() {
    let port = 18086;
    let mut srv = start(port, "mp");
    let boundary = "----justuploadtest";
    let content_type = format!("multipart/form-data; boundary={boundary}");
    assert!(matches!(route(Target::Root, "POST"), Action::Upload));
    let r = srv.upload(
        headers(&[
            ("host", "127.0.0.1:18086"),
            ("content-type", &content_type),
        ]),
        None,
        b"",
        &[(Some("notes.md"), Some("file"), b"# hi")],
    );
    assert_eq!(r.status, 201);
    let url = r.body.trim().to_string();
    assert!(url.ends_with("/notes.md"), "{url}");

    let path = url
        .trim_start_matches(&format!("http://127.0.0.1:{port}"))
        .to_string();
    let (_, _, b) = srv.get(&path);
    assert_eq!(b, b"# hi");
}

#[test]
fn other_fields_of_a_form_are_passed_over() {
    let mut srv = start(18088, "mp2");
    let r = srv.upload(
        headers(&[("content-type", "multipart/form-data; boundary=x")]),
        None,
        b"",
        &[
            (None, Some("comment"), b"hello"),
            (None, Some("file"), b"body"),
            (Some("late.txt"), Some("file"), b"late"),
        ],
    );
    assert_eq!(r.status, 201);
    // The part that was taken has no file name of its own.
    assert!(r.body.ends_with("/file\n"), "{}", r.body);
    let path = r.body.trim().trim_start_matches("http://127.0.0.1:18088").to_string();
    assert_eq!(srv.get(&path).2, b"body");
}

#[test]
fn form_without_a_file() {
    let mut srv = start(18089, "mp3");
    let r = srv.upload(
        headers(&[("content-type", "multipart/form-data; boundary=x")]),
        None,
        b"",
        &[(None, Some("comment"), b"hello")],
    );
    assert_eq!(r.status, 400);
    assert_eq!(r.body, "no file in multipart body (use -F 'file=@path')\n");
    assert!(srv.disk.is_empty());
}

#[test]
fn path_name_comes_before_the_other_names() {
    let mut srv = start(18090, "names");
    let r = srv.upload(
        headers(&[("x-filename", "header.txt")]),
        Some("path.txt"),
        b"1",
        &[],
    );
    assert!(r.body.ends_with("/path.txt\n"), "{}", r.body);
    let r = srv.upload(
        headers(&[("content-type", "multipart/form-data; boundary=x")]),
        Some("path.txt"),
        b"",
        &[(Some("form.txt"), Some("file"), b"1")],
    );
    assert!(r.body.ends_with("/path.txt\n"), "{}", r.body);
    // The header names no file in a form.
    let r = srv.upload(
        headers(&[
            ("content-type", "multipart/form-data; boundary=x"),
            ("x-filename", "header.txt"),
        ]),
        None,
        b"",
        &[(None, Some("file"), b"1")],
    );
    assert!(r.body.ends_with("/file\n"), "{}", r.body);
    let r = srv.upload(headers(&[]), None, b"1", &[]);
    assert!(r.body.ends_with("/file\n"), "{}", r.body);
}

#[test]
fn routes_by_method() {
    assert!(matches!(route(Target::Root, "HEAD"), Action::Index));
    assert!(matches!(route(Target::Root, "PUT"), Action::Upload));
    assert!(matches!(route(Target::Root, "DELETE"), Action::NotAllowed));
    assert!(matches!(route(Target::Root, "get"), Action::NotAllowed));
    assert!(matches!(route(Target::Health, "GET"), Action::Health));
    assert!(matches!(route(Target::Health, "HEAD"), Action::Health));
    assert!(matches!(route(Target::Health, "PUT"), Action::Upload));
    assert!(matches!(route(Target::Health, "POST"), Action::NotAllowed));
    assert!(matches!(route(Target::Segment, "GET"), Action::Download));
    assert!(matches!(route(Target::Segment, "HEAD"), Action::Download));
    assert!(matches!(route(Target::Segment, "POST"), Action::NotAllowed));
    let r = method_not_allowed();
    assert_eq!((r.status, r.body.as_str()), (405, "method not allowed\n"));
}

use axum::http::HeaderMap;
use justupload::config::{configure, parse_port};
use justupload::headers::read_headers;
use justupload::ids::{gen_id, id_from, ID_ALPHABET, ID_ALPHABET_LEN, ID_LEN};
use justupload::names::sanitize;
use justupload::state::AppState;
use justupload::table::Table;
use justupload::text::{
    chars_of, contains, decimal_text, replace_all, same_text, starts_with, string_of, trimmed, Class,
};

#[test]
fn white_space_is_that_of_unicode() {
    for u in 0..=0x10FFFFu32 {
        if let Some(c) = char::from_u32(u) {
            assert_eq!(Class::White.has(c), c.is_whitespace(), "{u:x}");
        }
    }
    assert!(Class::Only('x').has('x'));
    assert!(!Class::Only('x').has('y'));
}

#[test]
fn text_functions_do_what_std_does() {
    let samples = [
        "", "a", "aa", "aaa", "abab", "text/html", "a,text/html;q=1", "häää", " \t x y \n", "//a//",
        "{{BASE}}", "x{{BASE}}{{BASE}}y", "{{{BASE}}}", "..a..", "localhost:1", "127.0.0.1",
    ];
    let patterns = ["a", "aa", "ab", "text/html", "{{BASE}}", "ä", "//", "localhost", "127."];
    for s in samples {
        let v = chars_of(s);
        assert_eq!(string_of(&v, 0, v.len()), s);
        assert_eq!(trimmed(&v, Class::White, 0, v.len()), s.trim());
        assert_eq!(trimmed(&v, Class::Only('.'), 0, v.len()), s.trim_matches('.'));
        for p in patterns {
            assert_eq!(contains(s, p), s.contains(p), "{s} {p}");
            assert_eq!(starts_with(s, p), s.starts_with(p), "{s} {p}");
            assert_eq!(same_text(s, p), s == p, "{s} {p}");
            assert_eq!(replace_all(s, p, "<>"), s.replace(p, "<>"), "{s} {p}");
        }
        assert!(contains(s, ""));
        assert!(starts_with(s, ""));
    }
}

#[test]
fn decimal_numbers() {
    for n in [0u64, 1, 9, 10, 11, 99, 100, 10_485_760, u64::MAX] {
        assert_eq!(decimal_text(n), n.to_string());
    }
}

#[test]
fn ports_are_read_as_std_reads_them() {
    let samples = [
        "", "0", "80", "8080", "65535", "65536", "99999999999999999999", "+80", "+", "-1", " 80", "80 ",
        "8a", "٣", "00080", "++1",
    ];
    for s in samples {
        assert_eq!(parse_port(s), s.parse::<u16>().ok(), "{s}");
    }
}

#[test]
fn configuration_has_defaults() {
    let c = configure(None, None, None);
    assert_eq!((c.port, c.dir.as_str(), c.base_url), (8080, "/tmp/justupload", None));
    let c = configure(
        Some("9000".to_string()),
        Some("/data/uploads".to_string()),
        Some("https://x".to_string()),
    );
    assert_eq!((c.port, c.dir.as_str()), (9000, "/data/uploads"));
    assert_eq!(c.base_url.as_deref(), Some("https://x"));
    let c = configure(Some("many".to_string()), None, None);
    assert_eq!(c.port, 8080);
}

#[test]
fn names_are_made_safe() {
    let cases = [
        ("greeting.txt", "greeting.txt"),
        ("provisioning-api", "provisioning-api"),
        ("../../etc/passwd", "passwd"),
        ("C:\\temp\\a.txt", "a.txt"),
        ("a/b\\c", "c"),
        ("a/", "file"),
        ("", "file"),
        (".", "file"),
        ("..", "file"),
        (".bashrc", "bashrc"),
        ("...a.b...", "a.b"),
        ("my file (1).txt", "myfile1.txt"),
        ("näme.txt", "nme.txt"),
        ("a\"b\r\nc", "abc"),
        ("日本", "file"),
        ("_-.", "_-"),
    ];
    for (name, safe) in cases {
        assert_eq!(sanitize(name), safe, "{name}");
        assert_eq!(sanitize(&sanitize(name)), safe, "{name}");
        assert_eq!(sanitize(&format!("some/dir/{name}")), safe, "{name}");
    }
}

#[test]
fn long_names_are_cut() {
    let long = "x".repeat(200);
    assert_eq!(sanitize(&long), "x".repeat(96));
    // What is cut off is not seen by the trimming.
    let dotted = format!("{}.txt", "y".repeat(95));
    assert_eq!(sanitize(&dotted), "y".repeat(95));
    let spaced = "z ".repeat(150);
    assert_eq!(sanitize(&spaced), "z".repeat(96));
}

#[test]
fn paths_are_joined_as_std_joins_them() {
    let headers = read_headers(&HeaderMap::new());
    for dir in ["", "/", "/tmp/justupload", "/tmp/justupload/", "rel", "a//", "/ü", "C:", "\\\\h\\s"] {
        let mut st = AppState::new(dir.to_string(), None);
        let up = st.begin_upload(&headers, "a", None).ok().unwrap();
        let std = std::path::Path::new(dir).join(&up.id);
        assert_eq!(up.path, std.to_str().unwrap(), "{dir}");
    }
    let sep = std::path::MAIN_SEPARATOR;
    let mut st = AppState::new("up".to_string(), None);
    let up = st.begin_upload(&headers, "a", None).ok().unwrap();
    assert_eq!(up.path, format!("up{sep}{}", up.id));
    let mut st = AppState::new("up/".to_string(), None);
    let up = st.begin_upload(&headers, "a", None).ok().unwrap();
    assert_eq!(up.path, format!("up/{}", up.id));
}

#[test]
fn ids_are_drawn_from_the_alphabet() {
    assert_eq!(ID_ALPHABET.len(), ID_ALPHABET_LEN);
    let mut seen = std::collections::HashSet::new();
    for _ in 0..500 {
        let id = gen_id();
        assert_eq!(id.len(), ID_LEN);
        for c in id.chars() {
            assert!(ID_ALPHABET.contains(c), "{id}");
            assert!(!"lIO01".contains(c), "{id}");
        }
        seen.insert(id);
    }
    // They are not all the same.
    assert!(seen.len() > 490);
}

#[test]
fn ids_follow_the_picks() {
    assert_eq!(id_from(&vec![0, 10, 11, 24, 25, 33, 49, 56]), "akmzAJ29");
    assert_eq!(id_from(&vec![]), "");
}

#[test]
fn tables_keep_their_pairs_together() {
    let mut t: Table<u64> = Table::new();
    assert_eq!(t.len(), 0);
    for i in 0..50u64 {
        t.insert(format!("k{i}"), i);
    }
    t.insert("k7".to_string(), 700);
    assert_eq!(t.len(), 50);
    assert_eq!(t.remove("k0"), Some(0));
    assert_eq!(t.remove("k0"), None);
    assert_eq!(t.remove("k49"), Some(49));
    assert_eq!(t.remove("k7"), Some(700));
    assert_eq!(t.len(), 47);
    let keys = t.key_list();
    for (i, k) in keys.iter().enumerate() {
        assert_eq!(t.key(i), k);
        assert_eq!(format!("k{}", t.value(i)), *k);
    }
    for k in &keys {
        assert!(t.remove(k).is_some());
    }
    assert_eq!(t.len(), 0);
}

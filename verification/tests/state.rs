use justupload::clock::Clock;
use justupload::pages::health;
use justupload::state::{AppState, Entry, MAX_FILE_SIZE, QUOTA_BYTES, TTL};

const MB: u64 = 1024 * 1024;

fn fresh() -> AppState {
    AppState::new("/tmp/x".to_string(), None)
}

fn entry(name: &str, size: u64, created: u128) -> Entry {
    Entry {
        name: name.to_string(),
        path: format!("/tmp/x/{name}"),
        size,
        created,
    }
}

#[test]
fn limits_are_as_documented() {
    assert_eq!(MAX_FILE_SIZE, 10_485_760);
    assert_eq!(QUOTA_BYTES, 31_457_280);
    assert_eq!(TTL, 3_600_000_000_000);
}

#[test]
fn fresh_state_is_empty() {
    let st = fresh();
    assert_eq!(st.dir(), "/tmp/x");
    assert_eq!(st.base_url(), &None);
    assert_eq!(st.stats(), (0, 0));
}

#[test]
fn reserving_uses_the_quota_up() {
    let mut st = fresh();
    assert_eq!(st.remaining_at("a", 0), 30 * MB);
    assert_eq!(st.try_reserve_at("a", 20 * MB, 1), Ok(()));
    assert_eq!(st.remaining_at("a", 2), 10 * MB);
    assert_eq!(st.try_reserve_at("a", 10 * MB + 1, 3), Err(10 * MB));
    assert_eq!(st.remaining_at("a", 3), 10 * MB);
    assert_eq!(st.try_reserve_at("a", 10 * MB, 4), Ok(()));
    assert_eq!(st.remaining_at("a", 5), 0);
    assert_eq!(st.try_reserve_at("a", 1, 6), Err(0));
    assert_eq!(st.try_reserve_at("a", 0, 6), Ok(()));
    // Another client is not concerned.
    assert_eq!(st.remaining_at("b", 6), 30 * MB);
}

#[test]
fn huge_reservations_are_refused() {
    let mut st = fresh();
    assert_eq!(st.try_reserve_at("a", 1, 0), Ok(()));
    assert_eq!(st.try_reserve_at("a", u64::MAX, 0), Err(30 * MB - 1));
}

#[test]
fn quota_window_slides() {
    let mut st = fresh();
    assert_eq!(st.try_reserve_at("a", 20 * MB, 100), Ok(()));
    assert_eq!(st.try_reserve_at("a", 10 * MB, 200), Ok(()));
    assert_eq!(st.remaining_at("a", 100 + TTL - 1), 0);
    assert_eq!(st.remaining_at("a", 100 + TTL), 20 * MB);
    assert_eq!(st.try_reserve_at("a", 20 * MB + 1, 100 + TTL), Err(20 * MB));
    assert_eq!(st.remaining_at("a", 200 + TTL), 30 * MB);
}

#[test]
fn a_charge_from_the_future_counts() {
    let mut st = fresh();
    assert_eq!(st.try_reserve_at("a", MB, 500), Ok(()));
    assert_eq!(st.remaining_at("a", 0), 29 * MB);
}

#[test]
fn collecting_keeps_what_counts() {
    let mut st = fresh();
    for i in 0..20u64 {
        let ip = format!("10.0.0.{i}");
        assert_eq!(st.try_reserve_at(&ip, MB, i as u128), Ok(()));
    }
    st.gc_quota_at(TTL + 9);
    for i in 0..20u64 {
        let ip = format!("10.0.0.{i}");
        let left = if i <= 9 { 30 * MB } else { 29 * MB };
        assert_eq!(st.remaining_at(&ip, TTL + 9), left, "{ip}");
    }
}

#[test]
fn the_clock_of_the_state_drives_the_quota() {
    let mut st = fresh();
    assert_eq!(st.try_reserve("a", 5), Ok(()));
    assert_eq!(st.remaining("a"), 30 * MB - 5);
    assert_eq!(st.try_reserve("a", 30 * MB), Err(30 * MB - 5));
    st.gc_quota();
    assert_eq!(st.remaining("a"), 30 * MB - 5);
    let a = st.now();
    let b = st.now();
    assert!(a <= b && b < TTL);
}

#[test]
fn a_file_is_taken_once() {
    let mut st = fresh();
    st.insert("one".to_string(), entry("a.txt", 7, 3));
    st.insert("two".to_string(), entry("b.txt", 8, 4));
    assert_eq!(st.stats(), (2, 15));
    let e = st.take("one").unwrap();
    assert_eq!((e.name.as_str(), e.path.as_str()), ("a.txt", "/tmp/x/a.txt"));
    assert_eq!((e.size, e.created), (7, 3));
    assert!(st.take("one").is_none());
    assert_eq!(st.stats(), (1, 8));
    assert_eq!(st.take("two").unwrap().name, "b.txt");
    assert!(st.take("three").is_none());
    assert_eq!(st.stats(), (0, 0));
}

#[test]
fn a_later_file_replaces_an_earlier_one() {
    let mut st = fresh();
    st.insert("id".to_string(), entry("a", 1, 0));
    st.insert("id".to_string(), entry("b", 2, 0));
    assert_eq!(st.stats(), (1, 2));
    assert_eq!(st.take("id").unwrap().name, "b");
}

#[test]
fn many_files_come_and_go() {
    let mut st = fresh();
    for i in 0..200u64 {
        st.insert(format!("id{i}"), entry(&format!("f{i}"), i, 0));
    }
    for i in (0..200u64).step_by(3) {
        assert_eq!(st.take(&format!("id{i}")).unwrap().size, i);
    }
    for i in 0..200u64 {
        let e = st.take(&format!("id{i}"));
        assert_eq!(e.is_some(), i % 3 != 0);
        if let Some(e) = e {
            assert_eq!(e.name, format!("f{i}"));
        }
    }
    assert_eq!(st.stats(), (0, 0));
}

#[test]
fn expired_files_are_swept_out() {
    let mut st = fresh();
    for i in 0..10u64 {
        st.insert(format!("id{i}"), entry(&format!("f{i}"), 1, 10 * i as u128));
    }
    assert!(st.expired_at(TTL - 1).is_empty());
    let mut gone: Vec<String> = st.expired_at(TTL + 40).into_iter().map(|e| e.name).collect();
    gone.sort();
    assert_eq!(gone, ["f0", "f1", "f2", "f3", "f4"]);
    assert_eq!(st.stats(), (5, 5));
    assert!(st.take("id4").is_none());
    assert!(st.take("id5").is_some());
    assert!(st.expired_at(TTL + 40).is_empty());
    assert!(st.expired().is_empty());
}

#[test]
fn sizes_that_do_not_add_up() {
    let mut st = fresh();
    st.insert("a".to_string(), entry("a", u64::MAX, 0));
    assert_eq!(st.checked_stats(), Some((1, u64::MAX)));
    st.insert("b".to_string(), entry("b", 1, 0));
    assert_eq!(st.checked_stats(), None);
    assert!(health(&st).is_none());
}

#[test]
fn health_reports_files_and_bytes() {
    let mut st = fresh();
    st.insert("a".to_string(), entry("a", 1000, 0));
    st.insert("b".to_string(), entry("b", 234, 0));
    let r = health(&st).unwrap();
    assert_eq!(r.status, 200);
    assert_eq!(r.content_type, "text/plain; charset=utf-8");
    assert_eq!(r.body, "ok\nfiles=2\nbytes=1234\n");
}

#[test]
fn the_clock_never_goes_back() {
    let mut clock = Clock::new();
    let mut last = clock.now();
    for _ in 0..1000 {
        let now = clock.now();
        assert!(last <= now);
        last = now;
    }
    // It does go on.
    let mut later = last;
    while later == last {
        later = clock.now();
    }
    assert!(later < TTL);
}

#[test]
fn the_clock_tells_the_later_of_two_times() {
    let mut clock = Clock::new();
    assert_eq!(clock.tell(0), 0);
    assert_eq!(clock.tell(2 * TTL), 2 * TTL);
    assert_eq!(clock.tell(5), 2 * TTL);
    assert_eq!(clock.now(), 2 * TTL);
    assert_eq!(clock.tell(2 * TTL + 1), 2 * TTL + 1);
}

#[test]
fn what_is_left_is_what_the_last_hour_left() {
    let mut st = fresh();
    assert_eq!(st.try_reserve_at("a", 10 * MB, 0), Ok(()));
    assert_eq!(st.try_reserve_at("a", 25 * MB, 10), Err(20 * MB));
    assert_eq!(st.try_reserve_at("b", 30 * MB, 20), Ok(()));
    assert_eq!(st.try_reserve_at("a", 5 * MB, 30), Ok(()));
    st.gc_quota_at(TTL);
    assert_eq!(st.try_reserve_at("a", MB, TTL + 1), Ok(()));
    // Of the charges of "a", 5 MB and 1 MB belong to the last hour.
    assert_eq!(st.remaining_at("a", TTL + 29), 24 * MB);
    assert_eq!(st.remaining_at("a", TTL + 30), 29 * MB);
}

#[test]
fn what_was_swept_out_stays_gone() {
    let mut st = fresh();
    st.insert("id".to_string(), entry("a", 1, 0));
    assert_eq!(st.expired_at(TTL).len(), 1);
    assert!(st.take("id").is_none());
    assert!(st.expired_at(2 * TTL).is_empty());
    st.insert("id".to_string(), entry("b", 1, TTL));
    assert_eq!(st.take("id").unwrap().name, "b");
    assert!(st.expired_at(3 * TTL).is_empty());
}

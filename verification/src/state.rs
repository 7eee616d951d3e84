//! The state of the service and the operations on it.
//!
//! Each operation that depends on the time comes twice: once reading the clock,
//! and once, with `_at` behind its name, for a time that the caller gives.

use crate::clock::Clock;
use crate::model::{
    enumerates, lists_stale, live, stale_ids, stored_bytes, stored_bytes_remove, total, total_push,
    window, window_push, window_total_bound, EntryView, StateView,
};
use crate::table::Table;
use crate::text::{text_view, texts};
use vstd::prelude::*;

verus! {

/// The largest file that is accepted, in bytes.
pub const MAX_FILE_SIZE: usize = 10 * 1024 * 1024;

/// The bytes that one client may upload within an hour.
pub const QUOTA_BYTES: u64 = 30 * 1024 * 1024;

/// How long a file is kept and a charge counts: one hour, in nanoseconds.
pub const TTL: u128 = 60 * 60 * 1_000_000_000;

/// A file that waits for its download.
pub struct Entry {
    /// The name under which it is offered.
    pub name: String,
    /// Where its body is kept.
    pub path: String,
    /// Its length in bytes.
    pub size: u64,
    /// When it was stored, on the clock of the state.
    pub created: u128,
}

impl View for Entry {
    type V = EntryView;

    open spec fn view(&self) -> EntryView {
        EntryView {
            name: self.name@,
            path: self.path@,
            size: self.size,
            created: self.created,
        }
    }
}

/// The views of the entries in `v`.
pub open spec fn entry_views(v: Seq<Entry>) -> Seq<EntryView> {
    v.map_values(|e: Entry| e@)
}

/// The files that wait for their download and what each client has uploaded
/// lately.
pub struct AppState {
    dir: String,
    base_url: Option<String>,
    files: Table<Entry>,
    quota: Table<Vec<(u128, u64)>>,
    clock: Clock,
}

impl View for AppState {
    type V = StateView;

    closed spec fn view(&self) -> StateView {
        StateView {
            dir: self.dir@,
            base_url: text_view(self.base_url),
            files: self.files@.map_values(|e: Entry| e@),
            quota: self.quota@.map_values(|v: Vec<(u128, u64)>| v@),
            start: self.clock.start(),
            clock: self.clock@,
        }
    }
}

/// Whether something that happened at `t` still counts at `now`.
pub fn is_live(now: u128, t: u128) -> (b: bool)
    ensures
        b == live(now, t),
{
    if now >= t {
        now - t < TTL
    } else {
        true
    }
}

/// The charges that still count at `now`.
fn in_window(charges: &Vec<(u128, u64)>, now: u128) -> (r: Vec<(u128, u64)>)
    ensures
        r@ == window(charges@, now),
{
    let mut r: Vec<(u128, u64)> = Vec::new();
    let mut i: usize = 0;
    while i < charges.len()
        invariant
            i <= charges.len(),
            r@ == window(charges@.take(i as int), now),
        decreases charges.len() - i,
    {
        let c: (u128, u64) = charges[i];
        proof {
            window_push(charges@.take(i as int), c, now);
            assert(charges@.take(i as int).push(c) == charges@.take(i + 1));
        }
        if is_live(now, c.0) {
            r.push(c);
        }
        i = i + 1;
    }
    assert(charges@.take(charges@.len() as int) == charges@);
    r
}

/// The bytes of all the charges together.
fn sum(charges: &Vec<(u128, u64)>) -> (n: u64)
    requires
        total(charges@) <= u64::MAX,
    ensures
        n == total(charges@),
{
    let mut n: u64 = 0;
    let mut i: usize = charges.len();
    assert(charges@.take(charges@.len() as int) == charges@);
    while i > 0
        invariant
            i <= charges.len(),
            n + total(charges@.take(i as int)) == total(charges@),
            total(charges@) <= u64::MAX,
        decreases i,
    {
        i = i - 1;
        proof {
            assert(charges@.take(i + 1).drop_last() == charges@.take(i as int));
        }
        n = n + charges[i].1;
    }
    n
}

/// `quota` once the clients in `done` have been seen to at `now`.
spec fn partly_collected(
    quota: Map<Seq<char>, Seq<(u128, u64)>>,
    done: Seq<Seq<char>>,
    now: u128,
) -> Map<Seq<char>, Seq<(u128, u64)>> {
    Map::new(
        |ip: Seq<char>|
            quota.contains_key(ip) && (done.contains(ip) ==> window(quota[ip], now).len() > 0),
        |ip: Seq<char>|
            if done.contains(ip) {
                window(quota[ip], now)
            } else {
                quota[ip]
            },
    )
}

/// What a list holds once `x` is added to it.
proof fn push_contains(s: Seq<Seq<char>>, x: Seq<char>)
    ensures
        forall|k: Seq<char>| #[trigger] s.push(x).contains(k) == (s.contains(k) || k == x),
{
    let all = s.push(x);
    assert forall|k: Seq<char>| #[trigger] all.contains(k) == (s.contains(k) || k == x) by {
        assert(all[s.len() as int] == x);
        if s.contains(k) {
            let j = choose|j: int| 0 <= j < s.len() && s[j] == k;
            assert(all[j] == k);
        }
    }
}

impl AppState {
    /// The two tables are in order, and no list of charges exceeds the quota.
    pub closed spec fn wf(&self) -> bool {
        &&& self.files.wf()
        &&& self.quota.wf()
        &&& self@.valid()
    }

    /// Where the bodies of the files are kept.
    pub fn dir(&self) -> (dir: &str)
        ensures
            dir@ == self@.dir,
    {
        self.dir.as_str()
    }

    /// The configured beginning of the links, if there is one.
    pub fn base_url(&self) -> (base_url: &Option<String>)
        ensures
            text_view(*base_url) == self@.base_url,
    {
        &self.base_url
    }

    /// A well-formed state is valid.
    pub proof fn wf_is_valid(&self)
        requires
            self.wf(),
        ensures
            self@.valid(),
    {
    }

    /// A state with no files and no charges, whose clock starts now.
    pub fn new(dir: String, base_url: Option<String>) -> (st: Self)
        ensures
            st.wf(),
            st@ == (StateView {
                dir: dir@,
                base_url: text_view(base_url),
                files: Map::empty(),
                quota: Map::empty(),
                start: st@.start,
                clock: 0,
            }),
    {
        let st: AppState = AppState {
            dir,
            base_url,
            files: Table::new(),
            quota: Table::new(),
            clock: Clock::new(),
        };
        st
    }

    /// Reads the clock of the state, in nanoseconds. The time is never earlier
    /// than what was read before.
    pub fn now(&mut self) -> (now: u128)
        ensures
            old(self).wf() ==> final(self).wf(),
            old(self)@.clock <= now,
            old(self)@.tells(now),
            final(self)@ == old(self)@.at(now),
    {
        self.clock.now()
    }

    /// Takes out the charges of `ip` that still count at `now`, and forgets the
    /// others.
    fn take_window(&mut self, ip: &str, now: u128) -> (charges: Vec<(u128, u64)>)
        requires
            old(self).wf(),
        ensures
            final(self).wf(),
            charges@ == window(old(self)@.charges(ip@), now),
            total(charges@) <= QUOTA_BYTES,
            final(self)@ == (StateView { quota: old(self)@.quota.remove(ip@), ..old(self)@ }),
    {
        proof {
            window_total_bound(self@.charges(ip@), now);
        }
        let found: Option<Vec<(u128, u64)>> = self.quota.remove(ip);
        let charges: Vec<(u128, u64)> = match found {
            Some(charges) => in_window(&charges, now),
            None => {
                Vec::new()
            },
        };
        assert(self@.quota =~= old(self)@.quota.remove(ip@));
        charges
    }

    /// Writes down `charges` for `ip`.
    fn put_charges(&mut self, ip: &str, charges: Vec<(u128, u64)>)
        requires
            old(self).wf(),
            total(charges@) <= QUOTA_BYTES,
        ensures
            final(self).wf(),
            final(self)@ == (StateView {
                quota: old(self)@.quota.insert(ip@, charges@),
                ..old(self)@
            }),
    {
        self.quota.insert(ip.to_string(), charges);
        assert(self@.quota =~= old(self)@.quota.insert(ip@, charges@));
    }

    /// Reserves `size` bytes of quota for `ip`. Returns the remaining bytes on
    /// failure.
    pub fn try_reserve(&mut self, ip: &str, size: u64) -> (r: Result<(), u64>)
        requires
            old(self).wf(),
        ensures
            final(self).wf(),
            exists|now: u128|
                old(self)@.clock <= now && old(self)@.tells(now) && final(self)@ == #[trigger] old(self)@.at(now).reserved(
                    ip@,
                    size,
                    now,
                ) && r == old(self)@.at(now).reserve_answer(ip@, size, now),
    {
        let now: u128 = self.now();
        self.try_reserve_at(ip, size, now)
    }

    /// `try_reserve` at the time `now`.
    pub fn try_reserve_at(&mut self, ip: &str, size: u64, now: u128) -> (r: Result<(), u64>)
        requires
            old(self).wf(),
        ensures
            final(self).wf(),
            final(self)@ == old(self)@.reserved(ip@, size, now),
            r == old(self)@.reserve_answer(ip@, size, now),
    {
        let mut charges: Vec<(u128, u64)> = self.take_window(ip, now);
        let used: u64 = sum(&charges);
        if size > QUOTA_BYTES - used {
            self.put_charges(ip, charges);
            return Err(QUOTA_BYTES - used);
        }
        proof {
            total_push(charges@, (now, size));
        }
        charges.push((now, size));
        self.put_charges(ip, charges);
        Ok(())
    }

    /// The bytes that `ip` may still upload within the current hour.
    pub fn remaining(&mut self, ip: &str) -> (n: u64)
        requires
            old(self).wf(),
        ensures
            final(self).wf(),
            exists|now: u128|
                old(self)@.clock <= now && old(self)@.tells(now) && final(self)@ == #[trigger] old(self)@.at(now).pruned(
                    ip@,
                    now,
                ) && n == old(self)@.at(now).allowance(ip@, now),
    {
        let now: u128 = self.now();
        self.remaining_at(ip, now)
    }

    /// `remaining` at the time `now`.
    pub fn remaining_at(&mut self, ip: &str, now: u128) -> (n: u64)
        requires
            old(self).wf(),
        ensures
            final(self).wf(),
            final(self)@ == old(self)@.pruned(ip@, now),
            n == old(self)@.allowance(ip@, now),
    {
        let charges: Vec<(u128, u64)> = self.take_window(ip, now);
        let used: u64 = sum(&charges);
        self.put_charges(ip, charges);
        QUOTA_BYTES - used
    }

    /// Stores a file under `id`, in place of the one that was there.
    pub fn insert(&mut self, id: String, entry: Entry)
        requires
            old(self).wf(),
        ensures
            final(self).wf(),
            final(self)@ == old(self)@.stored(id@, entry@),
    {
        self.files.insert(id, entry);
        assert(self@.files =~= old(self)@.files.insert(id@, entry@));
    }

    /// Takes the file under `id` out: a file can only be downloaded once.
    pub fn take(&mut self, id: &str) -> (r: Option<Entry>)
        requires
            old(self).wf(),
        ensures
            final(self).wf(),
            final(self)@ == old(self)@.taken(id@),
            match r {
                Some(entry) => old(self)@.lookup(id@) == Some(entry@),
                None => old(self)@.lookup(id@) is None,
            },
    {
        let r: Option<Entry> = self.files.remove(id);
        assert(self@.files =~= old(self)@.files.remove(id@));
        r
    }

    /// The ids of the files whose time is up at `now`.
    fn stale(&self, now: u128) -> (ids: Vec<String>)
        requires
            self.wf(),
        ensures
            enumerates(texts(ids@), stale_ids(self@.files, now)),
    {
        let ghost keys = self.files.keys();
        let ghost stale = stale_ids(self@.files, now);
        proof {
            self.files.keys_are_the_domain();
        }
        let mut ids: Vec<String> = Vec::new();
        let n: usize = self.files.len();
        let mut i: usize = 0;
        while i < n
            invariant
                self.wf(),
                self.files.wf(),
                i <= n,
                n == keys.len(),
                keys == self.files.keys(),
                keys.no_duplicates(),
                stale == stale_ids(self@.files, now),
                texts(ids@).no_duplicates(),
                forall|j: int| 0 <= j < ids@.len() ==> stale.contains(#[trigger] texts(ids@)[j]),
                forall|j: int|
                    0 <= j < ids@.len() ==> keys.take(i as int).contains(#[trigger] texts(ids@)[j]),
                forall|j: int|
                    0 <= j < i && stale.contains(#[trigger] keys[j]) ==> texts(ids@).contains(
                        keys[j],
                    ),
            decreases n - i,
        {
            let entry: &Entry = self.files.value(i);
            let ghost before = texts(ids@);
            let ghost id = keys[i as int];
            assert(keys.take(i + 1)[i as int] == id);
            if !is_live(now, entry.created) {
                ids.push(self.files.key(i).clone());
                proof {
                    assert(texts(ids@) == before.push(id));
                    push_contains(before, id);
                }
            }
            i = i + 1;
        }
        assert(texts(ids@).to_set() =~= stale);
        ids
    }

    /// Takes out the files whose time is up.
    pub fn expired(&mut self) -> (entries: Vec<Entry>)
        requires
            old(self).wf(),
        ensures
            final(self).wf(),
            exists|now: u128|
                old(self)@.clock <= now && old(self)@.tells(now) && final(self)@ == #[trigger] old(self)@.at(now).swept(now)
                    && lists_stale(
                    entry_views(entries@),
                    old(self)@.files,
                    now,
                ),
    {
        let now: u128 = self.now();
        self.expired_at(now)
    }

    /// `expired` at the time `now`.
    pub fn expired_at(&mut self, now: u128) -> (entries: Vec<Entry>)
        requires
            old(self).wf(),
        ensures
            final(self).wf(),
            final(self)@ == old(self)@.swept(now),
            lists_stale(entry_views(entries@), old(self)@.files, now),
    {
        let ids: Vec<String> = self.stale(now);
        let ghost views = texts(ids@);
        let ghost files = self@.files;
        let mut entries: Vec<Entry> = Vec::new();
        let mut i: usize = 0;
        proof {
            assert(self@ =~= (StateView {
                files: files.remove_keys(views.take(0).to_set()),
                ..old(self)@
            }));
        }
        while i < ids.len()
            invariant
                self.wf(),
                i <= ids.len(),
                views == texts(ids@),
                views.no_duplicates(),
                files == old(self)@.files,
                enumerates(views, stale_ids(files, now)),
                self@ == (StateView {
                    files: files.remove_keys(views.take(i as int).to_set()),
                    ..old(self)@
                }),
                entries.len() == i,
                forall|j: int| 0 <= j < i ==> (#[trigger] entries@[j])@ == files[views[j]],
            decreases ids.len() - i,
        {
            let ghost id = views[i as int];
            let ghost gone = views.take(i as int);
            proof {
                assert(views.to_set().contains(id));
                if gone.contains(id) {
                    let j = choose|j: int| 0 <= j < gone.len() && gone[j] == id;
                    assert(views[j] == id);
                }
                assert(views.take(i + 1) == gone.push(id));
                push_contains(gone, id);
                assert(views.take(i + 1).to_set() =~= gone.to_set().insert(id));
            }
            match self.take(ids[i].as_str()) {
                Some(entry) => {
                    entries.push(entry);
                },
                None => {
                    assert(false);
                },
            }
            i = i + 1;
        }
        proof {
            assert(views.take(views.len() as int) == views);
            assert(entry_views(entries@) =~= views.map_values(|id: Seq<char>| files[id]));
        }
        entries
    }

    /// Forgets the charges that no longer count, and the clients that are left
    /// with none.
    pub fn gc_quota(&mut self)
        requires
            old(self).wf(),
        ensures
            final(self).wf(),
            exists|now: u128|
                old(self)@.clock <= now && old(self)@.tells(now) && final(self)@ == #[trigger] old(self)@.at(now).collected(
                    now,
                ),
    {
        let now: u128 = self.now();
        self.gc_quota_at(now);
    }

    /// `gc_quota` at the time `now`.
    pub fn gc_quota_at(&mut self, now: u128)
        requires
            old(self).wf(),
        ensures
            final(self).wf(),
            final(self)@ == old(self)@.collected(now),
    {
        let ips: Vec<String> = self.quota.key_list();
        let ghost views = texts(ips@);
        let ghost quota = self@.quota;
        proof {
            self.quota.keys_are_the_domain();
        }
        let mut i: usize = 0;
        while i < ips.len()
            invariant
                self.wf(),
                i <= ips.len(),
                views == texts(ips@),
                views.no_duplicates(),
                quota == old(self)@.quota,
                quota.dom() == views.to_set(),
                self@ == (StateView {
                    quota: partly_collected(quota, views.take(i as int), now),
                    ..old(self)@
                }),
            decreases ips.len() - i,
        {
            let ghost ip = views[i as int];
            let ghost done = views.take(i as int);
            proof {
                assert(views.take(i + 1) == done.push(ip));
                push_contains(done, ip);
            }
            let charges: Vec<(u128, u64)> = self.take_window(ips[i].as_str(), now);
            if charges.len() > 0 {
                self.put_charges(ips[i].as_str(), charges);
            }
            i = i + 1;
        }
        assert(views.take(views.len() as int) == views);
    }

    /// The number of stored files and the sum of their sizes, if the sum can be
    /// written in 64 bits.
    pub fn checked_stats(&self) -> (r: Option<(usize, u64)>)
        requires
            self.wf(),
        ensures
            match r {
                Some((n, bytes)) => n == self@.files.dom().len() && bytes == stored_bytes(self@.files),
                None => stored_bytes(self@.files) > u64::MAX,
            },
    {
        let ghost keys = self.files.keys();
        let ghost files = self@.files;
        proof {
            self.files.keys_are_the_domain();
            assert(files.remove_keys(keys.take(0).to_set()) =~= files);
        }
        let n: usize = self.files.len();
        let mut bytes: u64 = 0;
        let mut i: usize = 0;
        while i < n
            invariant
                self.wf(),
                self.files.wf(),
                i <= n,
                n == keys.len(),
                keys == self.files.keys(),
                keys.no_duplicates(),
                files == self@.files,
                files.dom().finite(),
                keys.to_set() == files.dom(),
                bytes + stored_bytes(files.remove_keys(keys.take(i as int).to_set()))
                    == stored_bytes(files),
            decreases n - i,
        {
            let size: u64 = self.files.value(i).size;
            proof {
                let id = keys[i as int];
                let seen = keys.take(i as int);
                let rest = files.remove_keys(seen.to_set());
                assert(rest.dom() =~= files.dom().difference(seen.to_set()));
                stored_bytes_remove(rest, id);
                assert(keys.take(i + 1) == seen.push(id));
                push_contains(seen, id);
                assert(rest.remove(id) =~= files.remove_keys(keys.take(i + 1).to_set()));
            }
            if size > u64::MAX - bytes {
                return None;
            }
            bytes = bytes + size;
            i = i + 1;
        }
        proof {
            assert(keys.take(keys.len() as int) == keys);
            let rest = files.remove_keys(keys.to_set());
            assert(rest.dom() =~= Set::<Seq<char>>::empty());
        }
        Some((n, bytes))
    }

    /// The number of stored files and the sum of their sizes.
    pub fn stats(&self) -> (r: (usize, u64))
        requires
            self.wf(),
            stored_bytes(self@.files) <= u64::MAX,
        ensures
            r.0 == self@.files.dom().len(),
            r.1 == stored_bytes(self@.files),
    {
        match self.checked_stats() {
            Some(r) => r,
            None => {
                assert(false);
                (0, 0)
            },
        }
    }
}

} // verus!

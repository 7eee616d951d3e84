//! What the service remembers, as mathematics: the files that wait for their
//! download, and what each client has uploaded lately.

use crate::clock::machine_reads;
use crate::state::{QUOTA_BYTES, TTL};
use std::time::Instant;
use vstd::prelude::*;

verus! {

/// One stored file.
pub struct EntryView {
    pub name: Seq<char>,
    pub path: Seq<char>,
    pub size: u64,
    pub created: u128,
}

/// Everything that the service remembers. Times are in nanoseconds.
#[verifier::ext_equal]
pub struct StateView {
    /// Where the bodies of the files are kept.
    pub dir: Seq<char>,
    /// The configured beginning of the links, if there is one.
    pub base_url: Option<Seq<char>>,
    /// The stored files, by id.
    pub files: Map<Seq<char>, EntryView>,
    /// What each client was charged: when, and how many bytes.
    pub quota: Map<Seq<char>, Seq<(u128, u64)>>,
    /// When the clock was made, from which all times are counted.
    pub start: Instant,
    /// The latest time that was read off the clock.
    pub clock: u128,
}

/// How long before `now` the time `t` was; nothing, if it was not before.
pub open spec fn age(now: u128, t: u128) -> int {
    if now >= t {
        now - t
    } else {
        0
    }
}

/// Whether something that happened at `t` still counts at `now`.
pub open spec fn live(now: u128, t: u128) -> bool {
    age(now, t) < TTL
}

/// The charges that still count at `now`.
pub open spec fn window(charges: Seq<(u128, u64)>, now: u128) -> Seq<(u128, u64)> {
    charges.filter(|c: (u128, u64)| live(now, c.0))
}

/// The bytes of all the charges together.
pub open spec fn total(charges: Seq<(u128, u64)>) -> nat
    decreases charges.len(),
{
    if charges.len() == 0 {
        0
    } else {
        total(charges.drop_last()) + charges.last().1 as nat
    }
}

/// The bytes of all the files together.
pub open spec fn stored_bytes(files: Map<Seq<char>, EntryView>) -> nat
    decreases files.dom().len(),
    when files.dom().finite()
{
    if files.dom().is_empty() {
        0
    } else {
        let id = files.dom().choose();
        files[id].size as nat + stored_bytes(files.remove(id))
    }
}

/// The ids of the files whose time is up at `now`.
pub open spec fn stale_ids(files: Map<Seq<char>, EntryView>, now: u128) -> Set<Seq<char>> {
    files.dom().filter(|id: Seq<char>| !live(now, files[id].created))
}

/// Whether `ids` lists each member of `set` once, and nothing else.
pub open spec fn enumerates(ids: Seq<Seq<char>>, set: Set<Seq<char>>) -> bool {
    ids.no_duplicates() && ids.to_set() == set
}

/// Whether `entries` are the files whose time is up at `now`, each once, in
/// some order.
pub open spec fn lists_stale(
    entries: Seq<EntryView>,
    files: Map<Seq<char>, EntryView>,
    now: u128,
) -> bool {
    exists|ids: Seq<Seq<char>>| #[trigger]
        enumerates(ids, stale_ids(files, now)) && entries == ids.map_values(
            |id: Seq<char>| files[id],
        )
}

impl StateView {
    /// The state once the clock was read and told `now`.
    pub open spec fn at(self, now: u128) -> StateView {
        StateView { clock: now, ..self }
    }

    /// Whether the clock of the state, read now, may tell `now`: what the machine's
    /// clock reads, or the latest time that was told, where that is later.
    pub open spec fn tells(self, now: u128) -> bool {
        exists|reading: u128| #[trigger]
            machine_reads(self.start, reading) && now == if reading > self.clock {
                reading
            } else {
                self.clock
            }
    }

    /// What the client at `ip` was charged.
    pub open spec fn charges(self, ip: Seq<char>) -> Seq<(u128, u64)> {
        if self.quota.contains_key(ip) {
            self.quota[ip]
        } else {
            Seq::empty()
        }
    }

    /// The bytes that the client at `ip` has used up at `now`.
    pub open spec fn used(self, ip: Seq<char>, now: u128) -> nat {
        total(window(self.charges(ip), now))
    }

    /// The bytes that the client at `ip` may still upload at `now`.
    pub open spec fn allowance(self, ip: Seq<char>, now: u128) -> int {
        if self.used(ip, now) <= QUOTA_BYTES {
            QUOTA_BYTES - self.used(ip, now)
        } else {
            0
        }
    }

    /// The state once the charges of `ip` that no longer count at `now` are
    /// forgotten.
    pub open spec fn pruned(self, ip: Seq<char>, now: u128) -> StateView {
        StateView { quota: self.quota.insert(ip, window(self.charges(ip), now)), ..self }
    }

    /// Whether a charge of `size` bytes fits at `now`.
    pub open spec fn fits(self, ip: Seq<char>, size: u64, now: u128) -> bool {
        self.used(ip, now) + size <= QUOTA_BYTES
    }

    /// The state after an attempt to charge `ip` with `size` bytes at `now`.
    pub open spec fn reserved(self, ip: Seq<char>, size: u64, now: u128) -> StateView {
        if self.fits(ip, size, now) {
            StateView {
                quota: self.quota.insert(ip, window(self.charges(ip), now).push((now, size))),
                ..self
            }
        } else {
            self.pruned(ip, now)
        }
    }

    /// What an attempt to charge `ip` with `size` bytes at `now` is answered.
    pub open spec fn reserve_answer(self, ip: Seq<char>, size: u64, now: u128) -> Result<(), u64> {
        if self.fits(ip, size, now) {
            Ok(())
        } else {
            Err(self.allowance(ip, now) as u64)
        }
    }

    /// The state with the file `entry` under `id`.
    pub open spec fn stored(self, id: Seq<char>, entry: EntryView) -> StateView {
        StateView { files: self.files.insert(id, entry), ..self }
    }

    /// The file under `id`.
    pub open spec fn lookup(self, id: Seq<char>) -> Option<EntryView> {
        if self.files.contains_key(id) {
            Some(self.files[id])
        } else {
            None
        }
    }

    /// The state without a file under `id`.
    pub open spec fn taken(self, id: Seq<char>) -> StateView {
        StateView { files: self.files.remove(id), ..self }
    }

    /// The state without the files whose time is up at `now`.
    pub open spec fn swept(self, now: u128) -> StateView {
        StateView { files: self.files.remove_keys(stale_ids(self.files, now)), ..self }
    }

    /// The state without the charges that no longer count at `now`, and without
    /// the clients that are left with none.
    pub open spec fn collected(self, now: u128) -> StateView {
        StateView {
            quota: Map::new(
                |ip: Seq<char>|
                    self.quota.contains_key(ip) && window(self.quota[ip], now).len() > 0,
                |ip: Seq<char>| window(self.quota[ip], now),
            ),
            ..self
        }
    }

    /// No client's charges exceed the quota, and the files are finitely many.
    pub open spec fn valid(self) -> bool {
        &&& self.files.dom().finite()
        &&& forall|ip: Seq<char>| #[trigger]
            self.quota.contains_key(ip) ==> total(self.quota[ip]) <= QUOTA_BYTES
    }
}

/// Adding a charge adds its bytes.
pub proof fn total_push(charges: Seq<(u128, u64)>, c: (u128, u64))
    ensures
        total(charges.push(c)) == total(charges) + c.1,
{
    assert(charges.push(c).drop_last() == charges);
}

/// What still counts of a longer list of charges.
pub proof fn window_push(charges: Seq<(u128, u64)>, c: (u128, u64), now: u128)
    ensures
        window(charges.push(c), now) == if live(now, c.0) {
            window(charges, now).push(c)
        } else {
            window(charges, now)
        },
{
    reveal(Seq::filter);
    assert(charges.push(c).drop_last() == charges);
}

/// Forgetting charges never makes the sum larger.
pub proof fn window_total_bound(charges: Seq<(u128, u64)>, now: u128)
    ensures
        total(window(charges, now)) <= total(charges),
    decreases charges.len(),
{
    if charges.len() == 0 {
    } else {
        let front = charges.drop_last();
        let c = charges.last();
        assert(front.push(c) == charges);
        window_total_bound(front, now);
        window_push(front, c, now);
        total_push(window(front, now), c);
    }
}

/// The order in which files are counted does not matter.
pub proof fn stored_bytes_remove(files: Map<Seq<char>, EntryView>, id: Seq<char>)
    requires
        files.dom().finite(),
        files.contains_key(id),
    ensures
        stored_bytes(files) == files[id].size + stored_bytes(files.remove(id)),
    decreases files.dom().len(),
{
    let first = files.dom().choose();
    if first != id {
        stored_bytes_remove(files.remove(first), id);
        stored_bytes_remove(files.remove(id), first);
        assert(files.remove(first).remove(id) == files.remove(id).remove(first));
    }
}

} // verus!

//! What holds of the service as a whole.

use crate::download::{disposition, ServeView};
use crate::headers::HeadersView;
use crate::ids::{ids_are_plain, is_id};
use crate::intake::{never_above_the_cap, ErrorView, EventView, IntakeView};
use crate::model::{
    live, stale_ids, stored_bytes, stored_bytes_remove, total, total_push, window, window_push,
    window_total_bound, EntryView, StateView,
};
use crate::names::{
    is_one_component, is_ordinary_dir, is_path_of, paths_are_distinct, safe_name,
    safe_name_is_kept, sanitized, sanitized_is_safe,
};
use crate::pages::{base_of, client_ip_of};
use crate::reply::plain;
use crate::state::{MAX_FILE_SIZE, QUOTA_BYTES, TTL};
use crate::upload::{link, UploadView};
use vstd::prelude::*;
use vstd::string::*;

verus! {

/// One operation on the state.
pub enum Op {
    /// An attempt to charge a client with some bytes at a time.
    Reserve(Seq<char>, u64, u128),
    /// The question what a client may still upload at a time.
    Remaining(Seq<char>, u128),
    /// The storing of a file under an id.
    Insert(Seq<char>, EntryView),
    /// The taking out of the file under an id.
    Take(Seq<char>),
    /// The taking out of the files whose time is up.
    Expired(u128),
    /// The forgetting of the charges that no longer count.
    Collect(u128),
}

impl Op {
    /// When the operation takes place, where it makes a difference.
    pub open spec fn time(self) -> Option<u128> {
        match self {
            Op::Reserve(_, _, now) => Some(now),
            Op::Remaining(_, now) => Some(now),
            Op::Insert(_, _) => None,
            Op::Take(_) => None,
            Op::Expired(now) => Some(now),
            Op::Collect(now) => Some(now),
        }
    }
}

impl StateView {
    /// The state after `op`.
    pub open spec fn apply(self, op: Op) -> StateView {
        match op {
            Op::Reserve(ip, size, now) => self.reserved(ip, size, now),
            Op::Remaining(ip, now) => self.pruned(ip, now),
            Op::Insert(id, entry) => self.stored(id, entry),
            Op::Take(id) => self.taken(id),
            Op::Expired(now) => self.swept(now),
            Op::Collect(now) => self.collected(now),
        }
    }

    /// The state after all of `ops`.
    pub open spec fn after(self, ops: Seq<Op>) -> StateView
        decreases ops.len(),
    {
        if ops.len() == 0 {
            self
        } else {
            self.after(ops.drop_last()).apply(ops.last())
        }
    }

    /// What `ip` was charged successfully in the course of `ops`: when, and how
    /// many bytes.
    pub open spec fn charged(self, ops: Seq<Op>, ip: Seq<char>) -> Seq<(u128, u64)>
        decreases ops.len(),
    {
        if ops.len() == 0 {
            Seq::empty()
        } else {
            let before = self.charged(ops.drop_last(), ip);
            match ops.last() {
                Op::Reserve(who, size, now) => if who == ip && self.after(ops.drop_last()).fits(
                    ip,
                    size,
                    now,
                ) {
                    before.push((now, size))
                } else {
                    before
                },
                _ => before,
            }
        }
    }
}

/// Whether the clock never goes back in the course of `ops`.
pub open spec fn in_order(ops: Seq<Op>) -> bool {
    forall|i: int, j: int|
        #![trigger ops[i].time(), ops[j].time()]
        0 <= i <= j < ops.len() && ops[i].time() is Some && ops[j].time() is Some
            ==> ops[i].time()->0 <= ops[j].time()->0
}

/// Whether nothing in the course of `ops` takes place later than `t`.
pub open spec fn none_later(ops: Seq<Op>, t: u128) -> bool {
    forall|i: int|
        0 <= i < ops.len() && #[trigger] ops[i].time() is Some ==> ops[i].time()->0 <= t
}

/// Whether nothing is stored under `id` in the course of `ops`.
pub open spec fn none_stored(ops: Seq<Op>, id: Seq<char>) -> bool {
    forall|i: int|
        0 <= i < ops.len() ==> (#[trigger] ops[i] matches Op::Insert(other, _) ==> other != id)
}

/// The charges of the hour that ends at `t`.
pub open spec fn hour_up_to(charges: Seq<(u128, u64)>, t: u128) -> Seq<(u128, u64)> {
    charges.filter(|c: (u128, u64)| c.0 <= t && t - c.0 < TTL)
}

/// Reading the clock and operating on the state do not disturb each other: the
/// latest time that was read has no part in what an operation does, and no
/// operation changes it.
pub proof fn reading_the_clock_disturbs_nothing(st: StateView, op: Op, t: u128)
    ensures
        st.at(t).apply(op) == st.apply(op).at(t),
        st.apply(op).clock == st.clock,
{
}

/// The same of any number of operations: wherever the clock is read, the same
/// happens, and the same is charged.
pub proof fn histories_do_not_see_the_clock(
    st: StateView,
    ops: Seq<Op>,
    ip: Seq<char>,
    t: u128,
)
    ensures
        st.at(t).after(ops) == st.after(ops).at(t),
        st.at(t).charged(ops, ip) == st.charged(ops, ip),
        st.after(ops).clock == st.clock,
    decreases ops.len(),
{
    if ops.len() > 0 {
        let rest = ops.drop_last();
        histories_do_not_see_the_clock(st, rest, ip, t);
        reading_the_clock_disturbs_nothing(st.after(rest), ops.last(), t);
    }
}

/// An operation at a time that is read off the clock goes on in order after
/// those at the times that were read before.
pub proof fn the_clock_keeps_the_order(st: StateView, ops: Seq<Op>, op: Op)
    requires
        in_order(ops),
        none_later(ops, st.clock),
        op.time() matches Some(now) ==> st.clock <= now,
    ensures
        in_order(ops.push(op)),
        op.time() matches Some(now) ==> none_later(ops.push(op), st.at(now).clock),
        op.time() is None ==> none_later(ops.push(op), st.clock),
{
    let all = ops.push(op);
    assert forall|i: int|
        0 <= i < ops.len() && #[trigger] all[i].time() is Some implies all[i].time()->0
        <= st.clock by {
        assert(all[i].time() == ops[i].time());
    }
    assert forall|i: int, j: int|
        #![trigger all[i].time(), all[j].time()]
        0 <= i <= j < all.len() && all[i].time() is Some && all[j].time()
            is Some implies all[i].time()->0 <= all[j].time()->0 by {
        if j < ops.len() {
            assert(all[i].time() == ops[i].time());
            assert(all[j].time() == ops[j].time());
        }
    }
}

/// What requests do to the state are operations: `begin_upload` asks what the
/// client may still upload, `serve` takes the file out, and `finish_upload`
/// charges the client for a file that is not empty and, where that succeeds,
/// stores it.
pub proof fn requests_are_operations(
    st: StateView,
    ip: Seq<char>,
    id: Seq<char>,
    upload: UploadView,
    outcome: Result<(Option<Seq<char>>, u64), ErrorView>,
    now: u128,
    created: u128,
)
    ensures
        st.pruned(ip, now) == st.apply(Op::Remaining(ip, now)),
        st.taken(id) == st.apply(Op::Take(id)),
        st.after_upload(upload, outcome, now, created) == match outcome {
            Err(_) => st,
            Ok((name, size)) => if size == 0 {
                st
            } else if st.reserve_answer(upload.ip, size, now) is Err {
                st.apply(Op::Reserve(upload.ip, size, now))
            } else {
                st.apply(Op::Reserve(upload.ip, size, now)).apply(
                    Op::Insert(
                        upload.id,
                        EntryView {
                            name: upload.offered_name(name),
                            path: upload.path,
                            size,
                            created,
                        },
                    ),
                )
            },
        },
{
}

/// Forgetting twice is forgetting at the later time.
pub(crate) proof fn window_twice(charges: Seq<(u128, u64)>, earlier: u128, now: u128)
    requires
        earlier <= now,
    ensures
        window(window(charges, earlier), now) == window(charges, now),
    decreases charges.len(),
{
    if charges.len() > 0 {
        let front = charges.drop_last();
        let c = charges.last();
        assert(front.push(c) == charges);
        window_twice(front, earlier, now);
        window_push(front, c, earlier);
        window_push(front, c, now);
        window_push(window(front, earlier), c, now);
    }
}

/// Every operation keeps a valid state valid: no list of charges ever exceeds
/// the quota.
pub proof fn operations_keep_validity(st: StateView, op: Op)
    requires
        st.valid(),
    ensures
        st.apply(op).valid(),
{
    let end = st.apply(op);
    match op {
        Op::Reserve(ip, size, now) => {
            window_total_bound(st.charges(ip), now);
            total_push(window(st.charges(ip), now), (now, size));
        },
        Op::Remaining(ip, now) => {
            window_total_bound(st.charges(ip), now);
        },
        Op::Expired(now) => {
            assert(end.files.dom() =~= st.files.dom().difference(stale_ids(st.files, now)));
        },
        Op::Collect(now) => {
            assert forall|ip: Seq<char>| #[trigger] end.quota.contains_key(ip) implies total(
                end.quota[ip],
            ) <= QUOTA_BYTES by {
                window_total_bound(st.quota[ip], now);
            }
        },
        _ => {},
    }
}

/// A valid state stays valid, whatever happens to it.
pub proof fn always_valid(st: StateView, ops: Seq<Op>)
    requires
        st.valid(),
    ensures
        st.after(ops).valid(),
    decreases ops.len(),
{
    if ops.len() > 0 {
        always_valid(st, ops.drop_last());
        operations_keep_validity(st.after(ops.drop_last()), ops.last());
    }
}

/// What the state remembers of a client is, as far as it counts, what the
/// client was charged.
proof fn memory_is_faithful(st: StateView, ops: Seq<Op>, ip: Seq<char>, now: u128)
    requires
        st.charges(ip) == Seq::<(u128, u64)>::empty(),
        none_later(ops, now),
    ensures
        window(st.after(ops).charges(ip), now) == window(st.charged(ops, ip), now),
    decreases ops.len(),
{
    if ops.len() > 0 {
        let rest = ops.drop_last();
        let before = st.after(rest);
        memory_is_faithful(st, rest, ip, now);
        assert(ops[ops.len() - 1].time() == ops.last().time());
        match ops.last() {
            Op::Reserve(who, size, then) => {
                if who == ip {
                    window_twice(before.charges(ip), then, now);
                    window_push(window(before.charges(ip), then), (then, size), now);
                    window_push(st.charged(rest, ip), (then, size), now);
                }
            },
            Op::Remaining(who, then) => {
                if who == ip {
                    window_twice(before.charges(ip), then, now);
                }
            },
            Op::Collect(then) => {
                window_twice(before.charges(ip), then, now);
            },
            _ => {},
        }
    }
}

/// Charges that are not later than `t` count at `t` exactly if they belong to
/// the hour that ends there.
proof fn hour_is_window(charges: Seq<(u128, u64)>, t: u128)
    requires
        forall|i: int| 0 <= i < charges.len() ==> (#[trigger] charges[i]).0 <= t,
    ensures
        hour_up_to(charges, t) == window(charges, t),
    decreases charges.len(),
{
    reveal(Seq::filter);
    if charges.len() > 0 {
        let front = charges.drop_last();
        hour_is_window(front, t);
    }
}

/// A charge is made at the time of some operation.
proof fn charged_in_time(st: StateView, ops: Seq<Op>, ip: Seq<char>, t: u128)
    requires
        none_later(ops, t),
    ensures
        forall|i: int| 0 <= i < st.charged(ops, ip).len() ==> (#[trigger] st.charged(ops, ip)[i]).0
            <= t,
    decreases ops.len(),
{
    if ops.len() > 0 {
        let rest = ops.drop_last();
        charged_in_time(st, rest, ip, t);
        assert(ops[ops.len() - 1].time() == ops.last().time());
        let before = st.charged(rest, ip);
        let all = st.charged(ops, ip);
        assert forall|i: int| 0 <= i < all.len() implies (#[trigger] all[i]).0 <= t by {
            if i < before.len() {
                assert(all[i] == before[i]);
            }
        }
    }
}

/// The upload quota is a sliding one-hour window for each client: whatever the
/// service is asked to do and in whatever order, in no hour is a client charged
/// more than the quota.
pub proof fn quota_holds_in_every_hour(st: StateView, ops: Seq<Op>, ip: Seq<char>, t: u128)
    requires
        st.valid(),
        st.charges(ip) == Seq::<(u128, u64)>::empty(),
        in_order(ops),
    ensures
        total(hour_up_to(st.charged(ops, ip), t)) <= QUOTA_BYTES,
    decreases ops.len(),
{
    if ops.len() > 0 {
        let rest = ops.drop_last();
        if ops.last().time() is Some && ops.last().time()->0 <= t {
            charged_in_time(st, ops, ip, t);
            hour_is_window(st.charged(ops, ip), t);
            memory_is_faithful(st, ops, ip, t);
            always_valid(st, ops);
            window_total_bound(st.after(ops).charges(ip), t);
        } else {
            quota_holds_in_every_hour(st, rest, ip, t);
            let before = st.charged(rest, ip);
            let all = st.charged(ops, ip);
            if all != before {
                reveal(Seq::filter);
                assert(all.drop_last() == before);
            }
        }
    }
}

/// What a client may still upload is the quota less what it was charged
/// successfully in the last hour, whatever the service was asked to do before.
pub proof fn allowance_is_what_the_last_hour_left(
    st: StateView,
    ops: Seq<Op>,
    ip: Seq<char>,
    now: u128,
)
    requires
        st.valid(),
        st.charges(ip) == Seq::<(u128, u64)>::empty(),
        none_later(ops, now),
    ensures
        st.after(ops).allowance(ip, now) == QUOTA_BYTES - total(
            hour_up_to(st.charged(ops, ip), now),
        ),
{
    charged_in_time(st, ops, ip, now);
    hour_is_window(st.charged(ops, ip), now);
    memory_is_faithful(st, ops, ip, now);
    always_valid(st, ops);
    window_total_bound(st.after(ops).charges(ip), now);
}

/// A charge is refused exactly if it exceeds what the client may still upload,
/// and the refusal says how much that is.
pub proof fn refusals_tell_the_allowance(st: StateView, ip: Seq<char>, size: u64, now: u128)
    requires
        st.valid(),
    ensures
        st.reserve_answer(ip, size, now) == if size <= st.allowance(ip, now) {
            Ok::<(), u64>(())
        } else {
            Err::<(), u64>(st.allowance(ip, now) as u64)
        },
        0 <= st.allowance(ip, now) <= QUOTA_BYTES,
{
    window_total_bound(st.charges(ip), now);
}

/// What the client at `ip` may still upload from `now` on is not changed by
/// forgetting old charges: not by asking, and not by collecting.
pub proof fn forgetting_changes_no_allowance(
    st: StateView,
    who: Seq<char>,
    ip: Seq<char>,
    now: u128,
    later: u128,
)
    requires
        now <= later,
    ensures
        st.pruned(who, now).allowance(ip, later) == st.allowance(ip, later),
        st.collected(now).allowance(ip, later) == st.allowance(ip, later),
{
    window_twice(st.charges(ip), now, later);
}

/// A charge counts in full as long as it counts, and a refused one does not
/// count at all.
pub proof fn charges_count_in_full(
    st: StateView,
    ip: Seq<char>,
    size: u64,
    now: u128,
    later: u128,
)
    requires
        st.valid(),
        now <= later,
    ensures
        st.reserve_answer(ip, size, now) is Ok && live(later, now) ==> st.reserved(
            ip,
            size,
            now,
        ).allowance(ip, later) == st.allowance(ip, later) - size,
        st.reserve_answer(ip, size, now) is Err || !live(later, now) ==> st.reserved(
            ip,
            size,
            now,
        ).allowance(ip, later) == st.allowance(ip, later),
{
    let kept = window(st.charges(ip), now);
    window_twice(st.charges(ip), now, later);
    window_push(kept, (now, size), later);
    window_total_bound(kept, later);
    total_push(window(kept, later), (now, size));
}

/// Clients do not share their quota.
pub proof fn clients_do_not_share(
    st: StateView,
    who: Seq<char>,
    size: u64,
    now: u128,
    ip: Seq<char>,
    t: u128,
)
    requires
        who != ip,
    ensures
        st.reserved(who, size, now).allowance(ip, t) == st.allowance(ip, t),
{
}

/// An hour after the last charge the client may upload the full quota again.
pub proof fn quota_comes_back(st: StateView, ip: Seq<char>, now: u128)
    requires
        forall|i: int|
            0 <= i < st.charges(ip).len() ==> !live(now, (#[trigger] st.charges(ip)[i]).0),
    ensures
        st.allowance(ip, now) == QUOTA_BYTES,
{
    nothing_live(st.charges(ip), now);
}

proof fn nothing_live(charges: Seq<(u128, u64)>, now: u128)
    requires
        forall|i: int| 0 <= i < charges.len() ==> !live(now, (#[trigger] charges[i]).0),
    ensures
        window(charges, now) == Seq::<(u128, u64)>::empty(),
    decreases charges.len(),
{
    reveal(Seq::filter);
    if charges.len() > 0 {
        let front = charges.drop_last();
        nothing_live(front, now);
    }
}

/// What is not there, or no longer there, does not come back: whatever happens,
/// a download is answered that there is no such file, until a file is stored
/// under the id.
pub proof fn gone_is_gone(st: StateView, id: Seq<char>, ops: Seq<Op>, now: u128)
    requires
        st.lookup(id) is None,
        none_stored(ops, id),
    ensures
        st.after(ops).lookup(id) is None,
        st.after(ops).serve(id, now) == ServeView::Refuse(
            plain(404, "not found (already downloaded or expired)\n"@),
            None,
        ),
    decreases ops.len(),
{
    if ops.len() > 0 {
        gone_is_gone(st, id, ops.drop_last(), now);
    }
}

/// A file whose time was up when the files were swept is not handed out again,
/// neither to a download nor to a later sweep, until another file is stored under
/// the same id.
pub proof fn swept_is_gone(
    st: StateView,
    id: Seq<char>,
    swept: u128,
    ops: Seq<Op>,
    now: u128,
)
    requires
        st.lookup(id) matches Some(entry) ==> !live(swept, entry.created),
        none_stored(ops, id),
    ensures
        st.swept(swept).after(ops).lookup(id) is None,
        !stale_ids(st.swept(swept).after(ops).files, now).contains(id),
{
    gone_is_gone(st.swept(swept), id, ops, now);
}

/// A file can only be downloaded once: after the first download, whatever
/// happens, a second one is answered that there is no such file, until another
/// file is stored under the same id.
pub proof fn second_download_is_refused(st: StateView, id: Seq<char>, ops: Seq<Op>, now: u128)
    requires
        none_stored(ops, id),
    ensures
        st.taken(id).after(ops).lookup(id) is None,
        !stale_ids(st.taken(id).after(ops).files, now).contains(id),
        st.taken(id).after(ops).serve(id, now) == ServeView::Refuse(
            plain(404, "not found (already downloaded or expired)\n"@),
            None,
        ),
{
    gone_is_gone(st.taken(id), id, ops, now);
}

/// A stored file stays as it was stored until it is taken out, replaced, or its
/// time is up: the first download within the hour gets what was uploaded.
pub proof fn stored_until_taken(
    st: StateView,
    id: Seq<char>,
    entry: EntryView,
    ops: Seq<Op>,
    now: u128,
)
    requires
        forall|i: int|
            0 <= i < ops.len() ==> match #[trigger] ops[i] {
                Op::Insert(other, _) => other != id,
                Op::Take(other) => other != id,
                Op::Expired(at) => live(at, entry.created),
                _ => true,
            },
        live(now, entry.created),
    ensures
        st.stored(id, entry).after(ops).lookup(id) == Some(entry),
        st.stored(id, entry).after(ops).serve(id, now) == ServeView::Open(entry),
    decreases ops.len(),
{
    if ops.len() > 0 {
        let rest = ops.drop_last();
        stored_until_taken(st, id, entry, rest, now);
    }
}

/// No file is sent an hour after it was stored, or later.
pub proof fn nothing_is_sent_too_late(st: StateView, id: Seq<char>, now: u128)
    ensures
        st.serve(id, now) matches ServeView::Open(entry) ==> now < entry.created + TTL,
{
}

/// Taking out what is due leaves exactly the files whose time is not up.
pub proof fn sweeping_is_exact(st: StateView, id: Seq<char>, now: u128)
    ensures
        st.swept(now).lookup(id) == match st.lookup(id) {
            Some(entry) => if live(now, entry.created) {
                Some(entry)
            } else {
                None
            },
            None => None,
        },
{
}

/// Storing under a new id adds one file and its bytes; taking a file out takes
/// them off again.
pub proof fn counting_files(st: StateView, id: Seq<char>, entry: EntryView)
    requires
        st.valid(),
        !st.files.contains_key(id),
    ensures
        st.stored(id, entry).files.dom().len() == st.files.dom().len() + 1,
        stored_bytes(st.stored(id, entry).files) == stored_bytes(st.files) + entry.size,
        st.stored(id, entry).taken(id) == st,
{
    let files = st.stored(id, entry).files;
    assert(files.remove(id) =~= st.files);
    stored_bytes_remove(files, id);
}

/// An upload that is let in is never given more than the largest file size or
/// than what its client may still upload, however its body arrives.
pub proof fn uploads_are_bounded(
    st: StateView,
    headers: HeadersView,
    peer: Seq<char>,
    named: Option<Seq<char>>,
    id: Seq<char>,
    path: Seq<char>,
    now: u128,
    events: Seq<EventView>,
)
    requires
        st.valid(),
        st.admission(headers, peer, named, id, path, now) is Ok,
    ensures
        ({
            let upload = st.admission(headers, peer, named, id, path, now)->Ok_0;
            let end = upload.start().run(events);
            &&& 0 < upload.cap
            &&& end.total <= upload.cap <= MAX_FILE_SIZE
            &&& end.total <= upload.cap <= st.allowance(client_ip_of(headers, peer), now)
        }),
{
    let upload = st.admission(headers, peer, named, id, path, now)->Ok_0;
    never_above_the_cap(upload.start(), events);
}

/// Uploads under different ids do not share a file.
pub proof fn uploads_do_not_share_a_file(
    dir: Seq<char>,
    a: Seq<char>,
    b: Seq<char>,
    path: Seq<char>,
)
    requires
        is_ordinary_dir(dir),
        is_id(a),
        is_id(b),
        is_path_of(path, dir, a),
        is_path_of(path, dir, b),
    ensures
        a == b,
{
    assert forall|i: int| 0 <= i < a.len() implies #[trigger] a[i] != '/' && a[i] != '\\' && a[i]
        != ':' by {
        ids_are_plain(a, i);
    }
    assert forall|i: int| 0 <= i < b.len() implies #[trigger] b[i] != '/' && b[i] != '\\' && b[i]
        != ':' by {
        ids_are_plain(b, i);
    }
    paths_are_distinct(dir, a, b, path);
}

/// An upload is turned away at the door exactly if its client has used up the
/// quota.
pub proof fn turned_away_without_allowance(
    st: StateView,
    headers: HeadersView,
    peer: Seq<char>,
    named: Option<Seq<char>>,
    id: Seq<char>,
    path: Seq<char>,
    now: u128,
)
    requires
        st.valid(),
    ensures
        st.admission(headers, peer, named, id, path, now) is Err <==> st.used(
            client_ip_of(headers, peer),
            now,
        ) == QUOTA_BYTES,
{
    window_total_bound(st.charges(client_ip_of(headers, peer)), now);
}

/// An upload whose length was within what its client may still upload when it
/// is charged is stored and answered with its link; otherwise nothing is stored,
/// nobody is charged, and the body is removed.
pub proof fn uploads_are_stored_or_leave_no_trace(
    st: StateView,
    upload: UploadView,
    headers: HeadersView,
    outcome: Result<(Option<Seq<char>>, u64), ErrorView>,
    now: u128,
    created: u128,
    ip: Seq<char>,
    later: u128,
)
    requires
        st.valid(),
        now <= later,
    ensures
        ({
            let end = st.after_upload(upload, outcome, now, created);
            let done = st.completion(upload, headers, outcome, now);
            if st.accepts(upload, outcome, now) {
                let (name, size) = outcome->Ok_0;
                let entry = EntryView {
                    name: upload.offered_name(name),
                    path: upload.path,
                    size,
                    created,
                };
                &&& end == st.apply(Op::Reserve(upload.ip, size, now)).apply(
                    Op::Insert(upload.id, entry),
                )
                &&& end.lookup(upload.id) == Some(entry)
                &&& done.reply == plain(
                    201,
                    link(base_of(st.base_url, headers), upload.id, entry.name) + "\n"@,
                )
                &&& done.remove is None
                &&& done.stored == Some((entry.name, size))
            } else {
                &&& end.files == st.files
                &&& end.allowance(ip, later) == st.allowance(ip, later)
                &&& done.reply.status != 201
                &&& done.remove == Some(upload.path)
                &&& done.stored is None
            }
        }),
{
    forgetting_changes_no_allowance(st, upload.ip, ip, now, later);
}

/// What was uploaded is what the first download gets, and the second gets
/// nothing.
pub proof fn upload_then_download_once(
    st: StateView,
    upload: UploadView,
    outcome: Result<(Option<Seq<char>>, u64), ErrorView>,
    now: u128,
    created: u128,
    first: u128,
    second: u128,
)
    requires
        st.accepts(upload, outcome, now),
        live(first, created),
    ensures
        ({
            let up = st.after_upload(upload, outcome, now, created);
            let (name, size) = outcome->Ok_0;
            &&& up.serve(upload.id, first) == ServeView::Open(
                EntryView { name: upload.offered_name(name), path: upload.path, size, created },
            )
            &&& up.taken(upload.id).serve(upload.id, second) == ServeView::Refuse(
                plain(404, "not found (already downloaded or expired)\n"@),
                None,
            )
        }),
{
}

proof fn intake_name_is_safe(s: IntakeView, events: Seq<EventView>)
    requires
        s.name matches Some(n) ==> safe_name(n),
    ensures
        s.run(events).name matches Some(n) ==> safe_name(n),
    decreases events.len(),
{
    if events.len() > 0 {
        match events[0] {
            EventView::Field(Some(file), _) => {
                sanitized_is_safe(file);
            },
            _ => {},
        }
        intake_name_is_safe(s.step(events[0]), events.skip(1));
    }
}

/// Whatever names a client sends in the path, the headers or a form, the file is
/// offered under a safe one.
pub proof fn offered_names_are_safe(
    st: StateView,
    headers: HeadersView,
    peer: Seq<char>,
    named: Option<Seq<char>>,
    id: Seq<char>,
    path: Seq<char>,
    now: u128,
    events: Seq<EventView>,
)
    requires
        st.admission(headers, peer, named, id, path, now) is Ok,
    ensures
        ({
            let upload = st.admission(headers, peer, named, id, path, now)->Ok_0;
            safe_name(upload.offered_name(upload.start().run(events).name))
        }),
{
    let upload = st.admission(headers, peer, named, id, path, now)->Ok_0;
    if let Some(n) = named {
        sanitized_is_safe(n);
    }
    if let Some(n) = headers.x_filename {
        sanitized_is_safe(n);
    }
    intake_name_is_safe(upload.start(), events);
    reveal_strlit("file");
}

/// The name in the path of a request, made safe, is the name of the file,
/// whatever else the request says.
pub proof fn path_names_the_file(
    st: StateView,
    headers: HeadersView,
    peer: Seq<char>,
    named: Seq<char>,
    id: Seq<char>,
    path: Seq<char>,
    now: u128,
    name: Option<Seq<char>>,
)
    requires
        st.admission(headers, peer, Some(named), id, path, now) is Ok,
    ensures
        st.admission(headers, peer, Some(named), id, path, now)->Ok_0.offered_name(name) == sanitized(
            named,
        ),
        safe_name(named) ==> st.admission(
            headers,
            peer,
            Some(named),
            id,
            path,
            now,
        )->Ok_0.offered_name(name) == named,
{
    if safe_name(named) {
        safe_name_is_kept(named);
    }
}

/// A file is offered under its name between two quotes, and no character of a
/// safe name is a quote: nothing of what a client sent reaches further.
pub proof fn disposition_is_closed(name: Seq<char>)
    requires
        safe_name(name),
    ensures
        is_one_component(name),
        !name.contains('"'),
        disposition(name).len() == name.len() + 23,
        disposition(name).subrange(22, 22int + name.len()) == name,
        disposition(name)[21] == '"',
        disposition(name).last() == '"',
{
    reveal_strlit("attachment; filename=\"");
    reveal_strlit("\"");
}

} // verus!

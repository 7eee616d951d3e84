//! What clients can count on, said in numbers, characters and texts.
//!
//! The laws here do not lean on the words of the model: an hour is so many
//! nanoseconds, a limit so many bytes, a name so many characters of such codes.

use crate::clock::machine_reads;
use crate::config::{config_of, port_of, Config};
use crate::download::{description, Download, Serve, ServeView};
use crate::headers::{header_text, headers_of, is_visible, Headers, HeadersView};
use crate::ids::{alphabet_is_in_order, id_of, is_id, ID_ALPHABET};
use crate::intake::{
    form_goes_on_as_its_file, sanitized_option, smooth_events, smooth_upload, sum_of, ErrorView,
    Event, EventView, IntakeView, UploadError, Want,
};
use crate::laws::{
    charges_count_in_full, forgetting_changes_no_allowance, window_twice, Op,
};
use crate::model::{
    enumerates, lists_stale, live, stale_ids, stored_bytes, stored_bytes_remove, window, window_push,
    window_total_bound, EntryView, StateView,
};
use crate::names::{
    at_most, basename, directories_are_dropped, is_name_char, is_path_of, is_separator, joined,
    name_chars, name_chars_push, name_chars_stay, safe_name_is_kept, sanitized, sanitized_is_safe,
};
use crate::pages::{base_of, client_ip_of, health_of, help, index_of};
use crate::reply::{plain, Reply, ReplyView};
use crate::routes::{action, Action, Target};
use crate::state::Entry;
use crate::text::{
    decimal, decimal_reads_back, first_index, first_index_is_first, is_number, is_white, number,
    occurs_at, occurs_in, replaced, trim_end, trim_start, Class,
};
use crate::upload::{quota_reply, Completion, Upload, UploadView};
use vstd::prelude::*;
use vstd::string::*;

verus! {

/// An answer in plain text with this status and this body.
pub open spec fn answer(status: u16, body: Seq<char>) -> ReplyView {
    ReplyView { status, content_type: "text/plain; charset=utf-8"@, body }
}

/// The time that the clock tells never lags behind the machine's clock and never
/// goes back, and is one of the two: so what an hour of the machine's clock
/// separates is an hour apart on the clock of the state too.
pub proof fn an_hour_is_an_hour(st: StateView, first: u128, second: u128, t1: u128, t2: u128)
    requires
        st.clock <= first,
        first + 3_600_000_000_000 <= second,
        machine_reads(st.start, first),
        machine_reads(st.start, second),
        t1 == if first > st.clock {
            first
        } else {
            st.clock
        },
        t2 == if second > st.at(t1).clock {
            second
        } else {
            st.at(t1).clock
        },
    ensures
        st.tells(t1),
        st.at(t1).tells(t2),
        t1 == first,
        t2 == second,
        t2 - t1 >= 3_600_000_000_000,
{
    assert(machine_reads(st.at(t1).start, second));
}

/// An hour of the machine's clock after a file was stored, it is neither sent nor
/// left in place by a sweep, whatever was read off the clock in between.
pub proof fn an_hour_later_the_file_is_gone(
    st: StateView,
    id: Seq<char>,
    reading: u128,
    now: u128,
)
    requires
        st.files.contains_key(id),
        st.files[id].created + 3_600_000_000_000 <= reading,
        machine_reads(st.start, reading),
        now == if reading > st.clock {
            reading
        } else {
            st.clock
        },
    ensures
        st.tells(now),
        st.serve(id, now) is Refuse,
        !st.swept(now).files.contains_key(id),
{
}

/// What the clock tells is what the machine's clock reads, or what was told
/// before: nothing is told that was never read.
pub proof fn nothing_is_told_that_was_not_read(st: StateView, now: u128)
    requires
        st.tells(now),
    ensures
        now >= st.clock,
        now > st.clock ==> machine_reads(st.start, now),
        exists|reading: u128| #[trigger] machine_reads(st.start, reading) && reading <= now,
{
}

/// A request for a file is granted during the 3600 seconds after the file was
/// stored and at no other time, and what it gets is the stored file.
pub proof fn files_are_sent_for_one_hour(st: StateView, id: Seq<char>, now: u128)
    ensures
        !st.files.contains_key(id) ==> st.serve(id, now) == ServeView::Refuse(
            answer(404, "not found (already downloaded or expired)\n"@),
            None,
        ),
        st.files.contains_key(id) && now < st.files[id].created + 3_600_000_000_000 ==> st.serve(
            id,
            now,
        ) == ServeView::Open(st.files[id]),
        st.files.contains_key(id) && now >= st.files[id].created + 3_600_000_000_000 ==> st.serve(
            id,
            now,
        ) == ServeView::Refuse(answer(404, "expired\n"@), Some(st.files[id].path)),
{
}

/// The sweep takes out the files that were stored 3600 seconds ago or earlier,
/// and leaves every other file as it is.
pub proof fn the_sweep_takes_what_is_an_hour_old(st: StateView, id: Seq<char>, now: u128)
    ensures
        st.swept(now).files.contains_key(id) <==> st.files.contains_key(id) && now
            < st.files[id].created + 3_600_000_000_000,
        st.swept(now).files.contains_key(id) ==> st.swept(now).files[id] == st.files[id],
{
}

/// The sweep hands out each file that it takes out, once, and no other.
pub proof fn the_sweep_hands_out_what_it_takes(
    st: StateView,
    entries: Seq<EntryView>,
    now: u128,
)
    requires
        st.valid(),
        lists_stale(entries, st.files, now),
    ensures
        entries.len() + st.swept(now).files.dom().len() == st.files.dom().len(),
        forall|id: Seq<char>|
            st.files.contains_key(id) && st.files[id].created + 3_600_000_000_000 <= now
                ==> entries.contains(#[trigger] st.files[id]),
        forall|i: int|
            0 <= i < entries.len() ==> (#[trigger] entries[i]).created + 3_600_000_000_000 <= now
                && exists|id: Seq<char>|
                st.files.contains_key(id) && #[trigger] st.files[id] == entries[i],
{
    let stale = stale_ids(st.files, now);
    let ids = choose|ids: Seq<Seq<char>>| #[trigger]
        enumerates(ids, stale) && entries == ids.map_values(
            |id: Seq<char>| st.files[id],
        );
    ids.unique_seq_to_set();
    assert(st.swept(now).files.dom() =~= st.files.dom().difference(stale));
    assert(stale.subset_of(st.files.dom()));
    vstd::set_lib::lemma_set_disjoint_lens(st.files.dom().difference(stale), stale);
    assert(st.files.dom().difference(stale).union(stale) =~= st.files.dom());
    assert forall|id: Seq<char>|
        st.files.contains_key(id) && st.files[id].created + 3_600_000_000_000
            <= now implies entries.contains(#[trigger] st.files[id]) by {
        assert(ids.to_set().contains(id));
        let j = choose|j: int| 0 <= j < ids.len() && ids[j] == id;
        assert(entries[j] == st.files[id]);
    }
    assert forall|i: int| 0 <= i < entries.len() implies (#[trigger] entries[i]).created
        + 3_600_000_000_000 <= now && exists|id: Seq<char>|
        st.files.contains_key(id) && #[trigger] st.files[id] == entries[i] by {
        assert(ids.to_set().contains(ids[i]));
        assert(st.files[ids[i]] == entries[i]);
    }
}

/// Storing and taking out change the files and nothing else; charging, asking
/// and collecting change the charges and nothing else.
pub proof fn operations_keep_to_their_own(st: StateView, op: Op)
    ensures
        st.apply(op).dir == st.dir,
        st.apply(op).base_url == st.base_url,
        st.apply(op).start == st.start,
        st.apply(op).clock == st.clock,
        op matches Op::Insert(id, entry) ==> st.apply(op).quota == st.quota && st.apply(op).files
            == st.files.insert(id, entry),
        op matches Op::Take(id) ==> st.apply(op).quota == st.quota && st.apply(op).files
            == st.files.remove(id),
        op is Expired ==> st.apply(op).quota == st.quota,
        op is Reserve || op is Remaining || op is Collect ==> st.apply(op).files == st.files,
        op matches Op::Reserve(ip, _, _) ==> st.apply(op).quota.remove(ip) == st.quota.remove(ip),
        op matches Op::Remaining(ip, _) ==> st.apply(op).quota.remove(ip) == st.quota.remove(ip),
{
    match op {
        Op::Reserve(ip, _, _) => {
            assert(st.apply(op).quota.remove(ip) =~= st.quota.remove(ip));
        },
        Op::Remaining(ip, _) => {
            assert(st.apply(op).quota.remove(ip) =~= st.quota.remove(ip));
        },
        _ => {},
    }
}

/// A client that was never charged may upload 30 MB.
pub proof fn new_clients_have_the_full_quota(st: StateView, ip: Seq<char>, now: u128)
    requires
        !st.quota.contains_key(ip),
    ensures
        st.allowance(ip, now) == 31_457_280,
{
    reveal(Seq::filter);
}

/// A charge is granted exactly if the client may still upload that many bytes,
/// and a refusal says how many it may.
pub proof fn charges_are_granted_within_the_allowance(
    st: StateView,
    ip: Seq<char>,
    size: u64,
    now: u128,
)
    requires
        st.valid(),
    ensures
        0 <= st.allowance(ip, now) <= 31_457_280,
        st.reserve_answer(ip, size, now) is Ok <==> size <= st.allowance(ip, now),
        st.reserve_answer(ip, size, now) matches Err(left) ==> left == st.allowance(ip, now),
{
    window_total_bound(st.charges(ip), now);
}

/// Every operation leaves what a client may upload as it is, but for a granted
/// charge of that client, which takes its bytes off for the 3600 seconds after it,
/// and for no longer.
pub proof fn only_charges_count_and_only_for_an_hour(
    st: StateView,
    op: Op,
    ip: Seq<char>,
    later: u128,
)
    requires
        st.valid(),
        op.time() matches Some(now) ==> now <= later,
    ensures
        st.apply(op).allowance(ip, later) == st.allowance(ip, later) - match op {
            Op::Reserve(who, size, now) => if who == ip && size <= st.allowance(ip, now) && later
                < now + 3_600_000_000_000 {
                size as int
            } else {
                0
            },
            _ => 0,
        },
{
    match op {
        Op::Reserve(who, size, now) => {
            charges_are_granted_within_the_allowance(st, ip, size, now);
            if who == ip {
                charges_count_in_full(st, ip, size, now, later);
            }
        },
        Op::Remaining(who, now) => {
            forgetting_changes_no_allowance(st, who, ip, now, later);
        },
        Op::Collect(now) => {
            forgetting_changes_no_allowance(st, ip, ip, now, later);
        },
        _ => {},
    }
}

/// Time gives back and never takes: a client may later upload no less than now,
/// if nothing is charged in between.
pub proof fn time_only_gives_back(st: StateView, ip: Seq<char>, now: u128, later: u128)
    requires
        st.valid(),
        now <= later,
    ensures
        st.allowance(ip, now) <= st.allowance(ip, later),
{
    forgetting_changes_no_allowance(st, ip, ip, now, later);
    window_twice(st.charges(ip), now, later);
    window_total_bound(window(st.charges(ip), now), later);
    window_total_bound(st.charges(ip), now);
}

/// After a collection a client is remembered only for charges of the last 3600
/// seconds, each of which it was charged before.
pub proof fn collected_charges_are_recent(st: StateView, ip: Seq<char>, now: u128)
    ensures
        st.collected(now).quota.contains_key(ip) ==> st.quota.contains_key(ip) && st.collected(
            now,
        ).quota[ip].len() > 0,
        st.collected(now).quota.contains_key(ip) ==> forall|i: int|
            0 <= i < st.collected(now).quota[ip].len() ==> {
                let c = #[trigger] st.collected(now).quota[ip][i];
                now < c.0 + 3_600_000_000_000 && st.quota[ip].contains(c)
            },
        st.quota.contains_key(ip) && (exists|i: int|
            0 <= i < st.quota[ip].len() && now < (#[trigger] st.quota[ip][i]).0 + 3_600_000_000_000)
            ==> st.collected(now).quota.contains_key(ip),
{
    if st.quota.contains_key(ip) {
        kept_charges(st.quota[ip], now);
    }
}

/// What still counts of a list of charges.
proof fn kept_charges(charges: Seq<(u128, u64)>, now: u128)
    ensures
        forall|i: int|
            0 <= i < window(charges, now).len() ==> {
                let c = #[trigger] window(charges, now)[i];
                live(now, c.0) && charges.contains(c)
            },
        forall|i: int|
            0 <= i < charges.len() && live(now, (#[trigger] charges[i]).0) ==> window(
                charges,
                now,
            ).len() > 0,
    decreases charges.len(),
{
    if charges.len() > 0 {
        let front = charges.drop_last();
        let c = charges.last();
        kept_charges(front, now);
        assert(front.push(c) == charges);
        window_push(front, c, now);
        let all = window(charges, now);
        let some = window(front, now);
        assert forall|i: int| 0 <= i < all.len() implies {
            let d = #[trigger] all[i];
            live(now, d.0) && charges.contains(d)
        } by {
            if i < some.len() {
                let d = some[i];
                let j = choose|j: int| 0 <= j < front.len() && front[j] == d;
                assert(charges[j] == d);
            } else {
                assert(charges[charges.len() - 1] == c);
            }
        }
        assert forall|i: int|
            0 <= i < charges.len() && live(now, (#[trigger] charges[i]).0) implies all.len()
            > 0 by {
            if i < front.len() {
                assert(front[i] == charges[i]);
            }
        }
    }
}

/// No files have no bytes, and a file adds its size to the sum, in place of the
/// one that it replaces.
pub proof fn sizes_add_up(files: Map<Seq<char>, EntryView>, id: Seq<char>, entry: EntryView)
    requires
        files.dom().finite(),
    ensures
        stored_bytes(Map::empty()) == 0,
        stored_bytes(files.insert(id, entry)) == stored_bytes(files.remove(id)) + entry.size,
        !files.contains_key(id) ==> stored_bytes(files.insert(id, entry)) == stored_bytes(files)
            + entry.size,
{
    let more = files.insert(id, entry);
    stored_bytes_remove(more, id);
    assert(more.remove(id) =~= files.remove(id));
    if !files.contains_key(id) {
        assert(files.remove(id) =~= files);
    }
}

/// The report on what is stored gives the number of files and the sum of their
/// sizes, in digits.
pub proof fn the_report_gives_both_numbers(files: nat, bytes: nat)
    ensures
        health_of(files, bytes) == answer(
            200,
            "ok\nfiles="@ + decimal(files) + "\nbytes="@ + decimal(bytes) + "\n"@,
        ),
        number(decimal(files)) == files,
        number(decimal(bytes)) == bytes,
{
    decimal_reads_back(files);
    decimal_reads_back(bytes);
}

/// A number is written in the digits `0` to `9`, without a zero in front, and
/// reads back as itself.
pub proof fn numbers_read_back(n: nat)
    ensures
        decimal(n).len() > 0,
        forall|i: int| 0 <= i < decimal(n).len() ==> 48 <= #[trigger] decimal(n)[i] as u32 <= 57,
        decimal(n)[0] == '0' ==> n == 0 && decimal(n).len() == 1,
        number(decimal(n)) == n,
    decreases n,
{
    decimal_reads_back(n);
    if n >= 10 {
        numbers_read_back(n / 10);
    }
}

/// Each digit behind others counts for itself, and makes the others count for
/// ten times as much.
pub proof fn digits_count_by_their_place(s: Seq<char>, c: char)
    requires
        48 <= c as u32 <= 57,
    ensures
        number(Seq::empty()) == 0,
        number(s.push(c)) == 10 * number(s) + (c as int - 48),
{
    assert(s.push(c).drop_last() == s);
}

/// A file is sent under its own name between quotes, with its own length in
/// digits, and with the type that its name suggests, or as plain bytes where it
/// suggests none; what is removed is its own body.
pub proof fn files_are_sent_as_what_they_are(entry: EntryView, guess: Option<Seq<char>>)
    ensures
        ({
            let d = description(entry, guess);
            &&& is_number(d.content_length)
            &&& number(d.content_length) == entry.size
            &&& d.content_length[0] == '0' ==> d.content_length.len() == 1
            &&& guess matches Some(t) ==> d.content_type == t
            &&& guess is None ==> d.content_type == "application/octet-stream"@
            &&& d.content_disposition == "attachment; filename=\""@ + entry.name + "\""@
            &&& d.remove == entry.path
        }),
{
    numbers_read_back(entry.size as nat);
    decimal_reads_back(entry.size as nat);
}

/// An upload is turned away, with a word on the quota, exactly if its client may
/// not upload a single byte. Otherwise it is let in for its client, under the id
/// and at the path that were chosen for it, up to the smaller of 10 MB and what
/// the client may still upload.
pub proof fn uploads_are_let_in_up_to_both_limits(
    st: StateView,
    headers: HeadersView,
    peer: Seq<char>,
    named: Option<Seq<char>>,
    id: Seq<char>,
    path: Seq<char>,
    now: u128,
)
    requires
        st.valid(),
    ensures
        ({
            let ip = client_ip_of(headers, peer);
            let left = st.allowance(ip, now);
            let r = st.admission(headers, peer, named, id, path, now);
            &&& left == 0 ==> r == Err::<UploadView, ReplyView>(
                answer(429, "quota exceeded: 30 MB per hour per IP, try again later\n"@),
            )
            &&& left > 0 ==> (r matches Ok(upload) && {
                &&& upload.ip == ip
                &&& upload.id == id
                &&& upload.path == path
                &&& upload.cap <= left
                &&& upload.cap <= 10_485_760
                &&& upload.cap == left || upload.cap == 10_485_760
            })
        }),
{
    let left = st.allowance(client_ip_of(headers, peer), now);
    charges_are_granted_within_the_allowance(st, client_ip_of(headers, peer), 0, now);
    if left == 0 {
        let body = "quota exceeded: 30 MB per hour per IP, try again later\n"@;
        reveal_strlit("quota exceeded: 30 MB per hour per IP, try again later\n");
        reveal_strlit("quota exceeded: ");
        reveal_strlit(" MB per hour per IP, try again later\n");
        reveal_with_fuel(decimal, 2);
        assert(quota_reply().body =~= body);
    }
}

/// The body of an upload is read as a form exactly if the request says that it
/// is `multipart/form-data`, in these characters and at the beginning of its
/// content type. Any other body is the file itself, under the name that the
/// request gives in `X-Filename`, made safe.
pub proof fn only_forms_are_read_as_forms(
    st: StateView,
    headers: HeadersView,
    peer: Seq<char>,
    named: Option<Seq<char>>,
    id: Seq<char>,
    path: Seq<char>,
    now: u128,
)
    requires
        st.admission(headers, peer, named, id, path, now) is Ok,
    ensures
        ({
            let upload = st.admission(headers, peer, named, id, path, now)->Ok_0;
            &&& headers.content_type is None ==> !upload.form
            &&& headers.content_type matches Some(t) ==> (upload.form <==> t.len() >= 19 && t.take(
                19,
            ) == "multipart/form-data"@)
            &&& headers.content_type matches Some(t) ==> (t.len() > 0 && t[0] != 'm'
                ==> !upload.form)
            &&& upload.form ==> upload.start() == (IntakeView {
                cap: upload.cap,
                name: None,
                total: 0,
                want: Want::Field,
                error: None,
            })
            &&& !upload.form ==> upload.start() == (IntakeView {
                cap: upload.cap,
                name: match headers.x_filename {
                    Some(n) => Some(sanitized(n)),
                    None => None,
                },
                total: 0,
                want: Want::Create,
                error: None,
            })
        }),
{
    reveal_strlit("multipart/form-data");
    if let Some(t) = headers.content_type {
        if t.len() >= 19 {
            assert(t.subrange(0, 19) == t.take(19));
            assert(t.take(19)[0] == t[0]);
        }
    }
}

/// A body without trouble is taken in whole if it is longer neither than 10 MB nor
/// than what its client may still upload when it is let in, and refused as too
/// large otherwise, in whatever chunks it comes, and whether it is the file itself
/// or the file of a form.
pub proof fn bodies_within_both_limits_are_taken(
    st: StateView,
    headers: HeadersView,
    peer: Seq<char>,
    named: Option<Seq<char>>,
    id: Seq<char>,
    path: Seq<char>,
    now: u128,
    part: EventView,
    lens: Seq<usize>,
)
    requires
        st.valid(),
        st.admission(headers, peer, named, id, path, now) is Ok,
        part matches EventView::Field(file, field) && (file is Some || field == Some("file"@)),
    ensures
        ({
            let upload = st.admission(headers, peer, named, id, path, now)->Ok_0;
            let left = st.allowance(client_ip_of(headers, peer), now);
            let end = if upload.form {
                upload.start().run(seq![part] + smooth_events(lens))
            } else {
                upload.start().run(smooth_events(lens))
            };
            &&& end.want == Want::Nothing
            &&& sum_of(lens) <= left && sum_of(lens) <= 10_485_760 ==> end.error is None && end.total
                == sum_of(lens)
            &&& sum_of(lens) > left || sum_of(lens) > 10_485_760 ==> end.error == Some(
                ErrorView::TooLarge,
            )
        }),
{
    uploads_are_let_in_up_to_both_limits(st, headers, peer, named, id, path, now);
    let upload = st.admission(headers, peer, named, id, path, now)->Ok_0;
    smooth_upload(upload.cap, upload.header_name, lens);
    if let EventView::Field(file, field) = part {
        form_goes_on_as_its_file(upload.cap, file, field, smooth_events(lens));
        smooth_upload(upload.cap, sanitized_option(file), lens);
    }
}

/// The name of an upload is the one in the path of the request, made safe; where
/// the path has none, the one that came with the body; and `file` where there is
/// neither.
pub proof fn names_are_looked_for_in_order(
    st: StateView,
    headers: HeadersView,
    peer: Seq<char>,
    named: Option<Seq<char>>,
    id: Seq<char>,
    path: Seq<char>,
    now: u128,
    name: Option<Seq<char>>,
)
    requires
        st.admission(headers, peer, named, id, path, now) is Ok,
    ensures
        ({
            let offered = st.admission(
                headers,
                peer,
                named,
                id,
                path,
                now,
            )->Ok_0.offered_name(name);
            &&& named matches Some(n) ==> offered == sanitized(n)
            &&& named is None ==> (name matches Some(n) ==> offered == n)
            &&& named is None && name is None ==> offered == "file"@
        }),
{
}

/// A file of at least one byte, and of no more bytes than its client may still
/// upload when it is charged, is stored as what it is and answered with its link.
/// It takes its bytes off what its client may upload for the 3600 seconds after
/// it was charged.
pub proof fn good_uploads_are_stored(
    st: StateView,
    upload: UploadView,
    headers: HeadersView,
    name: Option<Seq<char>>,
    size: u64,
    now: u128,
    created: u128,
    ip: Seq<char>,
    later: u128,
)
    requires
        st.valid(),
        0 < size <= st.allowance(upload.ip, now),
        now <= later,
    ensures
        ({
            let outcome = Ok::<(Option<Seq<char>>, u64), ErrorView>((name, size));
            let end = st.after_upload(upload, outcome, now, created);
            let done = st.completion(upload, headers, outcome, now);
            let offered = upload.offered_name(name);
            &&& end.files == st.files.insert(
                upload.id,
                EntryView { name: offered, path: upload.path, size, created },
            )
            &&& end.allowance(ip, later) == st.allowance(ip, later) - if ip == upload.ip && later
                < now + 3_600_000_000_000 {
                size as int
            } else {
                0
            }
            &&& done.reply == answer(
                201,
                base_of(st.base_url, headers) + "/"@ + upload.id + "/"@ + offered + "\n"@,
            )
            &&& done.remove is None
            &&& done.stored == Some((offered, size))
        }),
{
    charges_are_granted_within_the_allowance(st, upload.ip, size, now);
    let op = Op::Reserve(upload.ip, size, now);
    only_charges_count_and_only_for_an_hour(st, op, ip, later);
}

/// Any other upload stores nothing, costs nobody anything, has its body removed,
/// and is answered with the reason.
pub proof fn bad_uploads_come_to_nothing(
    st: StateView,
    upload: UploadView,
    headers: HeadersView,
    outcome: Result<(Option<Seq<char>>, u64), ErrorView>,
    now: u128,
    created: u128,
    ip: Seq<char>,
    later: u128,
)
    requires
        st.valid(),
        outcome matches Ok((_, size)) ==> size == 0 || size > st.allowance(upload.ip, now),
        now <= later,
    ensures
        ({
            let end = st.after_upload(upload, outcome, now, created);
            let done = st.completion(upload, headers, outcome, now);
            &&& end.files == st.files
            &&& end.allowance(ip, later) == st.allowance(ip, later)
            &&& done.remove == Some(upload.path)
            &&& done.stored is None
            &&& done.reply == match outcome {
                Err(ErrorView::TooLarge) => answer(
                    413,
                    "too large: at most "@ + decimal(upload.cap as nat)
                        + " bytes accepted right now (10 MB per file, 30 MB per hour per IP)\n"@,
                ),
                Err(ErrorView::Io) => answer(500, "storage error\n"@),
                Err(ErrorView::Message(m)) => answer(400, m + "\n"@),
                Err(ErrorView::NoFile) => answer(
                    400,
                    "no file in multipart body (use -F 'file=@path')\n"@,
                ),
                Ok((_, size)) => if size == 0 {
                    answer(400, "empty upload\n"@)
                } else {
                    answer(429, "quota exceeded, try again later\n"@)
                },
            }
        }),
{
    if let Ok((_, size)) = outcome {
        charges_are_granted_within_the_allowance(st, upload.ip, size, now);
    }
    forgetting_changes_no_allowance(st, upload.ip, ip, now, later);
}

/// Trouble ends an upload at once, and is remembered for what it is: a body that
/// breaks off with the words that it breaks off with, a file that cannot be
/// created, written or flushed as trouble with the disk, a form that comes to its
/// end as one without a file.
pub proof fn trouble_is_remembered(s: IntakeView, words: Seq<char>)
    ensures
        s.want == Want::Field || s.want == Want::Chunk ==> {
            let end = s.step(EventView::Broken(words));
            end.want == Want::Nothing && end.error == Some(ErrorView::Message(words))
        },
        s.want == Want::Create || s.want == Want::Write || s.want == Want::Flush ==> {
            let end = s.step(EventView::Failed);
            end.want == Want::Nothing && end.error == Some(ErrorView::Io)
        },
        s.want == Want::Field ==> {
            let end = s.step(EventView::NoField);
            end.want == Want::Nothing && end.error == Some(ErrorView::NoFile)
        },
{
}

/// What goes well leads on: a file is created before the body is read, each chunk
/// is written before the next is read, and the file is flushed when the body has
/// come to its end. Nothing of this changes the name, the limit or the count.
pub proof fn what_goes_well_leads_on(s: IntakeView)
    ensures
        s.want == Want::Create || s.want == Want::Write ==> s.step(EventView::Done) == (IntakeView {
            want: Want::Chunk,
            ..s
        }),
        s.want == Want::Chunk ==> s.step(EventView::End) == (IntakeView { want: Want::Flush, ..s }),
        s.want == Want::Flush ==> s.step(EventView::Done) == (IntakeView {
            want: Want::Nothing,
            ..s
        }),
{
}

/// A chunk is counted in full and then written, if the count stays within the
/// limit; the first chunk that takes it further ends the upload.
pub proof fn chunks_are_counted_in_full(s: IntakeView, n: usize)
    requires
        s.want == Want::Chunk,
    ensures
        s.total + n <= s.cap ==> s.step(EventView::Chunk(n)).total == s.total + n && s.step(
            EventView::Chunk(n),
        ).want == Want::Write && s.step(EventView::Chunk(n)).error == s.error,
        s.total + n > s.cap ==> s.step(EventView::Chunk(n)).want == Want::Nothing && s.step(
            EventView::Chunk(n),
        ).error == Some(ErrorView::TooLarge),
        s.step(EventView::Chunk(n)).cap == s.cap,
        s.step(EventView::Chunk(n)).name == s.name,
{
}

/// What answers nothing that was asked for changes nothing.
pub proof fn what_was_not_asked_for_is_ignored(s: IntakeView, e: EventView)
    requires
        match e {
            EventView::Field(_, _) => s.want != Want::Field,
            EventView::NoField => s.want != Want::Field,
            EventView::Chunk(_) => s.want != Want::Chunk,
            EventView::End => s.want != Want::Chunk,
            EventView::Broken(_) => s.want != Want::Field && s.want != Want::Chunk,
            EventView::Done => s.want == Want::Field || s.want == Want::Chunk || s.want
                == Want::Nothing,
            EventView::Failed => s.want == Want::Field || s.want == Want::Chunk || s.want
                == Want::Nothing,
        },
    ensures
        s.step(e) == s,
{
}

/// A part of a form is its file exactly if it has a file name or is the field
/// named `file`. The file then has the part's file name, made safe, or none.
pub proof fn files_of_forms_are_recognised(
    s: IntakeView,
    file: Option<Seq<char>>,
    field: Option<Seq<char>>,
)
    requires
        s.want == Want::Field,
    ensures
        file is None && field != Some("file"@) ==> s.step(EventView::Field(file, field)) == s,
        file matches Some(n) ==> s.step(EventView::Field(file, field)) == (IntakeView {
            name: Some(sanitized(n)),
            want: Want::Create,
            ..s
        }),
        file is None && field == Some("file"@) ==> s.step(EventView::Field(file, field)) == (
        IntakeView { name: None, want: Want::Create, ..s }),
{
}

/// Whether the character `c` can stand in the name of a file: its code is that of
/// a digit, of an ASCII letter, or of `-`, `.` or `_`.
pub open spec fn is_plain(c: char) -> bool {
    let u = c as u32;
    ||| 48 <= u <= 57
    ||| 65 <= u <= 90
    ||| 97 <= u <= 122
    ||| u == 45
    ||| u == 46
    ||| u == 95
}

/// Whether all the characters of `s` can stand in the name of a file.
pub open spec fn all_plain(s: Seq<char>) -> bool {
    forall|i: int| 0 <= i < s.len() ==> is_plain(#[trigger] s[i])
}

/// Whether `s` is made of dots alone.
pub open spec fn all_dots(s: Seq<char>) -> bool {
    forall|i: int| 0 <= i < s.len() ==> #[trigger] s[i] as u32 == 46
}

/// Whether `s` is the name of a file as it should be: 1 to 96 plain characters,
/// with no dot at either end.
pub open spec fn is_good_name(s: Seq<char>) -> bool {
    1 <= s.len() <= 96 && all_plain(s) && s[0] as u32 != 46 && s[s.len() - 1] as u32 != 46
}

/// The characters that are plain by their codes are those that stay in a name.
proof fn plain_by_code(c: char)
    ensures
        is_plain(c) == is_name_char(c),
        c as u32 == 46 <==> c == '.',
{
}

/// A name that is as it should be stays as it is.
pub proof fn good_names_stay(s: Seq<char>)
    requires
        is_good_name(s),
    ensures
        sanitized(s) == s,
{
    assert forall|i: int| 0 <= i < s.len() implies is_name_char(#[trigger] s[i]) by {
        plain_by_code(s[i]);
    }
    plain_by_code(s[0]);
    plain_by_code(s.last());
    safe_name_is_kept(s);
}

/// Whatever is made a name is one as it should be.
pub proof fn names_come_out_good(s: Seq<char>)
    ensures
        is_good_name(sanitized(s)),
{
    sanitized_is_safe(s);
    let name = sanitized(s);
    assert forall|i: int| 0 <= i < name.len() implies is_plain(#[trigger] name[i]) by {
        plain_by_code(name[i]);
    }
    plain_by_code(name[0]);
    plain_by_code(name.last());
}

/// What stands in front of a slash or a backslash leaves no trace in a name.
pub proof fn names_have_no_directories(dir: Seq<char>, c: char, name: Seq<char>)
    requires
        c as u32 == 47 || c as u32 == 92,
    ensures
        sanitized(dir.push(c) + name) == sanitized(name),
{
    directories_are_dropped(dir, c, name);
}

/// A character that is not plain and separates no directories falls out of a
/// name, and the rest is as if it had not been there.
pub proof fn other_characters_fall_out(a: Seq<char>, c: char, b: Seq<char>)
    requires
        !is_plain(c),
        c as u32 != 47,
        c as u32 != 92,
    ensures
        sanitized(a.push(c) + b) == sanitized(a + b),
{
    falls_out(a, c, b);
}

proof fn falls_out(a: Seq<char>, c: char, b: Seq<char>)
    requires
        !is_plain(c),
        c as u32 != 47,
        c as u32 != 92,
    ensures
        name_chars(basename(a.push(c) + b)) == name_chars(basename(a + b)),
    decreases b.len(),
{
    let with = a.push(c) + b;
    let without = a + b;
    if b.len() == 0 {
        assert(with == a.push(c));
        assert(without == a);
        assert(a.push(c).drop_last() == a);
        plain_by_code(c);
        name_chars_push(basename(a), c);
    } else {
        let front = b.drop_last();
        falls_out(a, c, front);
        assert(with.drop_last() == a.push(c) + front);
        assert(without.drop_last() == a + front);
        name_chars_push(basename(a.push(c) + front), b.last());
        name_chars_push(basename(a + front), b.last());
    }
}

/// Of plain characters the first 96 make the name.
pub proof fn long_names_are_cut(s: Seq<char>)
    requires
        s.len() > 96,
        all_plain(s),
    ensures
        sanitized(s) == sanitized(s.take(96)),
{
    assert forall|i: int| 0 <= i < s.len() implies is_name_char(#[trigger] s[i]) by {
        plain_by_code(s[i]);
    }
    name_chars_stay(s);
    name_chars_stay(s.take(96));
}

/// Dots at the ends of a name fall off.
pub proof fn dots_at_the_ends_fall_off(before: Seq<char>, name: Seq<char>, after: Seq<char>)
    requires
        all_dots(before),
        all_dots(after),
        is_good_name(name),
        before.len() + name.len() + after.len() <= 96,
    ensures
        sanitized(before + name + after) == name,
{
    let s = before + name + after;
    let behind = name + after;
    dots_and_name_stay(before, name, after);
    assert(s == before + behind);
    assert(behind[0] == name[0]);
    plain_by_code(name[0]);
    plain_by_code(name.last());
    dots_are_dots(before);
    dots_are_dots(after);
    leading_fall_off(before, behind, Class::Only('.'));
    trailing_fall_off(name, after, Class::Only('.'));
}

proof fn dots_and_name_stay(before: Seq<char>, name: Seq<char>, after: Seq<char>)
    requires
        all_dots(before),
        all_dots(after),
        all_plain(name),
    ensures
        name_chars(basename(before + name + after)) == before + name + after,
{
    let s = before + name + after;
    let m = before.len() + name.len();
    assert forall|i: int| 0 <= i < s.len() implies is_name_char(#[trigger] s[i]) by {
        plain_by_code(s[i]);
        if i < before.len() {
            assert(before[i] as u32 == 46);
        } else if i < m {
            assert(is_plain(name[i - before.len()]));
        } else {
            assert(after[i - m] as u32 == 46);
        }
    }
    name_chars_stay(s);
}

/// Whether `class` holds all the characters of `s`.
pub open spec fn all_in(s: Seq<char>, class: Class) -> bool {
    forall|i: int| 0 <= i < s.len() ==> class.holds(#[trigger] s[i])
}

proof fn dots_are_dots(s: Seq<char>)
    requires
        all_dots(s),
    ensures
        all_in(s, Class::Only('.')),
{
    assert forall|i: int| 0 <= i < s.len() implies Class::Only('.').holds(#[trigger] s[i]) by {
        plain_by_code(s[i]);
    }
}

/// What leads a text and belongs to the class falls off.
proof fn leading_fall_off(lead: Seq<char>, s: Seq<char>, class: Class)
    requires
        all_in(lead, class),
        s.len() > 0 ==> !class.holds(s[0]),
    ensures
        trim_start(lead + s, class) == s,
    decreases lead.len(),
{
    let all = lead + s;
    if lead.len() > 0 {
        assert(all[0] == lead[0]);
        leading_fall_off(lead.skip(1), s, class);
        assert(all.skip(1) == lead.skip(1) + s);
    } else {
        assert(all == s);
    }
}

/// What ends a text and belongs to the class falls off.
proof fn trailing_fall_off(s: Seq<char>, tail: Seq<char>, class: Class)
    requires
        all_in(tail, class),
        s.len() > 0 ==> !class.holds(s.last()),
    ensures
        trim_end(s + tail, class) == s,
    decreases tail.len(),
{
    let all = s + tail;
    if tail.len() > 0 {
        assert(all.last() == tail[tail.len() - 1]);
        trailing_fall_off(s, tail.drop_last(), class);
        assert(all.drop_last() == s + tail.drop_last());
    } else {
        assert(all == s);
    }
}

/// Where there is nothing but dots and characters that are not plain, the name is
/// `file`.
pub proof fn without_a_name_it_is_file(s: Seq<char>)
    requires
        forall|i: int|
            0 <= i < s.len() ==> !is_plain(#[trigger] s[i]) || s[i] as u32 == 46,
    ensures
        sanitized(s) == "file"@,
{
    only_dots_are_left(s);
    let kept = name_chars(basename(s));
    let cut = at_most(kept, 96);
    dots_are_dots(cut);
    leading_fall_off(cut, Seq::empty(), Class::Only('.'));
    assert(cut + Seq::<char>::empty() == cut);
}

proof fn only_dots_are_left(s: Seq<char>)
    requires
        forall|i: int|
            0 <= i < s.len() ==> !is_plain(#[trigger] s[i]) || s[i] as u32 == 46,
    ensures
        all_dots(name_chars(basename(s))),
    decreases s.len(),
{
    reveal(Seq::filter);
    if s.len() > 0 {
        let front = s.drop_last();
        only_dots_are_left(front);
        name_chars_push(basename(front), s.last());
        plain_by_code(s.last());
    }
}

/// The configured beginning of the links is used without the slashes at its end,
/// however many they are, whatever the request says.
pub proof fn configured_links_lose_their_slashes(
    core: Seq<char>,
    slashes: Seq<char>,
    headers: HeadersView,
)
    requires
        core.len() > 0 ==> core.last() != '/',
        forall|i: int| 0 <= i < slashes.len() ==> #[trigger] slashes[i] == '/',
    ensures
        base_of(Some(core + slashes), headers) == core,
{
    trailing_fall_off(core, slashes, Class::Only('/'));
}

/// Where nothing is configured, links begin with the scheme and the host that the
/// request names. A request that names no scheme came by `http` if its host
/// begins with `localhost` or `127.`, and by `https` otherwise; one that names no
/// host was sent to `localhost:8080`.
pub proof fn links_lead_back_to_the_host(headers: HeadersView)
    ensures
        ({
            let host = match headers.host {
                Some(h) => h,
                None => "localhost:8080"@,
            };
            let local = (host.len() >= 9 && host.take(9) == "localhost"@) || (host.len() >= 4
                && host.take(4) == "127."@);
            let base = base_of(None, headers);
            &&& headers.x_forwarded_proto matches Some(scheme) ==> base == scheme + "://"@ + host
            &&& headers.x_forwarded_proto is None && local ==> base == "http://"@ + host
            &&& headers.x_forwarded_proto is None && !local ==> base == "https://"@ + host
            &&& headers.host is None ==> local
        }),
{
    reveal_strlit("localhost");
    reveal_strlit("localhost:8080");
    reveal_strlit("127.");
    reveal_strlit("http");
    reveal_strlit("https");
    reveal_strlit("://");
    reveal_strlit("http://");
    reveal_strlit("https://");
    let host = match headers.host {
        Some(h) => h,
        None => "localhost:8080"@,
    };
    if host.len() >= 9 {
        assert(host.subrange(0, 9) == host.take(9));
    }
    if host.len() >= 4 {
        assert(host.subrange(0, 4) == host.take(4));
    }
    assert("http"@ + "://"@ == "http://"@);
    assert("https"@ + "://"@ == "https://"@);
    assert("localhost:8080"@.take(9) == "localhost"@);
}

/// A client is known by `Fly-Client-IP`, or else by `X-Real-IP`, or else by the
/// first address in `X-Forwarded-For`, or else by the address that the request
/// came from.
pub proof fn clients_are_known_by_the_first_address(headers: HeadersView, peer: Seq<char>)
    ensures
        headers.fly_client_ip matches Some(ip) ==> client_ip_of(headers, peer) == ip,
        headers.fly_client_ip is None ==> (headers.x_real_ip matches Some(ip) ==> client_ip_of(
            headers,
            peer,
        ) == ip),
        headers.fly_client_ip is None && headers.x_real_ip is None && headers.x_forwarded_for
            is None ==> client_ip_of(headers, peer) == peer,
{
}

/// The first address in `X-Forwarded-For` is what stands in front of the first
/// comma, or in the whole header where there is none, without the white space
/// around it.
pub proof fn forwarded_clients_are_the_first_of_the_list(
    headers: HeadersView,
    peer: Seq<char>,
    before: Seq<char>,
    ip: Seq<char>,
    after: Seq<char>,
    rest: Seq<char>,
)
    requires
        headers.fly_client_ip is None,
        headers.x_real_ip is None,
        all_in(before, Class::White),
        all_in(after, Class::White),
        forall|i: int| 0 <= i < ip.len() ==> #[trigger] ip[i] != ',',
        ip.len() > 0 ==> !is_white(ip[0]) && !is_white(ip.last()),
        headers.x_forwarded_for == Some(before + ip + after) || headers.x_forwarded_for == Some(
            before + ip + after + seq![','] + rest,
        ),
    ensures
        client_ip_of(headers, peer) == ip,
{
    let first = before + ip + after;
    let list = headers.x_forwarded_for->0;
    let behind = ip + after;
    assert forall|i: int| 0 <= i < first.len() implies #[trigger] first[i] != ',' by {
        if i < before.len() {
            assert(Class::White.holds(before[i]));
        } else if i < before.len() + ip.len() {
            assert(ip[i - before.len()] != ',');
        } else {
            assert(Class::White.holds(after[i - before.len() - ip.len()]));
        }
    }
    let n = first_index(list, ',');
    first_index_is_first(list, ',');
    if n < first.len() {
        assert(list[n] == first[n]);
    }
    if n > first.len() {
        assert(list[first.len() as int] == ',');
    }
    assert(list.take(n) == first);
    if ip.len() > 0 {
        assert(first == before + behind);
        leading_fall_off(before, behind, Class::White);
        trailing_fall_off(ip, after, Class::White);
    } else {
        assert forall|i: int| 0 <= i < first.len() implies Class::White.holds(#[trigger] first[i]) by {
            if i < before.len() {
                assert(Class::White.holds(before[i]));
            } else {
                assert(Class::White.holds(after[i - before.len()]));
            }
        }
        assert(first + Seq::<char>::empty() == first);
        leading_fall_off(first, Seq::empty(), Class::White);
    }
}

/// A browser, which accepts `text/html`, is shown the page with the beginning of
/// the links filled in; everyone else is shown the help.
pub proof fn the_front_page_suits_the_reader(
    base_url: Option<Seq<char>>,
    headers: HeadersView,
    page: Seq<char>,
)
    ensures
        ({
            let base = base_of(base_url, headers);
            let html = headers.accept matches Some(a) && exists|i: int|
                0 <= i && i + 9 <= a.len() && #[trigger] a.subrange(i, i + 9) == "text/html"@;
            let r = index_of(base_url, headers, page);
            &&& html ==> r == (ReplyView {
                status: 200,
                content_type: "text/html; charset=utf-8"@,
                body: replaced(page, "{{BASE}}"@, base),
            })
            &&& !html ==> r == answer(200, help(base))
        }),
{
    reveal_strlit("text/html");
    if let Some(a) = headers.accept {
        if exists|i: int|
            0 <= i && i + 9 <= a.len() && #[trigger] a.subrange(i, i + 9) == "text/html"@ {
            let i = choose|i: int|
                0 <= i && i + 9 <= a.len() && #[trigger] a.subrange(i, i + 9) == "text/html"@;
            assert(occurs_at(a, "text/html"@, i));
        }
        if occurs_in(a, "text/html"@) {
            let i = choose|i: int| occurs_at(a, "text/html"@, i);
            assert(a.subrange(i, i + 9) == "text/html"@);
        }
    }
}

/// The help is one text for all, with the beginning of the links in the three
/// commands that upload.
pub proof fn the_help_names_the_host_three_times(base: Seq<char>)
    ensures
        help(base) == "justupload - temporary file sharing\n\nupload:\n  curl -T file.txt "@ + base
            + "/\n  curl -F 'file=@file.txt' "@ + base
            + "/\n  wget --method=PUT --body-file=file.txt -qO- "@ + base
            + "/\n\ndownload:\n  curl -OJ <returned url>\n\nrules:\n  - max file size: 10 MB\n  - deleted after the first download\n  - deleted after 1 hour\n  - max 30 MB of uploads per hour per IP\n  - no backups, no guarantees\n"@,
{
}

/// Filling in replaces the first occurrence and goes on behind it.
pub proof fn filling_in_goes_on_behind(
    a: Seq<char>,
    p: Seq<char>,
    b: Seq<char>,
    with: Seq<char>,
)
    requires
        p.len() > 0,
        forall|i: int|
            0 <= i < a.len() ==> #[trigger] (a + p + b).subrange(i, i + p.len()) != p,
    ensures
        replaced(a + p + b, p, with) == a + with + replaced(b, p, with),
    decreases a.len(),
{
    let s = a + p + b;
    let n = p.len() as int;
    if a.len() == 0 {
        assert(s.subrange(0, n) == p);
        assert(s.skip(n) == b);
        assert(a + with == with);
    } else {
        let c = a.skip(1);
        let rest = c + p + b;
        assert(s.skip(1) == rest);
        assert(s.subrange(0, 0 + n) != p);
        assert forall|i: int| 0 <= i < c.len() implies #[trigger] rest.subrange(i, i + n) != p by {
            assert(rest.subrange(i, i + n) == s.subrange(i + 1, i + 1 + n));
        }
        filling_in_goes_on_behind(c, p, b, with);
        assert(seq![s[0]] + (c + with + replaced(b, p, with)) == a + with + replaced(b, p, with));
    }
}

/// Filling in changes nothing where there is nothing to fill in.
pub proof fn filling_in_changes_nothing_else(s: Seq<char>, p: Seq<char>, with: Seq<char>)
    requires
        forall|i: int|
            0 <= i && i + p.len() <= s.len() ==> #[trigger] s.subrange(i, i + p.len()) != p,
    ensures
        replaced(s, p, with) == s,
    decreases s.len(),
{
    let n = p.len() as int;
    if s.len() > 0 && n > 0 {
        let rest = s.skip(1);
        if n <= s.len() {
            assert(s.subrange(0, 0 + n) != p);
        }
        assert forall|i: int| 0 <= i && i + n <= rest.len() implies #[trigger] rest.subrange(
            i,
            i + n,
        ) != p by {
            assert(rest.subrange(i, i + n) == s.subrange(i + 1, i + 1 + n));
        }
        filling_in_changes_nothing_else(rest, p, with);
        assert(seq![s[0]] + rest == s);
    }
}

/// `GET` and `HEAD` read what the path leads to. `PUT` uploads to any path, and
/// `POST` to the front page alone. Nothing else is allowed.
pub proof fn methods_mean_the_same_everywhere(target: Target, method: Seq<char>)
    ensures
        method == "GET"@ || method == "HEAD"@ ==> action(target, method) == match target {
            Target::Root => Action::Index,
            Target::Health => Action::Health,
            Target::Segment => Action::Download,
        },
        method == "PUT"@ ==> action(target, method) is Upload,
        method == "POST"@ ==> (if target is Root {
            action(target, method) is Upload
        } else {
            action(target, method) is NotAllowed
        }),
        method != "GET"@ && method != "HEAD"@ && method != "PUT"@ && method != "POST"@ ==> action(
            target,
            method,
        ) is NotAllowed,
{
    reveal_strlit("GET");
    reveal_strlit("HEAD");
    reveal_strlit("PUT");
    reveal_strlit("POST");
    assert("PUT"@[0] == 'P' && "GET"@[0] == 'G' && "HEAD"@[0] == 'H' && "POST"@[0] == 'P');
    assert("PUT"@[1] == 'U' && "POST"@[1] == 'O');
}

/// A port is one digit or more, with or without a plus sign in front, that write
/// a number up to 65535.
pub proof fn ports_are_small_numbers(digits: Seq<char>)
    requires
        digits.len() > 0,
        forall|i: int| 0 <= i < digits.len() ==> 48 <= #[trigger] digits[i] as u32 <= 57,
    ensures
        port_of(digits) == port_of(seq!['+'] + digits),
        number(digits) <= 65535 ==> (port_of(digits) matches Some(p) && p == number(digits)),
        number(digits) > 65535 ==> port_of(digits) is None,
{
    assert((seq!['+'] + digits).skip(1) == digits);
    assert(is_number(digits));
    let c = digits[0];
    assert(48 <= c as u32);
}

/// Every port is read as it is written.
pub proof fn ports_read_back(p: u16)
    ensures
        port_of(decimal(p as nat)) == Some(p),
{
    numbers_read_back(p as nat);
    ports_are_small_numbers(decimal(p as nat));
}

/// Nothing is a port that holds something else than digits behind the sign, or
/// nothing at all.
pub proof fn other_texts_are_no_ports(s: Seq<char>, i: int)
    requires
        s.len() == 0 || s == seq!['+'] || (0 <= i < s.len() && !(48 <= s[i] as u32 <= 57) && (i > 0
            || s[i] != '+')),
    ensures
        port_of(s) is None,
{
    if s.len() > 0 && s[0] == '+' {
        if s.len() > 1 {
            assert(s.skip(1)[i - 1] == s[i]);
        }
    }
}

/// Each variable of the environment is used as it is, if it is there and makes
/// sense, and has its own default otherwise.
pub proof fn variables_have_defaults(
    port: Option<Seq<char>>,
    dir: Option<Seq<char>>,
    base_url: Option<Seq<char>>,
)
    ensures
        ({
            let c = config_of(port, dir, base_url);
            &&& port is None ==> c.port == 8080
            &&& port matches Some(p) ==> (port_of(p) matches Some(n) ==> c.port == n)
            &&& port matches Some(p) ==> (port_of(p) is None ==> c.port == 8080)
            &&& dir matches Some(d) ==> c.dir == d
            &&& dir is None ==> c.dir == "/tmp/justupload"@
            &&& c.base_url == base_url
        }),
{
}

/// A header is read if its first value is visible ASCII, spaces and tabs alone,
/// and then character by character.
pub proof fn visible_headers_are_read(
    values: Map<Seq<char>, Seq<Seq<u8>>>,
    name: Seq<char>,
)
    ensures
        ({
            let r = header_text(values, name);
            let first = values[name][0];
            let seen = values.contains_key(name) && forall|i: int|
                0 <= i < first.len() ==> 32 <= #[trigger] first[i] <= 126 || first[i] == 9;
            &&& r is Some <==> seen
            &&& r matches Some(text) ==> text.len() == first.len() && forall|i: int|
                0 <= i < first.len() ==> #[trigger] text[i] as u32 == first[i]
        }),
{
    let first = values[name][0];
    if forall|i: int| 0 <= i < first.len() ==> 32 <= #[trigger] first[i] <= 126 || first[i] == 9 {
        assert forall|i: int| 0 <= i < first.len() implies is_visible(#[trigger] first[i]) by {
            assert(32 <= first[i] <= 126 || first[i] == 9);
        }
    }
    if forall|i: int| 0 <= i < first.len() ==> is_visible(#[trigger] first[i]) {
        assert forall|i: int| 0 <= i < first.len() implies 32 <= #[trigger] first[i] <= 126
            || first[i] == 9 by {
            assert(is_visible(first[i]));
        }
    }
}

/// Each header is read under its own name.
pub proof fn headers_go_by_their_names(values: Map<Seq<char>, Seq<Seq<u8>>>)
    ensures
        headers_of(values).host == header_text(values, "host"@),
        headers_of(values).x_forwarded_proto == header_text(values, "x-forwarded-proto"@),
        headers_of(values).accept == header_text(values, "accept"@),
        headers_of(values).content_type == header_text(values, "content-type"@),
        headers_of(values).fly_client_ip == header_text(values, "fly-client-ip"@),
        headers_of(values).x_real_ip == header_text(values, "x-real-ip"@),
        headers_of(values).x_forwarded_for == header_text(values, "x-forwarded-for"@),
        headers_of(values).x_filename == header_text(values, "x-filename"@),
{
}

/// Whether `c` can stand in an id: its code is that of a digit from `2` on, or of
/// an ASCII letter other than `I`, `O` and `l`.
pub open spec fn is_clear(c: char) -> bool {
    let u = c as u32;
    ||| 50 <= u <= 57
    ||| 65 <= u <= 90 && u != 73 && u != 79
    ||| 97 <= u <= 122 && u != 108
}

/// An id is eight characters that are not easily taken for one another, and any
/// eight of them can be one.
pub proof fn ids_are_eight_clear_characters(id: Seq<char>)
    ensures
        is_id(id) <==> id.len() == 8 && forall|i: int|
            0 <= i < id.len() ==> is_clear(#[trigger] id[i]),
{
    reveal_strlit("abcdefghijkmnopqrstuvwxyzABCDEFGHJKLMNPQRSTUVWXYZ23456789");
    assert forall|i: int| 0 <= i < id.len() implies ID_ALPHABET@.contains(#[trigger] id[i])
        == is_clear(id[i]) by {
        clear_by_code(id[i]);
    }
}

proof fn clear_by_code(c: char)
    ensures
        ID_ALPHABET@.contains(c) == is_clear(c),
{
    reveal_strlit("abcdefghijkmnopqrstuvwxyzABCDEFGHJKLMNPQRSTUVWXYZ23456789");
    let u = c as int;
    if ID_ALPHABET@.contains(c) {
        let j = choose|j: int| 0 <= j < ID_ALPHABET@.len() && ID_ALPHABET@[j] == c;
        alphabet_is_in_order(j);
    }
    if is_clear(c) {
        let j = if u <= 57 {
            u - 50 + 49
        } else if u <= 72 {
            u - 65 + 25
        } else if u <= 78 {
            u - 74 + 33
        } else if u <= 90 {
            u - 80 + 38
        } else if u <= 107 {
            u - 97
        } else {
            u - 109 + 11
        };
        alphabet_is_in_order(j);
        assert(ID_ALPHABET@[j] == c);
    }
}

/// Each number that is drawn picks one character of the id, in the order in which
/// they are drawn.
pub proof fn ids_follow_what_is_drawn(picks: Seq<usize>, i: int)
    requires
        0 <= i < picks.len(),
    ensures
        id_of(picks).len() == picks.len(),
        id_of(picks)[i]
            == "abcdefghijkmnopqrstuvwxyzABCDEFGHJKLMNPQRSTUVWXYZ23456789"@[picks[i] as int],
{
}

/// The path of a file begins with the directory and ends in the name, with one
/// slash or backslash between them, or with none where the directory is empty or
/// ends in one.
pub proof fn paths_lead_into_the_directory(path: Seq<char>, dir: Seq<char>, id: Seq<char>)
    requires
        is_path_of(path, dir, id),
        is_id(id),
        !(dir.len() == 2 && dir[1] == ':'),
        !(dir.len() >= 2 && dir[0] == '\\' && dir[1] == '\\'),
    ensures
        path == dir + id || path == dir + "/"@ + id || path == dir + "\\"@ + id,
        path == dir + id ==> dir.len() == 0 || dir.last() == '/' || dir.last() == '\\',
        dir.len() == 0 || dir.last() == '/' ==> path == dir + id,
{
    ids_are_eight_clear_characters(id);
    assert forall|i: int| 0 <= i < id.len() implies #[trigger] id[i] != '/' && id[i] != '\\'
        && id[i] != ':' by {
        assert(is_clear(id[i]));
    }
    let c = choose|c: char| is_separator(c) && path == #[trigger] joined(dir, id, c);
    reveal_strlit("/");
    reveal_strlit("\\");
    assert(dir.push('/') == dir + "/"@);
    assert(dir.push('\\') == dir + "\\"@);
    assert((dir + id).len() == dir.len() + 8);
}

/// What is found under an id is what is stored there.
pub proof fn what_is_found_is_what_is_stored(st: StateView, id: Seq<char>)
    ensures
        st.lookup(id) is Some <==> st.files.contains_key(id),
        st.lookup(id) matches Some(entry) ==> entry == st.files[id],
{
}

/// Answers are in plain text, in UTF-8, with the status and the words given.
pub proof fn answers_are_plain_text(status: u16, body: Seq<char>)
    ensures
        plain(status, body) == answer(status, body),
{
}

/// Reading the clock sets the time that was read last, and nothing else.
pub proof fn reading_changes_the_clock_alone(st: StateView, now: u128)
    ensures
        st.at(now).clock == now,
        st.at(now).start == st.start,
        st.at(now).files == st.files,
        st.at(now).quota == st.quota,
        st.at(now).dir == st.dir,
        st.at(now).base_url == st.base_url,
{
}

/// The laws on stored files, answers, downloads and uploads speak of the very
/// fields that a program reads.
pub proof fn what_is_said_holds_of_the_fields(
    entry: Entry,
    reply: Reply,
    download: Download,
    upload: Upload,
    done: Completion,
)
    ensures
        entry@.name == entry.name@,
        entry@.path == entry.path@,
        entry@.size == entry.size,
        entry@.created == entry.created,
        reply@.status == reply.status,
        reply@.content_type == reply.content_type@,
        reply@.body == reply.body@,
        download@.content_type == download.content_type@,
        download@.content_length == download.content_length@,
        download@.content_disposition == download.content_disposition@,
        download@.remove == download.remove@,
        upload@.ip == upload.ip@,
        upload@.cap == upload.cap,
        upload@.id == upload.id@,
        upload@.path == upload.path@,
        upload@.form == upload.form,
        upload.path_name matches Some(n) ==> upload@.path_name == Some(n@),
        upload.path_name is None ==> upload@.path_name is None,
        upload.header_name matches Some(n) ==> upload@.header_name == Some(n@),
        upload.header_name is None ==> upload@.header_name is None,
        done@.reply == done.reply@,
        done.remove matches Some(p) ==> done@.remove == Some(p@),
        done.remove is None ==> done@.remove is None,
        done.stored matches Some((n, size)) ==> done@.stored == Some((n@, size)),
        done.stored is None ==> done@.stored is None,
{
}

/// The same of the headers of a request.
pub proof fn what_is_said_of_headers_holds_of_the_fields(h: Headers)
    ensures
        h.host matches Some(t) ==> h@.host == Some(t@),
        h.host is None ==> h@.host is None,
        h.x_forwarded_proto matches Some(t) ==> h@.x_forwarded_proto == Some(t@),
        h.x_forwarded_proto is None ==> h@.x_forwarded_proto is None,
        h.accept matches Some(t) ==> h@.accept == Some(t@),
        h.accept is None ==> h@.accept is None,
        h.content_type matches Some(t) ==> h@.content_type == Some(t@),
        h.content_type is None ==> h@.content_type is None,
        h.fly_client_ip matches Some(t) ==> h@.fly_client_ip == Some(t@),
        h.fly_client_ip is None ==> h@.fly_client_ip is None,
        h.x_real_ip matches Some(t) ==> h@.x_real_ip == Some(t@),
        h.x_real_ip is None ==> h@.x_real_ip is None,
        h.x_forwarded_for matches Some(t) ==> h@.x_forwarded_for == Some(t@),
        h.x_forwarded_for is None ==> h@.x_forwarded_for is None,
        h.x_filename matches Some(t) ==> h@.x_filename == Some(t@),
        h.x_filename is None ==> h@.x_filename is None,
{
}

/// The same of what happens to an upload, of why it fails, and of what a request
/// for a file comes to.
pub proof fn what_is_said_of_events_holds_of_them(
    event: Event,
    error: UploadError,
    served: Serve,
    config: Config,
)
    ensures
        event matches Event::Chunk(n) ==> event@ == EventView::Chunk(n),
        event matches Event::Broken(m) ==> event@ == EventView::Broken(m@),
        event is End ==> event@ is End,
        event is Done ==> event@ is Done,
        event is Failed ==> event@ is Failed,
        event is NoField ==> event@ is NoField,
        event matches Event::Field(file, field) ==> (event@ matches EventView::Field(a, b) && (file
            is Some <==> a is Some) && (field is Some <==> b is Some) && (file is Some ==> a
            == Some(file->0@)) && (field is Some ==> b == Some(field->0@))),
        error is TooLarge ==> error@ is TooLarge,
        error is Io ==> error@ is Io,
        error is NoFile ==> error@ is NoFile,
        error matches UploadError::Message(m) ==> error@ == ErrorView::Message(m@),
        served matches Serve::Open(entry) ==> served@ == ServeView::Open(entry@),
        served matches Serve::Refuse(reply, remove) ==> (served@ matches ServeView::Refuse(r, p)
            && r == reply@ && (remove is Some <==> p is Some) && (remove is Some ==> p == Some(
            remove->0@,
        ))),
        config@.port == config.port,
        config@.dir == config.dir@,
        config.base_url matches Some(b) ==> config@.base_url == Some(b@),
        config.base_url is None ==> config@.base_url is None,
{
}

} // verus!

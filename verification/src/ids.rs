//! The ids under which files are stored.

use rand::Rng;
use vstd::prelude::*;
use vstd::string::*;

verus! {

/// The characters of ids: letters and digits, without those that are easily
/// taken for one another.
pub const ID_ALPHABET: &'static str = "abcdefghijkmnopqrstuvwxyzABCDEFGHJKLMNPQRSTUVWXYZ23456789";

/// How many characters the alphabet of ids has.
pub const ID_ALPHABET_LEN: usize = 57;

/// How many characters an id has.
pub const ID_LEN: usize = 8;

/// The id that the positions `picks` of the alphabet make.
pub open spec fn id_of(picks: Seq<usize>) -> Seq<char> {
    picks.map_values(|i: usize| ID_ALPHABET@[i as int])
}

/// Whether `s` is an id: of the right length, and made of the alphabet.
pub open spec fn is_id(s: Seq<char>) -> bool {
    &&& s.len() == ID_LEN
    &&& forall|i: int| 0 <= i < s.len() ==> ID_ALPHABET@.contains(#[trigger] s[i])
}

/// `rand`'s thread-local generator, asked by `Rng::gen_range` for a number below
/// `n`. Any number below `n` may come back.
#[verifier::external_body]
fn random_below(n: usize) -> (i: usize)
    requires
        0 < n,
    ensures
        i < n,
{
    rand::thread_rng().gen_range(0..n)
}

/// Whether `i` is what `random_below` may return for `n`.
pub closed spec fn may_be_drawn(n: usize, i: usize) -> bool {
    call_ensures(random_below, (n,), i)
}

/// Nothing is counted as drawn but what `random_below` returns, as it returns it.
proof fn draws_are_what_was_returned(n: usize, i: usize)
    ensures
        may_be_drawn(n, i) <==> call_ensures(random_below, (n,), i),
{
}

/// Whether `id` is made of characters of the alphabet at positions that were
/// drawn, one for each.
pub open spec fn is_drawn(id: Seq<char>) -> bool {
    exists|picks: Seq<usize>|
        id == #[trigger] id_of(picks) && picks.len() == ID_LEN && forall|i: int|
            0 <= i < picks.len() ==> may_be_drawn(ID_ALPHABET_LEN, #[trigger] picks[i])
}

/// Writes the id that the positions `picks` of the alphabet make.
pub fn id_from(picks: &Vec<usize>) -> (id: String)
    requires
        forall|i: int| 0 <= i < picks.len() ==> #[trigger] picks@[i] < ID_ALPHABET_LEN,
    ensures
        id@ == id_of(picks@),
        picks.len() == ID_LEN ==> is_id(id@),
{
    proof {
        reveal_strlit("abcdefghijkmnopqrstuvwxyzABCDEFGHJKLMNPQRSTUVWXYZ23456789");
    }
    let mut id: String = String::new();
    let mut i: usize = 0;
    while i < picks.len()
        invariant
            i <= picks.len(),
            ID_ALPHABET@.len() == ID_ALPHABET_LEN,
            forall|j: int| 0 <= j < picks.len() ==> #[trigger] picks@[j] < ID_ALPHABET_LEN,
            id@ == id_of(picks@.take(i as int)),
        decreases picks.len() - i,
    {
        id.push(ID_ALPHABET.get_char(picks[i]));
        i = i + 1;
    }
    id
}

/// Draws a new id.
pub fn gen_id() -> (id: String)
    ensures
        is_id(id@),
        is_drawn(id@),
{
    let mut picks: Vec<usize> = Vec::new();
    let mut i: usize = 0;
    while i < ID_LEN
        invariant
            i <= ID_LEN,
            picks.len() == i,
            forall|j: int| 0 <= j < i ==> #[trigger] picks@[j] < ID_ALPHABET_LEN,
            forall|j: int| 0 <= j < i ==> may_be_drawn(ID_ALPHABET_LEN, #[trigger] picks@[j]),
        decreases ID_LEN - i,
    {
        let pick: usize = random_below(ID_ALPHABET_LEN);
        assert(may_be_drawn(ID_ALPHABET_LEN, pick));
        picks.push(pick);
        i = i + 1;
    }
    id_from(&picks)
}

/// The alphabet holds no character twice, so different picks make different
/// ids.
pub proof fn ids_are_faithful(a: Seq<usize>, b: Seq<usize>)
    requires
        forall|i: int| 0 <= i < a.len() ==> #[trigger] a[i] < ID_ALPHABET_LEN,
        forall|i: int| 0 <= i < b.len() ==> #[trigger] b[i] < ID_ALPHABET_LEN,
        id_of(a) == id_of(b),
    ensures
        a == b,
{
    assert(id_of(a).len() == a.len());
    assert forall|i: int| 0 <= i < a.len() implies a[i] == b[i] by {
        assert(id_of(a)[i] == ID_ALPHABET@[a[i] as int]);
        alphabet_is_in_order(a[i] as int);
        alphabet_is_in_order(b[i] as int);
    }
}

/// Ids are made of ASCII letters and digits alone, and of none of `l`, `I`,
/// `O`, `0` and `1`.
pub proof fn ids_are_plain(id: Seq<char>, i: int)
    requires
        is_id(id),
        0 <= i < id.len(),
    ensures
        crate::names::is_name_char(id[i]),
        id[i] != '.' && id[i] != '-' && id[i] != '_',
        id[i] != 'l' && id[i] != 'I' && id[i] != 'O' && id[i] != '0' && id[i] != '1',
{
    let j = choose|j: int| 0 <= j < ID_ALPHABET@.len() && ID_ALPHABET@[j] == id[i];
    reveal_strlit("abcdefghijkmnopqrstuvwxyzABCDEFGHJKLMNPQRSTUVWXYZ23456789");
    alphabet_is_in_order(j);
}

/// Where each character of the alphabet stands.
pub(crate) proof fn alphabet_is_in_order(i: int)
    requires
        0 <= i < ID_ALPHABET_LEN,
    ensures
        ID_ALPHABET@[i] as int == if i < 11 {
            'a' as int + i
        } else if i < 25 {
            'm' as int + i - 11
        } else if i < 33 {
            'A' as int + i - 25
        } else if i < 38 {
            'J' as int + i - 33
        } else if i < 49 {
            'P' as int + i - 38
        } else {
            '2' as int + i - 49
        },
{
    reveal_strlit("abcdefghijkmnopqrstuvwxyzABCDEFGHJKLMNPQRSTUVWXYZ23456789");
}

} // verus!

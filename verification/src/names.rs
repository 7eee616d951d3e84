//! The names under which files are offered.

use crate::text::{
    chars_of, trim, trim_end, trim_end_is_prefix, trim_start, trim_start_is_suffix, trimmed, Class,
};
use vstd::prelude::*;
use vstd::string::*;

verus! {

/// The most characters that a name keeps.
pub const MAX_NAME_LEN: usize = 96;

/// Whether `c` separates directories.
pub open spec fn is_separator(c: char) -> bool {
    c == '/' || c == '\\'
}

/// Whether `c` may stand in a name: an ASCII letter or digit, `.`, `-` or `_`.
pub open spec fn is_name_char(c: char) -> bool {
    let u = c as u32;
    ||| 'a' as u32 <= u <= 'z' as u32
    ||| 'A' as u32 <= u <= 'Z' as u32
    ||| '0' as u32 <= u <= '9' as u32
    ||| c == '.'
    ||| c == '-'
    ||| c == '_'
}

/// What follows the last separator of `s`.
pub open spec fn basename(s: Seq<char>) -> Seq<char>
    decreases s.len(),
{
    if s.len() == 0 || is_separator(s.last()) {
        Seq::empty()
    } else {
        basename(s.drop_last()).push(s.last())
    }
}

/// The first `n` elements of `s`, or all where there are fewer.
pub open spec fn at_most(s: Seq<char>, n: int) -> Seq<char> {
    if s.len() <= n {
        s
    } else {
        s.take(n)
    }
}

/// The characters of `s` that may stand in a name.
pub open spec fn name_chars(s: Seq<char>) -> Seq<char> {
    s.filter(|c: char| is_name_char(c))
}

/// The name made of `s`: of what follows the last separator, the first
/// characters that may stand in a name, without dots at the ends, or `file`
/// where that leaves nothing.
pub open spec fn sanitized(s: Seq<char>) -> Seq<char> {
    let cleaned = trim(at_most(name_chars(basename(s)), MAX_NAME_LEN as int), Class::Only('.'));
    if cleaned.len() == 0 {
        "file"@
    } else {
        cleaned
    }
}

/// Whether `s` is a name that a file can be offered under: neither empty nor
/// too long, free of anything but name characters, and with no dot at an end.
pub open spec fn safe_name(s: Seq<char>) -> bool {
    &&& 0 < s.len() <= MAX_NAME_LEN
    &&& forall|i: int| 0 <= i < s.len() ==> is_name_char(#[trigger] s[i])
    &&& s[0] != '.'
    &&& s.last() != '.'
}

/// Whether `c` may stand in a name.
fn may_stay(c: char) -> (b: bool)
    ensures
        b == is_name_char(c),
{
    let u: u32 = c as u32;
    ('a' as u32 <= u && u <= 'z' as u32) || ('A' as u32 <= u && u <= 'Z' as u32) || ('0' as u32 <= u
        && u <= '9' as u32) || c == '.' || c == '-' || c == '_'
}

/// Where the part of `v` after the last separator begins.
fn basename_start(v: &Vec<char>) -> (i: usize)
    ensures
        i <= v.len(),
        v@.skip(i as int) == basename(v@),
{
    let mut i: usize = v.len();
    assert(basename(v@.take(i as int)) + v@.skip(i as int) == basename(v@)) by {
        assert(v@.take(i as int) == v@);
    }
    while i > 0 && v[i - 1] != '/' && v[i - 1] != '\\'
        invariant
            i <= v.len(),
            basename(v@.take(i as int)) + v@.skip(i as int) == basename(v@),
        decreases i,
    {
        proof {
            let front = v@.take(i as int);
            assert(front.drop_last() == v@.take(i - 1));
        }
        i = i - 1;
    }
    i
}

/// The name characters of a text with one more character.
pub(crate) proof fn name_chars_push(s: Seq<char>, c: char)
    ensures
        name_chars(s.push(c)) == if is_name_char(c) {
            name_chars(s).push(c)
        } else {
            name_chars(s)
        },
{
    reveal(Seq::filter);
    assert(s.push(c).drop_last() == s);
}

/// A longer text has at least the name characters of a shorter one.
proof fn name_chars_grow(s: Seq<char>, i: int)
    requires
        0 <= i <= s.len(),
    ensures
        name_chars(s.take(i)).len() <= name_chars(s).len(),
        name_chars(s).take(name_chars(s.take(i)).len() as int) == name_chars(s.take(i)),
    decreases s.len() - i,
{
    if i < s.len() {
        name_chars_grow(s, i + 1);
        name_chars_push(s.take(i), s[i]);
        assert(s.take(i).push(s[i]) == s.take(i + 1));
        let all = name_chars(s);
        let longer = name_chars(s.take(i + 1));
        let shorter = name_chars(s.take(i));
        assert(all.take(longer.len() as int).take(shorter.len() as int) == all.take(
            shorter.len() as int,
        ));
    } else {
        assert(s.take(i) == s);
    }
}

/// Keeps only a safe, printable basename; falls back to `file`.
pub fn sanitize(name: &str) -> (r: String)
    ensures
        r@ == sanitized(name@),
{
    let v: Vec<char> = chars_of(name);
    let start: usize = basename_start(&v);
    let ghost base = basename(name@);
    let mut kept: Vec<char> = Vec::new();
    let mut i: usize = start;
    while i < v.len() && kept.len() < MAX_NAME_LEN
        invariant
            v@ == name@,
            start <= i <= v.len(),
            base == v@.skip(start as int),
            kept@ == name_chars(base.take(i - start)),
            kept.len() <= MAX_NAME_LEN,
        decreases v.len() - i,
    {
        let c: char = v[i];
        proof {
            name_chars_push(base.take(i - start), c);
            assert(base.take(i - start).push(c) == base.take(i + 1 - start));
        }
        if may_stay(c) {
            kept.push(c);
        }
        i = i + 1;
    }
    proof {
        name_chars_grow(base, i - start);
        if i == v.len() {
            assert(base.take(i - start) == base);
        }
        assert(kept@ == at_most(name_chars(base), MAX_NAME_LEN as int));
        assert(kept@.subrange(0, kept@.len() as int) == kept@);
    }
    let cleaned: String = trimmed(&kept, Class::Only('.'), 0, kept.len());
    if cleaned.as_str().is_empty() {
        "file".to_string()
    } else {
        cleaned
    }
}

/// Every name character of a text is one.
proof fn name_chars_are(s: Seq<char>)
    ensures
        name_chars(s).len() <= s.len(),
        forall|i: int| 0 <= i < name_chars(s).len() ==> is_name_char(#[trigger] name_chars(s)[i]),
    decreases s.len(),
{
    if s.len() > 0 {
        name_chars_are(s.drop_last());
        name_chars_push(s.drop_last(), s.last());
    }
}

/// A text of name characters has no directories and loses nothing.
pub(crate) proof fn name_chars_stay(s: Seq<char>)
    requires
        forall|i: int| 0 <= i < s.len() ==> is_name_char(#[trigger] s[i]),
    ensures
        basename(s) == s,
        name_chars(s) == s,
    decreases s.len(),
{
    reveal(Seq::filter);
    if s.len() > 0 {
        name_chars_stay(s.drop_last());
        name_chars_push(s.drop_last(), s.last());
    }
}

/// Whatever a client sends as a name, the file is offered under a safe one: a
/// plain basename that is never empty, `.` or `..`, and holds no separator,
/// quote, space or control character.
pub proof fn sanitized_is_safe(s: Seq<char>)
    ensures
        safe_name(sanitized(s)),
{
    let dot = Class::Only('.');
    let kept = at_most(name_chars(basename(s)), MAX_NAME_LEN as int);
    name_chars_are(basename(s));
    let front = trim_start(kept, dot);
    let cleaned = trim_end(front, dot);
    trim_start_is_suffix(kept, dot);
    trim_end_is_prefix(front, dot);
    if cleaned.len() == 0 {
        reveal_strlit("file");
    }
}

/// A safe name is kept as it is.
pub proof fn safe_name_is_kept(s: Seq<char>)
    requires
        safe_name(s),
    ensures
        sanitized(s) == s,
{
    name_chars_stay(s);
}

/// Cleaning a name twice is cleaning it once.
pub proof fn sanitized_is_idempotent(s: Seq<char>)
    ensures
        sanitized(sanitized(s)) == sanitized(s),
{
    sanitized_is_safe(s);
    safe_name_is_kept(sanitized(s));
}

/// The directories in front of a name leave no trace in it.
pub proof fn directories_are_dropped(dir: Seq<char>, separator: char, name: Seq<char>)
    requires
        is_separator(separator),
    ensures
        sanitized(dir.push(separator) + name) == sanitized(name),
{
    basename_of_path(dir, separator, name);
}

proof fn basename_of_path(dir: Seq<char>, separator: char, name: Seq<char>)
    requires
        is_separator(separator),
    ensures
        basename(dir.push(separator) + name) == basename(name),
    decreases name.len(),
{
    let path = dir.push(separator) + name;
    if name.len() > 0 {
        basename_of_path(dir, separator, name.drop_last());
        assert(path.drop_last() == dir.push(separator) + name.drop_last());
    }
}

/// Whether `name` is one component of a path on every platform: it holds none of
/// the characters that separate directories or drives on some.
pub open spec fn is_one_component(name: Seq<char>) -> bool {
    forall|i: int|
        0 <= i < name.len() ==> #[trigger] name[i] != '/' && name[i] != '\\' && name[i] != ':'
}

/// Whether `dir` is neither a drive alone nor begins with two backslashes, which
/// some platforms give a meaning of their own.
pub open spec fn is_ordinary_dir(dir: Seq<char>) -> bool {
    &&& !(dir.len() == 2 && dir[1] == ':')
    &&& !(dir.len() >= 2 && dir[0] == '\\' && dir[1] == '\\')
}

/// The path of the file `name` in the directory `dir`, where directories are
/// separated by `separator`. No separator is put where the directory ends in one.
pub open spec fn joined(dir: Seq<char>, name: Seq<char>, separator: char) -> Seq<char> {
    if dir.len() == 0 || dir.last() == separator || dir.last() == '/' {
        dir + name
    } else {
        dir.push(separator) + name
    }
}

/// Whether `path` is, as far as that does not differ between platforms, the path
/// of the file `name` in the directory `dir`. What separates directories is up to
/// the platform. Nothing is said where `name` is more than one component or `dir`
/// is not an ordinary directory.
pub open spec fn is_path_of(path: Seq<char>, dir: Seq<char>, name: Seq<char>) -> bool {
    is_ordinary_dir(dir) && is_one_component(name) ==> exists|separator: char|
        is_separator(separator) && path == #[trigger] joined(dir, name, separator)
}

/// `std::path::Path::join`: the path of `name` in `dir`. Claimed is that `name`
/// stands behind `dir`, with the separator of the platform between them unless
/// `dir` is empty or ends in a separator. Which of `/` and `\` that is depends on
/// the platform. Nothing is claimed where `name` is more than one component or
/// `dir` a drive alone or something behind two backslashes, for these are treated
/// differently between platforms.
#[verifier::external_body]
fn join_path(dir: &str, name: &str) -> (path: String)
    ensures
        is_path_of(path@, dir@, name@),
{
    std::path::Path::new(dir).join(name).to_string_lossy().into_owned()
}

/// Whether `path` is what `join_path` may return for `dir` and `name`.
pub closed spec fn may_be_joined(dir: Seq<char>, name: Seq<char>, path: Seq<char>) -> bool {
    exists|d: &str, n: &str, p: String|
        d@ == dir && n@ == name && p@ == path && #[trigger] call_ensures(join_path, (d, n), p)
}

/// The path of the file `name` in the directory `dir`.
pub fn path_in(dir: &str, name: &str) -> (path: String)
    ensures
        is_path_of(path@, dir@, name@),
        may_be_joined(dir@, name@, path@),
{
    join_path(dir, name)
}

/// Different file names make different paths in the same directory.
pub proof fn paths_are_distinct(dir: Seq<char>, a: Seq<char>, b: Seq<char>, path: Seq<char>)
    requires
        is_ordinary_dir(dir),
        is_one_component(a),
        is_one_component(b),
        is_path_of(path, dir, a),
        is_path_of(path, dir, b),
    ensures
        a == b,
{
    let s = choose|s: char| is_separator(s) && path == #[trigger] joined(dir, a, s);
    let t = choose|t: char| is_separator(t) && path == #[trigger] joined(dir, b, t);
    let n = dir.len() as int;
    let bare = dir + a == path;
    if bare == (dir + b == path) {
        let m = if bare {
            n
        } else {
            n + 1
        };
        assert(path.skip(m) == a);
        assert(path.skip(m) == b);
    } else if bare {
        assert(path[n] == t);
        assert(path[n] == a[0]);
    } else {
        assert(path[n] == s);
        assert(path[n] == b[0]);
    }
}

} // verus!

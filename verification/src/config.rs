//! What the environment configures.

use crate::text::{chars_of, is_digit, is_number, number, text_view};
use vstd::prelude::*;

verus! {

/// What the environment configures.
pub struct ConfigView {
    pub port: u16,
    pub dir: Seq<char>,
    pub base_url: Option<Seq<char>>,
}

/// What the environment configures.
pub struct Config {
    /// The port to listen on.
    pub port: u16,
    /// Where the bodies of the files are kept.
    pub dir: String,
    /// The beginning of the links, if it is not to be taken from the requests.
    pub base_url: Option<String>,
}

impl View for Config {
    type V = ConfigView;

    open spec fn view(&self) -> ConfigView {
        ConfigView { port: self.port, dir: self.dir@, base_url: text_view(self.base_url) }
    }
}

/// The port that `s` writes: a decimal number below 65536, with or without a
/// plus sign.
pub open spec fn port_of(s: Seq<char>) -> Option<u16> {
    let digits = if s.len() > 0 && s[0] == '+' {
        s.skip(1)
    } else {
        s
    };
    if is_number(digits) && number(digits) <= u16::MAX {
        Some(number(digits) as u16)
    } else {
        None
    }
}

/// More digits write no smaller number.
proof fn number_grows(s: Seq<char>, i: int)
    requires
        0 <= i <= s.len(),
    ensures
        number(s.take(i)) <= number(s),
    decreases s.len() - i,
{
    if i < s.len() {
        number_grows(s, i + 1);
        assert(s.take(i + 1).drop_last() == s.take(i));
    } else {
        assert(s.take(i) == s);
    }
}

/// Reads a port.
pub fn parse_port(s: &str) -> (r: Option<u16>)
    ensures
        r == port_of(s@),
{
    let v: Vec<char> = chars_of(s);
    let start: usize = if v.len() > 0 && v[0] == '+' {
        1
    } else {
        0
    };
    let ghost digits = v@.skip(start as int);
    proof {
        if start == 0 {
            assert(digits == s@);
        }
    }
    if start == v.len() {
        return None;
    }
    let mut n: u32 = 0;
    let mut i: usize = start;
    while i < v.len()
        invariant
            start <= i <= v.len(),
            start < v.len(),
            digits == v@.skip(start as int),
            port_of(s@) == if is_number(digits) && number(digits) <= u16::MAX {
                Some(number(digits) as u16)
            } else {
                None
            },
            forall|j: int| 0 <= j < i - start ==> is_digit(#[trigger] digits[j]),
            n == number(digits.take(i - start)),
            n <= u16::MAX,
        decreases v.len() - i,
    {
        let u: u32 = v[i] as u32;
        assert(digits[i - start] == v@[i as int]);
        if u < '0' as u32 || u > '9' as u32 {
            return None;
        }
        n = 10 * n + (u - '0' as u32);
        i = i + 1;
        proof {
            let read = digits.take(i - start);
            assert(read.drop_last() == digits.take(i - 1 - start));
        }
        if n > u16::MAX as u32 {
            proof {
                number_grows(digits, i - start);
            }
            return None;
        }
    }
    assert(digits.take(digits.len() as int) == digits);
    Some(n as u16)
}

/// The configuration that the variables `PORT`, `UPLOAD_DIR` and `BASE_URL`
/// make, with a default for each that is missing or makes no sense.
pub open spec fn config_of(
    port: Option<Seq<char>>,
    dir: Option<Seq<char>>,
    base_url: Option<Seq<char>>,
) -> ConfigView {
    ConfigView {
        port: match port {
            Some(p) => match port_of(p) {
                Some(n) => n,
                None => 8080,
            },
            None => 8080,
        },
        dir: match dir {
            Some(d) => d,
            None => "/tmp/justupload"@,
        },
        base_url,
    }
}

/// The configuration that the variables `PORT`, `UPLOAD_DIR` and `BASE_URL`
/// make.
pub fn configure(port: Option<String>, dir: Option<String>, base_url: Option<String>) -> (c: Config)
    ensures
        c@ == config_of(text_view(port), text_view(dir), text_view(base_url)),
{
    let port: u16 = match port {
        Some(p) => match parse_port(p.as_str()) {
            Some(n) => n,
            None => 8080,
        },
        None => 8080,
    };
    let dir: String = match dir {
        Some(d) => d,
        None => "/tmp/justupload".to_string(),
    };
    Config { port, dir, base_url }
}

} // verus!

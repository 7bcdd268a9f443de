//! Small text helpers: character sequences to strings, string comparison,
//! hex rendering, path-component sanitising and the output format names.
use vstd::prelude::*;

verus! {

/// Relies on `String`'s `FromIterator<char>`: the string holds the characters
/// in order.
#[verifier::external_body]
pub(crate) fn string_from_chars(v: &Vec<char>) -> (r: String)
    ensures
        r@ == v@,
{
    v.iter().collect()
}

/// Relies on `std::path::is_separator`: `/` separates paths on every
/// platform, and a backslash is the only other separator any platform has (Windows).
#[verifier::external_body]
fn is_path_separator(c: char) -> (r: bool)
    ensures
        c == '/' ==> r,
        r ==> c == '/' || c == '\\',
{
    std::path::is_separator(c)
}

/// The characters of `s`.
pub fn chars_of(s: &str) -> (r: Vec<char>)
    ensures
        r@ == s@,
{
    let n = s.unicode_len();
    let mut r: Vec<char> = Vec::with_capacity(n);
    let mut i: usize = 0;
    while i < n
        invariant
            n == s@.len(),
            i <= n,
            r@ == s@.take(i as int),
        decreases n - i,
    {
        r.push(s.get_char(i));
        i = i + 1;
    }
    assert(r@ =~= s@);
    r
}

/// Whether `a` and `b` hold the same characters.
pub fn str_eq(a: &str, b: &str) -> (r: bool)
    ensures
        r == (a@ == b@),
{
    let n = a.unicode_len();
    if n != b.unicode_len() {
        return false;
    }
    let mut i: usize = 0;
    while i < n
        invariant
            n == a@.len() == b@.len(),
            i <= n,
            a@.take(i as int) == b@.take(i as int),
        decreases n - i,
    {
        if a.get_char(i) != b.get_char(i) {
            assert(a@[i as int] != b@[i as int]);
            return false;
        }
        assert(a@.take(i + 1) =~= a@.take(i as int).push(a@[i as int]));
        assert(b@.take(i + 1) =~= b@.take(i as int).push(b@[i as int]));
        i = i + 1;
    }
    assert(a@ =~= a@.take(n as int));
    assert(b@ =~= b@.take(n as int));
    true
}

/// The upper-case hex digit of a value below sixteen.
pub open spec fn hex_digit(v: u8) -> char {
    if v < 10 {
        (48 + v) as u8 as char
    } else {
        (55 + v) as u8 as char
    }
}

/// Two upper-case hex digits per byte, most significant digit first.
pub open spec fn hex_text(b: Seq<u8>) -> Seq<char>
    decreases b.len(),
{
    if b.len() == 0 {
        Seq::empty()
    } else {
        hex_text(b.drop_last()) + seq![hex_digit(b.last() / 16), hex_digit(b.last() % 16)]
    }
}

fn hex_char(v: u8) -> (c: char)
    requires
        v < 16,
    ensures
        c == hex_digit(v),
{
    if v < 10 {
        (48 + v) as char
    } else {
        (55 + v) as char
    }
}

/// The bytes as upper-case hex, two digits each.
pub fn to_hex_string(bytes: &[u8]) -> (r: String)
    ensures
        r@ == hex_text(bytes@),
        r@.len() == 2 * bytes@.len(),
{
    let n = bytes.len();
    let mut out: Vec<char> = Vec::new();
    let mut i: usize = 0;
    while i < n
        invariant
            n == bytes@.len(),
            i <= n,
            out@ == hex_text(bytes@.take(i as int)),
            out@.len() == 2 * i,
        decreases n - i,
    {
        let b = bytes[i];
        out.push(hex_char(b / 16));
        out.push(hex_char(b % 16));
        assert(bytes@.take(i + 1).drop_last() =~= bytes@.take(i as int));
        i = i + 1;
    }
    assert(bytes@.take(n as int) =~= bytes@);
    string_from_chars(&out)
}

/// `component` with each path separator replaced by `_`, so that it can stand
/// as one file name. Every other character stays as it is. `/` is replaced on
/// every platform, a backslash where the platform treats it as a separator.
pub fn sanitized(component: &str) -> (r: String)
    ensures
        r@.len() == component@.len(),
        forall|i: int|
            0 <= i < r@.len() ==> {
                &&& (component@[i] == '/' ==> r@[i] == '_')
                &&& (component@[i] != '/' && component@[i] != '\\' ==> r@[i] == component@[i])
                &&& (r@[i] == component@[i] || r@[i] == '_')
            },
{
    let cs = chars_of(component);
    let n = cs.len();
    let mut out: Vec<char> = Vec::with_capacity(n);
    let mut i: usize = 0;
    while i < n
        invariant
            n == cs@.len(),
            cs@ == component@,
            i <= n,
            out@.len() == i,
            forall|j: int|
                0 <= j < i ==> {
                    &&& (cs@[j] == '/' ==> out@[j] == '_')
                    &&& (cs@[j] != '/' && cs@[j] != '\\' ==> out@[j] == cs@[j])
                    &&& (out@[j] == cs@[j] || out@[j] == '_')
                },
        decreases n - i,
    {
        let c = cs[i];
        if is_path_separator(c) {
            out.push('_');
        } else {
            out.push(c);
        }
        i = i + 1;
    }
    string_from_chars(&out)
}

/// Sanitising a component that holds no backslash a second time changes nothing:
/// the first pass leaves no `/`, and every other character is kept.
pub proof fn lemma_sanitized_stable(component: Seq<char>, once: Seq<char>, twice: Seq<char>)
    requires
        forall|i: int| 0 <= i < component.len() ==> component[i] != '\\',
        once.len() == component.len(),
        forall|i: int|
            0 <= i < once.len() ==> {
                &&& (component[i] == '/' ==> once[i] == '_')
                &&& (component[i] != '/' && component[i] != '\\' ==> once[i] == component[i])
                &&& (once[i] == component[i] || once[i] == '_')
            },
        twice.len() == once.len(),
        forall|i: int|
            0 <= i < twice.len() ==> {
                &&& (once[i] == '/' ==> twice[i] == '_')
                &&& (once[i] != '/' && once[i] != '\\' ==> twice[i] == once[i])
                &&& (twice[i] == once[i] || twice[i] == '_')
            },
    ensures
        twice == once,
        forall|i: int| 0 <= i < once.len() ==> once[i] != '/',
{
    assert(twice =~= once);
}

/// How decoded entries are written out.
#[derive(Clone, Copy, Debug, PartialEq, Eq, Structural)]
pub enum OutputFormat {
    JSON,
    JSONL,
    CSV,
}

/// The format that a name selects, if any.
pub open spec fn output_format_of(s: Seq<char>) -> Option<OutputFormat> {
    if s == "json"@ {
        Some(OutputFormat::JSON)
    } else if s == "jsonl"@ {
        Some(OutputFormat::JSONL)
    } else if s == "csv"@ {
        Some(OutputFormat::CSV)
    } else {
        None
    }
}

impl OutputFormat {
    /// `json`, `jsonl` or `csv`; nothing for any other name.
    pub fn from_str(s: &str) -> (r: Option<Self>)
        ensures
            r == output_format_of(s@),
    {
        if str_eq(s, "json") {
            Some(OutputFormat::JSON)
        } else if str_eq(s, "jsonl") {
            Some(OutputFormat::JSONL)
        } else if str_eq(s, "csv") {
            Some(OutputFormat::CSV)
        } else {
            None
        }
    }
}

} // verus!

use vstd::prelude::*;

verus! {

/// Unicode's White_Space property.
pub open spec fn is_white_space(c: char) -> bool {
    let n = c as u32;
    (9 <= n && n <= 13) || n == 32 || n == 0x85 || n == 0xa0 || n == 0x1680 || (0x2000 <= n
        && n <= 0x200a) || n == 0x2028 || n == 0x2029 || n == 0x202f || n == 0x205f || n == 0x3000
}

pub open spec fn trim_start(s: Seq<char>) -> Seq<char>
    decreases s.len(),
{
    if s.len() > 0 && is_white_space(s[0]) {
        trim_start(s.drop_first())
    } else {
        s
    }
}

pub open spec fn trim_end(s: Seq<char>) -> Seq<char>
    decreases s.len(),
{
    if s.len() > 0 && is_white_space(s.last()) {
        trim_end(s.drop_last())
    } else {
        s
    }
}

/// `s` without its leading and trailing white space.
pub open spec fn trimmed(s: Seq<char>) -> Seq<char> {
    trim_end(trim_start(s))
}

/// What follows `prefix` in `input`, trimmed; `None` when `input` does not
/// start with `prefix`.
pub open spec fn activation(input: Seq<char>, prefix: Seq<char>) -> Option<Seq<char>> {
    if prefix.is_prefix_of(input) {
        Some(trimmed(input.subrange(prefix.len() as int, input.len() as int)))
    } else {
        None
    }
}

/// Relies on str::strip_prefix: the rest of `s` exactly when `prefix` starts it.
#[verifier::external_body]
fn strip_prefix(s: &str, prefix: &str) -> (r: Option<String>)
    ensures
        r is Some <==> prefix@.is_prefix_of(s@),
        r is Some ==> r->0@ == s@.subrange(prefix@.len() as int, s@.len() as int),
{
    s.strip_prefix(prefix).map(|t| t.to_string())
}

/// Relies on str::trim: drops leading and trailing White_Space characters.
#[verifier::external_body]
fn trim(s: &str) -> (r: String)
    ensures
        r@ == trimmed(s@),
{
    s.trim().to_string()
}

/// The query addressed to this engine: `input` with `prefix` stripped and
/// surrounding white space trimmed, or `None` when `input` does not start with
/// `prefix`.
pub fn strip_activation(input: &str, prefix: &str) -> (r: Option<String>)
    ensures
        match r {
            Some(q) => activation(input@, prefix@) == Some(q@),
            None => activation(input@, prefix@) is None,
        },
{
    match strip_prefix(input, prefix) {
        Some(rest) => Some(trim(rest.as_str())),
        None => None,
    }
}

} // verus!

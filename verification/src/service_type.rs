//! The shape of a DNS-SD service type.
//!
//! A well-formed service type is an underscore-led service name of one to
//! fifteen letters, digits or hyphens, followed by `._tcp` or `._udp`, as in
//! `_http._tcp`.  A subscription for a string of any other shape is rejected
//! synchronously with `BrowseError::MalformedServiceType`.

use vstd::prelude::*;

use vstd::string::StrSliceExecFns;

verus! {

/// Characters allowed inside the service name label: ASCII letters, digits
/// and the hyphen.
pub open spec fn is_label_char(c: char) -> bool {
    ||| ('a' as u32) <= (c as u32) && (c as u32) <= ('z' as u32)
    ||| ('A' as u32) <= (c as u32) && (c as u32) <= ('Z' as u32)
    ||| ('0' as u32) <= (c as u32) && (c as u32) <= ('9' as u32)
    ||| c == '-'
}

/// The five trailing characters are `._tcp` or `._udp`.
pub open spec fn has_protocol_suffix(t: Seq<char>) -> bool {
    &&& t.len() >= 5
    &&& t[t.len() - 5] == '.'
    &&& t[t.len() - 4] == '_'
    &&& {
        ||| (t[t.len() - 3] == 't' && t[t.len() - 2] == 'c' && t[t.len() - 1] == 'p')
        ||| (t[t.len() - 3] == 'u' && t[t.len() - 2] == 'd' && t[t.len() - 1] == 'p')
    }
}

/// A well-formed service type: `_`, then one to fifteen label characters,
/// then `._tcp` or `._udp`.
pub open spec fn valid_service_type(t: Seq<char>) -> bool {
    &&& 7 <= t.len() <= 21
    &&& t[0] == '_'
    &&& has_protocol_suffix(t)
    &&& forall|i: int| 1 <= i < t.len() - 5 ==> is_label_char(#[trigger] t[i])
}

/// Decides whether a character may stand in the service name label.
fn check_label_char(c: char) -> (b: bool)
    ensures
        b == is_label_char(c),
{
    let u = c as u32;
    (('a' as u32) <= u && u <= ('z' as u32)) || (('A' as u32) <= u && u <= ('Z' as u32)) || (('0'
        as u32) <= u && u <= ('9' as u32)) || c == '-'
}

/// Decides whether `s` is a well-formed DNS-SD service type.
pub fn check_service_type(s: &str) -> (b: bool)
    ensures
        b == valid_service_type(s@),
{
    let n = s.unicode_len();
    if n < 7 || n > 21 {
        return false;
    }
    if s.get_char(0) != '_' {
        return false;
    }
    if s.get_char(n - 5) != '.' || s.get_char(n - 4) != '_' {
        return false;
    }
    let a = s.get_char(n - 3);
    let b = s.get_char(n - 2);
    let c = s.get_char(n - 1);
    if !((a == 't' && b == 'c' && c == 'p') || (a == 'u' && b == 'd' && c == 'p')) {
        return false;
    }
    let mut i: usize = 1;
    while i < n - 5
        invariant
            1 <= i <= n - 5,
            7 <= n <= 21,
            n == s@.len(),
            forall|q: int| 1 <= q < i ==> is_label_char(#[trigger] s@[q]),
        decreases n - 5 - i,
    {
        if !check_label_char(s.get_char(i)) {
            return false;
        }
        i += 1;
    }
    true
}

} // verus!

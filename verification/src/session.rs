//! Fresh session ids, drawn by nanoid.

use vstd::prelude::*;

verus! {

/// A character of nanoid's URL-safe alphabet: `A-Za-z0-9_-`.
pub open spec fn is_url_safe_char(c: char) -> bool {
    ||| 'a' <= c && c <= 'z'
    ||| 'A' <= c && c <= 'Z'
    ||| '0' <= c && c <= '9'
    ||| c == '_'
    ||| c == '-'
}

/// The shape of a session id: eight URL-safe characters.
pub open spec fn is_session_id(id: Seq<char>) -> bool {
    &&& id.len() == 8
    &&& forall|i: int| 0 <= i < id.len() ==> is_url_safe_char(#[trigger] id[i])
}

/// Calls `nanoid::format` with `nanoid::rngs::default` (random bytes from
/// the OS), `nanoid::alphabet::SAFE` and length 8, as `nanoid!(8)` expands.
/// Claimed: the id has eight characters, each from the 64-letter alphabet
/// `A-Za-z0-9_-`. Which id comes back is random and not stated. Like the
/// `nanoid!` macro, it panics if the operating system's random source fails.
#[verifier::external_body]
pub(crate) fn new_session_id() -> (res: String)
    ensures
        is_session_id(res@),
{
    nanoid::format(nanoid::rngs::default, &nanoid::alphabet::SAFE, 8)
}

} // verus!

//! Generation of collision-resistant, URL-safe status identifiers.

use vstd::prelude::*;

verus! {

/// The number of characters in a generated identifier.
pub const ID_LEN: usize = 21;

/// Characters a generated identifier may hold: the URL-safe set
/// `A-Z a-z 0-9 _ -`.
pub open spec fn is_id_char(c: char) -> bool {
    ||| c == '_'
    ||| c == '-'
    ||| ('0' as u32) <= (c as u32) && (c as u32) <= ('9' as u32)
    ||| ('a' as u32) <= (c as u32) && (c as u32) <= ('z' as u32)
    ||| ('A' as u32) <= (c as u32) && (c as u32) <= ('Z' as u32)
}

/// Relies on `nanoid::format` called with `nanoid::rngs::default` and the
/// 64-symbol alphabet `nanoid::alphabet::SAFE`: with a power-of-two
/// alphabet it pushes exactly `size` characters, each drawn from that
/// alphabet. The value itself is random and nothing more is assumed of it.
#[verifier::external_body]
pub(crate) fn new_id() -> (r: String)
    ensures
        r@.len() == ID_LEN,
        forall|i: int| 0 <= i < r@.len() ==> is_id_char(r@[i]),
{
    nanoid::format(nanoid::rngs::default, &nanoid::alphabet::SAFE, ID_LEN)
}

} // verus!

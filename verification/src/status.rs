//! The status record type, its public projection, and body validation.

use vstd::prelude::*;
use vstd::string::StrSliceExecFns;
use crate::clock::now_micros;
use crate::idgen::new_id;

verus! {

/// The longest body a status may carry, in characters.
pub const MAX_BODY_LEN: usize = 500;

/// Mathematical model of a stored status record.
pub ghost struct StatusView {
    pub id: Seq<char>,
    pub body: Seq<char>,
    pub created: int,
    pub modified: int,
    pub deleted: Option<int>,
}

/// Mathematical model of the externally visible projection: no deletion
/// stamp exists here at all.
pub ghost struct PublicView {
    pub id: Seq<char>,
    pub body: Seq<char>,
    pub created: int,
    pub modified: int,
}

/// A status as the store holds it. `deleted` is the tombstone: `None`
/// means live, `Some(t)` means tombstoned at instant `t`.
#[derive(Debug)]
pub struct StatusRecord {
    pub id: String,
    pub body: String,
    pub created: i64,
    pub modified: i64,
    pub deleted: Option<i64>,
}

/// The externally visible projection of a live status. It carries no
/// deletion stamp in any form.
#[derive(Debug)]
pub struct StatusPublic {
    pub id: String,
    pub body: String,
    pub created: i64,
    pub modified: i64,
}

impl View for StatusRecord {
    type V = StatusView;

    open spec fn view(&self) -> StatusView {
        StatusView {
            id: self.id@,
            body: self.body@,
            created: self.created as int,
            modified: self.modified as int,
            deleted: match self.deleted {
                Some(t) => Some(t as int),
                None => None,
            },
        }
    }
}

impl View for StatusPublic {
    type V = PublicView;

    open spec fn view(&self) -> PublicView {
        PublicView {
            id: self.id@,
            body: self.body@,
            created: self.created as int,
            modified: self.modified as int,
        }
    }
}

/// What the projection of a record is: its identity, body and both
/// timestamps, and nothing else. In particular the deletion stamp has no
/// image under this map.
pub open spec fn pub_of(r: StatusView) -> PublicView {
    PublicView { id: r.id, body: r.body, created: r.created, modified: r.modified }
}

/// A record is live while it carries no tombstone.
pub open spec fn is_live(r: StatusView) -> bool {
    r.deleted is None
}

/// The whitespace characters that body trimming recognises: Unicode's
/// `White_Space` set, the one `str::trim` and `char::is_whitespace` go
/// by.
pub open spec fn is_space_char(c: char) -> bool {
    let u = c as u32;
    ||| u == 0x20
    ||| (0x09 <= u && u <= 0x0D)
    ||| u == 0x85
    ||| u == 0xA0
    ||| u == 0x1680
    ||| (0x2000 <= u && u <= 0x200A)
    ||| u == 0x2028
    ||| u == 0x2029
    ||| u == 0x202F
    ||| u == 0x205F
    ||| u == 0x3000
}

/// A body is blank when every character is whitespace; the empty body is
/// blank.
pub open spec fn is_blank(s: Seq<char>) -> bool {
    forall|i: int| 0 <= i < s.len() ==> is_space_char(s[i])
}

/// A body is acceptable when it is not blank and fits the length bound.
pub open spec fn body_ok(s: Seq<char>) -> bool {
    !is_blank(s) && s.len() <= MAX_BODY_LEN
}

/// Decides whether one character counts as whitespace for trimming.
pub fn is_space(c: char) -> (r: bool)
    ensures
        r == is_space_char(c),
{
    let u = c as u32;
    u == 0x20 || (0x09 <= u && u <= 0x0D) || u == 0x85 || u == 0xA0 || u == 0x1680 || (0x2000
        <= u && u <= 0x200A) || u == 0x2028 || u == 0x2029 || u == 0x202F || u == 0x205F || u
        == 0x3000
}

/// Decides whether a body may be stored: non-blank and within the length
/// bound.
pub fn body_is_valid(s: &str) -> (r: bool)
    ensures
        r == body_ok(s@),
{
    let len = s.unicode_len();
    if len > MAX_BODY_LEN {
        return false;
    }
    let mut i: usize = 0;
    while i < len
        invariant
            len == s@.len(),
            len <= MAX_BODY_LEN,
            i <= len,
            forall|j: int| 0 <= j < i ==> is_space_char(s@[j]),
        decreases len - i,
    {
        if !is_space(s.get_char(i)) {
            assert(!is_space_char(s@[i as int]));
            return true;
        }
        i += 1;
    }
    false
}

impl StatusRecord {
    /// Create a status from a body: a fresh random identifier, both
    /// timestamps set to the same present instant, and no tombstone. The
    /// body is taken as given; the store refuses invalid ones before
    /// persisting.
    pub fn new(body: String) -> (r: Self)
        ensures
            r@.body == body@,
            r@.modified == r@.created,
            r@.deleted is None,
            r@.id.len() == crate::idgen::ID_LEN,
            forall|i: int| 0 <= i < r@.id.len() ==> crate::idgen::is_id_char(r@.id[i]),
    {
        let id = new_id();
        let now: i64 = now_micros();
        Self { id, body, created: now, modified: now, deleted: None }
    }

    /// The public projection of this record, leaving the record in place.
    pub fn to_public(&self) -> (p: StatusPublic)
        ensures
            p@ == pub_of(self@),
    {
        StatusPublic {
            id: self.id.clone(),
            body: self.body.clone(),
            created: self.created,
            modified: self.modified,
        }
    }
}

impl From<StatusRecord> for StatusPublic {
    /// The public projection of a record, consuming it.
    fn from(value: StatusRecord) -> (p: StatusPublic) {
        StatusPublic {
            id: value.id,
            body: value.body,
            created: value.created,
            modified: value.modified,
        }
    }
}

impl vstd::std_specs::convert::FromSpecImpl<StatusRecord> for StatusPublic {
    open spec fn obeys_from_spec() -> bool {
        true
    }

    open spec fn from_spec(value: StatusRecord) -> StatusPublic {
        StatusPublic {
            id: value.id,
            body: value.body,
            created: value.created,
            modified: value.modified,
        }
    }
}

} // verus!

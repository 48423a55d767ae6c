//! The status store: the consistency-bearing component. It owns create,
//! read, update, soft-delete and list, and maintains the record
//! invariants: identifiers unique across every record ever created,
//! `modified` never behind `created`, bodies valid, tombstones terminal,
//! and the records held in listing order.

use vstd::prelude::*;
use crate::clock::now_micros;
use crate::idgen::{is_id_char, ID_LEN};
use crate::order::{
    Key, key_lt, key_lt_exec, lemma_key_trans, lemma_key_trichotomy, str_eq,
};
use crate::status::{
    body_is_valid, body_ok, is_live, pub_of, PublicView, StatusPublic, StatusRecord, StatusView,
};

verus! {

/// Why a store operation failed.
#[derive(Clone, Copy, Debug, PartialEq, Eq, Structural)]
pub enum StoreError {
    /// The body is blank or over the length bound; the request itself is
    /// at fault.
    InvalidInput,
    /// No live record carries that identifier.
    NotFound,
    /// The record changed since the caller last read it; re-fetch and
    /// retry with a fresh expectation.
    Conflict,
    /// The backend could not be reached; possibly transient.
    Unavailable,
    /// An invariant was about to break; not retryable.
    Internal,
}

/// The position of a record in the listing order.
pub open spec fn key_of(r: StatusView) -> Key {
    Key { created: r.created, id: r.id }
}

/// The models of a sequence of records.
pub open spec fn views_of(s: Seq<StatusRecord>) -> Seq<StatusView> {
    s.map_values(|r: StatusRecord| r@)
}

/// The models of a sequence of projections.
pub open spec fn pub_views(s: Seq<StatusPublic>) -> Seq<PublicView> {
    s.map_values(|p: StatusPublic| p@)
}

/// Records stand in strictly ascending listing order.
pub open spec fn sorted(s: Seq<StatusView>) -> bool {
    forall|i: int, j: int| 0 <= i < j < s.len() ==> key_lt(key_of(s[i]), key_of(s[j]))
}

/// No identifier occurs twice, tombstoned records included.
pub open spec fn ids_unique(s: Seq<StatusView>) -> bool {
    forall|i: int, j: int| 0 <= i < j < s.len() ==> s[i].id != s[j].id
}

/// Every record carries a valid body and stamps in order.
pub open spec fn rec_wf(r: StatusView) -> bool {
    body_ok(r.body) && r.created <= r.modified
}

/// The store invariant.
pub open spec fn store_wf(s: Seq<StatusView>) -> bool {
    &&& sorted(s)
    &&& ids_unique(s)
    &&& forall|i: int| 0 <= i < s.len() ==> rec_wf(#[trigger] s[i])
}

/// Some record, live or tombstoned, carries this identifier.
pub open spec fn contains_id(s: Seq<StatusView>, id: Seq<char>) -> bool {
    exists|i: int| 0 <= i < s.len() && #[trigger] s[i].id == id
}

/// The record at `i` is live and carries this identifier.
pub open spec fn live_at(s: Seq<StatusView>, i: int, id: Seq<char>) -> bool {
    0 <= i < s.len() && s[i].id == id && is_live(s[i])
}

/// Some live record carries this identifier.
pub open spec fn has_live(s: Seq<StatusView>, id: Seq<char>) -> bool {
    exists|i: int| #[trigger] live_at(s, i, id)
}

/// The record a fresh create persists: both stamps at the same instant,
/// no tombstone.
pub open spec fn new_rec(id: Seq<char>, body: Seq<char>, now: int) -> StatusView {
    StatusView { id, body, created: now, modified: now, deleted: None }
}

/// The stamp an update advances to: the present instant, or one past the
/// old stamp when the clock has not moved past it, saturating at the
/// largest stamp.
pub open spec fn next_stamp(m: int, now: int) -> int {
    if now > m {
        now
    } else if m < i64::MAX {
        m + 1
    } else {
        m
    }
}

/// The record after a successful update: new body, advanced stamp,
/// identity and creation stamp untouched.
pub open spec fn updated_rec(r: StatusView, body: Seq<char>, now: int) -> StatusView {
    StatusView {
        id: r.id,
        body,
        created: r.created,
        modified: next_stamp(r.modified, now),
        deleted: r.deleted,
    }
}

/// The record after deletion: only the tombstone is set.
pub open spec fn deleted_rec(r: StatusView, now: int) -> StatusView {
    StatusView {
        id: r.id,
        body: r.body,
        created: r.created,
        modified: r.modified,
        deleted: Some(now),
    }
}

/// What a read must return: the projection of the live record under the
/// identifier, or `NotFound` when none is live.
pub open spec fn read_outcome(
    s: Seq<StatusView>,
    id: Seq<char>,
    r: Result<StatusPublic, StoreError>,
) -> bool {
    if has_live(s, id) {
        exists|i: int|
            #[trigger] live_at(s, i, id) && (r matches Ok(p) && p@ == pub_of(s[i]))
    } else {
        r == Err::<StatusPublic, StoreError>(StoreError::NotFound)
    }
}

/// What a create must do: reject an invalid body and touch nothing;
/// refuse a colliding identifier and touch nothing; otherwise persist
/// exactly one new record, in order, and return its projection.
pub open spec fn create_outcome(
    pre: Seq<StatusView>,
    post: Seq<StatusView>,
    id: Seq<char>,
    body: Seq<char>,
    now: int,
    r: Result<StatusPublic, StoreError>,
) -> bool {
    if !body_ok(body) {
        r == Err::<StatusPublic, StoreError>(StoreError::InvalidInput) && post == pre
    } else if contains_id(pre, id) {
        r == Err::<StatusPublic, StoreError>(StoreError::Internal) && post == pre
    } else {
        &&& exists|i: int| 0 <= i <= pre.len() && post == #[trigger] pre.insert(i, new_rec(id, body, now))
        &&& r matches Ok(p) && p@ == pub_of(new_rec(id, body, now))
    }
}

/// What a successful update leaves behind: record `i` rewritten, nothing
/// else touched, the new projection returned.
pub open spec fn update_success(
    pre: Seq<StatusView>,
    post: Seq<StatusView>,
    i: int,
    body: Seq<char>,
    now: int,
    r: Result<StatusPublic, StoreError>,
) -> bool {
    &&& post == pre.update(i, updated_rec(pre[i], body, now))
    &&& r matches Ok(p) && p@ == pub_of(updated_rec(pre[i], body, now))
}

/// What an update must do: reject an invalid body; report `NotFound` for
/// an absent or tombstoned identifier; under a stale expectation report
/// `Conflict` and write nothing; otherwise rewrite the one record.
pub open spec fn update_outcome(
    pre: Seq<StatusView>,
    post: Seq<StatusView>,
    id: Seq<char>,
    body: Seq<char>,
    expected: Option<int>,
    now: int,
    r: Result<StatusPublic, StoreError>,
) -> bool {
    if !body_ok(body) {
        r == Err::<StatusPublic, StoreError>(StoreError::InvalidInput) && post == pre
    } else if !has_live(pre, id) {
        r == Err::<StatusPublic, StoreError>(StoreError::NotFound) && post == pre
    } else {
        exists|i: int|
            #[trigger] live_at(pre, i, id) && match expected {
                Some(t) => {
                    if t != pre[i].modified {
                        r == Err::<StatusPublic, StoreError>(StoreError::Conflict) && post == pre
                    } else {
                        update_success(pre, post, i, body, now, r)
                    }
                },
                None => update_success(pre, post, i, body, now, r),
            }
    }
}

/// What a delete must do: report `NotFound` for an absent or already
/// tombstoned identifier; otherwise set the one tombstone.
pub open spec fn delete_outcome(
    pre: Seq<StatusView>,
    post: Seq<StatusView>,
    id: Seq<char>,
    now: int,
    r: Result<(), StoreError>,
) -> bool {
    if !has_live(pre, id) {
        r == Err::<(), StoreError>(StoreError::NotFound) && post == pre
    } else {
        exists|i: int|
            #[trigger] live_at(pre, i, id)
                && post == pre.update(i, deleted_rec(pre[i], now))
                && r == Ok::<(), StoreError>(())
    }
}

/// The model of an optional expectation stamp.
pub open spec fn opt_stamp(o: Option<i64>) -> Option<int> {
    match o {
        Some(t) => Some(t as int),
        None => None,
    }
}

/// A pagination cursor: the position of the last record of the previous
/// page in the listing order. A page resumes strictly after it.
#[derive(Debug)]
pub struct Cursor {
    pub created: i64,
    pub id: String,
}

impl View for Cursor {
    type V = Key;

    open spec fn view(&self) -> Key {
        Key { created: self.created as int, id: self.id@ }
    }
}

/// The model of an optional cursor.
pub open spec fn cursor_key(c: Option<&Cursor>) -> Option<Key> {
    match c {
        Some(cur) => Some(cur@),
        None => None,
    }
}

/// The position of a projection in the listing order.
pub open spec fn key_of_pub(p: PublicView) -> Key {
    Key { created: p.created, id: p.id }
}

/// Whether a record belongs to the pages after cursor `c`: live, and
/// strictly after the cursor in the listing order.
pub open spec fn passes(r: StatusView, c: Option<Key>) -> bool {
    is_live(r) && match c {
        Some(k) => key_lt(k, key_of(r)),
        None => true,
    }
}

/// The projections of the live records after cursor `c`, reading `s`
/// from position `i` on.
pub open spec fn page_from(s: Seq<StatusView>, c: Option<Key>, i: int) -> Seq<PublicView>
    decreases s.len() - i,
{
    if i < 0 || i >= s.len() {
        Seq::empty()
    } else if passes(s[i], c) {
        seq![pub_of(s[i])] + page_from(s, c, i + 1)
    } else {
        page_from(s, c, i + 1)
    }
}

/// Every projection of a live record after cursor `c`, in listing order.
pub open spec fn live_after(s: Seq<StatusView>, c: Option<Key>) -> Seq<PublicView> {
    page_from(s, c, 0)
}

/// The model of an optional next-page cursor.
pub open spec fn next_key(c: Option<Cursor>) -> Option<Key> {
    match c {
        Some(cur) => Some(cur@),
        None => None,
    }
}

/// What a list call must return for cursor `c` and page size `limit`:
/// the next `limit` projections of the live records past the cursor, in
/// listing order, and a cursor on the page's last record exactly when
/// further live records follow.
pub open spec fn list_outcome(
    s: Seq<StatusView>,
    c: Option<Key>,
    limit: int,
    page: Seq<PublicView>,
    next: Option<Key>,
) -> bool {
    let la = live_after(s, c);
    if la.len() <= limit {
        page == la && next is None
    } else {
        &&& page == la.take(limit)
        &&& next matches Some(k) && k == key_of_pub(la[limit - 1])
    }
}

/// The store. Records are held in listing order; nothing is ever
/// physically erased.
#[derive(Debug)]
pub struct StatusStore {
    pub records: Vec<StatusRecord>,
}

impl View for StatusStore {
    type V = Seq<StatusView>;

    open spec fn view(&self) -> Seq<StatusView> {
        views_of(self.records@)
    }
}

proof fn lemma_views_insert(s: Seq<StatusRecord>, i: int, rec: StatusRecord)
    requires
        0 <= i <= s.len(),
    ensures
        views_of(s.insert(i, rec)) =~= views_of(s).insert(i, rec@),
{
    s.insert_ensures(i, rec);
    views_of(s).insert_ensures(i, rec@);
}

proof fn lemma_views_remove(s: Seq<StatusRecord>, i: int)
    requires
        0 <= i < s.len(),
    ensures
        views_of(s.remove(i)) =~= views_of(s).remove(i),
{
    s.remove_ensures(i);
    views_of(s).remove_ensures(i);
}

impl StatusStore {
    /// An empty store.
    pub fn new() -> (s: Self)
        ensures
            s@.len() == 0,
            s.wf(),
    {
        StatusStore { records: Vec::new() }
    }

    /// The store invariant: constructors establish it, every operation
    /// preserves it.
    pub open spec fn wf(&self) -> bool {
        store_wf(self@)
    }

    /// The index of the live record under `id`, if any.
    fn find_live(&self, id: &str) -> (r: Option<usize>)
        ensures
            match r {
                Some(i) => live_at(self@, i as int, id@),
                None => !has_live(self@, id@),
            },
    {
        let n = self.records.len();
        let mut i: usize = 0;
        while i < n
            invariant
                n == self.records.len(),
                i <= n,
                forall|j: int| 0 <= j < i ==> !live_at(self@, j, id@),
            decreases n - i,
        {
            let rec = &self.records[i];
            if rec.deleted.is_none() && str_eq(rec.id.as_str(), id) {
                return Some(i);
            }
            i += 1;
        }
        None
    }

    /// Whether any record, live or tombstoned, carries `id`.
    fn contains_id_exec(&self, id: &str) -> (r: bool)
        ensures
            r == contains_id(self@, id@),
    {
        let n = self.records.len();
        let mut i: usize = 0;
        while i < n
            invariant
                n == self.records.len(),
                i <= n,
                forall|j: int| 0 <= j < i ==> self@[j].id != id@,
            decreases n - i,
        {
            if str_eq(self.records[i].id.as_str(), id) {
                assert(self@[i as int].id == id@);
                return true;
            }
            i += 1;
        }
        false
    }

    /// Look up a live status by identifier. A tombstoned record is
    /// indistinguishable from an absent one. No side effects.
    pub fn read(&self, id: &str) -> (r: Result<StatusPublic, StoreError>)
        ensures
            read_outcome(self@, id@, r),
    {
        match self.find_live(id) {
            Some(i) => Ok(self.records[i].to_public()),
            None => Err(StoreError::NotFound),
        }
    }

    /// Persist a fresh record, already stamped, at its position in the
    /// listing order; refuse a colliding identifier.
    fn insert_fresh(&mut self, rec: StatusRecord) -> (r: Result<StatusPublic, StoreError>)
        requires
            old(self).wf(),
            body_ok(rec@.body),
            rec@.modified == rec@.created,
            rec@.deleted is None,
        ensures
            final(self).wf(),
            create_outcome(
                old(self)@,
                final(self)@,
                rec@.id,
                rec@.body,
                rec@.created,
                r,
            ),
    {
        if self.contains_id_exec(rec.id.as_str()) {
            return Err(StoreError::Internal);
        }
        let p = rec.to_public();
        let ghost s0 = self@;
        let n = self.records.len();
        let mut i: usize = 0;
        loop
            invariant
                self.wf(),
                self@ == s0,
                n == self.records.len(),
                i <= n,
                forall|j: int| 0 <= j < i ==> key_lt(key_of(s0[j]), key_of(rec@)),
            ensures
                self@ == s0,
                i <= n,
                forall|j: int| 0 <= j < i ==> key_lt(key_of(s0[j]), key_of(rec@)),
                i < n ==> !key_lt(key_of(s0[i as int]), key_of(rec@)),
            decreases n - i,
        {
            if i >= n {
                break;
            }
            let cur = &self.records[i];
            if !key_lt_exec(cur.created, cur.id.as_str(), rec.created, rec.id.as_str()) {
                break;
            }
            i += 1;
        }
        proof {
            let kr = key_of(rec@);
            assert forall|j: int| i <= j < n implies key_lt(kr, key_of(s0[j])) by {
                assert(s0[j].id != rec@.id);
                assert(s0[i as int].id != rec@.id);
                lemma_key_trichotomy(key_of(s0[i as int]), kr);
                if j > i {
                    assert(key_lt(key_of(s0[i as int]), key_of(s0[j])));
                    lemma_key_trans(kr, key_of(s0[i as int]), key_of(s0[j]));
                }
            }
        }
        let ghost recs0 = self.records@;
        self.records.insert(i, rec);
        proof {
            let t = s0.insert(i as int, rec@);
            lemma_views_insert(recs0, i as int, rec);
            assert(self@ =~= t);
            s0.insert_ensures(i as int, rec@);
            let ii = i as int;
            assert forall|a: int| 0 <= a < s0.len() implies t[if a < ii {
                a
            } else {
                a + 1
            }] == s0[a] by {}
            assert forall|a: int, b: int| 0 <= a < b < t.len() implies key_lt(
                key_of(t[a]),
                key_of(t[b]),
            ) by {
                if b < ii {
                    assert(t[a] == s0[a] && t[b] == s0[b]);
                    assert(key_lt(key_of(s0[a]), key_of(s0[b])));
                } else if a < ii && b == ii {
                    assert(t[a] == s0[a] && t[b] == rec@);
                } else if a < ii && b > ii {
                    assert(t[a] == s0[a] && t[b] == s0[b - 1]);
                    assert(key_lt(key_of(s0[a]), key_of(s0[b - 1])));
                } else if a == ii {
                    assert(t[a] == rec@ && t[b] == s0[b - 1]);
                    assert(key_lt(key_of(rec@), key_of(s0[b - 1])));
                } else {
                    assert(t[a] == s0[a - 1] && t[b] == s0[b - 1]);
                    assert(key_lt(key_of(s0[a - 1]), key_of(s0[b - 1])));
                }
            }
            assert forall|a: int, b: int| 0 <= a < b < t.len() implies t[a].id != t[b].id by {
                if b < ii {
                    assert(t[a] == s0[a] && t[b] == s0[b]);
                } else if a < ii && b == ii {
                    assert(t[a] == s0[a] && t[b] == rec@);
                    assert(s0[a].id != rec@.id);
                } else if a < ii && b > ii {
                    assert(t[a] == s0[a] && t[b] == s0[b - 1]);
                } else if a == ii {
                    assert(t[a] == rec@ && t[b] == s0[b - 1]);
                    assert(s0[b - 1].id != rec@.id);
                } else {
                    assert(t[a] == s0[a - 1] && t[b] == s0[b - 1]);
                }
            }
            assert forall|a: int| 0 <= a < t.len() implies rec_wf(#[trigger] t[a]) by {
                if a < ii {
                    assert(t[a] == s0[a]);
                } else if a == ii {
                    assert(t[a] == rec@);
                } else {
                    assert(t[a] == s0[a - 1]);
                }
            }
            assert(store_wf(t));
            assert(rec@ == new_rec(rec@.id, rec@.body, rec@.created));
            assert(0 <= ii <= s0.len() && self@ == s0.insert(ii, new_rec(rec@.id, rec@.body, rec@.created)));
        }
        Ok(p)
    }

    /// Create a status from a body: reject a blank or oversized body
    /// outright; otherwise persist exactly one new record under a fresh
    /// random identifier, both stamps at the present instant, and return
    /// its projection. No pre-existing record is touched.
    pub fn create(&mut self, body: String) -> (r: Result<StatusPublic, StoreError>)
        requires
            old(self).wf(),
        ensures
            final(self).wf(),
            exists|id: Seq<char>, now: int|
                id.len() == ID_LEN && (forall|i: int| 0 <= i < id.len() ==> is_id_char(id[i]))
                    && #[trigger] create_outcome(
                    old(self)@,
                    final(self)@,
                    id,
                    body@,
                    now,
                    r,
                ),
    {
        if !body_is_valid(body.as_str()) {
            proof {
                let id0 = Seq::<char>::new(ID_LEN as nat, |_i: int| 'a');
                assert(forall|i: int| 0 <= i < id0.len() ==> is_id_char(#[trigger] id0[i]));
                assert(id0.len() == ID_LEN);
                assert(create_outcome(
                    self@,
                    self@,
                    id0,
                    body@,
                    0,
                    Err::<StatusPublic, StoreError>(StoreError::InvalidInput),
                ));
            }
            return Err(StoreError::InvalidInput);
        }
        let rec = StatusRecord::new(body);
        self.insert_fresh(rec)
    }

    /// Create a status under a caller-chosen identifier and instant:
    /// exactly what `create` does once the identifier and the clock
    /// reading are fixed.
    pub fn create_at(&mut self, id: String, body: String, now: i64) -> (r: Result<
        StatusPublic,
        StoreError,
    >)
        requires
            old(self).wf(),
        ensures
            final(self).wf(),
            create_outcome(old(self)@, final(self)@, id@, body@, now as int, r),
    {
        if !body_is_valid(body.as_str()) {
            return Err(StoreError::InvalidInput);
        }
        let rec = StatusRecord { id, body, created: now, modified: now, deleted: None };
        self.insert_fresh(rec)
    }

    /// Replace the record at `i` by `rec`, which must keep its key and
    /// its identifier.
    fn splice(&mut self, i: usize, rec: StatusRecord)
        requires
            old(self).wf(),
            i < old(self)@.len(),
            key_of(rec@) == key_of(old(self)@[i as int]),
            rec@.id == old(self)@[i as int].id,
            rec_wf(rec@),
        ensures
            final(self).wf(),
            final(self)@ == old(self)@.update(i as int, rec@),
    {
        let ghost s0 = self@;
        let ghost recs0 = self.records@;
        let _old_rec = self.records.remove(i);
        let ghost recs1 = self.records@;
        self.records.insert(i, rec);
        proof {
            let ii = i as int;
            lemma_views_remove(recs0, ii);
            lemma_views_insert(recs1, ii, rec);
            let t = s0.update(ii, rec@);
            s0.remove_ensures(ii);
            s0.remove(ii).insert_ensures(ii, rec@);
            assert forall|j: int| 0 <= j < t.len() implies self@[j] == t[j] by {
                if j < ii {
                    assert(s0.remove(ii).insert(ii, rec@)[j] == s0.remove(ii)[j]);
                } else if j > ii {
                    assert(s0.remove(ii).insert(ii, rec@)[j] == s0.remove(ii)[j - 1]);
                    assert(s0.remove(ii)[j - 1] == s0[j]);
                }
            }
            assert(self@ =~= t);
            assert forall|a: int, b: int| 0 <= a < b < t.len() implies key_lt(
                key_of(t[a]),
                key_of(t[b]),
            ) && t[a].id != t[b].id by {
                assert(key_lt(key_of(s0[a]), key_of(s0[b])));
                assert(s0[a].id != s0[b].id);
            }
            assert forall|a: int| 0 <= a < t.len() implies rec_wf(#[trigger] t[a]) by {
                assert(rec_wf(s0[a]));
            }
            assert(store_wf(t));
        }
    }

    /// Update the body of the live status under `id`. A blank or
    /// oversized body is rejected outright; an absent or tombstoned
    /// identifier reports `NotFound`; a supplied expectation that does
    /// not match the record's `modified` stamp reports `Conflict` and
    /// writes nothing; otherwise the body is replaced, the stamp
    /// advances strictly, and the new projection is returned. `created`
    /// and `id` are untouched.
    pub fn update_at(
        &mut self,
        id: &str,
        new_body: String,
        expected_modified: Option<i64>,
        now: i64,
    ) -> (r: Result<StatusPublic, StoreError>)
        requires
            old(self).wf(),
        ensures
            final(self).wf(),
            update_outcome(
                old(self)@,
                final(self)@,
                id@,
                new_body@,
                opt_stamp(expected_modified),
                now as int,
                r,
            ),
    {
        if !body_is_valid(new_body.as_str()) {
            return Err(StoreError::InvalidInput);
        }
        let ghost s0 = self@;
        match self.find_live(id) {
            None => Err(StoreError::NotFound),
            Some(i) => {
                let cur_modified = self.records[i].modified;
                if let Some(t) = expected_modified {
                    if t != cur_modified {
                        return Err(StoreError::Conflict);
                    }
                }
                let new_modified: i64 = if now > cur_modified {
                    now
                } else if cur_modified < i64::MAX {
                    cur_modified + 1
                } else {
                    cur_modified
                };
                let old_rec = &self.records[i];
                let rec = StatusRecord {
                    id: old_rec.id.clone(),
                    body: new_body,
                    created: old_rec.created,
                    modified: new_modified,
                    deleted: old_rec.deleted,
                };
                let p = rec.to_public();
                proof {
                    assert(rec@ == updated_rec(s0[i as int], rec@.body, now as int));
                }
                self.splice(i, rec);
                Ok(p)
            },
        }
    }

    /// Tombstone the live status under `id`. An absent or already
    /// tombstoned identifier reports `NotFound`; otherwise the deletion
    /// stamp is set and the record becomes permanently invisible to
    /// read, update and list. Nothing is physically erased.
    pub fn delete_at(&mut self, id: &str, now: i64) -> (r: Result<(), StoreError>)
        requires
            old(self).wf(),
        ensures
            final(self).wf(),
            delete_outcome(old(self)@, final(self)@, id@, now as int, r),
    {
        let ghost s0 = self@;
        match self.find_live(id) {
            None => Err(StoreError::NotFound),
            Some(i) => {
                let old_rec = &self.records[i];
                let rec = StatusRecord {
                    id: old_rec.id.clone(),
                    body: old_rec.body.clone(),
                    created: old_rec.created,
                    modified: old_rec.modified,
                    deleted: Some(now),
                };
                proof {
                    assert(rec@ == deleted_rec(s0[i as int], now as int));
                }
                self.splice(i, rec);
                Ok(())
            },
        }
    }

    /// Whether `rec` belongs to the pages after `cursor`.
    fn passes_exec(rec: &StatusRecord, cursor: Option<&Cursor>) -> (r: bool)
        ensures
            r == passes(rec@, cursor_key(cursor)),
    {
        if rec.deleted.is_some() {
            return false;
        }
        match cursor {
            None => true,
            Some(c) => key_lt_exec(c.created, c.id.as_str(), rec.created, rec.id.as_str()),
        }
    }

    /// One page of live records in listing order, resuming strictly
    /// after `cursor`: the first `limit` projections of the live records
    /// past the cursor, and a cursor for the next page exactly when more
    /// follow. At most `limit` projections are materialized; one further
    /// record is only inspected to decide whether a next page exists.
    pub fn list(&self, cursor: Option<&Cursor>, limit: usize) -> (r: (
        Vec<StatusPublic>,
        Option<Cursor>,
    ))
        requires
            self.wf(),
            1 <= limit,
        ensures
            list_outcome(self@, cursor_key(cursor), limit as int, pub_views(r.0@), next_key(r.1)),
    {
        let ghost s = self@;
        let ghost c = cursor_key(cursor);
        let ghost la = live_after(s, c);
        let n = self.records.len();
        let mut page: Vec<StatusPublic> = Vec::new();
        proof {
            assert(pub_views(page@) + la =~= la);
        }
        let mut i: usize = 0;
        loop
            invariant
                self.wf(),
                s == self@,
                c == cursor_key(cursor),
                la == live_after(s, c),
                n == self.records.len(),
                i <= n,
                1 <= limit,
                page@.len() <= limit,
                la == pub_views(page@) + page_from(s, c, i as int),
            ensures
                i == n,
                page@.len() <= limit,
                la == pub_views(page@) + page_from(s, c, i as int),
            decreases n - i,
        {
            if i >= n {
                break;
            }
            let rec = &self.records[i];
            if Self::passes_exec(rec, cursor) {
                assert(page_from(s, c, i as int) =~= seq![pub_of(s[i as int])] + page_from(
                    s,
                    c,
                    i as int + 1,
                ));
                if page.len() == limit {
                    let last = &page[limit - 1];
                    let next = Cursor { created: last.created, id: last.id.clone() };
                    proof {
                        assert(la.len() == limit + page_from(s, c, i as int).len());
                        assert(page_from(s, c, i as int).len() >= 1);
                        assert(la.take(limit as int) =~= pub_views(page@));
                        assert(pub_views(page@)[limit - 1] == page@[limit - 1]@);
                        assert(next@ == key_of_pub(la[limit - 1]));
                    }
                    return (page, Some(next));
                }
                let ghost page_pre = page@;
                page.push(rec.to_public());
                proof {
                    assert(pub_views(page@) =~= pub_views(page_pre).push(pub_of(s[i as int])));
                    assert(pub_views(page_pre).push(pub_of(s[i as int])) + page_from(
                        s,
                        c,
                        i as int + 1,
                    ) =~= pub_views(page_pre) + page_from(s, c, i as int));
                }
            }
            i += 1;
        }
        proof {
            assert(page_from(s, c, n as int) =~= Seq::<PublicView>::empty());
            assert(la =~= pub_views(page@));
        }
        (page, None)
    }

    /// `update_at` with the clock read at the call.
    pub fn update(
        &mut self,
        id: &str,
        new_body: String,
        expected_modified: Option<i64>,
    ) -> (r: Result<StatusPublic, StoreError>)
        requires
            old(self).wf(),
        ensures
            final(self).wf(),
            exists|now: int|
                #[trigger] update_outcome(
                    old(self)@,
                    final(self)@,
                    id@,
                    new_body@,
                    opt_stamp(expected_modified),
                    now,
                    r,
                ),
    {
        let now = now_micros();
        self.update_at(id, new_body, expected_modified, now)
    }

    /// `delete_at` with the clock read at the call.
    pub fn delete(&mut self, id: &str) -> (r: Result<(), StoreError>)
        requires
            old(self).wf(),
        ensures
            final(self).wf(),
            exists|now: int|
                #[trigger] delete_outcome(old(self)@, final(self)@, id@, now, r),
    {
        let now = now_micros();
        self.delete_at(id, now)
    }
}

} // verus!

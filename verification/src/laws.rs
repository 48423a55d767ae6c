//! The laws the store obeys, each proved from what the operations'
//! contracts state.

use vstd::prelude::*;
use crate::order::{key_lt, lemma_key_irrefl, lemma_key_trans, Key};
use crate::status::{body_ok, is_live, pub_of, StatusPublic, StatusView};
use crate::store::{
    contains_id, create_outcome, delete_outcome, deleted_rec, has_live, key_of, key_of_pub,
    list_outcome, live_after, live_at, new_rec, page_from, passes, read_outcome, store_wf,
    update_outcome, update_success, updated_rec, StoreError,
};

verus! {

/// Law: the public projection carries no trace of deletion: a record
/// and its tombstoned form project identically, the projection being
/// made of identity, body and the two stamps alone.
pub proof fn lemma_projection_hides_deletion(r: StatusView, now: int)
    ensures
        pub_of(deleted_rec(r, now)) == pub_of(r),
{
}

/// Two live records under one identifier are one record.
proof fn lemma_live_at_unique(s: Seq<StatusView>, i: int, j: int, id: Seq<char>)
    requires
        store_wf(s),
        live_at(s, i, id),
        live_at(s, j, id),
    ensures
        i == j,
{
    if i < j {
        assert(s[i].id != s[j].id);
    }
    if j < i {
        assert(s[j].id != s[i].id);
    }
}

/// Law: a freshly created status is immediately readable under its
/// identifier: both the projection create returns and the one a
/// following read returns carry the given body, and their two stamps
/// are equal.
pub proof fn lemma_create_then_read(
    pre: Seq<StatusView>,
    post: Seq<StatusView>,
    id: Seq<char>,
    body: Seq<char>,
    now: int,
    r: Result<StatusPublic, StoreError>,
    r2: Result<StatusPublic, StoreError>,
)
    requires
        store_wf(pre),
        store_wf(post),
        body_ok(body),
        !contains_id(pre, id),
        create_outcome(pre, post, id, body, now, r),
        read_outcome(post, id, r2),
    ensures
        r matches Ok(p) && p@.body == body && p@.modified == p@.created,
        r2 matches Ok(p2) && p2@.body == body && p2@.modified == p2@.created && p2@.id == id,
{
    let nr = new_rec(id, body, now);
    let i = choose|i: int| 0 <= i <= pre.len() && post == #[trigger] pre.insert(i, nr);
    pre.insert_ensures(i, nr);
    assert(post[i] == nr);
    assert(live_at(post, i, id));
    assert(has_live(post, id));
    let j = choose|j: int|
        #[trigger] live_at(post, j, id) && (r2 matches Ok(p2) && p2@ == pub_of(post[j]));
    lemma_live_at_unique(post, i, j, id);
}

/// Law: a blank or oversized body is rejected outright and no record is
/// persisted.
pub proof fn lemma_invalid_create_rejected(
    pre: Seq<StatusView>,
    post: Seq<StatusView>,
    id: Seq<char>,
    body: Seq<char>,
    now: int,
    r: Result<StatusPublic, StoreError>,
)
    requires
        create_outcome(pre, post, id, body, now, r),
        !body_ok(body),
    ensures
        r == Err::<StatusPublic, StoreError>(StoreError::InvalidInput),
        post == pre,
{
}

/// Law: an update aimed at an identifier with no live record reports
/// `NotFound` and writes nothing; an absent identifier and a tombstoned
/// one are alike here.
pub proof fn lemma_update_missing(
    pre: Seq<StatusView>,
    post: Seq<StatusView>,
    id: Seq<char>,
    body: Seq<char>,
    expected: Option<int>,
    now: int,
    r: Result<StatusPublic, StoreError>,
)
    requires
        update_outcome(pre, post, id, body, expected, now, r),
        body_ok(body),
        !has_live(pre, id),
    ensures
        r == Err::<StatusPublic, StoreError>(StoreError::NotFound),
        post == pre,
{
}

/// A tombstoned identifier has no live record at all.
pub proof fn lemma_tombstoned_is_missing(s: Seq<StatusView>, i: int, id: Seq<char>)
    requires
        store_wf(s),
        0 <= i < s.len(),
        s[i].id == id,
        !is_live(s[i]),
    ensures
        !has_live(s, id),
{
    if has_live(s, id) {
        let j = choose|j: int| #[trigger] live_at(s, j, id);
        if i < j {
            assert(s[i].id != s[j].id);
        }
        if j < i {
            assert(s[j].id != s[i].id);
        }
    }
}

/// Law: the optimistic concurrency guard. With a matching expectation
/// an update succeeds and strictly advances the stamp; a second update
/// carrying the now stale expectation is refused with `Conflict` and
/// leaves the store exactly as the first update left it.
pub proof fn lemma_optimistic_guard(
    pre: Seq<StatusView>,
    mid: Seq<StatusView>,
    post: Seq<StatusView>,
    i: int,
    id: Seq<char>,
    body1: Seq<char>,
    body2: Seq<char>,
    t: int,
    now1: int,
    now2: int,
    r1: Result<StatusPublic, StoreError>,
    r2: Result<StatusPublic, StoreError>,
)
    requires
        store_wf(pre),
        store_wf(mid),
        live_at(pre, i, id),
        pre[i].modified == t,
        t < i64::MAX,
        body_ok(body1),
        body_ok(body2),
        update_outcome(pre, mid, id, body1, Some(t), now1, r1),
        update_outcome(mid, post, id, body2, Some(t), now2, r2),
    ensures
        r1 matches Ok(p1) && p1@.modified > t,
        mid == pre.update(i, updated_rec(pre[i], body1, now1)),
        r2 == Err::<StatusPublic, StoreError>(StoreError::Conflict),
        post == mid,
{
    assert(has_live(pre, id));
    let i1 = choose|j: int|
        #[trigger] live_at(pre, j, id) && match Some(t) {
            Some(tt) => {
                if tt != pre[j].modified {
                    r1 == Err::<StatusPublic, StoreError>(StoreError::Conflict) && mid == pre
                } else {
                    update_success(pre, mid, j, body1, now1, r1)
                }
            },
            None => update_success(pre, mid, j, body1, now1, r1),
        };
    lemma_live_at_unique(pre, i, i1, id);
    assert(update_success(pre, mid, i, body1, now1, r1));
    let ur = updated_rec(pre[i], body1, now1);
    assert(mid[i] == ur);
    assert(ur.modified > t);
    assert(live_at(mid, i, id));
    assert(has_live(mid, id));
    let i2 = choose|j: int|
        #[trigger] live_at(mid, j, id) && match Some(t) {
            Some(tt) => {
                if tt != mid[j].modified {
                    r2 == Err::<StatusPublic, StoreError>(StoreError::Conflict) && post == mid
                } else {
                    update_success(mid, post, j, body2, now2, r2)
                }
            },
            None => update_success(mid, post, j, body2, now2, r2),
        };
    lemma_live_at_unique(mid, i, i2, id);
    assert(t != mid[i].modified);
}

/// Law: the first delete of a live identifier succeeds, and from then
/// on the identifier has no live record.
pub proof fn lemma_delete_terminal(
    pre: Seq<StatusView>,
    post: Seq<StatusView>,
    id: Seq<char>,
    now: int,
    r: Result<(), StoreError>,
)
    requires
        store_wf(pre),
        store_wf(post),
        has_live(pre, id),
        delete_outcome(pre, post, id, now, r),
    ensures
        r == Ok::<(), StoreError>(()),
        !has_live(post, id),
{
    let i = choose|j: int|
        #[trigger] live_at(pre, j, id) && post == pre.update(j, deleted_rec(pre[j], now)) && r
            == Ok::<(), StoreError>(());
    assert(post[i] == deleted_rec(pre[i], now));
    lemma_tombstoned_is_missing(post, i, id);
}

/// Law: reading an identifier with no live record reports `NotFound`.
pub proof fn lemma_read_missing(s: Seq<StatusView>, id: Seq<char>, r: Result<
    StatusPublic,
    StoreError,
>)
    requires
        read_outcome(s, id, r),
        !has_live(s, id),
    ensures
        r == Err::<StatusPublic, StoreError>(StoreError::NotFound),
{
}

/// Law: deleting an identifier with no live record reports `NotFound`
/// and writes nothing, so a second delete of the same identifier fails.
pub proof fn lemma_delete_missing(
    pre: Seq<StatusView>,
    post: Seq<StatusView>,
    id: Seq<char>,
    now: int,
    r: Result<(), StoreError>,
)
    requires
        delete_outcome(pre, post, id, now, r),
        !has_live(pre, id),
    ensures
        r == Err::<(), StoreError>(StoreError::NotFound),
        post == pre,
{
}

/// `x` is the projection of some record at or past position `i` that is
/// live and past cursor `c`.
pub open spec fn from_record(
    s: Seq<StatusView>,
    c: Option<Key>,
    i: int,
    x: crate::status::PublicView,
) -> bool {
    exists|k: int| i <= k < s.len() && #[trigger] passes(s[k], c) && x == pub_of(s[k])
}

/// Every projection a page holds comes from a live record past the
/// cursor.
pub proof fn lemma_page_from_elements(s: Seq<StatusView>, c: Option<Key>, i: int)
    ensures
        forall|j: int|
            0 <= j < page_from(s, c, i).len() ==> from_record(
                s,
                c,
                i,
                #[trigger] page_from(s, c, i)[j],
            ),
    decreases s.len() - i,
{
    if i < 0 || i >= s.len() {
    } else {
        lemma_page_from_elements(s, c, i + 1);
        let p = page_from(s, c, i);
        let p1 = page_from(s, c, i + 1);
        assert forall|j: int| 0 <= j < p.len() implies from_record(s, c, i, p[j]) by {
            if passes(s[i], c) && j == 0 {
                assert(p == seq![pub_of(s[i])] + p1);
                assert(p[0] == pub_of(s[i]));
                assert(i <= i < s.len() && passes(s[i], c) && p[0] == pub_of(s[i]));
            } else {
                let jj: int = if passes(s[i], c) {
                    j - 1
                } else {
                    j
                };
                if passes(s[i], c) {
                    assert(p == seq![pub_of(s[i])] + p1);
                    assert(p[j] == p1[jj]);
                } else {
                    assert(p == p1);
                }
                assert(from_record(s, c, i + 1, p1[jj]));
                let k = choose|k: int|
                    i + 1 <= k < s.len() && #[trigger] passes(s[k], c) && p1[jj] == pub_of(s[k]);
                assert(i <= k < s.len() && passes(s[k], c) && p[j] == pub_of(s[k]));
            }
        }
    }
}

/// Law: an identifier with no live record appears on no page: every
/// listed projection carries another identifier.
pub proof fn lemma_missing_never_listed(s: Seq<StatusView>, c: Option<Key>, id: Seq<char>)
    requires
        !has_live(s, id),
    ensures
        forall|j: int|
            0 <= j < live_after(s, c).len() ==> (#[trigger] live_after(s, c)[j]).id != id,
{
    lemma_page_from_elements(s, c, 0);
    let la = live_after(s, c);
    assert forall|j: int| 0 <= j < la.len() implies (#[trigger] la[j]).id != id by {
        assert(from_record(s, c, 0, la[j]));
        let k = choose|k: int|
            0 <= k < s.len() && #[trigger] passes(s[k], c) && la[j] == pub_of(s[k]);
        if la[j].id == id {
            assert(live_at(s, k, id));
        }
    }
}

/// Law: a page is strictly ordered: creation stamp descending, ties
/// broken by identifier ascending.
pub proof fn lemma_page_sorted(s: Seq<StatusView>, c: Option<Key>, i: int)
    requires
        store_wf(s),
    ensures
        forall|a: int, b: int|
            0 <= a < b < page_from(s, c, i).len() ==> key_lt(
                key_of_pub(#[trigger] page_from(s, c, i)[a]),
                key_of_pub(#[trigger] page_from(s, c, i)[b]),
            ),
    decreases s.len() - i,
{
    if i < 0 || i >= s.len() {
    } else {
        lemma_page_sorted(s, c, i + 1);
        lemma_page_from_elements(s, c, i + 1);
        let p = page_from(s, c, i);
        let p1 = page_from(s, c, i + 1);
        if passes(s[i], c) {
            assert(p == seq![pub_of(s[i])] + p1);
            assert forall|a: int, b: int| 0 <= a < b < p.len() implies key_lt(
                key_of_pub(p[a]),
                key_of_pub(p[b]),
            ) by {
                assert(p[b] == p1[b - 1]);
                if a == 0 {
                    assert(p[0] == pub_of(s[i]));
                    assert(from_record(s, c, i + 1, p1[b - 1]));
                    let k = choose|k: int|
                        i + 1 <= k < s.len() && #[trigger] passes(s[k], c) && p1[b - 1] == pub_of(
                            s[k],
                        );
                    assert(key_lt(key_of(s[i]), key_of(s[k])));
                    assert(key_of_pub(pub_of(s[k])) == key_of(s[k]));
                } else {
                    assert(p[a] == p1[a - 1]);
                    assert(key_lt(key_of_pub(p1[a - 1]), key_of_pub(p1[b - 1])));
                }
            }
        }
    }
}

/// Resuming at a later cursor `kk` drops exactly the prefix of records
/// not past `kk`.
proof fn lemma_page_from_skip(s: Seq<StatusView>, c: Option<Key>, kk: Key, i: int)
    requires
        store_wf(s),
        match c {
            Some(k0) => key_lt(k0, kk),
            None => true,
        },
    ensures
        exists|m: int|
            {
                &&& 0 <= m <= page_from(s, c, i).len()
                &&& #[trigger] page_from(s, Some(kk), i) == page_from(s, c, i).skip(m)
                &&& forall|j: int|
                    0 <= j < m ==> !key_lt(kk, key_of_pub(#[trigger] page_from(s, c, i)[j]))
                &&& forall|j: int|
                    m <= j < page_from(s, c, i).len() ==> key_lt(
                        kk,
                        key_of_pub(#[trigger] page_from(s, c, i)[j]),
                    )
            },
    decreases s.len() - i,
{
    let p = page_from(s, c, i);
    let q = page_from(s, Some(kk), i);
    if i < 0 || i >= s.len() {
        assert(q =~= p.skip(0));
        assert({
            &&& 0 <= 0 <= p.len()
            &&& q == p.skip(0)
            &&& forall|j: int| 0 <= j < 0 ==> !key_lt(kk, key_of_pub(#[trigger] p[j]))
            &&& forall|j: int| 0 <= j < p.len() ==> key_lt(kk, key_of_pub(#[trigger] p[j]))
        });
    } else {
        lemma_page_from_skip(s, c, kk, i + 1);
        let p1 = page_from(s, c, i + 1);
        let q1 = page_from(s, Some(kk), i + 1);
        let m1 = choose|m: int|
            {
                &&& 0 <= m <= p1.len()
                &&& #[trigger] page_from(s, Some(kk), i + 1) == p1.skip(m)
                &&& forall|j: int| 0 <= j < m ==> !key_lt(kk, key_of_pub(#[trigger] p1[j]))
                &&& forall|j: int| m <= j < p1.len() ==> key_lt(kk, key_of_pub(#[trigger] p1[j]))
            };
        lemma_page_from_elements(s, c, i + 1);
        if passes(s[i], c) {
            assert(p == seq![pub_of(s[i])] + p1);
            if key_lt(kk, key_of(s[i])) {
                assert(passes(s[i], Some(kk)));
                assert(q == seq![pub_of(s[i])] + q1);
                if m1 > 0 {
                    assert(from_record(s, c, i + 1, p1[0]));
                    let k = choose|k: int|
                        i + 1 <= k < s.len() && #[trigger] passes(s[k], c) && p1[0] == pub_of(
                            s[k],
                        );
                    assert(key_lt(key_of(s[i]), key_of(s[k])));
                    lemma_key_trans(kk, key_of(s[i]), key_of(s[k]));
                    assert(key_lt(kk, key_of_pub(p1[0])));
                    assert(!key_lt(kk, key_of_pub(p1[0])));
                }
                assert(q1 == p1.skip(0));
                assert(p1.skip(0) =~= p1);
                assert(q =~= p.skip(0));
                assert forall|j: int| 0 <= j < p.len() implies key_lt(
                    kk,
                    key_of_pub(#[trigger] p[j]),
                ) by {
                    if j == 0 {
                        assert(p[0] == pub_of(s[i]));
                    } else {
                        assert(p[j] == p1[j - 1]);
                    }
                }
                assert({
                    &&& 0 <= 0 <= p.len()
                    &&& q == p.skip(0)
                    &&& forall|j: int| 0 <= j < 0 ==> !key_lt(kk, key_of_pub(#[trigger] p[j]))
                    &&& forall|j: int| 0 <= j < p.len() ==> key_lt(kk, key_of_pub(#[trigger] p[j]))
                });
            } else {
                assert(!passes(s[i], Some(kk)));
                assert(q == q1);
                let m = m1 + 1;
                assert(p.skip(m) =~= p1.skip(m1));
                assert forall|j: int| 0 <= j < m implies !key_lt(
                    kk,
                    key_of_pub(#[trigger] p[j]),
                ) by {
                    if j == 0 {
                        assert(p[0] == pub_of(s[i]));
                        assert(key_of_pub(pub_of(s[i])) == key_of(s[i]));
                    } else {
                        assert(p[j] == p1[j - 1]);
                    }
                }
                assert forall|j: int| m <= j < p.len() implies key_lt(
                    kk,
                    key_of_pub(#[trigger] p[j]),
                ) by {
                    assert(p[j] == p1[j - 1]);
                }
                assert({
                    &&& 0 <= m <= p.len()
                    &&& q == p.skip(m)
                    &&& forall|j: int| 0 <= j < m ==> !key_lt(kk, key_of_pub(#[trigger] p[j]))
                    &&& forall|j: int|
                        m <= j < p.len() ==> key_lt(kk, key_of_pub(#[trigger] p[j]))
                });
            }
        } else {
            if passes(s[i], Some(kk)) {
                assert(is_live(s[i]));
                match c {
                    Some(k0) => {
                        lemma_key_trans(k0, kk, key_of(s[i]));
                        assert(passes(s[i], c));
                    },
                    None => {
                        assert(passes(s[i], c));
                    },
                }
            }
            assert(p == p1);
            assert(q == q1);
            assert({
                &&& 0 <= m1 <= p.len()
                &&& q == p.skip(m1)
                &&& forall|j: int| 0 <= j < m1 ==> !key_lt(kk, key_of_pub(#[trigger] p[j]))
                &&& forall|j: int| m1 <= j < p.len() ==> key_lt(kk, key_of_pub(#[trigger] p[j]))
            });
        }
    }
}

/// Law: pages chain with no gap and no repetition: resuming at the
/// cursor on a page's last record yields exactly the remaining live
/// records, so successive pages concatenate to every live record
/// exactly once, in the one listing order.
pub proof fn lemma_pages_resume(s: Seq<StatusView>, c: Option<Key>, k: int)
    requires
        store_wf(s),
        0 < k <= live_after(s, c).len(),
    ensures
        live_after(s, Some(key_of_pub(live_after(s, c)[k - 1]))) == live_after(s, c).skip(k),
{
    let la = live_after(s, c);
    let kk = key_of_pub(la[k - 1]);
    lemma_page_from_elements(s, c, 0);
    assert(from_record(s, c, 0, la[k - 1]));
    let kw = choose|kw: int|
        0 <= kw < s.len() && #[trigger] passes(s[kw], c) && la[k - 1] == pub_of(s[kw]);
    assert(kk == key_of(s[kw]));
    match c {
        Some(k0) => {
            assert(key_lt(k0, kk));
        },
        None => {},
    }
    lemma_page_from_skip(s, c, kk, 0);
    let m = choose|m: int|
        {
            &&& 0 <= m <= page_from(s, c, 0).len()
            &&& #[trigger] page_from(s, Some(kk), 0) == page_from(s, c, 0).skip(m)
            &&& forall|j: int|
                0 <= j < m ==> !key_lt(kk, key_of_pub(#[trigger] page_from(s, c, 0)[j]))
            &&& forall|j: int|
                m <= j < page_from(s, c, 0).len() ==> key_lt(
                    kk,
                    key_of_pub(#[trigger] page_from(s, c, 0)[j]),
                )
        };
    lemma_page_sorted(s, c, 0);
    if m < k {
        assert(key_lt(kk, key_of_pub(la[k - 1])));
        lemma_key_irrefl(kk);
    }
    if m > k {
        assert(!key_lt(kk, key_of_pub(la[k])));
        assert(key_lt(key_of_pub(la[k - 1]), key_of_pub(la[k])));
    }
    assert(m == k);
}

proof fn lemma_page_from_contains(s: Seq<StatusView>, c: Option<Key>, i: int, k: int)
    requires
        0 <= i <= k < s.len(),
        passes(s[k], c),
    ensures
        page_from(s, c, i).contains(pub_of(s[k])),
    decreases k - i,
{
    if i == k {
        assert(page_from(s, c, i) == seq![pub_of(s[i])] + page_from(s, c, i + 1));
        assert(page_from(s, c, i)[0] == pub_of(s[k]));
    } else {
        lemma_page_from_contains(s, c, i + 1, k);
        let p1 = page_from(s, c, i + 1);
        let j = choose|j: int| 0 <= j < p1.len() && p1[j] == pub_of(s[k]);
        if passes(s[i], c) {
            assert(page_from(s, c, i) == seq![pub_of(s[i])] + p1);
            assert(page_from(s, c, i)[j + 1] == pub_of(s[k]));
        } else {
            assert(page_from(s, c, i) == p1);
        }
    }
}

/// Law: listing misses nothing: every live record past the cursor has
/// its projection somewhere on the concatenation of the pages.
pub proof fn lemma_live_listed(s: Seq<StatusView>, c: Option<Key>, k: int)
    requires
        0 <= k < s.len(),
        passes(s[k], c),
    ensures
        live_after(s, c).contains(pub_of(s[k])),
{
    lemma_page_from_contains(s, c, 0, k);
}

/// Law: two successive pages, the second fetched with the cursor the
/// first returned, are adjacent chunks of the one live sequence: their
/// concatenation is its prefix, and the second cursor is absent exactly
/// when that prefix is the whole sequence.
pub proof fn lemma_list_pages_chain(
    s: Seq<StatusView>,
    c: Option<Key>,
    limit: int,
    page1: Seq<crate::status::PublicView>,
    k1: Key,
    page2: Seq<crate::status::PublicView>,
    next2: Option<Key>,
)
    requires
        store_wf(s),
        1 <= limit,
        list_outcome(s, c, limit, page1, Some(k1)),
        list_outcome(s, Some(k1), limit, page2, next2),
    ensures
        page1 + page2 == (if live_after(s, c).len() <= 2 * limit {
            live_after(s, c)
        } else {
            live_after(s, c).take(2 * limit)
        }),
        next2 is None <==> live_after(s, c).len() <= 2 * limit,
{
    let la = live_after(s, c);
    assert(la.len() > limit);
    assert(page1 == la.take(limit));
    assert(k1 == key_of_pub(la[limit - 1]));
    lemma_pages_resume(s, c, limit);
    let la2 = live_after(s, Some(k1));
    assert(la2 == la.skip(limit));
    assert(la2.len() == la.len() - limit);
    if la2.len() <= limit {
        assert(page2 == la2);
        assert(la.take(limit) + la.skip(limit) =~= la);
    } else {
        assert(page2 == la2.take(limit));
        assert(la.take(limit) + la.skip(limit).take(limit) =~= la.take(2 * limit));
    }
}

} // verus!

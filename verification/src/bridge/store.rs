//! The bridge's in-memory playlist cache: entries expire some time after
//! their last access, and the oldest ones make room when the total size
//! limit would be exceeded.

use vstd::prelude::*;
use vstd::string::StrSliceExecFns;
use vstd::utf8::encode_utf8;
use super::{ENTRY_TTL_NANOS, MAX_STORE_SIZE};
use std::collections::HashMap;

verus! {

broadcast use vstd::std_specs::hash::group_hash_axioms;

/// A cached playlist.
pub struct Entry {
    /// Its identifier, the key under which it is fetched.
    pub id: u128,
    /// The playlist text.
    pub content: String,
    /// When it was stored or last fetched, in nanoseconds since the UNIX epoch.
    pub last_access: u128,
}

/// The model of a cached playlist.
pub struct Stored {
    pub id: u128,
    pub text: Seq<char>,
    pub last_access: u128,
}

impl View for Entry {
    type V = Stored;

    open spec fn view(&self) -> Stored {
        Stored { id: self.id, text: self.content@, last_access: self.last_access }
    }
}

/// The size of a playlist in bytes (its UTF-8 encoding).
pub open spec fn size_of(e: Stored) -> nat {
    encode_utf8(e.text).len()
}

/// The total size of the playlists in `s`.
pub open spec fn bytes_total(s: Seq<Stored>) -> nat
    decreases s.len(),
{
    if s.len() == 0 {
        0
    } else {
        bytes_total(s.drop_last()) + size_of(s.last())
    }
}

/// No two playlists share an identifier.
pub open spec fn ids_distinct(s: Seq<Stored>) -> bool {
    forall|i: int, j: int|
        0 <= i < s.len() && 0 <= j < s.len() && i != j ==> #[trigger] s[i].id != #[trigger] s[j].id
}

/// Whether a playlist was last accessed more than the time-to-live before `now`.
pub open spec fn is_expired(e: Stored, now: u128) -> bool {
    e.last_access < now && now - e.last_access > ENTRY_TTL_NANOS
}

/// The playlists of `s` that have not expired at `now`, in order.
pub open spec fn live(s: Seq<Stored>, now: u128) -> Seq<Stored>
    decreases s.len(),
{
    if s.len() == 0 {
        s
    } else if is_expired(s.last(), now) {
        live(s.drop_last(), now)
    } else {
        live(s.drop_last(), now).push(s.last())
    }
}

/// The playlists of `s` except the one with identifier `id`, in order.
pub open spec fn without_id(s: Seq<Stored>, id: u128) -> Seq<Stored>
    decreases s.len(),
{
    if s.len() == 0 {
        s
    } else if s.last().id == id {
        without_id(s.drop_last(), id)
    } else {
        without_id(s.drop_last(), id).push(s.last())
    }
}

/// Position of the playlist with identifier `id` in `s`, if any.
pub open spec fn find_id(s: Seq<Stored>, id: u128) -> Option<int>
    decreases s.len(),
{
    if s.len() == 0 {
        None
    } else if s.last().id == id {
        Some(s.len() - 1)
    } else {
        find_id(s.drop_last(), id)
    }
}

/// Position of the least recently accessed playlist of a non-empty `s`, the
/// first of them where several tie.
pub open spec fn oldest_index(s: Seq<Stored>) -> int
    decreases s.len(),
{
    if s.len() <= 1 {
        0
    } else {
        let k = oldest_index(s.drop_last());
        if s.last().last_access < s[k].last_access {
            s.len() - 1
        } else {
            k
        }
    }
}

/// `s` after removing its least recently accessed playlists, one at a time,
/// until `required` more bytes fit under the size limit or none is left.
pub open spec fn evict(s: Seq<Stored>, required: nat) -> Seq<Stored>
    decreases s.len(),
{
    if s.len() > 0 && bytes_total(s) + required > MAX_STORE_SIZE {
        if 0 <= oldest_index(s) < s.len() {
            evict(s.remove(oldest_index(s)), required)
        } else {
            s
        }
    } else {
        s
    }
}

/// Removing the playlist at `k` removes its size from the total.
pub proof fn lemma_total_remove(s: Seq<Stored>, k: int)
    requires
        0 <= k < s.len(),
    ensures
        bytes_total(s.remove(k)) + size_of(s[k]) == bytes_total(s),
    decreases s.len(),
{
    if k < s.len() - 1 {
        let t = s.drop_last();
        lemma_total_remove(t, k);
        assert(s.remove(k).drop_last() =~= t.remove(k));
        assert(s.remove(k).last() == s.last());
    } else {
        assert(s.remove(k) =~= s.drop_last());
    }
}

/// Replacing a playlist by one of the same size keeps the total.
pub proof fn lemma_total_update(s: Seq<Stored>, k: int, e: Stored)
    requires
        0 <= k < s.len(),
        size_of(e) == size_of(s[k]),
    ensures
        bytes_total(s.update(k, e)) == bytes_total(s),
    decreases s.len(),
{
    if k < s.len() - 1 {
        lemma_total_update(s.drop_last(), k, e);
        assert(s.update(k, e).drop_last() =~= s.drop_last().update(k, e));
    } else {
        assert(s.update(k, e).drop_last() =~= s.drop_last());
    }
}

/// [`oldest_index`] lies in a non-empty sequence and is least recently accessed.
pub proof fn lemma_oldest_index(s: Seq<Stored>)
    requires
        s.len() > 0,
    ensures
        0 <= oldest_index(s) < s.len(),
        forall|j: int| 0 <= j < s.len() ==> s[oldest_index(s)].last_access <= #[trigger] s[j].last_access,
    decreases s.len(),
{
    if s.len() > 1 {
        let t = s.drop_last();
        lemma_oldest_index(t);
        let k = oldest_index(t);
        assert(t[k] == s[k]);
        assert forall|j: int| 0 <= j < s.len() implies s[oldest_index(s)].last_access
            <= #[trigger] s[j].last_access by {
            if j < s.len() - 1 {
                assert(t[j] == s[j]);
            }
        }
    }
}

/// [`find_id`] finds a playlist with the identifier, and only where there is one.
pub proof fn lemma_find_id(s: Seq<Stored>, id: u128)
    ensures
        find_id(s, id) matches Some(k) ==> 0 <= k < s.len() && s[k].id == id,
        find_id(s, id) is None ==> forall|j: int| 0 <= j < s.len() ==> #[trigger] s[j].id != id,
    decreases s.len(),
{
    if s.len() > 0 {
        let t = s.drop_last();
        lemma_find_id(t, id);
        if find_id(s, id) is None {
            assert forall|j: int| 0 <= j < s.len() implies #[trigger] s[j].id != id by {
                if j < s.len() - 1 {
                    assert(t[j] == s[j]);
                }
            }
        }
        if find_id(s, id) is Some && s.last().id != id {
            let k = find_id(t, id)->0;
            assert(t[k] == s[k]);
        }
    }
}

/// Removing one identifier from distinct identifiers removes at most the
/// one entry that holds it.
pub proof fn lemma_without_id(s: Seq<Stored>, id: u128)
    requires
        ids_distinct(s),
    ensures
        find_id(s, id) matches Some(k) ==> without_id(s, id) == s.remove(k),
        find_id(s, id) is None ==> without_id(s, id) == s,
    decreases s.len(),
{
    if s.len() > 0 {
        let t = s.drop_last();
        assert(ids_distinct(t)) by {
            assert forall|i: int, j: int|
                0 <= i < t.len() && 0 <= j < t.len() && i != j implies #[trigger] t[i].id
                != #[trigger] t[j].id by {
                assert(t[i] == s[i] && t[j] == s[j]);
            }
        }
        lemma_without_id(t, id);
        lemma_find_id(t, id);
        if s.last().id == id {
            assert(without_id(t, id) == t) by {
                if find_id(t, id) is Some {
                    let k = find_id(t, id)->0;
                    assert(s[k].id == s[s.len() - 1].id);
                }
            }
            assert(s.remove(s.len() - 1) =~= t);
        } else {
            if find_id(t, id) is Some {
                let k = find_id(t, id)->0;
                assert(s.remove(k) =~= t.remove(k).push(s.last()));
            } else {
                assert(t.push(s.last()) =~= s);
            }
        }
    }
}

/// Removing an entry keeps identifiers distinct.
pub proof fn lemma_distinct_remove(s: Seq<Stored>, k: int)
    requires
        ids_distinct(s),
        0 <= k < s.len(),
    ensures
        ids_distinct(s.remove(k)),
{
    let t = s.remove(k);
    assert forall|i: int, j: int|
        0 <= i < t.len() && 0 <= j < t.len() && i != j implies #[trigger] t[i].id
        != #[trigger] t[j].id by {
        let a = if i < k { i } else { i + 1 };
        let b = if j < k { j } else { j + 1 };
        assert(t[i] == s[a] && t[j] == s[b]);
    }
}

/// A pushed element is contained, and so is every element of the prefix.
proof fn lemma_push_contains(l: Seq<Stored>, x: Stored, e: Stored)
    ensures
        l.push(x).contains(e) <==> l.contains(e) || e == x,
{
    if l.contains(e) {
        let i = choose|i: int| 0 <= i < l.len() && l[i] == e;
        assert(l.push(x)[i] == e);
    }
    if e == x {
        assert(l.push(x)[l.len() as int] == e);
    }
    if l.push(x).contains(e) && e != x {
        let i = choose|i: int| 0 <= i < l.push(x).len() && l.push(x)[i] == e;
        assert(l[i] == e);
    }
}

/// Clearing out at `now` keeps exactly the playlists that have not expired.
pub proof fn law_live_keeps_unexpired(s: Seq<Stored>, now: u128, e: Stored)
    ensures
        live(s, now).contains(e) <==> s.contains(e) && !is_expired(e, now),
    decreases s.len(),
{
    if s.len() > 0 {
        let t = s.drop_last();
        law_live_keeps_unexpired(t, now, e);
        assert(s =~= t.push(s.last()));
        lemma_push_contains(t, s.last(), e);
        lemma_push_contains(live(t, now), s.last(), e);
    }
}

/// Making room keeps only playlists that were cached.
pub proof fn lemma_evict_subset(s: Seq<Stored>, required: nat, e: Stored)
    requires
        evict(s, required).contains(e),
    ensures
        s.contains(e),
    decreases s.len(),
{
    if s.len() > 0 && bytes_total(s) + required > MAX_STORE_SIZE {
        lemma_oldest_index(s);
        let k = oldest_index(s);
        lemma_evict_subset(s.remove(k), required, e);
        let i = choose|i: int| 0 <= i < s.remove(k).len() && s.remove(k)[i] == e;
        assert(s[if i < k { i } else { i + 1 }] == e);
    }
}

/// Making room removes the least recently accessed playlists first: each
/// removed playlist was accessed no later than every kept one.
pub proof fn law_evict_oldest_first(s: Seq<Stored>, required: nat, gone: Stored, kept: Stored)
    requires
        s.contains(gone),
        !evict(s, required).contains(gone),
        evict(s, required).contains(kept),
    ensures
        gone.last_access <= kept.last_access,
    decreases s.len(),
{
    if s.len() > 0 && bytes_total(s) + required > MAX_STORE_SIZE {
        lemma_oldest_index(s);
        let k = oldest_index(s);
        let t = s.remove(k);
        lemma_evict_subset(t, required, kept);
        let j = choose|j: int| 0 <= j < t.len() && t[j] == kept;
        assert(s[if j < k { j } else { j + 1 }] == kept);
        if gone == s[k] {
        } else {
            let i = choose|i: int| 0 <= i < s.len() && s[i] == gone;
            assert(t[if i < k { i } else { i - 1 }] == gone);
            law_evict_oldest_first(t, required, gone, kept);
        }
    }
}

/// After making room for `required` bytes, they fit under the limit, or the
/// cache is empty.
pub proof fn law_evict_fits(s: Seq<Stored>, required: nat)
    ensures
        bytes_total(evict(s, required)) + required <= MAX_STORE_SIZE || evict(s, required).len() == 0,
    decreases s.len(),
{
    if s.len() > 0 && bytes_total(s) + required > MAX_STORE_SIZE {
        lemma_oldest_index(s);
        let k = oldest_index(s);
        law_evict_fits(s.remove(k), required);
    }
}

/// A playlist last accessed more than thirty minutes before `now` is
/// dropped when clearing out at `now`, and expiry is for good: it is dropped
/// when clearing out at any later time too.
pub proof fn law_stale_entries_dropped(s: Seq<Stored>, e: Stored, now: u128, later: u128)
    requires
        e.last_access < now,
        now - e.last_access > 30 * 60 * 1_000_000_000,
        now <= later,
    ensures
        !live(s, now).contains(e),
        !live(s, later).contains(e),
{
    law_live_keeps_unexpired(s, now, e);
    law_live_keeps_unexpired(s, later, e);
}

/// A cached playlist accessed at most thirty minutes before `now`, or after
/// it, is kept when clearing out at `now`.
pub proof fn law_fresh_entries_kept(s: Seq<Stored>, e: Stored, now: u128)
    requires
        s.contains(e),
        !(e.last_access < now && now - e.last_access > 30 * 60 * 1_000_000_000),
    ensures
        live(s, now).contains(e),
{
    law_live_keeps_unexpired(s, now, e);
}

/// Every playlist that survives clearing out was cached.
pub proof fn lemma_live_subset(s: Seq<Stored>, now: u128)
    ensures
        forall|j: int| 0 <= j < live(s, now).len() ==> s.contains(#[trigger] live(s, now)[j]),
{
    assert forall|j: int| 0 <= j < live(s, now).len() implies s.contains(#[trigger] live(s, now)[j]) by {
        law_live_keeps_unexpired(s, now, live(s, now)[j]);
    }
}

/// Clearing out keeps identifiers distinct.
pub proof fn lemma_live_distinct(s: Seq<Stored>, now: u128)
    requires
        ids_distinct(s),
    ensures
        ids_distinct(live(s, now)),
    decreases s.len(),
{
    if s.len() > 0 {
        let t = s.drop_last();
        assert(ids_distinct(t)) by {
            assert forall|i: int, j: int|
                0 <= i < t.len() && 0 <= j < t.len() && i != j implies #[trigger] t[i].id
                != #[trigger] t[j].id by {
                assert(t[i] == s[i] && t[j] == s[j]);
            }
        }
        lemma_live_distinct(t, now);
        if !is_expired(s.last(), now) {
            let l = live(t, now);
            let r = l.push(s.last());
            lemma_live_subset(t, now);
            assert forall|i: int, j: int|
                0 <= i < r.len() && 0 <= j < r.len() && i != j implies #[trigger] r[i].id
                != #[trigger] r[j].id by {
                if i < l.len() && j < l.len() {
                    assert(r[i] == l[i] && r[j] == l[j]);
                } else if i < l.len() {
                    assert(r[i] == l[i] && t.contains(l[i]));
                    let a = choose|a: int| 0 <= a < t.len() && t[a] == l[i];
                    assert(s[a] == t[a]);
                } else {
                    assert(r[j] == l[j] && t.contains(l[j]));
                    let a = choose|a: int| 0 <= a < t.len() && t[a] == l[j];
                    assert(s[a] == t[a]);
                }
            }
        }
    }
}

/// Replacing a playlist by one with the same identifier keeps identifiers distinct.
pub proof fn lemma_distinct_update(s: Seq<Stored>, k: int, e: Stored)
    requires
        ids_distinct(s),
        0 <= k < s.len(),
        e.id == s[k].id,
    ensures
        ids_distinct(s.update(k, e)),
{
    let t = s.update(k, e);
    assert forall|i: int, j: int|
        0 <= i < t.len() && 0 <= j < t.len() && i != j implies #[trigger] t[i].id
        != #[trigger] t[j].id by {
        assert(t[i].id == s[i].id && t[j].id == s[j].id);
    }
}

/// Among distinct identifiers, looking one up finds the playlist that has it.
pub proof fn lemma_find_unique(s: Seq<Stored>, x: Stored)
    requires
        ids_distinct(s),
        s.contains(x),
    ensures
        find_id(s, x.id) matches Some(j) && s[j] == x,
{
    lemma_find_id(s, x.id);
    let a = choose|a: int| 0 <= a < s.len() && s[a] == x;
    assert(s[a].id == x.id);
}

/// Making room keeps identifiers distinct.
pub proof fn lemma_evict_distinct(s: Seq<Stored>, required: nat)
    requires
        ids_distinct(s),
    ensures
        ids_distinct(evict(s, required)),
    decreases s.len(),
{
    if s.len() > 0 && bytes_total(s) + required > MAX_STORE_SIZE {
        lemma_oldest_index(s);
        lemma_distinct_remove(s, oldest_index(s));
        lemma_evict_distinct(s.remove(oldest_index(s)), required);
    }
}

/// Dropping an identifier keeps exactly the playlists with other identifiers.
pub proof fn lemma_without_id_contains(s: Seq<Stored>, id: u128, x: Stored)
    ensures
        without_id(s, id).contains(x) <==> s.contains(x) && x.id != id,
    decreases s.len(),
{
    if s.len() > 0 {
        let t = s.drop_last();
        lemma_without_id_contains(t, id, x);
        assert(s =~= t.push(s.last()));
        lemma_push_contains(t, s.last(), x);
        lemma_push_contains(without_id(t, id), s.last(), x);
    }
}

/// Dropping an identifier keeps identifiers distinct.
pub proof fn lemma_without_id_distinct(s: Seq<Stored>, id: u128)
    requires
        ids_distinct(s),
    ensures
        ids_distinct(without_id(s, id)),
{
    lemma_without_id(s, id);
    lemma_find_id(s, id);
    if let Some(k) = find_id(s, id) {
        lemma_distinct_remove(s, k);
    }
}

/// Appending a playlist whose identifier is not cached keeps identifiers distinct.
pub proof fn lemma_push_distinct(s: Seq<Stored>, x: Stored)
    requires
        ids_distinct(s),
        forall|y: Stored| s.contains(y) ==> y.id != x.id,
    ensures
        ids_distinct(s.push(x)),
{
    let t = s.push(x);
    assert forall|i: int, j: int|
        0 <= i < t.len() && 0 <= j < t.len() && i != j implies #[trigger] t[i].id != #[trigger] t[j].id by {
        if i < s.len() && j < s.len() {
            assert(t[i] == s[i] && t[j] == s[j]);
        } else if i < s.len() {
            assert(t[i] == s[i] && s.contains(s[i]));
        } else {
            assert(t[j] == s[j] && s.contains(s[j]));
        }
    }
}

/// The playlist cache: the playlists by identifier, and their identifiers in
/// the order they were stored. Expiry and eviction walk the identifiers in
/// that order, so which of two equally old playlists is evicted first is
/// fixed, unlike the order in which a hash map is walked.
pub struct Store {
    entries: HashMap<u128, Entry>,
    order: Vec<u128>,
    total_bytes: usize,
}

impl View for Store {
    type V = Seq<Stored>;

    closed spec fn view(&self) -> Seq<Stored> {
        self.order@.map_values(|id: u128| self.entries@[id]@)
    }
}

impl Store {
    /// The size the cache accounts for its playlists.
    pub closed spec fn accounted_bytes(&self) -> nat {
        self.total_bytes as nat
    }

    /// How the playlists are filed: each identifier appears once in the
    /// storing order, the playlist filed under it carries it, and no other
    /// playlist is filed.
    pub closed spec fn filed(&self) -> bool {
        &&& self.order@.no_duplicates()
        &&& forall|i: int|
            0 <= i < self.order@.len() ==> self.entries@.contains_key(#[trigger] self.order@[i])
                && self.entries@[self.order@[i]].id == self.order@[i]
        &&& forall|k: u128| #[trigger] self.entries@.contains_key(k) ==> self.order@.contains(k)
    }

    /// The cache's invariant: its playlists are filed by identifier,
    /// identifiers are distinct, the accounted size is the playlists' total
    /// size, and it stays within the limit.
    pub open spec fn wf(&self) -> bool {
        &&& self.filed()
        &&& ids_distinct(self@)
        &&& self.accounted_bytes() == bytes_total(self@)
        &&& bytes_total(self@) <= MAX_STORE_SIZE
    }

    /// An empty cache.
    pub fn new() -> (r: Self)
        ensures
            r.wf(),
            r@ == Seq::<Stored>::empty(),
    {
        let r = Store { entries: HashMap::new(), order: Vec::new(), total_bytes: 0 };
        assert(r@ =~= Seq::<Stored>::empty());
        r
    }

    /// The number of cached playlists.
    pub fn len(&self) -> (n: usize)
        ensures
            n == self@.len(),
    {
        self.order.len()
    }

    /// The total size in bytes of the cached playlists.
    pub fn total_bytes(&self) -> (n: usize)
        requires
            self.wf(),
        ensures
            n == bytes_total(self@),
    {
        self.total_bytes
    }

    /// The playlist at position `i` in storing order.
    fn entry_at(&self, i: usize) -> (e: &Entry)
        requires
            self.wf(),
            i < self@.len(),
        ensures
            e@ == self@[i as int],
            e.id == self.order@[i as int],
    {
        let id = self.order[i];
        assert(self.entries@.contains_key(self.order@[i as int]));
        self.entries.get(&id).unwrap()
    }

    /// Removes the entry at `k`, keeping the invariant.
    fn take_at(&mut self, k: usize) -> (e: Entry)
        requires
            old(self).wf(),
            k < old(self)@.len(),
        ensures
            final(self).wf(),
            final(self)@ == old(self)@.remove(k as int),
            e@ == old(self)@[k as int],
    {
        let ghost before = self@;
        let ghost ob = self.order@;
        let ghost eb = self.entries@;
        proof {
            lemma_total_remove(before, k as int);
            lemma_distinct_remove(before, k as int);
            assert(eb.contains_key(ob[k as int]));
        }
        let id = self.order.remove(k);
        let e = self.entries.remove(&id).unwrap();
        let n = e.content.as_str().len();
        self.total_bytes = self.total_bytes - n;
        proof {
            let o = self.order@;
            assert(o == ob.remove(k as int));
            assert(self.entries@ == eb.remove(id));
            assert forall|i: int| 0 <= i < o.len() implies #[trigger] o[i] != id by {
                let j = if i < k { i } else { i + 1 };
                assert(o[i] == ob[j]);
                assert(ob[k as int] == id);
            }
            assert(self@ =~= before.remove(k as int)) by {
                assert forall|i: int| 0 <= i < o.len() implies self@[i] == before.remove(k as int)[i] by {
                    let j = if i < k { i } else { i + 1 };
                    assert(o[i] == ob[j]);
                    assert(o[i] != id);
                }
            }
            assert(o.no_duplicates()) by {
                assert forall|i: int, j: int| 0 <= i < o.len() && 0 <= j < o.len() && i != j implies o[i] != o[j] by {
                    let a = if i < k { i } else { i + 1 };
                    let b = if j < k { j } else { j + 1 };
                    assert(o[i] == ob[a] && o[j] == ob[b]);
                }
            }
            assert forall|i: int| 0 <= i < o.len() implies self.entries@.contains_key(#[trigger] o[i])
                && self.entries@[o[i]].id == o[i] by {
                let j = if i < k { i } else { i + 1 };
                assert(o[i] == ob[j]);
                assert(o[i] != id);
            }
            assert forall|x: u128| #[trigger] self.entries@.contains_key(x) implies o.contains(x) by {
                assert(eb.contains_key(x) && x != id);
                let j = choose|j: int| 0 <= j < ob.len() && ob[j] == x;
                assert(j != k);
                let i = if j < k { j } else { j - 1 };
                assert(o[i] == x);
            }
        }
        e
    }

    /// Drops the playlists that expired at `now`.
    pub fn cleanup_expired(&mut self, now: u128)
        requires
            old(self).wf(),
        ensures
            final(self).wf(),
            final(self)@ == live(old(self)@, now),
    {
        let ghost start = self@;
        let mut i: usize = 0;
        let ghost mut j: int = 0;
        while i < self.order.len()
            invariant
                self.wf(),
                0 <= i <= j <= start.len(),
                i <= self@.len(),
                self@.take(i as int) == live(start.take(j), now),
                self@.skip(i as int) == start.skip(j),
            decreases self@.len() - i,
        {
            let ghost cur = self@;
            assert(cur.skip(i as int).len() == start.skip(j).len());
            assert(j < start.len());
            assert(cur[i as int] == start[j]) by {
                assert(cur.skip(i as int)[0] == start.skip(j)[0]);
            }
            assert(start.take(j + 1).drop_last() =~= start.take(j));
            let la = self.entry_at(i).last_access;
            if la < now && now - la > ENTRY_TTL_NANOS {
                self.take_at(i);
                proof {
                    assert(self@.take(i as int) =~= cur.take(i as int));
                    assert(self@.skip(i as int) =~= cur.skip(i as int + 1));
                    assert(cur.skip(i as int + 1) =~= start.skip(j + 1)) by {
                        assert(cur.skip(i as int + 1) =~= cur.skip(i as int).drop_first());
                        assert(start.skip(j + 1) =~= start.skip(j).drop_first());
                    }
                    j = j + 1;
                }
            } else {
                proof {
                    assert(cur.take(i as int + 1) =~= cur.take(i as int).push(cur[i as int]));
                    assert(cur.skip(i as int + 1) =~= cur.skip(i as int).drop_first());
                    assert(start.skip(j + 1) =~= start.skip(j).drop_first());
                    j = j + 1;
                }
                i = i + 1;
            }
        }
        proof {
            assert(self@.take(i as int) =~= self@);
            assert(start.skip(j).len() == 0);
            assert(start.take(j) =~= start);
        }
    }

    /// Position of the least recently accessed playlist.
    fn oldest(&self) -> (k: usize)
        requires
            self.wf(),
            self@.len() > 0,
        ensures
            k == oldest_index(self@),
    {
        let ghost s = self@;
        let mut best: usize = 0;
        let mut i: usize = 1;
        assert(s.take(1).len() == 1);
        while i < self.order.len()
            invariant
                self.wf(),
                1 <= i <= self@.len(),
                s == self@,
                best == oldest_index(s.take(i as int)),
                best < i,
            decreases self@.len() - i,
        {
            let ghost t = s.take(i + 1);
            assert(t.drop_last() =~= s.take(i as int));
            assert(t.last() == s[i as int]);
            assert(t[best as int] == s[best as int]);
            if self.entry_at(i).last_access < self.entry_at(best).last_access {
                best = i;
            }
            i = i + 1;
        }
        assert(s.take(i as int) =~= s);
        best
    }

    /// Removes least recently accessed playlists until `required` more bytes
    /// fit under the size limit, or the cache is empty.
    pub fn make_room(&mut self, required: usize)
        requires
            old(self).wf(),
        ensures
            final(self).wf(),
            final(self)@ == evict(old(self)@, required as nat),
    {
        let ghost start = self@;
        loop
            invariant
                self.wf(),
                evict(self@, required as nat) == evict(start, required as nat),
            ensures
                self.wf(),
                self@ == evict(start, required as nat),
            decreases self@.len(),
        {
            if self.total_bytes.saturating_add(required) <= MAX_STORE_SIZE {
                break;
            }
            if self.order.len() == 0 {
                assert(self@.len() == 0);
                break;
            }
            let k = self.oldest();
            proof {
                lemma_oldest_index(self@);
            }
            self.take_at(k);
        }
    }

    /// Position of the playlist with identifier `id`.
    pub fn position(&self, id: u128) -> (r: Option<usize>)
        requires
            self.wf(),
        ensures
            match r {
                Some(k) => k < self@.len() && find_id(self@, id) == Some(k as int),
                None => find_id(self@, id) is None,
            },
    {
        let ghost s = self@;
        let mut i = self.order.len();
        assert(s.take(s.len() as int) =~= s);
        while i > 0
            invariant
                self.wf(),
                i <= s.len(),
                s == self@,
                find_id(s, id) == find_id(s.take(i as int), id),
            decreases i,
        {
            let ghost t = s.take(i as int);
            assert(t.drop_last() =~= s.take(i - 1));
            assert(t.last() == s[i - 1]);
            assert(self.entries@.contains_key(self.order@[i - 1]));
            assert(s[i - 1].id == self.order@[i - 1]);
            if self.order[i - 1] == id {
                return Some(i - 1);
            }
            i = i - 1;
        }
        None
    }

    /// Removes the playlist with identifier `id`, if cached.
    pub fn remove_entry(&mut self, id: u128)
        requires
            old(self).wf(),
        ensures
            final(self).wf(),
            final(self)@ == without_id(old(self)@, id),
    {
        proof {
            lemma_without_id(self@, id);
            lemma_find_id(self@, id);
        }
        if let Some(k) = self.position(id) {
            self.take_at(k);
        }
    }

    /// Stores `content` under `id` as accessed at `now`, replacing any
    /// playlist cached under `id`.
    pub fn insert(&mut self, id: u128, content: String, now: u128)
        requires
            old(self).wf(),
            bytes_total(old(self)@) + encode_utf8(content@).len() <= MAX_STORE_SIZE,
        ensures
            final(self).wf(),
            final(self)@ == without_id(old(self)@, id).push(
                Stored { id, text: content@, last_access: now },
            ),
    {
        let ghost start = self@;
        self.remove_entry(id);
        proof {
            lemma_without_id(start, id);
            lemma_find_id(start, id);
            if let Some(k) = find_id(start, id) {
                lemma_total_remove(start, k);
            }
            lemma_find_id(self@, id);
            assert(find_id(self@, id) is None) by {
                if let Some(k) = find_id(self@, id) {
                    if let Some(m) = find_id(start, id) {
                        let kk = if k < m { k } else { k + 1 };
                        assert(self@[k] == start[kk]);
                    } else {
                        assert(self@[k] == start[k]);
                    }
                }
            }
        }
        let n = content.as_str().len();
        let ghost before = self@;
        let ghost ob = self.order@;
        let ghost eb = self.entries@;
        proof {
            assert forall|i: int| 0 <= i < ob.len() implies #[trigger] ob[i] != id by {
                assert(eb.contains_key(ob[i]));
                assert(before[i].id == ob[i]);
            }
            assert(!eb.contains_key(id));
        }
        self.order.push(id);
        self.entries.insert(id, Entry { id, content, last_access: now });
        self.total_bytes = self.total_bytes + n;
        proof {
            let o = self.order@;
            assert(o == ob.push(id));
            assert(self@ =~= before.push(Stored { id, text: content@, last_access: now })) by {
                assert forall|i: int| 0 <= i < ob.len() implies self@[i] == before[i] by {
                    assert(o[i] == ob[i]);
                }
            }
            assert(self@.drop_last() =~= before);
            assert forall|i: int, j: int|
                0 <= i < self@.len() && 0 <= j < self@.len() && i != j implies #[trigger] self@[i].id
                != #[trigger] self@[j].id by {
                if i < before.len() && j < before.len() {
                    assert(self@[i] == before[i] && self@[j] == before[j]);
                } else if i < before.len() {
                    assert(self@[i] == before[i]);
                } else {
                    assert(self@[j] == before[j]);
                }
            }
            assert(o.no_duplicates()) by {
                assert forall|i: int, j: int| 0 <= i < o.len() && 0 <= j < o.len() && i != j implies o[i] != o[j] by {
                    if i < ob.len() && j < ob.len() {
                        assert(o[i] == ob[i] && o[j] == ob[j]);
                    } else if i < ob.len() {
                        assert(o[i] == ob[i]);
                    } else {
                        assert(o[j] == ob[j]);
                    }
                }
            }
            assert forall|i: int| 0 <= i < o.len() implies self.entries@.contains_key(#[trigger] o[i])
                && self.entries@[o[i]].id == o[i] by {
                if i < ob.len() {
                    assert(o[i] == ob[i]);
                }
            }
            assert forall|x: u128| #[trigger] self.entries@.contains_key(x) implies o.contains(x) by {
                if x == id {
                    assert(o[ob.len() as int] == id);
                } else {
                    assert(eb.contains_key(x));
                    let j = choose|j: int| 0 <= j < ob.len() && ob[j] == x;
                    assert(o[j] == x);
                }
            }
        }
    }

    /// The playlist cached under `id`, as UTF-8 bytes, marking it accessed at `now`.
    pub fn fetch(&mut self, id: u128, now: u128) -> (r: Option<Vec<u8>>)
        requires
            old(self).wf(),
        ensures
            final(self).wf(),
            match find_id(old(self)@, id) {
                Some(k) => r matches Some(b) && b@ == encode_utf8(old(self)@[k].text)
                    && final(self)@ == old(self)@.update(
                    k,
                    Stored { last_access: now, ..old(self)@[k] },
                ),
                None => r is None && final(self)@ == old(self)@,
            },
    {
        let ghost start = self@;
        proof {
            lemma_find_id(start, id);
        }
        match self.position(id) {
            None => None,
            Some(k) => {
                let ghost ob = self.order@;
                let ghost eb = self.entries@;
                proof {
                    assert(eb.contains_key(ob[k as int]));
                    assert(start[k as int].id == ob[k as int]);
                }
                let mut e = self.entries.remove(&id).unwrap();
                let bytes = e.content.as_str().as_bytes_vec();
                e.last_access = now;
                self.entries.insert(id, e);
                proof {
                    let upd = Stored { last_access: now, ..start[k as int] };
                    assert forall|i: int| 0 <= i < ob.len() && i != k implies #[trigger] ob[i] != id by {}
                    assert(self.entries@ == eb.insert(id, Entry { last_access: now, ..eb[id] }));
                    assert(self@ =~= start.update(k as int, upd)) by {
                        assert forall|i: int| 0 <= i < ob.len() implies self@[i] == start.update(k as int, upd)[i] by {
                            if i != k {
                                assert(ob[i] != id);
                            }
                        }
                    }
                    lemma_total_update(start, k as int, upd);
                    assert forall|i: int, j: int|
                        0 <= i < self@.len() && 0 <= j < self@.len() && i != j implies #[trigger] self@[i].id
                        != #[trigger] self@[j].id by {
                        assert(self@[i].id == start[i].id && self@[j].id == start[j].id);
                    }
                    assert forall|x: u128| #[trigger] self.entries@.contains_key(x) implies self.order@.contains(x) by {
                        assert(eb.contains_key(x));
                    }
                }
                Some(bytes)
            },
        }
    }
}

} // verus!

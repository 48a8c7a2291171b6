use vstd::prelude::*;

use crate::error::{AddItemError, QueryItemError, ScanTableError};
use crate::peer::{PeerData, PeerView};

verus! {

/// The values of a vector of records, in order.
pub open spec fn records_view(v: Seq<PeerData>) -> Seq<PeerView> {
    v.map_values(|p: PeerData| p@)
}

/// No two records share an id.
pub open spec fn unique_ids(s: Seq<PeerView>) -> bool {
    forall|i: int, j: int| 0 <= i < s.len() && 0 <= j < s.len() && i != j ==> s[i].id != s[j].id
}

/// Some record has this id.
pub open spec fn has_id(s: Seq<PeerView>, id: Seq<char>) -> bool {
    exists|i: int| 0 <= i < s.len() && s[i].id == id
}

/// `new` is `old` after an upsert of `p` keyed by id: the record with `p`'s id is
/// replaced in place, or `p` is appended when there is none.
pub open spec fn upserted(old: Seq<PeerView>, new: Seq<PeerView>, p: PeerView) -> bool {
    &&& forall|i: int| 0 <= i < old.len() && old[i].id == p.id ==> new == old.update(i, p)
    &&& !has_id(old, p.id) ==> new == old.push(p)
}

/// The records with the given id, in stored order.
pub open spec fn with_id(s: Seq<PeerView>, id: Seq<char>) -> Seq<PeerView> {
    s.filter(|p: PeerView| p.id == id)
}

/// The records with the given address, in stored order.
pub open spec fn with_address(s: Seq<PeerView>, address: Seq<char>) -> Seq<PeerView> {
    s.filter(|p: PeerView| p.address == address)
}

/// How many of `len` records a page holds: `page_size` when given and not
/// negative, else `default`, and never more than there are.
pub open spec fn page_len(page_size: Option<i32>, default: usize, len: int) -> int {
    let bound: int = match page_size {
        Some(k) => if k < 0 { len } else { k as int },
        None => default as int,
    };
    if bound < len { bound } else { len }
}

/// The number of records that a page over `len` records holds.
pub fn page_limit(page_size: Option<i32>, default: usize, len: usize) -> (r: usize)
    ensures
        r == page_len(page_size, default, len as int),
{
    match page_size {
        Some(k) => {
            if k < 0 || k as usize >= len {
                len
            } else {
                k as usize
            }
        },
        None => if default < len { default } else { len },
    }
}

/// What every store of peer records offers. `add_peer` is an upsert keyed by
/// the record's id; a time-to-live, where the store honours one, is the instant
/// at which the record expires.
pub trait PeerDB {
    /// The store's own consistency condition, kept by every operation.
    spec fn inv(&self) -> bool;

    /// The records held, in the order the store keeps them.
    spec fn contents(&self) -> Seq<PeerView>;

    fn add_peer(&mut self, peer_data: PeerData, ttl: Option<i64>) -> (r: Result<(), AddItemError>)
        requires
            old(self).inv(),
        ensures
            final(self).inv(),
            r is Ok ==> upserted(old(self).contents(), final(self).contents(), peer_data@),
            r is Err ==> final(self).contents() == old(self).contents(),
    ;

    /// Stored records, at most `page_size` of them when it is given and not
    /// negative.
    fn all_peers(&self, page_size: Option<i32>) -> (r: Result<Vec<PeerData>, ScanTableError>)
        requires
            self.inv(),
        ensures
            r is Ok && page_size is Some && page_size->0 >= 0 ==> r->Ok_0.len() <= page_size->0,
            r is Ok ==> forall|i: int|
                0 <= i < r->Ok_0.len() ==> self.contents().contains(#[trigger] r->Ok_0@[i]@),
    ;

    /// The records whose id is `id`; an empty list when there is none.
    fn node_by_id(&self, id: String) -> (r: Result<Option<Vec<PeerData>>, QueryItemError>)
        requires
            self.inv(),
        ensures
            r matches Ok(Some(v)) ==> records_view(v@) == with_id(self.contents(), id@),
    ;

    /// The records whose address is `ip`.
    fn node_by_ip(&self, ip: String) -> (r: Result<Option<Vec<PeerData>>, QueryItemError>)
        requires
            self.inv(),
        ensures
            r matches Ok(Some(v)) ==> records_view(v@) == with_address(self.contents(), ip@),
    ;
}

/// No record of a sequence without the id carries it.
proof fn lemma_with_id_none(s: Seq<PeerView>, id: Seq<char>)
    requires
        !has_id(s, id),
    ensures
        with_id(s, id) == Seq::<PeerView>::empty(),
    decreases s.len(),
{
    reveal(Seq::filter);
    if s.len() > 0 {
        let d = s.drop_last();
        assert(!has_id(d, id)) by {
            if has_id(d, id) {
                let i = choose|i: int| 0 <= i < d.len() && d[i].id == id;
                assert(s[i].id == id);
            }
        }
        lemma_with_id_none(d, id);
        assert(s[s.len() - 1].id != id);
    }
}

/// With ids unique, the records with the id of `s[k]` are `s[k]` alone.
proof fn lemma_with_id_single(s: Seq<PeerView>, id: Seq<char>, k: int)
    requires
        unique_ids(s),
        0 <= k < s.len(),
        s[k].id == id,
    ensures
        with_id(s, id) == seq![s[k]],
    decreases s.len(),
{
    reveal(Seq::filter);
    let d = s.drop_last();
    assert(unique_ids(d));
    if k == s.len() - 1 {
        assert(!has_id(d, id)) by {
            if has_id(d, id) {
                let i = choose|i: int| 0 <= i < d.len() && d[i].id == id;
                assert(s[i].id != s[k].id);
            }
        }
        lemma_with_id_none(d, id);
        assert(Seq::<PeerView>::empty().push(s[k]) =~= seq![s[k]]);
    } else {
        lemma_with_id_single(d, id, k);
        assert(s[s.len() - 1].id != s[k].id);
    }
}

/// An upsert keeps ids unique and holds the new record at some index.
proof fn lemma_upsert_unique(old: Seq<PeerView>, new: Seq<PeerView>, p: PeerView) -> (k: int)
    requires
        unique_ids(old),
        upserted(old, new, p),
    ensures
        unique_ids(new),
        0 <= k < new.len(),
        new[k] == p,
        forall|r: PeerView| old.contains(r) && r.id != p.id ==> new.contains(r),
{
    if has_id(old, p.id) {
        let i = choose|i: int| 0 <= i < old.len() && old[i].id == p.id;
        assert(new == old.update(i, p));
        assert forall|a: int, b: int| 0 <= a < new.len() && 0 <= b < new.len() && a != b
            implies new[a].id != new[b].id by {
            if a != i && b != i {
                assert(old[a].id != old[b].id);
            } else if a == i {
                assert(old[b].id != old[i].id);
            } else {
                assert(old[a].id != old[i].id);
            }
        }
        assert forall|r: PeerView| old.contains(r) && r.id != p.id implies new.contains(r) by {
            let j = choose|j: int| 0 <= j < old.len() && old[j] == r;
            assert(new[j] == r);
        }
        i
    } else {
        assert(new == old.push(p));
        assert forall|a: int, b: int| 0 <= a < new.len() && 0 <= b < new.len() && a != b
            implies new[a].id != new[b].id by {
            if a < old.len() && b < old.len() {
                assert(old[a].id != old[b].id);
            } else if a == old.len() {
                assert(old[b].id != p.id);
            } else {
                assert(old[a].id != p.id);
            }
        }
        assert forall|r: PeerView| old.contains(r) && r.id != p.id implies new.contains(r) by {
            let j = choose|j: int| 0 <= j < old.len() && old[j] == r;
            assert(new[j] == r);
        }
        old.len() as int
    }
}

/// Storing two records under one id leaves exactly one record under that id,
/// and it is the later of the two.
pub proof fn upsert_twice_keeps_latest(
    s0: Seq<PeerView>,
    s1: Seq<PeerView>,
    s2: Seq<PeerView>,
    first: PeerView,
    second: PeerView,
)
    requires
        unique_ids(s0),
        upserted(s0, s1, first),
        upserted(s1, s2, second),
        first.id == second.id,
    ensures
        unique_ids(s2),
        with_id(s2, second.id) == seq![second],
{
    lemma_upsert_unique(s0, s1, first);
    let k = lemma_upsert_unique(s1, s2, second);
    lemma_with_id_single(s2, second.id, k);
}

/// After a record is stored, a lookup of its id yields that record alone, and a
/// lookup of an id that no record carries yields nothing.
pub proof fn lookup_after_upsert(s0: Seq<PeerView>, s1: Seq<PeerView>, p: PeerView, other: Seq<char>)
    requires
        unique_ids(s0),
        upserted(s0, s1, p),
    ensures
        with_id(s1, p.id) == seq![p],
        !has_id(s1, other) ==> with_id(s1, other) == Seq::<PeerView>::empty(),
        !has_id(s0, other) && other != p.id ==> with_id(s1, other) == Seq::<PeerView>::empty(),
{
    let k = lemma_upsert_unique(s0, s1, p);
    lemma_with_id_single(s1, p.id, k);
    if !has_id(s0, other) && other != p.id {
        assert(!has_id(s1, other)) by {
            if has_id(s1, other) {
                let i = choose|i: int| 0 <= i < s1.len() && s1[i].id == other;
                if has_id(s0, p.id) {
                    let j = choose|j: int| 0 <= j < s0.len() && s0[j].id == p.id;
                    assert(s1 == s0.update(j, p));
                    assert(s0[i].id == other);
                } else {
                    assert(s1 == s0.push(p));
                    assert(s0[i].id == other);
                }
            }
        }
    }
    if !has_id(s1, other) {
        lemma_with_id_none(s1, other);
    }
}

/// Records stored one after another under distinct ids are all held at the end.
pub proof fn distinct_upserts_all_kept(states: Seq<Seq<PeerView>>, adds: Seq<PeerView>)
    requires
        states.len() == adds.len() + 1,
        unique_ids(states[0]),
        forall|k: int| 0 <= k < adds.len() ==> upserted(#[trigger] states[k], states[k + 1], adds[k]),
        forall|a: int, b: int| 0 <= a < adds.len() && 0 <= b < adds.len() && a != b
            ==> adds[a].id != adds[b].id,
    ensures
        unique_ids(states.last()),
        forall|k: int| 0 <= k < adds.len() ==> states.last().contains(#[trigger] adds[k]),
    decreases adds.len(),
{
    if adds.len() > 0 {
        let n = adds.len() - 1;
        let prefix = states.drop_last();
        let earlier = adds.drop_last();
        assert forall|k: int| 0 <= k < earlier.len() implies upserted(
            #[trigger] prefix[k],
            prefix[k + 1],
            earlier[k],
        ) by {
            assert(upserted(states[k], states[k + 1], adds[k]));
        }
        distinct_upserts_all_kept(prefix, earlier);
        assert(prefix.last() == states[n]);
        assert(upserted(states[n], states[n + 1], adds[n]));
        let k = lemma_upsert_unique(states[n], states[n + 1], adds[n]);
        assert forall|j: int| 0 <= j < adds.len() implies states.last().contains(#[trigger] adds[j]) by {
            if j == n {
                assert(states.last()[k] == adds[n]);
            } else {
                assert(prefix.last().contains(earlier[j]));
                assert(adds[j].id != adds[n].id);
            }
        }
    }
}

/// A record stays the one answer to a lookup of its id while later records
/// are stored under other ids.
pub proof fn lookup_survives_other_upserts(states: Seq<Seq<PeerView>>, adds: Seq<PeerView>)
    requires
        adds.len() >= 1,
        states.len() == adds.len() + 1,
        unique_ids(states[0]),
        forall|k: int| 0 <= k < adds.len() ==> upserted(#[trigger] states[k], states[k + 1], adds[k]),
        forall|k: int| 1 <= k < adds.len() ==> (#[trigger] adds[k]).id != adds[0].id,
    ensures
        unique_ids(states.last()),
        with_id(states.last(), adds[0].id) == seq![adds[0]],
    decreases adds.len(),
{
    let p = adds[0];
    if adds.len() == 1 {
        lookup_after_upsert(states[0], states[1], p, p.id);
        lemma_upsert_unique(states[0], states[1], p);
    } else {
        let n = adds.len() - 1;
        let prefix = states.drop_last();
        let earlier = adds.drop_last();
        assert forall|k: int| 0 <= k < earlier.len() implies upserted(
            #[trigger] prefix[k],
            prefix[k + 1],
            earlier[k],
        ) by {
            assert(upserted(states[k], states[k + 1], adds[k]));
        }
        assert forall|k: int| 1 <= k < earlier.len() implies (#[trigger] earlier[k]).id != earlier[0].id by {
            assert(adds[k].id != adds[0].id);
        }
        lookup_survives_other_upserts(prefix, earlier);
        let s = states[n];
        assert(prefix.last() == s);
        assert(upserted(s, states[n + 1], adds[n]));
        assert(adds[n].id != p.id);
        lemma_with_id_single_inverse(s, p);
        let j = choose|j: int| 0 <= j < s.len() && s[j] == p;
        lemma_upsert_unique(s, states[n + 1], adds[n]);
        assert(s.contains(p));
        assert(states.last().contains(p));
        let k = choose|k: int| 0 <= k < states.last().len() && states.last()[k] == p;
        lemma_with_id_single(states.last(), p.id, k);
    }
}

/// When the records with `p`'s id are `p` alone, `p` is held.
proof fn lemma_with_id_single_inverse(s: Seq<PeerView>, p: PeerView)
    requires
        with_id(s, p.id) == seq![p],
    ensures
        exists|j: int| 0 <= j < s.len() && s[j] == p,
{
    let pred = |v: PeerView| v.id == p.id;
    assert(s.filter(pred).contains(p)) by {
        assert(s.filter(pred)[0] == p);
    }
    s.lemma_filter_contains_rev(pred, p);
}

} // verus!

use vstd::prelude::*;

use crate::error::{AddItemError, QueryItemError, ScanTableError};
use crate::peer::{PeerData, PeerView};
use crate::store::{PeerDB, has_id, page_len, records_view, unique_ids, upserted, with_address, with_id};

verus! {

/// The index of the first record with this id, or the length when none has it.
fn position_of_id(v: &Vec<PeerData>, id: &String) -> (r: usize)
    ensures
        r <= v.len(),
        r < v.len() ==> v@[r as int].id@ == id@,
        forall|j: int| 0 <= j < r ==> v@[j].id@ != id@,
{
    let mut i: usize = 0;
    while i < v.len()
        invariant
            i <= v.len(),
            forall|j: int| 0 <= j < i ==> v@[j].id@ != id@,
        decreases v.len() - i,
    {
        if v[i].id == *id {
            return i;
        }
        i = i + 1;
    }
    i
}

/// A volatile store: one record per id, kept in the order ids were first seen.
/// Sharing it between tasks is left to a lock around it.
pub struct InMemoryPeerDB {
    db: Vec<PeerData>,
}

impl InMemoryPeerDB {
    /// The records held, in stored order.
    pub closed spec fn records(&self) -> Seq<PeerView> {
        records_view(self.db@)
    }

    /// No two records share an id.
    pub open spec fn wf(&self) -> bool {
        unique_ids(self.records())
    }

    /// An empty store.
    pub fn new() -> (r: Self)
        ensures
            r.wf(),
            r.records() == Seq::<PeerView>::empty(),
    {
        let r = InMemoryPeerDB { db: Vec::new() };
        assert(r.records() =~= Seq::<PeerView>::empty());
        r
    }

    /// Stores `peer_data` under its id, replacing the record held there. The
    /// time-to-live is ignored: nothing here expires.
    pub fn add_peer(&mut self, peer_data: PeerData, ttl: Option<i64>) -> (r: Result<(), AddItemError>)
        requires
            old(self).wf(),
        ensures
            final(self).wf(),
            r is Ok,
            upserted(old(self).records(), final(self).records(), peer_data@),
    {
        let ghost old_records = self.records();
        let ghost p = peer_data@;
        let i = position_of_id(&self.db, &peer_data.id);
        assert(forall|j: int| 0 <= j < i ==> old_records[j].id != p.id);
        if i < self.db.len() {
            self.db.set(i, peer_data);
            proof {
                assert(self.records() =~= old_records.update(i as int, p));
                assert forall|a: int, b: int|
                    0 <= a < self.records().len() && 0 <= b < self.records().len() && a != b
                    implies self.records()[a].id != self.records()[b].id by {
                    if a != i && b != i {
                        assert(old_records[a].id != old_records[b].id);
                    } else if a == i {
                        assert(old_records[b].id != old_records[i as int].id);
                    } else {
                        assert(old_records[a].id != old_records[i as int].id);
                    }
                }
                assert(old_records[i as int].id == p.id);
                assert(has_id(old_records, p.id));
                assert forall|j: int| 0 <= j < old_records.len() && old_records[j].id == p.id
                    implies j == i by {
                    if j != i {
                        assert(old_records[j].id != old_records[i as int].id);
                    }
                }
            }
        } else {
            self.db.push(peer_data);
            proof {
                assert(self.records() =~= old_records.push(p));
            }
        }
        Ok(())
    }

    /// The first records in stored order, at most `page_size` of them (50 when
    /// none is given; a negative size sets no bound).
    pub fn all_peers(&self, page_size: Option<i32>) -> (r: Result<Vec<PeerData>, ScanTableError>)
        ensures
            r is Ok,
            records_view(r->Ok_0@) == self.records().take(
                page_len(page_size, 50, self.records().len() as int),
            ),
            page_size is Some && page_size->0 >= 0 ==> r->Ok_0.len() <= page_size->0,
    {
        let n = crate::store::page_limit(page_size, 50, self.db.len());
        let mut out: Vec<PeerData> = Vec::new();
        let mut i: usize = 0;
        while i < n
            invariant
                n <= self.db.len(),
                n == page_len(page_size, 50, self.records().len() as int),
                i <= n,
                records_view(out@) == self.records().take(i as int),
            decreases n - i,
        {
            let ghost before = out@;
            out.push(self.db[i].duplicate());
            assert(records_view(out@) =~= records_view(before).push(self.records()[i as int]));
            i = i + 1;
            assert(records_view(out@) =~= self.records().take(i as int));
        }
        Ok(out)
    }

    /// The records whose id is `id`: one or none.
    pub fn node_by_id(&self, id: String) -> (r: Result<Option<Vec<PeerData>>, QueryItemError>)
        ensures
            r matches Ok(Some(v)) && records_view(v@) == with_id(self.records(), id@),
    {
        let mut out: Vec<PeerData> = Vec::new();
        let mut i: usize = 0;
        while i < self.db.len()
            invariant
                i <= self.db.len(),
                records_view(out@) == with_id(self.records().take(i as int), id@),
            decreases self.db.len() - i,
        {
            if self.db[i].id == id {
                out.push(self.db[i].duplicate());
            }
            proof {
                reveal(Seq::filter);
                assert(self.records().take(i + 1).drop_last() =~= self.records().take(i as int));
            }
            i = i + 1;
            assert(records_view(out@) =~= with_id(self.records().take(i as int), id@));
        }
        assert(self.records().take(self.db.len() as int) =~= self.records());
        Ok(Some(out))
    }

    /// The records whose address is `ip`, in stored order.
    pub fn node_by_ip(&self, ip: String) -> (r: Result<Option<Vec<PeerData>>, QueryItemError>)
        ensures
            r matches Ok(Some(v)) && records_view(v@) == with_address(self.records(), ip@),
    {
        let mut out: Vec<PeerData> = Vec::new();
        let mut i: usize = 0;
        while i < self.db.len()
            invariant
                i <= self.db.len(),
                records_view(out@) == with_address(self.records().take(i as int), ip@),
            decreases self.db.len() - i,
        {
            if self.db[i].address == ip {
                out.push(self.db[i].duplicate());
            }
            proof {
                reveal(Seq::filter);
                assert(self.records().take(i + 1).drop_last() =~= self.records().take(i as int));
            }
            i = i + 1;
            assert(records_view(out@) =~= with_address(self.records().take(i as int), ip@));
        }
        assert(self.records().take(self.db.len() as int) =~= self.records());
        Ok(Some(out))
    }
}

impl PeerDB for InMemoryPeerDB {
    open spec fn inv(&self) -> bool {
        self.wf()
    }

    open spec fn contents(&self) -> Seq<PeerView> {
        self.records()
    }

    fn add_peer(&mut self, peer_data: PeerData, ttl: Option<i64>) -> (r: Result<(), AddItemError>) {
        InMemoryPeerDB::add_peer(self, peer_data, ttl)
    }

    fn all_peers(&self, page_size: Option<i32>) -> (r: Result<Vec<PeerData>, ScanTableError>) {
        let res = InMemoryPeerDB::all_peers(self, page_size);
        proof {
            let v = res->Ok_0;
            let n = page_len(page_size, 50, self.records().len() as int);
            assert forall|i: int| 0 <= i < v.len() implies self.records().contains(#[trigger] v@[i]@) by {
                assert(records_view(v@) == self.records().take(n));
                assert(records_view(v@).len() == v@.len());
                assert(0 <= n <= self.records().len());
                assert(records_view(v@)[i] == v@[i]@);
                assert(self.records().take(n)[i] == self.records()[i]);
                assert(self.records()[i] == v@[i]@);
            }
        }
        res
    }

    fn node_by_id(&self, id: String) -> (r: Result<Option<Vec<PeerData>>, QueryItemError>) {
        InMemoryPeerDB::node_by_id(self, id)
    }

    fn node_by_ip(&self, ip: String) -> (r: Result<Option<Vec<PeerData>>, QueryItemError>) {
        InMemoryPeerDB::node_by_ip(self, ip)
    }
}

} // verus!

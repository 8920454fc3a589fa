use vstd::prelude::*;

use crate::cid::ConnectionId;
use crate::table::ConnectionTable;

verus! {

/// Whether one of the first `n` IDs of `s` is `k`.
pub open spec fn saved_has(s: Seq<ConnectionId>, n: int, k: Seq<u8>) -> bool {
    exists|i: int| 0 <= i < n && #[trigger] s[i]@ == k
}

/// The connection ID allocator of one connection. Until it is linked to its
/// connection it keeps the IDs it hands out; once linked, each new ID is
/// routed to that connection at once.
pub struct ServerConnectionIdGenerator {
    pub link: Option<u64>,
    pub saved_cids: Vec<ConnectionId>,
}

impl ServerConnectionIdGenerator {
    pub fn new() -> (r: ServerConnectionIdGenerator)
        ensures
            r.link is None,
            r.saved_cids@.len() == 0,
    {
        ServerConnectionIdGenerator { link: None, saved_cids: Vec::new() }
    }

    /// Takes the ID that the shared generator produced (`None` where it had
    /// none) and hands it on, routing it to the linked connection or
    /// keeping it until the link is made.
    pub fn generate_cid(&mut self, table: &mut ConnectionTable, minted: Option<ConnectionId>) -> (r:
        Option<ConnectionId>)
        requires
            old(table).wf(),
        ensures
            final(table).wf(),
            final(table).conns == old(table).conns,
            final(self).link == old(self).link,
            match minted {
                None => {
                    &&& r is None
                    &&& final(table).routes == old(table).routes
                    &&& final(self).saved_cids == old(self).saved_cids
                },
                Some(c) => {
                    &&& r matches Some(x) && x@ == c@
                    &&& match old(self).link {
                        Some(h) => {
                            &&& final(self).saved_cids == old(self).saved_cids
                            &&& forall|k: Seq<u8>, g: u64|
                                #[trigger] final(table).routes_to(k, g) == if k == c@ {
                                    g == h
                                } else {
                                    old(table).routes_to(k, g)
                                }
                        },
                        None => {
                            &&& final(table).routes == old(table).routes
                            &&& final(self).saved_cids@.len() == old(self).saved_cids@.len() + 1
                            &&& final(self).saved_cids@.drop_last() == old(self).saved_cids@
                            &&& final(self).saved_cids@.last()@ == c@
                        },
                    }
                },
            },
    {
        match minted {
            None => None,
            Some(cid) => {
                match self.link {
                    Some(h) => {
                        table.insert_cid(cid.duplicate(), h);
                    },
                    None => {
                        self.saved_cids.push(cid.duplicate());
                        assert(self.saved_cids@.drop_last() =~= old(self).saved_cids@);
                    },
                }
                Some(cid)
            },
        }
    }

    /// Links the allocator to connection `h`: every ID kept so far is routed
    /// to `h`, and the kept list is emptied.
    pub fn set_connection(&mut self, table: &mut ConnectionTable, h: u64)
        requires
            old(table).wf(),
        ensures
            final(table).wf(),
            final(table).conns == old(table).conns,
            final(self).link == Some(h),
            final(self).saved_cids@.len() == 0,
            forall|k: Seq<u8>, g: u64|
                #[trigger] final(table).routes_to(k, g) == if saved_has(
                    old(self).saved_cids@,
                    old(self).saved_cids@.len() as int,
                    k,
                ) {
                    g == h
                } else {
                    old(table).routes_to(k, g)
                },
    {
        let mut i: usize = 0;
        while i < self.saved_cids.len()
            invariant
                i <= self.saved_cids@.len(),
                self.saved_cids == old(self).saved_cids,
                self.link == old(self).link,
                table.wf(),
                table.conns == old(table).conns,
                forall|k: Seq<u8>, g: u64|
                    #[trigger] table.routes_to(k, g) == if saved_has(self.saved_cids@, i as int, k) {
                        g == h
                    } else {
                        old(table).routes_to(k, g)
                    },
            decreases self.saved_cids@.len() - i,
        {
            let ghost before = *table;
            table.insert_cid(self.saved_cids[i].duplicate(), h);
            assert forall|k: Seq<u8>, g: u64|
                #[trigger] table.routes_to(k, g) == if saved_has(self.saved_cids@, i + 1, k) {
                    g == h
                } else {
                    old(table).routes_to(k, g)
                } by {
                assert(before.routes_to(k, g) == if saved_has(self.saved_cids@, i as int, k) {
                    g == h
                } else {
                    old(table).routes_to(k, g)
                });
                if k == self.saved_cids@[i as int]@ {
                    assert(saved_has(self.saved_cids@, i + 1, k));
                } else {
                    if saved_has(self.saved_cids@, i + 1, k) {
                        let m = choose|m: int| 0 <= m < i + 1 && #[trigger] self.saved_cids@[m]@ == k;
                        assert(saved_has(self.saved_cids@, i as int, k));
                    }
                }
            }
            i = i + 1;
        }
        self.saved_cids = Vec::new();
        self.link = Some(h);
    }
}

} // verus!

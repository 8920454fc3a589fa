use vstd::prelude::*;

use crate::cid::{bytes_eq, AttemptKey, ConnectionId, PeerAddr};

verus! {

/// The state of a connection as its engine reports it.
#[derive(Clone, Copy, Debug, PartialEq, Eq, Structural)]
pub enum State {
    Init,
    WaitInitial,
    Handshaking,
    Connected,
    Confirmed,
    Closing,
    Draining,
    Closed,
}

/// Whether a state lies strictly past the handshake.
pub open spec fn past_handshaking(s: State) -> bool {
    !(s is Init || s is WaitInitial || s is Handshaking)
}

pub open spec fn attempt_view(a: Option<AttemptKey>) -> Option<(PeerAddr, Seq<u8>)> {
    match a {
        Some(k) => Some(k@),
        None => None,
    }
}

/// What the server keeps of one connection: the handle by which its engine
/// is known, the engine's last reported state, whether it has events
/// pending, and the handshake attempt it answers while handshaking.
pub struct ServerConnectionState {
    pub handle: u64,
    pub state: State,
    pub has_events: bool,
    pub active_attempt: Option<AttemptKey>,
}

impl ServerConnectionState {
    pub open spec fn attempt(&self) -> Option<(PeerAddr, Seq<u8>)> {
        attempt_view(self.active_attempt)
    }

    /// Records what the engine reported after it processed input: its new
    /// state and whether it has events. The attempt is released once the
    /// state lies past the handshake.
    pub fn process(&mut self, state: State, has_events: bool)
        ensures
            final(self).handle == old(self).handle,
            final(self).state == state,
            final(self).has_events == has_events,
            final(self).attempt() == if past_handshaking(state) {
                None
            } else {
                old(self).attempt()
            },
    {
        self.state = state;
        self.has_events = has_events;
        match state {
            State::Init | State::WaitInitial | State::Handshaking => {},
            _ => {
                self.active_attempt = None;
            },
        }
    }
}

/// Whether `c` is one of the records in `s`.
pub open spec fn conn_in(s: Seq<ServerConnectionState>, c: ServerConnectionState) -> bool {
    exists|m: int| 0 <= m < s.len() && s[m] == c
}

/// One row of the routing table: a connection ID and the handle of the
/// connection that it routes to.
pub struct Route {
    pub cid: ConnectionId,
    pub handle: u64,
}

/// The routing table and the connections that it routes to.
pub struct ConnectionTable {
    pub routes: Vec<Route>,
    pub conns: Vec<ServerConnectionState>,
    pub next_handle: u64,
}

impl ConnectionTable {
    /// Whether `cid` routes to the connection with handle `h`.
    pub open spec fn routes_to(&self, cid: Seq<u8>, h: u64) -> bool {
        exists|i: int|
            0 <= i < self.routes@.len() && #[trigger] self.routes@[i].cid@ == cid
                && self.routes@[i].handle == h
    }

    /// Whether `cid` routes anywhere.
    pub open spec fn is_routed(&self, cid: Seq<u8>) -> bool {
        exists|i: int| 0 <= i < self.routes@.len() && #[trigger] self.routes@[i].cid@ == cid
    }

    /// Whether a connection with handle `h` is present.
    pub open spec fn has_conn(&self, h: u64) -> bool {
        exists|j: int| 0 <= j < self.conns@.len() && #[trigger] self.conns@[j].handle == h
    }

    /// Whether a connection with handle `h` has events pending.
    pub open spec fn is_active(&self, h: u64) -> bool {
        exists|j: int|
            0 <= j < self.conns@.len() && #[trigger] self.conns@[j].handle == h
                && self.conns@[j].has_events
    }

    pub open spec fn wf(&self) -> bool {
        &&& forall|i: int, j: int|
            0 <= i < j < self.routes@.len() ==> #[trigger] self.routes@[i].cid@
                != #[trigger] self.routes@[j].cid@
        &&& forall|i: int, j: int|
            0 <= i < j < self.conns@.len() ==> #[trigger] self.conns@[i].handle
                != #[trigger] self.conns@[j].handle
        &&& forall|j: int|
            0 <= j < self.conns@.len() ==> #[trigger] self.conns@[j].handle < self.next_handle
        &&& self.attempts_unique()
    }

    /// No two connections answer the same handshake attempt.
    pub open spec fn attempts_unique(&self) -> bool {
        forall|i: int, j: int|
            0 <= i < self.conns@.len() && 0 <= j < self.conns@.len() && i != j
                && #[trigger] self.conns@[i].attempt() is Some ==> self.conns@[i].attempt()
                != #[trigger] self.conns@[j].attempt()
    }

    pub fn new() -> (r: ConnectionTable)
        ensures
            r.wf(),
            r.routes@.len() == 0,
            r.conns@.len() == 0,
    {
        ConnectionTable { routes: Vec::new(), conns: Vec::new(), next_handle: 0 }
    }

    /// Index of the row for `cid`, if there is one.
    pub fn route_index(&self, cid: &[u8]) -> (r: Option<usize>)
        requires
            self.wf(),
        ensures
            match r {
                Some(i) => i < self.routes@.len() && self.routes@[i as int].cid@ == cid@,
                None => !self.is_routed(cid@),
            },
    {
        let mut i: usize = 0;
        while i < self.routes.len()
            invariant
                i <= self.routes@.len(),
                forall|k: int| 0 <= k < i ==> self.routes@[k].cid@ != cid@,
            decreases self.routes@.len() - i,
        {
            if bytes_eq(self.routes[i].cid.bytes.as_slice(), cid) {
                return Some(i);
            }
            i = i + 1;
        }
        None
    }

    /// The handle of the connection that `cid` routes to.
    pub fn connection(&self, cid: &[u8]) -> (r: Option<u64>)
        requires
            self.wf(),
        ensures
            match r {
                Some(h) => self.routes_to(cid@, h),
                None => !self.is_routed(cid@),
            },
    {
        match self.route_index(cid) {
            Some(i) => Some(self.routes[i].handle),
            None => None,
        }
    }

    /// Routes `cid` to the connection with handle `h`, replacing any row
    /// that `cid` had.
    pub fn insert_cid(&mut self, cid: ConnectionId, h: u64)
        requires
            old(self).wf(),
        ensures
            final(self).wf(),
            final(self).conns == old(self).conns,
            final(self).next_handle == old(self).next_handle,
            forall|k: Seq<u8>, g: u64|
                #[trigger] final(self).routes_to(k, g) == if k == cid@ {
                    g == h
                } else {
                    old(self).routes_to(k, g)
                },
    {
        let ghost c = cid@;
        match self.route_index(cid.bytes.as_slice()) {
            Some(i) => {
                self.routes.set(i, Route { cid, handle: h });
                assert forall|k: Seq<u8>, g: u64|
                    #[trigger] self.routes_to(k, g) == if k == c {
                        g == h
                    } else {
                        old(self).routes_to(k, g)
                    } by {
                    if self.routes_to(k, g) {
                        let m = choose|m: int|
                            0 <= m < self.routes@.len() && #[trigger] self.routes@[m].cid@ == k
                                && self.routes@[m].handle == g;
                        if m != i {
                            assert(old(self).routes@[m].cid@ == k);
                        }
                    }
                    if k != c && old(self).routes_to(k, g) {
                        let m = choose|m: int|
                            0 <= m < old(self).routes@.len() && #[trigger] old(
                                self,
                            ).routes@[m].cid@ == k && old(self).routes@[m].handle == g;
                        assert(self.routes@[m].cid@ == k);
                    }
                    if k == c && g == h {
                        assert(self.routes@[i as int].cid@ == k);
                    }
                }
            },
            None => {
                self.routes.push(Route { cid, handle: h });
                let ghost n = old(self).routes@.len();
                assert forall|k: Seq<u8>, g: u64|
                    #[trigger] self.routes_to(k, g) == if k == c {
                        g == h
                    } else {
                        old(self).routes_to(k, g)
                    } by {
                    if self.routes_to(k, g) {
                        let m = choose|m: int|
                            0 <= m < self.routes@.len() && #[trigger] self.routes@[m].cid@ == k
                                && self.routes@[m].handle == g;
                        if m < n {
                            assert(old(self).routes@[m].cid@ == k);
                        }
                    }
                    if k != c && old(self).routes_to(k, g) {
                        let m = choose|m: int|
                            0 <= m < old(self).routes@.len() && #[trigger] old(
                                self,
                            ).routes@[m].cid@ == k && old(self).routes@[m].handle == g;
                        assert(self.routes@[m].cid@ == k);
                    }
                    if k == c && g == h {
                        assert(self.routes@[n as int].cid@ == k);
                    }
                }
            },
        }
    }

    /// Index of the connection with handle `h`.
    pub fn conn_index(&self, h: u64) -> (r: Option<usize>)
        ensures
            match r {
                Some(j) => j < self.conns@.len() && self.conns@[j as int].handle == h,
                None => !self.has_conn(h),
            },
    {
        let mut j: usize = 0;
        while j < self.conns.len()
            invariant
                j <= self.conns@.len(),
                forall|m: int| 0 <= m < j ==> #[trigger] self.conns@[m].handle != h,
            decreases self.conns@.len() - j,
        {
            if self.conns[j].handle == h {
                return Some(j);
            }
            j = j + 1;
        }
        None
    }

    /// Adds a connection that answers handshake attempt `key`, under a fresh
    /// handle. Nothing is added where a connection already answers `key`, or
    /// where no handle is left.
    pub fn add_connection(&mut self, key: AttemptKey) -> (r: Option<u64>)
        requires
            old(self).wf(),
        ensures
            final(self).wf(),
            final(self).routes == old(self).routes,
            match r {
                Some(h) => {
                    &&& !old(self).has_conn(h)
                    &&& final(self).conns@.len() == old(self).conns@.len() + 1
                    &&& final(self).conns@.drop_last() == old(self).conns@
                    &&& final(self).conns@.last().handle == h
                    &&& final(self).conns@.last().state == State::Init
                    &&& !final(self).conns@.last().has_events
                    &&& final(self).conns@.last().attempt() == Some(key@)
                },
                None => {
                    &&& *final(self) == *old(self)
                    &&& ((exists|j: int|
                        0 <= j < old(self).conns@.len() && #[trigger] old(self).conns@[j].attempt()
                            == Some(key@)) || old(self).next_handle == u64::MAX)
                },
            },
    {
        if self.find_attempt(&key).is_some() || self.next_handle == u64::MAX {
            return None;
        }
        let h = self.next_handle;
        let ghost k = key@;
        self.conns.push(
            ServerConnectionState {
                handle: h,
                state: State::Init,
                has_events: false,
                active_attempt: Some(key),
            },
        );
        self.next_handle = h + 1;
        assert(self.conns@.drop_last() =~= old(self).conns@);
        assert(self.conns@.last().attempt() == Some(k));
        assert forall|i: int, j: int|
            0 <= i < self.conns@.len() && 0 <= j < self.conns@.len() && i != j
                && #[trigger] self.conns@[i].attempt() is Some implies self.conns@[i].attempt()
            != #[trigger] self.conns@[j].attempt() by {
            let n = old(self).conns@.len() as int;
            if i < n && j < n {
                assert(old(self).conns@[i] == self.conns@[i]);
                assert(old(self).conns@[j] == self.conns@[j]);
            } else if i < n {
                assert(old(self).conns@[i] == self.conns@[i]);
            } else {
                assert(old(self).conns@[j] == self.conns@[j]);
            }
        }
        assert(!old(self).has_conn(h));
        Some(h)
    }

    /// Records what the engine of connection `h` reported after it
    /// processed input (see `ServerConnectionState::process`).
    pub fn record(&mut self, h: u64, state: State, has_events: bool) -> (r: bool)
        requires
            old(self).wf(),
        ensures
            final(self).wf(),
            r == old(self).has_conn(h),
            final(self).routes == old(self).routes,
            final(self).conns@.len() == old(self).conns@.len(),
            forall|j: int|
                0 <= j < old(self).conns@.len() ==> {
                    let c = #[trigger] final(self).conns@[j];
                    let o = old(self).conns@[j];
                    if o.handle == h {
                        c.handle == h && c.state == state && c.has_events == has_events
                            && c.attempt() == if past_handshaking(state) {
                            None
                        } else {
                            o.attempt()
                        }
                    } else {
                        c == o
                    }
                },
    {
        match self.conn_index(h) {
            None => false,
            Some(j) => {
                let mut c = self.conns.remove(j);
                c.process(state, has_events);
                self.conns.insert(j, c);
                assert forall|m: int| 0 <= m < old(self).conns@.len() && m != j implies
                    #[trigger] self.conns@[m] == old(self).conns@[m] by {}
                assert forall|a: int, b: int|
                    0 <= a < self.conns@.len() && 0 <= b < self.conns@.len() && a != b
                        && #[trigger] self.conns@[a].attempt() is Some implies self.conns@[a].attempt()
                    != #[trigger] self.conns@[b].attempt() by {
                    assert(old(self).conns@[a].attempt() is Some);
                    assert(old(self).conns@[a].attempt() != old(self).conns@[b].attempt());
                }
                assert forall|a: int, b: int| 0 <= a < b < self.conns@.len() implies
                    #[trigger] self.conns@[a].handle != #[trigger] self.conns@[b].handle by {
                    assert(old(self).conns@[a].handle != old(self).conns@[b].handle);
                }
                assert forall|a: int| 0 <= a < self.conns@.len() implies
                    #[trigger] self.conns@[a].handle < self.next_handle by {
                    assert(old(self).conns@[a].handle < old(self).next_handle);
                }
                true
            },
        }
    }

    /// Removes every connection whose state is `Closed`, and every row that
    /// routes to one.
    pub fn remove_closed(&mut self)
        requires
            old(self).wf(),
        ensures
            final(self).wf(),
            final(self).next_handle == old(self).next_handle,
            forall|j: int|
                0 <= j < final(self).conns@.len() ==> #[trigger] final(self).conns@[j].state
                    != State::Closed,
            forall|j: int|
                0 <= j < final(self).conns@.len() ==> conn_in(
                    old(self).conns@,
                    #[trigger] final(self).conns@[j],
                ),
            forall|m: int|
                0 <= m < old(self).conns@.len() && #[trigger] old(self).conns@[m].state
                    != State::Closed ==> conn_in(final(self).conns@, old(self).conns@[m]),
            forall|k: Seq<u8>, g: u64|
                #[trigger] final(self).routes_to(k, g) == (old(self).routes_to(k, g)
                    && final(self).has_conn(g)),
    {
        let ghost oc = self.conns@;
        let ghost mut idx: Seq<int> = Seq::empty();
        let mut i: usize = 0;
        let ghost mut o: int = 0;
        while i < self.conns.len()
            invariant
                0 <= i <= o <= oc.len(),
                self.conns@.len() == i + (oc.len() - o),
                self.next_handle == old(self).next_handle,
                self.routes == old(self).routes,
                oc == old(self).conns@,
                old(self).wf(),
                idx.len() == i,
                forall|j: int| 0 <= j < i ==> #[trigger] self.conns@[j].state != State::Closed,
                forall|j: int|
                    i <= j < self.conns@.len() ==> #[trigger] self.conns@[j] == oc[o + (j - i)],
                forall|j: int|
                    0 <= j < i ==> 0 <= #[trigger] idx[j] < o && self.conns@[j] == oc[idx[j]],
                forall|a: int, b: int| 0 <= a < b < i ==> #[trigger] idx[a] < #[trigger] idx[b],
                forall|m: int|
                    0 <= m < o && #[trigger] oc[m].state != State::Closed ==> exists|j: int|
                        0 <= j < i && oc[m] == #[trigger] self.conns@[j],
            decreases self.conns@.len() - i,
        {
            if self.conns[i].state == State::Closed {
                let ghost pre = self.conns@;
                self.conns.remove(i);
                proof {
                    assert forall|j: int| 0 <= j < i implies #[trigger] self.conns@[j] == pre[j] by {}
                    assert forall|m: int| 0 <= m < o + 1 && #[trigger] oc[m].state != State::Closed implies exists|j: int|
                        0 <= j < i && oc[m] == #[trigger] self.conns@[j] by {
                        if m < o {
                            let j = choose|j: int| 0 <= j < i && oc[m] == #[trigger] pre[j];
                            assert(self.conns@[j] == pre[j]);
                        } else {
                            assert(pre[i as int] == oc[o]);
                        }
                    }
                    o = o + 1;
                }
            } else {
                proof {
                    assert(self.conns@[i as int] == oc[o]);
                    idx = idx.push(o);
                    o = o + 1;
                    assert forall|m: int| 0 <= m < o && #[trigger] oc[m].state != State::Closed implies exists|j: int|
                        0 <= j < i + 1 && oc[m] == #[trigger] self.conns@[j] by {
                        if m == o - 1 {
                            assert(self.conns@[i as int] == oc[m]);
                        }
                    }
                }
                i = i + 1;
            }
        }
        proof {
            assert forall|a: int, b: int| 0 <= a < b < self.conns@.len() implies
                #[trigger] self.conns@[a].handle != #[trigger] self.conns@[b].handle by {
                assert(idx[a] < idx[b]);
                assert(oc[idx[a]].handle != oc[idx[b]].handle);
            }
            assert forall|a: int, b: int|
                0 <= a < self.conns@.len() && 0 <= b < self.conns@.len() && a != b
                    && #[trigger] self.conns@[a].attempt() is Some implies self.conns@[a].attempt()
                != #[trigger] self.conns@[b].attempt() by {
                if a < b {
                    assert(idx[a] < idx[b]);
                } else {
                    assert(idx[b] < idx[a]);
                }
                assert(oc[idx[a]].attempt() != oc[idx[b]].attempt());
            }
            assert forall|a: int| 0 <= a < self.conns@.len() implies
                #[trigger] self.conns@[a].handle < self.next_handle by {
                assert(oc[idx[a]].handle < old(self).next_handle);
            }
            assert forall|j: int| #![trigger self.conns@[j]] 0 <= j < self.conns@.len() implies exists|m: int|
                0 <= m < oc.len() && #[trigger] oc[m] == self.conns@[j] by {
                assert(oc[idx[j]] == self.conns@[j]);
            }
        }
        let ghost kept = self.conns@;
        self.remove_dead_routes();
        assert(self.conns@ == kept);
        assert forall|j: int| #![trigger self.conns@[j]] 0 <= j < self.conns@.len() implies exists|m: int|
            0 <= m < oc.len() && #[trigger] oc[m] == self.conns@[j] by {
            assert(oc[idx[j]] == kept[j]);
        }
        assert forall|j: int| 0 <= j < self.conns@.len() implies conn_in(old(self).conns@, #[trigger] self.conns@[j]) by {
            assert(old(self).conns@[idx[j]] == self.conns@[j]);
        }
        assert forall|m: int| 0 <= m < old(self).conns@.len() && #[trigger] old(self).conns@[m].state
                    != State::Closed implies conn_in(self.conns@, old(self).conns@[m]) by {
            assert(oc[m].state != State::Closed);
            let j = choose|j: int| 0 <= j < i && oc[m] == #[trigger] kept[j];
        }
    }

    /// Removes every row whose handle names no connection.
    fn remove_dead_routes(&mut self)
        requires
            old(self).wf(),
        ensures
            final(self).wf(),
            final(self).conns == old(self).conns,
            final(self).next_handle == old(self).next_handle,
            forall|k: Seq<u8>, g: u64|
                #[trigger] final(self).routes_to(k, g) == (old(self).routes_to(k, g)
                    && final(self).has_conn(g)),
    {
        let ghost orr = self.routes@;
        let ghost mut idx: Seq<int> = Seq::empty();
        let mut i: usize = 0;
        let ghost mut o: int = 0;
        while i < self.routes.len()
            invariant
                0 <= i <= o <= orr.len(),
                self.routes@.len() == i + (orr.len() - o),
                self.conns == old(self).conns,
                self.next_handle == old(self).next_handle,
                orr == old(self).routes@,
                old(self).wf(),
                idx.len() == i,
                forall|j: int| 0 <= j < i ==> self.has_conn(#[trigger] self.routes@[j].handle),
                forall|j: int|
                    i <= j < self.routes@.len() ==> #[trigger] self.routes@[j] == orr[o + (j - i)],
                forall|j: int|
                    0 <= j < i ==> 0 <= #[trigger] idx[j] < o && self.routes@[j] == orr[idx[j]],
                forall|a: int, b: int| 0 <= a < b < i ==> #[trigger] idx[a] < #[trigger] idx[b],
                forall|m: int|
                    0 <= m < o && self.has_conn(#[trigger] orr[m].handle) ==> exists|j: int|
                        0 <= j < i && orr[m] == #[trigger] self.routes@[j],
            decreases self.routes@.len() - i,
        {
            let live = self.conn_index(self.routes[i].handle).is_some();
            if !live {
                let ghost pre = self.routes@;
                self.routes.remove(i);
                proof {
                    assert forall|j: int| 0 <= j < i implies #[trigger] self.routes@[j] == pre[j] by {}
                    assert forall|m: int| 0 <= m < o + 1 && self.has_conn(#[trigger] orr[m].handle) implies exists|j: int|
                        0 <= j < i && orr[m] == #[trigger] self.routes@[j] by {
                        if m < o {
                            let j = choose|j: int| 0 <= j < i && orr[m] == #[trigger] pre[j];
                            assert(self.routes@[j] == pre[j]);
                        } else {
                            assert(pre[i as int] == orr[o]);
                        }
                    }
                    o = o + 1;
                }
            } else {
                proof {
                    assert(self.routes@[i as int] == orr[o]);
                    idx = idx.push(o);
                    o = o + 1;
                    assert forall|m: int| 0 <= m < o && self.has_conn(#[trigger] orr[m].handle) implies exists|j: int|
                        0 <= j < i + 1 && orr[m] == #[trigger] self.routes@[j] by {
                        if m == o - 1 {
                            assert(self.routes@[i as int] == orr[m]);
                        }
                    }
                }
                i = i + 1;
            }
        }
        proof {
            assert forall|a: int, b: int| 0 <= a < b < self.routes@.len() implies
                #[trigger] self.routes@[a].cid@ != #[trigger] self.routes@[b].cid@ by {
                assert(idx[a] < idx[b]);
                assert(orr[idx[a]].cid@ != orr[idx[b]].cid@);
            }
            assert forall|k: Seq<u8>, g: u64|
                #[trigger] self.routes_to(k, g) == (old(self).routes_to(k, g) && self.has_conn(g)) by {
                if self.routes_to(k, g) {
                    let j = choose|j: int|
                        0 <= j < self.routes@.len() && #[trigger] self.routes@[j].cid@ == k
                            && self.routes@[j].handle == g;
                    assert(orr[idx[j]].cid@ == k);
                    assert(self.has_conn(self.routes@[j].handle));
                }
                if old(self).routes_to(k, g) && self.has_conn(g) {
                    let m = choose|m: int|
                        0 <= m < orr.len() && #[trigger] orr[m].cid@ == k && orr[m].handle == g;
                    assert(self.has_conn(orr[m].handle));
                    let j = choose|j: int| 0 <= j < i && orr[m] == #[trigger] self.routes@[j];
                    assert(self.routes@[j].cid@ == k);
                }
            }
        }
    }

    /// Index of the connection that answers handshake attempt `key`.
    pub fn find_attempt(&self, key: &AttemptKey) -> (r: Option<usize>)
        ensures
            match r {
                Some(j) => j < self.conns@.len() && self.conns@[j as int].attempt() == Some(key@),
                None => forall|j: int|
                    0 <= j < self.conns@.len() ==> #[trigger] self.conns@[j].attempt() != Some(
                        key@,
                    ),
            },
    {
        let mut j: usize = 0;
        while j < self.conns.len()
            invariant
                j <= self.conns@.len(),
                forall|m: int| 0 <= m < j ==> #[trigger] self.conns@[m].attempt() != Some(key@),
            decreases self.conns@.len() - j,
        {
            match &self.conns[j].active_attempt {
                Some(a) => {
                    if a.same(key) {
                        return Some(j);
                    }
                },
                None => {},
            }
            j = j + 1;
        }
        None
    }
}

} // verus!

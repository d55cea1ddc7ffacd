//! The connection pool: per backend, an insertion-ordered collection of
//! connections, each idle or in use, identified by a number that the pool
//! assigns when the connection is created and never reuses.
use vstd::prelude::*;

verus! {

/// Whether a pooled connection may be handed out.
#[derive(Clone, Copy, Debug, PartialEq, Eq, Structural)]
pub enum ConnState {
    Idle,
    InUse,
}

/// One pooled connection: the backend it leads to, its identifier and its tag.
#[derive(Clone, Copy, Debug, PartialEq, Eq, Structural)]
pub struct PooledConnection {
    pub backend: usize,
    pub id: u64,
    pub state: ConnState,
}

/// What the pool looks like to a reader: all connections in insertion order,
/// and the identifier that the next new connection will get.
pub struct PoolModel {
    pub conns: Seq<PooledConnection>,
    pub next_id: u64,
}

/// An event that drives one acquisition of a connection.
#[derive(Clone, Copy, Debug, PartialEq, Eq, Structural)]
pub enum AcquireEvent {
    /// Start looking for a connection.
    Begin,
    /// The liveness probe on connection `id` passed (`true`) or failed.
    Probed(u64, bool),
    /// Opening a new socket to the backend succeeded (`true`) or failed.
    Connected(bool),
}

/// What the caller has to do next while acquiring a connection.
#[derive(Clone, Copy, Debug, PartialEq, Eq, Structural)]
pub enum AcquireAction {
    /// Run the liveness probe on the idle connection with this identifier.
    Probe(u64),
    /// Open a new socket to the backend.
    Connect,
    /// The connection with this identifier is now in use by the caller.
    Ready(u64),
    /// No connection could be had: the connect attempt failed.
    Failed,
}

/// Which pooled connections a search looks for: those of one backend,
/// optionally with one identifier, optionally with one tag.
#[derive(Clone, Copy, Debug, PartialEq, Eq, Structural)]
pub struct Query {
    pub backend: usize,
    pub id: Option<u64>,
    pub state: Option<ConnState>,
}

impl Query {
    pub open spec fn accepts(self, c: PooledConnection) -> bool {
        &&& c.backend == self.backend
        &&& (self.id is Some ==> c.id == self.id->0)
        &&& (self.state is Some ==> c.state == self.state->0)
    }

    pub open spec fn idle_of(b: usize) -> Query {
        Query { backend: b, id: None, state: Some(ConnState::Idle) }
    }

    pub open spec fn idle_entry(b: usize, id: u64) -> Query {
        Query { backend: b, id: Some(id), state: Some(ConnState::Idle) }
    }

    pub open spec fn in_use_entry(b: usize, id: u64) -> Query {
        Query { backend: b, id: Some(id), state: Some(ConnState::InUse) }
    }

    pub open spec fn entry_of(b: usize, id: u64) -> Query {
        Query { backend: b, id: Some(id), state: None }
    }
}

/// Whether `k` is the index of the first element of `s` that `q` accepts.
pub open spec fn is_first(s: Seq<PooledConnection>, q: Query, k: int) -> bool {
    &&& 0 <= k < s.len()
    &&& q.accepts(s[k])
    &&& forall|j: int| 0 <= j < k ==> !q.accepts(#[trigger] s[j])
}

/// Index of the first element of `s` that `q` accepts, or `s.len()` when
/// there is none.
pub open spec fn first_index(s: Seq<PooledConnection>, q: Query) -> int {
    if exists|k: int| is_first(s, q, k) {
        choose|k: int| is_first(s, q, k)
    } else {
        s.len() as int
    }
}

/// Whether connection `id` is anywhere in the pool.
pub open spec fn holds_id(conns: Seq<PooledConnection>, id: u64) -> bool {
    exists|k: int| 0 <= k < conns.len() && (#[trigger] conns[k]).id == id
}

impl PoolModel {
    /// Identifiers increase in insertion order and stay below `next_id`:
    /// so they are unique, and a new connection never reuses an old one's.
    pub open spec fn wf(self) -> bool {
        &&& forall|i: int, j: int| 0 <= i < j < self.conns.len() ==> (#[trigger] self.conns[i]).id < (#[trigger] self.conns[j]).id
        &&& forall|i: int| 0 <= i < self.conns.len() ==> (#[trigger] self.conns[i]).id < self.next_id
    }

    /// The action that a search of backend `b`'s idle connections leads to:
    /// probe the first idle one in insertion order, or else open a new socket.
    pub open spec fn search(self, b: usize) -> AcquireAction {
        let k = first_index(self.conns, Query::idle_of(b));
        if k < self.conns.len() {
            AcquireAction::Probe(self.conns[k].id)
        } else {
            AcquireAction::Connect
        }
    }

    /// One step of acquiring a connection to backend `b`.
    pub open spec fn acquire_next(self, b: usize, ev: AcquireEvent) -> (PoolModel, AcquireAction) {
        match ev {
            AcquireEvent::Begin => (self, self.search(b)),
            AcquireEvent::Probed(id, passed) => {
                let k = first_index(self.conns, Query::idle_entry(b, id));
                if k < self.conns.len() {
                    if passed {
                        let c = self.conns[k];
                        (
                            PoolModel {
                                conns: self.conns.update(k, PooledConnection { state: ConnState::InUse, ..c }),
                                next_id: self.next_id,
                            },
                            AcquireAction::Ready(id),
                        )
                    } else {
                        let m = PoolModel { conns: self.conns.remove(k), next_id: self.next_id };
                        (m, m.search(b))
                    }
                } else {
                    (self, self.search(b))
                }
            },
            AcquireEvent::Connected(ok) => {
                if ok && self.next_id < u64::MAX {
                    (
                        PoolModel {
                            conns: self.conns.push(
                                PooledConnection { backend: b, id: self.next_id, state: ConnState::InUse },
                            ),
                            next_id: (self.next_id + 1) as u64,
                        },
                        AcquireAction::Ready(self.next_id),
                    )
                } else {
                    (self, AcquireAction::Failed)
                }
            },
        }
    }

    /// Returning connection `id` of backend `b`: the in-use entry becomes idle;
    /// with no such entry nothing changes.
    pub open spec fn release(self, b: usize, id: u64) -> PoolModel {
        let k = first_index(self.conns, Query::in_use_entry(b, id));
        if k < self.conns.len() {
            let c = self.conns[k];
            PoolModel {
                conns: self.conns.update(k, PooledConnection { state: ConnState::Idle, ..c }),
                next_id: self.next_id,
            }
        } else {
            self
        }
    }

    /// Dropping connection `id` of backend `b` from the pool, whatever its tag;
    /// with no such entry nothing changes.
    pub open spec fn evict(self, b: usize, id: u64) -> PoolModel {
        let k = first_index(self.conns, Query::entry_of(b, id));
        if k < self.conns.len() {
            PoolModel { conns: self.conns.remove(k), next_id: self.next_id }
        } else {
            self
        }
    }
}


/// If some element of `s` is accepted by `q`, `first_index` finds the first
/// one; otherwise it is `s.len()`.
pub proof fn lemma_first_index(s: Seq<PooledConnection>, q: Query)
    ensures
        (exists|k: int| 0 <= k < s.len() && q.accepts(#[trigger] s[k])) ==> is_first(s, q, first_index(s, q)),
        (forall|k: int| 0 <= k < s.len() ==> !q.accepts(#[trigger] s[k])) ==> first_index(s, q) == s.len(),
{
    if exists|k: int| 0 <= k < s.len() && q.accepts(#[trigger] s[k]) {
        let k = choose|k: int| 0 <= k < s.len() && q.accepts(#[trigger] s[k]);
        lemma_some_first(s, q, k);
    }
}

proof fn lemma_some_first(s: Seq<PooledConnection>, q: Query, k: int)
    requires
        0 <= k < s.len(),
        q.accepts(s[k]),
    ensures
        exists|i: int| is_first(s, q, i),
    decreases k,
{
    if exists|j: int| 0 <= j < k && q.accepts(#[trigger] s[j]) {
        let j = choose|j: int| 0 <= j < k && q.accepts(#[trigger] s[j]);
        lemma_some_first(s, q, j);
    } else {
        assert(is_first(s, q, k));
    }
}

/// The first accepted index is the only index that is first.
pub proof fn lemma_first_unique(s: Seq<PooledConnection>, q: Query, k: int)
    requires
        is_first(s, q, k),
    ensures
        first_index(s, q) == k,
{
    let i = choose|i: int| is_first(s, q, i);
    if i < k {
        assert(!q.accepts(s[i]));
    } else if i > k {
        assert(!q.accepts(s[k]));
    }
}

/// In a well-formed pool no two entries share an identifier.
pub proof fn lemma_ids_unique(m: PoolModel, i: int, j: int)
    requires
        m.wf(),
        0 <= i < m.conns.len(),
        0 <= j < m.conns.len(),
        m.conns[i].id == m.conns[j].id,
    ensures
        i == j,
{
    if i < j {
        assert(m.conns[i].id < m.conns[j].id);
    } else if j < i {
        assert(m.conns[j].id < m.conns[i].id);
    }
}

/// Reuse: when connection `id` to backend `b` is in use and no idle
/// connection to `b` comes before it in insertion order, giving `id` back and then acquiring a connection to `b` probes
/// that very connection, and a passing probe hands it out again, with no new
/// socket opened: the pool ends as it was before the release.
pub proof fn lemma_reuse_after_release(m: PoolModel, b: usize, id: u64)
    requires
        m.wf(),
        exists|k: int|
            0 <= k < m.conns.len() && m.conns[k] == (PooledConnection { backend: b, id, state: ConnState::InUse })
                && forall|j: int| 0 <= j < k ==> !Query::idle_of(b).accepts(#[trigger] m.conns[j]),
    ensures
        m.release(b, id).acquire_next(b, AcquireEvent::Begin).1 == AcquireAction::Probe(id),
        m.release(b, id).acquire_next(b, AcquireEvent::Probed(id, true)) == (m, AcquireAction::Ready(id)),
{
    let k = choose|k: int|
        0 <= k < m.conns.len() && m.conns[k] == (PooledConnection { backend: b, id, state: ConnState::InUse })
            && forall|j: int| 0 <= j < k ==> !Query::idle_of(b).accepts(#[trigger] m.conns[j]);
    assert(is_first(m.conns, Query::in_use_entry(b, id), k));
    lemma_first_unique(m.conns, Query::in_use_entry(b, id), k);
    let m1 = m.release(b, id);
    assert(m1.conns == m.conns.update(k, PooledConnection { backend: b, id, state: ConnState::Idle }));
    assert(is_first(m1.conns, Query::idle_of(b), k));
    lemma_first_unique(m1.conns, Query::idle_of(b), k);
    assert(is_first(m1.conns, Query::idle_entry(b, id), k));
    lemma_first_unique(m1.conns, Query::idle_entry(b, id), k);
    assert(m1.conns.update(k, PooledConnection { backend: b, id, state: ConnState::InUse }) =~= m.conns);
}

/// Eviction: a connection whose probe fails leaves the pool for good, and
/// when it was the backend's only idle connection the acquisition goes on to
/// open a fresh socket.
pub proof fn lemma_failed_probe_evicts(m: PoolModel, b: usize, id: u64)
    requires
        m.wf(),
        exists|k: int| 0 <= k < m.conns.len() && m.conns[k] == (PooledConnection { backend: b, id, state: ConnState::Idle }),
    ensures
        !holds_id(m.acquire_next(b, AcquireEvent::Probed(id, false)).0.conns, id),
        m.acquire_next(b, AcquireEvent::Probed(id, false)).0.next_id == m.next_id,
        (forall|k: int| 0 <= k < m.conns.len() && Query::idle_of(b).accepts(#[trigger] m.conns[k]) ==> m.conns[k].id == id)
            ==> m.acquire_next(b, AcquireEvent::Probed(id, false)).1 == AcquireAction::Connect,
{
    let k = choose|k: int| 0 <= k < m.conns.len() && m.conns[k] == (PooledConnection { backend: b, id, state: ConnState::Idle });
    assert(is_first(m.conns, Query::idle_entry(b, id), k));
    lemma_first_unique(m.conns, Query::idle_entry(b, id), k);
    let c1 = m.conns.remove(k);
    assert forall|j: int| 0 <= j < c1.len() implies (#[trigger] c1[j]).id != id by {
        let o = if j < k { j } else { j + 1 };
        assert(c1[j] == m.conns[o]);
        if m.conns[o].id == id {
            lemma_ids_unique(m, o, k);
        }
    }
    if forall|j: int| 0 <= j < m.conns.len() && Query::idle_of(b).accepts(#[trigger] m.conns[j]) ==> m.conns[j].id == id {
        assert forall|j: int| 0 <= j < c1.len() implies !Query::idle_of(b).accepts(#[trigger] c1[j]) by {
            let o = if j < k { j } else { j + 1 };
            assert(c1[j] == m.conns[o]);
        }
        lemma_first_index(c1, Query::idle_of(b));
    }
}

/// An identifier that has left the pool never comes back: no step of an
/// acquisition, no release and no eviction puts it back in the pool, probes
/// it, or hands it out, because new connections get identifiers above every
/// one issued before.
pub proof fn lemma_gone_stays_gone(m: PoolModel, id: u64, b: usize, ev: AcquireEvent, rb: usize, rid: u64)
    requires
        m.wf(),
        id < m.next_id,
        !holds_id(m.conns, id),
    ensures
        !holds_id(m.acquire_next(b, ev).0.conns, id),
        id < m.acquire_next(b, ev).0.next_id,
        m.acquire_next(b, ev).1 != AcquireAction::Probe(id),
        m.acquire_next(b, ev).1 != AcquireAction::Ready(id),
        !holds_id(m.release(rb, rid).conns, id),
        id < m.release(rb, rid).next_id,
        !holds_id(m.evict(rb, rid).conns, id),
        id < m.evict(rb, rid).next_id,
{
    let (m1, a) = m.acquire_next(b, ev);
    lemma_search_in_pool(m, b);
    match ev {
        AcquireEvent::Begin => {},
        AcquireEvent::Probed(pid, passed) => {
            let k = first_index(m.conns, Query::idle_entry(b, pid));
            lemma_first_index(m.conns, Query::idle_entry(b, pid));
            if k < m.conns.len() {
                if passed {
                    assert(m.conns[k].id == pid);
                    assert forall|j: int| 0 <= j < m1.conns.len() implies (#[trigger] m1.conns[j]).id != id by {
                        assert(m1.conns[j].id == m.conns[j].id);
                    }
                } else {
                    let c1 = m.conns.remove(k);
                    assert forall|j: int| 0 <= j < c1.len() implies (#[trigger] c1[j]).id != id by {
                        let o = if j < k { j } else { j + 1 };
                        assert(c1[j] == m.conns[o]);
                    }
                    let mm = PoolModel { conns: c1, next_id: m.next_id };
                    lemma_search_in_pool(mm, b);
                }
            }
        },
        AcquireEvent::Connected(ok) => {
            if ok && m.next_id < u64::MAX {
                assert forall|j: int| 0 <= j < m1.conns.len() implies (#[trigger] m1.conns[j]).id != id by {
                    if j < m.conns.len() {
                        assert(m1.conns[j] == m.conns[j]);
                    }
                }
            }
        },
    }
    let kr = first_index(m.conns, Query::in_use_entry(rb, rid));
    if kr < m.conns.len() {
        let r1 = m.release(rb, rid);
        assert forall|j: int| 0 <= j < r1.conns.len() implies (#[trigger] r1.conns[j]).id != id by {
            assert(r1.conns[j].id == m.conns[j].id);
        }
    }
    let ke = first_index(m.conns, Query::entry_of(rb, rid));
    if ke < m.conns.len() {
        let c2 = m.conns.remove(ke);
        assert forall|j: int| 0 <= j < c2.len() implies (#[trigger] c2[j]).id != id by {
            let o = if j < ke { j } else { j + 1 };
            assert(c2[j] == m.conns[o]);
        }
    }
}

/// Connections are never shared: a step that hands out connection `id`
/// takes it from the idle set or creates it, never from another holder, and
/// leaves it recorded as in use for backend `b`.
pub proof fn lemma_handout_exclusive(m: PoolModel, b: usize, ev: AcquireEvent, id: u64)
    requires
        m.wf(),
        m.acquire_next(b, ev).1 == AcquireAction::Ready(id),
    ensures
        forall|k: int| 0 <= k < m.conns.len() && (#[trigger] m.conns[k]).id == id ==> m.conns[k].state == ConnState::Idle,
        exists|k: int| 0 <= k < m.acquire_next(b, ev).0.conns.len() && (#[trigger] m.acquire_next(b, ev).0.conns[k]) == (PooledConnection { backend: b, id, state: ConnState::InUse }),
{
    let m1 = m.acquire_next(b, ev).0;
    lemma_search_in_pool(m, b);
    match ev {
        AcquireEvent::Begin => {
            // a search only probes or connects
            assert(false);
        },
        AcquireEvent::Probed(pid, passed) => {
            let k = first_index(m.conns, Query::idle_entry(b, pid));
            lemma_first_index(m.conns, Query::idle_entry(b, pid));
            if k < m.conns.len() && passed {
                assert forall|j: int| 0 <= j < m.conns.len() && (#[trigger] m.conns[j]).id == id implies m.conns[j].state == ConnState::Idle by {
                    lemma_ids_unique(m, j, k);
                }
                assert(m1.conns[k] == PooledConnection { backend: b, id, state: ConnState::InUse });
            } else if k < m.conns.len() {
                // a failed probe is followed by a search, which hands nothing out
                lemma_search_in_pool(PoolModel { conns: m.conns.remove(k), next_id: m.next_id }, b);
                assert(false);
            } else {
                // an unknown probe result restarts the search
                assert(false);
            }
        },
        AcquireEvent::Connected(ok) => {
            assert(m1.conns[m.conns.len() as int] == PooledConnection { backend: b, id, state: ConnState::InUse });
        },
    }
}

/// Answers the probes of an acquisition on backend `b` as a backend whose
/// idle connections are all dead would: every probe fails. Stops at the
/// first action that is not a probe, or when `fuel` runs out.
pub open spec fn probes_fail(m: PoolModel, b: usize, a: AcquireAction, fuel: nat) -> (PoolModel, AcquireAction)
    decreases fuel,
{
    match a {
        AcquireAction::Probe(id) => {
            if fuel == 0 {
                (m, a)
            } else {
                let (m1, a1) = m.acquire_next(b, AcquireEvent::Probed(id, false));
                probes_fail(m1, b, a1, (fuel - 1) as nat)
            }
        },
        _ => (m, a),
    }
}

/// `m1` is `m` without the idle connections of backend `b`.
pub open spec fn without_idle_of(m: PoolModel, m1: PoolModel, b: usize) -> bool {
    &&& m1.next_id == m.next_id
    &&& forall|k: int| 0 <= k < m1.conns.len() ==> !Query::idle_of(b).accepts(#[trigger] m1.conns[k])
    &&& forall|c: PooledConnection| #[trigger] m1.conns.contains(c) ==> m.conns.contains(c)
    &&& forall|c: PooledConnection| #[trigger] m.conns.contains(c) && !Query::idle_of(b).accepts(c) ==> m1.conns.contains(c)
}

proof fn lemma_probes_fail(m: PoolModel, b: usize, fuel: nat)
    requires
        m.wf(),
        fuel >= m.conns.len(),
    ensures
        probes_fail(m, b, m.search(b), fuel).1 == AcquireAction::Connect,
        without_idle_of(m, probes_fail(m, b, m.search(b), fuel).0, b),
        probes_fail(m, b, m.search(b), fuel).0.wf(),
    decreases fuel,
{
    lemma_first_index(m.conns, Query::idle_of(b));
    let k = first_index(m.conns, Query::idle_of(b));
    match m.search(b) {
        AcquireAction::Probe(id) => {
            assert(is_first(m.conns, Query::idle_entry(b, id), k));
            lemma_first_unique(m.conns, Query::idle_entry(b, id), k);
            let c1 = m.conns.remove(k);
            let m1 = PoolModel { conns: c1, next_id: m.next_id };
            assert(m.acquire_next(b, AcquireEvent::Probed(id, false)) == (m1, m1.search(b)));
            assert(m1.wf()) by {
                assert forall|i: int, j: int| 0 <= i < j < c1.len() implies (#[trigger] c1[i]).id < (#[trigger] c1[j]).id by {
                    let oi = if i < k { i } else { i + 1 };
                    let oj = if j < k { j } else { j + 1 };
                    assert(c1[i] == m.conns[oi] && c1[j] == m.conns[oj]);
                }
            }
            lemma_probes_fail(m1, b, (fuel - 1) as nat);
            let r = probes_fail(m1, b, m1.search(b), (fuel - 1) as nat).0;
            assert forall|c: PooledConnection| #[trigger] r.conns.contains(c) implies m.conns.contains(c) by {
                assert(c1.contains(c));
                let i = choose|i: int| 0 <= i < c1.len() && c1[i] == c;
                if i < k {
                    assert(m.conns[i] == c);
                } else {
                    assert(m.conns[i + 1] == c);
                }
            }
            assert forall|c: PooledConnection| #[trigger] m.conns.contains(c) && !Query::idle_of(b).accepts(c) implies r.conns.contains(c) by {
                let j = choose|j: int| 0 <= j < m.conns.len() && m.conns[j] == c;
                if j < k {
                    assert(c1[j] == c);
                } else {
                    assert(c1[j - 1] == c);
                }
                assert(c1.contains(c));
            }
        },
        _ => {},
    }
}

/// Eviction, in general: when every idle connection of backend `b` fails its
/// probe, each of them leaves the pool, the acquisition then asks for a new
/// socket, and once it is open it is handed out under an identifier that no
/// connection had before. Nothing else in the pool changes.
pub proof fn lemma_all_probes_fail(m: PoolModel, b: usize)
    requires
        m.wf(),
        m.next_id < u64::MAX,
    ensures
        ({
            let (m1, a1) = probes_fail(m, b, m.search(b), m.conns.len());
            let (m2, a2) = m1.acquire_next(b, AcquireEvent::Connected(true));
            &&& a1 == AcquireAction::Connect
            &&& without_idle_of(m, m1, b)
            &&& a2 == AcquireAction::Ready(m.next_id)
            &&& !holds_id(m.conns, m.next_id)
            &&& m2.conns == m1.conns.push(PooledConnection { backend: b, id: m.next_id, state: ConnState::InUse })
        }),
{
    lemma_probes_fail(m, b, m.conns.len());
}

/// A probe asked for by a search names a connection that is in the pool.
proof fn lemma_search_in_pool(m: PoolModel, b: usize)
    ensures
        forall|x: u64| m.search(b) == AcquireAction::Probe(x) ==> holds_id(m.conns, x),
{
    let k = first_index(m.conns, Query::idle_of(b));
    lemma_first_index(m.conns, Query::idle_of(b));
    if k < m.conns.len() {
        assert(m.search(b) == AcquireAction::Probe(m.conns[k].id));
    }
}

/// Dropping a connection after a failed forward: when every entry with
/// identifier `id` belongs to backend `b`, evicting `(b, id)` leaves no trace
/// of `id` in the pool.
pub proof fn lemma_evict_removes(m: PoolModel, b: usize, id: u64)
    requires
        m.wf(),
        forall|k: int| 0 <= k < m.conns.len() && (#[trigger] m.conns[k]).id == id ==> m.conns[k].backend == b,
    ensures
        !holds_id(m.evict(b, id).conns, id),
        m.evict(b, id).next_id == m.next_id,
        m.evict(b, id).wf(),
{
    lemma_first_index(m.conns, Query::entry_of(b, id));
    let k = first_index(m.conns, Query::entry_of(b, id));
    if k < m.conns.len() {
        let c1 = m.conns.remove(k);
        assert forall|j: int| 0 <= j < c1.len() implies (#[trigger] c1[j]).id != id by {
            let o = if j < k { j } else { j + 1 };
            assert(c1[j] == m.conns[o]);
            if m.conns[o].id == id {
                lemma_ids_unique(m, o, k);
            }
        }
        assert forall|i: int, j: int| 0 <= i < j < c1.len() implies (#[trigger] c1[i]).id < (#[trigger] c1[j]).id by {
            let oi = if i < k { i } else { i + 1 };
            let oj = if j < k { j } else { j + 1 };
            assert(c1[i] == m.conns[oi] && c1[j] == m.conns[oj]);
        }
    } else {
        assert forall|j: int| 0 <= j < m.conns.len() implies (#[trigger] m.conns[j]).id != id by {
            if m.conns[j].id == id {
                assert(Query::entry_of(b, id).accepts(m.conns[j]));
            }
        }
    }
}

/// Sockets to backends, tracked by identifier and tagged idle or in use.
pub struct ConnectionPool {
    connections: Vec<PooledConnection>,
    next_id: u64,
}

impl View for ConnectionPool {
    type V = PoolModel;

    closed spec fn view(&self) -> PoolModel {
        PoolModel { conns: self.connections@, next_id: self.next_id }
    }
}

impl ConnectionPool {
    /// An empty pool.
    pub fn new() -> (r: ConnectionPool)
        ensures
            r@.conns.len() == 0,
            r@.next_id == 0,
            r@.wf(),
    {
        ConnectionPool { connections: Vec::new(), next_id: 0 }
    }

    /// All connections, in insertion order.
    pub fn connections(&self) -> (r: &Vec<PooledConnection>)
        ensures
            r@ == self@.conns,
    {
        &self.connections
    }

    fn search(&self, b: usize) -> (r: AcquireAction)
        ensures
            r == self@.search(b),
    {
        let k = find_first(&self.connections, Query { backend: b, id: None, state: Some(ConnState::Idle) });
        if k < self.connections.len() {
            AcquireAction::Probe(self.connections[k].id)
        } else {
            AcquireAction::Connect
        }
    }

    /// One step of acquiring a connection to backend `backend`. Idle
    /// connections are probed first, in insertion order: one that passes is
    /// handed out, one that fails is dropped for good. When none is left, a
    /// new socket is asked for; once it is open it is recorded as in use
    /// under a fresh identifier. A failed connect, or an opened socket when
    /// every identifier has been issued, ends in `Failed`.
    pub fn get_connection_step(&mut self, backend: usize, event: AcquireEvent) -> (r: AcquireAction)
        ensures
            (final(self)@, r) == old(self)@.acquire_next(backend, event),
            old(self)@.wf() ==> final(self)@.wf(),
    {
        match event {
            AcquireEvent::Begin => self.search(backend),
            AcquireEvent::Probed(id, passed) => {
                let k = find_first(
                    &self.connections,
                    Query { backend, id: Some(id), state: Some(ConnState::Idle) },
                );
                if k < self.connections.len() {
                    if passed {
                        let c = self.connections[k];
                        self.connections.set(k, PooledConnection { state: ConnState::InUse, ..c });
                        AcquireAction::Ready(id)
                    } else {
                        let ghost before = self.connections@;
                        self.connections.remove(k);
                        assert(self.connections@ == before.remove(k as int));
                        self.search(backend)
                    }
                } else {
                    self.search(backend)
                }
            },
            AcquireEvent::Connected(ok) => {
                if ok && self.next_id < u64::MAX {
                    let id = self.next_id;
                    self.connections.push(PooledConnection { backend, id, state: ConnState::InUse });
                    self.next_id = id + 1;
                    AcquireAction::Ready(id)
                } else {
                    AcquireAction::Failed
                }
            },
        }
    }

    /// Returns connection `id` of backend `backend` to the idle set. A
    /// connection that is not tracked as in use (already dropped, or never
    /// handed out) leaves the pool as it is.
    pub fn release_connection(&mut self, backend: usize, id: u64)
        ensures
            final(self)@ == old(self)@.release(backend, id),
            old(self)@.wf() ==> final(self)@.wf(),
    {
        let k = find_first(&self.connections, Query { backend, id: Some(id), state: Some(ConnState::InUse) });
        if k < self.connections.len() {
            let c = self.connections[k];
            self.connections.set(k, PooledConnection { state: ConnState::Idle, ..c });
        }
    }

    /// Drops connection `id` of backend `backend` from the pool, idle or in
    /// use, so that it is never handed out again.
    pub fn evict_connection(&mut self, backend: usize, id: u64)
        ensures
            final(self)@ == old(self)@.evict(backend, id),
            old(self)@.wf() ==> final(self)@.wf(),
    {
        let k = find_first(&self.connections, Query { backend, id: Some(id), state: None });
        if k < self.connections.len() {
            self.connections.remove(k);
        }
    }
}

/// Finds the first connection in `v` that `q` accepts; `v.len()` if none does.
fn find_first(v: &Vec<PooledConnection>, q: Query) -> (r: usize)
    ensures
        r as int == first_index(v@, q),
{
    let mut i: usize = 0;
    while i < v.len()
        invariant
            i <= v.len(),
            forall|j: int| 0 <= j < i ==> !q.accepts(#[trigger] v@[j]),
        decreases v.len() - i,
    {
        let c = v[i];
        let id_ok = match q.id {
            Some(id) => c.id == id,
            None => true,
        };
        let state_ok = match q.state {
            Some(st) => c.state == st,
            None => true,
        };
        if c.backend == q.backend && id_ok && state_ok {
            assert(is_first(v@, q, i as int));
            assert(first_index(v@, q) == i as int) by {
                let k = choose|k: int| is_first(v@, q, k);
                if k < i {
                    assert(!q.accepts(v@[k]));
                } else if k > i {
                    assert(!q.accepts(v@[i as int]));
                }
            }
            return i;
        }
        i += 1;
    }
    assert(!exists|k: int| is_first(v@, q, k));
    i
}

} // verus!

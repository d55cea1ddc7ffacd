//! Round-robin backend selection over a fixed list of backends, with the
//! rotation cursor and the connection pool held together so that one
//! selection reads and advances both as a unit.
use vstd::prelude::*;
use crate::pool::{
    first_index, is_first, lemma_first_index, lemma_first_unique, AcquireAction, AcquireEvent,
    ConnState, ConnectionPool, PoolModel, PooledConnection, Query,
};

verus! {

/// An event that drives one selection.
#[derive(Clone, Copy, Debug, PartialEq, Eq, Structural)]
pub enum SelectEvent {
    /// A request needs a backend: start a lap at the cursor.
    Begin,
    /// The liveness probe asked for passed (`true`) or failed.
    Probed(bool),
    /// The new socket asked for was opened (`true`) or could not be.
    Connected(bool),
}

/// What the caller has to do next while a backend is being selected.
#[derive(Clone, Copy, Debug, PartialEq, Eq, Structural)]
pub enum SelectAction {
    /// Probe the idle connection `conn` to backend `backend`.
    Probe { backend: usize, conn: u64 },
    /// Open a new socket to backend `backend`.
    Connect { backend: usize },
    /// Backend `backend` is selected; connection `conn` to it is in use.
    Selected { backend: usize, conn: u64 },
    /// No backend could be reached in a whole lap.
    Unavailable,
}

/// What the selector looks like to a reader.
pub struct SelectorModel {
    /// Number of backends; backends are named by their index in the list.
    pub count: usize,
    /// Where the next lap starts: the position just after the last backend
    /// selected, wrapping to 0 past the end of the list (taken modulo `count`
    /// when a lap starts).
    pub cursor: usize,
    /// Whether a selection is under way.
    pub active: bool,
    /// The index where the current lap started.
    pub start: usize,
    /// How many backends of the current lap have already failed.
    pub tried: usize,
    /// The backend being tried now.
    pub candidate: usize,
    /// The idle connection whose probe result is awaited.
    pub probing: u64,
    pub pool: PoolModel,
}

impl SelectorModel {
    pub open spec fn wf(self) -> bool {
        &&& self.pool.wf()
        &&& self.active ==> {
            &&& self.count > 0
            &&& self.start < self.count
            &&& self.tried < self.count
            &&& self.candidate as int == (self.start + self.tried) % (self.count as int)
        }
    }

    /// Ask the pool for a connection to the current candidate.
    pub open spec fn start_on(self) -> (SelectorModel, SelectAction) {
        match self.pool.search(self.candidate) {
            AcquireAction::Probe(id) => (
                SelectorModel { probing: id, ..self },
                SelectAction::Probe { backend: self.candidate, conn: id },
            ),
            _ => (self, SelectAction::Connect { backend: self.candidate }),
        }
    }

    /// Turn the pool's answer about the candidate into the selector's next move.
    pub open spec fn absorb(self, a: AcquireAction) -> (SelectorModel, SelectAction) {
        match a {
            AcquireAction::Probe(id) => (
                SelectorModel { probing: id, ..self },
                SelectAction::Probe { backend: self.candidate, conn: id },
            ),
            AcquireAction::Connect => (self, SelectAction::Connect { backend: self.candidate }),
            AcquireAction::Ready(id) => (
                SelectorModel {
                    cursor: if self.candidate + 1 >= self.count { 0 } else { (self.candidate + 1) as usize },
                    active: false,
                    ..self
                },
                SelectAction::Selected { backend: self.candidate, conn: id },
            ),
            AcquireAction::Failed => {
                if self.tried + 1 >= self.count {
                    (SelectorModel { active: false, ..self }, SelectAction::Unavailable)
                } else {
                    SelectorModel {
                        tried: (self.tried + 1) as usize,
                        candidate: if self.candidate + 1 >= self.count {
                            0
                        } else {
                            (self.candidate + 1) as usize
                        },
                        ..self
                    }.start_on()
                }
            },
        }
    }

    /// One step of selection.
    pub open spec fn select_next(self, ev: SelectEvent) -> (SelectorModel, SelectAction) {
        match ev {
            SelectEvent::Begin => {
                if self.count == 0 {
                    (SelectorModel { active: false, ..self }, SelectAction::Unavailable)
                } else {
                    let s = (self.cursor % self.count) as usize;
                    SelectorModel { active: true, start: s, tried: 0, candidate: s, ..self }.start_on()
                }
            },
            SelectEvent::Probed(passed) => {
                if !self.active {
                    (self, SelectAction::Unavailable)
                } else {
                    let (m, a) = self.pool.acquire_next(
                        self.candidate,
                        AcquireEvent::Probed(self.probing, passed),
                    );
                    SelectorModel { pool: m, ..self }.absorb(a)
                }
            },
            SelectEvent::Connected(ok) => {
                if !self.active {
                    (self, SelectAction::Unavailable)
                } else {
                    let (m, a) = self.pool.acquire_next(self.candidate, AcquireEvent::Connected(ok));
                    SelectorModel { pool: m, ..self }.absorb(a)
                }
            },
        }
    }
}

/// Within a lap, the candidate after position `x % n` is position `(x + 1) % n`.
proof fn lemma_next_in_lap(x: int, n: int)
    requires
        x >= 0,
        n > 0,
    ensures
        (x + 1) % n == if x % n + 1 >= n { 0 } else { x % n + 1 },
{
    if n == 1 {
        assert(x % n == 0 && (x + 1) % n == 0);
        return;
    }
    vstd::arithmetic::div_mod::lemma_small_mod(1, n as nat);
    vstd::arithmetic::div_mod::lemma_add_mod_noop(x, 1, n);
    if x % n + 1 >= n {
        vstd::arithmetic::div_mod::lemma_mod_self_0(n);
    } else {
        vstd::arithmetic::div_mod::lemma_small_mod((x % n + 1) as nat, n as nat);
    }
}

/// A selection in which every backend tried answers: a probe asked for
/// passes, a socket asked for opens.
pub open spec fn healthy_round(m: SelectorModel) -> (SelectorModel, SelectAction) {
    let (m1, a1) = m.select_next(SelectEvent::Begin);
    match a1 {
        SelectAction::Probe { .. } => m1.select_next(SelectEvent::Probed(true)),
        SelectAction::Connect { .. } => m1.select_next(SelectEvent::Connected(true)),
        _ => (m1, a1),
    }
}

/// The selector after `k` healthy selections in a row.
pub open spec fn healthy_rounds(m: SelectorModel, k: nat) -> SelectorModel
    decreases k,
{
    if k == 0 {
        m
    } else {
        healthy_round(healthy_rounds(m, (k - 1) as nat)).0
    }
}

/// The backend that a selection chose, if it chose one.
pub open spec fn chosen(a: SelectAction) -> Option<usize> {
    match a {
        SelectAction::Selected { backend, .. } => Some(backend),
        _ => None,
    }
}

/// A probe that passes on the first idle connection of `b` hands that
/// connection out.
proof fn lemma_probe_first_idle(p: PoolModel, b: usize, id: u64)
    requires
        p.search(b) == AcquireAction::Probe(id),
    ensures
        p.acquire_next(b, AcquireEvent::Probed(id, true)).1 == AcquireAction::Ready(id),
        p.acquire_next(b, AcquireEvent::Probed(id, true)).0.next_id == p.next_id,
        p.wf() ==> p.acquire_next(b, AcquireEvent::Probed(id, true)).0.wf(),
{
    let k = first_index(p.conns, Query::idle_of(b));
    lemma_first_index(p.conns, Query::idle_of(b));
    assert(is_first(p.conns, Query::idle_of(b), k));
    assert(is_first(p.conns, Query::idle_entry(b, id), k));
    lemma_first_unique(p.conns, Query::idle_entry(b, id), k);
}

/// A selection with every backend healthy chooses the backend at the cursor
/// and moves the cursor just past it.
pub proof fn lemma_healthy_round(m: SelectorModel)
    requires
        m.wf(),
        m.count > 0,
        m.pool.next_id < u64::MAX,
    ensures
        chosen(healthy_round(m).1) == Some((m.cursor % m.count) as usize),
        healthy_round(m).0.cursor == (m.cursor % m.count + 1) % (m.count as int),
        healthy_round(m).0.count == m.count,
        !healthy_round(m).0.active,
        healthy_round(m).0.wf(),
        healthy_round(m).0.pool.next_id <= m.pool.next_id + 1,
{
    let (m1, a1) = m.select_next(SelectEvent::Begin);
    let c = (m.cursor % m.count) as usize;
    vstd::arithmetic::div_mod::lemma_small_mod(c as nat, m.count as nat);
    assert(m1.candidate == c);
    if c + 1 < m.count {
        vstd::arithmetic::div_mod::lemma_small_mod((c + 1) as nat, m.count as nat);
    } else {
        vstd::arithmetic::div_mod::lemma_mod_self_0(m.count as int);
    }
    match m.pool.search(c) {
        AcquireAction::Probe(id) => {
            lemma_probe_first_idle(m.pool, c, id);
        },
        _ => {},
    }
}

/// Round-robin fairness: with every backend healthy, the `j`-th of a run
/// of selections chooses backend `(cursor + j) mod count`, where `cursor`
/// is where the run started.
pub proof fn lemma_round_robin(m: SelectorModel, j: nat)
    requires
        m.wf(),
        m.count > 0,
        m.pool.next_id + j < u64::MAX,
    ensures
        chosen(healthy_round(healthy_rounds(m, j)).1) == Some(((m.cursor + j) % (m.count as int)) as usize),
{
    lemma_rounds_invariant(m, j);
    let mj = healthy_rounds(m, j);
    lemma_healthy_round(mj);
    vstd::arithmetic::div_mod::lemma_small_mod((mj.cursor % m.count) as nat, m.count as nat);
}

proof fn lemma_rounds_invariant(m: SelectorModel, j: nat)
    requires
        m.wf(),
        m.count > 0,
        m.pool.next_id + j < u64::MAX,
    ensures
        healthy_rounds(m, j).wf(),
        healthy_rounds(m, j).count == m.count,
        healthy_rounds(m, j).pool.next_id <= m.pool.next_id + j,
        (healthy_rounds(m, j).cursor as int) % (m.count as int) == (m.cursor + j) % (m.count as int),
    decreases j,
{
    if j > 0 {
        let p = healthy_rounds(m, (j - 1) as nat);
        lemma_rounds_invariant(m, (j - 1) as nat);
        lemma_healthy_round(p);
        let n = m.count as int;
        let x = p.cursor as int;
        lemma_next_in_lap(x, n);
        lemma_next_in_lap(m.cursor + j - 1, n);
        vstd::arithmetic::div_mod::lemma_small_mod((x % n) as nat, n as nat);
        if x % n + 1 < n {
            vstd::arithmetic::div_mod::lemma_small_mod((x % n + 1) as nat, n as nat);
        } else {
            vstd::arithmetic::div_mod::lemma_mod_self_0(n);
        }
        let y = healthy_round(p).0.cursor as int;
        vstd::arithmetic::div_mod::lemma_small_mod(y as nat, n as nat);
    }
}

/// How a backend that is down answers: every probe fails, every connect is
/// refused.
pub open spec fn down_answer(a: SelectAction) -> SelectEvent {
    match a {
        SelectAction::Probe { .. } => SelectEvent::Probed(false),
        _ => SelectEvent::Connected(false),
    }
}

/// How a healthy backend answers: a probe passes, a connect succeeds.
pub open spec fn healthy_answer(a: SelectAction) -> SelectEvent {
    match a {
        SelectAction::Probe { .. } => SelectEvent::Probed(true),
        _ => SelectEvent::Connected(true),
    }
}

/// A selection under way whose next action is the one for its candidate:
/// probe the candidate's first idle connection, or else connect to it.
pub open spec fn pending(s: SelectorModel, a: SelectAction) -> bool {
    &&& s.active
    &&& s.wf()
    &&& match s.pool.search(s.candidate) {
        AcquireAction::Probe(id) => s.probing == id && a == (SelectAction::Probe { backend: s.candidate, conn: id }),
        _ => a == (SelectAction::Connect { backend: s.candidate }),
    }
}

/// Answers up to `fuel` actions as a down backend would, stopping at an
/// action that is neither a probe nor a connect, or once `t` candidates of
/// the lap have failed.
pub open spec fn run_down(s: SelectorModel, a: SelectAction, t: nat, fuel: nat) -> (SelectorModel, SelectAction)
    decreases fuel,
{
    if fuel == 0 || s.tried >= t || !(a is Probe || a is Connect) {
        (s, a)
    } else {
        let (s1, a1) = s.select_next(down_answer(a));
        run_down(s1, a1, t, (fuel - 1) as nat)
    }
}

/// `p1` holds nothing that `p0` did not, keeps every connection that `p0`
/// had in use, and issues the same identifiers next.
pub open spec fn kept(p0: PoolModel, p1: PoolModel) -> bool {
    &&& p1.next_id == p0.next_id
    &&& forall|c: PooledConnection| #[trigger] p1.conns.contains(c) ==> p0.conns.contains(c)
    &&& forall|c: PooledConnection| #[trigger] p0.conns.contains(c) && c.state == ConnState::InUse ==> p1.conns.contains(c)
}

proof fn lemma_remove_idle_kept(p: PoolModel, k: int)
    requires
        0 <= k < p.conns.len(),
        p.conns[k].state == ConnState::Idle,
    ensures
        kept(p, PoolModel { conns: p.conns.remove(k), next_id: p.next_id }),
{
    let r = p.conns.remove(k);
    assert forall|c: PooledConnection| #[trigger] r.contains(c) implies p.conns.contains(c) by {
        let i = choose|i: int| 0 <= i < r.len() && r[i] == c;
        if i < k {
            assert(p.conns[i] == c);
        } else {
            assert(p.conns[i + 1] == c);
        }
    }
    assert forall|c: PooledConnection| #[trigger] p.conns.contains(c) && c.state == ConnState::InUse implies r.contains(c) by {
        let j = choose|j: int| 0 <= j < p.conns.len() && p.conns[j] == c;
        if j < k {
            assert(r[j] == c);
        } else {
            assert(r[j - 1] == c);
        }
    }
}

/// The first idle connection of `b` is also the first idle entry with its
/// own identifier.
proof fn lemma_first_idle_entry(p: PoolModel, b: usize, id: u64)
    requires
        p.search(b) == AcquireAction::Probe(id),
    ensures
        first_index(p.conns, Query::idle_entry(b, id)) == first_index(p.conns, Query::idle_of(b)),
        first_index(p.conns, Query::idle_of(b)) < p.conns.len(),
        p.conns[first_index(p.conns, Query::idle_of(b))].state == ConnState::Idle,
{
    let k = first_index(p.conns, Query::idle_of(b));
    lemma_first_index(p.conns, Query::idle_of(b));
    assert(is_first(p.conns, Query::idle_entry(b, id), k));
    lemma_first_unique(p.conns, Query::idle_entry(b, id), k);
}

/// One answer of a down backend: a failed probe drops that connection and
/// stays on the candidate; a refused connect moves to the next candidate,
/// or ends the lap.
proof fn lemma_down_step(s: SelectorModel, a: SelectAction)
    requires
        pending(s, a),
    ensures
        ({
            let (s1, a1) = s.select_next(down_answer(a));
            &&& kept(s.pool, s1.pool)
            &&& s1.cursor == s.cursor && s1.count == s.count && s1.start == s.start
            &&& a is Probe ==> pending(s1, a1) && s1.tried == s.tried && s1.pool.conns.len() == s.pool.conns.len() - 1
            &&& a is Connect && s.tried + 1 < s.count ==> pending(s1, a1) && s1.tried == s.tried + 1
                && s1.pool == s.pool
            &&& a is Connect && s.tried + 1 >= s.count ==> a1 == SelectAction::Unavailable && !s1.active
        }),
{
    let (s1, a1) = s.select_next(down_answer(a));
    match s.pool.search(s.candidate) {
        AcquireAction::Probe(id) => {
            lemma_first_idle_entry(s.pool, s.candidate, id);
            let k = first_index(s.pool.conns, Query::idle_of(s.candidate));
            lemma_remove_idle_kept(s.pool, k);
            let m = PoolModel { conns: s.pool.conns.remove(k), next_id: s.pool.next_id };
            assert(m.wf()) by {
                assert forall|i: int, j: int| 0 <= i < j < m.conns.len() implies (#[trigger] m.conns[i]).id < (#[trigger] m.conns[j]).id by {
                    let oi = if i < k { i } else { i + 1 };
                    let oj = if j < k { j } else { j + 1 };
                    assert(m.conns[i] == s.pool.conns[oi] && m.conns[j] == s.pool.conns[oj]);
                }
            }
            assert(s1.pool == m);
        },
        _ => {
            if s.tried + 1 < s.count {
                lemma_next_in_lap(s.start + s.tried, s.count as int);
            }
        },
    }
}

/// A run of down answers from a pending action: after at most one step per
/// pooled connection and per remaining candidate, `t` candidates have failed
/// (the lap ends in `Unavailable` when `t` is the whole list); on the way
/// only idle connections leave the pool and none is added.
proof fn lemma_run_down(s: SelectorModel, a: SelectAction, t: nat, fuel: nat)
    requires
        pending(s, a),
        s.tried < t <= s.count,
        fuel >= s.pool.conns.len() + t - s.tried,
    ensures
        ({
            let (r, ra) = run_down(s, a, t, fuel);
            &&& kept(s.pool, r.pool)
            &&& r.cursor == s.cursor && r.count == s.count && r.start == s.start
            &&& t == s.count ==> ra == SelectAction::Unavailable && !r.active
            &&& t < s.count ==> pending(r, ra) && r.tried == t
        }),
    decreases fuel,
{
    lemma_down_step(s, a);
    let (s1, a1) = s.select_next(down_answer(a));
    if a is Probe {
        lemma_run_down(s1, a1, t, (fuel - 1) as nat);
    } else if s.tried + 1 < s.count && s.tried + 1 < t {
        lemma_run_down(s1, a1, t, (fuel - 1) as nat);
    } else if s.tried + 1 < s.count {
        assert(run_down(s1, a1, t, (fuel - 1) as nat) == (s1, a1));
    } else {
        assert(run_down(s1, a1, t, (fuel - 1) as nat) == (s1, a1));
    }
    let (r, ra) = run_down(s, a, t, fuel);
    assert(kept(s.pool, r.pool)) by {
        let r1 = run_down(s1, a1, t, (fuel - 1) as nat).0;
        assert forall|c: PooledConnection| #[trigger] r.pool.conns.contains(c) implies s.pool.conns.contains(c) by {
            assert(r1.pool.conns.contains(c) ==> s1.pool.conns.contains(c));
        }
        assert forall|c: PooledConnection| #[trigger] s.pool.conns.contains(c) && c.state == ConnState::InUse implies r.pool.conns.contains(c) by {
            assert(s1.pool.conns.contains(c));
        }
    }
}

/// A selection that starts at the cursor, on a pool in any well-formed state.
proof fn lemma_begin_pending(m: SelectorModel)
    requires
        m.wf(),
        m.count > 0,
    ensures
        pending(m.select_next(SelectEvent::Begin).0, m.select_next(SelectEvent::Begin).1),
        m.select_next(SelectEvent::Begin).0.tried == 0,
        m.select_next(SelectEvent::Begin).0.candidate == m.cursor % m.count,
        m.select_next(SelectEvent::Begin).0.start == m.cursor % m.count,
        m.select_next(SelectEvent::Begin).0.pool == m.pool,
        m.select_next(SelectEvent::Begin).0.cursor == m.cursor,
        m.select_next(SelectEvent::Begin).0.count == m.count,
{
    let c = (m.cursor % m.count) as usize;
    vstd::arithmetic::div_mod::lemma_small_mod(c as nat, m.count as nat);
}

/// All backends down: when every probe fails and every connect is refused,
/// the lap started at the cursor ends in `Unavailable` within one step per
/// pooled connection and per backend; the cursor stays where it was, and
/// the pool only lost idle connections: nothing was added, and every
/// connection in use is still there, so no connection is left behind.
pub proof fn lemma_all_down(m: SelectorModel)
    requires
        m.wf(),
        m.count > 0,
    ensures
        ({
            let (s0, a0) = m.select_next(SelectEvent::Begin);
            let (r, ra) = run_down(s0, a0, m.count as nat, (m.pool.conns.len() + m.count) as nat);
            &&& ra == SelectAction::Unavailable
            &&& !r.active
            &&& r.cursor == m.cursor
            &&& kept(m.pool, r.pool)
        }),
{
    lemma_begin_pending(m);
    let (s0, a0) = m.select_next(SelectEvent::Begin);
    lemma_run_down(s0, a0, m.count as nat, (m.pool.conns.len() + m.count) as nat);
}

/// Failover: when the backend at the cursor is down (its idle connections
/// all fail their probes, and it refuses a new connection) and the next one
/// answers, the request is served by the next one and the cursor moves past
/// it, not past the failed one.
pub proof fn lemma_failover(m: SelectorModel)
    requires
        m.wf(),
        m.count >= 2,
        m.pool.next_id < u64::MAX,
    ensures
        ({
            let c = (m.cursor % m.count) as usize;
            let d = ((c + 1) % (m.count as int)) as usize;
            let (s0, a0) = m.select_next(SelectEvent::Begin);
            let (s1, a1) = run_down(s0, a0, 1, (m.pool.conns.len() + 1) as nat);
            let (s2, a2) = s1.select_next(healthy_answer(a1));
            &&& s1.candidate == d
            &&& a1 is Probe || a1 is Connect
            &&& chosen(a2) == Some(d)
            &&& s2.cursor == (d + 1) % (m.count as int)
            &&& !s2.active
        }),
{
    let n = m.count as int;
    let c = (m.cursor % m.count) as usize;
    lemma_begin_pending(m);
    let (s0, a0) = m.select_next(SelectEvent::Begin);
    lemma_run_down(s0, a0, 1, (m.pool.conns.len() + 1) as nat);
    let (s1, a1) = run_down(s0, a0, 1, (m.pool.conns.len() + 1) as nat);
    vstd::arithmetic::div_mod::lemma_small_mod(c as nat, n as nat);
    lemma_next_in_lap(c as int, n);
    let d = ((c + 1) % n) as usize;
    assert(s1.candidate == d);
    if d + 1 < n {
        vstd::arithmetic::div_mod::lemma_small_mod((d + 1) as nat, n as nat);
    } else {
        vstd::arithmetic::div_mod::lemma_mod_self_0(n);
    }
    match s1.pool.search(d) {
        AcquireAction::Probe(id) => {
            lemma_probe_first_idle(s1.pool, d, id);
        },
        _ => {},
    }
}

/// The backend list's size, the rotation cursor and the connection pool,
/// kept together.
pub struct LoadBalancer {
    count: usize,
    cursor: usize,
    active: bool,
    start: usize,
    tried: usize,
    candidate: usize,
    probing: u64,
    pool: ConnectionPool,
}

impl View for LoadBalancer {
    type V = SelectorModel;

    closed spec fn view(&self) -> SelectorModel {
        SelectorModel {
            count: self.count,
            cursor: self.cursor,
            active: self.active,
            start: self.start,
            tried: self.tried,
            candidate: self.candidate,
            probing: self.probing,
            pool: self.pool@,
        }
    }
}

impl LoadBalancer {
    /// A balancer over `count` backends, with the cursor at the first one
    /// and an empty pool.
    pub fn new(count: usize) -> (r: LoadBalancer)
        ensures
            r@.count == count,
            r@.cursor == 0,
            !r@.active,
            r@.pool.conns.len() == 0,
            r@.pool.next_id == 0,
            r@.wf(),
    {
        LoadBalancer {
            count,
            cursor: 0,
            active: false,
            start: 0,
            tried: 0,
            candidate: 0,
            probing: 0,
            pool: ConnectionPool::new(),
        }
    }

    /// The pool shared by all requests.
    pub fn pool(&self) -> (r: &ConnectionPool)
        ensures
            r@ == self@.pool,
    {
        &self.pool
    }

    /// Where the next selection starts.
    pub fn cursor(&self) -> (r: usize)
        ensures
            r == self@.cursor,
    {
        self.cursor
    }

    fn start_on(&mut self) -> (r: SelectAction)
        ensures
            (final(self)@, r) == old(self)@.start_on(),
            final(self)@.pool == old(self)@.pool,
    {
        match self.pool.get_connection_step(self.candidate, AcquireEvent::Begin) {
            AcquireAction::Probe(id) => {
                self.probing = id;
                SelectAction::Probe { backend: self.candidate, conn: id }
            },
            _ => SelectAction::Connect { backend: self.candidate },
        }
    }

    fn absorb(&mut self, a: AcquireAction) -> (r: SelectAction)
        ensures
            (final(self)@, r) == old(self)@.absorb(a),
            old(self)@.wf() ==> final(self)@.wf(),
    {
        match a {
            AcquireAction::Probe(id) => {
                self.probing = id;
                SelectAction::Probe { backend: self.candidate, conn: id }
            },
            AcquireAction::Connect => SelectAction::Connect { backend: self.candidate },
            AcquireAction::Ready(id) => {
                self.cursor = if self.count == 0 || self.candidate >= self.count - 1 {
                    0
                } else {
                    self.candidate + 1
                };
                self.active = false;
                SelectAction::Selected { backend: self.candidate, conn: id }
            },
            AcquireAction::Failed => {
                if self.tried >= self.count || self.count - self.tried == 1 {
                    self.active = false;
                    SelectAction::Unavailable
                } else {
                    self.tried = self.tried + 1;
                    proof {
                        if old(self)@.wf() && old(self)@.active {
                            lemma_next_in_lap(old(self).start as int + old(self).tried as int, self.count as int);
                        }
                    }
                    self.candidate = if self.candidate >= self.count - 1 {
                        0
                    } else {
                        self.candidate + 1
                    };
                    self.start_on()
                }
            },
        }
    }

    /// One step of choosing a backend for a request. A lap starts at the
    /// cursor and visits each backend once, in list order, wrapping around;
    /// each candidate is tried by acquiring a connection to it from the pool.
    /// The first candidate that yields a connection is selected, and the
    /// cursor moves to the position just after it (0 after the last one);
    /// when the whole lap fails,
    /// no backend is available and the cursor stays where it was. A probe or
    /// connect result that arrives when no selection is under way changes
    /// nothing and is answered with `Unavailable`.
    pub fn find_available_server_step(&mut self, event: SelectEvent) -> (r: SelectAction)
        ensures
            (final(self)@, r) == old(self)@.select_next(event),
            old(self)@.wf() ==> final(self)@.wf(),
    {
        match event {
            SelectEvent::Begin => {
                if self.count == 0 {
                    self.active = false;
                    SelectAction::Unavailable
                } else {
                    let s = self.cursor % self.count;
                    proof {
                        vstd::arithmetic::div_mod::lemma_small_mod(s as nat, self.count as nat);
                    }
                    self.active = true;
                    self.start = s;
                    self.tried = 0;
                    self.candidate = s;
                    self.start_on()
                }
            },
            SelectEvent::Probed(passed) => {
                if !self.active {
                    SelectAction::Unavailable
                } else {
                    let a = self.pool.get_connection_step(
                        self.candidate,
                        AcquireEvent::Probed(self.probing, passed),
                    );
                    self.absorb(a)
                }
            },
            SelectEvent::Connected(ok) => {
                if !self.active {
                    SelectAction::Unavailable
                } else {
                    let a = self.pool.get_connection_step(self.candidate, AcquireEvent::Connected(ok));
                    self.absorb(a)
                }
            },
        }
    }

    /// Returns connection `conn` of backend `backend` to the pool's idle set.
    pub fn release_connection(&mut self, backend: usize, conn: u64)
        ensures
            final(self)@ == (SelectorModel { pool: old(self)@.pool.release(backend, conn), ..old(self)@ }),
            old(self)@.wf() ==> final(self)@.wf(),
    {
        self.pool.release_connection(backend, conn);
    }

    /// Drops connection `conn` of backend `backend` from the pool.
    pub fn evict_connection(&mut self, backend: usize, conn: u64)
        ensures
            final(self)@ == (SelectorModel { pool: old(self)@.pool.evict(backend, conn), ..old(self)@ }),
            old(self)@.wf() ==> final(self)@.wf(),
    {
        self.pool.evict_connection(backend, conn);
    }
}

} // verus!

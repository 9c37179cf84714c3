//! In-memory aggregation store: a two-level index from process identifier to
//! thread identifier to an append-only, arrival-ordered sequence of log
//! entries. New processes and new thread lanes always append, so positions
//! once assigned are stable for the lifetime of the store.
//!
//! The store itself is single-threaded; a server shares it behind one
//! multi-reader/single-writer lock, each `ingest` under the write lock and
//! each frame snapshot under the read lock, so index and vector can never be
//! seen divergent.

use vstd::prelude::*;

verus! {

use std::collections::HashMap;
use crate::codec::Level;

broadcast use vstd::std_specs::hash::group_hash_axioms;

/// A record reshaped for storage; pid and tid are encoded by the entry's
/// position in the store, not kept inside it.
pub struct StoredLog {
    pub seconds: u64,
    pub nanos: u32,
    pub level: Level,
    pub message: String,
}

/// Mathematical model of a stored entry.
#[verifier::ext_equal]
pub ghost struct LogV {
    pub seconds: u64,
    pub nanos: u32,
    pub level: Level,
    pub message: Seq<char>,
}

impl View for StoredLog {
    type V = LogV;

    open spec fn view(&self) -> LogV {
        LogV { seconds: self.seconds, nanos: self.nanos, level: self.level, message: self.message@ }
    }
}

impl Clone for StoredLog {
    fn clone(&self) -> (r: Self)
        ensures
            r@ == self@,
    {
        StoredLog {
            seconds: self.seconds,
            nanos: self.nanos,
            level: self.level,
            message: self.message.clone(),
        }
    }
}

/// The ordered log of one thread of one process, keyed by its thread id.
pub struct ThreadLane {
    pub tid: u64,
    pub entries: Vec<StoredLog>,
}

/// Mathematical model of a lane.
#[verifier::ext_equal]
pub ghost struct LaneV {
    pub tid: u64,
    pub entries: Seq<LogV>,
}

impl View for ThreadLane {
    type V = LaneV;

    open spec fn view(&self) -> LaneV {
        LaneV { tid: self.tid, entries: self.entries@.map_values(|e: StoredLog| e@) }
    }
}

/// All lanes of one process, with a map from thread id to lane position.
pub struct ProcessGroup {
    pub pid: i32,
    pub thread_index: HashMap<u64, usize>,
    pub lanes: Vec<ThreadLane>,
}

/// Mathematical model of a process group.
#[verifier::ext_equal]
pub ghost struct ProcV {
    pub pid: i32,
    pub lanes: Seq<LaneV>,
}

impl View for ProcessGroup {
    type V = ProcV;

    open spec fn view(&self) -> ProcV {
        ProcV { pid: self.pid, lanes: self.lanes@.map_values(|l: ThreadLane| l@) }
    }
}

impl ProcessGroup {
    /// The thread index and the lane vector agree: each lane's position is
    /// recorded under its tid, and every recorded tid names its lane.
    pub open spec fn wf(self) -> bool {
        &&& forall|j: int|
            0 <= j < self.lanes@.len() ==> self.thread_index@.contains_key(
                (#[trigger] self.lanes@[j]).tid,
            ) && self.thread_index@[self.lanes@[j].tid] == j as usize
        &&& forall|t: u64|
            #[trigger] self.thread_index@.contains_key(t) ==> self.thread_index@[t]
                < self.lanes@.len() && self.lanes@[self.thread_index@[t] as int].tid == t
    }
}

/// The root aggregation entity.
pub struct Store {
    pub process_index: HashMap<i32, usize>,
    pub processes: Vec<ProcessGroup>,
}

impl View for Store {
    type V = Seq<ProcV>;

    open spec fn view(&self) -> Seq<ProcV> {
        self.processes@.map_values(|p: ProcessGroup| p@)
    }
}

/// Position of the first group with this pid, or -1 when there is none.
pub open spec fn pid_index(s: Seq<ProcV>, pid: i32) -> int
    decreases s.len(),
{
    if s.len() == 0 {
        -1
    } else if s[0].pid == pid {
        0
    } else {
        let r = pid_index(s.drop_first(), pid);
        if r < 0 {
            -1
        } else {
            r + 1
        }
    }
}

/// Position of the first lane with this tid, or -1 when there is none.
pub open spec fn tid_index(lanes: Seq<LaneV>, tid: u64) -> int
    decreases lanes.len(),
{
    if lanes.len() == 0 {
        -1
    } else if lanes[0].tid == tid {
        0
    } else {
        let r = tid_index(lanes.drop_first(), tid);
        if r < 0 {
            -1
        } else {
            r + 1
        }
    }
}

pub proof fn lemma_pid_index_props(s: Seq<ProcV>, pid: i32)
    ensures
        -1 <= pid_index(s, pid) < s.len(),
        pid_index(s, pid) >= 0 ==> s[pid_index(s, pid)].pid == pid,
        pid_index(s, pid) >= 0 ==> forall|i: int|
            0 <= i < pid_index(s, pid) ==> (#[trigger] s[i]).pid != pid,
        pid_index(s, pid) == -1 ==> forall|i: int| 0 <= i < s.len() ==> (#[trigger] s[i]).pid != pid,
    decreases s.len(),
{
    if s.len() > 0 && s[0].pid != pid {
        lemma_pid_index_props(s.drop_first(), pid);
        assert(forall|i: int| 1 <= i < s.len() ==> #[trigger] s[i] == s.drop_first()[i - 1]);
    }
}

/// The first occurrence determines `pid_index`.
pub proof fn lemma_pid_index_first_at(s: Seq<ProcV>, pid: i32, k: int)
    requires
        0 <= k < s.len(),
        s[k].pid == pid,
        forall|i: int| 0 <= i < k ==> (#[trigger] s[i]).pid != pid,
    ensures
        pid_index(s, pid) == k,
    decreases s.len(),
{
    if k > 0 {
        assert(forall|i: int| 1 <= i < s.len() ==> #[trigger] s.drop_first()[i - 1] == s[i]);
        lemma_pid_index_first_at(s.drop_first(), pid, k - 1);
    }
}

pub proof fn lemma_tid_index_props(lanes: Seq<LaneV>, tid: u64)
    ensures
        -1 <= tid_index(lanes, tid) < lanes.len(),
        tid_index(lanes, tid) >= 0 ==> lanes[tid_index(lanes, tid)].tid == tid,
        tid_index(lanes, tid) >= 0 ==> forall|j: int|
            0 <= j < tid_index(lanes, tid) ==> (#[trigger] lanes[j]).tid != tid,
        tid_index(lanes, tid) == -1 ==> forall|j: int|
            0 <= j < lanes.len() ==> (#[trigger] lanes[j]).tid != tid,
    decreases lanes.len(),
{
    if lanes.len() > 0 && lanes[0].tid != tid {
        lemma_tid_index_props(lanes.drop_first(), tid);
        assert(forall|j: int|
            1 <= j < lanes.len() ==> #[trigger] lanes[j] == lanes.drop_first()[j - 1]);
    }
}

/// The first occurrence determines `tid_index`.
pub proof fn lemma_tid_index_first_at(lanes: Seq<LaneV>, tid: u64, k: int)
    requires
        0 <= k < lanes.len(),
        lanes[k].tid == tid,
        forall|j: int| 0 <= j < k ==> (#[trigger] lanes[j]).tid != tid,
    ensures
        tid_index(lanes, tid) == k,
    decreases lanes.len(),
{
    if k > 0 {
        assert(forall|j: int|
            1 <= j < lanes.len() ==> #[trigger] lanes.drop_first()[j - 1] == lanes[j]);
        lemma_tid_index_first_at(lanes.drop_first(), tid, k - 1);
    }
}

/// What one ingested entry does to a process group: append to the tid's lane,
/// or open a new lane for a first-seen tid.
pub open spec fn spec_group_ingest(p: ProcV, tid: u64, log: LogV) -> ProcV {
    let j = tid_index(p.lanes, tid);
    if j < 0 {
        ProcV { pid: p.pid, lanes: p.lanes.push((LaneV { tid, entries: seq![log] })) }
    } else {
        ProcV {
            pid: p.pid,
            lanes: p.lanes.update(
                j,
                (LaneV { tid, entries: p.lanes[j].entries.push(log) }),
            ),
        }
    }
}

/// What one ingested entry does to the store: append under the pid's group,
/// or open a new group for a first-seen pid.
pub open spec fn spec_ingest(s: Seq<ProcV>, pid: i32, tid: u64, log: LogV) -> Seq<ProcV> {
    let i = pid_index(s, pid);
    if i < 0 {
        s.push((ProcV { pid, lanes: seq![LaneV { tid, entries: seq![log] }] }))
    } else {
        s.update(i, spec_group_ingest(s[i], tid, log))
    }
}

impl ProcessGroup {
    /// Appends one entry under `tid`, creating the lane on first sight.
    pub fn append_entry(&mut self, tid: u64, log: StoredLog)
        requires
            old(self).wf(),
        ensures
            final(self).wf(),
            final(self)@ == spec_group_ingest(old(self)@, tid, log@),
            final(self).lanes@.len() >= old(self).lanes@.len(),
    {
        proof {
            lemma_tid_index_props(old(self)@.lanes, tid);
        }
        let found: Option<usize> = match self.thread_index.get(&tid) {
            Some(r) => Some(*r),
            None => None,
        };
        match found {
            Some(j) => {
                proof {
                    let lanes = old(self)@.lanes;
                    assert(lanes[j as int] == old(self).lanes@[j as int]@);
                    assert(lanes[j as int].tid == tid);
                    assert forall|x: int| 0 <= x < j as int implies (#[trigger] lanes[x]).tid
                        != tid by {
                        if lanes[x].tid == tid {
                            assert(old(self).lanes@[x].tid == tid);
                            assert(old(self).thread_index@[tid] == x as usize);
                        }
                    }
                    lemma_tid_index_first_at(lanes, tid, j as int);
                }
                let lane = &mut self.lanes[j];
                lane.entries.push(log);
                proof {
                    let oldl = old(self).lanes@;
                    let newl = self.lanes@;
                    assert(newl == oldl.update(j as int, newl[j as int]));
                    assert(newl[j as int].tid == tid);
                    assert(newl[j as int].entries@ == oldl[j as int].entries@.push(log));
                    assert(newl[j as int]@.entries =~~= old(self)@.lanes[j as int].entries.push(
                        log@,
                    ));
                    assert(newl[j as int]@ =~~= (LaneV {
                        tid,
                        entries: old(self)@.lanes[j as int].entries.push(log@),
                    }));
                    assert(self@.lanes =~~= spec_group_ingest(old(self)@, tid, log@).lanes);
                    assert(self@ =~~= spec_group_ingest(old(self)@, tid, log@));
                }
            },
            None => {
                proof {
                    let lanes = old(self)@.lanes;
                    assert forall|x: int| 0 <= x < lanes.len() implies (#[trigger] lanes[x]).tid
                        != tid by {
                        if lanes[x].tid == tid {
                            assert(old(self).lanes@[x].tid == tid);
                        }
                    }
                    if tid_index(lanes, tid) >= 0 {
                        assert(lanes[tid_index(lanes, tid)].tid == tid);
                    }
                }
                let mut entries: Vec<StoredLog> = Vec::new();
                entries.push(log);
                let j = self.lanes.len();
                self.lanes.push(ThreadLane { tid, entries });
                self.thread_index.insert(tid, j);
                proof {
                    assert(self.lanes@[j as int]@.entries =~~= seq![log@]);
                    assert(self.lanes@[j as int]@ =~~= (LaneV { tid, entries: seq![log@] }));
                    assert(self@.lanes =~~= spec_group_ingest(old(self)@, tid, log@).lanes);
                    assert(self@ =~~= spec_group_ingest(old(self)@, tid, log@));
                }
            },
        }
    }
}

impl Store {
    /// An empty store.
    pub fn new() -> (s: Store)
        ensures
            s.wf(),
            s@ == Seq::<ProcV>::empty(),
    {
        let s = Store { process_index: HashMap::new(), processes: Vec::new() };
        proof {
            assert(s@ =~= Seq::<ProcV>::empty());
        }
        s
    }

    /// The index and the vector agree: each group's position is recorded
    /// under its pid, and every recorded pid names its group.
    pub open spec fn wf(self) -> bool {
        &&& forall|i: int| 0 <= i < self.processes@.len() ==> (#[trigger] self.processes@[i]).wf()
        &&& forall|i: int|
            0 <= i < self.processes@.len() ==> (#[trigger] self.processes@[i]).lanes@.len() > 0
        &&& forall|i: int|
            0 <= i < self.processes@.len() ==> self.process_index@.contains_key(
                (#[trigger] self.processes@[i]).pid,
            ) && self.process_index@[self.processes@[i].pid] == i as usize
        &&& forall|p: i32|
            #[trigger] self.process_index@.contains_key(p) ==> self.process_index@[p]
                < self.processes@.len() && self.processes@[self.process_index@[p] as int].pid == p
    }

    /// Appends one entry under (pid, tid), creating the process group and the
    /// lane on first sight of their identifiers.
    pub fn ingest(&mut self, pid: i32, tid: u64, log: StoredLog)
        requires
            old(self).wf(),
        ensures
            final(self).wf(),
            final(self)@ == spec_ingest(old(self)@, pid, tid, log@),
    {
        proof {
            lemma_pid_index_props(old(self)@, pid);
        }
        let found: Option<usize> = match self.process_index.get(&pid) {
            Some(r) => Some(*r),
            None => None,
        };
        match found {
            Some(i) => {
                proof {
                    let s = old(self)@;
                    assert(s[i as int] == old(self).processes@[i as int]@);
                    assert(s[i as int].pid == pid);
                    assert forall|x: int| 0 <= x < i as int implies (#[trigger] s[x]).pid
                        != pid by {
                        if s[x].pid == pid {
                            assert(old(self).processes@[x].pid == pid);
                            assert(old(self).process_index@[pid] == x as usize);
                        }
                    }
                    lemma_pid_index_first_at(s, pid, i as int);
                }
                let group = &mut self.processes[i];
                group.append_entry(tid, log);
                proof {
                    assert(self.processes@ == old(self).processes@.update(
                        i as int,
                        self.processes@[i as int],
                    ));
                    assert(self.processes@[i as int]@ == spec_group_ingest(
                        old(self)@[i as int],
                        tid,
                        log@,
                    ));
                    assert(self@ =~~= spec_ingest(old(self)@, pid, tid, log@));
                    assert forall|x: int|
                        0 <= x < self.processes@.len() implies (
                    #[trigger] self.processes@[x]).lanes@.len() > 0 by {
                        if x != i as int {
                            assert(self.processes@[x] == old(self).processes@[x]);
                        }
                    }
                }
            },
            None => {
                proof {
                    let s = old(self)@;
                    assert forall|x: int| 0 <= x < s.len() implies (#[trigger] s[x]).pid != pid by {
                        if s[x].pid == pid {
                            assert(old(self).processes@[x].pid == pid);
                        }
                    }
                    if pid_index(s, pid) >= 0 {
                        assert(s[pid_index(s, pid)].pid == pid);
                    }
                }
                let mut entries: Vec<StoredLog> = Vec::new();
                entries.push(log);
                let mut lanes: Vec<ThreadLane> = Vec::new();
                lanes.push(ThreadLane { tid, entries });
                let mut thread_index: HashMap<u64, usize> = HashMap::new();
                thread_index.insert(tid, 0);
                let group = ProcessGroup { pid, thread_index, lanes };
                let i = self.processes.len();
                self.processes.push(group);
                self.process_index.insert(pid, i);
                proof {
                    let g = self.processes@[i as int];
                    assert(g.lanes@[0]@.entries =~~= seq![log@]);
                    assert(g.lanes@[0]@ =~~= (LaneV { tid, entries: seq![log@] }));
                    assert(g@.lanes =~~= seq![LaneV { tid, entries: seq![log@] }]);
                    assert(g@ =~~= (ProcV { pid, lanes: seq![LaneV { tid, entries: seq![log@] }] }));
                    assert(self@ =~~= spec_ingest(old(self)@, pid, tid, log@));
                }
            },
        }
    }

    /// Number of processes observed so far.
    pub fn process_count(&self) -> (n: usize)
        ensures
            n == self@.len(),
    {
        self.processes.len()
    }

    /// The pid at a position of the process list.
    pub fn pid_at(&self, i: usize) -> (pid: i32)
        requires
            i < self@.len(),
        ensures
            pid == self@[i as int].pid,
    {
        self.processes[i].pid
    }

    /// Number of lanes of the process at a position.
    pub fn lane_count(&self, i: usize) -> (n: usize)
        requires
            i < self@.len(),
        ensures
            n == self@[i as int].lanes.len(),
    {
        self.processes[i].lanes.len()
    }

    /// The tid of a lane of a process.
    pub fn tid_at(&self, i: usize, j: usize) -> (tid: u64)
        requires
            i < self@.len(),
            j < self@[i as int].lanes.len(),
        ensures
            tid == self@[i as int].lanes[j as int].tid,
    {
        self.processes[i].lanes[j].tid
    }

    /// Number of entries of a lane of a process.
    pub fn entry_count(&self, i: usize, j: usize) -> (n: usize)
        requires
            i < self@.len(),
            j < self@[i as int].lanes.len(),
        ensures
            n == self@[i as int].lanes[j as int].entries.len(),
    {
        self.processes[i].lanes[j].entries.len()
    }

    /// A copy of one entry of a lane of a process.
    pub fn entry_at(&self, i: usize, j: usize, k: usize) -> (e: StoredLog)
        requires
            i < self@.len(),
            j < self@[i as int].lanes.len(),
            k < self@[i as int].lanes[j as int].entries.len(),
        ensures
            e@ == self@[i as int].lanes[j as int].entries[k as int],
    {
        self.processes[i].lanes[j].entries[k].clone()
    }
}

/// Number of entries across the lanes of one group.
pub open spec fn lanes_entry_count(lanes: Seq<LaneV>) -> nat
    decreases lanes.len(),
{
    if lanes.len() == 0 {
        0
    } else {
        lanes[0].entries.len() + lanes_entry_count(lanes.drop_first())
    }
}

/// Number of entries across the whole store.
pub open spec fn total_entries(s: Seq<ProcV>) -> nat
    decreases s.len(),
{
    if s.len() == 0 {
        0
    } else {
        lanes_entry_count(s[0].lanes) + total_entries(s.drop_first())
    }
}

proof fn lemma_lanes_count_push(lanes: Seq<LaneV>, lane: LaneV)
    ensures
        lanes_entry_count(lanes.push(lane)) == lanes_entry_count(lanes) + lane.entries.len(),
    decreases lanes.len(),
{
    if lanes.len() == 0 {
        assert(lanes.push(lane).drop_first() =~= lanes);
    } else {
        assert(lanes.push(lane).drop_first() =~= lanes.drop_first().push(lane));
        lemma_lanes_count_push(lanes.drop_first(), lane);
    }
}

proof fn lemma_lanes_count_update(lanes: Seq<LaneV>, j: int, lane: LaneV)
    requires
        0 <= j < lanes.len(),
    ensures
        lanes_entry_count(lanes.update(j, lane)) == lanes_entry_count(lanes) - lanes[j].entries.len()
            + lane.entries.len(),
    decreases lanes.len(),
{
    if j == 0 {
        assert(lanes.update(0, lane).drop_first() =~= lanes.drop_first());
    } else {
        assert(lanes.update(j, lane).drop_first() =~= lanes.drop_first().update(j - 1, lane));
        lemma_lanes_count_update(lanes.drop_first(), j - 1, lane);
    }
}

proof fn lemma_total_push(s: Seq<ProcV>, p: ProcV)
    ensures
        total_entries(s.push(p)) == total_entries(s) + lanes_entry_count(p.lanes),
    decreases s.len(),
{
    if s.len() == 0 {
        assert(s.push(p).drop_first() =~= s);
    } else {
        assert(s.push(p).drop_first() =~= s.drop_first().push(p));
        lemma_total_push(s.drop_first(), p);
    }
}

proof fn lemma_total_update(s: Seq<ProcV>, i: int, p: ProcV)
    requires
        0 <= i < s.len(),
    ensures
        total_entries(s.update(i, p)) == total_entries(s) - lanes_entry_count(s[i].lanes)
            + lanes_entry_count(p.lanes),
    decreases s.len(),
{
    if i == 0 {
        assert(s.update(0, p).drop_first() =~= s.drop_first());
    } else {
        assert(s.update(i, p).drop_first() =~= s.drop_first().update(i - 1, p));
        lemma_total_update(s.drop_first(), i - 1, p);
    }
}

/// Law: every ingested record adds exactly one stored entry — entries are
/// never merged, split or dropped by the store.
pub proof fn lemma_ingest_adds_one_entry(s: Seq<ProcV>, pid: i32, tid: u64, log: LogV)
    ensures
        total_entries(spec_ingest(s, pid, tid, log)) == total_entries(s) + 1,
{
    lemma_pid_index_props(s, pid);
    let i = pid_index(s, pid);
    if i < 0 {
        let p = ProcV { pid, lanes: seq![LaneV { tid, entries: seq![log] }] };
        lemma_total_push(s, p);
        assert(p.lanes.drop_first() =~= Seq::<LaneV>::empty());
        assert(lanes_entry_count(Seq::<LaneV>::empty()) == 0);
        assert(p.lanes[0].entries.len() == 1);
        assert(lanes_entry_count(p.lanes) == 1);
    } else {
        let p = s[i];
        lemma_tid_index_props(p.lanes, tid);
        let j = tid_index(p.lanes, tid);
        let p2 = spec_group_ingest(p, tid, log);
        if j < 0 {
            lemma_lanes_count_push(p.lanes, (LaneV { tid, entries: seq![log] }));
        } else {
            lemma_lanes_count_update(
                p.lanes,
                j,
                (LaneV { tid, entries: p.lanes[j].entries.push(log) }),
            );
        }
        lemma_total_update(s, i, p2);
    }
}

/// Law: index stability. Positions once assigned keep their pid, and lanes
/// keep their tid, across any ingest; the lists only grow.
pub proof fn lemma_ingest_index_stability(s: Seq<ProcV>, pid: i32, tid: u64, log: LogV)
    ensures
        spec_ingest(s, pid, tid, log).len() >= s.len(),
        forall|i: int|
            0 <= i < s.len() ==> (#[trigger] spec_ingest(s, pid, tid, log)[i]).pid == s[i].pid,
        forall|i: int|
            0 <= i < s.len() ==> (#[trigger] spec_ingest(s, pid, tid, log)[i]).lanes.len()
                >= s[i].lanes.len(),
        forall|i: int, j: int|
            0 <= i < s.len() && 0 <= j < s[i].lanes.len() ==> (#[trigger] spec_ingest(
                s,
                pid,
                tid,
                log,
            )[i].lanes[j]).tid == s[i].lanes[j].tid,
        forall|i: int, j: int|
            0 <= i < s.len() && 0 <= j < s[i].lanes.len() ==> (#[trigger] spec_ingest(
                s,
                pid,
                tid,
                log,
            )[i].lanes[j]).entries.len() >= s[i].lanes[j].entries.len(),
{
    lemma_pid_index_props(s, pid);
    let i = pid_index(s, pid);
    if i >= 0 {
        lemma_tid_index_props(s[i].lanes, tid);
    }
}

/// The entries of the lane for (pid, tid), empty when no such lane exists.
pub open spec fn lane_entries(s: Seq<ProcV>, pid: i32, tid: u64) -> Seq<LogV> {
    let i = pid_index(s, pid);
    if i < 0 {
        Seq::empty()
    } else {
        let j = tid_index(s[i].lanes, tid);
        if j < 0 {
            Seq::empty()
        } else {
            s[i].lanes[j].entries
        }
    }
}

/// One ingest appends exactly the ingested entry to its own lane.
pub proof fn lemma_ingest_lane_append(s: Seq<ProcV>, pid: i32, tid: u64, log: LogV)
    ensures
        lane_entries(spec_ingest(s, pid, tid, log), pid, tid) == lane_entries(s, pid, tid).push(
            log,
        ),
{
    lemma_pid_index_props(s, pid);
    let i = pid_index(s, pid);
    let s2 = spec_ingest(s, pid, tid, log);
    if i < 0 {
        lemma_pid_index_first_at(s2, pid, s.len() as int);
        assert(s2[s.len() as int].lanes[0].tid == tid);
        assert(lane_entries(s2, pid, tid) =~= lane_entries(s, pid, tid).push(log));
    } else {
        let p = s[i];
        lemma_tid_index_props(p.lanes, tid);
        let j = tid_index(p.lanes, tid);
        let p2 = spec_group_ingest(p, tid, log);
        lemma_pid_index_first_at(s2, pid, i);
        if j < 0 {
            lemma_tid_index_first_at(p2.lanes, tid, p.lanes.len() as int);
            assert(lane_entries(s2, pid, tid) =~= lane_entries(s, pid, tid).push(log));
        } else {
            lemma_tid_index_first_at(p2.lanes, tid, j);
            assert(lane_entries(s2, pid, tid) =~= lane_entries(s, pid, tid).push(log));
        }
    }
}

/// One ingest leaves every other lane exactly as it was.
pub proof fn lemma_ingest_other_lanes_unchanged(
    s: Seq<ProcV>,
    pid: i32,
    tid: u64,
    log: LogV,
    other_pid: i32,
    other_tid: u64,
)
    requires
        other_pid != pid || other_tid != tid,
    ensures
        lane_entries(spec_ingest(s, pid, tid, log), other_pid, other_tid) == lane_entries(
            s,
            other_pid,
            other_tid,
        ),
{
    lemma_pid_index_props(s, pid);
    lemma_pid_index_props(s, other_pid);
    let i = pid_index(s, pid);
    let k = pid_index(s, other_pid);
    let s2 = spec_ingest(s, pid, tid, log);
    lemma_pid_index_props(s2, other_pid);
    if other_pid != pid {
        if k >= 0 {
            lemma_pid_index_first_at(s2, other_pid, k);
            assert(s2[k] == s[k]);
        } else {
            if pid_index(s2, other_pid) >= 0 {
                let x = pid_index(s2, other_pid);
                assert(s2[x].pid == other_pid);
                if i < 0 {
                    assert(x < s.len() ==> s[x].pid == other_pid);
                    assert(x == s.len() as int ==> s2[x].pid == pid);
                } else {
                    assert(s2[x].pid == s[x].pid);
                }
            }
        }
    } else {
        // Same process, different thread: the group is touched but only the
        // (pid, tid) lane inside it changes.
        if i < 0 {
            lemma_pid_index_first_at(s2, pid, s.len() as int);
            let lanes2 = s2[s.len() as int].lanes;
            lemma_tid_index_props(lanes2, other_tid);
            if tid_index(lanes2, other_tid) >= 0 {
                assert(lanes2[tid_index(lanes2, other_tid)].tid == other_tid);
                assert(lanes2.len() == 1 && lanes2[0].tid == tid);
            }
        } else {
            let p = s[i];
            lemma_tid_index_props(p.lanes, tid);
            lemma_tid_index_props(p.lanes, other_tid);
            let j = tid_index(p.lanes, tid);
            let j2 = tid_index(p.lanes, other_tid);
            let p2 = spec_group_ingest(p, tid, log);
            lemma_pid_index_first_at(s2, pid, i);
            lemma_tid_index_props(p2.lanes, other_tid);
            if j2 >= 0 {
                assert(p2.lanes[j2].tid == other_tid);
                lemma_tid_index_first_at(p2.lanes, other_tid, j2);
                assert(p2.lanes[j2] == p.lanes[j2]);
            } else {
                if tid_index(p2.lanes, other_tid) >= 0 {
                    let y = tid_index(p2.lanes, other_tid);
                    assert(p2.lanes[y].tid == other_tid);
                    if j < 0 {
                        assert(y < p.lanes.len() ==> p.lanes[y].tid == other_tid);
                        assert(y == p.lanes.len() as int ==> p2.lanes[y].tid == tid);
                    } else {
                        assert(y == j ==> p2.lanes[y].tid == tid);
                        assert(y != j ==> p2.lanes[y].tid == p.lanes[y].tid);
                    }
                }
            }
        }
    }
}

/// The store after a sequence of ingests for one (pid, tid) lane.
pub open spec fn spec_ingest_all(s: Seq<ProcV>, pid: i32, tid: u64, logs: Seq<LogV>) -> Seq<ProcV>
    decreases logs.len(),
{
    if logs.len() == 0 {
        s
    } else {
        spec_ingest_all(spec_ingest(s, pid, tid, logs[0]), pid, tid, logs.drop_first())
    }
}

/// Law: a sequence of ingests adds exactly one stored entry each — so K
/// emitters of M records each leave K times M entries, none merged or lost.
pub proof fn lemma_ingest_all_total(s: Seq<ProcV>, pid: i32, tid: u64, logs: Seq<LogV>)
    ensures
        total_entries(spec_ingest_all(s, pid, tid, logs)) == total_entries(s) + logs.len(),
    decreases logs.len(),
{
    if logs.len() > 0 {
        lemma_ingest_adds_one_entry(s, pid, tid, logs[0]);
        lemma_ingest_all_total(spec_ingest(s, pid, tid, logs[0]), pid, tid, logs.drop_first());
    }
}

/// Law: per-lane FIFO. Ingesting a sequence of entries under one (pid, tid)
/// appends exactly those entries, in order, to that lane.
pub proof fn lemma_per_lane_fifo(s: Seq<ProcV>, pid: i32, tid: u64, logs: Seq<LogV>)
    ensures
        lane_entries(spec_ingest_all(s, pid, tid, logs), pid, tid) == lane_entries(s, pid, tid)
            + logs,
    decreases logs.len(),
{
    if logs.len() == 0 {
        assert(lane_entries(s, pid, tid) + logs =~= lane_entries(s, pid, tid));
    } else {
        lemma_ingest_lane_append(s, pid, tid, logs[0]);
        lemma_per_lane_fifo(spec_ingest(s, pid, tid, logs[0]), pid, tid, logs.drop_first());
        assert(lane_entries(s, pid, tid).push(logs[0]) + logs.drop_first() =~= lane_entries(
            s,
            pid,
            tid,
        ) + logs);
    }
}

} // verus!

//! Bounded execution history. Arguments and answers are never retained.
//!
//! Times are nanoseconds on the daemon's monotonic clock; what is reported
//! is whole milliseconds.
use vstd::prelude::*;
use crate::refusal::{ErrorCode, Refusal};

verus! {

/// How far an admitted execution has got.
#[derive(Debug, Clone, Copy, PartialEq, Eq, Structural)]
pub enum ExecutionPhase {
    Queued,
    Starting,
    Dispatched,
    Finished,
}

/// How an execution ended.
#[derive(Debug, Clone, Copy, PartialEq, Eq, Structural)]
pub enum Completion {
    Succeeded,
    Refused(ErrorCode),
    /// Its caller went away before an answer was delivered.
    Abandoned,
}

/// The completed executions that are kept, newest last.
pub const RETAINED: usize = 64;

/// The refused executions an activity summary lists.
pub const RECENT_FAILURES: usize = 5;

/// One admitted execution.
#[derive(Debug)]
pub struct Entry {
    pub id: u64,
    pub host: String,
    pub command: String,
    pub process: Option<u64>,
    pub phase: ExecutionPhase,
    pub admitted: u64,
    pub started: Option<u64>,
    pub finished: Option<u64>,
    pub outcome: Option<Completion>,
}

pub struct EntryView {
    pub id: u64,
    pub host: Seq<char>,
    pub command: Seq<char>,
    pub process: Option<u64>,
    pub phase: ExecutionPhase,
    pub admitted: u64,
    pub started: Option<u64>,
    pub finished: Option<u64>,
    pub outcome: Option<Completion>,
}

impl View for Entry {
    type V = EntryView;

    open spec fn view(&self) -> EntryView {
        EntryView {
            id: self.id,
            host: self.host@,
            command: self.command@,
            process: self.process,
            phase: self.phase,
            admitted: self.admitted,
            started: self.started,
            finished: self.finished,
            outcome: self.outcome,
        }
    }
}

/// What is reported of one execution.
#[derive(Debug, Clone, PartialEq, Eq)]
pub struct ExecutionSnapshot {
    pub invocation_id: u64,
    pub command: String,
    /// Zero until a process took it.
    pub process_id: u64,
    pub phase: ExecutionPhase,
    pub queue_ms: u64,
    pub execution_ms: u64,
    pub outcome: Option<Completion>,
}

pub struct SnapshotView {
    pub invocation_id: u64,
    pub command: Seq<char>,
    pub process_id: u64,
    pub phase: ExecutionPhase,
    pub queue_ms: u64,
    pub execution_ms: u64,
    pub outcome: Option<Completion>,
}

impl View for ExecutionSnapshot {
    type V = SnapshotView;

    open spec fn view(&self) -> SnapshotView {
        SnapshotView {
            invocation_id: self.invocation_id,
            command: self.command@,
            process_id: self.process_id,
            phase: self.phase,
            queue_ms: self.queue_ms,
            execution_ms: self.execution_ms,
            outcome: self.outcome,
        }
    }
}

impl ExecutionSnapshot {
    /// A copy of this report.
    pub fn duplicate(&self) -> (r: Self)
        ensures
            r@ == self@,
    {
        ExecutionSnapshot {
            invocation_id: self.invocation_id,
            command: self.command.clone(),
            process_id: self.process_id,
            phase: self.phase,
            queue_ms: self.queue_ms,
            execution_ms: self.execution_ms,
            outcome: self.outcome,
        }
    }
}

/// Whole milliseconds from `from` to `to`; none if `to` is earlier.
pub open spec fn millis_between(from: u64, to: u64) -> u64 {
    if to >= from {
        ((to - from) / 1_000_000) as u64
    } else {
        0
    }
}

/// The report of one entry at `now`: queue time runs from admission to the
/// start (or the end, or now); execution time from the start to the end (or
/// now).
pub open spec fn snapshot_spec(e: EntryView, now: u64) -> SnapshotView {
    let end = match e.finished {
        Some(f) => f,
        None => now,
    };
    SnapshotView {
        invocation_id: e.id,
        command: e.command,
        process_id: match e.process {
            Some(p) => p,
            None => 0,
        },
        phase: e.phase,
        queue_ms: millis_between(
            e.admitted,
            match e.started {
                Some(s) => s,
                None => end,
            },
        ),
        execution_ms: match e.started {
            Some(s) => millis_between(s, end),
            None => 0,
        },
        outcome: e.outcome,
    }
}

/// The reports of a host's executions of one command, in admission order.
pub open spec fn inspected(entries: Seq<EntryView>, host: Seq<char>, command: Seq<char>, now: u64) -> Seq<SnapshotView>
    decreases entries.len(),
{
    if entries.len() == 0 {
        Seq::empty()
    } else {
        let rest = inspected(entries.drop_last(), host, command, now);
        let e = entries.last();
        if e.host == host && e.command == command {
            rest.push(snapshot_spec(e, now))
        } else {
            rest
        }
    }
}

/// How many of a host's executions wait in its queue.
pub open spec fn queued_count(entries: Seq<EntryView>, host: Seq<char>) -> nat
    decreases entries.len(),
{
    if entries.len() == 0 {
        0
    } else {
        queued_count(entries.drop_last(), host) + if entries.last().host == host
            && entries.last().phase == ExecutionPhase::Queued {
            1nat
        } else {
            0nat
        }
    }
}

/// How many of a host's executions are starting or running.
pub open spec fn active_count(entries: Seq<EntryView>, host: Seq<char>) -> nat
    decreases entries.len(),
{
    if entries.len() == 0 {
        0
    } else {
        active_count(entries.drop_last(), host) + if entries.last().host == host && (
        entries.last().phase == ExecutionPhase::Starting || entries.last().phase
            == ExecutionPhase::Dispatched) {
            1nat
        } else {
            0nat
        }
    }
}

/// The entry with identity `id`.
pub open spec fn entry_with(entries: Seq<EntryView>, id: u64) -> EntryView {
    entries[choose|k: int| 0 <= k < entries.len() && entries[k].id == id]
}

/// A host's refused executions among `completed`, newest first, at most
/// `limit` of them.
pub open spec fn recent_failures(
    completed: Seq<u64>,
    entries: Seq<EntryView>,
    host: Seq<char>,
    now: u64,
    limit: nat,
) -> Seq<SnapshotView>
    decreases completed.len(),
{
    if completed.len() == 0 || limit == 0 {
        Seq::empty()
    } else {
        let e = entry_with(entries, completed.last());
        if e.host == host && (e.outcome matches Some(Completion::Refused(_))) {
            seq![snapshot_spec(e, now)] + recent_failures(
                completed.drop_last(),
                entries,
                host,
                now,
                (limit - 1) as nat,
            )
        } else {
            recent_failures(completed.drop_last(), entries, host, now, limit)
        }
    }
}

/// What a host is doing now.
#[derive(Debug)]
pub struct Activity {
    pub queued: usize,
    pub active: usize,
    /// Its latest refused executions, newest first.
    pub failures: Vec<ExecutionSnapshot>,
}

/// Every execution admitted and not yet forgotten.
#[derive(Debug)]
pub struct Invocations {
    next: u64,
    entries: Vec<Entry>,
    completed: Vec<u64>,
}

pub open spec fn contains_id(entries: Seq<EntryView>, id: u64) -> bool {
    exists|k: int| 0 <= k < entries.len() && entries[k].id == id
}

/// The entry with identity `id` is there and finished.
pub open spec fn finished_with(entries: Seq<EntryView>, id: u64) -> bool {
    exists|k: int| 0 <= k < entries.len() && #[trigger] entries[k].id == id && entries[k].phase
        == ExecutionPhase::Finished
}

/// Identities strictly increasing and none above `next`.
pub open spec fn sorted_ids(es: Seq<EntryView>, next: u64) -> bool {
    &&& forall|i: int, j: int| 0 <= i < j < es.len() ==> es[i].id < es[j].id
    &&& forall|i: int| 0 <= i < es.len() ==> 0 < #[trigger] es[i].id <= next
}

/// An entry once its execution ended.
pub open spec fn finish_entry(e: EntryView, outcome: Completion, now: u64) -> EntryView {
    EntryView { phase: ExecutionPhase::Finished, finished: Some(now), outcome: Some(outcome), ..e }
}

/// Completing `id` takes effect: it is there and not finished yet.
pub open spec fn completes(entries: Seq<EntryView>, completed: Seq<u64>, id: u64) -> bool {
    exists|k: int| 0 <= k < entries.len() && #[trigger] entries[k].id == id && entries[k].phase
        != ExecutionPhase::Finished
}

/// The table after `id` completed: its entry is finished and queued last;
/// past `RETAINED` the oldest completed entry is forgotten.
pub open spec fn completion_of(
    entries: Seq<EntryView>,
    completed: Seq<u64>,
    id: u64,
    outcome: Completion,
    now: u64,
    entries2: Seq<EntryView>,
    completed2: Seq<u64>,
) -> bool {
    let k = choose|k: int| 0 <= k < entries.len() && #[trigger] entries[k].id == id && entries[k].phase
        != ExecutionPhase::Finished;
    let marked = entries.update(k, finish_entry(entries[k], outcome, now));
    let pushed = completed.push(id);
    if pushed.len() <= RETAINED {
        entries2 == marked && completed2 == pushed
    } else {
        completed2 == pushed.drop_first() && exists|j: int| 0 <= j < marked.len() && #[trigger] marked[j].id
            == pushed[0] && entries2 == marked.remove(j)
    }
}

/// What is reported of one entry at `now`.
fn snapshot(e: &Entry, now: u64) -> (r: ExecutionSnapshot)
    ensures
        r@ == snapshot_spec(e@, now),
{
    let end = match e.finished {
        Some(f) => f,
        None => now,
    };
    let queue_end = match e.started {
        Some(s) => s,
        None => end,
    };
    ExecutionSnapshot {
        invocation_id: e.id,
        command: e.command.clone(),
        process_id: match e.process {
            Some(p) => p,
            None => 0,
        },
        phase: e.phase,
        queue_ms: millis(e.admitted, queue_end),
        execution_ms: match e.started {
            Some(s) => millis(s, end),
            None => 0,
        },
        outcome: e.outcome,
    }
}

fn millis(from: u64, to: u64) -> (r: u64)
    ensures
        r == millis_between(from, to),
{
    if to >= from {
        (to - from) / 1_000_000
    } else {
        0
    }
}

/// Identities are unique: the entry found for `id` is the one `entry_with`
/// names.
proof fn lemma_unique_id(es: Seq<EntryView>, next: u64, j: int, id: u64)
    requires
        sorted_ids(es, next),
        0 <= j < es.len(),
        es[j].id == id,
    ensures
        entry_with(es, id) == es[j],
{
    let k = choose|k: int| 0 <= k < es.len() && es[k].id == id;
    if k < j {
        assert(es[k].id < es[j].id);
    } else if k > j {
        assert(es[j].id < es[k].id);
    }
}

impl Invocations {
    pub closed spec fn entries(&self) -> Seq<EntryView> {
        self.entries@.map_values(|e: Entry| e@)
    }

    /// Identities of finished executions, oldest first.
    pub closed spec fn completed(&self) -> Seq<u64> {
        self.completed@
    }

    /// The last identity handed out.
    pub closed spec fn last_id(&self) -> u64 {
        self.next
    }

    /// Identities increase with admission; the completed queue names each
    /// finished entry once and nothing else, and holds at most `RETAINED`.
    pub closed spec fn wf(&self) -> bool {
        let es = self.entries();
        let cs = self.completed@;
        &&& forall|i: int, j: int| 0 <= i < j < es.len() ==> es[i].id < es[j].id
        &&& forall|i: int| 0 <= i < es.len() ==> 0 < #[trigger] es[i].id <= self.next
        &&& cs.len() <= RETAINED
        &&& cs.no_duplicates()
        &&& forall|c: int| 0 <= c < cs.len() ==> finished_with(es, #[trigger] cs[c])
        &&& forall|k: int| 0 <= k < es.len() && #[trigger] es[k].phase == ExecutionPhase::Finished
            ==> cs.contains(es[k].id)
    }

    pub fn new() -> (r: Self)
        ensures
            r.wf(),
            r.entries() == Seq::<EntryView>::empty(),
            r.completed() == Seq::<u64>::empty(),
            r.last_id() == 0,
    {
        let r = Invocations { next: 0, entries: Vec::new(), completed: Vec::new() };
        proof {
            assert(r.entries() =~= Seq::<EntryView>::empty());
        }
        r
    }

    fn find(&self, id: u64) -> (r: Option<usize>)
        ensures
            match r {
                Some(k) => k < self.entries().len() && self.entries()[k as int].id == id,
                None => !contains_id(self.entries(), id),
            },
    {
        let mut k: usize = 0;
        while k < self.entries.len()
            invariant
                k <= self.entries@.len(),
                forall|j: int| 0 <= j < k ==> self.entries()[j].id != id,
            decreases self.entries@.len() - k,
        {
            if self.entries[k].id == id {
                return Some(k);
            }
            k = k + 1;
        }
        None
    }

    /// Record an execution admitted at `now`; its identity is the next unused one.
    pub fn record(&mut self, host: String, command: String, now: u64) -> (r: Result<u64, Refusal>)
        requires
            old(self).wf(),
        ensures
            final(self).wf(),
            old(self).last_id() < u64::MAX ==> r == Ok::<u64, Refusal>((old(self).last_id() + 1) as u64),
            old(self).last_id() == u64::MAX ==> (r matches Err(e) && e.code == ErrorCode::ResourceExhausted
                && e.message@ == "invocation identities exhausted"@),
            r is Ok ==> final(self).entries() == old(self).entries().push(EntryView {
                id: (old(self).last_id() + 1) as u64,
                host: host@,
                command: command@,
                process: None,
                phase: ExecutionPhase::Queued,
                admitted: now,
                started: None,
                finished: None,
                outcome: None,
            }) && final(self).last_id() == old(self).last_id() + 1,
            r is Err ==> final(self).entries() == old(self).entries() && final(self).last_id() == old(self).last_id(),
            final(self).completed() == old(self).completed(),
    {
        if self.next == u64::MAX {
            return Err(Refusal::exhausted("invocation identities exhausted".to_owned()));
        }
        let id = self.next + 1;
        let ghost before = self.entries();
        self.next = id;
        self.entries.push(Entry {
            id,
            host,
            command,
            process: None,
            phase: ExecutionPhase::Queued,
            admitted: now,
            started: None,
            finished: None,
            outcome: None,
        });
        proof {
            assert(self.entries() =~= before.push(self.entries()[before.len() as int]));
            let es = self.entries();
            assert forall|i: int, j: int| 0 <= i < j < es.len() implies es[i].id < es[j].id by {
                if j < before.len() {
                    assert(es[i] == before[i] && es[j] == before[j]);
                } else {
                    assert(es[i] == before[i]);
                    assert(before[i].id <= old(self).next);
                }
            }
            assert forall|i: int| 0 <= i < es.len() implies 0 < #[trigger] es[i].id <= self.next by {
                if i < before.len() {
                    assert(es[i] == before[i]);
                }
            }
            assert forall|k: int| 0 <= k < es.len() && #[trigger] es[k].phase == ExecutionPhase::Finished
                implies self.completed@.contains(es[k].id) by {
                assert(k < before.len());
                assert(es[k] == before[k]);
            }
            assert forall|c: int| 0 <= c < self.completed@.len() implies finished_with(es, #[trigger] self.completed@[c]) by {
                let k = choose|k: int| 0 <= k < before.len() && before[k].id == self.completed@[c]
                    && before[k].phase == ExecutionPhase::Finished;
                assert(es[k] == before[k]);
            }
        }
        Ok(id)
    }

    /// The execution left the queue and its process is being found.
    pub fn starting(&mut self, id: u64, now: u64)
        requires
            old(self).wf(),
        ensures
            final(self).wf(),
            final(self).completed() == old(self).completed(),
            final(self).last_id() == old(self).last_id(),
            final(self).entries().len() == old(self).entries().len(),
            forall|k: int| 0 <= k < old(self).entries().len() ==> {
                let e = #[trigger] old(self).entries()[k];
                final(self).entries()[k] == if e.id == id && e.phase != ExecutionPhase::Finished {
                    EntryView { phase: ExecutionPhase::Starting, started: Some(now), ..e }
                } else {
                    e
                }
            },
    {
        if let Some(k) = self.find(id) {
            if self.entries[k].phase != ExecutionPhase::Finished {
                let ghost prev = *self;
                let mut entry = self.entries.remove(k);
                entry.phase = ExecutionPhase::Starting;
                entry.started = Some(now);
                self.entries.insert(k, entry);
                proof {
                    assert(self.entries() =~= prev.entries().update(k as int, self.entries()[k as int]));
                    Self::lemma_replace_unfinished(&prev, self, k as int);
                }
            }
        }
    }

    /// The execution was handed to `process`.
    pub fn dispatched(&mut self, id: u64, process: u64)
        requires
            old(self).wf(),
        ensures
            final(self).wf(),
            final(self).completed() == old(self).completed(),
            final(self).last_id() == old(self).last_id(),
            final(self).entries().len() == old(self).entries().len(),
            forall|k: int| 0 <= k < old(self).entries().len() ==> {
                let e = #[trigger] old(self).entries()[k];
                final(self).entries()[k] == if e.id == id && e.phase != ExecutionPhase::Finished {
                    EntryView { phase: ExecutionPhase::Dispatched, process: Some(process), ..e }
                } else {
                    e
                }
            },
    {
        if let Some(k) = self.find(id) {
            if self.entries[k].phase != ExecutionPhase::Finished {
                let ghost prev = *self;
                let mut entry = self.entries.remove(k);
                entry.phase = ExecutionPhase::Dispatched;
                entry.process = Some(process);
                self.entries.insert(k, entry);
                proof {
                    assert(self.entries() =~= prev.entries().update(k as int, self.entries()[k as int]));
                    Self::lemma_replace_unfinished(&prev, self, k as int);
                }
            }
        }
    }

    /// Replacing an unfinished entry by an unfinished one with the same
    /// identity keeps the table well formed.
    proof fn lemma_replace_unfinished(before: &Self, after: &Self, k: int)
        requires
            before.wf(),
            0 <= k < before.entries().len(),
            before.entries()[k].phase != ExecutionPhase::Finished,
            after.entries() == before.entries().update(k, after.entries()[k]),
            after.entries()[k].id == before.entries()[k].id,
            after.entries()[k].phase != ExecutionPhase::Finished,
            after.next == before.next,
            after.completed@ == before.completed@,
        ensures
            after.wf(),
    {
        let es = after.entries();
        let bs = before.entries();
        let cs = after.completed@;
        assert forall|i: int, j: int| 0 <= i < j < es.len() implies es[i].id < es[j].id by {
            assert(bs[i].id < bs[j].id);
            assert(es[i].id == bs[i].id);
            assert(es[j].id == bs[j].id);
        }
        assert forall|i: int| 0 <= i < es.len() implies 0 < #[trigger] es[i].id <= after.next by {
            assert(bs[i].id == es[i].id);
        }
        assert forall|c: int| 0 <= c < cs.len() implies finished_with(es, #[trigger] cs[c]) by {
            let j = choose|j: int| 0 <= j < bs.len() && bs[j].id == cs[c]
                && bs[j].phase == ExecutionPhase::Finished;
            assert(j != k);
            assert(es[j] == bs[j]);
        }
        assert forall|j: int| 0 <= j < es.len() && #[trigger] es[j].phase == ExecutionPhase::Finished
            implies cs.contains(es[j].id) by {
            assert(j != k);
            assert(es[j] == bs[j]);
            assert(bs[j].phase == ExecutionPhase::Finished);
        }
    }

    /// Finish the execution `id` with `outcome` at `now`, once; the oldest
    /// completed entry beyond `RETAINED` is forgotten.
    pub fn complete(&mut self, id: u64, outcome: Completion, now: u64)
        requires
            old(self).wf(),
        ensures
            final(self).wf(),
            final(self).last_id() == old(self).last_id(),
            completes(old(self).entries(), old(self).completed(), id)
                ==> completion_of(old(self).entries(), old(self).completed(), id, outcome, now, final(self).entries(), final(self).completed()),
            !completes(old(self).entries(), old(self).completed(), id) ==> final(self).entries() == old(self).entries()
                && final(self).completed() == old(self).completed(),
    {
        let k = match self.find(id) {
            Some(k) => k,
            None => return ,
        };
        if self.entries[k].phase == ExecutionPhase::Finished {
            return ;
        }
        let ghost prev = *self;
        let mut entry = self.entries.remove(k);
        entry.phase = ExecutionPhase::Finished;
        entry.finished = Some(now);
        entry.outcome = Some(outcome);
        self.entries.insert(k, entry);
        self.completed.push(id);
        let ghost marked = self.entries();
        proof {
            assert(marked =~= prev.entries().update(k as int, finish_entry(prev.entries()[k as int], outcome, now)));
            Self::lemma_marked(&prev, self, k as int);
        }
        if self.completed.len() > RETAINED {
            let ghost pushed = self.completed@;
            let oldest = self.completed.remove(0);
            proof {
                assert(self.completed@ =~= pushed.drop_first());
                assert(finished_with(marked, pushed[0]));
            }
            match self.find(oldest) {
                Some(j) => {
                    self.entries.remove(j);
                    proof {
                        assert(self.entries() =~= marked.remove(j as int));
                        Self::lemma_forget_oldest(marked, pushed, self, j as int);
                    }
                },
                None => {
                    proof {
                        assert(false);
                    }
                },
            }
        }
    }

    /// The table after marking an unfinished entry finished and queuing it.
    proof fn lemma_marked(before: &Self, after: &Self, k: int)
        requires
            before.wf(),
            0 <= k < before.entries().len(),
            before.entries()[k].phase != ExecutionPhase::Finished,
            after.entries()[k].phase == ExecutionPhase::Finished,
            after.entries() == before.entries().update(k, after.entries()[k]),
            after.entries()[k].id == before.entries()[k].id,
            after.next == before.next,
            after.completed@ == before.completed@.push(before.entries()[k].id),
        ensures
            sorted_ids(after.entries(), after.next),
            after.completed@.len() <= RETAINED + 1,
            after.completed@.no_duplicates(),
            forall|c: int| 0 <= c < after.completed@.len() ==> finished_with(after.entries(), #[trigger] after.completed@[c]),
            forall|j: int| 0 <= j < after.entries().len() && #[trigger] after.entries()[j].phase == ExecutionPhase::Finished
                ==> after.completed@.contains(after.entries()[j].id),
            after.completed@.len() <= RETAINED ==> after.wf(),
    {
        let es = after.entries();
        let bs = before.entries();
        let cs = after.completed@;
        let ps = before.completed@;
        let id = bs[k].id;
        assert forall|i: int, j: int| 0 <= i < j < es.len() implies es[i].id < es[j].id by {
            assert(bs[i].id < bs[j].id);
            assert(es[i].id == bs[i].id);
            assert(es[j].id == bs[j].id);
        }
        assert forall|i: int| 0 <= i < es.len() implies 0 < #[trigger] es[i].id <= after.next by {
            assert(bs[i].id == es[i].id);
        }
        if ps.contains(id) {
            let c = choose|c: int| 0 <= c < ps.len() && ps[c] == id;
            assert(finished_with(bs, ps[c]));
            let j = choose|j: int| 0 <= j < bs.len() && #[trigger] bs[j].id == ps[c] && bs[j].phase == ExecutionPhase::Finished;
            if j < k {
                assert(bs[j].id < bs[k].id);
            } else if j > k {
                assert(bs[k].id < bs[j].id);
            }
            assert(false);
        }
        assert forall|a: int, b: int| 0 <= a < b < cs.len() implies cs[a] != cs[b] by {
            if b == cs.len() - 1 {
                assert(cs[a] == ps[a]);
                assert(ps.contains(ps[a]));
            } else {
                assert(cs[a] == ps[a] && cs[b] == ps[b]);
            }
        }
        assert forall|c: int| 0 <= c < cs.len() implies finished_with(es, #[trigger] cs[c]) by {
            if c == cs.len() - 1 {
                assert(es[k].id == cs[c] && es[k].phase == ExecutionPhase::Finished);
            } else {
                assert(cs[c] == ps[c]);
                assert(finished_with(bs, ps[c]));
                let j = choose|j: int| 0 <= j < bs.len() && #[trigger] bs[j].id == ps[c] && bs[j].phase == ExecutionPhase::Finished;
                assert(j != k);
                assert(es[j] == bs[j]);
            }
        }
        assert forall|j: int| 0 <= j < es.len() && #[trigger] es[j].phase == ExecutionPhase::Finished
            implies cs.contains(es[j].id) by {
            if j == k {
                assert(cs[cs.len() - 1] == es[j].id);
            } else {
                assert(es[j] == bs[j]);
                assert(ps.contains(bs[j].id));
                let c = choose|c: int| 0 <= c < ps.len() && ps[c] == bs[j].id;
                assert(cs[c] == ps[c]);
            }
        }
    }

    /// Forgetting the oldest completed entry restores the bound.
    proof fn lemma_forget_oldest(marked: Seq<EntryView>, pushed: Seq<u64>, after: &Self, j: int)
        requires
            sorted_ids(marked, after.next),
            pushed.len() == RETAINED + 1,
            pushed.no_duplicates(),
            forall|c: int| 0 <= c < pushed.len() ==> finished_with(marked, #[trigger] pushed[c]),
            forall|m: int| 0 <= m < marked.len() && #[trigger] marked[m].phase == ExecutionPhase::Finished
                ==> pushed.contains(marked[m].id),
            0 <= j < marked.len(),
            marked[j].id == pushed[0],
            after.entries() == marked.remove(j),
            after.completed@ == pushed.drop_first(),
        ensures
            after.wf(),
    {
        let es = after.entries();
        let cs = after.completed@;
        assert forall|a: int, b: int| 0 <= a < b < es.len() implies es[a].id < es[b].id by {
            let a0 = if a < j { a } else { a + 1 };
            let b0 = if b < j { b } else { b + 1 };
            assert(es[a] == marked[a0] && es[b] == marked[b0]);
        }
        assert forall|i: int| 0 <= i < es.len() implies 0 < #[trigger] es[i].id <= after.next by {
            let i0 = if i < j { i } else { i + 1 };
            assert(es[i] == marked[i0]);
        }
        assert forall|a: int, b: int| 0 <= a < b < cs.len() implies cs[a] != cs[b] by {
            assert(cs[a] == pushed[a + 1] && cs[b] == pushed[b + 1]);
        }
        assert forall|c: int| 0 <= c < cs.len() implies finished_with(es, #[trigger] cs[c]) by {
            assert(cs[c] == pushed[c + 1]);
            assert(pushed[c + 1] != pushed[0]);
            assert(finished_with(marked, pushed[c + 1]));
            let m = choose|m: int| 0 <= m < marked.len() && #[trigger] marked[m].id == pushed[c + 1] && marked[m].phase == ExecutionPhase::Finished;
            assert(m != j);
            let m1 = if m < j { m } else { m - 1 };
            assert(es[m1] == marked[m]);
        }
        assert forall|m: int| 0 <= m < es.len() && #[trigger] es[m].phase == ExecutionPhase::Finished
            implies cs.contains(es[m].id) by {
            let m0 = if m < j { m } else { m + 1 };
            assert(es[m] == marked[m0]);
            assert(m0 != j);
            if m0 < j {
                assert(marked[m0].id < marked[j].id);
            } else {
                assert(marked[j].id < marked[m0].id);
            }
            assert(pushed.contains(marked[m0].id));
            let c = choose|c: int| 0 <= c < pushed.len() && pushed[c] == marked[m0].id;
            assert(c != 0);
            assert(cs[c - 1] == pushed[c]);
        }
    }

    /// The execution ended with `result`.
    pub fn finish(&mut self, id: u64, result: Result<(), ErrorCode>, now: u64)
        requires
            old(self).wf(),
        ensures
            final(self).wf(),
            final(self).last_id() == old(self).last_id(),
            completes(old(self).entries(), old(self).completed(), id) ==> completion_of(
                old(self).entries(),
                old(self).completed(),
                id,
                match result {
                    Ok(()) => Completion::Succeeded,
                    Err(code) => Completion::Refused(code),
                },
                now,
                final(self).entries(),
                final(self).completed(),
            ),
            !completes(old(self).entries(), old(self).completed(), id) ==> final(self).entries() == old(self).entries()
                && final(self).completed() == old(self).completed(),
    {
        let outcome = match result {
            Ok(()) => Completion::Succeeded,
            Err(code) => Completion::Refused(code),
        };
        self.complete(id, outcome, now);
    }

    /// The executions of `host` for `command`, in admission order.
    pub fn inspect(&self, host: &str, command: &str, now: u64) -> (r: Vec<ExecutionSnapshot>)
        ensures
            r@.map_values(|x: ExecutionSnapshot| x@) == inspected(self.entries(), host@, command@, now),
    {
        let mut out: Vec<ExecutionSnapshot> = Vec::new();
        let mut k: usize = 0;
        while k < self.entries.len()
            invariant
                k <= self.entries@.len(),
                out@.map_values(|x: ExecutionSnapshot| x@) == inspected(self.entries().take(k as int), host@, command@, now),
            decreases self.entries@.len() - k,
        {
            let e = &self.entries[k];
            proof {
                assert(self.entries().take(k + 1).drop_last() =~= self.entries().take(k as int));
                assert(self.entries().take(k + 1).last() == e@);
            }
            if crate::text::text_eq(e.host.as_str(), host) && crate::text::text_eq(e.command.as_str(), command) {
                let ghost before = out@.map_values(|x: ExecutionSnapshot| x@);
                out.push(snapshot(e, now));
                proof {
                    assert(out@.map_values(|x: ExecutionSnapshot| x@) =~= before.push(snapshot_spec(e@, now)));
                }
            }
            k = k + 1;
        }
        proof {
            assert(self.entries().take(self.entries@.len() as int) =~= self.entries());
        }
        out
    }

    /// What `host` is doing: its queued and running executions, and its
    /// latest refused ones, newest first.
    pub fn activity(&self, host: &str, now: u64) -> (r: Activity)
        requires
            self.wf(),
        ensures
            r.queued == queued_count(self.entries(), host@),
            r.active == active_count(self.entries(), host@),
            r.failures@.map_values(|x: ExecutionSnapshot| x@) == recent_failures(
                self.completed(),
                self.entries(),
                host@,
                now,
                RECENT_FAILURES as nat,
            ),
    {
        let mut queued: usize = 0;
        let mut active: usize = 0;
        let mut k: usize = 0;
        while k < self.entries.len()
            invariant
                k <= self.entries@.len(),
                queued == queued_count(self.entries().take(k as int), host@),
                active == active_count(self.entries().take(k as int), host@),
                queued + active <= k,
            decreases self.entries@.len() - k,
        {
            let e = &self.entries[k];
            proof {
                assert(self.entries().take(k + 1).drop_last() =~= self.entries().take(k as int));
                assert(self.entries().take(k + 1).last() == e@);
            }
            if crate::text::text_eq(e.host.as_str(), host) {
                match e.phase {
                    ExecutionPhase::Queued => queued = queued + 1,
                    ExecutionPhase::Starting | ExecutionPhase::Dispatched => active = active + 1,
                    ExecutionPhase::Finished => {},
                }
            }
            k = k + 1;
        }
        proof {
            assert(self.entries().take(self.entries@.len() as int) =~= self.entries());
        }
        let mut failures: Vec<ExecutionSnapshot> = Vec::new();
        let mut c: usize = self.completed.len();
        proof {
            assert(self.completed@.take(c as int) =~= self.completed@);
            assert(failures@.map_values(|x: ExecutionSnapshot| x@) =~= Seq::<SnapshotView>::empty());
            let all = recent_failures(self.completed(), self.entries(), host@, now, RECENT_FAILURES as nat);
            assert(Seq::<SnapshotView>::empty() + all =~= all);
        }
        while c > 0 && failures.len() < RECENT_FAILURES
            invariant
                self.wf(),
                c <= self.completed@.len(),
                failures@.len() <= RECENT_FAILURES,
                failures@.map_values(|x: ExecutionSnapshot| x@) + recent_failures(
                    self.completed@.take(c as int),
                    self.entries(),
                    host@,
                    now,
                    (RECENT_FAILURES - failures@.len()) as nat,
                ) == recent_failures(self.completed(), self.entries(), host@, now, RECENT_FAILURES as nat),
            decreases c,
        {
            let id = self.completed[c - 1];
            let ghost prefix = self.completed@.take(c as int);
            let ghost limit = (RECENT_FAILURES - failures@.len()) as nat;
            proof {
                assert(prefix.drop_last() =~= self.completed@.take(c - 1));
                assert(prefix.last() == id);
                assert(finished_with(self.entries(), self.completed@[c - 1]));
            }
            match self.find(id) {
                Some(j) => {
                    let e = &self.entries[j];
                    proof {
                        lemma_unique_id(self.entries(), self.next, j as int, id);
                    }
                    let refused = match e.outcome {
                        Some(Completion::Refused(_)) => true,
                        _ => false,
                    };
                    if refused && crate::text::text_eq(e.host.as_str(), host) {
                        let ghost before = failures@.map_values(|x: ExecutionSnapshot| x@);
                        failures.push(snapshot(e, now));
                        proof {
                            assert(failures@.map_values(|x: ExecutionSnapshot| x@) =~= before.push(snapshot_spec(e@, now)));
                            assert(before.push(snapshot_spec(e@, now)) + recent_failures(
                                self.completed@.take(c - 1),
                                self.entries(),
                                host@,
                                now,
                                (limit - 1) as nat,
                            ) =~= before + (seq![snapshot_spec(e@, now)] + recent_failures(
                                self.completed@.take(c - 1),
                                self.entries(),
                                host@,
                                now,
                                (limit - 1) as nat,
                            )));
                        }
                    }
                },
                None => {
                    proof {
                        assert(false);
                    }
                },
            }
            c = c - 1;
        }
        proof {
            let rest = recent_failures(
                self.completed@.take(c as int),
                self.entries(),
                host@,
                now,
                (RECENT_FAILURES - failures@.len()) as nat,
            );
            if c == 0 {
                assert(self.completed@.take(0).len() == 0);
            }
            assert(rest =~= Seq::<SnapshotView>::empty());
            assert(failures@.map_values(|x: ExecutionSnapshot| x@) + rest =~= failures@.map_values(|x: ExecutionSnapshot| x@));
        }
        Activity { queued, active, failures }
    }
}

/// Tracking is bounded: the completed queue never holds more than
/// `RETAINED` identities, each once, and every finished execution still
/// remembered is among them.
pub proof fn history_is_bounded(invocations: &Invocations)
    requires
        invocations.wf(),
    ensures
        invocations.completed().len() <= RETAINED,
        invocations.completed().no_duplicates(),
        forall|k: int| 0 <= k < invocations.entries().len() && #[trigger] invocations.entries()[k].phase
            == ExecutionPhase::Finished ==> invocations.completed().contains(invocations.entries()[k].id),
{
}

} // verus!

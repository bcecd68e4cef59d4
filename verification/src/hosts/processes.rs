//! Authentication and connections for supervised command-process incarnations.
use vstd::prelude::*;
use crate::plugins::token::PluginToken;
use crate::refusal::{ErrorCode, Refusal};
use crate::hosts::startup::ProcessPhase;

verus! {

/// One spawned command process, from preparation until it is reaped.
#[derive(Debug)]
pub struct Process {
    pub id: u64,
    pub host: String,
    /// The one invocation a one-shot process serves.
    pub invocation: Option<u64>,
    /// The hash of the manifest it was spawned with.
    pub manifest_hash: String,
    /// The secret it was spawned with.
    pub token: PluginToken,
    /// The pid the token is bound to.
    pub pid: Option<i32>,
    /// It holds a session.
    pub connected: bool,
    /// It has been told to stop.
    pub stopping: bool,
}

pub struct ProcessView {
    pub id: u64,
    pub host: Seq<char>,
    pub invocation: Option<u64>,
    pub manifest_hash: Seq<char>,
    pub token: Seq<char>,
    pub pid: Option<i32>,
    pub connected: bool,
    pub stopping: bool,
}

impl View for Process {
    type V = ProcessView;

    open spec fn view(&self) -> ProcessView {
        ProcessView {
            id: self.id,
            host: self.host@,
            invocation: self.invocation,
            manifest_hash: self.manifest_hash@,
            token: self.token@,
            pid: self.pid,
            connected: self.connected,
            stopping: self.stopping,
        }
    }
}

/// A process as the host status reports it.
#[derive(Debug, Clone, Copy, PartialEq, Eq, Structural)]
pub struct ProcessStatus {
    pub id: u64,
    pub phase: ProcessPhase,
}

/// Stopping wins over connected, which wins over starting.
pub open spec fn process_phase(p: ProcessView) -> ProcessPhase {
    if p.stopping {
        ProcessPhase::Stopping
    } else if p.connected {
        ProcessPhase::Running
    } else {
        ProcessPhase::Starting
    }
}

/// The statuses of a host's processes, in identity order.
pub open spec fn statuses_of(records: Seq<ProcessView>, host: Seq<char>) -> Seq<ProcessStatus>
    decreases records.len(),
{
    if records.len() == 0 {
        Seq::empty()
    } else {
        let rest = statuses_of(records.drop_last(), host);
        let p = records.last();
        if p.host == host {
            rest.push(ProcessStatus { id: p.id, phase: process_phase(p) })
        } else {
            rest
        }
    }
}

/// Whether the process's token, bound to `pid` or not yet bound, is `token`.
pub open spec fn process_claims(p: ProcessView, pid: i32, token: Seq<char>) -> bool {
    p.token == token && (p.pid is None || p.pid == Some(pid))
}

/// How a peer presenting `token` from `pid` with a manifest hashed `hash` is
/// answered: no process holds the token (`Ok(None)`), one does and admits it
/// (`Ok(Some(index))`), or it is refused.
pub open spec fn authentication(records: Seq<ProcessView>, pid: i32, token: Seq<char>, hash: Seq<char>) -> Result<Option<int>, (ErrorCode, Seq<char>)> {
    if !(exists|k: int| 0 <= k < records.len() && #[trigger] records[k].token == token) {
        Ok(None)
    } else {
        let k = choose|k: int| 0 <= k < records.len() && #[trigger] records[k].token == token
            && forall|j: int| 0 <= j < k ==> records[j].token != token;
        let p = records[k];
        if p.stopping {
            Err((ErrorCode::Unauthenticated, "command process is stopping"@))
        } else if !process_claims(p, pid, token) {
            Err((ErrorCode::Unauthenticated, "command host PID does not match spawn"@))
        } else if p.manifest_hash != hash {
            Err((ErrorCode::FailedPrecondition, "command host manifest mismatch"@))
        } else if p.connected {
            Err((ErrorCode::FailedPrecondition, "command process already connected"@))
        } else {
            Ok(Some(k))
        }
    }
}

/// The table of live command processes.
#[derive(Debug)]
pub struct Processes {
    next: u64,
    records: Vec<Process>,
}

/// Identities strictly increasing, none zero or above `next`.
pub open spec fn ordered(records: Seq<ProcessView>, next: u64) -> bool {
    &&& forall|i: int, j: int| 0 <= i < j < records.len() ==> records[i].id < records[j].id
    &&& forall|i: int| 0 <= i < records.len() ==> 0 < #[trigger] records[i].id <= next
}

/// Whether a process with identity `id` is in the table.
pub open spec fn holds(records: Seq<ProcessView>, id: u64) -> bool {
    exists|k: int| 0 <= k < records.len() && #[trigger] records[k].id == id
}

/// The record of the process with identity `id`.
pub open spec fn record_of(records: Seq<ProcessView>, id: u64) -> ProcessView {
    records[choose|k: int| 0 <= k < records.len() && #[trigger] records[k].id == id]
}

/// What a readiness check finds.
#[derive(Debug, Clone, Copy, PartialEq, Eq, Structural)]
pub enum Readiness {
    /// It connected.
    Ready,
    /// It has not connected yet; wait for a change.
    Pending,
}

impl Processes {
    pub closed spec fn records(&self) -> Seq<ProcessView> {
        self.records@.map_values(|p: Process| p@)
    }

    pub closed spec fn last_id(&self) -> u64 {
        self.next
    }

    pub closed spec fn wf(&self) -> bool {
        ordered(self.records(), self.next)
    }

    pub fn new() -> (r: Self)
        ensures
            r.wf(),
            r.records() == Seq::<ProcessView>::empty(),
            r.last_id() == 0,
    {
        let r = Processes { next: 0, records: Vec::new() };
        proof {
            assert(r.records() =~= Seq::<ProcessView>::empty());
        }
        r
    }

    fn find(&self, id: u64) -> (r: Option<usize>)
        ensures
            match r {
                Some(k) => k < self.records().len() && self.records()[k as int].id == id,
                None => !holds(self.records(), id),
            },
    {
        let mut k: usize = 0;
        while k < self.records.len()
            invariant
                k <= self.records@.len(),
                forall|j: int| 0 <= j < k ==> self.records()[j].id != id,
            decreases self.records@.len() - k,
        {
            if self.records[k].id == id {
                return Some(k);
            }
            k = k + 1;
        }
        None
    }

    proof fn lemma_record_of(&self, k: int, id: u64)
        requires
            self.wf(),
            0 <= k < self.records().len(),
            self.records()[k].id == id,
        ensures
            record_of(self.records(), id) == self.records()[k],
    {
        let rs = self.records();
        let j = choose|j: int| 0 <= j < rs.len() && #[trigger] rs[j].id == id;
        if j < k {
            assert(rs[j].id < rs[k].id);
        } else if j > k {
            assert(rs[k].id < rs[j].id);
        }
    }

    /// Replace the record at `k` by one with the same identity.
    fn replace(&mut self, k: usize, record: Process)
        requires
            old(self).wf(),
            k < old(self).records().len(),
            record.id == old(self).records()[k as int].id,
        ensures
            final(self).wf(),
            final(self).records() == old(self).records().update(k as int, record@),
            final(self).last_id() == old(self).last_id(),
    {
        let ghost before = self.records();
        self.records.remove(k);
        self.records.insert(k, record);
        proof {
            let rs = self.records();
            assert(rs =~= before.update(k as int, record@));
            assert forall|i: int, j: int| 0 <= i < j < rs.len() implies rs[i].id < rs[j].id by {
                assert(before[i].id < before[j].id);
                assert(rs[i].id == before[i].id && rs[j].id == before[j].id);
            }
            assert forall|i: int| 0 <= i < rs.len() implies 0 < #[trigger] rs[i].id <= self.next by {
                assert(rs[i].id == before[i].id);
            }
        }
    }

    /// The statuses of `host`'s processes.
    pub fn inspect(&self, host: &str) -> (r: Vec<ProcessStatus>)
        ensures
            r@ == statuses_of(self.records(), host@),
    {
        let mut out: Vec<ProcessStatus> = Vec::new();
        let mut k: usize = 0;
        while k < self.records.len()
            invariant
                k <= self.records@.len(),
                out@ == statuses_of(self.records().take(k as int), host@),
            decreases self.records@.len() - k,
        {
            let p = &self.records[k];
            proof {
                assert(self.records().take(k + 1).drop_last() =~= self.records().take(k as int));
                assert(self.records().take(k + 1).last() == p@);
            }
            if crate::text::text_eq(p.host.as_str(), host) {
                let phase = if p.stopping {
                    ProcessPhase::Stopping
                } else if p.connected {
                    ProcessPhase::Running
                } else {
                    ProcessPhase::Starting
                };
                out.push(ProcessStatus { id: p.id, phase });
            }
            k = k + 1;
        }
        proof {
            assert(self.records().take(self.records@.len() as int) =~= self.records());
        }
        out
    }

    pub fn contains(&self, id: u64) -> (r: bool)
        ensures
            r == holds(self.records(), id),
    {
        self.find(id).is_some()
    }

    pub fn is_empty(&self) -> (r: bool)
        ensures
            r == (self.records().len() == 0),
    {
        self.records.len() == 0
    }

    /// Enter a process about to be spawned for `host`, with a fresh identity
    /// and a fresh token. The identity is used up even when no token could be
    /// had.
    pub fn prepare(&mut self, host: String, invocation: Option<u64>, manifest_hash: String) -> (r: Result<(u64, PluginToken), Refusal>)
        requires
            old(self).wf(),
        ensures
            final(self).wf(),
            old(self).last_id() == u64::MAX <==> (r matches Err(e) && e.code == ErrorCode::ResourceExhausted
                && e.message@ == "process identities exhausted"@),
            old(self).last_id() == u64::MAX ==> final(self).last_id() == old(self).last_id(),
            old(self).last_id() < u64::MAX ==> final(self).last_id() == old(self).last_id() + 1,
            old(self).last_id() < u64::MAX ==> (r matches Err(e) ==> e.code == ErrorCode::Unavailable && exists|reason: Seq<char>|
                e.message@ == "cannot generate a secure plugin identity: "@ + reason),
            r is Err ==> final(self).records() == old(self).records(),
            r matches Ok((id, token)) ==> id == old(self).last_id() + 1 && token@.len() == 32
                && final(self).records() == old(self).records().push(ProcessView {
                    id,
                    host: host@,
                    invocation,
                    manifest_hash: manifest_hash@,
                    token: token@,
                    pid: None,
                    connected: false,
                    stopping: false,
                }),
    {
        if self.next == u64::MAX {
            return Err(Refusal::exhausted("process identities exhausted".to_owned()));
        }
        let id = self.next + 1;
        self.next = id;
        let token = match PluginToken::mint() {
            Ok(token) => token,
            Err(error) => {
                return Err(Refusal::unavailable(error.message()));
            },
        };
        let ghost before = self.records();
        self.records.push(
            Process {
                id,
                host,
                invocation,
                manifest_hash,
                token: token.duplicate(),
                pid: None,
                connected: false,
                stopping: false,
            },
        );
        proof {
            let rs = self.records();
            assert(rs =~= before.push(rs[before.len() as int]));
            assert forall|i: int, j: int| 0 <= i < j < rs.len() implies rs[i].id < rs[j].id by {
                if j < before.len() {
                    assert(rs[i] == before[i] && rs[j] == before[j]);
                } else {
                    assert(rs[i] == before[i]);
                }
            }
            assert forall|i: int| 0 <= i < rs.len() implies 0 < #[trigger] rs[i].id <= self.next by {
                if i < before.len() {
                    assert(rs[i] == before[i]);
                }
            }
        }
        Ok((id, token))
    }

    /// Bind the process's token to the pid it was spawned as.
    pub fn bind(&mut self, id: u64, pid: i32)
        requires
            old(self).wf(),
        ensures
            final(self).wf(),
            final(self).last_id() == old(self).last_id(),
            final(self).records().len() == old(self).records().len(),
            forall|k: int| 0 <= k < old(self).records().len() ==> final(self).records()[k] == if #[trigger] old(self).records()[k].id == id {
                ProcessView { pid: Some(pid), ..old(self).records()[k] }
            } else {
                old(self).records()[k]
            },
    {
        if let Some(k) = self.find(id) {
            let ghost before = self.records();
            let mut record = self.take_at(k);
            record.pid = Some(pid);
            self.replace(k, record);
            proof {
                assert forall|j: int| 0 <= j < before.len() && j != k implies before[j].id != id by {
                    if j < k {
                        assert(before[j].id < before[k as int].id);
                    } else {
                        assert(before[k as int].id < before[j].id);
                    }
                }
            }
        } else {
            proof {
                assert(forall|j: int| 0 <= j < self.records().len() ==> self.records()[j].id != id);
            }
        }
    }

    /// A copy of the record at `k`.
    fn take_at(&self, k: usize) -> (r: Process)
        requires
            k < self.records().len(),
        ensures
            r@ == self.records()[k as int],
    {
        let p = &self.records[k];
        Process {
            id: p.id,
            host: p.host.clone(),
            invocation: p.invocation,
            manifest_hash: p.manifest_hash.clone(),
            token: p.token.duplicate(),
            pid: p.pid,
            connected: p.connected,
            stopping: p.stopping,
        }
    }

    /// Set one flag of the process with identity `id`, wherever it is.
    fn mark(&mut self, k: usize, connected: bool, stopping: bool)
        requires
            old(self).wf(),
            k < old(self).records().len(),
        ensures
            final(self).wf(),
            final(self).last_id() == old(self).last_id(),
            final(self).records() == old(self).records().update(
                k as int,
                ProcessView { connected, stopping, ..old(self).records()[k as int] },
            ),
    {
        let mut record = self.take_at(k);
        record.connected = connected;
        record.stopping = stopping;
        self.replace(k, record);
    }

    /// Admit a peer that presents `token` from `pid` with a manifest hashed
    /// `hash`: the first process holding the token must not be stopping,
    /// must have been spawned as `pid` (or not bound yet), must carry that
    /// manifest and must not be connected; it is then bound to `pid`.
    /// `Ok(None)` when no process holds the token.
    pub fn authenticate(&mut self, pid: i32, token: &str, hash: &str) -> (r: Result<Option<(u64, String, Option<u64>)>, Refusal>)
        requires
            old(self).wf(),
        ensures
            final(self).wf(),
            final(self).last_id() == old(self).last_id(),
            match authentication(old(self).records(), pid, token@, hash@) {
                Ok(None) => r matches Ok(None) && final(self).records() == old(self).records(),
                Ok(Some(k)) => r matches Ok(Some((id, host, invocation))) && id == old(self).records()[k].id
                    && host@ == old(self).records()[k].host && invocation == old(self).records()[k].invocation
                    && final(self).records() == old(self).records().update(
                        k,
                        ProcessView { pid: Some(pid), ..old(self).records()[k] },
                    ),
                Err((code, message)) => r matches Err(e) && e.code == code && e.message@ == message
                    && final(self).records() == old(self).records(),
            },
    {
        let mut k: usize = 0;
        while k < self.records.len()
            invariant
                k <= self.records@.len(),
                forall|j: int| 0 <= j < k ==> self.records()[j].token != token@,
            ensures
                k <= self.records@.len(),
                forall|j: int| 0 <= j < k ==> self.records()[j].token != token@,
                k < self.records@.len() ==> self.records()[k as int].token == token@,
            decreases self.records@.len() - k,
        {
            if crate::text::text_eq(self.records[k].token.as_str(), token) {
                break;
            }
            k = k + 1;
        }
        if k == self.records.len() {
            return Ok(None);
        }
        proof {
            let rs = self.records();
            assert(rs[k as int].token == token@);
            let c = choose|c: int| 0 <= c < rs.len() && #[trigger] rs[c].token == token@
                && forall|j: int| 0 <= j < c ==> rs[j].token != token@;
            if c < k {
            } else if c > k {
                assert(rs[k as int].token != token@);
            }
        }
        if self.records[k].stopping {
            return Err(Refusal::unauthenticated("command process is stopping".to_owned()));
        }
        let bound = match self.records[k].pid {
            None => true,
            Some(held) => held == pid,
        };
        if !bound {
            return Err(Refusal::unauthenticated("command host PID does not match spawn".to_owned()));
        }
        if !crate::text::text_eq(self.records[k].manifest_hash.as_str(), hash) {
            return Err(Refusal::precondition("command host manifest mismatch".to_owned()));
        }
        if self.records[k].connected {
            return Err(Refusal::precondition("command process already connected".to_owned()));
        }
        let mut record = self.take_at(k);
        record.pid = Some(pid);
        let id = record.id;
        let host = record.host.clone();
        let invocation = record.invocation;
        self.replace(k, record);
        Ok(Some((id, host, invocation)))
    }

    /// Give the process a session. The caller records the start as
    /// succeeded.
    pub fn connect(&mut self, id: u64) -> (r: Result<(), Refusal>)
        requires
            old(self).wf(),
        ensures
            final(self).wf(),
            final(self).last_id() == old(self).last_id(),
            !holds(old(self).records(), id) ==> (r matches Err(e) && e.code == ErrorCode::Unavailable
                && e.message@ == "command process expired"@),
            holds(old(self).records(), id) ==> {
                let p = record_of(old(self).records(), id);
                &&& p.connected ==> (r matches Err(e) && e.code == ErrorCode::FailedPrecondition
                    && e.message@ == "command process already connected"@)
                &&& !p.connected && p.stopping ==> (r matches Err(e) && e.code == ErrorCode::Unavailable
                    && e.message@ == "command process is stopping"@)
                &&& !p.connected && !p.stopping ==> r is Ok
            },
            r is Err ==> final(self).records() == old(self).records(),
            r is Ok ==> exists|k: int| 0 <= k < old(self).records().len() && #[trigger] old(self).records()[k].id == id
                && final(self).records() == old(self).records().update(k, ProcessView { connected: true, ..old(self).records()[k] }),
    {
        let k = match self.find(id) {
            Some(k) => k,
            None => {
                return Err(Refusal::unavailable("command process expired".to_owned()));
            },
        };
        proof {
            self.lemma_record_of(k as int, id);
        }
        if self.records[k].connected {
            return Err(Refusal::precondition("command process already connected".to_owned()));
        }
        if self.records[k].stopping {
            return Err(Refusal::unavailable("command process is stopping".to_owned()));
        }
        self.mark(k, true, false);
        Ok(())
    }

    /// A start failed before the handshake: the process is told to stop.
    /// True when the failure counts, that is when the process was neither
    /// connected nor already stopping; the caller then records it.
    pub fn fail_startup(&mut self, id: u64) -> (r: bool)
        requires
            old(self).wf(),
        ensures
            final(self).wf(),
            final(self).last_id() == old(self).last_id(),
            r == (holds(old(self).records(), id) && !record_of(old(self).records(), id).connected
                && !record_of(old(self).records(), id).stopping),
            !r ==> final(self).records() == old(self).records(),
            r ==> exists|k: int| 0 <= k < old(self).records().len() && #[trigger] old(self).records()[k].id == id
                && final(self).records() == old(self).records().update(k, ProcessView { stopping: true, ..old(self).records()[k] }),
    {
        let k = match self.find(id) {
            Some(k) => k,
            None => {
                return false;
            },
        };
        proof {
            self.lemma_record_of(k as int, id);
        }
        if self.records[k].connected || self.records[k].stopping {
            return false;
        }
        self.mark(k, false, true);
        true
    }

    /// The process was reaped: forget it.
    pub fn remove(&mut self, id: u64)
        requires
            old(self).wf(),
        ensures
            final(self).wf(),
            final(self).last_id() == old(self).last_id(),
            !holds(final(self).records(), id),
            forall|q: u64| q != id ==> (holds(final(self).records(), q) == holds(old(self).records(), q)),
            forall|q: u64| q != id && holds(old(self).records(), q) ==> record_of(final(self).records(), q) == record_of(old(self).records(), q),
    {
        if let Some(k) = self.find(id) {
            let ghost before = self.records();
            self.records.remove(k);
            proof {
                let rs = self.records();
                assert(rs =~= before.remove(k as int));
                assert forall|i: int, j: int| 0 <= i < j < rs.len() implies rs[i].id < rs[j].id by {
                    let i0 = if i < k { i } else { i + 1 };
                    let j0 = if j < k { j } else { j + 1 };
                    assert(rs[i] == before[i0] && rs[j] == before[j0]);
                }
                assert forall|i: int| 0 <= i < rs.len() implies 0 < #[trigger] rs[i].id <= self.next by {
                    let i0 = if i < k { i } else { i + 1 };
                    assert(rs[i] == before[i0]);
                }
                assert forall|m: int| 0 <= m < rs.len() implies #[trigger] rs[m].id != id by {
                    let m0 = if m < k { m } else { m + 1 };
                    assert(rs[m] == before[m0]);
                    if m0 < k {
                        assert(before[m0].id < before[k as int].id);
                    } else {
                        assert(before[k as int].id < before[m0].id);
                    }
                }
                assert forall|q: u64| q != id implies (holds(rs, q) == holds(before, q)) by {
                    if holds(before, q) {
                        let m = choose|m: int| 0 <= m < before.len() && #[trigger] before[m].id == q;
                        assert(m != k);
                        let m1 = if m < k { m } else { m - 1 };
                        assert(rs[m1] == before[m]);
                    }
                    if holds(rs, q) {
                        let m = choose|m: int| 0 <= m < rs.len() && #[trigger] rs[m].id == q;
                        let m0 = if m < k { m } else { m + 1 };
                        assert(rs[m] == before[m0]);
                    }
                }
                assert forall|q: u64| q != id && holds(before, q) implies record_of(rs, q) == record_of(before, q) by {
                    let m = choose|m: int| 0 <= m < before.len() && #[trigger] before[m].id == q;
                    assert(m != k);
                    let m1 = if m < k { m } else { m - 1 };
                    assert(rs[m1] == before[m]);
                    let a = choose|a: int| 0 <= a < rs.len() && #[trigger] rs[a].id == q;
                    if a < m1 {
                        assert(rs[a].id < rs[m1].id);
                    } else if a > m1 {
                        assert(rs[m1].id < rs[a].id);
                    }
                    let b = choose|b: int| 0 <= b < before.len() && #[trigger] before[b].id == q;
                    if b < m {
                        assert(before[b].id < before[m].id);
                    } else if b > m {
                        assert(before[m].id < before[b].id);
                    }
                }
            }
        }
    }

    /// Its session ended: the process is told to stop.
    pub fn disconnect(&mut self, id: u64)
        requires
            old(self).wf(),
        ensures
            final(self).wf(),
            final(self).last_id() == old(self).last_id(),
            !holds(old(self).records(), id) ==> final(self).records() == old(self).records(),
            holds(old(self).records(), id) ==> exists|k: int| 0 <= k < old(self).records().len() && #[trigger] old(self).records()[k].id == id
                && final(self).records() == old(self).records().update(k, ProcessView { stopping: true, ..old(self).records()[k] }),
    {
        if let Some(k) = self.find(id) {
            let connected = self.records[k].connected;
            self.mark(k, connected, true);
        }
    }

    /// Whether the process has connected: `Pending` while it still may, a
    /// refusal once it exited or was told to stop.
    pub fn ready(&self, id: u64) -> (r: Result<Readiness, Refusal>)
        requires
            self.wf(),
        ensures
            !holds(self.records(), id) ==> (r matches Err(e) && e.code == ErrorCode::Unavailable
                && e.message@ == "command process exited before connecting"@),
            holds(self.records(), id) ==> {
                let p = record_of(self.records(), id);
                &&& p.stopping ==> (r matches Err(e) && e.code == ErrorCode::Unavailable
                    && e.message@ == "command process disconnected"@)
                &&& !p.stopping && p.connected ==> r == Ok::<Readiness, Refusal>(Readiness::Ready)
                &&& !p.stopping && !p.connected ==> r == Ok::<Readiness, Refusal>(Readiness::Pending)
            },
    {
        let k = match self.find(id) {
            Some(k) => k,
            None => {
                return Err(Refusal::unavailable("command process exited before connecting".to_owned()));
            },
        };
        proof {
            self.lemma_record_of(k as int, id);
        }
        if self.records[k].stopping {
            Err(Refusal::unavailable("command process disconnected".to_owned()))
        } else if self.records[k].connected {
            Ok(Readiness::Ready)
        } else {
            Ok(Readiness::Pending)
        }
    }
}

} // verus!

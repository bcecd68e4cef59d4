//! Authoritative plugin table: manifests, lifecycle, tokens, supervision, and
//! sessions, kept in name order.
//!
//! Sessions are known here by number. When an operation ends a session, its
//! number is put on the retired list, and whoever holds the session's channel
//! closes it and forgets what the plugin published.
use vstd::prelude::*;
use crate::keyed::{
    has_key, keyed_map, keyed_sorted, lemma_keyed_empty, lemma_keyed_index, lemma_keyed_insert,
    lemma_keyed_lookup, lemma_keyed_update,
};
use crate::plugins::lifecycle::{connected_next, Lifecycle, LifecycleView, Transition};
use crate::plugins::record::{
    applied, claimed, claims_spec, fresh_record, is_held_spec, status_of, PluginRecord,
    PluginRecordView, PluginStatus,
};
use crate::plugins::token::{PluginToken, TokenError};
use crate::manifest::{named, ManifestStore, PluginManifest};
use crate::text::{lemma_name_lt_total, lemma_name_lt_transitive, name_lt, text_eq, text_less};

verus! {

/// The table entries a sequence of records stands for.
pub open spec fn entries_of(records: Seq<PluginRecord>) -> Seq<(Seq<char>, PluginRecordView)> {
    Seq::new(records.len(), |i: int| (records[i].name@, records[i]@))
}

/// The record a name has, or a fresh one.
pub open spec fn record_or_fresh(
    table: Map<Seq<char>, PluginRecordView>,
    name: Seq<char>,
) -> PluginRecordView {
    if table.contains_key(name) {
        table[name]
    } else {
        fresh_record()
    }
}

/// The retired list after a record gave up the session it held, if any.
pub open spec fn retiring(
    retired: Seq<(Seq<char>, u64)>,
    name: Seq<char>,
    session: Option<u64>,
) -> Seq<(Seq<char>, u64)> {
    match session {
        Some(s) => retired.push((name, s)),
        None => retired,
    }
}

/// A record that completed its handshake on a new session.
pub open spec fn connected_record(r: PluginRecordView, session: u64) -> PluginRecordView {
    PluginRecordView { session: Some(session), contract: r.manifest, lifecycle: connected_next(r.lifecycle), ..r }
}

/// A record whose token is retired: no session, no token, no pid.
pub open spec fn revoked_record(r: PluginRecordView) -> PluginRecordView {
    PluginRecordView { session: None, token: None, pid: None, ..r }
}

/// A record holding a freshly issued token, for a supervised spawn or for a
/// development adoption.
pub open spec fn tokened_record(
    r: PluginRecordView,
    token: Seq<char>,
    adopted: bool,
) -> PluginRecordView {
    PluginRecordView { session: None, token: Some(token), pid: None, adopted, ..r }
}

/// A record handed back from development to the supervisor.
pub open spec fn released_record(r: PluginRecordView) -> PluginRecordView {
    PluginRecordView { session: None, token: None, pid: None, adopted: false, ..r }
}

/// A session that ended: the plugin it belonged to and its number.
#[derive(Debug, Clone)]
pub struct Retired {
    pub plugin: String,
    pub session: u64,
}

/// The settings a new build gives a plugin: the last entry naming it.
pub open spec fn setting_for(settings: Seq<(String, Vec<u8>)>, name: Seq<char>) -> Option<Seq<u8>>
    decreases settings.len(),
{
    if settings.len() == 0 {
        None
    } else if settings.last().0@ == name {
        Some(settings.last().1@)
    } else {
        setting_for(settings.drop_last(), name)
    }
}

/// A record as a new build leaves it: the build's manifest (none when the
/// build has no such plugin) and, when settings came with the build and
/// name it, those settings.
pub open spec fn rebuilt(r: PluginRecordView, manifest: Option<PluginManifest>, setting: Option<Seq<u8>>) -> PluginRecordView {
    PluginRecordView {
        manifest: match manifest {
            Some(m) => Some(m@),
            None => None,
        },
        config: match setting {
            Some(c) => c,
            None => r.config,
        },
        ..r
    }
}

/// A record a new build keeps: one the build contains, or one something
/// still holds or is connected through.
pub open spec fn survives_build(r: PluginRecordView) -> bool {
    r.manifest is Some || is_held_spec(r) || r.session is Some
}

/// The record a name has after a new build, before anything is dropped.
pub open spec fn build_record(
    table: Map<Seq<char>, PluginRecordView>,
    manifests: Seq<PluginManifest>,
    settings: Option<Seq<(String, Vec<u8>)>>,
    name: Seq<char>,
) -> PluginRecordView {
    rebuilt(
        record_or_fresh(table, name),
        named(manifests, name),
        match settings {
            Some(s) => setting_for(s, name),
            None => None,
        },
    )
}

/// The table after a new build: every plugin of the build has a record with
/// its manifest; every other record loses its manifest and stays only while
/// it is held or connected; settings that came with the build replace those
/// of the plugins they name.
pub open spec fn after_build(
    table: Map<Seq<char>, PluginRecordView>,
    manifests: Seq<PluginManifest>,
    settings: Option<Seq<(String, Vec<u8>)>>,
) -> Map<Seq<char>, PluginRecordView> {
    Map::new(
        |n: Seq<char>| (table.contains_key(n) || named(manifests, n) is Some) && survives_build(
            build_record(table, manifests, settings, n),
        ),
        |n: Seq<char>| build_record(table, manifests, settings, n),
    )
}

/// Whether two records differ at most in their manifest.
pub open spec fn same_but_manifest(a: PluginRecordView, b: PluginRecordView) -> bool {
    a == PluginRecordView { manifest: a.manifest, ..b }
}

proof fn lemma_named_some(manifests: Seq<PluginManifest>, name: Seq<char>)
    ensures
        named(manifests, name) is Some <==> exists|j: int| 0 <= j < manifests.len() && (#[trigger] manifests[j]).name@ == name,
    decreases manifests.len(),
{
    if manifests.len() > 0 {
        let rest = manifests.drop_last();
        lemma_named_some(rest, name);
        if exists|j: int| 0 <= j < manifests.len() && (#[trigger] manifests[j]).name@ == name {
            let j = choose|j: int| 0 <= j < manifests.len() && (#[trigger] manifests[j]).name@ == name;
            if j < manifests.len() - 1 {
                assert(rest[j] == manifests[j]);
            }
        }
        if exists|j: int| 0 <= j < rest.len() && (#[trigger] rest[j]).name@ == name {
            let j = choose|j: int| 0 <= j < rest.len() && (#[trigger] rest[j]).name@ == name;
            assert(manifests[j] == rest[j]);
        }
    }
}

/// The settings a new build gives `name`.
fn setting_of(settings: &Vec<(String, Vec<u8>)>, name: &str) -> (r: Option<Vec<u8>>)
    ensures
        match setting_for(settings@, name@) {
            Some(c) => r matches Some(v) && v@ == c,
            None => r is None,
        },
{
    let mut k = settings.len();
    proof {
        assert(settings@.take(k as int) =~= settings@);
    }
    while k > 0
        invariant
            k <= settings@.len(),
            setting_for(settings@, name@) == setting_for(settings@.take(k as int), name@),
        decreases k,
    {
        let ghost prefix = settings@.take(k as int);
        proof {
            assert(prefix.drop_last() =~= settings@.take(k - 1));
            assert(prefix.last() == settings@[k - 1]);
        }
        if text_eq(settings[k - 1].0.as_str(), name) {
            return Some(settings[k - 1].1.clone());
        }
        k = k - 1;
    }
    None
}

#[derive(Debug)]
pub struct PluginRegistry {
    records: Vec<PluginRecord>,
    retired: Vec<Retired>,
}

impl PluginRegistry {
    /// The records, in name order.
    pub closed spec fn entries(&self) -> Seq<(Seq<char>, PluginRecordView)> {
        entries_of(self.records@)
    }

    #[verifier::type_invariant]
    spec fn sorted(&self) -> bool {
        keyed_sorted(self.entries())
    }

    /// Each plugin's record, by name.
    pub closed spec fn table(&self) -> Map<Seq<char>, PluginRecordView> {
        keyed_map(self.entries())
    }

    /// The sessions that have ended and still have to be closed, oldest first.
    pub closed spec fn retired_sessions(&self) -> Seq<(Seq<char>, u64)> {
        self.retired@.map_values(|r: Retired| (r.plugin@, r.session))
    }

    /// An empty table.
    pub fn new() -> (r: Self)
        ensures
            r.table() == Map::<Seq<char>, PluginRecordView>::empty(),
            r.retired_sessions() == Seq::<(Seq<char>, u64)>::empty(),
    {
        let r = PluginRegistry { records: Vec::new(), retired: Vec::new() };
        proof {
            lemma_keyed_empty(r.entries());
            assert(r.retired_sessions() =~= Seq::<(Seq<char>, u64)>::empty());
        }
        r
    }

    /// Where a name is, or where it belongs.
    fn position(&self, name: &str) -> (r: Result<usize, usize>)
        ensures
            r matches Ok(i) ==> i < self.entries().len() && self.entries()[i as int].0 == name@,
            r matches Ok(i) ==> self.table().contains_key(name@),
            r matches Err(i) ==> {
                &&& i <= self.entries().len()
                &&& !self.table().contains_key(name@)
                &&& forall|a: int| 0 <= a < i ==> name_lt(#[trigger] self.entries()[a].0, name@)
                &&& forall|a: int|
                    i <= a < self.entries().len() ==> name_lt(name@, #[trigger] self.entries()[a].0)
            },
    {
        proof {
            use_type_invariant(self);
        }
        let ghost e = self.entries();
        let mut i: usize = 0;
        while i < self.records.len() && text_less(self.records[i].name.as_str(), name)
            invariant
                i <= self.records@.len(),
                e == self.entries(),
                keyed_sorted(e),
                forall|a: int| 0 <= a < i ==> name_lt(#[trigger] e[a].0, name@),
            decreases self.records.len() - i,
        {
            i = i + 1;
        }
        if i < self.records.len() && text_eq(self.records[i].name.as_str(), name) {
            proof {
                lemma_keyed_index(e, i as int);
            }
            return Ok(i);
        }
        proof {
            if i < e.len() {
                lemma_name_lt_total(e[i as int].0, name@);
                assert forall|a: int| i <= a < e.len() implies name_lt(name@, #[trigger] e[a].0) by {
                    if a > i {
                        lemma_name_lt_transitive(name@, e[i as int].0, e[a].0);
                    }
                }
            }
            if keyed_map(e).contains_key(name@) {
                let j = lemma_keyed_lookup(e, name@);
                crate::text::lemma_name_lt_irreflexive(name@);
            }
        }
        Err(i)
    }

    /// Put a record in place of the one at `i`, which has the same name, and
    /// hand back the one that was there.
    fn swap_record(&mut self, i: usize, record: PluginRecord) -> (previous: PluginRecord)
        requires
            i < old(self).entries().len(),
            record.name@ == old(self).entries()[i as int].0,
        ensures
            previous@ == old(self).entries()[i as int].1,
            previous.name@ == record.name@,
            final(self).entries() == old(self).entries().update(i as int, (record.name@, record@)),
            final(self).table() == old(self).table().insert(record.name@, record@),
            final(self).retired_sessions() == old(self).retired_sessions(),
    {
        proof {
            use_type_invariant(&*self);
        }
        let ghost e = self.entries();
        let ghost n = record.name@;
        let ghost v = record@;
        let mut records: Vec<PluginRecord> = Vec::new();
        std::mem::swap(&mut records, &mut self.records);
        let previous = records.remove(i);
        records.insert(i, record);
        proof {
            assert(entries_of(records@) =~= e.update(i as int, (n, v)));
            lemma_keyed_update(e, i as int, v);
        }
        self.records = records;
        previous
    }

    /// Make sure the name has a record, creating a fresh one in its place in
    /// the order, and say where it is.
    fn entry(&mut self, name: &str) -> (i: usize)
        ensures
            i < final(self).entries().len(),
            final(self).entries()[i as int].0 == name@,
            final(self).table() == old(self).table().insert(
                name@,
                record_or_fresh(old(self).table(), name@),
            ),
            final(self).retired_sessions() == old(self).retired_sessions(),
    {
        proof {
            use_type_invariant(&*self);
        }
        match self.position(name) {
            Ok(i) => {
                proof {
                    lemma_keyed_index(self.entries(), i as int);
                    assert(self.table().insert(name@, self.table()[name@]) =~= self.table());
                }
                i
            },
            Err(i) => {
                let ghost e = self.entries();
                let record = PluginRecord::new(name.to_owned());
                let ghost v = record@;
                let mut records: Vec<PluginRecord> = Vec::new();
                std::mem::swap(&mut records, &mut self.records);
                records.insert(i, record);
                proof {
                    assert(entries_of(records@) =~= e.insert(i as int, (name@, v)));
                    lemma_keyed_insert(e, i as int, name@, v);
                }
                self.records = records;
                i
            },
        }
    }

    fn retire(&mut self, plugin: &String, session: u64)
        ensures
            final(self).entries() == old(self).entries(),
            final(self).table() == old(self).table(),
            final(self).retired_sessions() == old(self).retired_sessions().push(
                (plugin@, session),
            ),
    {
        proof {
            use_type_invariant(&*self);
        }
        let mut retired: Vec<Retired> = Vec::new();
        std::mem::swap(&mut retired, &mut self.retired);
        retired.push(Retired { plugin: plugin.clone(), session });
        self.retired = retired;
        proof {
            assert(final(self).retired_sessions() =~= old(self).retired_sessions().push(
                (plugin@, session),
            ));
        }
    }

    /// Hand over the sessions that ended, so they can be closed.
    pub fn take_retired(&mut self) -> (r: Vec<Retired>)
        ensures
            r@.map_values(|x: Retired| (x.plugin@, x.session)) == old(self).retired_sessions(),
            final(self).retired_sessions() == Seq::<(Seq<char>, u64)>::empty(),
            final(self).table() == old(self).table(),
    {
        proof {
            use_type_invariant(&*self);
        }
        let mut r: Vec<Retired> = Vec::new();
        std::mem::swap(&mut r, &mut self.retired);
        proof {
            assert(final(self).retired_sessions() =~= Seq::<(Seq<char>, u64)>::empty());
        }
        r
    }

    // ---- lifecycle ----

    /// Record something that happened to a plugin. Returns whether its state
    /// moved, which is when the table has to be published again.
    pub fn transition(&mut self, name: &str, transition: Transition) -> (moved: bool)
        ensures
            final(self).table() == old(self).table().insert(
                name@,
                applied(record_or_fresh(old(self).table(), name@), transition@),
            ),
            moved == (applied(record_or_fresh(old(self).table(), name@), transition@).lifecycle
                != record_or_fresh(old(self).table(), name@).lifecycle),
            final(self).retired_sessions() == old(self).retired_sessions(),
    {
        let ghost base = record_or_fresh(old(self).table(), name@);
        let ghost event = transition@;
        let i = self.entry(name);
        proof {
            use_type_invariant(&*self);
            lemma_keyed_index(self.entries(), i as int);
        }
        let mut record = self.swap_record(i, PluginRecord::new(name.to_owned()));
        let moved = record.apply(transition);
        self.swap_record(i, record);
        proof {
            assert(self.table() =~= old(self).table().insert(name@, applied(base, event)));
        }
        moved
    }

    /// The lifecycle of a plugin the table knows.
    pub fn lifecycle(&self, name: &str) -> (r: Option<Lifecycle>)
        ensures
            r is Some <==> self.table().contains_key(name@),
            r matches Some(l) ==> l@ == self.table()[name@].lifecycle,
    {
        match self.position(name) {
            Ok(i) => {
                proof {
                    use_type_invariant(self);
                    lemma_keyed_index(self.entries(), i as int);
                }
                Some(self.records[i].lifecycle.duplicate())
            },
            Err(_) => None,
        }
    }

    /// Whether every plugin has finished stopping: none is supervised unless
    /// its lifecycle is stopped.
    pub fn all_stopped(&self) -> (r: bool)
        ensures
            r == (forall|n: Seq<char>| #[trigger] self.table().contains_key(n) ==> (
                self.table()[n].lifecycle is Stopped || !self.table()[n].supervised)),
    {
        proof {
            use_type_invariant(self);
        }
        let ghost e = self.entries();
        let mut i: usize = 0;
        while i < self.records.len()
            invariant
                i <= self.records@.len(),
                e == self.entries(),
                keyed_sorted(e),
                forall|k: int| 0 <= k < i ==> ((#[trigger] e[k]).1.lifecycle is Stopped || !e[k].1.supervised),
            decreases self.records.len() - i,
        {
            if !self.records[i].lifecycle.is_stopped() && self.records[i].is_supervised() {
                proof {
                    lemma_keyed_index(e, i as int);
                }
                return false;
            }
            i = i + 1;
        }
        proof {
            assert forall|n: Seq<char>| #[trigger] self.table().contains_key(n) implies (
                self.table()[n].lifecycle is Stopped || !self.table()[n].supervised) by {
                let k = lemma_keyed_lookup(e, n);
            }
        }
        true
    }

    /// The plugins something is running: supervised, or adopted by whoever is
    /// working on them. What the reconciler compares the document against.
    pub fn held(&self) -> (r: Vec<String>)
        ensures
            crate::text::names_sorted(r@.map_values(|s: String| s@)),
            forall|n: Seq<char>| r@.map_values(|s: String| s@).contains(n) <==> (
                self.table().contains_key(n) && is_held_spec(self.table()[n])),
    {
        proof {
            use_type_invariant(self);
        }
        let ghost e = self.entries();
        let ghost pred = |r: PluginRecordView| is_held_spec(r);
        let ghost mut idx: Seq<int> = Seq::empty();
        let mut out: Vec<String> = Vec::new();
        let mut i: usize = 0;
        proof {
            crate::keyed::lemma_selection_start(e, pred);
            assert(out@.map_values(|s: String| s@) =~= Seq::<Seq<char>>::empty());
        }
        while i < self.records.len()
            invariant
                i <= self.records@.len(),
                e == self.entries(),
                keyed_sorted(e),
                crate::keyed::selection(e, pred, i as int, out@.map_values(|s: String| s@), idx),
                forall|r: PluginRecordView| #[trigger] pred(r) == is_held_spec(r),
            decreases self.records.len() - i,
        {
            proof {
                crate::keyed::lemma_selection_step(e, pred, i as int, out@.map_values(|s: String| s@), idx);
            }
            proof {
                assert(e[i as int].1 == self.records@[i as int]@);
                assert(pred(e[i as int].1) == is_held_spec(self.records@[i as int]@));
            }
            if self.records[i].is_held() {
                let ghost before = out@.map_values(|s: String| s@);
                out.push(self.records[i].name.clone());
                proof {
                    assert(out@.map_values(|s: String| s@) =~= before.push(e[i as int].0));
                    idx = idx.push(i as int);
                }
            }
            i = i + 1;
        }
        proof {
            crate::keyed::lemma_selection_done(e, pred, out@.map_values(|s: String| s@), idx);
        }
        out
    }

    /// Every plugin this build produced.
    pub fn built(&self) -> (r: Vec<String>)
        ensures
            crate::text::names_sorted(r@.map_values(|s: String| s@)),
            forall|n: Seq<char>| r@.map_values(|s: String| s@).contains(n) <==> (
                self.table().contains_key(n) && self.table()[n].manifest is Some),
    {
        proof {
            use_type_invariant(self);
        }
        let ghost e = self.entries();
        let ghost pred = |r: PluginRecordView| r.manifest is Some;
        let ghost mut idx: Seq<int> = Seq::empty();
        let mut out: Vec<String> = Vec::new();
        let mut i: usize = 0;
        proof {
            crate::keyed::lemma_selection_start(e, pred);
            assert(out@.map_values(|s: String| s@) =~= Seq::<Seq<char>>::empty());
        }
        while i < self.records.len()
            invariant
                i <= self.records@.len(),
                e == self.entries(),
                keyed_sorted(e),
                crate::keyed::selection(e, pred, i as int, out@.map_values(|s: String| s@), idx),
                forall|r: PluginRecordView| #[trigger] pred(r) == (r.manifest is Some),
            decreases self.records.len() - i,
        {
            proof {
                crate::keyed::lemma_selection_step(e, pred, i as int, out@.map_values(|s: String| s@), idx);
            }
            proof {
                assert(e[i as int].1 == self.records@[i as int]@);
                assert(pred(e[i as int].1) == (self.records@[i as int]@.manifest is Some));
            }
            if self.records[i].manifest.is_some() {
                let ghost before = out@.map_values(|s: String| s@);
                out.push(self.records[i].name.clone());
                proof {
                    assert(out@.map_values(|s: String| s@) =~= before.push(e[i as int].0));
                    idx = idx.push(i as int);
                }
            }
            i = i + 1;
        }
        proof {
            crate::keyed::lemma_selection_done(e, pred, out@.map_values(|s: String| s@), idx);
        }
        out
    }

    /// One status row per plugin, in name order.
    pub fn statuses(&self) -> (r: Vec<PluginStatus>)
        ensures
            r@.len() == self.entries().len(),
            forall|k: int| 0 <= k < r@.len() ==> status_of(self.entries()[k].0, self.entries()[k].1, #[trigger] r@[k]),
            forall|n: Seq<char>| self.table().contains_key(n) <==> exists|k: int| 0 <= k < r@.len() && (#[trigger] r@[k]).plugin@ == n,
    {
        proof {
            use_type_invariant(self);
        }
        let ghost e = self.entries();
        let mut out: Vec<PluginStatus> = Vec::new();
        let mut i: usize = 0;
        while i < self.records.len()
            invariant
                i <= self.records@.len(),
                e == self.entries(),
                out@.len() == i,
                forall|k: int| 0 <= k < i ==> status_of(e[k].0, e[k].1, #[trigger] out@[k]),
            decreases self.records.len() - i,
        {
            out.push(self.records[i].status());
            i = i + 1;
        }
        proof {
            assert forall|n: Seq<char>| self.table().contains_key(n) implies exists|k: int| 0 <= k < out@.len() && (#[trigger] out@[k]).plugin@ == n by {
                let k = lemma_keyed_lookup(e, n);
                assert(out@[k].plugin@ == n);
            }
            assert forall|k: int| 0 <= k < out@.len() implies self.table().contains_key((#[trigger] out@[k]).plugin@) by {
                lemma_keyed_index(e, k);
            }
        }
        out
    }

    // ---- reads of one record ----

    pub fn is_supervised(&self, name: &str) -> (r: bool)
        ensures
            r == (self.table().contains_key(name@) && self.table()[name@].supervised),
    {
        match self.position(name) {
            Ok(i) => {
                proof {
                    use_type_invariant(self);
                    lemma_keyed_index(self.entries(), i as int);
                }
                self.records[i].is_supervised()
            },
            Err(_) => false,
        }
    }

    pub fn is_connected(&self, name: &str) -> (r: bool)
        ensures
            r == (self.table().contains_key(name@) && self.table()[name@].session is Some),
    {
        match self.position(name) {
            Ok(i) => {
                proof {
                    use_type_invariant(self);
                    lemma_keyed_index(self.entries(), i as int);
                }
                self.records[i].is_connected()
            },
            Err(_) => false,
        }
    }

    pub fn is_adopted(&self, name: &str) -> (r: bool)
        ensures
            r == (self.table().contains_key(name@) && self.table()[name@].adopted),
    {
        match self.position(name) {
            Ok(i) => {
                proof {
                    use_type_invariant(self);
                    lemma_keyed_index(self.entries(), i as int);
                }
                self.records[i].adopted
            },
            Err(_) => false,
        }
    }

    /// The current session of a plugin, if it holds one.
    pub fn session(&self, name: &str) -> (r: Option<u64>)
        ensures
            r == (if self.table().contains_key(name@) {
                self.table()[name@].session
            } else {
                None
            }),
    {
        match self.position(name) {
            Ok(i) => {
                proof {
                    use_type_invariant(self);
                    lemma_keyed_index(self.entries(), i as int);
                }
                self.records[i].session
            },
            Err(_) => None,
        }
    }

    /// The settings to hand a plugin that is connecting.
    pub fn config(&self, name: &str) -> (r: Vec<u8>)
        ensures
            r@ == record_or_fresh(self.table(), name@).config,
    {
        match self.position(name) {
            Ok(i) => {
                proof {
                    use_type_invariant(self);
                    lemma_keyed_index(self.entries(), i as int);
                }
                self.records[i].config.clone()
            },
            Err(_) => Vec::new(),
        }
    }

    /// How many plugins the table knows; their records are kept in strictly
    /// increasing name order.
    pub fn len(&self) -> (r: usize)
        ensures
            r == self.entries().len(),
            keyed_sorted(self.entries()),
            self.table() == keyed_map(self.entries()),
    {
        proof {
            use_type_invariant(self);
        }
        self.records.len()
    }

    /// The record at position `i` in name order.
    pub fn record_at(&self, i: usize) -> (r: &PluginRecord)
        requires
            i < self.entries().len(),
        ensures
            r.name@ == self.entries()[i as int].0,
            r@ == self.entries()[i as int].1,
    {
        &self.records[i]
    }

    /// The record of the plugin called `name`.
    pub fn record_named(&self, name: &str) -> (r: Option<&PluginRecord>)
        ensures
            r is Some <==> self.table().contains_key(name@),
            r matches Some(record) ==> record@ == self.table()[name@] && record.name@ == name@,
    {
        match self.position(name) {
            Ok(i) => {
                proof {
                    use_type_invariant(self);
                    lemma_keyed_index(self.entries(), i as int);
                }
                Some(&self.records[i])
            },
            Err(_) => None,
        }
    }

    /// The manifest the daemon vouches for, if this build has one.
    pub fn manifest(&self, name: &str) -> (r: Option<crate::manifest::PluginManifest>)
        ensures
            r is Some <==> (self.table().contains_key(name@) && self.table()[name@].manifest is Some),
            r matches Some(m) ==> self.table()[name@].manifest == Some(m@),
    {
        match self.position(name) {
            Ok(i) => {
                proof {
                    use_type_invariant(self);
                    lemma_keyed_index(self.entries(), i as int);
                }
                match &self.records[i].manifest {
                    Some(m) => Some(m.duplicate()),
                    None => None,
                }
            },
            Err(_) => None,
        }
    }
    // ---- sessions ----

    /// Register a connected plugin on a new session. A session it held before
    /// is retired; completing the handshake is what turns a spawned process
    /// into a plugin the daemon vouches for.
    pub fn connected(&mut self, name: &str, session: u64)
        ensures
            final(self).table() == old(self).table().insert(
                name@,
                connected_record(record_or_fresh(old(self).table(), name@), session),
            ),
            final(self).retired_sessions() == retiring(
                old(self).retired_sessions(),
                name@,
                record_or_fresh(old(self).table(), name@).session,
            ),
    {
        let ghost base = record_or_fresh(old(self).table(), name@);
        let i = self.entry(name);
        proof {
            use_type_invariant(&*self);
            lemma_keyed_index(self.entries(), i as int);
        }
        let mut record = self.swap_record(i, PluginRecord::new(name.to_owned()));
        let previous = record.session;
        record.session = Some(session);
        record.contract = match &record.manifest {
            Some(m) => Some(m.duplicate()),
            None => None,
        };
        record.lifecycle.connected();
        let owner = record.name.clone();
        self.swap_record(i, record);
        proof {
            assert(self.table() =~= old(self).table().insert(name@, connected_record(base, session)));
        }
        if let Some(p) = previous {
            self.retire(&owner, p);
        }
    }

    /// The session numbered `session` ended. Nothing changes unless it is the
    /// plugin's current session; returns whether it was.
    pub fn disconnected(&mut self, name: &str, session: u64) -> (current: bool)
        ensures
            current == (old(self).table().contains_key(name@) && old(self).table()[name@].session
                == Some(session)),
            final(self).table() == (if current {
                old(self).table().insert(
                    name@,
                    PluginRecordView { session: None, ..old(self).table()[name@] },
                )
            } else {
                old(self).table()
            }),
            final(self).retired_sessions() == (if current {
                old(self).retired_sessions().push((name@, session))
            } else {
                old(self).retired_sessions()
            }),
    {
        match self.position(name) {
            Err(_) => false,
            Ok(i) => {
                proof {
                    use_type_invariant(&*self);
                    lemma_keyed_index(self.entries(), i as int);
                }
                if self.records[i].session != Some(session) {
                    return false;
                }
                let mut record = self.swap_record(i, PluginRecord::new(name.to_owned()));
                record.session = None;
                let owner = record.name.clone();
                let ghost updated = record@;
                self.swap_record(i, record);
                self.retire(&owner, session);
                proof {
                    assert(updated == PluginRecordView { session: None, ..old(self).table()[name@] });
                }
                true
            },
        }
    }

    // ---- identity ----

    /// Retire the current token: its process is gone and it must never be
    /// honoured again, even if the kernel hands that pid to someone else.
    pub fn revoke(&mut self, name: &str)
        ensures
            final(self).table() == (if old(self).table().contains_key(name@) {
                old(self).table().insert(name@, revoked_record(old(self).table()[name@]))
            } else {
                old(self).table()
            }),
            final(self).retired_sessions() == (if old(self).table().contains_key(name@) {
                retiring(old(self).retired_sessions(), name@, old(self).table()[name@].session)
            } else {
                old(self).retired_sessions()
            }),
    {
        match self.position(name) {
            Err(_) => {},
            Ok(i) => {
                proof {
                    use_type_invariant(&*self);
                    lemma_keyed_index(self.entries(), i as int);
                }
                let mut record = self.swap_record(i, PluginRecord::new(name.to_owned()));
                let previous = record.session;
                record.session = None;
                record.token = None;
                record.pid = None;
                let owner = record.name.clone();
                self.swap_record(i, record);
                if let Some(p) = previous {
                    self.retire(&owner, p);
                }
            },
        }
    }

    /// Bind a token to the process that now holds it.
    pub fn bind(&mut self, name: &str, pid: i32)
        ensures
            final(self).table() == (if old(self).table().contains_key(name@) {
                old(self).table().insert(name@, PluginRecordView { pid: Some(pid), ..old(self).table()[name@] })
            } else {
                old(self).table()
            }),
            final(self).retired_sessions() == old(self).retired_sessions(),
    {
        match self.position(name) {
            Err(_) => {},
            Ok(i) => {
                proof {
                    use_type_invariant(&*self);
                    lemma_keyed_index(self.entries(), i as int);
                }
                let mut record = self.swap_record(i, PluginRecord::new(name.to_owned()));
                record.pid = Some(pid);
                self.swap_record(i, record);
            },
        }
    }

    /// Give a plugin a new token, ending any session it held.
    fn install_token(&mut self, name: &str, adopted: bool, token: PluginToken) -> (r: PluginToken)
        ensures
            r@ == token@,
            final(self).table() == old(self).table().insert(
                name@,
                tokened_record(record_or_fresh(old(self).table(), name@), token@, adopted),
            ),
            final(self).retired_sessions() == retiring(
                old(self).retired_sessions(),
                name@,
                record_or_fresh(old(self).table(), name@).session,
            ),
    {
        let ghost base = record_or_fresh(old(self).table(), name@);
        let i = self.entry(name);
        proof {
            use_type_invariant(&*self);
            lemma_keyed_index(self.entries(), i as int);
        }
        let mut record = self.swap_record(i, PluginRecord::new(name.to_owned()));
        let previous = record.session;
        let issued = token.duplicate();
        record.session = None;
        record.token = Some(token);
        record.pid = None;
        record.adopted = adopted;
        let owner = record.name.clone();
        self.swap_record(i, record);
        proof {
            assert(self.table() =~= old(self).table().insert(name@, tokened_record(base, issued@, adopted)));
        }
        if let Some(p) = previous {
            self.retire(&owner, p);
        }
        issued
    }

    /// Mint the token for a spawn that is about to happen. Issuing it before
    /// the spawn is what makes a fast plugin's first connection identifiable.
    pub fn issue(&mut self, name: &str) -> (r: Result<PluginToken, TokenError>)
        ensures
            r matches Ok(t) ==> t@.len() == 32 && exists|bytes: Seq<u8>| bytes.len() == 16 && t@ == crate::plugins::token::hex_text(bytes),
            r matches Ok(t) ==> final(self).table() == old(self).table().insert(
                name@,
                tokened_record(record_or_fresh(old(self).table(), name@), t@, false),
            ),
            r matches Ok(t) ==> final(self).retired_sessions() == retiring(
                old(self).retired_sessions(),
                name@,
                record_or_fresh(old(self).table(), name@).session,
            ),
            r is Err ==> final(self).table() == old(self).table()
                && final(self).retired_sessions() == old(self).retired_sessions(),
    {
        let token = PluginToken::mint()?;
        Ok(self.install_token(name, false, token))
    }

    /// Reserve the plugin identity for a development process with a given
    /// token. Adopted sessions use the same manifest grants as supervised ones.
    pub fn adopt_with_token(&mut self, name: &str, token: PluginToken) -> (r: PluginToken)
        ensures
            r@ == token@,
            final(self).table() == old(self).table().insert(
                name@,
                tokened_record(record_or_fresh(old(self).table(), name@), token@, true),
            ),
            final(self).retired_sessions() == retiring(
                old(self).retired_sessions(),
                name@,
                record_or_fresh(old(self).table(), name@).session,
            ),
    {
        self.install_token(name, true, token)
    }

    /// Issue a development spawn token and reserve the plugin identity.
    pub fn adopt_plugin(&mut self, name: &str) -> (r: Result<PluginToken, TokenError>)
        ensures
            r matches Ok(t) ==> t@.len() == 32 && exists|bytes: Seq<u8>| bytes.len() == 16 && t@ == crate::plugins::token::hex_text(bytes),
            r matches Ok(t) ==> final(self).table() == old(self).table().insert(
                name@,
                tokened_record(record_or_fresh(old(self).table(), name@), t@, true),
            ),
            r matches Ok(t) ==> final(self).retired_sessions() == retiring(
                old(self).retired_sessions(),
                name@,
                record_or_fresh(old(self).table(), name@).session,
            ),
            r is Err ==> final(self).table() == old(self).table()
                && final(self).retired_sessions() == old(self).retired_sessions(),
    {
        let token = PluginToken::mint()?;
        Ok(self.adopt_with_token(name, token))
    }

    /// Give an adopted plugin back to the supervisor. Only the token it was
    /// adopted with can do so; returns whether it did, which is when a
    /// convergence has to start the built binary again.
    pub fn release_adoption(&mut self, name: &str, token: &PluginToken) -> (released: bool)
        ensures
            released == (old(self).table().contains_key(name@) && old(self).table()[name@].adopted
                && old(self).table()[name@].token == Some(token@)),
            final(self).table() == (if released {
                old(self).table().insert(name@, released_record(old(self).table()[name@]))
            } else {
                old(self).table()
            }),
            final(self).retired_sessions() == (if released {
                retiring(old(self).retired_sessions(), name@, old(self).table()[name@].session)
            } else {
                old(self).retired_sessions()
            }),
    {
        match self.position(name) {
            Err(_) => false,
            Ok(i) => {
                proof {
                    use_type_invariant(&*self);
                    lemma_keyed_index(self.entries(), i as int);
                }
                let holds = match &self.records[i].token {
                    Some(held) => text_eq(held.as_str(), token.as_str()),
                    None => false,
                };
                if !self.records[i].adopted || !holds {
                    return false;
                }
                let mut record = self.swap_record(i, PluginRecord::new(name.to_owned()));
                let previous = record.session;
                record.session = None;
                record.adopted = false;
                record.token = None;
                record.pid = None;
                let owner = record.name.clone();
                self.swap_record(i, record);
                if let Some(p) = previous {
                    self.retire(&owner, p);
                }
                true
            },
        }
    }

    /// The plugin a peer may claim, if its pid and token agree with a live
    /// registration: the first in name order that does. The claim binds the
    /// token to the pid.
    pub fn identify(&mut self, pid: i32, token: &str) -> (r: Option<String>)
        ensures
            r is None ==> final(self).table() == old(self).table(),
            r is None ==> (token@.len() == 0 || forall|n: Seq<char>| #[trigger] old(self).table().contains_key(n)
                ==> !claims_spec(old(self).table()[n], pid, token@)),
            r matches Some(n) ==> {
                &&& token@.len() > 0
                &&& old(self).table().contains_key(n@)
                &&& claims_spec(old(self).table()[n@], pid, token@)
                &&& final(self).table() == old(self).table().insert(n@, claimed(old(self).table()[n@], pid))
                &&& forall|m: Seq<char>| #[trigger] old(self).table().contains_key(m) && name_lt(m, n@)
                    ==> !claims_spec(old(self).table()[m], pid, token@)
            },
            final(self).retired_sessions() == old(self).retired_sessions(),
    {
        if token.is_empty() {
            return None;
        }
        proof {
            use_type_invariant(&*self);
        }
        let ghost e = self.entries();
        let mut i: usize = 0;
        while i < self.records.len()
            invariant
                i <= self.records@.len(),
                e == self.entries(),
                e == old(self).entries(),
                token@.len() > 0,
                self.retired_sessions() == old(self).retired_sessions(),
                keyed_sorted(e),
                forall|k: int| 0 <= k < i ==> !claims_spec((#[trigger] e[k]).1, pid, token@),
            decreases self.records.len() - i,
        {
            if self.records[i].accepts(pid, token) {
                proof {
                    lemma_keyed_index(e, i as int);
                    assert forall|m: Seq<char>| #[trigger] old(self).table().contains_key(m) && name_lt(m, e[i as int].0)
                        implies !claims_spec(old(self).table()[m], pid, token@) by {
                        let k = lemma_keyed_lookup(e, m);
                        if k >= i {
                            if k > i {
                                crate::text::lemma_name_lt_asymmetric(e[i as int].0, e[k].0);
                            } else {
                                crate::text::lemma_name_lt_irreflexive(m);
                            }
                        }
                    }
                }
                let name = self.records[i].name.clone();
                let mut record = self.swap_record(i, PluginRecord::new(name.clone()));
                record.claims(pid, token);
                self.swap_record(i, record);
                proof {
                    assert(self.table() =~= old(self).table().insert(
                        name@,
                        claimed(old(self).table()[name@], pid),
                    ));
                }
                return Some(name);
            }
            i = i + 1;
        }
        proof {
            assert forall|n: Seq<char>| #[trigger] old(self).table().contains_key(n)
                implies !claims_spec(old(self).table()[n], pid, token@) by {
                let k = lemma_keyed_lookup(e, n);
            }
        }
        None
    }

    // ---- supervision ----

    /// The supervisor has started running this plugin.
    pub fn supervise(&mut self, name: &str)
        ensures
            final(self).table() == old(self).table().insert(
                name@,
                PluginRecordView { supervised: true, ..record_or_fresh(old(self).table(), name@) },
            ),
            final(self).retired_sessions() == old(self).retired_sessions(),
    {
        let ghost base = record_or_fresh(old(self).table(), name@);
        let i = self.entry(name);
        proof {
            use_type_invariant(&*self);
            lemma_keyed_index(self.entries(), i as int);
        }
        let mut record = self.swap_record(i, PluginRecord::new(name.to_owned()));
        record.supervised = true;
        self.swap_record(i, record);
        proof {
            assert(self.table() =~= old(self).table().insert(name@, PluginRecordView { supervised: true, ..base }));
        }
    }

    /// The supervisor is done with this plugin.
    pub fn release(&mut self, name: &str)
        ensures
            final(self).table() == (if old(self).table().contains_key(name@) {
                old(self).table().insert(name@, PluginRecordView { supervised: false, ..old(self).table()[name@] })
            } else {
                old(self).table()
            }),
            final(self).retired_sessions() == old(self).retired_sessions(),
    {
        match self.position(name) {
            Err(_) => {},
            Ok(i) => {
                proof {
                    use_type_invariant(&*self);
                    lemma_keyed_index(self.entries(), i as int);
                }
                let mut record = self.swap_record(i, PluginRecord::new(name.to_owned()));
                record.supervised = false;
                self.swap_record(i, record);
            },
        }
    }

    /// Take in a new build: every plugin it contains gets a record carrying
    /// its manifest; every other record loses its manifest and is dropped
    /// unless supervision or adoption holds it or it is connected. Settings
    /// that came with the build replace those of the plugins they name.
    pub fn replace_build(&mut self, store: &ManifestStore, settings: Option<&Vec<(String, Vec<u8>)>>)
        ensures
            final(self).table() == after_build(
                old(self).table(),
                store.manifests(),
                match settings {
                    Some(s) => Some(s@),
                    None => None,
                },
            ),
            final(self).retired_sessions() == old(self).retired_sessions(),
    {
        let ghost start = self.table();
        let ghost ms = store.manifests();
        let ghost sv = match settings {
            Some(s) => Some(s@),
            None => None,
        };
        let mut k: usize = 0;
        while k < store.len()
            invariant
                k <= ms.len(),
                ms == store.manifests(),
                forall|n: Seq<char>| #[trigger] self.table().contains_key(n) <==> (start.contains_key(n) || exists|j: int|
                    0 <= j < k && (#[trigger] ms[j]).name@ == n),
                forall|n: Seq<char>| #[trigger] self.table().contains_key(n) ==> same_but_manifest(self.table()[n], record_or_fresh(start, n)),
                self.retired_sessions() == old(self).retired_sessions(),
            decreases ms.len() - k,
        {
            let m = store.at(k);
            let ghost before = self.table();
            let i = self.entry(m.name.as_str());
            proof {
                use_type_invariant(&*self);
                lemma_keyed_index(self.entries(), i as int);
            }
            let mut record = self.swap_record(i, PluginRecord::new(m.name.clone()));
            record.manifest = Some(m.duplicate());
            self.swap_record(i, record);
            proof {
                let n0 = m.name@;
                assert forall|n: Seq<char>| #[trigger] self.table().contains_key(n) <==> (start.contains_key(n) || exists|j: int|
                    0 <= j < k + 1 && (#[trigger] ms[j]).name@ == n) by {
                    if n == n0 {
                        assert(ms[k as int].name@ == n);
                    } else if exists|j: int| 0 <= j < k + 1 && (#[trigger] ms[j]).name@ == n {
                        let j = choose|j: int| 0 <= j < k + 1 && (#[trigger] ms[j]).name@ == n;
                        assert(j < k);
                        assert(before.contains_key(n));
                    }
                }
                assert forall|n: Seq<char>| #[trigger] self.table().contains_key(n) implies same_but_manifest(
                    self.table()[n],
                    record_or_fresh(start, n),
                ) by {
                    if n != n0 {
                        assert(before.contains_key(n));
                    } else if before.contains_key(n) {
                        assert(same_but_manifest(before[n], record_or_fresh(start, n)));
                    } else {
                        assert(!start.contains_key(n));
                    }
                }
            }
            k = k + 1;
        }
        proof {
            use_type_invariant(&*self);
        }
        let ghost ea = self.entries();
        let ghost ta = self.table();
        proof {
            assert forall|a: int| 0 <= a < ea.len() implies same_but_manifest(#[trigger] ea[a].1, record_or_fresh(start, ea[a].0)) by {
                lemma_keyed_index(ea, a);
            }
        }
        let mut i: usize = 0;
        while i < self.records.len()
            invariant
                ms == store.manifests(),
                sv == (match settings {
                    Some(s) => Some(s@),
                    None => None,
                }),
                keyed_sorted(ea),
                forall|a: int| 0 <= a < ea.len() ==> same_but_manifest(#[trigger] ea[a].1, record_or_fresh(start, ea[a].0)),
                self.entries().len() == ea.len(),
                i <= ea.len(),
                forall|a: int| 0 <= a < ea.len() ==> (#[trigger] self.entries()[a]).0 == ea[a].0,
                forall|a: int| 0 <= a < i ==> (#[trigger] self.entries()[a]).1 == build_record(start, ms, sv, ea[a].0),
                forall|a: int| i <= a < ea.len() ==> (#[trigger] self.entries()[a]).1 == ea[a].1,
                self.retired_sessions() == old(self).retired_sessions(),
            decreases ea.len() - i,
        {
            let name = self.records[i].name.clone();
            proof {
                assert(self.entries()[i as int].0 == name@);
            }
            let manifest = match store.get(name.as_str()) {
                Some(m) => Some(m.duplicate()),
                None => None,
            };
            let setting = match settings {
                Some(list) => setting_of(list, name.as_str()),
                None => None,
            };
            let ghost e0 = self.entries();
            let mut record = self.swap_record(i, PluginRecord::new(name.clone()));
            proof {
                assert(record@ == ea[i as int].1);
                assert(same_but_manifest(ea[i as int].1, record_or_fresh(start, name@)));
            }
            record.manifest = manifest;
            if let Some(config) = setting {
                record.config = config;
            }
            proof {
                assert(record@ == build_record(start, ms, sv, name@));
            }
            self.swap_record(i, record);
            proof {
                assert forall|a: int| 0 <= a < ea.len() implies (#[trigger] self.entries()[a]).0 == ea[a].0 by {
                    if a != i {
                        assert(self.entries()[a] == e0[a]);
                    }
                }
                assert forall|a: int| 0 <= a < i + 1 implies (#[trigger] self.entries()[a]).1 == build_record(start, ms, sv, ea[a].0) by {
                    if a < i {
                        assert(self.entries()[a] == e0[a]);
                    }
                }
                assert forall|a: int| i + 1 <= a < ea.len() implies (#[trigger] self.entries()[a]).1 == ea[a].1 by {
                    assert(self.entries()[a] == e0[a]);
                }
            }
            i = i + 1;
        }
        let ghost eb = self.entries();
        proof {
            use_type_invariant(&*self);
            assert(eb =~= Seq::new(ea.len(), |a: int| (ea[a].0, build_record(start, ms, sv, ea[a].0))));
        }
        let mut all: Vec<PluginRecord> = Vec::new();
        std::mem::swap(&mut all, &mut self.records);
        let mut kept: Vec<PluginRecord> = Vec::new();
        let ghost mut idx: Seq<int> = Seq::empty();
        let ghost mut j: int = 0;
        proof {
            assert(entries_of(all@) == eb);
        }
        while all.len() > 0
            invariant
                0 <= j <= eb.len(),
                all@.len() + j == eb.len(),
                entries_of(all@) == eb.skip(j),
                entries_of(kept@).len() == idx.len(),
                forall|x: int| 0 <= x < idx.len() ==> 0 <= #[trigger] idx[x] < j,
                forall|x: int, y: int| 0 <= x < y < idx.len() ==> #[trigger] idx[x] < #[trigger] idx[y],
                forall|x: int| 0 <= x < idx.len() ==> #[trigger] entries_of(kept@)[x] == eb[idx[x]] && survives_build(eb[idx[x]].1),
                forall|k: int| 0 <= k < j && survives_build(#[trigger] eb[k].1) ==> exists|x: int| 0 <= x < idx.len() && idx[x] == k,
            decreases all.len(),
        {
            let ghost rest = entries_of(all@);
            let record = all.remove(0);
            proof {
                assert(rest[0] == eb.skip(j)[0]);
                assert(eb.skip(j)[0] == eb[j]);
                assert((record.name@, record@) == eb[j]);
                assert(entries_of(all@) =~= eb.skip(j + 1)) by {
                    assert forall|x: int| 0 <= x < all@.len() implies #[trigger] entries_of(all@)[x] == eb.skip(j + 1)[x] by {
                        assert(entries_of(all@)[x] == rest[x + 1]);
                        assert(rest[x + 1] == eb.skip(j)[x + 1]);
                    }
                }
            }
            let keep = record.manifest.is_some() || record.supervised || record.adopted || record.session.is_some();
            if keep {
                let ghost before = entries_of(kept@);
                kept.push(record);
                proof {
                    assert(entries_of(kept@) =~= before.push(eb[j]));
                    let idx2 = idx.push(j);
                    assert forall|k: int| 0 <= k < j + 1 && survives_build(#[trigger] eb[k].1) implies exists|x: int|
                        0 <= x < idx2.len() && idx2[x] == k by {
                        if k == j {
                            assert(idx2[idx.len() as int] == k);
                        } else {
                            let x = choose|x: int| 0 <= x < idx.len() && idx[x] == k;
                            assert(idx2[x] == k);
                        }
                    }
                    assert forall|x: int| 0 <= x < idx2.len() implies #[trigger] entries_of(kept@)[x] == eb[idx2[x]] && survives_build(
                        eb[idx2[x]].1,
                    ) by {
                        if x < idx.len() {
                            assert(entries_of(kept@)[x] == before[x]);
                        }
                    }
                    idx = idx2;
                }
            }
            proof {
                j = j + 1;
            }
        }
        proof {
            assert(j == eb.len()) by {
                assert(eb.skip(j).len() == 0);
            }
            crate::keyed::lemma_keyed_keep(eb, entries_of(kept@), idx, |r: PluginRecordView| survives_build(r));
        }
        self.records = kept;
        proof {
            let target = after_build(start, ms, sv);
            assert forall|n: Seq<char>| #[trigger] self.table().contains_key(n) <==> target.contains_key(n) by {
                lemma_named_some(ms, n);
                assert(ta.contains_key(n) <==> (start.contains_key(n) || named(ms, n) is Some));
                if keyed_map(eb).contains_key(n) {
                    let a = lemma_keyed_lookup(eb, n);
                    lemma_keyed_index(ea, a);
                    lemma_keyed_index(eb, a);
                    assert(keyed_map(eb)[n] == build_record(start, ms, sv, n));
                    assert(ta.contains_key(n));
                }
                if ta.contains_key(n) {
                    let a = lemma_keyed_lookup(ea, n);
                    lemma_keyed_index(eb, a);
                    assert(keyed_map(eb).contains_key(n));
                    assert(keyed_map(eb)[n] == build_record(start, ms, sv, n));
                }
            }
            assert forall|n: Seq<char>| #[trigger] self.table().contains_key(n) implies self.table()[n] == target[n] by {
                let a = lemma_keyed_lookup(eb, n);
                lemma_keyed_index(eb, a);
            }
            assert(self.table() =~= target);
        }
    }
}


} // verus!

//! The decisions behind supervising one native presentation host per plugin
//! that has live standalone instances: which hosts each round stops and
//! starts, when the standalone renderer must be installed first, and how
//! long a host that exited waits before it runs again.
use vstd::prelude::*;
use crate::attachment::PresentationKind;
use crate::keyed::{
    has_key, keyed_map, keyed_sorted, lemma_keyed_distinct, lemma_keyed_empty, lemma_keyed_index, lemma_keyed_lookup,
    names_contain, names_view, place, table_has, table_view,
};
use crate::text::name_lt;

verus! {

/// Whether a presentation of this kind needs a standalone host.
pub open spec fn standalone(kind: PresentationKind) -> bool {
    kind == PresentationKind::Window || kind == PresentationKind::Overlay
}

/// The units whose views, each given as its unit and how it is presented,
/// need a standalone host.
pub open spec fn wanted_units(views: Seq<(String, PresentationKind)>) -> Set<Seq<char>> {
    Set::new(|u: Seq<char>| exists|i: int| 0 <= i < views.len() && standalone((#[trigger] views[i]).1) && views[i].0@ == u)
}

/// The hosts left running once a round has stopped those no view asks for.
pub open spec fn after_retire(running: Set<Seq<char>>, desired: Set<Seq<char>>) -> Set<Seq<char>> {
    running.intersect(desired)
}

/// The hosts running once a round has started every one asked for.
pub open spec fn after_launch(running: Set<Seq<char>>, desired: Set<Seq<char>>) -> Set<Seq<char>> {
    running.union(desired)
}

/// Each unit that needs a standalone host, once and in name order.
pub fn desired_units(views: &Vec<(String, PresentationKind)>) -> (r: Vec<String>)
    ensures
        forall|a: int, b: int| 0 <= a < b < r@.len() ==> name_lt(#[trigger] r@[a]@, #[trigger] r@[b]@),
        names_view(r@).to_set() == wanted_units(views@),
{
    let mut table: Vec<(String, ())> = Vec::new();
    let mut k: usize = 0;
    proof {
        lemma_keyed_empty(table_view(table@));
    }
    while k < views.len()
        invariant
            k <= views@.len(),
            keyed_sorted(table_view(table@)),
            forall|u: Seq<char>| #[trigger] keyed_map(table_view(table@)).contains_key(u) <==> exists|i: int|
                0 <= i < k && standalone((#[trigger] views@[i]).1) && views@[i].0@ == u,
        decreases views@.len() - k,
    {
        let kind = views[k].1;
        if kind == PresentationKind::Window || kind == PresentationKind::Overlay {
            let ghost before = keyed_map(table_view(table@));
            place(&mut table, views[k].0.clone(), ());
            proof {
                assert forall|u: Seq<char>| #[trigger] keyed_map(table_view(table@)).contains_key(u) <==> exists|i: int|
                    0 <= i < k + 1 && standalone((#[trigger] views@[i]).1) && views@[i].0@ == u by {
                    if u == views@[k as int].0@ {
                        assert(standalone(views@[k as int].1));
                    } else if keyed_map(table_view(table@)).contains_key(u) {
                        assert(before.contains_key(u));
                    } else {
                        assert(!before.contains_key(u));
                    }
                }
            }
        } else {
            proof {
                assert forall|u: Seq<char>| #[trigger] keyed_map(table_view(table@)).contains_key(u) <==> exists|i: int|
                    0 <= i < k + 1 && standalone((#[trigger] views@[i]).1) && views@[i].0@ == u by {
                    if exists|i: int| 0 <= i < k + 1 && standalone((#[trigger] views@[i]).1) && views@[i].0@ == u {
                        let i = choose|i: int| 0 <= i < k + 1 && standalone((#[trigger] views@[i]).1) && views@[i].0@ == u;
                        assert(i < k);
                    }
                }
            }
        }
        k = k + 1;
    }
    let ghost s = table_view(table@);
    let mut out: Vec<String> = Vec::new();
    let mut j: usize = 0;
    while j < table.len()
        invariant
            j <= table@.len(),
            s == table_view(table@),
            keyed_sorted(s),
            names_view(out@) == s.take(j as int).map_values(|e: (Seq<char>, ())| e.0),
        decreases table@.len() - j,
    {
        let ghost prior = out@;
        out.push(table[j].0.clone());
        proof {
            assert(names_view(out@) =~= names_view(prior).push(s[j as int].0));
            assert(s.take(j + 1).map_values(|e: (Seq<char>, ())| e.0) =~= s.take(j as int).map_values(
                |e: (Seq<char>, ())| e.0,
            ).push(s[j as int].0));
        }
        j = j + 1;
    }
    proof {
        assert(s.take(s.len() as int) =~= s);
        let names = names_view(out@);
        assert forall|a: int, b: int| 0 <= a < b < out@.len() implies name_lt(#[trigger] out@[a]@, #[trigger] out@[b]@) by {
            assert(names[a] == out@[a]@ && names[b] == out@[b]@);
        }
        assert forall|u: Seq<char>| names.to_set().contains(u) <==> wanted_units(views@).contains(u) by {
            if names.contains(u) {
                let a = choose|a: int| 0 <= a < names.len() && names[a] == u;
                lemma_keyed_index(s, a);
            }
            if keyed_map(s).contains_key(u) {
                let a = lemma_keyed_lookup(s, u);
                assert(names[a] == u);
            }
        }
        assert(names.to_set() =~= wanted_units(views@));
    }
    out
}

/// The presentation hosts running, one per unit, and whether the standalone
/// renderer is installed.
#[derive(Debug)]
pub struct Hosts {
    running: Vec<(String, ())>,
    installed: bool,
}

impl Hosts {
    pub closed spec fn wf(&self) -> bool {
        keyed_sorted(table_view(self.running@))
    }

    /// The units whose host is running.
    pub closed spec fn view(&self) -> Set<Seq<char>> {
        keyed_map(table_view(self.running@)).dom()
    }

    pub closed spec fn is_installed(&self) -> bool {
        self.installed
    }

    /// No host running, and nothing installed yet.
    pub fn new() -> (r: Self)
        ensures
            r.wf(),
            r.view() == Set::<Seq<char>>::empty(),
            !r.is_installed(),
    {
        let r = Hosts { running: Vec::new(), installed: false };
        proof {
            lemma_keyed_empty(table_view(r.running@));
            assert(r.view() =~= Set::<Seq<char>>::empty());
        }
        r
    }

    /// Forget every host not in `desired`; the answer is those hosts, each
    /// once: the ones to stop and wait for.
    pub fn retire(&mut self, desired: &Vec<String>) -> (r: Vec<String>)
        requires
            old(self).wf(),
        ensures
            final(self).wf(),
            final(self).is_installed() == old(self).is_installed(),
            final(self).view() == after_retire(old(self).view(), names_view(desired@).to_set()),
            names_view(r@).no_duplicates(),
            names_view(r@).to_set() == old(self).view().difference(names_view(desired@).to_set()),
    {
        let ghost s = table_view(self.running@);
        let ghost d = names_view(desired@).to_set();
        let mut kept: Vec<(String, ())> = Vec::new();
        let mut stopped: Vec<String> = Vec::new();
        let mut k: usize = 0;
        proof {
            lemma_keyed_empty(table_view(kept@));
        }
        while k < self.running.len()
            invariant
                k <= self.running@.len(),
                s == table_view(self.running@),
                keyed_sorted(s),
                d == names_view(desired@).to_set(),
                keyed_sorted(table_view(kept@)),
                forall|u: Seq<char>| #[trigger] keyed_map(table_view(kept@)).contains_key(u) <==> ((exists|j: int|
                    0 <= j < k && (#[trigger] s[j]).0 == u) && d.contains(u)),
                names_view(stopped@).no_duplicates(),
                forall|u: Seq<char>| #[trigger] names_view(stopped@).contains(u) <==> ((exists|j: int|
                    0 <= j < k && (#[trigger] s[j]).0 == u) && !d.contains(u)),
            decreases self.running@.len() - k,
        {
            let name = &self.running[k].0;
            let ghost n = s[k as int].0;
            proof {
                assert(name@ == n);
                assert forall|j: int| 0 <= j < k implies (#[trigger] s[j]).0 != n by {
                    lemma_keyed_distinct(s, j, k as int);
                }
            }
            if names_contain(desired, name.as_str()) {
                let ghost before = keyed_map(table_view(kept@));
                place(&mut kept, name.clone(), ());
                proof {
                    assert(d.contains(n));
                    assert forall|u: Seq<char>| #[trigger] keyed_map(table_view(kept@)).contains_key(u) <==> ((exists|j: int|
                        0 <= j < k + 1 && (#[trigger] s[j]).0 == u) && d.contains(u)) by {
                        if u == n {
                            assert(s[k as int].0 == u);
                        } else if exists|j: int| 0 <= j < k + 1 && (#[trigger] s[j]).0 == u {
                            let j = choose|j: int| 0 <= j < k + 1 && (#[trigger] s[j]).0 == u;
                            assert(j < k);
                        }
                    }
                    assert forall|u: Seq<char>| #[trigger] names_view(stopped@).contains(u) <==> ((exists|j: int|
                        0 <= j < k + 1 && (#[trigger] s[j]).0 == u) && !d.contains(u)) by {
                        if exists|j: int| 0 <= j < k + 1 && (#[trigger] s[j]).0 == u {
                            let j = choose|j: int| 0 <= j < k + 1 && (#[trigger] s[j]).0 == u;
                            if j == k {
                                assert(u == n);
                            }
                        }
                    }
                }
            } else {
                let ghost prior = names_view(stopped@);
                stopped.push(name.clone());
                proof {
                    assert(!d.contains(n));
                    assert(names_view(stopped@) =~= prior.push(n));
                    assert(!prior.contains(n));
                    assert forall|a: int, b: int| 0 <= a < b < names_view(stopped@).len() implies names_view(stopped@)[a]
                        != names_view(stopped@)[b] by {
                        if b == prior.len() {
                            assert(prior[a] == names_view(stopped@)[a]);
                        } else {
                            assert(prior[a] != prior[b]);
                        }
                    }
                    assert forall|u: Seq<char>| #[trigger] names_view(stopped@).contains(u) <==> ((exists|j: int|
                        0 <= j < k + 1 && (#[trigger] s[j]).0 == u) && !d.contains(u)) by {
                        if names_view(stopped@).contains(u) {
                            let a = choose|a: int| 0 <= a < names_view(stopped@).len() && names_view(stopped@)[a] == u;
                            if a < prior.len() {
                                assert(prior[a] == u);
                                assert(prior.contains(u));
                            } else {
                                assert(s[k as int].0 == u);
                            }
                        }
                        if exists|j: int| 0 <= j < k + 1 && (#[trigger] s[j]).0 == u {
                            let j = choose|j: int| 0 <= j < k + 1 && (#[trigger] s[j]).0 == u;
                            if j == k {
                                assert(names_view(stopped@)[prior.len() as int] == u);
                            } else if !d.contains(u) {
                                assert(prior.contains(u));
                                let a = choose|a: int| 0 <= a < prior.len() && prior[a] == u;
                                assert(names_view(stopped@)[a] == u);
                            }
                        }
                    }
                    assert forall|u: Seq<char>| #[trigger] keyed_map(table_view(kept@)).contains_key(u) <==> ((exists|j: int|
                        0 <= j < k + 1 && (#[trigger] s[j]).0 == u) && d.contains(u)) by {
                        if exists|j: int| 0 <= j < k + 1 && (#[trigger] s[j]).0 == u {
                            let j = choose|j: int| 0 <= j < k + 1 && (#[trigger] s[j]).0 == u;
                            if j == k {
                                assert(u == n);
                            }
                        }
                    }
                }
            }
            k = k + 1;
        }
        self.running = kept;
        proof {
            assert(self.view() =~= after_retire(keyed_map(s).dom(), d));
            assert(names_view(stopped@).to_set() =~= keyed_map(s).dom().difference(d));
        }
        stopped
    }

    /// Whether the standalone renderer must be installed before any host of
    /// `desired` can start: some host is asked for, and none was installed.
    pub fn needs_install(&self, desired: &Vec<String>) -> (r: bool)
        ensures
            r == (!self.is_installed() && desired@.len() > 0),
    {
        !self.installed && desired.len() > 0
    }

    /// The renderer was installed.
    pub fn install_succeeded(&mut self)
        ensures
            final(self).is_installed(),
            final(self).wf() == old(self).wf(),
            final(self).view() == old(self).view(),
    {
        self.installed = true;
    }

    /// Start a host for each unit of `desired` that has none; the answer is
    /// those units, each once. While the renderer is not installed and some
    /// host is asked for, nothing starts: the round waits for the next tick.
    pub fn launch(&mut self, desired: &Vec<String>) -> (r: Vec<String>)
        requires
            old(self).wf(),
        ensures
            final(self).wf(),
            final(self).is_installed() == old(self).is_installed(),
            !old(self).is_installed() && desired@.len() > 0 ==> final(self).view() == old(self).view() && r@.len() == 0,
            old(self).is_installed() || desired@.len() == 0 ==> {
                &&& final(self).view() == after_launch(old(self).view(), names_view(desired@).to_set())
                &&& names_view(r@).no_duplicates()
                &&& names_view(r@).to_set() == names_view(desired@).to_set().difference(old(self).view())
            },
    {
        if !self.installed && desired.len() > 0 {
            return Vec::new();
        }
        let ghost start = self.view();
        let ghost dv = names_view(desired@);
        let mut started: Vec<String> = Vec::new();
        let mut k: usize = 0;
        while k < desired.len()
            invariant
                k <= desired@.len(),
                dv == names_view(desired@),
                keyed_sorted(table_view(self.running@)),
                self.installed == old(self).installed,
                start == old(self).view(),
                forall|u: Seq<char>| #[trigger] self.view().contains(u) <==> (start.contains(u) || dv.take(k as int).contains(u)),
                names_view(started@).no_duplicates(),
                forall|u: Seq<char>| #[trigger] names_view(started@).contains(u) <==> (dv.take(k as int).contains(u)
                    && !start.contains(u)),
            decreases desired@.len() - k,
        {
            let name = &desired[k];
            let ghost n = name@;
            proof {
                assert(dv[k as int] == n);
                assert(dv.take(k + 1) =~= dv.take(k as int).push(n));
            }
            let ghost ts = table_view(self.running@);
            if !table_has(&self.running, name.as_str()) {
                let ghost before = self.view();
                place(&mut self.running, name.clone(), ());
                let ghost prior = names_view(started@);
                started.push(name.clone());
                proof {
                    assert(!has_key(ts, n));
                    assert(!before.contains(n));
                    assert(self.view() =~= before.insert(n));
                    assert(names_view(started@) =~= prior.push(n));
                    assert(!prior.contains(n));
                    assert forall|a: int, b: int| 0 <= a < b < names_view(started@).len() implies names_view(started@)[a]
                        != names_view(started@)[b] by {
                        if b == prior.len() {
                            assert(prior[a] == names_view(started@)[a]);
                        } else {
                            assert(prior[a] != prior[b]);
                        }
                    }
                    vstd::seq_lib::lemma_seq_contains_after_push(dv.take(k as int), n, n);
                    assert forall|u: Seq<char>| #[trigger] self.view().contains(u) <==> (start.contains(u) || dv.take(k + 1).contains(
                        u,
                    )) by {
                        vstd::seq_lib::lemma_seq_contains_after_push(dv.take(k as int), n, u);
                    }
                    assert forall|u: Seq<char>| #[trigger] names_view(started@).contains(u) <==> (dv.take(k + 1).contains(u)
                        && !start.contains(u)) by {
                        vstd::seq_lib::lemma_seq_contains_after_push(dv.take(k as int), n, u);
                        vstd::seq_lib::lemma_seq_contains_after_push(prior, n, u);
                    }
                }
            } else {
                proof {
                    assert(has_key(ts, n));
                    assert(self.view().contains(n));
                    assert forall|u: Seq<char>| #[trigger] self.view().contains(u) <==> (start.contains(u) || dv.take(k + 1).contains(
                        u,
                    )) by {
                        vstd::seq_lib::lemma_seq_contains_after_push(dv.take(k as int), n, u);
                    }
                    assert forall|u: Seq<char>| #[trigger] names_view(started@).contains(u) <==> (dv.take(k + 1).contains(u)
                        && !start.contains(u)) by {
                        vstd::seq_lib::lemma_seq_contains_after_push(dv.take(k as int), n, u);
                    }
                }
            }
            k = k + 1;
        }
        proof {
            assert(dv.take(dv.len() as int) =~= dv);
            assert(self.view() =~= after_launch(start, dv.to_set()));
            assert(names_view(started@).to_set() =~= dv.to_set().difference(start));
        }
        started
    }
}

/// A round that stops the hosts no view asks for and then starts those asked
/// for leaves running exactly the hosts asked for.
pub proof fn a_round_runs_what_is_asked(running: Set<Seq<char>>, desired: Set<Seq<char>>)
    ensures
        after_launch(after_retire(running, desired), desired) == desired,
{
    assert(after_launch(after_retire(running, desired), desired) =~= desired);
}

/// The shortest wait before a presentation host runs again, in milliseconds.
pub const FIRST_RESTART_MS: u64 = 250;
/// The longest wait before a presentation host runs again, in milliseconds.
pub const LONGEST_RESTART_MS: u64 = 30_000;
/// A host that stays up longer than this, in nanoseconds, starts its
/// backoff over.
pub const HEALTHY_RUN_NS: u64 = 30_000_000_000;

/// How long a presentation host that exited waits before it runs again: the
/// wait doubles after each exit up to thirty seconds, and starts over at a
/// quarter second once a host has stayed up longer than thirty seconds.
#[derive(Debug, Clone, Copy)]
pub struct RestartDelay {
    delay_ms: u64,
}

impl RestartDelay {
    pub closed spec fn wf(&self) -> bool {
        FIRST_RESTART_MS <= self.delay_ms <= LONGEST_RESTART_MS
    }

    /// The wait that the next exit would bring, unless the host stayed up
    /// long.
    pub closed spec fn pending(&self) -> u64 {
        self.delay_ms
    }

    pub fn new() -> (r: Self)
        ensures
            r.wf(),
            r.pending() == FIRST_RESTART_MS,
    {
        RestartDelay { delay_ms: FIRST_RESTART_MS }
    }

    /// A host that had run `ran_ns` nanoseconds exited: the wait before it
    /// runs again, in milliseconds.
    pub fn after_exit(&mut self, ran_ns: u64) -> (wait: u64)
        requires
            old(self).wf(),
        ensures
            final(self).wf(),
            wait == (if ran_ns > HEALTHY_RUN_NS { FIRST_RESTART_MS } else { old(self).pending() }),
            final(self).pending() == (if 2 * wait <= LONGEST_RESTART_MS { 2 * wait } else { LONGEST_RESTART_MS as int }),
    {
        let wait = if ran_ns > HEALTHY_RUN_NS { FIRST_RESTART_MS } else { self.delay_ms };
        self.delay_ms = if wait <= LONGEST_RESTART_MS / 2 { wait * 2 } else { LONGEST_RESTART_MS };
        wait
    }
}

} // verus!

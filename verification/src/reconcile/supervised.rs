//! Reconcile the lifecycle of built units and plugins. Unlisted built ones
//! are enabled; explicit `enabled = false` disables one without removing its
//! artifact.
use vstd::prelude::*;
use crate::keyed::{has_key, keyed_map, keyed_sorted, lemma_keyed_empty, place, table_has, table_view};
use crate::reconcile::ProviderError;
use crate::refusal::compose;

verus! {

/// One entry of the document's list: the name it gives, as read (or why it
/// is not a name), and whether it is enabled.
#[derive(Debug)]
pub struct Declared {
    pub name: Result<String, String>,
    pub enabled: bool,
}

/// The names a list of strings holds.
pub open spec fn names_of(list: Seq<String>) -> Seq<Seq<char>> {
    list.map_values(|s: String| s@)
}

/// Checking the document's list against the build: every name must be one,
/// be built, and appear once. The names seen, and those disabled.
pub open spec fn declared_check(declared: Seq<Declared>, built: Seq<Seq<char>>, noun: Seq<char>) -> Result<(Set<Seq<char>>, Set<Seq<char>>), Seq<char>>
    decreases declared.len(),
{
    if declared.len() == 0 {
        Ok((Set::empty(), Set::empty()))
    } else {
        match declared_check(declared.drop_last(), built, noun) {
            Err(m) => Err(m),
            Ok((seen, off)) => {
                let d = declared.last();
                match d.name {
                    Err(reason) => Err(reason@),
                    Ok(n) => if !built.contains(n@) || seen.contains(n@) {
                        Err("unknown or duplicate "@ + noun + " "@ + n@)
                    } else {
                        Ok((seen.insert(n@), if d.enabled { off } else { off.insert(n@) }))
                    },
                }
            },
        }
    }
}

/// What has to change: start what is built and not disabled but not
/// running (`true`), stop what runs but is not wanted (`false`).
pub open spec fn supervision_changes(built: Seq<Seq<char>>, running: Seq<Seq<char>>, off: Set<Seq<char>>) -> Map<Seq<char>, bool> {
    Map::new(
        |n: Seq<char>| (built.contains(n) && !off.contains(n)) != running.contains(n),
        |n: Seq<char>| !running.contains(n),
    )
}


fn listed(list: &Vec<String>, name: &str) -> (r: bool)
    ensures
        r == names_of(list@).contains(name@),
{
    let ghost view = names_of(list@);
    let mut k: usize = 0;
    while k < list.len()
        invariant
            k <= list@.len(),
            view == names_of(list@),
            forall|j: int| 0 <= j < k ==> view[j] != name@,
        decreases list@.len() - k,
    {
        if crate::text::text_eq(list[k].as_str(), name) {
            proof {
                assert(view[k as int] == name@);
            }
            return true;
        }
        k = k + 1;
    }
    false
}

/// Plan enabled built entities against what is running: the changes in name
/// order, or the first entry of the list that is refused.
pub fn plan_supervised(
    domain: &'static str,
    noun: &str,
    declared: &Vec<Declared>,
    built: &Vec<String>,
    running: &Vec<String>,
) -> (r: Result<Vec<(String, bool)>, ProviderError>)
    ensures
        match declared_check(declared@, names_of(built@), noun@) {
            Err(message) => r matches Err(e) && e.domain@ == domain@ && e.message@ == message,
            Ok((_, off)) => r matches Ok(changes) && keyed_sorted(table_view(changes@))
                && keyed_map(table_view(changes@)) == supervision_changes(names_of(built@), names_of(running@), off),
        },
{
    let mut seen: Vec<(String, bool)> = Vec::new();
    let mut off: Vec<(String, bool)> = Vec::new();
    let mut i: usize = 0;
    proof {
        lemma_keyed_empty(table_view(seen@));
        lemma_keyed_empty(table_view(off@));
        assert(declared@.take(0) =~= Seq::<Declared>::empty());
        assert(keyed_map(table_view(seen@)).dom() =~= Set::<Seq<char>>::empty());
        assert(keyed_map(table_view(off@)).dom() =~= Set::<Seq<char>>::empty());
    }
    while i < declared.len()
        invariant
            i <= declared@.len(),
            keyed_sorted(table_view(seen@)),
            keyed_sorted(table_view(off@)),
            declared_check(declared@.take(i as int), names_of(built@), noun@) == Ok::<(Set<Seq<char>>, Set<Seq<char>>), Seq<char>>(
                (keyed_map(table_view(seen@)).dom(), keyed_map(table_view(off@)).dom()),
            ),
        decreases declared@.len() - i,
    {
        let d = &declared[i];
        proof {
            assert(declared@.take(i + 1).drop_last() =~= declared@.take(i as int));
            assert(declared@.take(i + 1).last() == declared@[i as int]);
        }
        let name = match &d.name {
            Ok(name) => name,
            Err(reason) => {
                proof {
                    lemma_check_sticks(declared@, names_of(built@), noun@, i + 1);
                }
                return Err(ProviderError::new(domain, reason.clone()));
            },
        };
        if !listed(built, name.as_str()) || table_has(&seen, name.as_str()) {
            proof {
                lemma_check_sticks(declared@, names_of(built@), noun@, i + 1);
            }
            let mut text = compose("unknown or duplicate ", noun, " ");
            text.append(name.as_str());
            return Err(ProviderError::new(domain, text));
        }
        let ghost seen_before = keyed_map(table_view(seen@));
        let ghost off_before = keyed_map(table_view(off@));
        place(&mut seen, name.clone(), true);
        if !d.enabled {
            place(&mut off, name.clone(), true);
        }
        proof {
            assert(keyed_map(table_view(seen@)).dom() =~= seen_before.dom().insert(name@));
            if !d.enabled {
                assert(keyed_map(table_view(off@)).dom() =~= off_before.dom().insert(name@));
            }
        }
        i = i + 1;
    }
    proof {
        assert(declared@.take(declared@.len() as int) =~= declared@);
    }
    let ghost disabled = keyed_map(table_view(off@)).dom();
    let ghost b = names_of(built@);
    let ghost run = names_of(running@);
    let mut changes: Vec<(String, bool)> = Vec::new();
    let mut k: usize = 0;
    proof {
        lemma_keyed_empty(table_view(changes@));
        assert(keyed_map(table_view(changes@)) =~= Map::new(
            |n: Seq<char>| b.take(0).contains(n) && !disabled.contains(n) && !run.contains(n),
            |n: Seq<char>| true,
        ));
    }
    while k < built.len()
        invariant
            k <= built@.len(),
            b == names_of(built@),
            run == names_of(running@),
            disabled == keyed_map(table_view(off@)).dom(),
            keyed_sorted(table_view(off@)),
            keyed_sorted(table_view(changes@)),
            keyed_map(table_view(changes@)) == Map::new(
                |n: Seq<char>| b.take(k as int).contains(n) && !disabled.contains(n) && !run.contains(n),
                |n: Seq<char>| true,
            ),
        decreases built@.len() - k,
    {
        let n = &built[k];
        let ghost before = keyed_map(table_view(changes@));
        if !table_has(&off, n.as_str()) && !listed(running, n.as_str()) {
            place(&mut changes, n.clone(), true);
        }
        proof {
            broadcast use vstd::seq_lib::lemma_seq_contains_after_push;
            assert(b.take(k + 1) =~= b.take(k as int).push(n@));
            assert(keyed_map(table_view(changes@)) =~= Map::new(
                |q: Seq<char>| b.take(k + 1).contains(q) && !disabled.contains(q) && !run.contains(q),
                |q: Seq<char>| true,
            ));
        }
        k = k + 1;
    }
    proof {
        assert(b.take(b.len() as int) =~= b);
    }
    let mut j: usize = 0;
    proof {
        assert(keyed_map(table_view(changes@)) =~= Map::new(
            |q: Seq<char>| (b.contains(q) && !disabled.contains(q) && !run.contains(q)) || (run.take(0).contains(q)
                && !(b.contains(q) && !disabled.contains(q))),
            |q: Seq<char>| !run.take(0).contains(q),
        ));
    }
    while j < running.len()
        invariant
            j <= running@.len(),
            b == names_of(built@),
            run == names_of(running@),
            disabled == keyed_map(table_view(off@)).dom(),
            keyed_sorted(table_view(off@)),
            keyed_sorted(table_view(changes@)),
            keyed_map(table_view(changes@)) == Map::new(
                |q: Seq<char>| (b.contains(q) && !disabled.contains(q) && !run.contains(q)) || (run.take(j as int).contains(q)
                    && !(b.contains(q) && !disabled.contains(q))),
                |q: Seq<char>| !run.take(j as int).contains(q),
            ),
        decreases running@.len() - j,
    {
        let m = &running[j];
        if !(listed(built, m.as_str()) && !table_has(&off, m.as_str())) {
            place(&mut changes, m.clone(), false);
        }
        proof {
            broadcast use vstd::seq_lib::lemma_seq_contains_after_push;
            assert(run.take(j + 1) =~= run.take(j as int).push(m@));
            assert(run.contains(m@)) by {
                assert(run[j as int] == m@);
            }
            assert(keyed_map(table_view(changes@)) =~= Map::new(
                |q: Seq<char>| (b.contains(q) && !disabled.contains(q) && !run.contains(q)) || (run.take(j + 1).contains(q)
                    && !(b.contains(q) && !disabled.contains(q))),
                |q: Seq<char>| !run.take(j + 1).contains(q),
            ));
        }
        j = j + 1;
    }
    proof {
        assert(run.take(run.len() as int) =~= run);
        assert(keyed_map(table_view(changes@)) =~= supervision_changes(b, run, disabled));
    }
    Ok(changes)
}

/// Once a prefix of the list is refused, so is the whole of it, for the same
/// reason.
proof fn lemma_check_sticks(declared: Seq<Declared>, built: Seq<Seq<char>>, noun: Seq<char>, n: int)
    requires
        0 <= n <= declared.len(),
        declared_check(declared.take(n), built, noun) is Err,
    ensures
        declared_check(declared, built, noun) == declared_check(declared.take(n), built, noun),
    decreases declared.len() - n,
{
    if n < declared.len() {
        assert(declared.take(n + 1).drop_last() =~= declared.take(n));
        lemma_check_sticks(declared, built, noun, n + 1);
    } else {
        assert(declared.take(n) =~= declared);
    }
}

/// A change to a unit's lifecycle.
#[derive(Debug, Clone, PartialEq, Eq)]
pub enum UnitChange {
    Start(String),
    Stop(String),
}

/// A change to a plugin's lifecycle.
#[derive(Debug, Clone, PartialEq, Eq)]
pub enum PluginChange {
    Start(String),
    Stop(String),
}

impl UnitChange {
    pub fn name(&self) -> (r: &String)
        ensures
            r@ == self.key().0,
    {
        match self {
            UnitChange::Start(name) | UnitChange::Stop(name) => name,
        }
    }

    /// The unit it is about, and whether it starts.
    pub open spec fn key(&self) -> (Seq<char>, bool) {
        match self {
            UnitChange::Start(name) => (name@, true),
            UnitChange::Stop(name) => (name@, false),
        }
    }
}

impl PluginChange {
    pub fn name(&self) -> (r: &String)
        ensures
            r@ == self.key().0,
    {
        match self {
            PluginChange::Start(name) | PluginChange::Stop(name) => name,
        }
    }

    /// The plugin it is about, and whether it starts.
    pub open spec fn key(&self) -> (Seq<char>, bool) {
        match self {
            PluginChange::Start(name) => (name@, true),
            PluginChange::Stop(name) => (name@, false),
        }
    }
}

/// Plans for built units.
pub struct UnitProvider;

/// Plans for built plugins.
pub struct PluginProvider;

impl UnitProvider {
    /// Plan enabled built units against the units supervision runs: the
    /// changes in name order.
    pub fn plan(declared: &Vec<Declared>, built: &Vec<String>, running: &Vec<String>) -> (r: Result<Vec<UnitChange>, ProviderError>)
        ensures
            match declared_check(declared@, names_of(built@), "unit"@) {
                Err(message) => r matches Err(e) && e.domain@ == "units"@ && e.message@ == message,
                Ok((_, off)) => r matches Ok(changes) && keyed_sorted(changes@.map_values(|c: UnitChange| c.key()))
                    && keyed_map(changes@.map_values(|c: UnitChange| c.key())) == supervision_changes(names_of(built@), names_of(running@), off),
            },
    {
        let planned = plan_supervised("units", "unit", declared, built, running)?;
        let mut out: Vec<UnitChange> = Vec::new();
        let mut k: usize = 0;
        while k < planned.len()
            invariant
                k <= planned@.len(),
                out@.map_values(|c: UnitChange| c.key()) == table_view(planned@).take(k as int),
            decreases planned@.len() - k,
        {
            let name = planned[k].0.clone();
            let change = if planned[k].1 {
                UnitChange::Start(name)
            } else {
                UnitChange::Stop(name)
            };
            let ghost key = change.key();
            proof {
                assert(key == table_view(planned@)[k as int]);
            }
            let ghost prior = out@;
            out.push(change);
            proof {
                assert(out@ == prior.push(change));
                assert(out@.map_values(|c: UnitChange| c.key()) =~= prior.map_values(|c: UnitChange| c.key()).push(key));
                assert(table_view(planned@).take(k + 1) =~= table_view(planned@).take(k as int).push(key));
            }
            k = k + 1;
        }
        proof {
            assert(table_view(planned@).take(planned@.len() as int) =~= table_view(planned@));
        }
        Ok(out)
    }
}

impl PluginProvider {
    /// Plan enabled built plugins against the plugins supervision runs: the
    /// changes in name order.
    pub fn plan(declared: &Vec<Declared>, built: &Vec<String>, running: &Vec<String>) -> (r: Result<Vec<PluginChange>, ProviderError>)
        ensures
            match declared_check(declared@, names_of(built@), "plugin"@) {
                Err(message) => r matches Err(e) && e.domain@ == "plugins"@ && e.message@ == message,
                Ok((_, off)) => r matches Ok(changes) && keyed_sorted(changes@.map_values(|c: PluginChange| c.key()))
                    && keyed_map(changes@.map_values(|c: PluginChange| c.key())) == supervision_changes(names_of(built@), names_of(running@), off),
            },
    {
        let planned = plan_supervised("plugins", "plugin", declared, built, running)?;
        let mut out: Vec<PluginChange> = Vec::new();
        let mut k: usize = 0;
        while k < planned.len()
            invariant
                k <= planned@.len(),
                out@.map_values(|c: PluginChange| c.key()) == table_view(planned@).take(k as int),
            decreases planned@.len() - k,
        {
            let name = planned[k].0.clone();
            let change = if planned[k].1 {
                PluginChange::Start(name)
            } else {
                PluginChange::Stop(name)
            };
            let ghost key = change.key();
            proof {
                assert(key == table_view(planned@)[k as int]);
            }
            let ghost prior = out@;
            out.push(change);
            proof {
                assert(out@ == prior.push(change));
                assert(out@.map_values(|c: PluginChange| c.key()) =~= prior.map_values(|c: PluginChange| c.key()).push(key));
                assert(table_view(planned@).take(k + 1) =~= table_view(planned@).take(k as int).push(key));
            }
            k = k + 1;
        }
        proof {
            assert(table_view(planned@).take(planned@.len() as int) =~= table_view(planned@));
        }
        Ok(out)
    }
}

} // verus!

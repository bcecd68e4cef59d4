//! Timer declarations are planned here; their tasks are run elsewhere.
//!
//! Schedules are compared in their canonical encoding.
use vstd::prelude::*;
use crate::keyed::{has_key, keyed_map, keyed_sorted, lemma_keyed_empty, place, table_has, table_view};
use crate::reconcile::ProviderError;

verus! {

broadcast use {vstd::map::group_map_axioms, vstd::set::group_set_axioms};

/// A schedule as declared: its identity, its canonical encoding, and
/// whether its cadence and action are well formed.
#[derive(Debug)]
pub struct DeclaredSchedule {
    pub id: String,
    pub spec: Vec<u8>,
    pub valid: Result<(), String>,
}

/// A schedule that is firing now.
#[derive(Debug)]
pub struct RunningSchedule {
    pub id: String,
    pub spec: Vec<u8>,
}

/// Checking the document's schedules: each must be well formed and have an
/// identity of its own. The declarations by identity.
pub open spec fn schedules_check(declared: Seq<DeclaredSchedule>) -> Result<Map<Seq<char>, Seq<u8>>, Seq<char>>
    decreases declared.len(),
{
    if declared.len() == 0 {
        Ok(Map::empty())
    } else {
        match schedules_check(declared.drop_last()) {
            Err(e) => Err(e),
            Ok(seen) => {
                let d = declared.last();
                match d.valid {
                    Err(reason) => Err(reason@),
                    Ok(()) => if d.id@.len() == 0 || seen.contains_key(d.id@) {
                        Err("empty or duplicate schedule id"@)
                    } else {
                        Ok(seen.insert(d.id@, d.spec@))
                    },
                }
            },
        }
    }
}

/// The running schedules by identity; of two with one identity the later.
pub open spec fn running_map(running: Seq<RunningSchedule>) -> Map<Seq<char>, Seq<u8>>
    decreases running.len(),
{
    if running.len() == 0 {
        Map::empty()
    } else {
        running_map(running.drop_last()).insert(running.last().id@, running.last().spec@)
    }
}

/// The changes: set every declared schedule not running as declared, remove
/// every running one no longer declared.
pub open spec fn schedule_changes(declared: Map<Seq<char>, Seq<u8>>, running: Map<Seq<char>, Seq<u8>>) -> Map<Seq<char>, Option<Seq<u8>>> {
    Map::new(
        |id: Seq<char>| (declared.contains_key(id) && !(running.contains_key(id) && running[id] == declared[id])) || (
        running.contains_key(id) && !declared.contains_key(id)),
        |id: Seq<char>| if declared.contains_key(id) { Some(declared[id]) } else { None },
    )
}

/// A change to one schedule: declare it (start it, or replace what runs
/// under its identity) or remove it.
#[derive(Debug)]
pub enum ScheduleChange {
    Declare(String, Vec<u8>),
    Remove(String),
}

impl ScheduleChange {
    /// Its schedule's identity, and the declaration it sets, if any.
    pub open spec fn key(&self) -> (Seq<char>, Option<Seq<u8>>) {
        match self {
            ScheduleChange::Declare(id, spec) => (id@, Some(spec@)),
            ScheduleChange::Remove(id) => (id@, None),
        }
    }

    pub fn id(&self) -> (r: &String)
        ensures
            r@ == self.key().0,
    {
        match self {
            ScheduleChange::Declare(id, _) => id,
            ScheduleChange::Remove(id) => id,
        }
    }
}

proof fn lemma_check_sticks(declared: Seq<DeclaredSchedule>, n: int)
    requires
        0 <= n <= declared.len(),
        schedules_check(declared.take(n)) is Err,
    ensures
        schedules_check(declared) == schedules_check(declared.take(n)),
    decreases declared.len() - n,
{
    if n < declared.len() {
        assert(declared.take(n + 1).drop_last() =~= declared.take(n));
        lemma_check_sticks(declared, n + 1);
    } else {
        assert(declared.take(n) =~= declared);
    }
}

fn lookup<V: Copy>(table: &Vec<(String, Vec<u8>)>, id: &str) -> (r: Option<usize>)
    ensures
        match r {
            Some(k) => k < table@.len() && table@[k as int].0@ == id@ && has_key(table_view(table@), id@),
            None => !has_key(table_view(table@), id@),
        },
{
    let mut k: usize = 0;
    while k < table.len()
        invariant
            k <= table@.len(),
            forall|j: int| 0 <= j < k ==> table@[j].0@ != id@,
        decreases table@.len() - k,
    {
        if crate::text::text_eq(table[k].0.as_str(), id) {
            proof {
                assert(table_view(table@)[k as int].0 == id@);
            }
            return Some(k);
        }
        k = k + 1;
    }
    proof {
        if has_key(table_view(table@), id@) {
            let j = choose|j: int| 0 <= j < table_view(table@).len() && (#[trigger] table_view(table@)[j]).0 == id@;
            assert(table@[j].0@ == id@);
        }
    }
    None
}

/// Plans for the schedules the daemon runs.
pub struct ScheduleProvider;

impl ScheduleProvider {
    /// Plan the document's schedules against those running: the changes in
    /// identity order, or why the document's schedules are refused.
    pub fn plan(declared: &Vec<DeclaredSchedule>, running: &Vec<RunningSchedule>) -> (r: Result<Vec<ScheduleChange>, ProviderError>)
        ensures
            match schedules_check(declared@) {
                Err(message) => r matches Err(e) && e.domain@ == "schedules"@ && e.message@ == message,
                Ok(wanted) => r matches Ok(changes) && keyed_sorted(changes@.map_values(|c: ScheduleChange| c.key()))
                    && keyed_map(changes@.map_values(|c: ScheduleChange| c.key())) == schedule_changes(wanted, running_map(running@)),
            },
    {
        let mut wanted: Vec<(String, Vec<u8>)> = Vec::new();
        let mut i: usize = 0;
        proof {
            lemma_keyed_empty(table_view(wanted@));
            assert(declared@.take(0) =~= Seq::<DeclaredSchedule>::empty());
            assert(keyed_map(table_view(wanted@)) =~= Map::<Seq<char>, Vec<u8>>::empty());
        }
        while i < declared.len()
            invariant
                i <= declared@.len(),
                keyed_sorted(table_view(wanted@)),
                schedules_check(declared@.take(i as int)) matches Ok(m) && m == keyed_map(table_view(wanted@)).map_values(|v: Vec<u8>| v@),
            decreases declared@.len() - i,
        {
            let d = &declared[i];
            proof {
                assert(declared@.take(i + 1).drop_last() =~= declared@.take(i as int));
                assert(declared@.take(i + 1).last() == declared@[i as int]);
            }
            if let Err(reason) = &d.valid {
                proof {
                    lemma_check_sticks(declared@, i + 1);
                }
                return Err(ProviderError::new("schedules", reason.clone()));
            }
            if d.id.as_str().is_empty() || table_has(&wanted, d.id.as_str()) {
                proof {
                    lemma_check_sticks(declared@, i + 1);
                }
                return Err(ProviderError::new("schedules", "empty or duplicate schedule id".to_owned()));
            }
            let ghost before = keyed_map(table_view(wanted@));
            place(&mut wanted, d.id.clone(), d.spec.clone());
            proof {
                assert(keyed_map(table_view(wanted@)).map_values(|v: Vec<u8>| v@) =~= before.map_values(|v: Vec<u8>| v@).insert(
                    d.id@,
                    d.spec@,
                ));
            }
            i = i + 1;
        }
        proof {
            assert(declared@.take(declared@.len() as int) =~= declared@);
        }
        let mut current: Vec<(String, Vec<u8>)> = Vec::new();
        let mut j: usize = 0;
        proof {
            lemma_keyed_empty(table_view(current@));
            assert(running@.take(0) =~= Seq::<RunningSchedule>::empty());
            assert(keyed_map(table_view(current@)).map_values(|v: Vec<u8>| v@) =~= Map::<Seq<char>, Seq<u8>>::empty());
        }
        while j < running.len()
            invariant
                j <= running@.len(),
                keyed_sorted(table_view(current@)),
                running_map(running@.take(j as int)) == keyed_map(table_view(current@)).map_values(|v: Vec<u8>| v@),
            decreases running@.len() - j,
        {
            let ghost before = keyed_map(table_view(current@));
            proof {
                assert(running@.take(j + 1).drop_last() =~= running@.take(j as int));
                assert(running@.take(j + 1).last() == running@[j as int]);
            }
            place(&mut current, running[j].id.clone(), running[j].spec.clone());
            proof {
                assert(keyed_map(table_view(current@)).map_values(|v: Vec<u8>| v@) =~= before.map_values(|v: Vec<u8>| v@).insert(
                    running@[j as int].id@,
                    running@[j as int].spec@,
                ));
            }
            j = j + 1;
        }
        proof {
            assert(running@.take(running@.len() as int) =~= running@);
        }
        let changes = changes_between(&wanted, &current);
        let mut out: Vec<ScheduleChange> = Vec::new();
        let mut k: usize = 0;
        while k < changes.len()
            invariant
                k <= changes@.len(),
                out@.map_values(|c: ScheduleChange| c.key()) == changes_view(changes@).take(k as int),
            decreases changes@.len() - k,
        {
            let id = changes[k].0.clone();
            let change = match &changes[k].1 {
                Some(spec) => ScheduleChange::Declare(id, spec.clone()),
                None => ScheduleChange::Remove(id),
            };
            let ghost key = change.key();
            proof {
                assert(key == changes_view(changes@)[k as int]);
            }
            let ghost prior = out@;
            out.push(change);
            proof {
                assert(out@.map_values(|c: ScheduleChange| c.key()) =~= prior.map_values(|c: ScheduleChange| c.key()).push(key));
                assert(changes_view(changes@).take(k + 1) =~= changes_view(changes@).take(k as int).push(key));
            }
            k = k + 1;
        }
        proof {
            assert(changes_view(changes@).take(changes@.len() as int) =~= changes_view(changes@));
        }
        Ok(out)
    }
}

pub open spec fn opt_view(v: Option<Vec<u8>>) -> Option<Seq<u8>> {
    match v {
        Some(b) => Some(b@),
        None => None,
    }
}

/// A change table read through its views.
pub open spec fn changes_view(t: Seq<(String, Option<Vec<u8>>)>) -> Seq<(Seq<char>, Option<Seq<u8>>)> {
    table_view(t).map_values(|e: (Seq<char>, Option<Vec<u8>>)| (e.0, opt_view(e.1)))
}

pub open spec fn bytes_map(t: Seq<(String, Vec<u8>)>) -> Map<Seq<char>, Seq<u8>> {
    keyed_map(table_view(t)).map_values(|v: Vec<u8>| v@)
}

fn copy_spec(b: &Vec<u8>) -> (r: Vec<u8>)
    ensures
        r@ == b@,
{
    let mut out: Vec<u8> = Vec::new();
    let mut k: usize = 0;
    while k < b.len()
        invariant
            k <= b@.len(),
            out@ == b@.take(k as int),
        decreases b@.len() - k,
    {
        out.push(b[k]);
        proof {
            assert(out@ =~= b@.take(k + 1));
        }
        k = k + 1;
    }
    proof {
        assert(b@.take(b@.len() as int) =~= b@);
    }
    out
}

proof fn lemma_bytes_map(t: Seq<(String, Vec<u8>)>, q: Seq<char>)
    ensures
        bytes_map(t).contains_key(q) == has_key(table_view(t), q),
        bytes_map(t).contains_key(q) ==> bytes_map(t)[q] == keyed_map(table_view(t))[q]@,
{
    assert(keyed_map(table_view(t)).contains_key(q) == has_key(table_view(t), q));
}

proof fn lemma_change_map(t: Seq<(String, Option<Vec<u8>>)>, q: Seq<char>)
    ensures
        change_map(t).contains_key(q) == has_key(table_view(t), q),
        change_map(t).contains_key(q) ==> change_map(t)[q] == opt_view(keyed_map(table_view(t))[q]),
{
    assert(keyed_map(table_view(t)).contains_key(q) == has_key(table_view(t), q));
}

/// The changes a table of change entries stands for.
pub open spec fn change_map(t: Seq<(String, Option<Vec<u8>>)>) -> Map<Seq<char>, Option<Seq<u8>>> {
    keyed_map(table_view(t)).map_values(|v: Option<Vec<u8>>| opt_view(v))
}

proof fn lemma_change_view(t: Seq<(String, Option<Vec<u8>>)>)
    requires
        keyed_sorted(table_view(t)),
    ensures
        keyed_sorted(changes_view(t)),
        keyed_map(changes_view(t)) == change_map(t),
{
    let tv = table_view(t);
    let cv = changes_view(t);
    assert forall|a: int, b: int| 0 <= a < b < cv.len() implies crate::text::name_lt(#[trigger] cv[a].0, #[trigger] cv[b].0) by {
        assert(cv[a].0 == tv[a].0 && cv[b].0 == tv[b].0);
    }
    assert forall|q: Seq<char>| #[trigger] keyed_map(cv).contains_key(q) <==> change_map(t).contains_key(q) by {
        lemma_change_map(t, q);
        if has_key(cv, q) {
            let j = choose|j: int| 0 <= j < cv.len() && (#[trigger] cv[j]).0 == q;
            assert(tv[j].0 == q);
        }
        if has_key(tv, q) {
            let j = choose|j: int| 0 <= j < tv.len() && (#[trigger] tv[j]).0 == q;
            assert(cv[j].0 == q);
        }
    }
    assert forall|q: Seq<char>| #[trigger] keyed_map(cv).contains_key(q) implies keyed_map(cv)[q] == change_map(t)[q] by {
        lemma_change_map(t, q);
        let j = crate::keyed::lemma_keyed_lookup(cv, q);
        crate::keyed::lemma_keyed_index(tv, j);
    }
    assert(keyed_map(cv) =~= change_map(t));
}

/// Set one change in a sorted change table.
fn put(out: &mut Vec<(String, Option<Vec<u8>>)>, id: &String, value: Option<Vec<u8>>)
    requires
        keyed_sorted(table_view(old(out)@)),
    ensures
        keyed_sorted(table_view(final(out)@)),
        change_map(final(out)@) == change_map(old(out)@).insert(id@, opt_view(value)),
{
    let ghost prior = keyed_map(table_view(out@));
    let ghost v = value;
    place(out, id.clone(), value);
    proof {
        assert(change_map(out@) =~= prior.map_values(|x: Option<Vec<u8>>| opt_view(x)).insert(id@, opt_view(v)));
    }
}

proof fn lemma_prefix_keys(s: Seq<(Seq<char>, Vec<u8>)>, k: int, q: Seq<char>)
    requires
        0 <= k < s.len(),
    ensures
        has_key(s.take(k + 1), q) <==> (has_key(s.take(k), q) || q == s[k].0),
{
    if has_key(s.take(k + 1), q) {
        let a = choose|a: int| 0 <= a < s.take(k + 1).len() && (#[trigger] s.take(k + 1)[a]).0 == q;
        if a < k {
            assert(s.take(k)[a] == s.take(k + 1)[a]);
        }
    }
    if has_key(s.take(k), q) {
        let a = choose|a: int| 0 <= a < s.take(k).len() && (#[trigger] s.take(k)[a]).0 == q;
        assert(s.take(k + 1)[a] == s.take(k)[a]);
    }
    if q == s[k].0 {
        assert(s.take(k + 1)[k].0 == q);
    }
}

/// The changes between two sorted tables, as a sorted table: `Some` sets a
/// declaration, `None` removes one.
fn changes_between(wanted: &Vec<(String, Vec<u8>)>, current: &Vec<(String, Vec<u8>)>) -> (r: Vec<(String, Option<Vec<u8>>)>)
    requires
        keyed_sorted(table_view(wanted@)),
        keyed_sorted(table_view(current@)),
    ensures
        keyed_sorted(changes_view(r@)),
        keyed_map(changes_view(r@)) == schedule_changes(bytes_map(wanted@), bytes_map(current@)),
{
    let ghost w = bytes_map(wanted@);
    let ghost c = bytes_map(current@);
    let ghost wv = table_view(wanted@);
    let ghost cv = table_view(current@);
    let mut out: Vec<(String, Option<Vec<u8>>)> = Vec::new();
    let mut k: usize = 0;
    proof {
        lemma_keyed_empty(table_view(out@));
        assert(change_map(out@) =~= Map::new(
            |id: Seq<char>| has_key(wv.take(0), id) && !(c.contains_key(id) && c[id] == w[id]),
            |id: Seq<char>| Some(w[id]),
        ));
    }
    while k < wanted.len()
        invariant
            k <= wanted@.len(),
            w == bytes_map(wanted@),
            c == bytes_map(current@),
            wv == table_view(wanted@),
            cv == table_view(current@),
            keyed_sorted(wv),
            keyed_sorted(cv),
            keyed_sorted(table_view(out@)),
            change_map(out@) == Map::new(
                |id: Seq<char>| has_key(wv.take(k as int), id) && !(c.contains_key(id) && c[id] == w[id]),
                |id: Seq<char>| Some(w[id]),
            ),
        decreases wanted@.len() - k,
    {
        let id = &wanted[k].0;
        let spec = &wanted[k].1;
        proof {
            crate::keyed::lemma_keyed_index(wv, k as int);
            assert(w[id@] == spec@);
        }
        let same = match lookup::<u8>(current, id.as_str()) {
            Some(j) => {
                proof {
                    crate::keyed::lemma_keyed_index(cv, j as int);
                }
                crate::text::bytes_equal(current[j].1.as_slice(), spec.as_slice())
            },
            None => false,
        };
        proof {
            lemma_bytes_map(current@, id@);
            lemma_bytes_map(wanted@, id@);
            assert(same == (c.contains_key(id@) && c[id@] == w[id@]));
        }
        let ghost before = change_map(out@);
        if !same {
            put(&mut out, id, Some(copy_spec(spec)));
            proof {
                assert(change_map(out@) == before.insert(id@, Some(w[id@])));
            }
        }
        proof {
            assert forall|q: Seq<char>| has_key(wv.take(k + 1), q) <==> (has_key(wv.take(k as int), q) || q == id@) by {
                lemma_prefix_keys(wv, k as int, q);
            }
            let target = Map::new(
                |q: Seq<char>| has_key(wv.take(k + 1), q) && !(c.contains_key(q) && c[q] == w[q]),
                |q: Seq<char>| Some(w[q]),
            );
            let prior = Map::new(
                |q: Seq<char>| has_key(wv.take(k as int), q) && !(c.contains_key(q) && c[q] == w[q]),
                |q: Seq<char>| Some(w[q]),
            );
            assert(before == prior);
            assert forall|q: Seq<char>| #[trigger] change_map(out@).contains_key(q) <==> target.contains_key(q) by {
                assert(prior.contains_key(q) == (has_key(wv.take(k as int), q) && !(c.contains_key(q) && c[q] == w[q])));
                assert(target.contains_key(q) == (has_key(wv.take(k + 1), q) && !(c.contains_key(q) && c[q] == w[q])));
            }
            assert forall|q: Seq<char>| #[trigger] change_map(out@).contains_key(q) implies change_map(out@)[q] == target[q] by {
                assert(target[q] == Some(w[q]));
                if q != id@ || same {
                    assert(prior.contains_key(q));
                    assert(prior[q] == Some(w[q]));
                }
            }
            assert(change_map(out@) =~= target);
        }
        k = k + 1;
    }
    proof {
        assert(wv.take(wv.len() as int) =~= wv);
        assert forall|q: Seq<char>| has_key(wv, q) <==> w.contains_key(q) by {}
    }
    let mut j: usize = 0;
    proof {
        assert(change_map(out@) =~= Map::new(
            |q: Seq<char>| (w.contains_key(q) && !(c.contains_key(q) && c[q] == w[q])) || (has_key(cv.take(0), q) && !w.contains_key(q)),
            |q: Seq<char>| if w.contains_key(q) { Some(w[q]) } else { None },
        ));
    }
    while j < current.len()
        invariant
            j <= current@.len(),
            w == bytes_map(wanted@),
            c == bytes_map(current@),
            wv == table_view(wanted@),
            cv == table_view(current@),
            keyed_sorted(cv),
            keyed_sorted(wv),
            keyed_sorted(table_view(out@)),
            change_map(out@) == Map::new(
                |q: Seq<char>| (w.contains_key(q) && !(c.contains_key(q) && c[q] == w[q])) || (has_key(cv.take(j as int), q)
                    && !w.contains_key(q)),
                |q: Seq<char>| if w.contains_key(q) { Some(w[q]) } else { None },
            ),
        decreases current@.len() - j,
    {
        let id = &current[j].0;
        let declared = lookup::<u8>(wanted, id.as_str()).is_some();
        proof {
            crate::keyed::lemma_keyed_index(cv, j as int);
            if has_key(wv, id@) {
                let a = choose|a: int| 0 <= a < wv.len() && (#[trigger] wv[a]).0 == id@;
                crate::keyed::lemma_keyed_index(wv, a);
            }
        }
        proof {
            lemma_bytes_map(wanted@, id@);
            assert(declared == w.contains_key(id@));
        }
        let ghost before = change_map(out@);
        proof {
            assert(before == Map::new(
                |q: Seq<char>| (w.contains_key(q) && !(c.contains_key(q) && c[q] == w[q])) || (has_key(cv.take(j as int), q)
                    && !w.contains_key(q)),
                |q: Seq<char>| if w.contains_key(q) { Some(w[q]) } else { None },
            ));
        }
        if !declared {
            put(&mut out, id, None);
            proof {
                assert(change_map(out@) == before.insert(id@, None));
            }
        }
        proof {
            assert forall|q: Seq<char>| has_key(cv.take(j + 1), q) <==> (has_key(cv.take(j as int), q) || q == id@) by {
                lemma_prefix_keys(cv, j as int, q);
            }
            let target = Map::new(
                |q: Seq<char>| (w.contains_key(q) && !(c.contains_key(q) && c[q] == w[q])) || (has_key(cv.take(j + 1), q)
                    && !w.contains_key(q)),
                |q: Seq<char>| if w.contains_key(q) { Some(w[q]) } else { None },
            );
            let prior = Map::new(
                |q: Seq<char>| (w.contains_key(q) && !(c.contains_key(q) && c[q] == w[q])) || (has_key(cv.take(j as int), q)
                    && !w.contains_key(q)),
                |q: Seq<char>| if w.contains_key(q) { Some(w[q]) } else { None },
            );
            assert(before == prior);
            assert forall|q: Seq<char>| #[trigger] change_map(out@).contains_key(q) <==> target.contains_key(q) by {
                assert(prior.contains_key(q) == ((w.contains_key(q) && !(c.contains_key(q) && c[q] == w[q])) || (has_key(cv.take(j as int), q)
                    && !w.contains_key(q))));
                assert(target.contains_key(q) == ((w.contains_key(q) && !(c.contains_key(q) && c[q] == w[q])) || (has_key(cv.take(j + 1), q)
                    && !w.contains_key(q))));
            }
            assert forall|q: Seq<char>| #[trigger] change_map(out@).contains_key(q) implies change_map(out@)[q] == target[q] by {
                if q != id@ || declared {
                    assert(prior.contains_key(q));
                }
            }
            assert(change_map(out@) =~= target);
        }
        j = j + 1;
    }
    proof {
        assert(cv.take(cv.len() as int) =~= cv);
        lemma_change_view(out@);
        assert(change_map(out@) =~= schedule_changes(w, c));
    }
    out
}

} // verus!

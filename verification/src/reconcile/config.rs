//! What each unit was configured with.
//!
//! A unit's settings are construction, not state: a unit given different
//! settings has to be run again. This provider records what the document says
//! for each built unit and names the units whose settings that changed. It
//! runs before the provider that starts units, so that a unit never starts
//! before the settings its handshake carries are on file.
//!
//! Settings are held in their canonical encoding, so that two settings are
//! the same exactly when their bytes are.
use vstd::prelude::*;
use crate::keyed::{keyed_map, keyed_sorted, lemma_keyed_empty, lemma_keyed_index, lemma_keyed_lookup, names_contain, names_view, place, table_view};
use crate::text::{bytes_equal, text_eq};

verus! {

/// The settings the document gives a unit: those of the first entry named
/// `name`, or none (the empty encoding) when no entry names it.
pub open spec fn document_config(document: Seq<(Seq<char>, Seq<u8>)>, name: Seq<char>) -> Seq<u8> {
    if exists|i: int| 0 <= i < document.len() && (#[trigger] document[i]).0 == name {
        let i = choose|i: int|
            0 <= i < document.len() && (#[trigger] document[i]).0 == name && (forall|j: int|
                0 <= j < i ==> (#[trigger] document[j]).0 != name);
        document[i].1
    } else {
        Seq::empty()
    }
}

/// The settings on file for a unit, the empty encoding when none are.
pub open spec fn recorded_config(recorded: Map<Seq<char>, Seq<u8>>, name: Seq<char>) -> Seq<u8> {
    if recorded.contains_key(name) {
        recorded[name]
    } else {
        Seq::empty()
    }
}

/// The built units, in order, that the document configures otherwise than
/// what is on file.
pub open spec fn reconfigured(
    built: Seq<Seq<char>>,
    document: Seq<(Seq<char>, Seq<u8>)>,
    recorded: Map<Seq<char>, Seq<u8>>,
) -> Seq<Seq<char>>
    decreases built.len(),
{
    if built.len() == 0 {
        Seq::empty()
    } else {
        let name = built.last();
        let rest = reconfigured(built.drop_last(), document, recorded);
        if document_config(document, name) != recorded_config(recorded, name) {
            rest.push(name)
        } else {
            rest
        }
    }
}

/// The change targets, in order, that name a built unit.
pub open spec fn built_targets(changes: Seq<Seq<char>>, built: Seq<Seq<char>>) -> Seq<Seq<char>>
    decreases changes.len(),
{
    if changes.len() == 0 {
        Seq::empty()
    } else {
        let rest = built_targets(changes.drop_last(), built);
        if built.contains(changes.last()) {
            rest.push(changes.last())
        } else {
            rest
        }
    }
}

/// What is on file after the settings `document` gives each of `targets`
/// are put there.
pub open spec fn recorded_after(
    recorded: Map<Seq<char>, Seq<u8>>,
    targets: Seq<Seq<char>>,
    document: Seq<(Seq<char>, Seq<u8>)>,
) -> Map<Seq<char>, Seq<u8>> {
    Map::new(
        |n: Seq<char>| recorded.contains_key(n) || targets.contains(n),
        |n: Seq<char>| if targets.contains(n) { document_config(document, n) } else { recorded[n] },
    )
}

/// Putting on file what a plan names settles it: planning the same document
/// again over the same built units names nothing.
pub proof fn applied_plan_settles(
    built: Seq<Seq<char>>,
    document: Seq<(Seq<char>, Seq<u8>)>,
    recorded: Map<Seq<char>, Seq<u8>>,
)
    ensures
        reconfigured(
            built,
            document,
            recorded_after(recorded, built_targets(reconfigured(built, document, recorded), built), document),
        ) == Seq::<Seq<char>>::empty(),
{
    let plan = reconfigured(built, document, recorded);
    let targets = built_targets(plan, built);
    let after = recorded_after(recorded, targets, document);
    lemma_reconfigured_members(built, document, recorded);
    lemma_targets_within(plan, built);
    assert forall|n: Seq<char>| built.contains(n) implies document_config(document, n) == recorded_config(after, n) by {
        if targets.contains(n) {
        } else {
            assert(!plan.contains(n));
        }
    }
    lemma_nothing_to_reconfigure(built, document, after);
}

/// Applying an empty plan leaves what is on file as it was.
pub proof fn applying_nothing_changes_nothing(
    recorded: Map<Seq<char>, Seq<u8>>,
    built: Seq<Seq<char>>,
    document: Seq<(Seq<char>, Seq<u8>)>,
)
    ensures
        recorded_after(recorded, built_targets(Seq::empty(), built), document) == recorded,
{
    assert(built_targets(Seq::<Seq<char>>::empty(), built) =~= Seq::<Seq<char>>::empty());
    assert(recorded_after(recorded, Seq::empty(), document) =~= recorded);
}

proof fn lemma_reconfigured_members(
    built: Seq<Seq<char>>,
    document: Seq<(Seq<char>, Seq<u8>)>,
    recorded: Map<Seq<char>, Seq<u8>>,
)
    ensures
        forall|n: Seq<char>| #[trigger] reconfigured(built, document, recorded).contains(n) <==> (built.contains(n)
            && document_config(document, n) != recorded_config(recorded, n)),
    decreases built.len(),
{
    broadcast use vstd::seq_lib::lemma_seq_contains_after_push;

    let r = reconfigured(built, document, recorded);
    if built.len() > 0 {
        let rest = built.drop_last();
        let last = built.last();
        let q = reconfigured(rest, document, recorded);
        lemma_reconfigured_members(rest, document, recorded);
        assert(built =~= rest.push(last));
        assert forall|n: Seq<char>| #[trigger] r.contains(n) <==> (built.contains(n) && document_config(document, n)
            != recorded_config(recorded, n)) by {
            assert(q.contains(n) <==> (rest.contains(n) && document_config(document, n) != recorded_config(recorded, n)));
            assert(built.contains(n) <==> (rest.contains(n) || n == last));
            if document_config(document, last) != recorded_config(recorded, last) {
                assert(r == q.push(last));
                assert(r.contains(n) <==> (q.contains(n) || n == last));
            } else {
                assert(r == q);
            }
        }
    } else {
        assert forall|n: Seq<char>| #[trigger] r.contains(n) <==> (built.contains(n) && document_config(document, n)
            != recorded_config(recorded, n)) by {
            if built.contains(n) {
                let i = choose|i: int| 0 <= i < built.len() && built[i] == n;
            }
            if r.contains(n) {
                let i = choose|i: int| 0 <= i < r.len() && r[i] == n;
            }
        }
    }
}

proof fn lemma_targets_within(changes: Seq<Seq<char>>, built: Seq<Seq<char>>)
    ensures
        forall|n: Seq<char>| #[trigger] built_targets(changes, built).contains(n) <==> (changes.contains(n) && built.contains(n)),
    decreases changes.len(),
{
    broadcast use vstd::seq_lib::lemma_seq_contains_after_push;

    let r = built_targets(changes, built);
    if changes.len() > 0 {
        let rest = changes.drop_last();
        let last = changes.last();
        let q = built_targets(rest, built);
        lemma_targets_within(rest, built);
        assert(changes =~= rest.push(last));
        assert forall|n: Seq<char>| #[trigger] r.contains(n) <==> (changes.contains(n) && built.contains(n)) by {
            assert(q.contains(n) <==> (rest.contains(n) && built.contains(n)));
            assert(changes.contains(n) <==> (rest.contains(n) || n == last));
            if built.contains(last) {
                assert(r == q.push(last));
                assert(r.contains(n) <==> (q.contains(n) || n == last));
            } else {
                assert(r == q);
            }
        }
    } else {
        assert forall|n: Seq<char>| #[trigger] r.contains(n) <==> (changes.contains(n) && built.contains(n)) by {
            if changes.contains(n) {
                let i = choose|i: int| 0 <= i < changes.len() && changes[i] == n;
            }
            if r.contains(n) {
                let i = choose|i: int| 0 <= i < r.len() && r[i] == n;
            }
        }
    }
}

proof fn lemma_nothing_to_reconfigure(
    built: Seq<Seq<char>>,
    document: Seq<(Seq<char>, Seq<u8>)>,
    recorded: Map<Seq<char>, Seq<u8>>,
)
    requires
        forall|n: Seq<char>| built.contains(n) ==> document_config(document, n) == recorded_config(recorded, n),
    ensures
        reconfigured(built, document, recorded) == Seq::<Seq<char>>::empty(),
    decreases built.len(),
{
    if built.len() > 0 {
        let rest = built.drop_last();
        assert forall|n: Seq<char>| rest.contains(n) implies document_config(document, n) == recorded_config(recorded, n) by {
            let i = choose|i: int| 0 <= i < rest.len() && rest[i] == n;
            assert(built[i] == n);
        }
        lemma_nothing_to_reconfigure(rest, document, recorded);
        assert(built[built.len() - 1] == built.last());
    }
}

pub open spec fn document_view(document: Seq<(String, Vec<u8>)>) -> Seq<(Seq<char>, Seq<u8>)> {
    document.map_values(|e: (String, Vec<u8>)| (e.0@, e.1@))
}

/// Records each unit's settings and decides which units a new document
/// reconfigures.
#[derive(Debug)]
pub struct ConfigProvider {
    recorded: Vec<(String, Vec<u8>)>,
}

impl ConfigProvider {
    pub closed spec fn wf(&self) -> bool {
        keyed_sorted(table_view(self.recorded@))
    }

    /// The settings on file, by unit name.
    pub closed spec fn view(&self) -> Map<Seq<char>, Seq<u8>> {
        keyed_map(table_view(self.recorded@)).map_values(|v: Vec<u8>| v@)
    }

    /// A provider with no settings on file.
    pub fn new() -> (r: Self)
        ensures
            r.wf(),
            r.view() == Map::<Seq<char>, Seq<u8>>::empty(),
    {
        let r = ConfigProvider { recorded: Vec::new() };
        proof {
            lemma_keyed_empty(table_view(r.recorded@));
            assert(r.view() =~= Map::<Seq<char>, Seq<u8>>::empty());
        }
        r
    }

    /// The settings on file for `name`; the empty encoding when none are.
    pub fn config(&self, name: &str) -> (r: Vec<u8>)
        requires
            self.wf(),
        ensures
            r@ == recorded_config(self.view(), name@),
    {
        let ghost s = table_view(self.recorded@);
        let mut k: usize = 0;
        while k < self.recorded.len()
            invariant
                k <= self.recorded@.len(),
                s == table_view(self.recorded@),
                keyed_sorted(s),
                forall|j: int| 0 <= j < k ==> (#[trigger] s[j]).0 != name@,
            decreases self.recorded@.len() - k,
        {
            if text_eq(self.recorded[k].0.as_str(), name) {
                proof {
                    lemma_keyed_index(s, k as int);
                }
                return self.recorded[k].1.clone();
            }
            k = k + 1;
        }
        proof {
            if keyed_map(s).contains_key(name@) {
                let j = lemma_keyed_lookup(s, name@);
                assert(s[j].0 == name@);
            }
        }
        Vec::new()
    }

    /// The built units, in the order given, that `document` configures
    /// otherwise than what is on file. Every built unit is weighed, not
    /// only the configured ones: a unit whose settings left the document
    /// goes back to its defaults, which is a change too.
    pub fn plan(&self, built: &Vec<String>, document: &Vec<(String, Vec<u8>)>) -> (r: Vec<String>)
        requires
            self.wf(),
        ensures
            names_view(r@) == reconfigured(names_view(built@), document_view(document@), self.view()),
    {
        let ghost b = names_view(built@);
        let ghost d = document_view(document@);
        let mut out: Vec<String> = Vec::new();
        let mut k: usize = 0;
        while k < built.len()
            invariant
                k <= built@.len(),
                self.wf(),
                b == names_view(built@),
                d == document_view(document@),
                names_view(out@) == reconfigured(b.take(k as int), d, self.view()),
            decreases built@.len() - k,
        {
            let wanted = document_lookup(document, built[k].as_str());
            let held = self.config(built[k].as_str());
            proof {
                assert(b.take(k + 1).drop_last() =~= b.take(k as int));
                assert(b.take(k + 1).last() == built@[k as int]@);
            }
            if !bytes_equal(wanted.as_slice(), held.as_slice()) {
                let ghost prior = out@;
                out.push(built[k].clone());
                proof {
                    assert(names_view(out@) =~= names_view(prior).push(built@[k as int]@));
                }
            }
            k = k + 1;
        }
        proof {
            assert(b.take(built@.len() as int) =~= b);
        }
        out
    }

    /// Put on file what `document` configures for each change target that
    /// names a built unit; the answer is those targets, in order: the units
    /// to run again if they are running.
    pub fn apply(&mut self, built: &Vec<String>, document: &Vec<(String, Vec<u8>)>, changes: &Vec<String>) -> (r: Vec<String>)
        requires
            old(self).wf(),
        ensures
            final(self).wf(),
            names_view(r@) == built_targets(names_view(changes@), names_view(built@)),
            final(self).view() == recorded_after(
                old(self).view(),
                built_targets(names_view(changes@), names_view(built@)),
                document_view(document@),
            ),
    {
        let ghost b = names_view(built@);
        let ghost c = names_view(changes@);
        let ghost d = document_view(document@);
        let ghost start = self.view();
        let mut out: Vec<String> = Vec::new();
        let mut k: usize = 0;
        while k < changes.len()
            invariant
                k <= changes@.len(),
                self.wf(),
                b == names_view(built@),
                c == names_view(changes@),
                d == document_view(document@),
                names_view(out@) == built_targets(c.take(k as int), b),
                forall|name: Seq<char>| #[trigger] self.view().contains_key(name) <==> (start.contains_key(name)
                    || built_targets(c.take(k as int), b).contains(name)),
                forall|name: Seq<char>| #[trigger] self.view().contains_key(name) ==> self.view()[name] == (if built_targets(
                    c.take(k as int),
                    b,
                ).contains(name) {
                    document_config(d, name)
                } else {
                    start[name]
                }),
            decreases changes@.len() - k,
        {
            let target = &changes[k];
            proof {
                assert(c.take(k + 1).drop_last() =~= c.take(k as int));
                assert(c.take(k + 1).last() == target@);
            }
            let ghost before_targets = built_targets(c.take(k as int), b);
            if names_contain(built, target.as_str()) {
                let wanted = document_lookup(document, target.as_str());
                let ghost before = keyed_map(table_view(self.recorded@));
                let ghost before_view = self.view();
                place(&mut self.recorded, target.clone(), wanted);
                proof {
                    assert(self.view() =~= before.map_values(|v: Vec<u8>| v@).insert(target@, document_config(d, target@)));
                    assert(self.view() == before_view.insert(target@, document_config(d, target@)));
                }
                let ghost prior = out@;
                out.push(target.clone());
                proof {
                    assert(names_view(out@) =~= names_view(prior).push(target@));
                    let now = built_targets(c.take(k + 1), b);
                    assert(now == before_targets.push(target@));
                    assert forall|name: Seq<char>| #[trigger] now.contains(name) <==> (before_targets.contains(name) || name == target@) by {
                        if now.contains(name) {
                            let j = choose|j: int| 0 <= j < now.len() && now[j] == name;
                            if j < before_targets.len() {
                                assert(before_targets[j] == name);
                            }
                        }
                        if before_targets.contains(name) {
                            let j = choose|j: int| 0 <= j < before_targets.len() && before_targets[j] == name;
                            assert(now[j] == name);
                        }
                        if name == target@ {
                            assert(now[before_targets.len() as int] == name);
                        }
                    }
                    assert forall|name: Seq<char>| #[trigger] self.view().contains_key(name) <==> (start.contains_key(name)
                        || now.contains(name)) by {
                        if name != target@ {
                            assert(self.view().contains_key(name) == before_view.contains_key(name));
                        }
                    }
                    assert forall|name: Seq<char>| #[trigger] self.view().contains_key(name) implies self.view()[name] == (if now.contains(name) {
                        document_config(d, name)
                    } else {
                        start[name]
                    }) by {
                        if name != target@ {
                            assert(self.view()[name] == before_view[name]);
                        }
                    }
                }
            } else {
                proof {
                    assert(built_targets(c.take(k + 1), b) == before_targets);
                }
            }
            k = k + 1;
        }
        proof {
            assert(c.take(changes@.len() as int) =~= c);
            assert(self.view() =~= recorded_after(start, built_targets(c, b), d));
        }
        out
    }
}

/// The settings `document` gives `name`.
fn document_lookup(document: &Vec<(String, Vec<u8>)>, name: &str) -> (r: Vec<u8>)
    ensures
        r@ == document_config(document_view(document@), name@),
{
    let ghost d = document_view(document@);
    let mut k: usize = 0;
    while k < document.len()
        invariant
            k <= document@.len(),
            d == document_view(document@),
            forall|j: int| 0 <= j < k ==> (#[trigger] d[j]).0 != name@,
        decreases document@.len() - k,
    {
        if text_eq(document[k].0.as_str(), name) {
            proof {
                assert(d[k as int].0 == name@);
                let i = choose|i: int|
                    0 <= i < d.len() && (#[trigger] d[i]).0 == name@ && (forall|j: int|
                        0 <= j < i ==> (#[trigger] d[j]).0 != name@);
                if i < k {
                    assert(d[i].0 != name@);
                }
                if i > k {
                    assert(d[k as int].0 != name@);
                }
            }
            return document[k].1.clone();
        }
        k = k + 1;
    }
    Vec::new()
}

} // verus!

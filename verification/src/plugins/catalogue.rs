//! The commands a caller may see, in address order.
use vstd::prelude::*;
use crate::authorization::{GrantedCommand, Grants};
use crate::hosts::invocations::{inspected, ExecutionSnapshot, Invocations, SnapshotView};
use crate::hosts::status::HostStatus;
use crate::keyed::keyed_sorted;
use crate::manifest::{CommandEndpoint, EndpointView};
use crate::plugins::commands::{grant_check, serving, serving_manifest};
use crate::plugins::record::PluginRecordView;
use crate::plugins::registry::PluginRegistry;
use crate::refusal::Refusal;
use crate::text::{lemma_name_lt_asymmetric, lemma_name_lt_irreflexive, lemma_name_lt_total, lemma_name_lt_transitive, name_lt, text_eq, text_less};

verus! {

/// One command on offer.
#[derive(Debug)]
pub struct Offered {
    pub plugin: String,
    pub endpoint: CommandEndpoint,
    /// Its plugin is connected, or configured as a command host.
    pub available: bool,
    /// The executions of the command its plugin hosts, in admission order.
    pub executions: Vec<ExecutionSnapshot>,
}

pub struct OfferedView {
    pub plugin: Seq<char>,
    pub endpoint: EndpointView,
    pub available: bool,
}

impl View for Offered {
    type V = OfferedView;

    open spec fn view(&self) -> OfferedView {
        OfferedView { plugin: self.plugin@, endpoint: self.endpoint@, available: self.available }
    }
}

/// Address order: by plugin, then by command.
pub open spec fn address_le(a: OfferedView, b: OfferedView) -> bool {
    name_lt(a.plugin, b.plugin) || (a.plugin == b.plugin && !name_lt(b.endpoint.id, a.endpoint.id))
}

pub open spec fn address_sorted(s: Seq<OfferedView>) -> bool {
    forall|i: int, j: int| 0 <= i < j < s.len() ==> address_le(#[trigger] s[i], #[trigger] s[j])
}

/// The endpoints of one plugin the grants let a caller see.
pub open spec fn offered_by(
    plugin: Seq<char>,
    available: bool,
    endpoints: Seq<EndpointView>,
    grants: Option<Seq<GrantedCommand>>,
) -> Seq<OfferedView>
    decreases endpoints.len(),
{
    if endpoints.len() == 0 {
        Seq::empty()
    } else {
        let rest = offered_by(plugin, available, endpoints.drop_last(), grants);
        let e = endpoints.last();
        if grant_check(grants, plugin, e.id, e.signature) is Ok {
            rest.push(OfferedView { plugin, endpoint: e, available })
        } else {
            rest
        }
    }
}

/// Every command on offer, plugin by plugin in name order, each plugin's in
/// the order its manifest declares them.
pub open spec fn offered(
    entries: Seq<(Seq<char>, PluginRecordView)>,
    grants: Option<Seq<GrantedCommand>>,
    configured: Seq<Seq<char>>,
) -> Seq<OfferedView>
    decreases entries.len(),
{
    if entries.len() == 0 {
        Seq::empty()
    } else {
        let rest = offered(entries.drop_last(), grants, configured);
        let (name, record) = entries.last();
        match serving(record) {
            None => rest,
            Some(m) => rest + offered_by(name, (record.session is Some) || configured.contains(name), m.commands, grants),
        }
    }
}

proof fn lemma_address_total(a: OfferedView, b: OfferedView)
    ensures
        address_le(a, b) || address_le(b, a),
{
    if a.plugin != b.plugin {
        lemma_name_lt_total(a.plugin, b.plugin);
    } else if a.endpoint.id != b.endpoint.id {
        lemma_name_lt_total(a.endpoint.id, b.endpoint.id);
        if name_lt(a.endpoint.id, b.endpoint.id) {
            lemma_name_lt_asymmetric(a.endpoint.id, b.endpoint.id);
        } else {
            lemma_name_lt_asymmetric(b.endpoint.id, a.endpoint.id);
        }
    } else {
        lemma_name_lt_irreflexive(a.endpoint.id);
    }
}

proof fn lemma_address_transitive(a: OfferedView, b: OfferedView, c: OfferedView)
    requires
        address_le(a, b),
        address_le(b, c),
    ensures
        address_le(a, c),
{
    if name_lt(a.plugin, b.plugin) {
        if name_lt(b.plugin, c.plugin) {
            lemma_name_lt_transitive(a.plugin, b.plugin, c.plugin);
        }
    } else if name_lt(b.plugin, c.plugin) {
    } else {
        if name_lt(c.endpoint.id, a.endpoint.id) {
            lemma_name_lt_total(c.endpoint.id, b.endpoint.id);
            if c.endpoint.id == b.endpoint.id {
            } else if name_lt(c.endpoint.id, b.endpoint.id) {
            } else {
                lemma_name_lt_transitive(b.endpoint.id, c.endpoint.id, a.endpoint.id);
            }
        }
    }
}

fn address_less_eq(a: &Offered, b: &Offered) -> (r: bool)
    ensures
        r == address_le(a@, b@),
{
    text_less(a.plugin.as_str(), b.plugin.as_str()) || (text_eq(a.plugin.as_str(), b.plugin.as_str()) && !text_less(
        b.endpoint.id.as_str(),
        a.endpoint.id.as_str(),
    ))
}

/// Put `item` after every element at or before it in address order.
fn insert_sorted(sorted: &mut Vec<Offered>, item: Offered)
    requires
        address_sorted(old(sorted)@.map_values(|o: Offered| o@)),
    ensures
        address_sorted(final(sorted)@.map_values(|o: Offered| o@)),
        final(sorted)@.map_values(|o: Offered| o@).to_multiset() == old(sorted)@.map_values(|o: Offered| o@).to_multiset().insert(item@),
{
    let ghost s = sorted@.map_values(|o: Offered| o@);
    let mut i: usize = 0;
    while i < sorted.len() && address_less_eq(&sorted[i], &item)
        invariant
            i <= sorted@.len(),
            s == sorted@.map_values(|o: Offered| o@),
            forall|k: int| 0 <= k < i ==> address_le(#[trigger] s[k], item@),
        decreases sorted@.len() - i,
    {
        i = i + 1;
    }
    let ghost x = item@;
    sorted.insert(i, item);
    proof {
        let t = sorted@.map_values(|o: Offered| o@);
        assert(t =~= s.insert(i as int, x));
        vstd::seq_lib::to_multiset_insert(s, i as int, x);
        if i < s.len() {
            lemma_address_total(s[i as int], x);
        }
        assert forall|a: int, b: int| 0 <= a < b < t.len() implies address_le(#[trigger] t[a], #[trigger] t[b]) by {
            if b < i {
                assert(t[a] == s[a] && t[b] == s[b]);
            } else if b == i {
                assert(t[b] == x && t[a] == s[a]);
            } else if a < i {
                assert(t[a] == s[a] && t[b] == s[b - 1]);
            } else if a == i {
                assert(t[a] == x && t[b] == s[b - 1]);
                if b - 1 > i {
                    lemma_address_transitive(x, s[i as int], s[b - 1]);
                }
            } else {
                assert(t[a] == s[a - 1] && t[b] == s[b - 1]);
            }
        }
    }
}

impl PluginRegistry {
    /// The commands a caller may see, in address order, each marked available
    /// when its plugin is connected or configured as a command host.
    fn offered_entries(&self, grants: Option<&Grants>, configured: &Vec<String>) -> (r: Vec<Offered>)
        ensures
            address_sorted(r@.map_values(|o: Offered| o@)),
            r@.map_values(|o: Offered| o@).to_multiset() == offered(
                self.entries(),
                match grants {
                    Some(g) => Some(g.commands()),
                    None => None,
                },
                configured@.map_values(|s: String| s@),
            ).to_multiset(),
    {
        let ghost g = match grants {
            Some(g) => Some(g.commands()),
            None => None::<Seq<GrantedCommand>>,
        };
        let ghost names = configured@.map_values(|s: String| s@);
        let ghost e = self.entries();
        let n = self.len();
        let mut sorted: Vec<Offered> = Vec::new();
        let mut k: usize = 0;
        proof {
            assert(e.take(0) =~= Seq::<(Seq<char>, PluginRecordView)>::empty());
            assert(sorted@.map_values(|o: Offered| o@) =~= Seq::<OfferedView>::empty());
        }
        while k < n
            invariant
                n == e.len(),
                e == self.entries(),
                k <= n,
                g == match grants {
                    Some(g) => Some(g.commands()),
                    None => None::<Seq<GrantedCommand>>,
                },
                names == configured@.map_values(|s: String| s@),
                address_sorted(sorted@.map_values(|o: Offered| o@)),
                sorted@.map_values(|o: Offered| o@).to_multiset() == offered(e.take(k as int), g, names).to_multiset(),
            decreases n - k,
        {
            let record = self.record_at(k);
            proof {
                assert(e.take(k + 1).drop_last() =~= e.take(k as int));
                assert(e.take(k + 1).last() == e[k as int]);
            }
            if let Some(manifest) = serving_manifest(record) {
                let available = record.session.is_some() || crate::plugins::commands::listed(configured, record.name.as_str());
                let ghost ms = manifest.commands@.map_values(|c: CommandEndpoint| c@);
                let ghost base = offered(e.take(k as int), g, names);
                let mut j: usize = 0;
                proof {
                    assert(ms.take(0) =~= Seq::<EndpointView>::empty());
                    assert(base + offered_by(record.name@, available, ms.take(0), g) =~= base);
                }
                while j < manifest.commands.len()
                    invariant
                        j <= manifest.commands@.len(),
                        ms == manifest.commands@.map_values(|c: CommandEndpoint| c@),
                        address_sorted(sorted@.map_values(|o: Offered| o@)),
                        sorted@.map_values(|o: Offered| o@).to_multiset() == (base + offered_by(record.name@, available, ms.take(j as int), g)).to_multiset(),
                        g == match grants {
                            Some(g) => Some(g.commands()),
                            None => None::<Seq<GrantedCommand>>,
                        },
                    decreases manifest.commands@.len() - j,
                {
                    let endpoint = &manifest.commands[j];
                    proof {
                        assert(ms.take(j + 1).drop_last() =~= ms.take(j as int));
                        assert(ms.take(j + 1).last() == endpoint@);
                    }
                    let allowed = match grants {
                        Some(gr) => gr.command(record.name.as_str(), endpoint.id.as_str(), endpoint.signature.as_slice()).is_ok(),
                        None => true,
                    };
                    if allowed {
                        let item = Offered {
                            plugin: record.name.clone(),
                            endpoint: endpoint.duplicate(),
                            available,
                            executions: Vec::new(),
                        };
                        let ghost x = item@;
                        let ghost prior = offered_by(record.name@, available, ms.take(j as int), g);
                        insert_sorted(&mut sorted, item);
                        proof {
                            assert((base + prior).push(x) =~= base + prior.push(x));
                            vstd::seq_lib::to_multiset_build(base + prior, x);
                        }
                    }
                    j = j + 1;
                }
                proof {
                    assert(ms.take(ms.len() as int) =~= ms);
                }
            }
            k = k + 1;
        }
        proof {
            assert(e.take(n as int) =~= e);
        }
        sorted
    }
}

/// What a caller may see of the commands on offer and of the hosts that
/// serve them.
#[derive(Debug)]
pub struct CommandCatalogue {
    pub entries: Vec<Offered>,
    pub hosts: Vec<HostStatus>,
}

/// The positions among `ids` of the hosts a caller sees, in order.
pub open spec fn kept_hosts(offered: Seq<OfferedView>, ids: Seq<Seq<char>>, granted: bool) -> Seq<int>
    decreases ids.len(),
{
    if ids.len() == 0 {
        Seq::empty()
    } else {
        let rest = kept_hosts(offered, ids.drop_last(), granted);
        if host_visible_spec(offered, ids.last(), granted) {
            rest.push(ids.len() - 1)
        } else {
            rest
        }
    }
}

/// `shown` is `status` with only the failures a caller may see of it: every
/// other field as it was.
pub open spec fn shown_status(offered: Seq<OfferedView>, status: HostStatus, shown: HostStatus, granted: bool) -> bool {
    &&& shown.id == status.id
    &&& shown.lifetime == status.lifetime
    &&& shown.phase == status.phase
    &&& shown.eager == status.eager
    &&& shown.retry_after_ms == status.retry_after_ms
    &&& shown.startup_error == status.startup_error
    &&& shown.processes == status.processes
    &&& shown.concurrency == status.concurrency
    &&& shown.queue_capacity == status.queue_capacity
    &&& shown.queued_calls == status.queued_calls
    &&& shown.active_calls == status.active_calls
    &&& shown.recent_failures@.map_values(|x: ExecutionSnapshot| x@) == status.recent_failures@.map_values(
        |x: ExecutionSnapshot| x@,
    ).filter(|x: SnapshotView| failure_visible(offered, status.id@, x.command, granted))
}

pub open spec fn host_ids(hosts: Seq<HostStatus>) -> Seq<Seq<char>> {
    hosts.map_values(|h: HostStatus| h.id@)
}

/// The hosts a caller is shown are exactly those it may see, each once and
/// in their order.
pub proof fn lemma_kept_hosts(offered: Seq<OfferedView>, ids: Seq<Seq<char>>, granted: bool)
    ensures
        forall|k: int| 0 <= k < kept_hosts(offered, ids, granted).len() ==> {
            &&& 0 <= #[trigger] kept_hosts(offered, ids, granted)[k] < ids.len()
            &&& host_visible_spec(offered, ids[kept_hosts(offered, ids, granted)[k]], granted)
        },
        forall|a: int, b: int| 0 <= a < b < kept_hosts(offered, ids, granted).len()
            ==> #[trigger] kept_hosts(offered, ids, granted)[a] < #[trigger] kept_hosts(offered, ids, granted)[b],
        forall|i: int| 0 <= i < ids.len() && host_visible_spec(offered, #[trigger] ids[i], granted)
            ==> kept_hosts(offered, ids, granted).contains(i),
    decreases ids.len(),
{
    if ids.len() > 0 {
        let d = ids.drop_last();
        lemma_kept_hosts(offered, d, granted);
        let rest = kept_hosts(offered, d, granted);
        assert forall|i: int| 0 <= i < d.len() implies d[i] == ids[i] by {}
        if host_visible_spec(offered, ids.last(), granted) {
            let t = rest.push(ids.len() - 1);
            assert(t[t.len() - 1] == ids.len() - 1);
            assert forall|i: int| 0 <= i < ids.len() && host_visible_spec(offered, #[trigger] ids[i], granted)
                implies t.contains(i) by {
                if i < ids.len() - 1 {
                    assert(d[i] == ids[i]);
                    let j = choose|j: int| 0 <= j < rest.len() && rest[j] == i;
                    assert(t[j] == i);
                } else {
                    assert(t[t.len() - 1] == i);
                }
            }
        } else {
            assert forall|i: int| 0 <= i < ids.len() && host_visible_spec(offered, #[trigger] ids[i], granted)
                implies rest.contains(i) by {
                if i < ids.len() - 1 {
                    assert(d[i] == ids[i]);
                }
            }
        }
    }
}

/// `offered`, each with the executions of its command on its plugin's host.
fn with_executions(offered: Vec<Offered>, invocations: &Invocations, now: u64) -> (r: Vec<Offered>)
    ensures
        r@.map_values(|o: Offered| o@) == offered@.map_values(|o: Offered| o@),
        forall|k: int| 0 <= k < r@.len() ==> (#[trigger] r@[k]).executions@.map_values(|x: ExecutionSnapshot| x@)
            == inspected(invocations.entries(), r@[k].plugin@, r@[k].endpoint.id@, now),
{
    let ghost all = offered@.map_values(|o: Offered| o@);
    let mut rest = offered;
    let mut out: Vec<Offered> = Vec::new();
    proof {
        assert(rest@.map_values(|o: Offered| o@) =~= all.skip(0));
        assert(out@.map_values(|o: Offered| o@) =~= all.take(0));
    }
    while rest.len() > 0
        invariant
            rest@.len() <= all.len(),
            rest@.map_values(|o: Offered| o@) == all.skip(all.len() - rest@.len()),
            out@.map_values(|o: Offered| o@) == all.take(all.len() - rest@.len()),
            forall|k: int| 0 <= k < out@.len() ==> (#[trigger] out@[k]).executions@.map_values(|x: ExecutionSnapshot| x@)
                == inspected(invocations.entries(), out@[k].plugin@, out@[k].endpoint.id@, now),
        decreases rest@.len(),
    {
        let ghost i = all.len() - rest@.len();
        let ghost before = out@;
        let ghost rv = rest@.map_values(|o: Offered| o@);
        let item = rest.remove(0);
        proof {
            assert(rv[0] == all.skip(i)[0]);
            assert(item@ == rv[0]);
            assert(item@ == all[i]);
            assert(rest@.map_values(|o: Offered| o@) =~= rv.drop_first());
            assert(rest@.map_values(|o: Offered| o@) =~= all.skip(all.len() - rest@.len()));
        }
        let Offered { plugin, endpoint, available, executions } = item;
        let found = invocations.inspect(plugin.as_str(), endpoint.id.as_str(), now);
        out.push(Offered { plugin, endpoint, available, executions: found });
        proof {
            assert(out@.map_values(|o: Offered| o@) =~= before.map_values(|o: Offered| o@).push(out@[out@.len() - 1]@));
            assert(out@[out@.len() - 1]@ == all[i]);
            assert(all.take(i + 1) =~= all.take(i).push(all[i]));
            assert(out@.map_values(|o: Offered| o@) =~= all.take(i + 1));
            assert forall|k: int| 0 <= k < out@.len() implies (#[trigger] out@[k]).executions@.map_values(|x: ExecutionSnapshot| x@)
                == inspected(invocations.entries(), out@[k].plugin@, out@[k].endpoint.id@, now) by {
                if k < before.len() {
                    assert(out@[k] == before[k]);
                }
            }
        }
    }
    proof {
        assert(all.take(all.len() as int) =~= all);
    }
    out
}

/// A caller with grants is shown only what it is offered: every host shown
/// offers it some command, and every failure shown there is of a command it
/// is offered on that host.
pub proof fn granted_catalogue_shows_only_offered_commands(o: Seq<OfferedView>, hosts: Seq<HostStatus>, shown: Seq<HostStatus>)
    requires
        shown.len() == kept_hosts(o, host_ids(hosts), true).len(),
        forall|k: int| 0 <= k < shown.len() ==> shown_status(o, hosts[#[trigger] kept_hosts(o, host_ids(hosts), true)[k]], shown[k], true),
    ensures
        forall|k: int| 0 <= k < shown.len() ==> host_visible_spec(o, (#[trigger] shown[k]).id@, true),
        forall|k: int, f: int| 0 <= k < shown.len() && 0 <= f < shown[k].recent_failures@.len()
            ==> failure_visible(o, shown[k].id@, (#[trigger] shown[k].recent_failures@[f]).command@, true),
{
    let ids = host_ids(hosts);
    let kept = kept_hosts(o, ids, true);
    lemma_kept_hosts(o, ids, true);
    assert forall|k: int| 0 <= k < shown.len() implies host_visible_spec(o, (#[trigger] shown[k]).id@, true) by {
        assert(shown_status(o, hosts[kept[k]], shown[k], true));
        assert(ids[kept[k]] == hosts[kept[k]].id@);
    }
    assert forall|k: int, f: int| 0 <= k < shown.len() && 0 <= f < shown[k].recent_failures@.len()
        implies failure_visible(o, shown[k].id@, (#[trigger] shown[k].recent_failures@[f]).command@, true) by {
        let h = hosts[kept[k]];
        assert(shown_status(o, h, shown[k], true));
        let pred = |x: SnapshotView| failure_visible(o, h.id@, x.command, true);
        let all = h.recent_failures@.map_values(|x: ExecutionSnapshot| x@);
        all.filter_lemma(pred);
        let v = shown[k].recent_failures@.map_values(|x: ExecutionSnapshot| x@);
        assert(v == all.filter(pred));
        assert(v[f] == shown[k].recent_failures@[f]@);
        assert(pred(v[f]));
    }
}

impl PluginRegistry {
    /// What a caller may see. `ids_valid` is the verdict on the command
    /// identifiers the manifests declare: a catalogue with one that does not
    /// validate is refused whole. Otherwise the commands on offer, in address
    /// order; and of `hosts` (each configured host's status, in order) every
    /// one to a caller without grants, else those that offer it some command,
    /// each with only the failures of commands it is offered there.
    pub fn command_catalogue(
        &self,
        grants: Option<&Grants>,
        configured: &Vec<String>,
        ids_valid: Result<(), Refusal>,
        hosts: Vec<HostStatus>,
        invocations: &Invocations,
        now: u64,
    ) -> (r: Result<CommandCatalogue, Refusal>)
        ensures
            ids_valid matches Err(x) ==> r matches Err(e) && e.code == x.code && e.message@ == x.message@,
            ids_valid is Ok ==> (r matches Ok(c) && {
                let o = c.entries@.map_values(|o: Offered| o@);
                let kept = kept_hosts(o, host_ids(hosts@), grants is Some);
                &&& address_sorted(o)
                &&& o.to_multiset() == offered(
                    self.entries(),
                    match grants {
                        Some(g) => Some(g.commands()),
                        None => None,
                    },
                    configured@.map_values(|s: String| s@),
                ).to_multiset()
                &&& forall|k: int| 0 <= k < c.entries@.len() ==> (#[trigger] c.entries@[k]).executions@.map_values(
                    |x: ExecutionSnapshot| x@,
                ) == inspected(invocations.entries(), c.entries@[k].plugin@, c.entries@[k].endpoint.id@, now)
                &&& c.hosts@.len() == kept.len()
                &&& forall|k: int| 0 <= k < kept.len() ==> shown_status(o, hosts@[#[trigger] kept[k]], c.hosts@[k], grants is Some)
            }),
    {
        if let Err(refusal) = ids_valid {
            return Err(refusal);
        }
        let entries = with_executions(self.offered_entries(grants, configured), invocations, now);
        let granted = grants.is_some();
        let ghost o = entries@.map_values(|o: Offered| o@);
        let ghost all = hosts@;
        let ghost ids = host_ids(all);
        let mut rest = hosts;
        let mut shown: Vec<HostStatus> = Vec::new();
        proof {
            assert(ids.take(0) =~= Seq::<Seq<char>>::empty());
            assert(rest@ =~= all.skip(0));
        }
        while rest.len() > 0
            invariant
                o == entries@.map_values(|o: Offered| o@),
                ids == host_ids(all),
                rest@.len() <= all.len(),
                rest@ == all.skip(all.len() - rest@.len()),
                granted == grants is Some,
                shown@.len() == kept_hosts(o, ids.take(all.len() - rest@.len()), granted).len(),
                forall|k: int| 0 <= k < shown@.len() ==> shown_status(
                    o,
                    all[#[trigger] kept_hosts(o, ids.take(all.len() - rest@.len()), granted)[k]],
                    shown@[k],
                    granted,
                ),
            decreases rest@.len(),
        {
            let ghost i = all.len() - rest@.len();
            let status = rest.remove(0);
            proof {
                assert(status == all[i]);
                assert(rest@ =~= all.skip(all.len() - rest@.len()));
                assert(ids.take(i + 1).drop_last() =~= ids.take(i));
                assert(ids.take(i + 1).last() == status.id@);
                assert(ids.take(i + 1).len() == i + 1);
            }
            if host_visible(&entries, status.id.as_str(), granted) {
                let HostStatus {
                    id,
                    lifetime,
                    phase,
                    eager,
                    retry_after_ms,
                    startup_error,
                    processes,
                    concurrency,
                    queue_capacity,
                    queued_calls,
                    active_calls,
                    recent_failures,
                } = status;
                let failures = visible_failures(&entries, id.as_str(), recent_failures, granted);
                let kept = HostStatus {
                    id,
                    lifetime,
                    phase,
                    eager,
                    retry_after_ms,
                    startup_error,
                    processes,
                    concurrency,
                    queue_capacity,
                    queued_calls,
                    active_calls,
                    recent_failures: failures,
                };
                proof {
                    assert(shown_status(o, all[i], kept, granted));
                }
                shown.push(kept);
                proof {
                    let before = kept_hosts(o, ids.take(i), granted);
                    let after = kept_hosts(o, ids.take(i + 1), granted);
                    assert(after == before.push(i));
                    assert forall|k: int| 0 <= k < shown@.len() implies shown_status(o, all[#[trigger] after[k]], shown@[k], granted) by {
                        if k < before.len() {
                            assert(after[k] == before[k]);
                        }
                    }
                }
            } else {
                proof {
                    let before = kept_hosts(o, ids.take(i), granted);
                    let after = kept_hosts(o, ids.take(i + 1), granted);
                    assert(after == before);
                }
            }
        }
        proof {
            assert(ids.take(all.len() as int) =~= ids);
        }
        Ok(CommandCatalogue { entries, hosts: shown })
    }
}

/// Whether a caller sees a command host: every host when it holds no
/// grants, else those that offer it some command.
pub open spec fn host_visible_spec(offered: Seq<OfferedView>, host: Seq<char>, granted: bool) -> bool {
    !granted || exists|k: int| 0 <= k < offered.len() && #[trigger] offered[k].plugin == host
}

/// Whether a failed execution is shown: always without grants, else when it
/// was of a command the caller is offered on that host.
pub open spec fn failure_visible(offered: Seq<OfferedView>, host: Seq<char>, command: Seq<char>, granted: bool) -> bool {
    !granted || exists|k: int| 0 <= k < offered.len() && #[trigger] offered[k].plugin == host && offered[k].endpoint.id == command
}

pub fn host_visible(offered: &Vec<Offered>, host: &str, granted: bool) -> (r: bool)
    ensures
        r == host_visible_spec(offered@.map_values(|o: Offered| o@), host@, granted),
{
    if !granted {
        return true;
    }
    let ghost view = offered@.map_values(|o: Offered| o@);
    let mut k: usize = 0;
    while k < offered.len()
        invariant
            k <= offered@.len(),
            view == offered@.map_values(|o: Offered| o@),
            forall|j: int| 0 <= j < k ==> view[j].plugin != host@,
        decreases offered@.len() - k,
    {
        if text_eq(offered[k].plugin.as_str(), host) {
            proof {
                assert(view[k as int].plugin == host@);
            }
            return true;
        }
        k = k + 1;
    }
    false
}

/// The failures of `host` a caller may see, in their order.
pub fn visible_failures(offered: &Vec<Offered>, host: &str, failures: Vec<ExecutionSnapshot>, granted: bool) -> (r: Vec<ExecutionSnapshot>)
    ensures
        r@.map_values(|x: ExecutionSnapshot| x@) == failures@.map_values(|x: ExecutionSnapshot| x@).filter(
            |x: SnapshotView| failure_visible(offered@.map_values(|o: Offered| o@), host@, x.command, granted),
        ),
{
    let ghost view = offered@.map_values(|o: Offered| o@);
    let ghost all = failures@.map_values(|x: ExecutionSnapshot| x@);
    let ghost keep = |x: SnapshotView| failure_visible(view, host@, x.command, granted);
    let mut out: Vec<ExecutionSnapshot> = Vec::new();
    let mut i: usize = 0;
    proof {
        reveal(Seq::filter);
        assert(all.take(0).filter(keep) =~= Seq::<SnapshotView>::empty());
        assert(out@.map_values(|x: ExecutionSnapshot| x@) =~= Seq::<SnapshotView>::empty());
    }
    while i < failures.len()
        invariant
            i <= failures@.len(),
            view == offered@.map_values(|o: Offered| o@),
            all == failures@.map_values(|x: ExecutionSnapshot| x@),
            keep == (|x: SnapshotView| failure_visible(view, host@, x.command, granted)),
            out@.map_values(|x: ExecutionSnapshot| x@) == all.take(i as int).filter(keep),
        decreases failures@.len() - i,
    {
        let failure = &failures[i];
        proof {
            reveal(Seq::filter);
            assert(all.take(i + 1).drop_last() =~= all.take(i as int));
            assert(all.take(i + 1).last() == failure@);
        }
        let mut shown = !granted;
        let mut k: usize = 0;
        while k < offered.len() && !shown
            invariant
                k <= offered@.len(),
                view == offered@.map_values(|o: Offered| o@),
                shown ==> failure_visible(view, host@, failure.command@, granted),
                !shown ==> granted && forall|j: int| 0 <= j < k ==> !(view[j].plugin == host@ && view[j].endpoint.id == failure.command@),
            decreases offered@.len() - k,
        {
            if text_eq(offered[k].plugin.as_str(), host) && text_eq(offered[k].endpoint.id.as_str(), failure.command.as_str()) {
                proof {
                    assert(view[k as int].plugin == host@ && view[k as int].endpoint.id == failure.command@);
                }
                shown = true;
            }
            k = k + 1;
        }
        if shown {
            let ghost before = out@.map_values(|x: ExecutionSnapshot| x@);
            out.push(failure.duplicate());
            proof {
                assert(out@.map_values(|x: ExecutionSnapshot| x@) =~= before.push(failure@));
            }
        }
        i = i + 1;
    }
    proof {
        assert(all.take(all.len() as int) =~= all);
    }
    out
}

} // verus!

//! Which configured hosts carry on and which are replaced when the host
//! configuration is applied.
use vstd::prelude::*;
use crate::hosts::startup::Lifetime;
use crate::manifest::{named, ManifestStore, PluginManifest};
use crate::refusal::{ErrorCode, Refusal};

verus! {

/// Bounds on one host's admitted work. Durations are nanoseconds.
#[derive(Debug, Clone, Copy, PartialEq, Eq, Structural)]
pub struct ExecutionPolicy {
    /// Executions running at once; at least one.
    pub concurrency: usize,
    /// Executions waiting beyond those running.
    pub queue_capacity: usize,
    pub queue_timeout: u64,
    pub startup_timeout: u64,
    pub execution_timeout: u64,
}

/// How one command host is run.
#[derive(Debug, Clone)]
pub struct HostPolicy {
    pub id: String,
    pub lifetime: Lifetime,
    pub execution: ExecutionPolicy,
}

pub struct HostPolicyView {
    pub id: Seq<char>,
    pub lifetime: Lifetime,
    pub execution: ExecutionPolicy,
}

impl View for HostPolicy {
    type V = HostPolicyView;

    open spec fn view(&self) -> HostPolicyView {
        HostPolicyView { id: self.id@, lifetime: self.lifetime, execution: self.execution }
    }
}

impl HostPolicy {
    pub fn duplicate(&self) -> (r: Self)
        ensures
            r@ == self@,
    {
        HostPolicy { id: self.id.clone(), lifetime: self.lifetime, execution: self.execution }
    }

    /// Whether two policies are the same.
    pub fn same_as(&self, other: &HostPolicy) -> (r: bool)
        ensures
            r == (self@ == other@),
    {
        crate::text::text_eq(self.id.as_str(), other.id.as_str()) && self.lifetime == other.lifetime
            && self.execution == other.execution
    }
}

/// One entry of the host configuration, as read: the policy it describes
/// (or why it describes none), the plugin it names (or why the name is not
/// one), and its encoded settings.
#[derive(Debug)]
pub struct HostConfig {
    pub policy: Result<HostPolicy, String>,
    pub name: Result<String, String>,
    pub settings: Vec<u8>,
}

/// A host that is running now: its policy, settings and the build it runs.
#[derive(Debug)]
pub struct RunningHost {
    pub policy: HostPolicy,
    pub settings: Vec<u8>,
    pub generation: u64,
}

/// A host of the new configuration, and whether the running one with its
/// identity carries on unchanged.
#[derive(Debug)]
pub struct PlannedHost {
    pub policy: HostPolicy,
    pub settings: Vec<u8>,
    pub kept: bool,
}

pub struct PlannedView {
    pub policy: HostPolicyView,
    pub settings: Seq<u8>,
    pub kept: bool,
}

impl View for PlannedHost {
    type V = PlannedView;

    open spec fn view(&self) -> PlannedView {
        PlannedView { policy: self.policy@, settings: self.settings@, kept: self.kept }
    }
}

/// The new configuration: its hosts, in the order configured, and the
/// running hosts that are retired.
#[derive(Debug)]
pub struct Configuration {
    pub hosts: Vec<PlannedHost>,
    pub retired: Vec<String>,
}

/// The running host with identity `id`.
pub open spec fn running_with(running: Seq<RunningHost>, id: Seq<char>) -> Option<RunningHost>
    decreases running.len(),
{
    if running.len() == 0 {
        None
    } else if running[0].policy.id@ == id {
        Some(running[0])
    } else {
        running_with(running.drop_first(), id)
    }
}

/// Whether a planned host has identity `id`.
pub open spec fn plans(planned: Seq<PlannedView>, id: Seq<char>) -> bool {
    exists|k: int| 0 <= k < planned.len() && #[trigger] planned[k].policy.id == id
}

/// Whether a running host with identity `id` carries on.
pub open spec fn keeps(planned: Seq<PlannedView>, id: Seq<char>) -> bool {
    exists|k: int| 0 <= k < planned.len() && #[trigger] planned[k].policy.id == id && planned[k].kept
}

/// Applying the configuration: every entry must describe a policy, not
/// repeat an identity, and name a plugin whose manifest is a command
/// executable; a host whose policy, settings and build are unchanged carries
/// on, any other starts afresh.
pub open spec fn configured(
    running: Seq<RunningHost>,
    configs: Seq<HostConfig>,
    manifests: Seq<PluginManifest>,
    generation: u64,
) -> Result<Seq<PlannedView>, (ErrorCode, Seq<char>)>
    decreases configs.len(),
{
    if configs.len() == 0 {
        Ok(Seq::empty())
    } else {
        match configured(running, configs.drop_last(), manifests, generation) {
            Err(e) => Err(e),
            Ok(planned) => {
                let config = configs.last();
                match config.policy {
                    Err(reason) => Err((ErrorCode::InvalidArgument, reason@)),
                    Ok(policy) => if plans(planned, policy.id@) {
                        Err((ErrorCode::InvalidArgument, "duplicate command host configuration"@))
                    } else {
                        match config.name {
                            Err(reason) => Err((ErrorCode::InvalidArgument, reason@)),
                            Ok(name) => match named(manifests, name@) {
                                None => Err((ErrorCode::InvalidArgument, "unknown command host"@)),
                                Some(manifest) => if !manifest.executable {
                                    Err((ErrorCode::InvalidArgument, "command host is not a command executable"@))
                                } else {
                                    let kept = match running_with(running, policy.id@) {
                                        Some(old) => old.generation == generation && old.policy@
                                            == policy@ && old.settings@ == config.settings@,
                                        None => false,
                                    };
                                    Ok(planned.push(PlannedView { policy: policy@, settings: config.settings@, kept }))
                                },
                            },
                        }
                    },
                }
            },
        }
    }
}

/// The identities of the running hosts that do not carry on, in order.
pub open spec fn retired_of(running: Seq<RunningHost>, planned: Seq<PlannedView>) -> Seq<Seq<char>>
    decreases running.len(),
{
    if running.len() == 0 {
        Seq::empty()
    } else {
        let rest = retired_of(running.drop_last(), planned);
        let id = running.last().policy.id@;
        if keeps(planned, id) {
            rest
        } else {
            rest.push(id)
        }
    }
}

/// Once a prefix of the configuration is refused, so is the whole of it,
/// for the same reason.
proof fn lemma_refusal_stands(
    running: Seq<RunningHost>,
    configs: Seq<HostConfig>,
    manifests: Seq<PluginManifest>,
    generation: u64,
    n: int,
)
    requires
        0 <= n <= configs.len(),
        configured(running, configs.take(n), manifests, generation) is Err,
    ensures
        configured(running, configs, manifests, generation) == configured(running, configs.take(n), manifests, generation),
    decreases configs.len() - n,
{
    if n < configs.len() {
        assert(configs.take(n + 1).drop_last() =~= configs.take(n));
        lemma_refusal_stands(running, configs, manifests, generation, n + 1);
    } else {
        assert(configs.take(n) =~= configs);
    }
}

/// Which running host has identity `id`, if any.
fn find_running(running: &Vec<RunningHost>, id: &str) -> (r: Option<usize>)
    ensures
        match running_with(running@, id@) {
            Some(h) => r matches Some(k) && k < running@.len() && running@[k as int] == h,
            None => r is None,
        },
{
    let mut k: usize = 0;
    proof {
        assert(running@.skip(0) =~= running@);
    }
    while k < running.len()
        invariant
            k <= running@.len(),
            running_with(running@, id@) == running_with(running@.skip(k as int), id@),
        decreases running@.len() - k,
    {
        let ghost rest = running@.skip(k as int);
        proof {
            assert(rest.drop_first() =~= running@.skip(k + 1));
            assert(rest[0] == running@[k as int]);
        }
        if crate::text::text_eq(running[k].policy.id.as_str(), id) {
            return Some(k);
        }
        k = k + 1;
    }
    proof {
        assert(running@.skip(k as int).len() == 0);
    }
    None
}

fn plans_id(planned: &Vec<PlannedHost>, id: &str, kept_only: bool) -> (r: bool)
    ensures
        r == (if kept_only {
            keeps(planned@.map_values(|p: PlannedHost| p@), id@)
        } else {
            plans(planned@.map_values(|p: PlannedHost| p@), id@)
        }),
{
    let ghost view = planned@.map_values(|p: PlannedHost| p@);
    let mut k: usize = 0;
    while k < planned.len()
        invariant
            k <= planned@.len(),
            view == planned@.map_values(|p: PlannedHost| p@),
            forall|j: int| 0 <= j < k ==> !(#[trigger] view[j].policy.id == id@ && (view[j].kept || !kept_only)),
        decreases planned@.len() - k,
    {
        if crate::text::text_eq(planned[k].policy.id.as_str(), id) && (planned[k].kept || !kept_only) {
            proof {
                assert(view[k as int].policy.id == id@);
            }
            return true;
        }
        k = k + 1;
    }
    false
}

/// Apply a host configuration to what is running: which hosts of the new
/// configuration carry on and which running ones are retired. Refused while
/// the process environment is not ready yet, and on the first entry that is
/// not acceptable.
pub fn configure(
    environment_ready: bool,
    running: &Vec<RunningHost>,
    configs: &Vec<HostConfig>,
    manifests: &ManifestStore,
    generation: u64,
) -> (r: Result<Configuration, Refusal>)
    ensures
        !environment_ready ==> (r matches Err(e) && e.code == ErrorCode::FailedPrecondition
            && e.message@ == "command process environment is not initialized"@),
        environment_ready ==> match configured(running@, configs@, manifests.manifests(), generation) {
            Err((code, message)) => r matches Err(e) && e.code == code && e.message@ == message,
            Ok(planned) => r matches Ok(c) && c.hosts@.map_values(|p: PlannedHost| p@) == planned
                && c.retired@.map_values(|s: String| s@) == retired_of(running@, planned),
        },
{
    if !environment_ready {
        return Err(Refusal::precondition("command process environment is not initialized".to_owned()));
    }
    let mut hosts: Vec<PlannedHost> = Vec::new();
    let mut i: usize = 0;
    proof {
        assert(configs@.take(0) =~= Seq::<HostConfig>::empty());
        assert(hosts@.map_values(|p: PlannedHost| p@) =~= Seq::<PlannedView>::empty());
    }
    while i < configs.len()
        invariant
            environment_ready,
            i <= configs@.len(),
            configured(running@, configs@.take(i as int), manifests.manifests(), generation) == Ok::<
                Seq<PlannedView>,
                (ErrorCode, Seq<char>),
            >(hosts@.map_values(|p: PlannedHost| p@)),
        decreases configs@.len() - i,
    {
        let config = &configs[i];
        let ghost prefix = configs@.take(i + 1);
        let ghost before = hosts@.map_values(|p: PlannedHost| p@);
        proof {
            assert(prefix.drop_last() =~= configs@.take(i as int));
            assert(prefix.last() == configs@[i as int]);
        }
        let policy = match &config.policy {
            Ok(policy) => policy,
            Err(reason) => {
                proof {
                    lemma_refusal_stands(running@, configs@, manifests.manifests(), generation, i + 1);
                }
                return Err(Refusal::invalid(reason.as_str().to_owned()));
            },
        };
        if plans_id(&hosts, policy.id.as_str(), false) {
            proof {
                lemma_refusal_stands(running@, configs@, manifests.manifests(), generation, i + 1);
            }
            return Err(Refusal::invalid("duplicate command host configuration".to_owned()));
        }
        let name = match &config.name {
            Ok(name) => name,
            Err(reason) => {
                proof {
                    lemma_refusal_stands(running@, configs@, manifests.manifests(), generation, i + 1);
                }
                return Err(Refusal::invalid(reason.as_str().to_owned()));
            },
        };
        let manifest = match manifests.get(name.as_str()) {
            Some(manifest) => manifest,
            None => {
                proof {
                    lemma_refusal_stands(running@, configs@, manifests.manifests(), generation, i + 1);
                }
                return Err(Refusal::invalid("unknown command host".to_owned()));
            },
        };
        if !manifest.executable {
            proof {
                lemma_refusal_stands(running@, configs@, manifests.manifests(), generation, i + 1);
            }
            return Err(Refusal::invalid("command host is not a command executable".to_owned()));
        }
        let kept = match find_running(running, policy.id.as_str()) {
            Some(k) => {
                let old = &running[k];
                old.generation == generation && old.policy.same_as(policy)
                    && crate::text::bytes_equal(old.settings.as_slice(), config.settings.as_slice())
            },
            None => false,
        };
        hosts.push(PlannedHost { policy: policy.duplicate(), settings: config.settings.clone(), kept });
        proof {
            assert(hosts@.map_values(|p: PlannedHost| p@) =~= before.push(PlannedView {
                policy: policy@,
                settings: config.settings@,
                kept,
            }));
        }
        i = i + 1;
    }
    proof {
        assert(configs@.take(configs@.len() as int) =~= configs@);
    }
    let ghost planned = hosts@.map_values(|p: PlannedHost| p@);
    let mut retired: Vec<String> = Vec::new();
    let mut k: usize = 0;
    proof {
        assert(running@.take(0) =~= Seq::<RunningHost>::empty());
        assert(retired@.map_values(|s: String| s@) =~= Seq::<Seq<char>>::empty());
    }
    while k < running.len()
        invariant
            k <= running@.len(),
            planned == hosts@.map_values(|p: PlannedHost| p@),
            retired@.map_values(|s: String| s@) == retired_of(running@.take(k as int), planned),
        decreases running@.len() - k,
    {
        let ghost prefix = running@.take(k + 1);
        let ghost before = retired@.map_values(|s: String| s@);
        proof {
            assert(prefix.drop_last() =~= running@.take(k as int));
            assert(prefix.last() == running@[k as int]);
        }
        if !plans_id(&hosts, running[k].policy.id.as_str(), true) {
            retired.push(running[k].policy.id.clone());
            proof {
                assert(retired@.map_values(|s: String| s@) =~= before.push(running@[k as int].policy.id@));
            }
        }
        k = k + 1;
    }
    proof {
        assert(running@.take(running@.len() as int) =~= running@);
    }
    Ok(Configuration { hosts, retired })
}

} // verus!

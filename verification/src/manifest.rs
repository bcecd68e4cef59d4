//! The plugin manifests the daemon vouches for: what each plugin's build
//! declares, as far as the daemon's decisions read it.
use vstd::prelude::*;

verus! {

/// The shape a command takes or gives.
#[derive(Debug, Clone, Copy, PartialEq, Eq)]
pub enum ValueShape {
    /// Any value; nothing is checked.
    Opaque,
    /// No value at all.
    Unit,
    /// Exactly one value of a declared type.
    Typed,
}

/// One command a plugin serves.
#[derive(Debug, Clone)]
pub struct CommandEndpoint {
    pub id: String,
    /// The contract a caller has to present to use it.
    pub signature: Vec<u8>,
    pub input: Option<ValueShape>,
    pub output: Option<ValueShape>,
}

pub struct EndpointView {
    pub id: Seq<char>,
    pub signature: Seq<u8>,
    pub input: Option<ValueShape>,
    pub output: Option<ValueShape>,
}

impl View for CommandEndpoint {
    type V = EndpointView;

    open spec fn view(&self) -> EndpointView {
        EndpointView {
            id: self.id@,
            signature: self.signature@,
            input: self.input,
            output: self.output,
        }
    }
}

/// A plugin's canonical manifest and the hash a peer must present to claim it.
#[derive(Debug, Clone)]
pub struct PluginManifest {
    pub name: String,
    pub hash: String,
    pub commands: Vec<CommandEndpoint>,
    /// The plugin is a command executable, started per configured host.
    pub executable: bool,
}

pub struct ManifestView {
    pub hash: Seq<char>,
    pub commands: Seq<EndpointView>,
    pub executable: bool,
}

impl View for PluginManifest {
    type V = ManifestView;

    open spec fn view(&self) -> ManifestView {
        ManifestView {
            hash: self.hash@,
            commands: self.commands@.map_values(|e: CommandEndpoint| e@),
            executable: self.executable,
        }
    }
}

impl CommandEndpoint {
    pub fn duplicate(&self) -> (r: Self)
        ensures
            r@ == self@,
    {
        CommandEndpoint {
            id: self.id.clone(),
            signature: self.signature.clone(),
            input: self.input,
            output: self.output,
        }
    }
}

impl PluginManifest {
    /// A copy of this manifest.
    pub fn duplicate(&self) -> (r: Self)
        ensures
            r@ == self@,
            r.name@ == self.name@,
    {
        let mut commands: Vec<CommandEndpoint> = Vec::new();
        let mut i: usize = 0;
        while i < self.commands.len()
            invariant
                i <= self.commands@.len(),
                commands@.len() == i,
                forall|k: int| 0 <= k < i ==> #[trigger] commands@[k]@ == self.commands@[k]@,
            decreases self.commands.len() - i,
        {
            commands.push(self.commands[i].duplicate());
            i = i + 1;
        }
        proof {
            assert(commands@.map_values(|e: CommandEndpoint| e@) =~= self.commands@.map_values(
                |e: CommandEndpoint| e@,
            ));
        }
        PluginManifest { name: self.name.clone(), hash: self.hash.clone(), commands, executable: self.executable }
    }
}

/// The last of the manifests named `name`, as a table keyed by name keeps
/// it when later entries replace earlier ones.
pub open spec fn named(manifests: Seq<PluginManifest>, name: Seq<char>) -> Option<PluginManifest>
    decreases manifests.len(),
{
    if manifests.len() == 0 {
        None
    } else if manifests.last().name@ == name {
        Some(manifests.last())
    } else {
        named(manifests.drop_last(), name)
    }
}

/// Plugins keyed by name. Immutable after load.
#[derive(Debug)]
pub struct ManifestStore {
    plugins: Vec<PluginManifest>,
}

impl ManifestStore {
    /// The manifests in the order they were given.
    pub closed spec fn manifests(&self) -> Seq<PluginManifest> {
        self.plugins@
    }

    /// A store of these manifests; of several with one name the last wins.
    pub fn from_manifests(manifests: Vec<PluginManifest>) -> (r: Self)
        ensures
            r.manifests() == manifests@,
    {
        ManifestStore { plugins: manifests }
    }

    /// The manifest of the plugin called `name`.
    pub fn get(&self, name: &str) -> (r: Option<&PluginManifest>)
        ensures
            match named(self.manifests(), name@) {
                Some(m) => r matches Some(found) && *found == m,
                None => r is None,
            },
    {
        let mut k = self.plugins.len();
        proof {
            assert(self.plugins@.take(k as int) =~= self.plugins@);
        }
        while k > 0
            invariant
                k <= self.plugins@.len(),
                named(self.plugins@, name@) == named(self.plugins@.take(k as int), name@),
            decreases k,
        {
            let ghost prefix = self.plugins@.take(k as int);
            proof {
                assert(prefix.drop_last() =~= self.plugins@.take(k - 1));
                assert(prefix.last() == self.plugins@[k - 1]);
            }
            if crate::text::text_eq(self.plugins[k - 1].name.as_str(), name) {
                return Some(&self.plugins[k - 1]);
            }
            k = k - 1;
        }
        None
    }

    /// How many manifests were given.
    pub fn len(&self) -> (r: usize)
        ensures
            r == self.manifests().len(),
    {
        self.plugins.len()
    }

    /// The manifest given at position `i`.
    pub fn at(&self, i: usize) -> (r: &PluginManifest)
        requires
            i < self.manifests().len(),
        ensures
            *r == self.manifests()[i as int],
    {
        &self.plugins[i]
    }
}

} // verus!

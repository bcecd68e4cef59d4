//! `Cargo.toml`: the dependency shapes a generator declares and writes, and
//! the patch table of `.cargo/config.toml`.
//!
//! Keys that are not modelled are carried as key and TOML text, so that a
//! table written back keeps them.
use vstd::prelude::*;

verus! {

/// The table shape of a dependency entry.
#[derive(Debug, Clone, PartialEq, Eq)]
pub struct DependencyDetail {
    pub version: Option<String>,
    pub path: Option<String>,
    pub git: Option<String>,
    pub tag: Option<String>,
    pub features: Option<Vec<String>>,
    pub workspace: Option<bool>,
    /// `optional`, `default-features`, … kept verbatim.
    pub rest: Vec<(String, String)>,
}

/// A dependency entry, in either shape Cargo accepts: the bare version
/// string, or a table.
#[derive(Debug, Clone, PartialEq, Eq)]
pub enum Dependency {
    Version(String),
    Detailed(DependencyDetail),
}

pub open spec fn opt_text(o: Option<String>) -> Option<Seq<char>> {
    match o {
        Some(s) => Some(s@),
        None => None,
    }
}

/// The features list written for these features: none when there are none.
pub open spec fn features_spec(features: Seq<&str>) -> Option<Seq<Seq<char>>> {
    if features.len() == 0 {
        None
    } else {
        Some(features.map_values(|f: &str| f@))
    }
}

pub open spec fn features_view(f: Option<Vec<String>>) -> Option<Seq<Seq<char>>> {
    match f {
        Some(v) => Some(v@.map_values(|s: String| s@)),
        None => None,
    }
}

impl DependencyDetail {
    /// Nothing set.
    pub fn empty() -> (r: Self)
        ensures
            r.version is None && r.path is None && r.git is None && r.tag is None && r.features is None && r.workspace is None
                && r.rest@.len() == 0,
    {
        DependencyDetail { version: None, path: None, git: None, tag: None, features: None, workspace: None, rest: Vec::new() }
    }

    /// The features written for a list: none for an empty one.
    pub fn features(features: &[&str]) -> (r: Option<Vec<String>>)
        ensures
            features_view(r) == features_spec(features@),
    {
        if features.len() == 0 {
            return None;
        }
        let mut out: Vec<String> = Vec::new();
        let mut k: usize = 0;
        while k < features.len()
            invariant
                k <= features@.len(),
                out@.map_values(|s: String| s@) == features@.take(k as int).map_values(|f: &str| f@),
            decreases features@.len() - k,
        {
            let feature: &str = features[k];
            let owned = feature.to_owned();
            proof {
                assert(owned@ == features@[k as int]@);
            }
            let ghost prior = out@;
            out.push(owned);
            proof {
                assert(out@ == prior.push(owned));
                assert(out@.map_values(|s: String| s@) =~= prior.map_values(|s: String| s@).push(owned@));
                assert(features@.take(k + 1).map_values(|f: &str| f@) =~= features@.take(k as int).map_values(|f: &str| f@).push(
                    features@[k as int]@,
                ));
                assert(out@.map_values(|s: String| s@) =~= features@.take(k + 1).map_values(|f: &str| f@));
            }
            k = k + 1;
        }
        proof {
            assert(features@.take(features@.len() as int) =~= features@);
        }
        Some(out)
    }
}

impl Dependency {
    /// `{ workspace = true }`: inherits from the workspace manifest.
    pub fn inherited() -> (r: Self)
        ensures
            r matches Dependency::Detailed(d) && d.workspace == Some(true) && d.version is None && d.path is None && d.git is None
                && d.tag is None && d.features is None && d.rest@.len() == 0,
    {
        let mut d = DependencyDetail::empty();
        d.workspace = Some(true);
        Dependency::Detailed(d)
    }

    /// A registry requirement: the bare string when there are no features,
    /// the table shape when there are.
    pub fn registry(version: &str, features: &[&str]) -> (r: Self)
        ensures
            features@.len() == 0 ==> (r matches Dependency::Version(v) && v@ == version@),
            features@.len() > 0 ==> (r matches Dependency::Detailed(d) && opt_text(d.version) == Some(version@)
                && features_view(d.features) == features_spec(features@) && d.path is None && d.git is None && d.tag is None
                && d.workspace is None && d.rest@.len() == 0),
    {
        match DependencyDetail::features(features) {
            None => Dependency::Version(version.to_owned()),
            Some(list) => {
                let mut d = DependencyDetail::empty();
                d.version = Some(version.to_owned());
                d.features = Some(list);
                Dependency::Detailed(d)
            },
        }
    }

    /// `{ path = "..." }`: a local path dependency.
    pub fn local(path: &str, features: &[&str]) -> (r: Self)
        ensures
            r matches Dependency::Detailed(d) && opt_text(d.path) == Some(path@) && features_view(d.features) == features_spec(features@)
                && d.version is None && d.git is None && d.tag is None && d.workspace is None && d.rest@.len() == 0,
    {
        let mut d = DependencyDetail::empty();
        d.path = Some(path.to_owned());
        d.features = DependencyDetail::features(features);
        Dependency::Detailed(d)
    }

    /// `{ git = "...", tag = "..." }`: a dependency that resolves on any
    /// machine.
    pub fn git(url: &str, tag: &str, features: &[&str]) -> (r: Self)
        ensures
            r matches Dependency::Detailed(d) && opt_text(d.git) == Some(url@) && opt_text(d.tag) == Some(tag@)
                && features_view(d.features) == features_spec(features@) && d.version is None && d.path is None && d.workspace is None
                && d.rest@.len() == 0,
    {
        let mut d = DependencyDetail::empty();
        d.git = Some(url.to_owned());
        d.tag = Some(tag.to_owned());
        d.features = DependencyDetail::features(features);
        Dependency::Detailed(d)
    }

    pub fn version(&self) -> (r: Option<&String>)
        ensures
            match self {
                Dependency::Version(v) => r matches Some(t) && t@ == v@,
                Dependency::Detailed(d) => match d.version {
                    Some(v) => r matches Some(t) && t@ == v@,
                    None => r is None,
                },
            },
    {
        match self {
            Dependency::Version(v) => Some(v),
            Dependency::Detailed(d) => d.version.as_ref(),
        }
    }

    pub fn path(&self) -> (r: Option<&String>)
        ensures
            match self {
                Dependency::Version(_) => r is None,
                Dependency::Detailed(d) => match d.path {
                    Some(v) => r matches Some(t) && t@ == v@,
                    None => r is None,
                },
            },
    {
        match self {
            Dependency::Version(_) => None,
            Dependency::Detailed(d) => d.path.as_ref(),
        }
    }

    pub fn repository(&self) -> (r: Option<&String>)
        ensures
            match self {
                Dependency::Version(_) => r is None,
                Dependency::Detailed(d) => match d.git {
                    Some(v) => r matches Some(t) && t@ == v@,
                    None => r is None,
                },
            },
    {
        match self {
            Dependency::Version(_) => None,
            Dependency::Detailed(d) => d.git.as_ref(),
        }
    }

    pub fn is_inherited(&self) -> (r: bool)
        ensures
            r == (self matches Dependency::Detailed(d) && d.workspace == Some(true)),
    {
        match self {
            Dependency::Detailed(d) => match d.workspace {
                Some(w) => w,
                None => false,
            },
            Dependency::Version(_) => false,
        }
    }
}

/// Where a generated dependency comes from.
#[derive(Debug, Clone, Copy, PartialEq, Eq)]
pub enum DependencySource {
    /// A crates.io requirement.
    Registry(&'static str),
    /// One of omega's own crates, path-resolved against the source tree.
    OmegaCrate,
}

/// One line of a generator's dependency table.
#[derive(Debug, Clone, Copy)]
pub struct DependencySpec {
    pub name: &'static str,
    pub source: DependencySource,
    pub features: &'static [&'static str],
}

impl DependencySpec {
    pub fn registry(name: &'static str, version: &'static str) -> (r: Self)
        ensures
            r.name == name,
            r.source == DependencySource::Registry(version),
            r.features@.len() == 0,
    {
        DependencySpec { name, source: DependencySource::Registry(version), features: &[] }
    }

    pub fn omega(name: &'static str) -> (r: Self)
        ensures
            r.name == name,
            r.source == DependencySource::OmegaCrate,
            r.features@.len() == 0,
    {
        DependencySpec { name, source: DependencySource::OmegaCrate, features: &[] }
    }

    pub fn with_features(self, features: &'static [&'static str]) -> (r: Self)
        ensures
            r.name == self.name,
            r.source == self.source,
            r.features == features,
    {
        DependencySpec { features, ..self }
    }

    /// The `{ workspace = true }` entry a member crate uses to inherit this
    /// dependency.
    pub fn inherited(&self) -> (r: (&'static str, Dependency))
        ensures
            r.0 == self.name,
            r.1 matches Dependency::Detailed(d) && d.workspace == Some(true) && d.version is None && d.path is None && d.git is None
                && d.tag is None && d.features is None && d.rest@.len() == 0,
    {
        (self.name, Dependency::inherited())
    }
}

/// The source name a crates.io dependency is patched under.
pub const REGISTRY: &'static str = "crates-io";

/// `.cargo/config.toml`: the `[patch]` tables, by source name, each a table
/// of crate name to dependency, and everything else kept verbatim.
#[derive(Debug, Clone)]
pub struct CargoConfig {
    pub patch: Vec<(String, Vec<(String, Dependency)>)>,
    pub rest: Vec<(String, String)>,
}

pub open spec fn source_named(patch: Seq<(String, Vec<(String, Dependency)>)>, name: Seq<char>) -> Option<int>
    decreases patch.len(),
{
    if patch.len() == 0 {
        None
    } else if patch.last().0@ == name {
        Some(patch.len() - 1)
    } else {
        source_named(patch.drop_last(), name)
    }
}

impl CargoConfig {
    /// The crates currently replaced by a local path.
    pub fn patched(&self) -> (r: Option<&Vec<(String, Dependency)>>)
        ensures
            match source_named(self.patch@, REGISTRY@) {
                Some(i) => r matches Some(t) && *t == self.patch@[i].1,
                None => r is None,
            },
    {
        let mut k = self.patch.len();
        proof {
            assert(self.patch@.take(k as int) =~= self.patch@);
        }
        while k > 0
            invariant
                k <= self.patch@.len(),
                source_named(self.patch@, REGISTRY@) == source_named(self.patch@.take(k as int), REGISTRY@),
            decreases k,
        {
            proof {
                assert(self.patch@.take(k as int).drop_last() =~= self.patch@.take(k - 1));
                assert(self.patch@.take(k as int).last() == self.patch@[k - 1]);
            }
            if crate::text::text_eq(self.patch[k - 1].0.as_str(), REGISTRY) {
                return Some(&self.patch[k - 1].1);
            }
            k = k - 1;
        }
        None
    }

    /// Replace the whole crates.io patch table: linking is a statement about
    /// where the crates come from, not an addition to earlier ones. An empty
    /// table removes the patch.
    pub fn replace_patch(&mut self, patched: Vec<(String, Dependency)>)
        ensures
            forall|i: int| 0 <= i < final(self).patch@.len() ==> (#[trigger] final(self).patch@[i]).0@ != REGISTRY@ || (
                patched@.len() > 0 && final(self).patch@[i].1 == patched),
            patched@.len() > 0 <==> source_named(final(self).patch@, REGISTRY@) is Some,
            forall|i: int| 0 <= i < old(self).patch@.len() && (#[trigger] old(self).patch@[i]).0@ != REGISTRY@ ==> final(self).patch@.contains(
                old(self).patch@[i],
            ),
            forall|i: int| 0 <= i < final(self).patch@.len() && (#[trigger] final(self).patch@[i]).0@ != REGISTRY@ ==> old(self).patch@.contains(
                final(self).patch@[i],
            ),
            final(self).rest == old(self).rest,
    {
        let mut kept: Vec<(String, Vec<(String, Dependency)>)> = Vec::new();
        let mut patch = Vec::new();
        std::mem::swap(&mut patch, &mut self.patch);
        let ghost all = patch@;
        let total = patch.len();
        proof {
            assert(all.len() == total);
        }
        let mut k: usize = 0;
        while patch.len() > 0
            invariant
                all.len() <= usize::MAX,
                k + patch@.len() == all.len(),
                patch@ == all.skip(k as int),
                forall|i: int| 0 <= i < kept@.len() ==> (#[trigger] kept@[i]).0@ != REGISTRY@ && all.contains(kept@[i]),
                forall|i: int| 0 <= i < k && (#[trigger] all[i]).0@ != REGISTRY@ ==> kept@.contains(all[i]),
            decreases patch@.len(),
        {
            let entry = patch.remove(0);
            proof {
                assert(entry == all[k as int]);
                assert(patch@ =~= all.skip(k + 1));
            }
            if !crate::text::text_eq(entry.0.as_str(), REGISTRY) {
                let ghost e = entry;
                let ghost prior = kept@;
                kept.push(entry);
                proof {
                    assert(kept@ == prior.push(e));
                    assert forall|i: int| 0 <= i < k + 1 && (#[trigger] all[i]).0@ != REGISTRY@ implies kept@.contains(all[i]) by {
                        if i == k {
                            assert(kept@[kept@.len() - 1] == all[i]);
                        } else {
                            assert(prior.contains(all[i]));
                            let j = choose|j: int| 0 <= j < prior.len() && prior[j] == all[i];
                            assert(kept@[j] == prior[j]);
                        }
                    }
                    assert forall|i: int| 0 <= i < kept@.len() implies (#[trigger] kept@[i]).0@ != REGISTRY@ && all.contains(kept@[i]) by {
                        if i < prior.len() {
                            assert(kept@[i] == prior[i]);
                        } else {
                            assert(all[k as int] == e);
                        }
                    }
                }
            } else {
                proof {
                    assert forall|i: int| 0 <= i < k + 1 && (#[trigger] all[i]).0@ != REGISTRY@ implies kept@.contains(all[i]) by {}
                }
            }
            k = k + 1;
        }
        let nonempty = patched.len() > 0;
        if nonempty {
            let ghost before = kept@;
            kept.push((REGISTRY.to_owned(), patched));
            proof {
                assert forall|i: int| 0 <= i < before.len() implies kept@[i] == before[i] by {}
                assert(source_named(kept@, REGISTRY@) == Some(kept@.len() - 1));
            }
        } else {
            proof {
                lemma_no_source(kept@, REGISTRY@);
            }
        }
        self.patch = kept;
    }

    pub fn is_empty(&self) -> (r: bool)
        ensures
            r == (self.patch@.len() == 0 && self.rest@.len() == 0),
    {
        self.patch.len() == 0 && self.rest.len() == 0
    }
}

proof fn lemma_no_source(patch: Seq<(String, Vec<(String, Dependency)>)>, name: Seq<char>)
    requires
        forall|i: int| 0 <= i < patch.len() ==> (#[trigger] patch[i]).0@ != name,
    ensures
        source_named(patch, name) is None,
    decreases patch.len(),
{
    if patch.len() > 0 {
        assert forall|i: int| 0 <= i < patch.drop_last().len() implies (#[trigger] patch.drop_last()[i]).0@ != name by {
            assert(patch.drop_last()[i] == patch[i]);
        }
        lemma_no_source(patch.drop_last(), name);
    }
}

} // verus!

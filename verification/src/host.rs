//! The config tree on disk: stages that replace a directory in one rename,
//! and which filesystem events count as changes to it.
use vstd::prelude::*;
use std::path::PathBuf;

verus! {

/// A directory built off to the side that replaces its target in one rename.
/// Until it is committed, dropping it discards the stage.
#[derive(Debug)]
pub struct StageDir {
    final_dir: PathBuf,
    staging: PathBuf,
    committed: bool,
}

impl StageDir {
    pub closed spec fn is_committed(&self) -> bool {
        self.committed
    }

    pub closed spec fn stage_path(&self) -> PathBuf {
        self.staging
    }

    pub closed spec fn target_path(&self) -> PathBuf {
        self.final_dir
    }

    /// A stage at `staging` for `final_dir`, not committed.
    pub fn new(final_dir: PathBuf, staging: PathBuf) -> (r: Self)
        ensures
            !r.is_committed(),
            r.stage_path() == staging,
            r.target_path() == final_dir,
    {
        StageDir { final_dir, staging, committed: false }
    }

    /// Where the stage is built.
    pub fn path(&self) -> (r: &PathBuf)
        ensures
            *r == self.stage_path(),
    {
        &self.staging
    }

    /// The directory it replaces.
    pub fn target(&self) -> (r: &PathBuf)
        ensures
            *r == self.target_path(),
    {
        &self.final_dir
    }

    /// The stage is in place.
    pub fn committed(&mut self)
        ensures
            final(self).is_committed(),
            final(self).stage_path() == old(self).stage_path(),
            final(self).target_path() == old(self).target_path(),
    {
        self.committed = true;
    }

    /// Whether the stage has to be removed when it is let go: it was never
    /// committed.
    pub fn discards(&self) -> (r: bool)
        ensures
            r == !self.is_committed(),
    {
        !self.committed
    }
}

/// What a filesystem event did.
#[derive(Debug, Clone, Copy, PartialEq, Eq, Structural)]
pub enum EventKind {
    Create,
    Remove,
    Modify,
    Access,
    Any,
    Other,
}

/// Directories a config tree contains but does not consist of.
pub open spec fn ignored_name(name: Seq<char>) -> bool {
    name == "target"@ || name == ".git"@ || name == ".jj"@ || name == "node_modules"@
}

/// Whether an event counts as a change to the config tree: it altered the
/// tree (reading is no change, or a rebuild would trigger itself), and none
/// of its paths lies under an ignored directory.
pub open spec fn counts_spec(kind: EventKind, paths: Seq<Seq<Seq<char>>>) -> bool {
    (kind == EventKind::Create || kind == EventKind::Remove || kind == EventKind::Modify) && !exists|p: int, c: int|
        0 <= p < paths.len() && 0 <= c < paths[p].len() && ignored_name(#[trigger] paths[p][c])
}

/// What counts as a change: an event that creates, removes or modifies
/// something counts unless one of its paths passes through a `target`,
/// `.git`, `.jj` or `node_modules` directory; reading a file, or an event
/// of no such kind, never counts. In particular an edit of an existing file
/// anywhere else triggers a rebuild.
pub proof fn edits_outside_ignored_directories_count(kind: EventKind, paths: Seq<Seq<Seq<char>>>)
    ensures
        (kind == EventKind::Create || kind == EventKind::Remove || kind == EventKind::Modify) && (forall|p: int, c: int|
            0 <= p < paths.len() && 0 <= c < paths[p].len() ==> {
                let n = #[trigger] paths[p][c];
                n != "target"@ && n != ".git"@ && n != ".jj"@ && n != "node_modules"@
            }) ==> counts_spec(kind, paths),
        (kind == EventKind::Access || kind == EventKind::Any || kind == EventKind::Other) ==> !counts_spec(kind, paths),
        (exists|p: int, c: int| 0 <= p < paths.len() && 0 <= c < paths[p].len() && #[trigger] paths[p][c] == "target"@)
            ==> !counts_spec(kind, paths),
{
}

fn is_ignored(name: &str) -> (r: bool)
    ensures
        r == ignored_name(name@),
{
    crate::text::text_eq(name, "target") || crate::text::text_eq(name, ".git") || crate::text::text_eq(name, ".jj")
        || crate::text::text_eq(name, "node_modules")
}

/// Whether an event counts, given the components of each path it names.
pub fn counts(kind: EventKind, paths: &Vec<Vec<String>>) -> (r: bool)
    ensures
        r == counts_spec(kind, paths@.map_values(|p: Vec<String>| p@.map_values(|s: String| s@))),
{
    let ghost view = paths@.map_values(|p: Vec<String>| p@.map_values(|s: String| s@));
    match kind {
        EventKind::Create | EventKind::Remove | EventKind::Modify => {},
        _ => {
            return false;
        },
    }
    let mut p: usize = 0;
    while p < paths.len()
        invariant
            p <= paths@.len(),
            view == paths@.map_values(|p: Vec<String>| p@.map_values(|s: String| s@)),
            forall|a: int, c: int| 0 <= a < p && 0 <= c < view[a].len() ==> !ignored_name(#[trigger] view[a][c]),
        decreases paths@.len() - p,
    {
        let components = &paths[p];
        let mut c: usize = 0;
        while c < components.len()
            invariant
                p < paths@.len(),
                c <= components@.len(),
                view == paths@.map_values(|p: Vec<String>| p@.map_values(|s: String| s@)),
                components@ == paths@[p as int]@,
                forall|a: int, d: int| 0 <= a < p && 0 <= d < view[a].len() ==> !ignored_name(#[trigger] view[a][d]),
                forall|d: int| 0 <= d < c ==> !ignored_name(#[trigger] view[p as int][d]),
            decreases components@.len() - c,
        {
            if is_ignored(components[c].as_str()) {
                proof {
                    assert(view[p as int][c as int] == components@[c as int]@);
                }
                return false;
            }
            proof {
                assert(view[p as int][c as int] == components@[c as int]@);
            }
            c = c + 1;
        }
        p = p + 1;
    }
    true
}

} // verus!

//! Reconcile the specifications installed in each live unit session.
//!
//! Settings and presentation specifications are compared in their canonical
//! encoding.
use vstd::prelude::*;
use crate::reconcile::{Action, ProviderError};
use crate::refusal::compose;

verus! {

/// One instance of a surface: its unit, the surface, and the module slot it
/// fills (none for a transient presentation).
#[derive(Debug, Clone)]
pub struct SurfaceRef {
    pub plugin: String,
    pub surface: String,
    pub module: Option<String>,
}

pub struct SurfaceKey {
    pub plugin: Seq<char>,
    pub surface: Seq<char>,
    pub module: Option<Seq<char>>,
}

impl View for SurfaceRef {
    type V = SurfaceKey;

    open spec fn view(&self) -> SurfaceKey {
        SurfaceKey {
            plugin: self.plugin@,
            surface: self.surface@,
            module: match self.module {
                Some(m) => Some(m@),
                None => None,
            },
        }
    }
}

impl SurfaceRef {
    /// One instance of a surface, as the document declared it.
    pub fn module(plugin: String, surface: String, module: String) -> (r: Self)
        ensures
            r@ == (SurfaceKey { plugin: plugin@, surface: surface@, module: Some(module@) }),
    {
        SurfaceRef { plugin, surface, module: Some(module) }
    }

    pub fn duplicate(&self) -> (r: Self)
        ensures
            r@ == self@,
    {
        SurfaceRef {
            plugin: self.plugin.clone(),
            surface: self.surface.clone(),
            module: match &self.module {
                Some(m) => Some(m.clone()),
                None => None,
            },
        }
    }

    /// Whether two references name the same instance.
    pub fn same(&self, other: &SurfaceRef) -> (r: bool)
        ensures
            r == (self@ == other@),
    {
        if !crate::text::text_eq(self.plugin.as_str(), other.plugin.as_str()) || !crate::text::text_eq(
            self.surface.as_str(),
            other.surface.as_str(),
        ) {
            return false;
        }
        match (&self.module, &other.module) {
            (Some(a), Some(b)) => crate::text::text_eq(a.as_str(), b.as_str()),
            (None, None) => true,
            _ => false,
        }
    }
}

fn same_anchor(a: &Option<SurfaceRef>, b: &Option<SurfaceRef>) -> (r: bool)
    ensures
        r == (anchor_key(*a) == anchor_key(*b)),
{
    match (a, b) {
        (Some(x), Some(y)) => x.same(y),
        (None, None) => true,
        _ => false,
    }
}

pub open spec fn anchor_key(a: Option<SurfaceRef>) -> Option<SurfaceKey> {
    match a {
        Some(r) => Some(r@),
        None => None,
    }
}

/// Desired construction facts. An absent presentation leaves bar and popup
/// policy to apply.
#[derive(Debug, Clone)]
pub struct DesiredInstance {
    pub config: Vec<u8>,
    pub presentation: Option<Vec<u8>>,
    pub anchor: Option<SurfaceRef>,
}

/// What a live unit session has installed for one address.
#[derive(Debug, Clone)]
pub struct InstalledInstance {
    pub config: Vec<u8>,
    pub presentation: Vec<u8>,
    pub anchor: Option<SurfaceRef>,
}

/// One change to an instance.
#[derive(Debug)]
pub struct InstanceChange {
    pub action: Action,
    pub address: SurfaceRef,
    pub config: Vec<u8>,
    pub presentation: Option<Vec<u8>>,
    pub anchor: Option<SurfaceRef>,
}

pub struct ChangeView {
    pub action: Action,
    pub address: SurfaceKey,
    pub config: Seq<u8>,
    pub presentation: Option<Seq<u8>>,
    pub anchor: Option<SurfaceKey>,
}

impl View for InstanceChange {
    type V = ChangeView;

    open spec fn view(&self) -> ChangeView {
        ChangeView {
            action: self.action,
            address: self.address@,
            config: self.config@,
            presentation: match self.presentation {
                Some(p) => Some(p@),
                None => None,
            },
            anchor: anchor_key(self.anchor),
        }
    }
}

/// The installed instance at an address.
pub open spec fn installed_at(installed: Seq<(SurfaceRef, InstalledInstance)>, address: SurfaceKey) -> Option<InstalledInstance>
    decreases installed.len(),
{
    if installed.len() == 0 {
        None
    } else if installed[0].0@ == address {
        Some(installed[0].1)
    } else {
        installed_at(installed.drop_first(), address)
    }
}

/// Whether what is installed differs from what is declared: another anchor,
/// other settings, or another presentation where one is declared.
pub open spec fn differs(current: InstalledInstance, declared: DesiredInstance) -> bool {
    anchor_key(current.anchor) != anchor_key(declared.anchor) || current.config@ != declared.config@ || (
    declared.presentation matches Some(p) && current.presentation@ != p@)
}

/// The changes the declarations need, in declaration order.
pub open spec fn declared_changes(desired: Seq<(SurfaceRef, DesiredInstance)>, installed: Seq<(SurfaceRef, InstalledInstance)>) -> Seq<ChangeView>
    decreases desired.len(),
{
    if desired.len() == 0 {
        Seq::empty()
    } else {
        let rest = declared_changes(desired.drop_last(), installed);
        let (address, d) = desired.last();
        match installed_at(installed, address@) {
            Some(current) => if differs(current, d) {
                rest.push(ChangeView {
                    action: Action::Update,
                    address: address@,
                    config: d.config@,
                    presentation: match d.presentation {
                        Some(p) => Some(p@),
                        None => None,
                    },
                    anchor: anchor_key(d.anchor),
                })
            } else {
                rest
            },
            None => rest.push(ChangeView {
                action: Action::Create,
                address: address@,
                config: d.config@,
                presentation: match d.presentation {
                    Some(p) => Some(p@),
                    None => None,
                },
                anchor: anchor_key(d.anchor),
            }),
        }
    }
}

/// Whether an address is declared.
pub open spec fn declares(desired: Seq<(SurfaceRef, DesiredInstance)>, address: SurfaceKey) -> bool {
    exists|k: int| 0 <= k < desired.len() && (#[trigger] desired[k]).0@ == address
}

/// Deletions of what is installed and no longer declared, in installed order.
pub open spec fn deletions(desired: Seq<(SurfaceRef, DesiredInstance)>, installed: Seq<(SurfaceRef, InstalledInstance)>) -> Seq<ChangeView>
    decreases installed.len(),
{
    if installed.len() == 0 {
        Seq::empty()
    } else {
        let rest = deletions(desired, installed.drop_last());
        let address = installed.last().0;
        if declares(desired, address@) {
            rest
        } else {
            rest.push(ChangeView {
                action: Action::Delete,
                address: address@,
                config: Seq::empty(),
                presentation: None,
                anchor: None,
            })
        }
    }
}

/// The plan: declared changes, then deletions, with every change that
/// anchors to another instance moved after all that do not, order otherwise
/// kept, so that an anchor exists before its popup is configured.
pub open spec fn plan_spec(desired: Seq<(SurfaceRef, DesiredInstance)>, installed: Seq<(SurfaceRef, InstalledInstance)>) -> Seq<ChangeView> {
    let all = declared_changes(desired, installed) + deletions(desired, installed);
    all.filter(|c: ChangeView| c.anchor is None) + all.filter(|c: ChangeView| c.anchor is Some)
}

fn installed_position(installed: &Vec<(SurfaceRef, InstalledInstance)>, address: &SurfaceRef) -> (r: Option<usize>)
    ensures
        match installed_at(installed@, address@) {
            Some(i) => r matches Some(k) && k < installed@.len() && installed@[k as int].1 == i,
            None => r is None,
        },
{
    let mut k: usize = 0;
    proof {
        assert(installed@.skip(0) =~= installed@);
    }
    while k < installed.len()
        invariant
            k <= installed@.len(),
            installed_at(installed@, address@) == installed_at(installed@.skip(k as int), address@),
        decreases installed@.len() - k,
    {
        let ghost rest = installed@.skip(k as int);
        proof {
            assert(rest.drop_first() =~= installed@.skip(k + 1));
            assert(rest[0] == installed@[k as int]);
        }
        if installed[k].0.same(address) {
            return Some(k);
        }
        k = k + 1;
    }
    proof {
        assert(installed@.skip(k as int).len() == 0);
    }
    None
}

fn copy_bytes(b: &Vec<u8>) -> (r: Vec<u8>)
    ensures
        r@ == b@,
{
    let mut out: Vec<u8> = Vec::new();
    let mut k: usize = 0;
    while k < b.len()
        invariant
            k <= b@.len(),
            out@ == b@.take(k as int),
        decreases b@.len() - k,
    {
        out.push(b[k]);
        proof {
            assert(out@ =~= b@.take(k + 1));
        }
        k = k + 1;
    }
    proof {
        assert(b@.take(b@.len() as int) =~= b@);
    }
    out
}

fn copy_anchor(a: &Option<SurfaceRef>) -> (r: Option<SurfaceRef>)
    ensures
        anchor_key(r) == anchor_key(*a),
{
    match a {
        Some(x) => Some(x.duplicate()),
        None => None,
    }
}

/// Plans for the instances live unit sessions have installed.
pub struct PresentationProvider;

impl PresentationProvider {
    /// Compare supplied facts without reading runtime state or interpreting
    /// host payloads.
    pub fn plan(desired: &Vec<(SurfaceRef, DesiredInstance)>, installed: &Vec<(SurfaceRef, InstalledInstance)>) -> (r: Vec<InstanceChange>)
        ensures
            r@.map_values(|c: InstanceChange| c@) == plan_spec(desired@, installed@),
    {
        let mut all: Vec<InstanceChange> = Vec::new();
        let mut k: usize = 0;
        proof {
            assert(desired@.take(0) =~= Seq::<(SurfaceRef, DesiredInstance)>::empty());
            assert(all@.map_values(|c: InstanceChange| c@) =~= Seq::<ChangeView>::empty());
        }
        while k < desired.len()
            invariant
                k <= desired@.len(),
                all@.map_values(|c: InstanceChange| c@) == declared_changes(desired@.take(k as int), installed@),
            decreases desired@.len() - k,
        {
            let (address, declaration) = (&desired[k].0, &desired[k].1);
            proof {
                assert(desired@.take(k + 1).drop_last() =~= desired@.take(k as int));
                assert(desired@.take(k + 1).last() == desired@[k as int]);
            }
            let ghost before = all@.map_values(|c: InstanceChange| c@);
            let presentation = match &declaration.presentation {
                Some(p) => Some(copy_bytes(p)),
                None => None,
            };
            match installed_position(installed, address) {
                Some(i) => {
                    let current = &installed[i].1;
                    let changed = !same_anchor(&current.anchor, &declaration.anchor) || !crate::text::bytes_equal(
                        current.config.as_slice(),
                        declaration.config.as_slice(),
                    ) || match &declaration.presentation {
                        Some(p) => !crate::text::bytes_equal(current.presentation.as_slice(), p.as_slice()),
                        None => false,
                    };
                    if changed {
                        all.push(InstanceChange {
                            action: Action::Update,
                            address: address.duplicate(),
                            config: copy_bytes(&declaration.config),
                            presentation,
                            anchor: copy_anchor(&declaration.anchor),
                        });
                        proof {
                            assert(all@.map_values(|c: InstanceChange| c@) =~= declared_changes(desired@.take(k + 1), installed@));
                        }
                    }
                },
                None => {
                    all.push(InstanceChange {
                        action: Action::Create,
                        address: address.duplicate(),
                        config: copy_bytes(&declaration.config),
                        presentation,
                        anchor: copy_anchor(&declaration.anchor),
                    });
                    proof {
                        assert(all@.map_values(|c: InstanceChange| c@) =~= declared_changes(desired@.take(k + 1), installed@));
                    }
                },
            }
            k = k + 1;
        }
        proof {
            assert(desired@.take(desired@.len() as int) =~= desired@);
        }
        let ghost declared = all@.map_values(|c: InstanceChange| c@);
        let mut j: usize = 0;
        proof {
            assert(installed@.take(0) =~= Seq::<(SurfaceRef, InstalledInstance)>::empty());
            assert(declared + deletions(desired@, installed@.take(0)) =~= declared);
        }
        while j < installed.len()
            invariant
                j <= installed@.len(),
                all@.map_values(|c: InstanceChange| c@) == declared + deletions(desired@, installed@.take(j as int)),
            decreases installed@.len() - j,
        {
            let address = &installed[j].0;
            proof {
                assert(installed@.take(j + 1).drop_last() =~= installed@.take(j as int));
                assert(installed@.take(j + 1).last() == installed@[j as int]);
            }
            let mut found = false;
            let mut d: usize = 0;
            while d < desired.len() && !found
                invariant
                    d <= desired@.len(),
                    found ==> declares(desired@, address@),
                    !found ==> forall|q: int| 0 <= q < d ==> desired@[q].0@ != address@,
                decreases desired@.len() - d,
            {
                if desired[d].0.same(address) {
                    proof {
                        assert(desired@[d as int].0@ == address@);
                    }
                    found = true;
                }
                d = d + 1;
            }
            if !found {
                let ghost before = all@.map_values(|c: InstanceChange| c@);
                all.push(InstanceChange {
                    action: Action::Delete,
                    address: address.duplicate(),
                    config: Vec::new(),
                    presentation: None,
                    anchor: None,
                });
                proof {
                    assert(all@.map_values(|c: InstanceChange| c@) =~= before.push(ChangeView {
                        action: Action::Delete,
                        address: address@,
                        config: Seq::empty(),
                        presentation: None,
                        anchor: None,
                    }));
                }
            }
            j = j + 1;
        }
        proof {
            assert(installed@.take(installed@.len() as int) =~= installed@);
        }
        partition_by_anchor(&all)
    }
}

impl InstanceChange {
    pub fn duplicate(&self) -> (r: Self)
        ensures
            r@ == self@,
    {
        InstanceChange {
            action: self.action,
            address: self.address.duplicate(),
            config: copy_bytes(&self.config),
            presentation: match &self.presentation {
                Some(p) => Some(copy_bytes(p)),
                None => None,
            },
            anchor: copy_anchor(&self.anchor),
        }
    }
}

/// The changes without an anchor, then those with one, each in order.
fn partition_by_anchor(all: &Vec<InstanceChange>) -> (r: Vec<InstanceChange>)
    ensures
        r@.map_values(|c: InstanceChange| c@) == all@.map_values(|c: InstanceChange| c@).filter(|c: ChangeView| c.anchor is None)
            + all@.map_values(|c: InstanceChange| c@).filter(|c: ChangeView| c.anchor is Some),
{
    let ghost everything = all@.map_values(|c: InstanceChange| c@);
    let mut first: Vec<InstanceChange> = Vec::new();
    let mut later: Vec<InstanceChange> = Vec::new();
    let mut n: usize = 0;
    proof {
        reveal(Seq::filter);
        assert(everything.take(0) =~= Seq::<ChangeView>::empty());
        assert(first@.map_values(|c: InstanceChange| c@) =~= Seq::<ChangeView>::empty());
        assert(later@.map_values(|c: InstanceChange| c@) =~= Seq::<ChangeView>::empty());
    }
    while n < all.len()
        invariant
            everything == all@.map_values(|c: InstanceChange| c@),
            n <= all@.len(),
            first@.map_values(|c: InstanceChange| c@) == everything.take(n as int).filter(|c: ChangeView| c.anchor is None),
            later@.map_values(|c: InstanceChange| c@) == everything.take(n as int).filter(|c: ChangeView| c.anchor is Some),
        decreases all@.len() - n,
    {
        let change = all[n].duplicate();
        proof {
            reveal(Seq::filter);
            assert(everything.take(n + 1).drop_last() =~= everything.take(n as int));
            assert(everything.take(n + 1).last() == change@);
        }
        let ghost f = first@.map_values(|c: InstanceChange| c@);
        let ghost l = later@.map_values(|c: InstanceChange| c@);
        let ghost cv = change@;
        if change.anchor.is_some() {
            later.push(change);
            proof {
                assert(later@.map_values(|c: InstanceChange| c@) =~= l.push(cv));
            }
        } else {
            first.push(change);
            proof {
                assert(first@.map_values(|c: InstanceChange| c@) =~= f.push(cv));
            }
        }
        n = n + 1;
    }
    proof {
        assert(everything.take(all@.len() as int) =~= everything);
    }
    let ghost fv = first@.map_values(|c: InstanceChange| c@);
    let ghost lv = later@.map_values(|c: InstanceChange| c@);
    first.append(&mut later);
    proof {
        assert(first@.map_values(|c: InstanceChange| c@) =~= fv + lv);
    }
    first
}

/// What a declared instance is to be constructed with.
pub struct DesiredView {
    pub config: Seq<u8>,
    pub presentation: Option<Seq<u8>>,
    pub anchor: Option<SurfaceKey>,
}

pub open spec fn desired_view(d: DesiredInstance) -> DesiredView {
    DesiredView {
        config: d.config@,
        presentation: match d.presentation {
            Some(p) => Some(p@),
            None => None,
        },
        anchor: anchor_key(d.anchor),
    }
}

pub open spec fn prepared_view(s: Seq<(SurfaceRef, DesiredInstance)>) -> Seq<(SurfaceKey, DesiredView)> {
    s.map_values(|e: (SurfaceRef, DesiredInstance)| (e.0@, desired_view(e.1)))
}

/// A widget module of a bar, as read: its unit, its module identity, the
/// surface it fills and the panel it opens (each resolved against the unit's
/// manifest, or why it is not one), and its settings.
#[derive(Debug)]
pub struct WidgetDecl {
    pub unit: Result<String, String>,
    pub module: Result<String, String>,
    pub surface: Result<String, String>,
    pub panel: Option<Result<String, String>>,
    pub config: Vec<u8>,
}

/// One module of a bar.
#[derive(Debug)]
pub enum ModuleDecl {
    Widget(WidgetDecl),
    /// A clock, battery, workspaces or tray module.
    Builtin,
    /// A module with no kind.
    Empty,
}

/// A standalone presentation, as read.
#[derive(Debug)]
pub struct PresentationDecl {
    pub unit: Result<String, String>,
    pub surface: Result<String, String>,
    pub module: Result<String, String>,
    /// None when the entry gives no presentation.
    pub presentation: Option<Result<Vec<u8>, String>>,
    pub config: Vec<u8>,
}

pub open spec fn holds_key(acc: Seq<(SurfaceKey, DesiredView)>, k: SurfaceKey) -> bool {
    exists|i: int| 0 <= i < acc.len() && (#[trigger] acc[i]).0 == k
}

/// A widget adds its surface's instance and, with a panel, the panel's,
/// anchored to the first; an address declared twice is refused.
pub open spec fn widget_step(acc: Seq<(SurfaceKey, DesiredView)>, w: WidgetDecl) -> Result<Seq<(SurfaceKey, DesiredView)>, Seq<char>> {
    match w.unit {
        Err(e) => Err(e@),
        Ok(unit) => match w.module {
            Err(e) => Err(e@),
            Ok(module) => match w.surface {
                Err(e) => Err(e@),
                Ok(primary) => {
                    let first = SurfaceKey { plugin: unit@, surface: primary@, module: Some(module@) };
                    if holds_key(acc, first) {
                        Err("duplicate view instance"@)
                    } else {
                        let acc1 = acc.push((first, DesiredView { config: w.config@, presentation: None, anchor: None }));
                        match w.panel {
                            None => Ok(acc1),
                            Some(Err(e)) => Err(e@),
                            Some(Ok(panel)) => {
                                let second = SurfaceKey { plugin: unit@, surface: panel@, module: Some(module@) };
                                if holds_key(acc1, second) {
                                    Err("duplicate view instance"@)
                                } else {
                                    Ok(acc1.push((second, DesiredView {
                                        config: w.config@,
                                        presentation: None,
                                        anchor: if panel@ != primary@ { Some(first) } else { None },
                                    })))
                                }
                            },
                        }
                    }
                },
            },
        },
    }
}

pub open spec fn module_step(acc: Seq<(SurfaceKey, DesiredView)>, m: ModuleDecl) -> Result<Seq<(SurfaceKey, DesiredView)>, Seq<char>> {
    match m {
        ModuleDecl::Widget(w) => widget_step(acc, w),
        ModuleDecl::Builtin => Err("only widget modules have an instance provider"@),
        ModuleDecl::Empty => Err("module has no kind"@),
    }
}

pub open spec fn prepared_modules(modules: Seq<ModuleDecl>) -> Result<Seq<(SurfaceKey, DesiredView)>, Seq<char>>
    decreases modules.len(),
{
    if modules.len() == 0 {
        Ok(Seq::empty())
    } else {
        match prepared_modules(modules.drop_last()) {
            Err(e) => Err(e),
            Ok(acc) => module_step(acc, modules.last()),
        }
    }
}

pub open spec fn presentation_step(acc: Seq<(SurfaceKey, DesiredView)>, p: PresentationDecl) -> Result<Seq<(SurfaceKey, DesiredView)>, Seq<char>> {
    match p.unit {
        Err(e) => Err(e@),
        Ok(unit) => match p.surface {
            Err(e) => Err(e@),
            Ok(surface) => match p.module {
                Err(e) => Err(e@),
                Ok(module) => match p.presentation {
                    None => Err("presentation is required"@),
                    Some(Err(e)) => Err(e@),
                    Some(Ok(spec)) => {
                        let address = SurfaceKey { plugin: unit@, surface: surface@, module: Some(module@) };
                        if holds_key(acc, address) {
                            Err("duplicate presentation instance"@)
                        } else {
                            Ok(acc.push((address, DesiredView { config: p.config@, presentation: Some(spec@), anchor: None })))
                        }
                    },
                },
            },
        },
    }
}

pub open spec fn prepared_presentations(start: Seq<(SurfaceKey, DesiredView)>, ps: Seq<PresentationDecl>) -> Result<Seq<(SurfaceKey, DesiredView)>, Seq<char>>
    decreases ps.len(),
{
    if ps.len() == 0 {
        Ok(start)
    } else {
        match prepared_presentations(start, ps.drop_last()) {
            Err(e) => Err(e),
            Ok(acc) => presentation_step(acc, ps.last()),
        }
    }
}

/// Every instance the document declares: widget modules of its bars (and of
/// the bar its shell compiles to), then standalone presentations.
pub open spec fn prepared(shell: Result<(), Seq<char>>, modules: Seq<ModuleDecl>, presentations: Seq<PresentationDecl>) -> Result<Seq<(SurfaceKey, DesiredView)>, Seq<char>> {
    match shell {
        Err(e) => Err(e),
        Ok(()) => match prepared_modules(modules) {
            Err(e) => Err(e),
            Ok(acc) => prepared_presentations(acc, presentations),
        },
    }
}

proof fn lemma_modules_error_sticks(modules: Seq<ModuleDecl>, n: int)
    requires
        0 <= n <= modules.len(),
        prepared_modules(modules.take(n)) is Err,
    ensures
        prepared_modules(modules) == prepared_modules(modules.take(n)),
    decreases modules.len() - n,
{
    if n < modules.len() {
        assert(modules.take(n + 1).drop_last() =~= modules.take(n));
        lemma_modules_error_sticks(modules, n + 1);
    } else {
        assert(modules.take(n) =~= modules);
    }
}

proof fn lemma_presentations_error_sticks(start: Seq<(SurfaceKey, DesiredView)>, ps: Seq<PresentationDecl>, n: int)
    requires
        0 <= n <= ps.len(),
        prepared_presentations(start, ps.take(n)) is Err,
    ensures
        prepared_presentations(start, ps) == prepared_presentations(start, ps.take(n)),
    decreases ps.len() - n,
{
    if n < ps.len() {
        assert(ps.take(n + 1).drop_last() =~= ps.take(n));
        lemma_presentations_error_sticks(start, ps, n + 1);
    } else {
        assert(ps.take(n) =~= ps);
    }
}

fn holds_address(acc: &Vec<(SurfaceRef, DesiredInstance)>, address: &SurfaceRef) -> (r: bool)
    ensures
        r == holds_key(prepared_view(acc@), address@),
{
    let ghost view = prepared_view(acc@);
    let mut k: usize = 0;
    while k < acc.len()
        invariant
            k <= acc@.len(),
            view == prepared_view(acc@),
            forall|j: int| 0 <= j < k ==> (#[trigger] view[j]).0 != address@,
        decreases acc@.len() - k,
    {
        if acc[k].0.same(address) {
            proof {
                assert(view[k as int].0 == address@);
            }
            return true;
        }
        k = k + 1;
    }
    false
}

fn refusal(message: &String) -> (r: ProviderError)
    ensures
        r.domain@ == "presentations"@,
        r.message@ == message@,
{
    ProviderError::new("presentations", message.clone())
}

fn refusal_text(message: &str) -> (r: ProviderError)
    ensures
        r.domain@ == "presentations"@,
        r.message@ == message@,
{
    ProviderError::new("presentations", message.to_owned())
}

/// Add one widget's instances; on refusal `acc` is left as it may be.
fn add_widget(acc: &mut Vec<(SurfaceRef, DesiredInstance)>, w: &WidgetDecl) -> (r: Result<(), ProviderError>)
    ensures
        match widget_step(prepared_view(old(acc)@), *w) {
            Err(e) => r matches Err(x) && x.domain@ == "presentations"@ && x.message@ == e,
            Ok(next) => r is Ok && prepared_view(final(acc)@) == next,
        },
{
    let unit = match &w.unit {
        Ok(u) => u,
        Err(e) => {
            return Err(refusal(e));
        },
    };
    let module = match &w.module {
        Ok(m) => m,
        Err(e) => {
            return Err(refusal(e));
        },
    };
    let primary = match &w.surface {
        Ok(s) => s,
        Err(e) => {
            return Err(refusal(e));
        },
    };
    let first = SurfaceRef::module(unit.clone(), primary.clone(), module.clone());
    if holds_address(acc, &first) {
        return Err(refusal_text("duplicate view instance"));
    }
    let ghost before = prepared_view(acc@);
    acc.push((first.duplicate(), DesiredInstance { config: copy_bytes(&w.config), presentation: None, anchor: None }));
    proof {
        assert(prepared_view(acc@) =~= before.push((first@, DesiredView { config: w.config@, presentation: None, anchor: None })));
    }
    match &w.panel {
        None => Ok(()),
        Some(Err(e)) => Err(refusal(e)),
        Some(Ok(panel)) => {
            let second = SurfaceRef::module(unit.clone(), panel.clone(), module.clone());
            if holds_address(acc, &second) {
                return Err(refusal_text("duplicate view instance"));
            }
            let anchor = if !crate::text::text_eq(panel.as_str(), primary.as_str()) {
                Some(first)
            } else {
                None
            };
            let ghost mid = prepared_view(acc@);
            let ghost anchor_view = anchor_key(anchor);
            acc.push((second.duplicate(), DesiredInstance { config: copy_bytes(&w.config), presentation: None, anchor }));
            proof {
                assert(prepared_view(acc@) =~= mid.push((second@, DesiredView { config: w.config@, presentation: None, anchor: anchor_view })));
            }
            Ok(())
        },
    }
}

fn add_presentation(acc: &mut Vec<(SurfaceRef, DesiredInstance)>, p: &PresentationDecl) -> (r: Result<(), ProviderError>)
    ensures
        match presentation_step(prepared_view(old(acc)@), *p) {
            Err(e) => r matches Err(x) && x.domain@ == "presentations"@ && x.message@ == e,
            Ok(next) => r is Ok && prepared_view(final(acc)@) == next,
        },
{
    let unit = match &p.unit {
        Ok(u) => u,
        Err(e) => {
            return Err(refusal(e));
        },
    };
    let surface = match &p.surface {
        Ok(s) => s,
        Err(e) => {
            return Err(refusal(e));
        },
    };
    let module = match &p.module {
        Ok(m) => m,
        Err(e) => {
            return Err(refusal(e));
        },
    };
    let spec = match &p.presentation {
        None => {
            return Err(refusal_text("presentation is required"));
        },
        Some(Err(e)) => {
            return Err(refusal(e));
        },
        Some(Ok(spec)) => spec,
    };
    let address = SurfaceRef::module(unit.clone(), surface.clone(), module.clone());
    if holds_address(acc, &address) {
        return Err(refusal_text("duplicate presentation instance"));
    }
    let ghost before = prepared_view(acc@);
    acc.push((address.duplicate(), DesiredInstance { config: copy_bytes(&p.config), presentation: Some(copy_bytes(spec)), anchor: None }));
    proof {
        assert(prepared_view(acc@) =~= before.push((address@, DesiredView { config: p.config@, presentation: Some(spec@), anchor: None })));
    }
    Ok(())
}

impl PresentationProvider {
    /// Every instance the document declares, each with what it is to be
    /// constructed with: refused if the shell does not compile, a module is
    /// not a widget, a name or surface does not resolve, a presentation is
    /// missing or malformed, or an address is declared twice.
    pub fn prepare(shell: Result<(), String>, modules: &Vec<ModuleDecl>, presentations: &Vec<PresentationDecl>) -> (r: Result<Vec<(SurfaceRef, DesiredInstance)>, ProviderError>)
        ensures
            match prepared(
                match shell {
                    Ok(()) => Ok(()),
                    Err(e) => Err(e@),
                },
                modules@,
                presentations@,
            ) {
                Err(e) => r matches Err(x) && x.domain@ == "presentations"@ && x.message@ == e,
                Ok(instances) => r matches Ok(found) && prepared_view(found@) == instances,
            },
    {
        if let Err(e) = &shell {
            return Err(refusal(e));
        }
        let mut acc: Vec<(SurfaceRef, DesiredInstance)> = Vec::new();
        let mut i: usize = 0;
        proof {
            assert(modules@.take(0) =~= Seq::<ModuleDecl>::empty());
            assert(prepared_view(acc@) =~= Seq::<(SurfaceKey, DesiredView)>::empty());
        }
        while i < modules.len()
            invariant
                shell is Ok,
                i <= modules@.len(),
                prepared_modules(modules@.take(i as int)) == Ok::<Seq<(SurfaceKey, DesiredView)>, Seq<char>>(prepared_view(acc@)),
            decreases modules@.len() - i,
        {
            proof {
                assert(modules@.take(i + 1).drop_last() =~= modules@.take(i as int));
                assert(modules@.take(i + 1).last() == modules@[i as int]);
            }
            let outcome = match &modules[i] {
                ModuleDecl::Widget(w) => add_widget(&mut acc, w),
                ModuleDecl::Builtin => Err(refusal_text("only widget modules have an instance provider")),
                ModuleDecl::Empty => Err(refusal_text("module has no kind")),
            };
            if outcome.is_err() {
                proof {
                    lemma_modules_error_sticks(modules@, i + 1);
                }
                if let Err(x) = outcome {
                    return Err(x);
                }
            }
            i = i + 1;
        }
        proof {
            assert(modules@.take(modules@.len() as int) =~= modules@);
        }
        let ghost start = prepared_view(acc@);
        let mut j: usize = 0;
        proof {
            assert(presentations@.take(0) =~= Seq::<PresentationDecl>::empty());
        }
        while j < presentations.len()
            invariant
                shell is Ok,
                prepared_modules(modules@) == Ok::<Seq<(SurfaceKey, DesiredView)>, Seq<char>>(start),
                j <= presentations@.len(),
                prepared_presentations(start, presentations@.take(j as int)) == Ok::<Seq<(SurfaceKey, DesiredView)>, Seq<char>>(prepared_view(acc@)),
            decreases presentations@.len() - j,
        {
            proof {
                assert(presentations@.take(j + 1).drop_last() =~= presentations@.take(j as int));
                assert(presentations@.take(j + 1).last() == presentations@[j as int]);
            }
            let outcome = add_presentation(&mut acc, &presentations[j]);
            if outcome.is_err() {
                proof {
                    lemma_presentations_error_sticks(start, presentations@, j + 1);
                }
                if let Err(x) = outcome {
                    return Err(x);
                }
            }
            j = j + 1;
        }
        proof {
            assert(presentations@.take(presentations@.len() as int) =~= presentations@);
        }
        Ok(acc)
    }
}

/// What is installed matches what is declared: nothing to do. When every
/// declared address is installed with the facts declared, and nothing is
/// installed that is not declared, the plan is empty.
pub proof fn matching_facts_need_no_work(desired: Seq<(SurfaceRef, DesiredInstance)>, installed: Seq<(SurfaceRef, InstalledInstance)>)
    requires
        forall|k: int| 0 <= k < desired.len() ==> (installed_at(installed, (#[trigger] desired[k]).0@) matches Some(c) && !differs(
            c,
            desired[k].1,
        )),
        forall|k: int| 0 <= k < installed.len() ==> declares(desired, (#[trigger] installed[k]).0@),
    ensures
        plan_spec(desired, installed) == Seq::<ChangeView>::empty(),
{
    lemma_no_declared_changes(desired, installed);
    lemma_no_deletions(desired, installed);
    let all = declared_changes(desired, installed) + deletions(desired, installed);
    assert(all =~= Seq::<ChangeView>::empty());
    reveal(Seq::filter);
    assert(all.filter(|c: ChangeView| c.anchor is None) =~= Seq::<ChangeView>::empty());
    assert(all.filter(|c: ChangeView| c.anchor is Some) =~= Seq::<ChangeView>::empty());
}

proof fn lemma_no_declared_changes(desired: Seq<(SurfaceRef, DesiredInstance)>, installed: Seq<(SurfaceRef, InstalledInstance)>)
    requires
        forall|k: int| 0 <= k < desired.len() ==> (installed_at(installed, (#[trigger] desired[k]).0@) matches Some(c) && !differs(
            c,
            desired[k].1,
        )),
    ensures
        declared_changes(desired, installed) == Seq::<ChangeView>::empty(),
    decreases desired.len(),
{
    if desired.len() > 0 {
        let rest = desired.drop_last();
        assert forall|k: int| 0 <= k < rest.len() implies (installed_at(installed, (#[trigger] rest[k]).0@) matches Some(c)
            && !differs(c, rest[k].1)) by {
            assert(rest[k] == desired[k]);
        }
        lemma_no_declared_changes(rest, installed);
        assert(desired.last() == desired[desired.len() - 1]);
    }
}

proof fn lemma_no_deletions(desired: Seq<(SurfaceRef, DesiredInstance)>, installed: Seq<(SurfaceRef, InstalledInstance)>)
    requires
        forall|k: int| 0 <= k < installed.len() ==> declares(desired, (#[trigger] installed[k]).0@),
    ensures
        deletions(desired, installed) == Seq::<ChangeView>::empty(),
    decreases installed.len(),
{
    if installed.len() > 0 {
        let rest = installed.drop_last();
        assert forall|k: int| 0 <= k < rest.len() implies declares(desired, (#[trigger] rest[k]).0@) by {
            assert(rest[k] == installed[k]);
        }
        lemma_no_deletions(desired, rest);
        assert(installed.last() == installed[installed.len() - 1]);
    }
}

/// Anchors precede popups: in a plan, no change that anchors to another
/// instance comes before one that does not.
pub proof fn anchored_changes_come_last(desired: Seq<(SurfaceRef, DesiredInstance)>, installed: Seq<(SurfaceRef, InstalledInstance)>)
    ensures
        forall|i: int, j: int| 0 <= i < j < plan_spec(desired, installed).len() && (#[trigger] plan_spec(desired, installed)[i]).anchor is Some
            ==> (#[trigger] plan_spec(desired, installed)[j]).anchor is Some,
{
    broadcast use vstd::seq_lib::group_filter_ensures;

    let all = declared_changes(desired, installed) + deletions(desired, installed);
    let free = all.filter(|c: ChangeView| c.anchor is None);
    let anchored = all.filter(|c: ChangeView| c.anchor is Some);
    let plan = plan_spec(desired, installed);
    assert(plan == free + anchored);
    assert forall|i: int, j: int| 0 <= i < j < plan.len() && (#[trigger] plan[i]).anchor is Some implies (#[trigger] plan[j]).anchor is Some by {
        if i < free.len() {
            assert(plan[i] == free[i]);
            assert(free[i].anchor is None);
        }
        assert(j >= free.len());
        assert(plan[j] == anchored[j - free.len()]);
    }
}

} // verus!

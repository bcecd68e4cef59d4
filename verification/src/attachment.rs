//! Renderer scopes, negotiated features, and revocable instance permits.
use vstd::prelude::*;
use crate::refusal::{compose, ErrorCode, Refusal};

verus! {

/// A renderer capability, as the protocol numbers them.
#[derive(Debug, Clone, Copy, PartialEq, Eq, Structural)]
pub enum Feature {
    Instances,
    ScopedInteractions,
    LocalMessages,
    ControlledInputs,
    ResolvedNavigation,
    KeyboardShortcuts,
    Windows,
    Overlays,
    Embedded,
    Popups,
}

/// One node of a view tree, as far as a renderer's features read it.
#[derive(Debug)]
pub struct ViewNode {
    /// Where activating it navigates; empty for nowhere.
    pub navigation_target: String,
    /// The keyboard shortcuts it binds.
    pub shortcuts: Vec<String>,
    pub children: Vec<ViewNode>,
}

/// Whether a node or any node below it navigates.
pub open spec fn uses_navigation(n: ViewNode) -> bool
    decreases n,
{
    n.navigation_target@.len() > 0 || any_navigates(n.children@)
}

/// Whether any of `nodes`, or any node below one, navigates.
pub open spec fn any_navigates(nodes: Seq<ViewNode>) -> bool
    decreases nodes,
{
    if nodes.len() == 0 {
        false
    } else {
        any_navigates(nodes.drop_last()) || uses_navigation(nodes.last())
    }
}

/// Whether a node or any node below it binds a shortcut.
pub open spec fn uses_shortcuts(n: ViewNode) -> bool
    decreases n,
{
    n.shortcuts@.len() > 0 || any_binds(n.children@)
}

/// Whether any of `nodes`, or any node below one, binds a shortcut.
pub open spec fn any_binds(nodes: Seq<ViewNode>) -> bool
    decreases nodes,
{
    if nodes.len() == 0 {
        false
    } else {
        any_binds(nodes.drop_last()) || uses_shortcuts(nodes.last())
    }
}

/// Whether a tree (none for an empty view) navigates anywhere.
pub open spec fn tree_navigates(root: Option<ViewNode>) -> bool {
    root matches Some(n) && uses_navigation(n)
}

/// Whether a tree (none for an empty view) binds a shortcut anywhere.
pub open spec fn tree_binds_shortcuts(root: Option<ViewNode>) -> bool {
    root matches Some(n) && uses_shortcuts(n)
}

/// Walk a tree for a navigation target.
pub fn navigates(n: &ViewNode) -> (r: bool)
    ensures
        r == uses_navigation(*n),
    decreases n,
{
    proof {
        reveal_strlit("");
    }
    if !crate::text::text_eq(n.navigation_target.as_str(), "") {
        proof {
            if n.navigation_target@.len() == 0 {
                assert(n.navigation_target@ =~= ""@);
            }
        }
        return true;
    }
    let ghost c = n.children@;
    let mut i: usize = 0;
    proof {
        assert(c.take(0) =~= Seq::<ViewNode>::empty());
    }
    while i < n.children.len()
        invariant
            i <= c.len(),
            c == n.children@,
            !any_navigates(c.take(i as int)),
        decreases c.len() - i,
    {
        proof {
            vstd::std_specs::vec::axiom_vec_index_decreases(n.children, i as int);
            assert(c.take(i + 1).drop_last() =~= c.take(i as int));
            assert(c.take(i + 1).last() == c[i as int]);
        }
        if navigates(&n.children[i]) {
            proof {
                lemma_any_navigates_grows(c, i as int);
            }
            return true;
        }
        i = i + 1;
    }
    proof {
        assert(c.take(c.len() as int) =~= c);
    }
    false
}

proof fn lemma_any_navigates_grows(c: Seq<ViewNode>, i: int)
    requires
        0 <= i < c.len(),
        uses_navigation(c[i]),
    ensures
        any_navigates(c),
    decreases c.len(),
{
    if i < c.len() - 1 {
        lemma_any_navigates_grows(c.drop_last(), i);
    }
}

/// Walk a tree for a keyboard shortcut.
pub fn binds_shortcuts(n: &ViewNode) -> (r: bool)
    ensures
        r == uses_shortcuts(*n),
    decreases n,
{
    if n.shortcuts.len() > 0 {
        return true;
    }
    let ghost c = n.children@;
    let mut i: usize = 0;
    proof {
        assert(c.take(0) =~= Seq::<ViewNode>::empty());
    }
    while i < n.children.len()
        invariant
            i <= c.len(),
            c == n.children@,
            n.shortcuts@.len() == 0,
            !any_binds(c.take(i as int)),
        decreases c.len() - i,
    {
        proof {
            vstd::std_specs::vec::axiom_vec_index_decreases(n.children, i as int);
            assert(c.take(i + 1).drop_last() =~= c.take(i as int));
            assert(c.take(i + 1).last() == c[i as int]);
        }
        if binds_shortcuts(&n.children[i]) {
            proof {
                lemma_any_binds_grows(c, i as int);
            }
            return true;
        }
        i = i + 1;
    }
    proof {
        assert(c.take(c.len() as int) =~= c);
    }
    false
}

proof fn lemma_any_binds_grows(c: Seq<ViewNode>, i: int)
    requires
        0 <= i < c.len(),
        uses_shortcuts(c[i]),
    ensures
        any_binds(c),
    decreases c.len(),
{
    if i < c.len() - 1 {
        lemma_any_binds_grows(c.drop_last(), i);
    }
}

/// How a presentation is shown.
#[derive(Debug, Clone, Copy, PartialEq, Eq, Structural)]
pub enum PresentationKind {
    Window,
    Overlay,
    Embedded,
    Popup,
}

/// What a renderer is attached to: every standalone window of a plugin, or
/// one placement of one of its surfaces.
#[derive(Debug, Clone)]
pub enum Scope {
    Plugin(String),
    Placement { plugin: String, surface: String, placement: String },
}

pub enum ScopeView {
    Plugin(Seq<char>),
    Placement { plugin: Seq<char>, surface: Seq<char>, placement: Seq<char> },
}

impl View for Scope {
    type V = ScopeView;

    open spec fn view(&self) -> ScopeView {
        match self {
            Scope::Plugin(p) => ScopeView::Plugin(p@),
            Scope::Placement { plugin, surface, placement } => ScopeView::Placement {
                plugin: plugin@,
                surface: surface@,
                placement: placement@,
            },
        }
    }
}

/// An attach request, as read: each feature it names (none where the number
/// is not one), the scope it asks for (none when it gives none; otherwise
/// its names, or the refusal a malformed one earns), and its build
/// fingerprint (none when empty).
#[derive(Debug)]
pub struct AttachRequest {
    pub features: Vec<Option<Feature>>,
    pub scope: Option<Result<Scope, Refusal>>,
    pub fingerprint: Option<Result<String, Refusal>>,
}

/// The name a refusal gives a required feature.
pub open spec fn feature_name(f: Feature) -> Seq<char> {
    match f {
        Feature::Instances => "RENDERER_FEATURE_INSTANCES"@,
        Feature::ScopedInteractions => "RENDERER_FEATURE_SCOPED_INTERACTIONS"@,
        Feature::LocalMessages => "RENDERER_FEATURE_LOCAL_MESSAGES"@,
        Feature::ControlledInputs => "RENDERER_FEATURE_CONTROLLED_INPUTS"@,
        _ => Seq::empty(),
    }
}

fn name_of(f: Feature) -> (r: &'static str)
    ensures
        r@ == feature_name(f),
{
    match f {
        Feature::Instances => "RENDERER_FEATURE_INSTANCES",
        Feature::ScopedInteractions => "RENDERER_FEATURE_SCOPED_INTERACTIONS",
        Feature::LocalMessages => "RENDERER_FEATURE_LOCAL_MESSAGES",
        Feature::ControlledInputs => "RENDERER_FEATURE_CONTROLLED_INPUTS",
        _ => {
            proof {
                reveal_strlit("");
            }
            ""
        },
    }
}

/// Whether every named feature is known; the first required one missing.
pub open spec fn first_missing(features: Seq<Feature>) -> Option<Feature> {
    if !features.contains(Feature::Instances) {
        Some(Feature::Instances)
    } else if !features.contains(Feature::ScopedInteractions) {
        Some(Feature::ScopedInteractions)
    } else if !features.contains(Feature::LocalMessages) {
        Some(Feature::LocalMessages)
    } else if !features.contains(Feature::ControlledInputs) {
        Some(Feature::ControlledInputs)
    } else {
        None
    }
}

/// A renderer's attachment: its scope, what it supports, its build, and
/// whether it is still the current one.
#[derive(Debug)]
pub struct Attachment {
    scope: Scope,
    active: bool,
    features: Vec<Feature>,
    fingerprint: Option<String>,
}

fn contains_feature(features: &Vec<Feature>, f: Feature) -> (r: bool)
    ensures
        r == features@.contains(f),
{
    let mut k: usize = 0;
    while k < features.len()
        invariant
            k <= features@.len(),
            forall|j: int| 0 <= j < k ==> features@[j] != f,
        decreases features@.len() - k,
    {
        if features[k] == f {
            proof {
                assert(features@[k as int] == f);
            }
            return true;
        }
        k = k + 1;
    }
    false
}

impl Attachment {
    pub closed spec fn scope_of(&self) -> ScopeView {
        self.scope@
    }

    /// It is still the renderer's current attachment.
    pub closed spec fn is_active(&self) -> bool {
        self.active
    }

    pub fn scope(&self) -> (r: &Scope)
        ensures
            r@ == self.scope_of(),
    {
        &self.scope
    }

    pub fn active(&self) -> (r: bool)
        ensures
            r == self.is_active(),
    {
        self.active
    }

    /// Another attachment replaced this one: its permits lapse.
    pub fn revoke(&mut self)
        ensures
            !final(self).is_active(),
            final(self).scope_of() == old(self).scope_of(),
            final(self).features() == old(self).features(),
            final(self).fingerprint() == old(self).fingerprint(),
    {
        self.active = false;
    }

    pub closed spec fn features(&self) -> Seq<Feature> {
        self.features@
    }

    pub closed spec fn fingerprint(&self) -> Option<Seq<char>> {
        match self.fingerprint {
            Some(f) => Some(f@),
            None => None,
        }
    }

    /// Accept an attach request: at most sixteen features, each known, the
    /// four every renderer needs among them, a scope, and a well-formed
    /// fingerprint if one is given. The attachment starts active.
    pub fn from_request(request: AttachRequest) -> (r: Result<Self, Refusal>)
        ensures
            request.features@.len() > 16 ==> (r matches Err(e) && e.code == ErrorCode::InvalidArgument
                && e.message@ == "too many renderer features"@),
            request.features@.len() <= 16 && (exists|k: int| 0 <= k < request.features@.len() && request.features@[k] is None)
                ==> (r matches Err(e) && e.code == ErrorCode::Unimplemented && e.message@ == "unknown renderer feature"@),
            request.features@.len() <= 16 && (forall|k: int| 0 <= k < request.features@.len() ==> request.features@[k] is Some) ==> {
                let known = request.features@.map_values(|f: Option<Feature>| f->Some_0);
                match first_missing(known) {
                    Some(f) => r matches Err(e) && e.code == ErrorCode::FailedPrecondition
                        && e.message@ == "renderer requires "@ + feature_name(f),
                    None => match request.scope {
                        None => r matches Err(e) && e.code == ErrorCode::InvalidArgument
                            && e.message@ == "renderer scope is required"@,
                        Some(Err(refusal)) => r matches Err(e) && e.code == refusal.code && e.message@ == refusal.message@,
                        Some(Ok(scope)) => match request.fingerprint {
                            Some(Err(refusal)) => r matches Err(e) && e.code == refusal.code && e.message@ == refusal.message@,
                            Some(Ok(f)) => r matches Ok(a) && a.scope_of() == scope@ && a.features() == known && a.fingerprint() == Some(f@)
                                && a.is_active(),
                            None => r matches Ok(a) && a.scope_of() == scope@ && a.features() == known && a.fingerprint() is None
                                && a.is_active(),
                        },
                    },
                }
            },
    {
        if request.features.len() > 16 {
            return Err(Refusal::invalid("too many renderer features".to_owned()));
        }
        let mut features: Vec<Feature> = Vec::new();
        let mut k: usize = 0;
        while k < request.features.len()
            invariant
                k <= request.features@.len(),
                request.features@.len() <= 16,
                forall|j: int| 0 <= j < k ==> request.features@[j] is Some,
                features@ == request.features@.take(k as int).map_values(|f: Option<Feature>| f->Some_0),
            decreases request.features@.len() - k,
        {
            match request.features[k] {
                Some(f) => {
                    features.push(f);
                    proof {
                        assert(features@ =~= request.features@.take(k + 1).map_values(|f: Option<Feature>| f->Some_0));
                    }
                },
                None => {
                    return Err(Refusal::unimplemented("unknown renderer feature".to_owned()));
                },
            }
            k = k + 1;
        }
        proof {
            assert(request.features@.take(request.features@.len() as int) =~= request.features@);
        }
        let required = [Feature::Instances, Feature::ScopedInteractions, Feature::LocalMessages, Feature::ControlledInputs];
        let mut i: usize = 0;
        while i < 4
            invariant
                i <= 4,
                request.features@.len() <= 16,
                forall|j: int| 0 <= j < request.features@.len() ==> request.features@[j] is Some,
                features@ == request.features@.map_values(|f: Option<Feature>| f->Some_0),
                required@ == seq![Feature::Instances, Feature::ScopedInteractions, Feature::LocalMessages, Feature::ControlledInputs],
                forall|j: int| 0 <= j < i ==> features@.contains(#[trigger] required@[j]),
            decreases 4 - i,
        {
            if !contains_feature(&features, required[i]) {
                let text = compose("renderer requires ", name_of(required[i]), "");
                proof {
                    reveal_strlit("");
                    assert(text@ =~= "renderer requires "@ + feature_name(required@[i as int]));
                    assert(required@[0] == Feature::Instances);
                    assert(required@[1] == Feature::ScopedInteractions);
                    assert(required@[2] == Feature::LocalMessages);
                    assert(required@[3] == Feature::ControlledInputs);
                }
                return Err(Refusal::precondition(text));
            }
            i = i + 1;
        }
        proof {
            assert(features@.contains(required@[0]) && features@.contains(required@[1]) && features@.contains(required@[2])
                && features@.contains(required@[3]));
        }
        let scope = match request.scope {
            None => {
                return Err(Refusal::invalid("renderer scope is required".to_owned()));
            },
            Some(Err(refusal)) => {
                return Err(refusal);
            },
            Some(Ok(scope)) => scope,
        };
        let fingerprint = match request.fingerprint {
            None => None,
            Some(Err(refusal)) => {
                return Err(refusal);
            },
            Some(Ok(f)) => Some(f),
        };
        Ok(Attachment { scope, active: true, features, fingerprint })
    }

    /// The plugin it is attached to.
    pub fn plugin(&self) -> (r: &String)
        ensures
            r@ == match self.scope_of() {
                ScopeView::Plugin(p) => p,
                ScopeView::Placement { plugin, .. } => plugin,
            },
    {
        match &self.scope {
            Scope::Plugin(plugin) => plugin,
            Scope::Placement { plugin, .. } => plugin,
        }
    }

    /// The features it was attached with, in request order.
    pub fn feature_list(&self) -> (r: &Vec<Feature>)
        ensures
            r@ == self.features(),
    {
        &self.features
    }

    /// The build fingerprint it gave, if any.
    pub fn fingerprint_text(&self) -> (r: Option<&String>)
        ensures
            match self.fingerprint() {
                Some(f) => r matches Some(t) && t@ == f,
                None => r is None,
            },
    {
        self.fingerprint.as_ref()
    }

    /// A renderer supports one more feature from now on.
    pub fn enable(&mut self, feature: Feature)
        ensures
            final(self).features() == old(self).features().push(feature),
            final(self).scope_of() == old(self).scope_of(),
            final(self).is_active() == old(self).is_active(),
            final(self).fingerprint() == old(self).fingerprint(),
    {
        self.features.push(feature);
    }

    /// Whether a view belongs to this attachment: while it is current, a
    /// plugin scope takes that plugin's windows and overlays, a placement
    /// scope the embedded and popup views of that plugin's surface in that
    /// placement.
    pub fn accepts(&self, plugin: &str, surface: &str, module: Option<&str>, kind: Option<PresentationKind>) -> (r: bool)
        ensures
            r == (self.is_active() && match self.scope_of() {
                ScopeView::Plugin(p) => plugin@ == p && (kind == Some(PresentationKind::Window) || kind == Some(
                    PresentationKind::Overlay,
                )),
                ScopeView::Placement { plugin: p, surface: s, placement } => plugin@ == p && (kind == Some(
                    PresentationKind::Embedded,
                ) || kind == Some(PresentationKind::Popup)) && surface@ == s && (module matches Some(m) && m@
                    == placement),
            }),
    {
        if !self.active {
            return false;
        }
        match &self.scope {
            Scope::Plugin(p) => crate::text::text_eq(plugin, p.as_str()) && match kind {
                Some(PresentationKind::Window) | Some(PresentationKind::Overlay) => true,
                _ => false,
            },
            Scope::Placement { plugin: p, surface: s, placement } => crate::text::text_eq(plugin, p.as_str()) && match kind {
                Some(PresentationKind::Embedded) | Some(PresentationKind::Popup) => true,
                _ => false,
            } && crate::text::text_eq(surface, s.as_str()) && match module {
                Some(m) => crate::text::text_eq(m, placement.as_str()),
                None => false,
            },
        }
    }

    /// Whether the renderer can show a view: the feature its presentation
    /// needs (or why the presentation is malformed), and whether its tree
    /// (`root`, none for an empty view) uses navigation targets or keyboard
    /// shortcuts anywhere that the renderer cannot resolve.
    pub fn validate(&self, needed: Result<Feature, Refusal>, root: &Option<ViewNode>) -> (r: Result<(), Refusal>)
        ensures
            match needed {
                Err(refusal) => r matches Err(e) && e.code == refusal.code && e.message@ == refusal.message@,
                Ok(f) => if !self.features().contains(f) {
                    r matches Err(e) && e.code == ErrorCode::Unimplemented && e.message@ == "renderer does not support this presentation"@
                } else if tree_navigates(*root) && !self.features().contains(Feature::ResolvedNavigation) {
                    r matches Err(e) && e.code == ErrorCode::Unimplemented && e.message@ == "renderer does not support resolved navigation"@
                } else if tree_binds_shortcuts(*root) && !self.features().contains(Feature::KeyboardShortcuts) {
                    r matches Err(e) && e.code == ErrorCode::Unimplemented && e.message@ == "renderer does not support keyboard shortcuts"@
                } else {
                    r is Ok
                },
            },
    {
        let f = match needed {
            Err(refusal) => {
                return Err(refusal);
            },
            Ok(f) => f,
        };
        if !contains_feature(&self.features, f) {
            return Err(Refusal::unimplemented("renderer does not support this presentation".to_owned()));
        }
        if !contains_feature(&self.features, Feature::ResolvedNavigation) {
            if let Some(node) = root {
                if navigates(node) {
                    return Err(Refusal::unimplemented("renderer does not support resolved navigation".to_owned()));
                }
            }
        }
        if !contains_feature(&self.features, Feature::KeyboardShortcuts) {
            if let Some(node) = root {
                if binds_shortcuts(node) {
                    return Err(Refusal::unimplemented("renderer does not support keyboard shortcuts".to_owned()));
                }
            }
        }
        Ok(())
    }

    /// The module slot a snapshot's view fills: none for a plugin scope,
    /// the placement (once it is a well-formed module name) for a placement
    /// scope.
    pub fn module_of(&self, placement_module: Result<(), Refusal>) -> (r: Result<Option<String>, Refusal>)
        ensures
            match self.scope_of() {
                ScopeView::Plugin(_) => r == Ok::<Option<String>, Refusal>(None),
                ScopeView::Placement { placement, .. } => match placement_module {
                    Err(refusal) => r matches Err(e) && e.code == refusal.code && e.message@ == refusal.message@,
                    Ok(()) => r matches Ok(Some(m)) && m@ == placement,
                },
            },
    {
        match &self.scope {
            Scope::Plugin(_) => Ok(None),
            Scope::Placement { placement, .. } => match placement_module {
                Err(refusal) => Err(refusal),
                Ok(()) => Ok(Some(placement.clone())),
            },
        }
    }

    /// Authorize a renderer's use of an instance: the instance must be
    /// known, belong to this attachment and be shown by it.
    pub fn authorize(
        &self,
        known: bool,
        plugin: &str,
        surface: &str,
        module: Option<&str>,
        kind: Option<PresentationKind>,
        needed: Result<Feature, Refusal>,
        root: &Option<ViewNode>,
    ) -> (r: Result<(), Refusal>)
        ensures
            !known ==> (r matches Err(e) && e.code == ErrorCode::FailedPrecondition && e.message@ == "unknown or expired instance"@),
            known && !(self.is_active() && match self.scope_of() {
                ScopeView::Plugin(p) => plugin@ == p && (kind == Some(PresentationKind::Window) || kind == Some(
                    PresentationKind::Overlay,
                )),
                ScopeView::Placement { plugin: p, surface: s, placement } => plugin@ == p && (kind == Some(
                    PresentationKind::Embedded,
                ) || kind == Some(PresentationKind::Popup)) && surface@ == s && (module matches Some(m) && m@
                    == placement),
            }) ==> (r matches Err(e) && e.code == ErrorCode::PermissionDenied && e.message@ == "instance is outside this renderer attachment"@),
    {
        if !known {
            return Err(Refusal::precondition("unknown or expired instance".to_owned()));
        }
        if !self.accepts(plugin, surface, module, kind) {
            return Err(Refusal::denied("instance is outside this renderer attachment".to_owned()));
        }
        self.validate(needed, root)
    }
}

/// A permit for one instance, valid while the attachment it was issued
/// under is current.
pub fn permit_check(active: bool) -> (r: Result<(), Refusal>)
    ensures
        active ==> r is Ok,
        !active ==> (r matches Err(e) && e.code == ErrorCode::FailedPrecondition
            && e.message@ == "renderer attachment has been replaced"@),
{
    if active {
        Ok(())
    } else {
        Err(Refusal::precondition("renderer attachment has been replaced".to_owned()))
    }
}

} // verus!

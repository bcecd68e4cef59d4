//! Current views and a global revision sequence that survives removal of any
//! address.
use vstd::prelude::*;
use crate::keyed::{has_key, keyed_map, keyed_sorted, lemma_keyed_empty, lemma_keyed_index, lemma_keyed_insert, lemma_keyed_remove, lemma_keyed_update};
use crate::refusal::{ErrorCode, Refusable, Refusal};
use crate::text::{lemma_name_lt_total, lemma_name_lt_transitive, name_lt, text_eq, text_less};

verus! {

/// Retained views may hold at most this many bytes together.
pub const VIEW_BYTES: usize = 8388608;

/// At most this many views are retained.
pub const VIEW_COUNT: usize = 4096;

/// Why a view was not published.
#[derive(Debug, Clone, Copy, PartialEq, Eq, Structural)]
pub enum PublishError {
    /// It is larger than one publication may be.
    TooLarge,
    /// Retaining it would pass the byte or count bound.
    Full,
    /// The revision sequence is used up.
    RevisionExhausted,
}

/// What a refused publication says.
pub open spec fn publish_error_text(e: PublishError) -> Seq<char> {
    match e {
        PublishError::TooLarge => "publication exceeds payload limit"@,
        PublishError::Full => "retained view capacity exhausted"@,
        PublishError::RevisionExhausted => "view revision exhausted"@,
    }
}

impl PublishError {
    /// The refusal in words.
    pub fn describe(&self) -> (r: String)
        ensures
            r@ == publish_error_text(*self),
    {
        match self {
            PublishError::TooLarge => "publication exceeds payload limit".to_owned(),
            PublishError::Full => "retained view capacity exhausted".to_owned(),
            PublishError::RevisionExhausted => "view revision exhausted".to_owned(),
        }
    }
}

impl Refusable for PublishError {
    open spec fn refusal_code(&self) -> ErrorCode {
        if *self == PublishError::TooLarge { ErrorCode::PayloadTooLarge } else { ErrorCode::ResourceExhausted }
    }

    open spec fn refusal_text(&self) -> Seq<char> {
        publish_error_text(*self)
    }

    /// A publication too large for one frame is too large; one the bounds
    /// or the revision sequence cannot take has exhausted a resource.
    fn refusal(&self) -> (r: Refusal)
        ensures
            r.code == (if *self == PublishError::TooLarge { ErrorCode::PayloadTooLarge } else { ErrorCode::ResourceExhausted }),
            r.message@ == publish_error_text(*self),
    {
        match self {
            PublishError::TooLarge => Refusal::too_large(self.describe()),
            _ => Refusal::exhausted(self.describe()),
        }
    }
}

/// One instance's latest view: the surface it belongs to, its content in
/// canonical encoding (tree, pending topics, render error, readiness,
/// requested and observed state, presentation), its accounted size and the
/// revision it was published under.
#[derive(Debug)]
pub struct ViewRecord {
    pub plugin: String,
    pub surface: String,
    pub module: Option<String>,
    pub content: Vec<u8>,
    pub size: usize,
    pub revision: u64,
}

pub struct ViewEntry {
    pub plugin: Seq<char>,
    pub surface: Seq<char>,
    pub module: Option<Seq<char>>,
    pub content: Seq<u8>,
    pub size: usize,
    pub revision: u64,
}

impl View for ViewRecord {
    type V = ViewEntry;

    open spec fn view(&self) -> ViewEntry {
        ViewEntry {
            plugin: self.plugin@,
            surface: self.surface@,
            module: match self.module {
                Some(m) => Some(m@),
                None => None,
            },
            content: self.content@,
            size: self.size,
            revision: self.revision,
        }
    }
}

impl ViewRecord {
    pub fn duplicate(&self) -> (r: Self)
        ensures
            r@ == self@,
    {
        ViewRecord {
            plugin: self.plugin.clone(),
            surface: self.surface.clone(),
            module: match &self.module {
                Some(m) => Some(m.clone()),
                None => None,
            },
            content: self.content.clone(),
            size: self.size,
            revision: self.revision,
        }
    }
}

/// The bytes a view is accounted for: its tree's encoding and the lengths
/// of what names it, with fixed overheads; independent of its revision.
pub open spec fn view_size_spec(
    root: Option<nat>,
    pending: Seq<nat>,
    render_error: nat,
    plugin: nat,
    surface: nat,
    module: Option<nat>,
    presentation: nat,
    instance: nat,
    incarnation: nat,
) -> nat {
    (match root {
        Some(n) => n + 8,
        None => 0,
    }) + pending_total(pending) + 8 + render_error + 8 + plugin + surface + (match module {
        Some(n) => n,
        None => 0,
    }) + presentation + instance + incarnation + 96
}

pub open spec fn pending_total(pending: Seq<nat>) -> nat
    decreases pending.len(),
{
    if pending.len() == 0 {
        0
    } else {
        pending_total(pending.drop_last()) + pending.last() + 8
    }
}

/// The size a view is accounted for, from the encoded lengths of its parts;
/// none when it would not fit a `usize`.
pub fn view_size(
    root: Option<usize>,
    pending: &Vec<usize>,
    render_error: usize,
    plugin: usize,
    surface: usize,
    module: Option<usize>,
    presentation: usize,
    instance: usize,
    incarnation: usize,
) -> (r: Option<usize>)
    ensures
        ({
            let exact = view_size_spec(
                match root {
                    Some(n) => Some(n as nat),
                    None => None,
                },
                pending@.map_values(|n: usize| n as nat),
                render_error as nat,
                plugin as nat,
                surface as nat,
                match module {
                    Some(n) => Some(n as nat),
                    None => None,
                },
                presentation as nat,
                instance as nat,
                incarnation as nat,
            );
            &&& exact <= usize::MAX ==> r == Some(exact as usize)
            &&& exact > usize::MAX ==> r is None
        }),
{
    let ghost ps = pending@.map_values(|n: usize| n as nat);
    let mut total: u128 = match root {
        Some(n) => n as u128 + 8,
        None => 0,
    };
    let mut k: usize = 0;
    proof {
        assert(ps.take(0) =~= Seq::<nat>::empty());
    }
    if total > usize::MAX as u128 {
        proof {
            lemma_pending_prefix(ps, 0);
        }
        return None;
    }
    while k < pending.len()
        invariant
            k <= pending@.len(),
            ps == pending@.map_values(|n: usize| n as nat),
            total == (match root {
                Some(n) => n + 8,
                None => 0,
            }) + pending_total(ps.take(k as int)),
            total <= usize::MAX,
        decreases pending@.len() - k,
    {
        proof {
            assert(ps.take(k + 1).drop_last() =~= ps.take(k as int));
            assert(ps.take(k + 1).last() == pending@[k as int] as nat);
        }
        total = total + pending[k] as u128 + 8;
        k = k + 1;
        if total > usize::MAX as u128 {
            proof {
                assert(ps.take(k as int).len() <= ps.len());
                lemma_pending_prefix(ps, k as int);
            }
            return None;
        }
    }
    proof {
        assert(ps.take(ps.len() as int) =~= ps);
    }
    let rest: u128 = 8 + render_error as u128 + 8 + plugin as u128 + surface as u128 + match module {
        Some(n) => n as u128,
        None => 0,
    } + presentation as u128 + instance as u128 + incarnation as u128 + 96;
    let sum = total + rest;
    if sum > usize::MAX as u128 {
        None
    } else {
        Some(sum as usize)
    }
}

/// A prefix's pending total is at most the whole's.
proof fn lemma_pending_prefix(ps: Seq<nat>, k: int)
    requires
        0 <= k <= ps.len(),
    ensures
        pending_total(ps.take(k)) <= pending_total(ps),
    decreases ps.len() - k,
{
    if k < ps.len() {
        assert(ps.take(k + 1).drop_last() =~= ps.take(k));
        lemma_pending_prefix(ps, k + 1);
    } else {
        assert(ps.take(k) =~= ps);
    }
}

/// The bytes the views of a table are accounted for together.
pub open spec fn sizes_total(s: Seq<(Seq<char>, ViewEntry)>) -> nat
    decreases s.len(),
{
    if s.len() == 0 {
        0
    } else {
        sizes_total(s.drop_last()) + s.last().1.size as nat
    }
}

proof fn lemma_sizes_concat(a: Seq<(Seq<char>, ViewEntry)>, b: Seq<(Seq<char>, ViewEntry)>)
    ensures
        sizes_total(a + b) == sizes_total(a) + sizes_total(b),
    decreases b.len(),
{
    if b.len() == 0 {
        assert(a + b =~= a);
    } else {
        assert((a + b).drop_last() =~= a + b.drop_last());
        assert((a + b).last() == b.last());
        lemma_sizes_concat(a, b.drop_last());
    }
}

proof fn lemma_sizes_split(s: Seq<(Seq<char>, ViewEntry)>, i: int)
    requires
        0 <= i < s.len(),
    ensures
        sizes_total(s) == sizes_total(s.take(i)) + s[i].1.size + sizes_total(s.skip(i + 1)),
{
    let one = seq![s[i]];
    assert(s =~= s.take(i) + (one + s.skip(i + 1)));
    lemma_sizes_concat(s.take(i), one + s.skip(i + 1));
    lemma_sizes_concat(one, s.skip(i + 1));
    assert(one.drop_last() =~= Seq::<(Seq<char>, ViewEntry)>::empty());
    assert(sizes_total(one) == sizes_total(one.drop_last()) + one.last().1.size as nat);
}

proof fn lemma_sizes_insert(s: Seq<(Seq<char>, ViewEntry)>, i: int, e: (Seq<char>, ViewEntry))
    requires
        0 <= i <= s.len(),
    ensures
        sizes_total(s.insert(i, e)) == sizes_total(s) + e.1.size,
{
    let t = s.insert(i, e);
    lemma_sizes_split(t, i);
    assert(t.take(i) =~= s.take(i));
    assert(t.skip(i + 1) =~= s.skip(i));
    assert(s =~= s.take(i) + s.skip(i));
    lemma_sizes_concat(s.take(i), s.skip(i));
}

proof fn lemma_sizes_update(s: Seq<(Seq<char>, ViewEntry)>, i: int, e: (Seq<char>, ViewEntry))
    requires
        0 <= i < s.len(),
    ensures
        sizes_total(s.update(i, e)) == sizes_total(s) - s[i].1.size + e.1.size,
{
    let t = s.update(i, e);
    lemma_sizes_split(t, i);
    lemma_sizes_split(s, i);
    assert(t.take(i) =~= s.take(i));
    assert(t.skip(i + 1) =~= s.skip(i + 1));
}

proof fn lemma_sizes_remove(s: Seq<(Seq<char>, ViewEntry)>, i: int)
    requires
        0 <= i < s.len(),
    ensures
        sizes_total(s.remove(i)) == sizes_total(s) - s[i].1.size,
{
    let t = s.remove(i);
    lemma_sizes_split(s, i);
    assert(t =~= s.take(i) + s.skip(i + 1));
    lemma_sizes_concat(s.take(i), s.skip(i + 1));
}

/// Filtering a table keeps it in key order, and keeps only its own entries.
proof fn lemma_filter_keyed<V>(e: Seq<(Seq<char>, V)>, pick: spec_fn((Seq<char>, V)) -> bool)
    requires
        keyed_sorted(e),
    ensures
        keyed_sorted(e.filter(pick)),
        forall|x: (Seq<char>, V)| #[trigger] e.filter(pick).contains(x) ==> e.contains(x) && pick(x),
    decreases e.len(),
{
    reveal(Seq::filter);
    if e.len() > 0 {
        let d = e.drop_last();
        assert(keyed_sorted(d)) by {
            assert forall|i: int, j: int| 0 <= i < j < d.len() implies name_lt(#[trigger] d[i].0, #[trigger] d[j].0) by {
                assert(d[i] == e[i] && d[j] == e[j]);
            }
        }
        lemma_filter_keyed(d, pick);
        let f = d.filter(pick);
        assert forall|x: (Seq<char>, V)| #[trigger] d.contains(x) implies e.contains(x) by {
            let j = choose|j: int| 0 <= j < d.len() && d[j] == x;
            assert(e[j] == x);
        }
        if pick(e.last()) {
            assert(e.filter(pick) == f.push(e.last()));
            let g = f.push(e.last());
            assert forall|a: int, b: int| 0 <= a < b < g.len() implies name_lt(#[trigger] g[a].0, #[trigger] g[b].0) by {
                if b == f.len() {
                    assert(f.contains(f[a]));
                    assert(d.contains(f[a]));
                    let j = choose|j: int| 0 <= j < d.len() && d[j] == f[a];
                    assert(e[j] == f[a]);
                    assert(g[b] == e[e.len() - 1]);
                } else {
                    assert(g[a] == f[a] && g[b] == f[b]);
                }
            }
            assert forall|x: (Seq<char>, V)| #[trigger] g.contains(x) implies e.contains(x) && pick(x) by {
                let a = choose|a: int| 0 <= a < g.len() && g[a] == x;
                if a < f.len() {
                    assert(f[a] == x);
                    assert(f.contains(x));
                } else {
                    assert(e[e.len() - 1] == x);
                }
            }
        } else {
            assert(e.filter(pick) == f);
        }
    }
}

/// Which views an operation is about: those of a plugin, those filling a
/// module slot, or those of one surface (and slot, if any).
#[derive(Debug, Clone)]
pub enum Selector {
    Plugin(String),
    Module(String),
    Surface(String, String, Option<String>),
}

pub open spec fn selects(selector: Selector, v: ViewEntry) -> bool {
    match selector {
        Selector::Plugin(p) => v.plugin == p@,
        Selector::Module(m) => v.module == Some(m@),
        Selector::Surface(p, sf, m) => v.plugin == p@ && v.surface == sf@ && v.module == match m {
            Some(x) => Some(x@),
            None => None,
        },
    }
}

/// The retained views, by instance, with the bytes they are accounted for
/// and the revision last handed out.
#[derive(Debug)]
pub struct ViewRegistry {
    latest: Vec<(String, ViewRecord)>,
    revision: u64,
    bytes: usize,
    limit: usize,
}

impl ViewRegistry {
    pub closed spec fn entries(&self) -> Seq<(Seq<char>, ViewEntry)> {
        self.latest@.map_values(|e: (String, ViewRecord)| (e.0@, e.1@))
    }

    /// The retained views by instance key.
    pub closed spec fn views(&self) -> Map<Seq<char>, ViewEntry> {
        keyed_map(self.entries())
    }

    pub closed spec fn revision(&self) -> u64 {
        self.revision
    }

    pub closed spec fn bytes(&self) -> nat {
        self.bytes as nat
    }

    /// The largest single publication.
    pub closed spec fn limit(&self) -> nat {
        self.limit as nat
    }

    /// Views are kept in key order; the bytes counted are exactly those of
    /// the retained views and within the bound, as is their number, and no
    /// view carries a revision not yet handed out.
    pub closed spec fn wf(&self) -> bool {
        &&& keyed_sorted(self.entries())
        &&& self.bytes == sizes_total(self.entries())
        &&& self.bytes <= VIEW_BYTES
        &&& self.entries().len() <= VIEW_COUNT
        &&& forall|i: int| 0 <= i < self.entries().len() ==> (#[trigger] self.entries()[i]).1.revision <= self.revision
    }

    /// No views, for publications of at most `limit` bytes.
    pub fn new(limit: usize) -> (r: Self)
        ensures
            r.wf(),
            r.views() == Map::<Seq<char>, ViewEntry>::empty(),
            r.revision() == 0,
            r.bytes() == 0,
            r.limit() == limit,
    {
        let r = ViewRegistry { latest: Vec::new(), revision: 0, bytes: 0, limit };
        proof {
            assert(r.entries() =~= Seq::<(Seq<char>, ViewEntry)>::empty());
            lemma_keyed_empty(r.entries());
        }
        r
    }

    pub fn revision_now(&self) -> (r: u64)
        ensures
            r == self.revision(),
    {
        self.revision
    }

    pub fn bytes_now(&self) -> (r: usize)
        ensures
            r == self.bytes(),
    {
        self.bytes
    }

    pub fn len(&self) -> (r: usize)
        requires
            self.wf(),
        ensures
            r == self.views().len(),
            r == self.entries().len(),
    {
        proof {
            self.lemma_len();
        }
        self.latest.len()
    }

    proof fn lemma_len(&self)
        requires
            self.wf(),
        ensures
            self.views().len() == self.entries().len(),
    {
        let e = self.entries();
        let keys = e.map_values(|x: (Seq<char>, ViewEntry)| x.0);
        assert(keys.no_duplicates()) by {
            assert forall|i: int, j: int| 0 <= i < keys.len() && 0 <= j < keys.len() && i != j implies keys[i] != keys[j] by {
                crate::keyed::lemma_keyed_distinct(e, i, j);
            }
        }
        assert(self.views().dom() =~= keys.to_set()) by {
            assert forall|k: Seq<char>| self.views().dom().contains(k) <==> keys.to_set().contains(k) by {
                if has_key(e, k) {
                    let j = choose|j: int| 0 <= j < e.len() && (#[trigger] e[j]).0 == k;
                    assert(keys[j] == k);
                }
                if keys.contains(k) {
                    let j = choose|j: int| 0 <= j < keys.len() && keys[j] == k;
                    assert(e[j].0 == k);
                }
            }
        }
        keys.unique_seq_to_set();
    }

    /// Where a key is, or where it belongs.
    fn position(&self, key: &str) -> (r: Result<usize, usize>)
        requires
            self.wf(),
        ensures
            r matches Ok(i) ==> i < self.entries().len() && self.entries()[i as int].0 == key@,
            r matches Err(i) ==> {
                &&& i <= self.entries().len()
                &&& !has_key(self.entries(), key@)
                &&& forall|a: int| 0 <= a < i ==> name_lt(#[trigger] self.entries()[a].0, key@)
                &&& forall|a: int| i <= a < self.entries().len() ==> name_lt(key@, #[trigger] self.entries()[a].0)
            },
    {
        let ghost e = self.entries();
        let mut i: usize = 0;
        while i < self.latest.len() && text_less(self.latest[i].0.as_str(), key)
            invariant
                i <= self.latest@.len(),
                e == self.entries(),
                keyed_sorted(e),
                forall|a: int| 0 <= a < i ==> name_lt(#[trigger] e[a].0, key@),
            decreases self.latest.len() - i,
        {
            i = i + 1;
        }
        if i < self.latest.len() && text_eq(self.latest[i].0.as_str(), key) {
            return Ok(i);
        }
        proof {
            if i < e.len() {
                lemma_name_lt_total(e[i as int].0, key@);
                assert forall|a: int| i <= a < e.len() implies name_lt(key@, #[trigger] e[a].0) by {
                    if a > i {
                        lemma_name_lt_transitive(key@, e[i as int].0, e[a].0);
                    }
                }
            }
            if has_key(e, key@) {
                let j = choose|j: int| 0 <= j < e.len() && (#[trigger] e[j]).0 == key@;
                crate::text::lemma_name_lt_irreflexive(key@);
            }
        }
        Err(i)
    }

    /// Store a changed view of instance `key` under the next revision, which
    /// is returned for broadcasting. A view whose content is unchanged is
    /// not stored again and advances nothing (`Ok(None)`). A refused
    /// publication changes nothing.
    pub fn publish(&mut self, key: String, record: ViewRecord) -> (r: Result<Option<u64>, PublishError>)
        requires
            old(self).wf(),
        ensures
            final(self).wf(),
            final(self).limit() == old(self).limit(),
            record.size > old(self).limit() ==> r == Err::<Option<u64>, PublishError>(PublishError::TooLarge),
            r is Err ==> final(self).views() == old(self).views() && final(self).revision() == old(self).revision()
                && final(self).bytes() == old(self).bytes(),
            r == Ok::<Option<u64>, PublishError>(None) ==> record.size <= old(self).limit() && old(self).views().contains_key(key@)
                && old(self).views()[key@].content == record.content@ && final(self).views() == old(self).views()
                && final(self).revision() == old(self).revision() && final(self).bytes() == old(self).bytes(),
            record.size <= old(self).limit() && old(self).views().contains_key(key@)
                && old(self).views()[key@].content == record.content@ ==> r == Ok::<Option<u64>, PublishError>(None),
            r matches Ok(Some(rev)) ==> {
                &&& record.size <= old(self).limit()
                &&& rev == old(self).revision() + 1
                &&& final(self).revision() == rev
                &&& final(self).views() == old(self).views().insert(key@, ViewEntry { revision: rev, ..record@ })
                &&& final(self).bytes() == old(self).bytes() - (if old(self).views().contains_key(key@) {
                    old(self).views()[key@].size as int
                } else {
                    0
                }) + record.size
            },
            record.size <= old(self).limit() && !(old(self).views().contains_key(key@) && old(self).views()[key@].content
                == record.content@) ==> {
                let bytes = old(self).bytes() - (if old(self).views().contains_key(key@) {
                    old(self).views()[key@].size as int
                } else {
                    0
                }) + record.size;
                let count = old(self).views().len() + (if old(self).views().contains_key(key@) { 0int } else { 1 });
                &&& (bytes > VIEW_BYTES || count > VIEW_COUNT) ==> r == Err::<Option<u64>, PublishError>(PublishError::Full)
                &&& !(bytes > VIEW_BYTES || count > VIEW_COUNT) && old(self).revision() == u64::MAX ==> r
                    == Err::<Option<u64>, PublishError>(PublishError::RevisionExhausted)
                &&& !(bytes > VIEW_BYTES || count > VIEW_COUNT) && old(self).revision() < u64::MAX ==> r is Ok && r->Ok_0 is Some
            },
    {
        if record.size > self.limit {
            return Err(PublishError::TooLarge);
        }
        proof {
            self.lemma_len();
        }
        let ghost e = self.entries();
        let position = self.position(key.as_str());
        let (previous, present) = match position {
            Ok(i) => {
                proof {
                    lemma_keyed_index(e, i as int);
                }
                if crate::text::bytes_equal(self.latest[i].1.content.as_slice(), record.content.as_slice()) {
                    return Ok(None);
                }
                (self.latest[i].1.size, true)
            },
            Err(_) => {
                proof {
                    assert(!self.views().contains_key(key@));
                }
                (0, false)
            },
        };
        proof {
            if present {
                lemma_sizes_split(e, position->Ok_0 as int);
            }
        }
        let remaining = self.bytes - previous;
        let count = if present { self.latest.len() } else { self.latest.len() + 1 };
        if remaining > VIEW_BYTES || record.size > VIEW_BYTES - remaining || count > VIEW_COUNT {
            return Err(PublishError::Full);
        }
        if self.revision == u64::MAX {
            return Err(PublishError::RevisionExhausted);
        }
        let revision = self.revision + 1;
        let size = record.size;
        let mut stored = record;
        stored.revision = revision;
        let ghost entry = (key@, stored@);
        let ghost before = self.entries();
        match position {
            Ok(i) => {
                self.latest.remove(i);
                self.latest.insert(i, (key, stored));
                proof {
                    assert(self.entries() =~= before.update(i as int, entry));
                    lemma_keyed_update(before, i as int, stored@);
                    assert(before.update(i as int, (before[i as int].0, stored@)) == before.update(i as int, entry));
                    lemma_sizes_update(before, i as int, entry);
                }
            },
            Err(i) => {
                self.latest.insert(i, (key, stored));
                proof {
                    assert(self.entries() =~= before.insert(i as int, entry));
                    lemma_keyed_insert(before, i as int, entry.0, stored@);
                    lemma_sizes_insert(before, i as int, entry);
                }
            },
        }
        self.revision = revision;
        self.bytes = remaining + size;
        proof {
            let t = self.entries();
            assert forall|j: int| 0 <= j < t.len() implies (#[trigger] t[j]).1.revision <= self.revision by {
                match position {
                    Ok(i) => {
                        if j != i {
                            assert(t[j] == before[j]);
                        }
                    },
                    Err(i) => {
                        if j < i {
                            assert(t[j] == before[j]);
                        } else if j > i {
                            assert(t[j] == before[j - 1]);
                        }
                    },
                }
            }
        }
        Ok(Some(revision))
    }

    /// Remove the view of instance `key` under the next revision: the removed
    /// view and that revision, for broadcasting its destruction. Nothing
    /// happens when no view of it is retained.
    pub fn remove(&mut self, key: &str) -> (r: Option<(ViewRecord, u64)>)
        requires
            old(self).wf(),
            old(self).revision() < u64::MAX,
        ensures
            final(self).wf(),
            final(self).limit() == old(self).limit(),
            !old(self).views().contains_key(key@) ==> r is None && final(self).views() == old(self).views()
                && final(self).revision() == old(self).revision() && final(self).bytes() == old(self).bytes(),
            old(self).views().contains_key(key@) ==> (r matches Some((view, rev)) && view@ == old(self).views()[key@]
                && rev == old(self).revision() + 1 && final(self).revision() == rev
                && final(self).views() == old(self).views().remove(key@)
                && final(self).bytes() == old(self).bytes() - view.size),
    {
        let ghost e = self.entries();
        match self.position(key) {
            Err(_) => None,
            Ok(i) => {
                proof {
                    lemma_keyed_index(e, i as int);
                    lemma_keyed_remove(e, i as int);
                    lemma_sizes_remove(e, i as int);
                    lemma_sizes_split(e, i as int);
                }
                let (_, view) = self.latest.remove(i);
                proof {
                    assert(self.entries() =~= e.remove(i as int));
                    let t = self.entries();
                    assert forall|j: int| 0 <= j < t.len() implies (#[trigger] t[j]).1.revision <= self.revision + 1 by {
                        if j < i {
                            assert(t[j] == e[j]);
                        } else {
                            assert(t[j] == e[j + 1]);
                        }
                    }
                }
                self.bytes = self.bytes - view.size;
                self.revision = self.revision + 1;
                Some((view, self.revision))
            },
        }
    }

    /// The keys of the retained views a selector picks, in key order.
    pub fn keys_matching(&self, selector: &Selector) -> (r: Vec<String>)
        requires
            self.wf(),
        ensures
            r@.map_values(|k: String| k@) == self.entries().filter(|e: (Seq<char>, ViewEntry)| selects(*selector, e.1)).map_values(
                |e: (Seq<char>, ViewEntry)| e.0,
            ),
    {
        let ghost e = self.entries();
        let ghost pick = |x: (Seq<char>, ViewEntry)| selects(*selector, x.1);
        let mut out: Vec<String> = Vec::new();
        let mut k: usize = 0;
        proof {
            reveal(Seq::filter);
            assert(e.take(0).filter(pick) =~= Seq::<(Seq<char>, ViewEntry)>::empty());
            assert(out@.map_values(|k: String| k@) =~= Seq::<Seq<char>>::empty());
        }
        while k < self.latest.len()
            invariant
                k <= self.latest@.len(),
                e == self.entries(),
                pick == (|x: (Seq<char>, ViewEntry)| selects(*selector, x.1)),
                out@.map_values(|k: String| k@) == e.take(k as int).filter(pick).map_values(|x: (Seq<char>, ViewEntry)| x.0),
            decreases self.latest@.len() - k,
        {
            proof {
                reveal(Seq::filter);
                assert(e.take(k + 1).drop_last() =~= e.take(k as int));
                assert(e.take(k + 1).last() == e[k as int]);
            }
            let record = &self.latest[k].1;
            let picked = match selector {
                Selector::Plugin(p) => text_eq(record.plugin.as_str(), p.as_str()),
                Selector::Module(m) => match &record.module {
                    Some(own) => text_eq(own.as_str(), m.as_str()),
                    None => false,
                },
                Selector::Surface(p, sf, m) => text_eq(record.plugin.as_str(), p.as_str()) && text_eq(
                    record.surface.as_str(),
                    sf.as_str(),
                ) && match (&record.module, m) {
                    (Some(a), Some(b)) => text_eq(a.as_str(), b.as_str()),
                    (None, None) => true,
                    _ => false,
                },
            };
            if picked {
                let ghost before = out@.map_values(|k: String| k@);
                out.push(self.latest[k].0.clone());
                proof {
                    let f = e.take(k as int).filter(pick);
                    assert(f.push(e[k as int]).map_values(|x: (Seq<char>, ViewEntry)| x.0) =~= f.map_values(
                        |x: (Seq<char>, ViewEntry)| x.0,
                    ).push(e[k as int].0));
                    assert(out@.map_values(|k: String| k@) =~= before.push(e[k as int].0));
                }
            }
            k = k + 1;
        }
        proof {
            assert(e.take(e.len() as int) =~= e);
        }
        out
    }

    /// Remove every retained view a selector picks, each under the next
    /// revision: the removed views with those revisions, in key order, for
    /// broadcasting their destruction. This is how a disconnected plugin's
    /// views, a module slot's views, or a surface's views are forgotten.
    pub fn drop_matching(&mut self, selector: &Selector) -> (r: Vec<(ViewRecord, u64)>)
        requires
            old(self).wf(),
            old(self).revision() + old(self).entries().filter(|e: (Seq<char>, ViewEntry)| selects(*selector, e.1)).len() <= u64::MAX,
        ensures
            final(self).wf(),
            final(self).limit() == old(self).limit(),
            ({
                let picked = old(self).entries().filter(|e: (Seq<char>, ViewEntry)| selects(*selector, e.1));
                &&& r@.len() == picked.len()
                &&& forall|i: int| 0 <= i < r@.len() ==> (#[trigger] r@[i]).0@ == picked[i].1 && r@[i].1 == old(self).revision() + i + 1
                &&& final(self).revision() == old(self).revision() + picked.len()
            }),
            final(self).views() == Map::new(
                |k: Seq<char>| old(self).views().contains_key(k) && !selects(*selector, old(self).views()[k]),
                |k: Seq<char>| old(self).views()[k],
            ),
    {
        let ghost e = self.entries();
        let ghost start = self.views();
        let ghost pick = |x: (Seq<char>, ViewEntry)| selects(*selector, x.1);
        let ghost picked = e.filter(pick);
        let keys = self.keys_matching(selector);
        proof {
            assert(pick == (|x: (Seq<char>, ViewEntry)| selects(*selector, x.1)));
            lemma_filter_keyed(e, pick);
            let kv = keys@.map_values(|k: String| k@);
            let pv = picked.map_values(|x: (Seq<char>, ViewEntry)| x.0);
            assert(e.filter(|x: (Seq<char>, ViewEntry)| selects(*selector, x.1)) == picked);
            assert(kv == pv);
            assert(keys@.len() == kv.len() && picked.len() == pv.len());
            assert forall|i: int| 0 <= i < keys@.len() implies #[trigger] keys@[i]@ == picked[i].0 by {
                assert(kv[i] == keys@[i]@);
                assert(pv[i] == picked[i].0);
            }
        }
        let mut out: Vec<(ViewRecord, u64)> = Vec::new();
        let mut k: usize = 0;
        while k < keys.len()
            invariant
                k <= keys@.len(),
                keys@.len() == picked.len(),
                forall|i: int| 0 <= i < keys@.len() ==> #[trigger] keys@[i]@ == picked[i].0,
                keyed_sorted(picked),
                forall|x: (Seq<char>, ViewEntry)| #[trigger] picked.contains(x) ==> e.contains(x) && pick(x),
                keyed_sorted(e),
                start == keyed_map(e),
                pick == (|x: (Seq<char>, ViewEntry)| selects(*selector, x.1)),
                self.wf(),
                self.limit() == old(self).limit(),
                self.revision() == old(self).revision() + k,
                old(self).revision() + picked.len() <= u64::MAX,
                out@.len() == k,
                forall|i: int| 0 <= i < k ==> (#[trigger] out@[i]).0@ == picked[i].1 && out@[i].1 == old(self).revision() + i + 1,
                forall|n: Seq<char>| #[trigger] self.views().contains_key(n) <==> (start.contains_key(n) && !(exists|i: int|
                    0 <= i < k && picked[i].0 == n)),
                forall|n: Seq<char>| #[trigger] self.views().contains_key(n) ==> self.views()[n] == start[n],
            decreases keys@.len() - k,
        {
            let ghost x = picked[k as int];
            proof {
                assert(picked.contains(x));
                assert(e.contains(x));
                let j = choose|j: int| 0 <= j < e.len() && e[j] == x;
                lemma_keyed_index(e, j);
                assert forall|i: int| 0 <= i < k implies picked[i].0 != x.0 by {
                    crate::text::lemma_name_lt_asymmetric(picked[i].0, picked[k as int].0);
                }
                assert(self.views().contains_key(x.0));
            }
            let removed = self.remove(keys[k].as_str());
            match removed {
                Some(pair) => {
                    out.push(pair);
                },
                None => {},
            }
            proof {
                assert forall|n: Seq<char>| #[trigger] self.views().contains_key(n) <==> (start.contains_key(n) && !(exists|i: int|
                    0 <= i < k + 1 && picked[i].0 == n)) by {
                    if exists|i: int| 0 <= i < k + 1 && picked[i].0 == n {
                        let i = choose|i: int| 0 <= i < k + 1 && picked[i].0 == n;
                        if i < k {
                            assert(exists|i2: int| 0 <= i2 < k && picked[i2].0 == n);
                        }
                    }
                }
            }
            k = k + 1;
        }
        proof {
            assert forall|n: Seq<char>| (exists|i: int| 0 <= i < picked.len() && picked[i].0 == n) <==> (start.contains_key(n)
                && selects(*selector, start[n])) by {
                if exists|i: int| 0 <= i < picked.len() && picked[i].0 == n {
                    let i = choose|i: int| 0 <= i < picked.len() && picked[i].0 == n;
                    assert(picked.contains(picked[i]));
                    let j = choose|j: int| 0 <= j < e.len() && e[j] == picked[i];
                    lemma_keyed_index(e, j);
                }
                if start.contains_key(n) && selects(*selector, start[n]) {
                    let j = crate::keyed::lemma_keyed_lookup(e, n);
                    lemma_keyed_index(e, j);
                    e.lemma_filter_contains(pick, j);
                    let i = choose|i: int| 0 <= i < picked.len() && picked[i] == e[j];
                    assert(picked[i].0 == n);
                }
            }
            assert(self.views() =~= Map::new(
                |n: Seq<char>| start.contains_key(n) && !selects(*selector, start[n]),
                |n: Seq<char>| start[n],
            ));
        }
        out
    }
}

} // verus!

//! A Cargo workspace's member directories: what its `members` patterns
//! expand to, less what its `exclude` patterns expand to, sorted and each
//! once.
//!
//! Expanding a pattern reads the filesystem; the expansions are handed in,
//! one result per pattern in the order the workspace lists them. A directory
//! is given as its path components, and directories are ordered as paths
//! are: component by component, each compared by its bytes, a path before
//! every longer path it begins.
use vstd::prelude::*;
use crate::keyed::{keyed_map, keyed_sorted, lemma_keyed_empty, lemma_keyed_index, lemma_keyed_lookup, names_view, place, table_view};
use crate::refusal::compose;
use crate::text::{lemma_name_lt_asymmetric, lemma_name_lt_irreflexive, lemma_name_lt_total, lemma_name_lt_transitive, name_lt, text_eq, text_less};

verus! {

/// A directory, as its components.
pub open spec fn dir_view(d: Vec<String>) -> Seq<Seq<char>> {
    d@.map_values(|c: String| c@)
}

pub open spec fn dirs_view(ds: Seq<Vec<String>>) -> Seq<Seq<Seq<char>>> {
    ds.map_values(|d: Vec<String>| dir_view(d))
}

/// Path order: the first component that differs decides; a path comes
/// before every longer path it begins.
pub open spec fn path_lt(a: Seq<Seq<char>>, b: Seq<Seq<char>>) -> bool
    decreases a.len(),
{
    if b.len() == 0 {
        false
    } else if a.len() == 0 {
        true
    } else if a[0] == b[0] {
        path_lt(a.drop_first(), b.drop_first())
    } else {
        name_lt(a[0], b[0])
    }
}

/// Directories in strictly increasing path order, hence each once.
pub open spec fn paths_sorted(ds: Seq<Seq<Seq<char>>>) -> bool {
    forall|i: int, j: int| 0 <= i < j < ds.len() ==> path_lt(#[trigger] ds[i], #[trigger] ds[j])
}

pub proof fn lemma_path_lt_irreflexive(a: Seq<Seq<char>>)
    ensures
        !path_lt(a, a),
    decreases a.len(),
{
    if a.len() > 0 {
        lemma_path_lt_irreflexive(a.drop_first());
    }
}

pub proof fn lemma_path_lt_transitive(a: Seq<Seq<char>>, b: Seq<Seq<char>>, c: Seq<Seq<char>>)
    requires
        path_lt(a, b),
        path_lt(b, c),
    ensures
        path_lt(a, c),
    decreases a.len(),
{
    if a.len() > 0 {
        if a[0] == b[0] && b[0] == c[0] {
            lemma_path_lt_transitive(a.drop_first(), b.drop_first(), c.drop_first());
        } else if a[0] == b[0] {
            lemma_name_lt_asymmetric(b[0], c[0]);
        } else if b[0] == c[0] {
            lemma_name_lt_asymmetric(a[0], b[0]);
        } else {
            lemma_name_lt_transitive(a[0], b[0], c[0]);
            lemma_name_lt_asymmetric(a[0], c[0]);
        }
    }
}

/// Two different paths are ordered one way or the other.
pub proof fn lemma_path_lt_total(a: Seq<Seq<char>>, b: Seq<Seq<char>>)
    requires
        a != b,
    ensures
        path_lt(a, b) || path_lt(b, a),
    decreases a.len(),
{
    if a.len() == 0 {
        if b.len() == 0 {
            assert(a =~= b);
        }
    } else if b.len() > 0 {
        if a[0] == b[0] {
            if a.drop_first() == b.drop_first() {
                assert(a.drop_first().len() == a.len() - 1);
                assert(b.drop_first().len() == b.len() - 1);
                assert(a.drop_first().len() == b.drop_first().len());
                assert(a =~= b) by {
                    assert forall|i: int| 0 <= i < a.len() implies a[i] == b[i] by {
                        if i > 0 {
                            assert(a[i] == a.drop_first()[i - 1]);
                            assert(b[i] == b.drop_first()[i - 1]);
                        }
                    }
                }
            }
            lemma_path_lt_total(a.drop_first(), b.drop_first());
        } else {
            lemma_name_lt_total(a[0], b[0]);
        }
    }
}

/// Whether `a` comes before `b` in path order.
pub fn path_less(a: &Vec<String>, b: &Vec<String>) -> (r: bool)
    ensures
        r == path_lt(dir_view(*a), dir_view(*b)),
{
    let ghost x = dir_view(*a);
    let ghost y = dir_view(*b);
    let mut i: usize = 0;
    proof {
        assert(x.skip(0) =~= x);
        assert(y.skip(0) =~= y);
    }
    while i < a.len() && i < b.len() && text_eq(a[i].as_str(), b[i].as_str())
        invariant
            i <= a@.len(),
            i <= b@.len(),
            x == dir_view(*a),
            y == dir_view(*b),
            path_lt(x, y) == path_lt(x.skip(i as int), y.skip(i as int)),
        decreases a@.len() - i,
    {
        proof {
            assert(x.skip(i as int)[0] == x[i as int]);
            assert(y.skip(i as int)[0] == y[i as int]);
            assert(x.skip(i as int).drop_first() =~= x.skip(i + 1));
            assert(y.skip(i as int).drop_first() =~= y.skip(i + 1));
        }
        i = i + 1;
    }
    if i == b.len() {
        proof {
            assert(y.skip(i as int).len() == 0);
        }
        return false;
    }
    if i == a.len() {
        proof {
            assert(x.skip(i as int).len() == 0);
            assert(y.skip(i as int).len() > 0);
        }
        return true;
    }
    proof {
        assert(x.skip(i as int)[0] == x[i as int]);
        assert(y.skip(i as int)[0] == y[i as int]);
    }
    text_less(a[i].as_str(), b[i].as_str())
}

/// Whether two directories are the same path.
pub fn path_same(a: &Vec<String>, b: &Vec<String>) -> (r: bool)
    ensures
        r == (dir_view(*a) == dir_view(*b)),
{
    let ghost x = dir_view(*a);
    let ghost y = dir_view(*b);
    if a.len() != b.len() {
        proof {
            if x == y {
                assert(x.len() == y.len());
            }
        }
        return false;
    }
    let mut i: usize = 0;
    while i < a.len()
        invariant
            i <= a@.len(),
            a@.len() == b@.len(),
            x == dir_view(*a),
            y == dir_view(*b),
            forall|j: int| 0 <= j < i ==> x[j] == y[j],
        decreases a@.len() - i,
    {
        if !text_eq(a[i].as_str(), b[i].as_str()) {
            proof {
                if x == y {
                    assert(x[i as int] == y[i as int]);
                }
            }
            return false;
        }
        i = i + 1;
    }
    proof {
        assert(x =~= y);
    }
    true
}

/// A directory pattern that could not be expanded: the pattern, the
/// directory it was expanded in, and why.
#[derive(Debug)]
pub enum PatternError {
    Expand { pattern: String, dir: String, reason: String },
}

pub struct PatternErrorView {
    pub pattern: Seq<char>,
    pub dir: Seq<char>,
    pub reason: Seq<char>,
}

impl View for PatternError {
    type V = PatternErrorView;

    open spec fn view(&self) -> PatternErrorView {
        match self {
            PatternError::Expand { pattern, dir, reason } => PatternErrorView { pattern: pattern@, dir: dir@, reason: reason@ },
        }
    }
}

/// How `{:?}` writes a string: quoted, with quotes, backslashes and control
/// characters escaped.
pub uninterp spec fn debug_quoted(text: Seq<char>) -> Seq<char>;

/// Calls std's `Debug` formatting of `str` (`format!("{:?}", ..)`); its
/// result is named by `debug_quoted` and not stated further.
#[verifier::external_body]
fn quoted(text: &str) -> (r: String)
    ensures
        r@ == debug_quoted(text@),
{
    format!("{:?}", text)
}

impl PatternError {
    /// A copy of this error.
    pub fn duplicate(&self) -> (r: Self)
        ensures
            r@ == self@,
    {
        match self {
            PatternError::Expand { pattern, dir, reason } => PatternError::Expand {
                pattern: pattern.clone(),
                dir: dir.clone(),
                reason: reason.clone(),
            },
        }
    }

    /// The error in words: "cannot expand", the quoted pattern, "in" the
    /// directory, and why.
    pub fn describe(&self) -> (r: String)
        ensures
            r@ == "cannot expand "@ + debug_quoted(self@.pattern) + " in "@ + self@.dir + ": "@ + self@.reason,
    {
        match self {
            PatternError::Expand { pattern, dir, reason } => {
                let q = quoted(pattern.as_str());
                let head = compose("cannot expand ", q.as_str(), " in ");
                let tail = compose(": ", reason.as_str(), "");
                let text = compose(head.as_str(), dir.as_str(), tail.as_str());
                proof {
                    reveal_strlit("");
                    assert(text@ =~= "cannot expand "@ + debug_quoted(pattern@) + " in "@ + dir@ + ": "@ + reason@);
                }
                text
            },
        }
    }
}

/// What each pattern expanded to, in the order the patterns are listed.
pub type Expansions = Vec<Result<Vec<Vec<String>>, PatternError>>;

/// The first pattern that could not be expanded.
pub open spec fn first_failure(list: Seq<Result<Vec<Vec<String>>, PatternError>>) -> Option<int> {
    if exists|i: int| 0 <= i < list.len() && (#[trigger] list[i]) is Err {
        Some(choose|i: int| 0 <= i < list.len() && (#[trigger] list[i]) is Err && forall|j: int| 0 <= j < i ==> list[j] is Ok)
    } else {
        None
    }
}

/// Every directory the patterns expanded to, in order.
pub open spec fn expanded(list: Seq<Result<Vec<Vec<String>>, PatternError>>) -> Seq<Seq<Seq<char>>>
    decreases list.len(),
{
    if list.len() == 0 {
        Seq::empty()
    } else {
        expanded(list.drop_last()) + match list.last() {
            Ok(ds) => dirs_view(ds@),
            Err(_) => Seq::empty(),
        }
    }
}

/// The error of the first pattern that failed, if one did.
fn first_error(list: &Expansions) -> (r: Option<PatternError>)
    ensures
        match first_failure(list@) {
            Some(i) => r matches Some(e) && e@ == list@[i]->Err_0@,
            None => r is None,
        },
{
    let mut i: usize = 0;
    while i < list.len()
        invariant
            i <= list@.len(),
            forall|j: int| 0 <= j < i ==> list@[j] is Ok,
        decreases list@.len() - i,
    {
        match &list[i] {
            Err(e) => {
                proof {
                    let c = choose|c: int| 0 <= c < list@.len() && (#[trigger] list@[c]) is Err && forall|j: int|
                        0 <= j < c ==> list@[j] is Ok;
                    if c < i {
                        assert(list@[c] is Ok);
                    }
                    if c > i {
                        assert(list@[i as int] is Ok);
                    }
                }
                return Some(e.duplicate());
            },
            Ok(_) => {},
        }
        i = i + 1;
    }
    None
}

fn copy_dir(d: &Vec<String>) -> (r: Vec<String>)
    ensures
        dir_view(r) == dir_view(*d),
{
    let mut out: Vec<String> = Vec::new();
    let mut k: usize = 0;
    while k < d.len()
        invariant
            k <= d@.len(),
            dir_view(out) == dir_view(*d).take(k as int),
        decreases d@.len() - k,
    {
        let ghost before = dir_view(out);
        out.push(d[k].clone());
        proof {
            assert(dir_view(out) =~= before.push(d@[k as int]@));
            assert(dir_view(*d).take(k + 1) =~= dir_view(*d).take(k as int).push(d@[k as int]@));
        }
        k = k + 1;
    }
    proof {
        assert(dir_view(*d).take(d@.len() as int) =~= dir_view(*d));
    }
    out
}

/// Every directory the patterns expanded to, in order.
fn flatten(list: &Expansions) -> (r: Vec<Vec<String>>)
    ensures
        dirs_view(r@) == expanded(list@),
{
    let mut out: Vec<Vec<String>> = Vec::new();
    let mut i: usize = 0;
    while i < list.len()
        invariant
            i <= list@.len(),
            dirs_view(out@) == expanded(list@.take(i as int)),
        decreases list@.len() - i,
    {
        proof {
            assert(list@.take(i + 1).drop_last() =~= list@.take(i as int));
            assert(list@.take(i + 1).last() == list@[i as int]);
        }
        match &list[i] {
            Ok(ds) => {
                let ghost start = dirs_view(out@);
                let mut j: usize = 0;
                while j < ds.len()
                    invariant
                        j <= ds@.len(),
                        dirs_view(out@) == start + dirs_view(ds@).take(j as int),
                    decreases ds@.len() - j,
                {
                    let ghost before = dirs_view(out@);
                    out.push(copy_dir(&ds[j]));
                    proof {
                        assert(dirs_view(out@) =~= before.push(dir_view(ds@[j as int])));
                        assert(dirs_view(ds@).take(j + 1) =~= dirs_view(ds@).take(j as int).push(dir_view(ds@[j as int])));
                    }
                    j = j + 1;
                }
                proof {
                    assert(dirs_view(ds@).take(ds@.len() as int) =~= dirs_view(ds@));
                }
            },
            Err(_) => {
                proof {
                    assert(dirs_view(out@) =~= expanded(list@.take(i as int)) + Seq::<Seq<Seq<char>>>::empty());
                }
            },
        }
        i = i + 1;
    }
    proof {
        assert(list@.take(list@.len() as int) =~= list@);
    }
    out
}

/// Whether one of `dirs` is `d`.
fn dirs_contain(dirs: &Vec<Vec<String>>, d: &Vec<String>) -> (r: bool)
    ensures
        r == dirs_view(dirs@).contains(dir_view(*d)),
{
    let ghost v = dirs_view(dirs@);
    let mut k: usize = 0;
    while k < dirs.len()
        invariant
            k <= dirs@.len(),
            v == dirs_view(dirs@),
            forall|j: int| 0 <= j < k ==> v[j] != dir_view(*d),
        decreases dirs@.len() - k,
    {
        if path_same(&dirs[k], d) {
            proof {
                assert(v[k as int] == dir_view(*d));
            }
            return true;
        }
        k = k + 1;
    }
    false
}

/// Add `d` to directories kept in path order, unless it is there already.
fn insert_dir(dirs: &mut Vec<Vec<String>>, d: Vec<String>)
    requires
        paths_sorted(dirs_view(old(dirs)@)),
    ensures
        paths_sorted(dirs_view(final(dirs)@)),
        forall|p: Seq<Seq<char>>| #[trigger] dirs_view(final(dirs)@).contains(p) <==> (dirs_view(old(dirs)@).contains(p) || p
            == dir_view(d)),
{
    let ghost s = dirs_view(dirs@);
    let ghost n = dir_view(d);
    let mut i: usize = 0;
    while i < dirs.len() && path_less(&dirs[i], &d)
        invariant
            i <= dirs@.len(),
            s == dirs_view(dirs@),
            paths_sorted(s),
            n == dir_view(d),
            forall|a: int| 0 <= a < i ==> path_lt(#[trigger] s[a], n),
        decreases dirs@.len() - i,
    {
        i = i + 1;
    }
    if i < dirs.len() && path_same(&dirs[i], &d) {
        proof {
            assert(s[i as int] == n);
        }
        return;
    }
    proof {
        if i < s.len() {
            lemma_path_lt_total(s[i as int], n);
            assert forall|a: int| i <= a < s.len() implies path_lt(n, #[trigger] s[a]) by {
                if a > i {
                    lemma_path_lt_transitive(n, s[i as int], s[a]);
                }
            }
        }
    }
    dirs.insert(i, d);
    proof {
        let t = dirs_view(dirs@);
        assert(t =~= s.insert(i as int, n));
        assert forall|a: int, b: int| 0 <= a < b < t.len() implies path_lt(#[trigger] t[a], #[trigger] t[b]) by {
            if b < i {
            } else if a < i && b == i {
            } else if a < i && b > i {
                assert(t[b] == s[b - 1]);
                lemma_path_lt_transitive(s[a], n, s[b - 1]);
            } else if a == i {
                assert(t[b] == s[b - 1]);
            } else {
                assert(t[a] == s[a - 1]);
                assert(t[b] == s[b - 1]);
            }
        }
        assert forall|p: Seq<Seq<char>>| #[trigger] t.contains(p) <==> (s.contains(p) || p == n) by {
            if t.contains(p) {
                let a = choose|a: int| 0 <= a < t.len() && t[a] == p;
                if a < i {
                    assert(s[a] == p);
                } else if a > i {
                    assert(s[a - 1] == p);
                }
            }
            if s.contains(p) {
                let a = choose|a: int| 0 <= a < s.len() && s[a] == p;
                if a < i {
                    assert(t[a] == p);
                } else {
                    assert(t[a + 1] == p);
                }
            }
            if p == n {
                assert(t[i as int] == p);
            }
        }
    }
}

/// The member directories a workspace declares: what its member patterns
/// expand to, less what its exclude patterns expand to, in path order and
/// each once. Exclude patterns are expanded first; the first pattern that
/// could not be expanded is the answer.
pub fn member_dirs(members: &Expansions, excluded: &Expansions) -> (r: Result<Vec<Vec<String>>, PatternError>)
    ensures
        match first_failure(excluded@) {
            Some(i) => r matches Err(e) && e@ == excluded@[i]->Err_0@,
            None => match first_failure(members@) {
                Some(i) => r matches Err(e) && e@ == members@[i]->Err_0@,
                None => r matches Ok(dirs) && paths_sorted(dirs_view(dirs@)) && forall|p: Seq<Seq<char>>|
                    #[trigger] dirs_view(dirs@).contains(p) <==> (expanded(members@).contains(p) && !expanded(excluded@).contains(p)),
            },
        },
{
    if let Some(error) = first_error(excluded) {
        return Err(error);
    }
    if let Some(error) = first_error(members) {
        return Err(error);
    }
    let skip = flatten(excluded);
    let candidates = flatten(members);
    let ghost c = dirs_view(candidates@);
    let ghost x = dirs_view(skip@);
    let mut out: Vec<Vec<String>> = Vec::new();
    let mut k: usize = 0;
    proof {
        assert(dirs_view(out@) =~= Seq::<Seq<Seq<char>>>::empty());
    }
    while k < candidates.len()
        invariant
            k <= candidates@.len(),
            c == dirs_view(candidates@),
            x == dirs_view(skip@),
            paths_sorted(dirs_view(out@)),
            forall|p: Seq<Seq<char>>| #[trigger] dirs_view(out@).contains(p) <==> (c.take(k as int).contains(p) && !x.contains(p)),
        decreases candidates@.len() - k,
    {
        let ghost before = dirs_view(out@);
        let ghost n = c[k as int];
        proof {
            assert(c.take(k + 1) =~= c.take(k as int).push(n));
        }
        if !dirs_contain(&skip, &candidates[k]) {
            insert_dir(&mut out, copy_dir(&candidates[k]));
            proof {
                assert forall|p: Seq<Seq<char>>| #[trigger] dirs_view(out@).contains(p) <==> (c.take(k + 1).contains(p) && !x.contains(p)) by {
                    vstd::seq_lib::lemma_seq_contains_after_push(c.take(k as int), n, p);
                }
            }
        } else {
            proof {
                assert forall|p: Seq<Seq<char>>| #[trigger] dirs_view(out@).contains(p) <==> (c.take(k + 1).contains(p) && !x.contains(p)) by {
                    vstd::seq_lib::lemma_seq_contains_after_push(c.take(k as int), n, p);
                }
            }
        }
        k = k + 1;
    }
    proof {
        assert(c.take(c.len() as int) =~= c);
    }
    Ok(out)
}

/// Whether `dir` lies directly inside `parent`.
pub open spec fn child_of(dir: Seq<Seq<char>>, parent: Seq<Seq<char>>) -> bool {
    dir.len() == parent.len() + 1 && dir.take(parent.len() as int) == parent
}

/// The units of a workspace: the names of its member directories that lie
/// directly inside the units directory.
pub open spec fn units_among(dirs: Seq<Seq<Seq<char>>>, units_dir: Seq<Seq<char>>) -> Set<Seq<char>> {
    Set::new(|n: Seq<char>| exists|i: int| 0 <= i < dirs.len() && child_of(#[trigger] dirs[i], units_dir) && dirs[i].last() == n)
}

/// The units among `dirs`: the names of those directly inside `units_dir`,
/// in name order and each once. Other members (a shared library crate, say)
/// are members of the workspace but not units.
pub fn unit_names(dirs: &Vec<Vec<String>>, units_dir: &Vec<String>) -> (r: Vec<String>)
    ensures
        crate::text::names_sorted(names_view(r@)),
        names_view(r@).to_set() == units_among(dirs_view(dirs@), dir_view(*units_dir)),
{
    let ghost d = dirs_view(dirs@);
    let ghost u = dir_view(*units_dir);
    let mut table: Vec<(String, ())> = Vec::new();
    proof {
        lemma_keyed_empty(table_view(table@));
    }
    let mut k: usize = 0;
    while k < dirs.len()
        invariant
            k <= dirs@.len(),
            d == dirs_view(dirs@),
            u == dir_view(*units_dir),
            keyed_sorted(table_view(table@)),
            forall|n: Seq<char>| #[trigger] keyed_map(table_view(table@)).contains_key(n) <==> exists|i: int|
                0 <= i < k && child_of(#[trigger] d[i], u) && d[i].last() == n,
        decreases dirs@.len() - k,
    {
        let dir = &dirs[k];
        let ghost dv = d[k as int];
        let direct = units_dir.len() < dir.len() && dir.len() - units_dir.len() == 1 && prefix_same(dir, units_dir);
        proof {
            assert(dir_view(*dir) == dv);
            assert(direct == child_of(dv, u));
        }
        if direct {
            let name = dir[dir.len() - 1].clone();
            let ghost before = keyed_map(table_view(table@));
            place(&mut table, name, ());
            proof {
                assert(dv.last() == dir@[dir@.len() - 1]@);
                assert forall|n: Seq<char>| #[trigger] keyed_map(table_view(table@)).contains_key(n) <==> exists|i: int|
                    0 <= i < k + 1 && child_of(#[trigger] d[i], u) && d[i].last() == n by {
                    if n == dv.last() {
                        assert(child_of(d[k as int], u) && d[k as int].last() == n);
                    } else if exists|i: int| 0 <= i < k + 1 && child_of(#[trigger] d[i], u) && d[i].last() == n {
                        let i = choose|i: int| 0 <= i < k + 1 && child_of(#[trigger] d[i], u) && d[i].last() == n;
                        assert(i < k);
                        assert(before.contains_key(n));
                    }
                }
            }
        } else {
            proof {
                assert forall|n: Seq<char>| #[trigger] keyed_map(table_view(table@)).contains_key(n) <==> exists|i: int|
                    0 <= i < k + 1 && child_of(#[trigger] d[i], u) && d[i].last() == n by {
                    if exists|i: int| 0 <= i < k + 1 && child_of(#[trigger] d[i], u) && d[i].last() == n {
                        let i = choose|i: int| 0 <= i < k + 1 && child_of(#[trigger] d[i], u) && d[i].last() == n;
                        assert(i < k);
                    }
                }
            }
        }
        k = k + 1;
    }
    let ghost s = table_view(table@);
    let mut out: Vec<String> = Vec::new();
    let mut j: usize = 0;
    while j < table.len()
        invariant
            j <= table@.len(),
            s == table_view(table@),
            keyed_sorted(s),
            names_view(out@) == s.take(j as int).map_values(|e: (Seq<char>, ())| e.0),
        decreases table@.len() - j,
    {
        let ghost prior = names_view(out@);
        out.push(table[j].0.clone());
        proof {
            assert(names_view(out@) =~= prior.push(s[j as int].0));
            assert(s.take(j + 1).map_values(|e: (Seq<char>, ())| e.0) =~= s.take(j as int).map_values(|e: (Seq<char>, ())| e.0).push(
                s[j as int].0,
            ));
        }
        j = j + 1;
    }
    proof {
        assert(s.take(s.len() as int) =~= s);
        let names = names_view(out@);
        assert forall|a: int, b: int| 0 <= a < b < names.len() implies name_lt(#[trigger] names[a], #[trigger] names[b]) by {
            assert(names[a] == s[a].0 && names[b] == s[b].0);
        }
        assert forall|n: Seq<char>| names.to_set().contains(n) <==> units_among(d, u).contains(n) by {
            if names.contains(n) {
                let a = choose|a: int| 0 <= a < names.len() && names[a] == n;
                lemma_keyed_index(s, a);
            }
            if keyed_map(s).contains_key(n) {
                let a = lemma_keyed_lookup(s, n);
                assert(names[a] == n);
            }
        }
        assert(names.to_set() =~= units_among(d, u));
    }
    out
}

/// Whether `dir` begins with the components of `prefix`.
fn prefix_same(dir: &Vec<String>, prefix: &Vec<String>) -> (r: bool)
    requires
        prefix@.len() <= dir@.len(),
    ensures
        r == (dir_view(*dir).take(prefix@.len() as int) == dir_view(*prefix)),
{
    let ghost x = dir_view(*dir);
    let ghost y = dir_view(*prefix);
    let mut i: usize = 0;
    while i < prefix.len()
        invariant
            i <= prefix@.len(),
            prefix@.len() <= dir@.len(),
            x == dir_view(*dir),
            y == dir_view(*prefix),
            forall|j: int| 0 <= j < i ==> x[j] == y[j],
        decreases prefix@.len() - i,
    {
        if !text_eq(dir[i].as_str(), prefix[i].as_str()) {
            proof {
                if x.take(prefix@.len() as int) == y {
                    assert(x.take(prefix@.len() as int)[i as int] == x[i as int]);
                }
            }
            return false;
        }
        i = i + 1;
    }
    proof {
        assert(x.take(prefix@.len() as int) =~= y);
    }
    true
}

} // verus!

//! The shell-sourceable session environment.
use vstd::prelude::*;
use vstd::utf8::encode_utf8;
use crate::keyed::{keyed_map, keyed_sorted, lemma_keyed_empty, lemma_keyed_index, lemma_keyed_insert, lemma_keyed_update, lemma_keyed_lookup};
use crate::reconcile::ProviderError;
use crate::text::{lemma_name_lt_total, lemma_name_lt_transitive, name_lt, text_eq, text_less};

verus! {

/// `'`
pub const QUOTE: u8 = 39;
/// `\`
pub const BACKSLASH: u8 = 92;
/// `=`
pub const EQUALS: u8 = 61;
/// A line feed.
pub const NEWLINE: u8 = 10;

/// A filesystem path, carried as the standard library holds it.
#[verifier::external_type_specification]
#[verifier::external_body]
pub struct ExPathBuf(std::path::PathBuf);

/// One `environment` declaration of the document.
#[derive(Debug, Clone, PartialEq, Eq)]
pub struct Variable {
    pub key: String,
    pub value: String,
}

/// The variables a declaration list assigns: a later declaration of a key
/// replaces an earlier one.
pub open spec fn assigned(vars: Seq<(Seq<char>, Seq<char>)>) -> Map<Seq<char>, Seq<char>>
    decreases vars.len(),
{
    if vars.len() == 0 {
        Map::empty()
    } else {
        assigned(vars.drop_last()).insert(vars.last().0, vars.last().1)
    }
}

/// Bytes a shell reads literally outside quotes: ASCII letters and digits and
/// `_./:-@,`.
pub open spec fn plain_byte(b: u8) -> bool {
    (48u8 <= b <= 57u8) || (97u8 <= b <= 122u8) || (65u8 <= b <= 90u8) || b == 95u8 || b == 46u8
        || b == 47u8 || b == 58u8 || b == 45u8 || b == 64u8 || b == 44u8
}

/// A value's bytes inside single quotes: each quote closes the quoting,
/// adds an escaped quote, and reopens it.
pub open spec fn escaped(v: Seq<u8>) -> Seq<u8>
    decreases v.len(),
{
    if v.len() == 0 {
        Seq::empty()
    } else {
        escaped(v.drop_last()) + (if v.last() == QUOTE {
            seq![QUOTE, BACKSLASH, QUOTE, QUOTE]
        } else {
            seq![v.last()]
        })
    }
}

/// A value as the shell has to be given it: as it is when every byte is
/// plain, single-quoted otherwise.
pub open spec fn shell_value(v: Seq<u8>) -> Seq<u8> {
    if forall|i: int| 0 <= i < v.len() ==> plain_byte(#[trigger] v[i]) {
        v
    } else {
        seq![QUOTE] + escaped(v) + seq![QUOTE]
    }
}

/// One `KEY=value` line.
pub open spec fn shell_line(key: Seq<char>, value: Seq<char>) -> Seq<u8> {
    encode_utf8(key) + seq![EQUALS] + shell_value(encode_utf8(value)) + seq![NEWLINE]
}

/// The file contents for variables, one line each, in the order given.
pub open spec fn rendered(vars: Seq<(Seq<char>, Seq<char>)>) -> Seq<u8>
    decreases vars.len(),
{
    if vars.len() == 0 {
        Seq::empty()
    } else {
        rendered(vars.drop_last()) + shell_line(vars.last().0, vars.last().1)
    }
}

/// A value is written as it is only when the shell would read every byte of
/// it literally: each an ASCII letter or digit or one of `_./:-@,`. Any
/// other byte (a space, a quote, a `$`, a `;`, a newline...) puts the whole
/// value in single quotes, where the shell runs nothing.
pub proof fn only_literal_values_go_unquoted(v: Seq<u8>)
    ensures
        shell_value(v) == v <==> forall|i: int| 0 <= i < v.len() ==> {
            let b = #[trigger] v[i];
            ||| 48 <= b <= 57
            ||| 65 <= b <= 90
            ||| 97 <= b <= 122
            ||| b == 95 || b == 46 || b == 47 || b == 58 || b == 45 || b == 64 || b == 44
        },
        shell_value(v) != v ==> shell_value(v).len() >= 2 && shell_value(v)[0] == QUOTE && shell_value(v).last() == QUOTE,
        (exists|i: int| 0 <= i < v.len() && #[trigger] v[i] == 32u8) ==> shell_value(v)[0] == QUOTE,
{
    if !(forall|i: int| 0 <= i < v.len() ==> plain_byte(#[trigger] v[i])) {
        let q = seq![QUOTE] + escaped(v) + seq![QUOTE];
        lemma_escaped_len(v);
        assert(q.len() == escaped(v).len() + 2);
        assert(q[0] == QUOTE);
        assert(q.last() == QUOTE);
        assert(shell_value(v) != v);
    }
}

proof fn lemma_escaped_len(v: Seq<u8>)
    ensures
        escaped(v).len() >= v.len(),
    decreases v.len(),
{
    if v.len() > 0 {
        lemma_escaped_len(v.drop_last());
    }
}

/// The variable list's entries as text.
pub open spec fn pairs_view(vars: Seq<(String, String)>) -> Seq<(Seq<char>, Seq<char>)> {
    vars.map_values(|p: (String, String)| (p.0@, p.1@))
}

pub open spec fn declarations_view(vars: Seq<Variable>) -> Seq<(Seq<char>, Seq<char>)> {
    vars.map_values(|v: Variable| (v.key@, v.value@))
}

fn is_plain(b: u8) -> (r: bool)
    ensures
        r == plain_byte(b),
{
    (48u8 <= b && b <= 57u8) || (97u8 <= b && b <= 122u8) || (65u8 <= b && b <= 90u8) || b == 95u8
        || b == 46u8 || b == 47u8 || b == 58u8 || b == 45u8 || b == 64u8 || b == 44u8
}

fn push_all(out: &mut Vec<u8>, bytes: &[u8])
    ensures
        final(out)@ == old(out)@ + bytes@,
{
    let mut i: usize = 0;
    while i < bytes.len()
        invariant
            i <= bytes@.len(),
            out@ == old(out)@ + bytes@.subrange(0, i as int),
        decreases bytes.len() - i,
    {
        out.push(bytes[i]);
        proof {
            assert(bytes@.subrange(0, i + 1) =~= bytes@.subrange(0, i as int).push(bytes@[i as int]));
        }
        i = i + 1;
    }
    proof {
        assert(bytes@.subrange(0, bytes@.len() as int) =~= bytes@);
    }
}

fn push_value(out: &mut Vec<u8>, v: &[u8])
    ensures
        final(out)@ == old(out)@ + shell_value(v@),
{
    let mut plain = true;
    let mut i: usize = 0;
    while i < v.len()
        invariant
            i <= v@.len(),
            plain == (forall|k: int| 0 <= k < i ==> plain_byte(#[trigger] v@[k])),
        decreases v.len() - i,
    {
        plain = plain && is_plain(v[i]);
        i = i + 1;
    }
    if plain {
        push_all(out, v);
        return;
    }
    out.push(QUOTE);
    let ghost start = out@;
    let mut i: usize = 0;
    while i < v.len()
        invariant
            i <= v@.len(),
            out@ == start + escaped(v@.subrange(0, i as int)),
        decreases v.len() - i,
    {
        if v[i] == QUOTE {
            out.push(QUOTE);
            out.push(BACKSLASH);
            out.push(QUOTE);
            out.push(QUOTE);
        } else {
            out.push(v[i]);
        }
        proof {
            let p = v@.subrange(0, i + 1);
            assert(p.drop_last() =~= v@.subrange(0, i as int));
            assert(p.last() == v@[i as int]);
            assert(out@ =~= start + escaped(p));
        }
        i = i + 1;
    }
    out.push(QUOTE);
    proof {
        assert(v@.subrange(0, v@.len() as int) =~= v@);
        assert(out@ =~= old(out)@ + shell_value(v@));
    }
}

/// Validated, rendered contents; applying never reinterprets the document.
#[derive(Debug, Clone, PartialEq, Eq)]
pub struct EnvironmentChange {
    contents: Vec<u8>,
}

impl EnvironmentChange {
    pub closed spec fn bytes(&self) -> Seq<u8> {
        self.contents@
    }

    /// The bytes to publish.
    pub fn contents(&self) -> (r: &[u8])
        ensures
            r@ == self.bytes(),
    {
        self.contents.as_slice()
    }
}

/// Where the session environment is published.
#[derive(Debug)]
pub struct EnvironmentProvider {
    path: std::path::PathBuf,
}

impl EnvironmentProvider {
    /// Where the file is published.
    pub closed spec fn file(&self) -> std::path::PathBuf {
        self.path
    }

    pub fn new(path: std::path::PathBuf) -> (r: Self)
        ensures
            r.file() == path,
    {
        EnvironmentProvider { path }
    }

    pub fn path(&self) -> (r: &std::path::PathBuf)
        ensures
            *r == self.file(),
    {
        &self.path
    }

    /// The variables the declarations assign, in key order.
    pub fn desired(declarations: &Vec<Variable>) -> (r: Vec<(String, String)>)
        ensures
            keyed_sorted(pairs_view(r@)),
            keyed_map(pairs_view(r@)) == assigned(declarations_view(declarations@)),
    {
        let mut table: Vec<(String, String)> = Vec::new();
        proof {
            lemma_keyed_empty(pairs_view(table@));
            assert(declarations_view(declarations@).subrange(0, 0) =~= Seq::<(Seq<char>, Seq<char>)>::empty());
        }
        let mut i: usize = 0;
        while i < declarations.len()
            invariant
                i <= declarations@.len(),
                keyed_sorted(pairs_view(table@)),
                keyed_map(pairs_view(table@)) == assigned(declarations_view(declarations@).subrange(0, i as int)),
            decreases declarations.len() - i,
        {
            let key = declarations[i].key.clone();
            let value = declarations[i].value.clone();
            Self::assign(&mut table, key, value);
            proof {
                let d = declarations_view(declarations@);
                assert(d.subrange(0, i + 1).drop_last() =~= d.subrange(0, i as int));
                assert(d.subrange(0, i + 1).last() == (declarations@[i as int].key@, declarations@[i as int].value@));
            }
            i = i + 1;
        }
        proof {
            assert(declarations_view(declarations@).subrange(0, declarations@.len() as int) =~= declarations_view(declarations@));
        }
        table
    }

    fn assign(table: &mut Vec<(String, String)>, key: String, value: String)
        requires
            keyed_sorted(pairs_view(old(table)@)),
        ensures
            keyed_sorted(pairs_view(final(table)@)),
            keyed_map(pairs_view(final(table)@)) == keyed_map(pairs_view(old(table)@)).insert(key@, value@),
    {
        let ghost e = pairs_view(table@);
        let mut i: usize = 0;
        while i < table.len() && text_less(table[i].0.as_str(), key.as_str())
            invariant
                i <= table@.len(),
                e == pairs_view(table@),
                keyed_sorted(e),
                forall|a: int| 0 <= a < i ==> name_lt(#[trigger] e[a].0, key@),
            decreases table.len() - i,
        {
            i = i + 1;
        }
        if i < table.len() && text_eq(table[i].0.as_str(), key.as_str()) {
            let ghost k = key@;
            let ghost v = value@;
            table.set(i, (key, value));
            proof {
                assert(pairs_view(table@) =~= e.update(i as int, (e[i as int].0, v)));
                lemma_keyed_update(e, i as int, v);
            }
        } else {
            proof {
                if i < e.len() {
                    lemma_name_lt_total(e[i as int].0, key@);
                    assert forall|a: int| i <= a < e.len() implies name_lt(key@, #[trigger] e[a].0) by {
                        if a > i {
                            lemma_name_lt_transitive(key@, e[i as int].0, e[a].0);
                        }
                    }
                }
            }
            let ghost k = key@;
            let ghost v = value@;
            table.insert(i, (key, value));
            proof {
                assert(pairs_view(table@) =~= e.insert(i as int, (k, v)));
                lemma_keyed_insert(e, i as int, k, v);
            }
        }
    }

    /// The file a list of variables is published as: one `KEY=value` line
    /// each, with values quoted for the shell where they need it.
    pub fn render(variables: &Vec<(String, String)>) -> (r: Vec<u8>)
        ensures
            r@ == rendered(pairs_view(variables@)),
    {
        let mut out: Vec<u8> = Vec::new();
        let mut i: usize = 0;
        while i < variables.len()
            invariant
                i <= variables@.len(),
                out@ == rendered(pairs_view(variables@).subrange(0, i as int)),
            decreases variables.len() - i,
        {
            let ghost before = out@;
            push_all(&mut out, variables[i].0.as_str().as_bytes());
            out.push(EQUALS);
            push_value(&mut out, variables[i].1.as_str().as_bytes());
            out.push(NEWLINE);
            proof {
                let p = pairs_view(variables@).subrange(0, i + 1);
                assert(p.drop_last() =~= pairs_view(variables@).subrange(0, i as int));
                assert(p.last() == (variables@[i as int].0@, variables@[i as int].1@));
                assert(out@ =~= before + shell_line(variables@[i as int].0@, variables@[i as int].1@));
            }
            i = i + 1;
        }
        proof {
            assert(pairs_view(variables@).subrange(0, variables@.len() as int) =~= pairs_view(variables@));
        }
        out
    }

    /// Retain the shell-sourceable contents of declarations that validated;
    /// a validation failure is the environment domain's error.
    pub fn prepare(
        validation: Result<(), String>,
        declarations: &Vec<Variable>,
    ) -> (r: Result<EnvironmentChange, ProviderError>)
        ensures
            validation is Ok <==> r is Ok,
            r matches Ok(c) ==> exists|vars: Seq<(Seq<char>, Seq<char>)>|
                keyed_sorted(vars) && keyed_map(vars) == assigned(declarations_view(declarations@))
                    && c.bytes() == rendered(vars),
            r matches Err(e) ==> e.domain@ == "environment"@ && e.message@ == validation->Err_0@,
    {
        match validation {
            Err(message) => {
                proof {
                    reveal_strlit("environment");
                }
                Err(ProviderError::new("environment", message))
            },
            Ok(()) => {
                let vars = Self::desired(declarations);
                let contents = Self::render(&vars);
                Ok(EnvironmentChange { contents })
            },
        }
    }

    /// Compare prepared contents with captured bytes. Absence satisfies empty
    /// contents.
    pub fn plan(desired: EnvironmentChange, installed: Option<&[u8]>) -> (r: Option<EnvironmentChange>)
        ensures
            r is Some <==> (match installed {
                Some(bytes) => bytes@ != desired.bytes(),
                None => desired.bytes().len() != 0,
            }),
            r matches Some(c) ==> c.bytes() == desired.bytes(),
    {
        let same = match installed {
            Some(bytes) => crate::text::bytes_equal(bytes, desired.contents.as_slice()),
            None => desired.contents.len() == 0,
        };
        if same {
            None
        } else {
            Some(desired)
        }
    }
}

} // verus!

//! Checking a build's descriptor before it is adopted: every unit it lists
//! is named once, its program and manifest lie where the layout puts them,
//! and its program is an executable file.
use vstd::prelude::*;
use crate::keyed::{names_contain, names_view};
use crate::refusal::compose;
use crate::text::text_eq;

verus! {

/// One unit of a build descriptor, with where the layout expects its files
/// and what reading its program's metadata found: whether it is an
/// executable file, or why it could not be read.
#[derive(Debug)]
pub struct DescriptorEntry {
    pub name: String,
    pub program: String,
    pub manifest: String,
    pub expected_program: String,
    pub expected_manifest: String,
    pub executable: Result<bool, String>,
}

/// What one entry says of the descriptor, given the names listed before it.
pub open spec fn entry_check(e: DescriptorEntry, earlier: Seq<Seq<char>>) -> Result<(), Seq<char>> {
    if earlier.contains(e.name@) || e.program@ != e.expected_program@ || e.manifest@ != e.expected_manifest@ {
        Err("invalid or duplicate build descriptor entry"@)
    } else {
        match e.executable {
            Err(why) => Err(why@),
            Ok(false) => Err(e.name@ + " is not an executable file"@),
            Ok(true) => Ok(()),
        }
    }
}

/// The names the entries give, in order.
pub open spec fn entry_names(entries: Seq<DescriptorEntry>) -> Seq<Seq<char>> {
    entries.map_values(|e: DescriptorEntry| e.name@)
}

/// A descriptor is accepted when every entry is, in order; the first entry
/// refused says why.
pub open spec fn descriptor_check(entries: Seq<DescriptorEntry>) -> Result<(), Seq<char>>
    decreases entries.len(),
{
    if entries.len() == 0 {
        Ok(())
    } else {
        match descriptor_check(entries.drop_last()) {
            Err(why) => Err(why),
            Ok(()) => entry_check(entries.last(), entry_names(entries.drop_last())),
        }
    }
}

proof fn lemma_refusal_stands(entries: Seq<DescriptorEntry>, n: int)
    requires
        0 <= n <= entries.len(),
        descriptor_check(entries.take(n)) is Err,
    ensures
        descriptor_check(entries) == descriptor_check(entries.take(n)),
    decreases entries.len() - n,
{
    if n < entries.len() {
        assert(entries.take(n + 1).drop_last() =~= entries.take(n));
        lemma_refusal_stands(entries, n + 1);
    } else {
        assert(entries.take(n) =~= entries);
    }
}

/// Check a build descriptor: accepted, or the reason of the first entry
/// refused.
pub fn check_descriptor(entries: &Vec<DescriptorEntry>) -> (r: Result<(), String>)
    ensures
        match descriptor_check(entries@) {
            Ok(()) => r is Ok,
            Err(why) => r matches Err(m) && m@ == why,
        },
{
    let mut seen: Vec<String> = Vec::new();
    let mut k: usize = 0;
    while k < entries.len()
        invariant
            k <= entries@.len(),
            descriptor_check(entries@.take(k as int)) is Ok,
            names_view(seen@) == entry_names(entries@.take(k as int)),
        decreases entries@.len() - k,
    {
        let e = &entries[k];
        proof {
            assert(entries@.take(k + 1).drop_last() =~= entries@.take(k as int));
            assert(entries@.take(k + 1).last() == entries@[k as int]);
        }
        let failure: Option<String> = if names_contain(&seen, e.name.as_str()) || !text_eq(e.program.as_str(), e.expected_program.as_str())
            || !text_eq(e.manifest.as_str(), e.expected_manifest.as_str()) {
            Some("invalid or duplicate build descriptor entry".to_owned())
        } else {
            match &e.executable {
                Err(why) => Some(why.clone()),
                Ok(false) => {
                    let text = compose("", e.name.as_str(), " is not an executable file");
                    proof {
                        reveal_strlit("");
                        assert(text@ =~= e.name@ + " is not an executable file"@);
                    }
                    Some(text)
                },
                Ok(true) => None,
            }
        };
        if let Some(why) = failure {
            proof {
                lemma_refusal_stands(entries@, k + 1);
            }
            return Err(why);
        }
        let ghost before = names_view(seen@);
        seen.push(e.name.clone());
        proof {
            assert(names_view(seen@) =~= before.push(e.name@));
            assert(entry_names(entries@.take(k + 1)) =~= entry_names(entries@.take(k as int)).push(e.name@));
        }
        k = k + 1;
    }
    proof {
        assert(entries@.take(entries@.len() as int) =~= entries@);
    }
    Ok(())
}

} // verus!

//! One presented instance of a surface: its identity and what it was asked
//! to show.
use vstd::prelude::*;
use crate::plugins::token::{PluginToken, TokenError};

verus! {

/// Whether something is shown.
#[derive(Debug, Clone, Copy, PartialEq, Eq, Structural)]
pub enum Visibility {
    Visible,
    Hidden,
}

/// How an instance is presented, as far as its lifecycle reads it.
#[derive(Debug, Clone, Copy, PartialEq, Eq, Structural)]
pub enum Shown {
    Window,
    /// An overlay that hides itself after this many milliseconds (none when
    /// zero).
    Overlay(u32),
    Embedded,
    Popup,
}

/// One presented instance.
#[derive(Debug)]
pub struct Instance {
    /// "instance-" and a fresh token.
    pub id: String,
    /// "incarnation-" and a fresh token.
    pub incarnation: String,
    pub surface: String,
    pub singleton: Option<String>,
    /// Its settings, in canonical encoding.
    pub config: Vec<u8>,
    pub shown: Shown,
    /// What the plugin asked for: a popup starts hidden, anything else
    /// visible.
    pub requested: Visibility,
    /// What the renderer last reported; an instance starts hidden.
    pub observed: Visibility,
    /// Raised on every present request, so a stale auto-hide cannot dismiss
    /// a newly presented instance.
    pub epoch: u64,
    pub ready: bool,
}

impl Instance {
    /// A new instance of `surface`, with two fresh tokens for its identity
    /// and incarnation; none when the system cannot supply randomness.
    pub fn new(surface: String, config: Vec<u8>, shown: Shown, singleton: Option<String>) -> (r: Result<Self, TokenError>)
        ensures
            r matches Ok(i) ==> {
                &&& exists|t: Seq<char>| t.len() == 32 && i.id@ == "instance-"@ + t
                &&& exists|t: Seq<char>| t.len() == 32 && i.incarnation@ == "incarnation-"@ + t
                &&& i.surface@ == surface@
                &&& i.config@ == config@
                &&& i.shown == shown
                &&& i.singleton == singleton
                &&& i.requested == (if shown == Shown::Popup { Visibility::Hidden } else { Visibility::Visible })
                &&& i.observed == Visibility::Hidden
                &&& i.epoch == 0
                &&& !i.ready
            },
    {
        let requested = match shown {
            Shown::Popup => Visibility::Hidden,
            _ => Visibility::Visible,
        };
        let id = PluginToken::mint()?;
        let incarnation = PluginToken::mint()?;
        let id_text = crate::refusal::compose("instance-", id.as_str(), "");
        let incarnation_text = crate::refusal::compose("incarnation-", incarnation.as_str(), "");
        proof {
            reveal_strlit("");
            assert(id_text@ =~= "instance-"@ + id@);
            assert(incarnation_text@ =~= "incarnation-"@ + incarnation@);
        }
        Ok(Instance {
            id: id_text,
            incarnation: incarnation_text,
            surface,
            singleton,
            config,
            shown,
            requested,
            observed: Visibility::Hidden,
            epoch: 0,
            ready: false,
        })
    }

    /// The auto-hide timeout, when this is a timed overlay.
    pub fn timeout_ms(&self) -> (r: Option<u64>)
        ensures
            r == (match self.shown {
                Shown::Overlay(ms) => if ms > 0 { Some(ms as u64) } else { None },
                _ => None,
            }),
    {
        match self.shown {
            Shown::Overlay(ms) => if ms > 0 { Some(ms as u64) } else { None },
            _ => None,
        }
    }
}

/// The bytes an instance's settings are accounted for: each key's length
/// and its value's encoded length, with a fixed overhead of 32 per entry.
pub open spec fn config_total(entries: Seq<(usize, usize)>) -> nat
    decreases entries.len(),
{
    if entries.len() == 0 {
        0
    } else {
        (config_total(entries.drop_last()) + entries.last().0 + entries.last().1 + 32) as nat
    }
}

/// The accounted size of an instance's settings, given each entry as the
/// length of its key and the encoded length of its value.
pub fn config_bytes(entries: &Vec<(usize, usize)>) -> (r: usize)
    requires
        config_total(entries@) <= usize::MAX,
    ensures
        r == config_total(entries@),
{
    let mut total: usize = 0;
    let mut k: usize = 0;
    while k < entries.len()
        invariant
            k <= entries@.len(),
            total == config_total(entries@.take(k as int)),
            config_total(entries@) <= usize::MAX,
        decreases entries@.len() - k,
    {
        proof {
            assert(entries@.take(k + 1).drop_last() =~= entries@.take(k as int));
            assert(entries@.take(k + 1).last() == entries@[k as int]);
            lemma_total_prefix(entries@, k + 1);
        }
        let (key, value) = entries[k];
        total = total + key + value + 32;
        k = k + 1;
    }
    proof {
        assert(entries@.take(entries@.len() as int) =~= entries@);
    }
    total
}

proof fn lemma_total_prefix(entries: Seq<(usize, usize)>, k: int)
    requires
        0 <= k <= entries.len(),
    ensures
        config_total(entries.take(k)) <= config_total(entries),
    decreases entries.len() - k,
{
    if k < entries.len() {
        assert(entries.take(k + 1).drop_last() =~= entries.take(k));
        lemma_total_prefix(entries, k + 1);
    } else {
        assert(entries.take(k) =~= entries);
    }
}

} // verus!

//! The schedules the daemon is running: which are firing, by identity, and
//! whether new ones are still admitted. The timers themselves run outside;
//! this table decides what may start, what a start replaces, and what a
//! shutdown has to join.
use vstd::prelude::*;
use crate::keyed::{keyed_map, names_view, keyed_sorted, lemma_keyed_empty, lemma_keyed_index, lemma_keyed_lookup, lemma_keyed_remove, place, table_view};
use crate::refusal::{ErrorCode, Refusable, Refusal};
use crate::text::text_eq;

verus! {

/// Why a schedule did not start.
#[derive(Debug, Clone, PartialEq, Eq)]
pub enum ScheduleError {
    /// Its action is malformed; why.
    Action(String),
    /// Its cadence is malformed; why.
    Cadence(String),
    /// Its period does not fit the clock.
    PeriodOutOfRange,
    /// Schedules are shutting down.
    Stopped,
}

/// What a start refusal says.
pub open spec fn schedule_error_text(e: ScheduleError) -> Seq<char> {
    match e {
        ScheduleError::Action(why) => why@,
        ScheduleError::Cadence(why) => why@,
        ScheduleError::PeriodOutOfRange => "schedule period exceeds the monotonic clock range"@,
        ScheduleError::Stopped => "schedules are shutting down"@,
    }
}

impl ScheduleError {
    /// The refusal in words.
    pub fn describe(&self) -> (r: String)
        ensures
            r@ == schedule_error_text(*self),
    {
        match self {
            ScheduleError::Action(why) => why.clone(),
            ScheduleError::Cadence(why) => why.clone(),
            ScheduleError::PeriodOutOfRange => "schedule period exceeds the monotonic clock range".to_owned(),
            ScheduleError::Stopped => "schedules are shutting down".to_owned(),
        }
    }
}

impl Refusable for ScheduleError {
    open spec fn refusal_code(&self) -> ErrorCode {
        match *self {
            ScheduleError::Action(_) | ScheduleError::Cadence(_) => ErrorCode::InvalidArgument,
            _ => ErrorCode::FailedPrecondition,
        }
    }

    open spec fn refusal_text(&self) -> Seq<char> {
        schedule_error_text(*self)
    }

    /// A malformed schedule is the caller's mistake; one that cannot run is
    /// a precondition that failed.
    fn refusal(&self) -> (r: Refusal)
        ensures
            r.code == (match *self {
                ScheduleError::Action(_) | ScheduleError::Cadence(_) => ErrorCode::InvalidArgument,
                _ => ErrorCode::FailedPrecondition,
            }),
            r.message@ == schedule_error_text(*self),
    {
        match self {
            ScheduleError::Action(_) | ScheduleError::Cadence(_) => Refusal::invalid(self.describe()),
            _ => Refusal::precondition(self.describe()),
        }
    }
}

/// The schedules firing now, each as declared (in its canonical encoding),
/// kept in identity order; and whether admission is closed.
#[derive(Debug)]
pub struct Timers {
    running: Vec<(String, Vec<u8>)>,
    closed: bool,
}

/// Whether a start may go ahead: a malformed cadence, a period the clock
/// cannot hold, and a malformed action are refused in that order; then a
/// closed table or a shutdown under way stops it.
pub open spec fn start_check(
    cadence: Result<(), String>,
    period_fits: bool,
    action: Result<(), String>,
    closed: bool,
    shutting_down: bool,
) -> Result<(), ScheduleError> {
    match cadence {
        Err(why) => Err(ScheduleError::Cadence(why)),
        Ok(()) => if !period_fits {
            Err(ScheduleError::PeriodOutOfRange)
        } else {
            match action {
                Err(why) => Err(ScheduleError::Action(why)),
                Ok(()) => if closed || shutting_down {
                    Err(ScheduleError::Stopped)
                } else {
                    Ok(())
                },
            }
        },
    }
}

impl Timers {
    pub closed spec fn wf(&self) -> bool {
        keyed_sorted(table_view(self.running@))
    }

    /// What is firing, by identity.
    pub closed spec fn view(&self) -> Map<Seq<char>, Seq<u8>> {
        keyed_map(table_view(self.running@)).map_values(|v: Vec<u8>| v@)
    }

    pub closed spec fn is_closed(&self) -> bool {
        self.closed
    }

    /// Nothing firing; admission open.
    pub fn new() -> (r: Self)
        ensures
            r.wf(),
            r.view() == Map::<Seq<char>, Seq<u8>>::empty(),
            !r.is_closed(),
    {
        let r = Timers { running: Vec::new(), closed: false };
        proof {
            lemma_keyed_empty(table_view(r.running@));
            assert(r.view() =~= Map::<Seq<char>, Seq<u8>>::empty());
        }
        r
    }

    /// Whether a schedule may start. Nothing is changed: a refused start
    /// leaves whatever fires under its identity firing.
    pub fn check_start(
        &self,
        cadence: Result<(), String>,
        period_fits: bool,
        action: Result<(), String>,
        shutting_down: bool,
    ) -> (r: Result<(), ScheduleError>)
        ensures
            r == start_check(cadence, period_fits, action, self.is_closed(), shutting_down),
    {
        match cadence {
            Err(why) => Err(ScheduleError::Cadence(why)),
            Ok(()) => if !period_fits {
                Err(ScheduleError::PeriodOutOfRange)
            } else {
                match action {
                    Err(why) => Err(ScheduleError::Action(why)),
                    Ok(()) => if self.closed || shutting_down {
                        Err(ScheduleError::Stopped)
                    } else {
                        Ok(())
                    },
                }
            },
        }
    }

    /// Forget the schedule firing under `id`, once its timer was stopped;
    /// whether one was.
    pub fn remove(&mut self, id: &str) -> (r: bool)
        requires
            old(self).wf(),
        ensures
            final(self).wf(),
            final(self).is_closed() == old(self).is_closed(),
            r == old(self).view().contains_key(id@),
            final(self).view() == old(self).view().remove(id@),
    {
        let ghost s = table_view(self.running@);
        let mut k: usize = 0;
        while k < self.running.len()
            invariant
                k <= self.running@.len(),
                s == table_view(self.running@),
                s == table_view(old(self).running@),
                self.closed == old(self).closed,
                keyed_sorted(s),
                forall|j: int| 0 <= j < k ==> (#[trigger] s[j]).0 != id@,
            decreases self.running@.len() - k,
        {
            if text_eq(self.running[k].0.as_str(), id) {
                let ghost before = keyed_map(s);
                proof {
                    lemma_keyed_index(s, k as int);
                    lemma_keyed_remove(s, k as int);
                    assert(old(self).view().contains_key(id@));
                }
                self.running.remove(k);
                proof {
                    assert(table_view(self.running@) =~= s.remove(k as int));
                    assert(self.view() =~= before.map_values(|v: Vec<u8>| v@).remove(id@));
                }
                return true;
            }
            k = k + 1;
        }
        proof {
            if keyed_map(s).contains_key(id@) {
                let j = lemma_keyed_lookup(s, id@);
                assert(s[j].0 == id@);
            }
            assert(old(self).view().remove(id@) =~= old(self).view());
        }
        false
    }

    /// Record a schedule whose timer was started, in place of whatever fired
    /// under its identity; refused, with that one forgotten all the same,
    /// when a shutdown began meanwhile.
    pub fn install(&mut self, id: String, declared: Vec<u8>, shutting_down: bool) -> (r: Result<(), ScheduleError>)
        requires
            old(self).wf(),
        ensures
            final(self).wf(),
            final(self).is_closed() == old(self).is_closed(),
            shutting_down ==> r == Err::<(), ScheduleError>(ScheduleError::Stopped) && final(self).view() == old(self).view().remove(id@),
            !shutting_down ==> r is Ok && final(self).view() == old(self).view().insert(id@, declared@),
    {
        self.remove(id.as_str());
        if shutting_down {
            return Err(ScheduleError::Stopped);
        }
        let ghost before = keyed_map(table_view(self.running@));
        let ghost before_view = self.view();
        place(&mut self.running, id, declared);
        proof {
            assert(self.view() =~= before.map_values(|v: Vec<u8>| v@).insert(id@, declared@));
            assert(before_view.insert(id@, declared@) =~= old(self).view().insert(id@, declared@));
        }
        Ok(())
    }

    /// What is firing, as declared, in identity order.
    pub fn declared(&self) -> (r: &Vec<(String, Vec<u8>)>)
        requires
            self.wf(),
        ensures
            keyed_sorted(table_view(r@)),
            keyed_map(table_view(r@)).map_values(|v: Vec<u8>| v@) == self.view(),
    {
        &self.running
    }

    /// Close admission: the identities of every schedule still firing, in
    /// order, whose timers have to be joined; none is left on record.
    pub fn close(&mut self) -> (r: Vec<String>)
        requires
            old(self).wf(),
        ensures
            final(self).wf(),
            final(self).is_closed(),
            final(self).view() == Map::<Seq<char>, Seq<u8>>::empty(),
            forall|n: Seq<char>| #[trigger] names_view(r@).contains(n) <==> old(self).view().contains_key(n),
    {
        let ghost s = table_view(self.running@);
        let mut ids: Vec<String> = Vec::new();
        let mut k: usize = 0;
        while k < self.running.len()
            invariant
                k <= self.running@.len(),
                s == table_view(self.running@),
                ids@.map_values(|x: String| x@) == s.take(k as int).map_values(|e: (Seq<char>, Vec<u8>)| e.0),
            decreases self.running@.len() - k,
        {
            let ghost prior = ids@.map_values(|x: String| x@);
            ids.push(self.running[k].0.clone());
            proof {
                assert(ids@.map_values(|x: String| x@) =~= prior.push(s[k as int].0));
                assert(s.take(k + 1).map_values(|e: (Seq<char>, Vec<u8>)| e.0) =~= s.take(k as int).map_values(
                    |e: (Seq<char>, Vec<u8>)| e.0,
                ).push(s[k as int].0));
            }
            k = k + 1;
        }
        proof {
            assert(s.take(s.len() as int) =~= s);
            let names = names_view(ids@);
            assert(names == ids@.map_values(|x: String| x@));
            assert forall|n: Seq<char>| #[trigger] names.contains(n) <==> old(self).view().contains_key(n) by {
                if names.contains(n) {
                    let a = choose|a: int| 0 <= a < names.len() && names[a] == n;
                    lemma_keyed_index(s, a);
                }
                if keyed_map(s).contains_key(n) {
                    let a = lemma_keyed_lookup(s, n);
                    assert(names[a] == n);
                }
            }
        }
        self.running = Vec::new();
        self.closed = true;
        proof {
            lemma_keyed_empty(table_view(self.running@));
            assert(self.view() =~= Map::<Seq<char>, Seq<u8>>::empty());
        }
        ids
    }
}

/// Once closed, no schedule starts again, whatever it is.
pub proof fn closed_admits_nothing(cadence: Result<(), String>, period_fits: bool, action: Result<(), String>, shutting_down: bool)
    ensures
        start_check(cadence, period_fits, action, true, shutting_down) is Err,
{
}

} // verus!

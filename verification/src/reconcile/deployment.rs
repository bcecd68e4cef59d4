//! Live progress projected by activation and shell application, never
//! inferred from files.
use vstd::prelude::*;

verus! {

/// How far the accepted generation has been reconciled.
#[derive(Debug, Clone, Copy, Default, PartialEq, Eq, Structural)]
pub enum ReconciliationState {
    #[default]
    Unspecified,
    Pending,
    Settled,
}

/// How far the shell of a generation has been applied.
#[derive(Debug, Clone, Copy, Default, PartialEq, Eq, Structural)]
pub enum ShellApplicationState {
    #[default]
    Unspecified,
    NotDeclared,
    Applying,
    Applied,
    Failed,
}

/// What activation and shell application report.
#[derive(Debug, Clone, Default, PartialEq, Eq)]
pub struct DeploymentStatus {
    pub candidate_generation: String,
    pub activation_error: String,
    pub accepted_generation: String,
    pub reconciliation: ReconciliationState,
    pub reconciliation_error: String,
    pub shell_generation: String,
    pub shell: ShellApplicationState,
    pub shell_error: String,
}

pub struct DeploymentView {
    pub candidate_generation: Seq<char>,
    pub activation_error: Seq<char>,
    pub accepted_generation: Seq<char>,
    pub reconciliation: ReconciliationState,
    pub reconciliation_error: Seq<char>,
    pub shell_generation: Seq<char>,
    pub shell: ShellApplicationState,
    pub shell_error: Seq<char>,
}

impl View for DeploymentStatus {
    type V = DeploymentView;

    open spec fn view(&self) -> DeploymentView {
        DeploymentView {
            candidate_generation: self.candidate_generation@,
            activation_error: self.activation_error@,
            accepted_generation: self.accepted_generation@,
            reconciliation: self.reconciliation,
            reconciliation_error: self.reconciliation_error@,
            shell_generation: self.shell_generation@,
            shell: self.shell,
            shell_error: self.shell_error@,
        }
    }
}

/// The status once a generation became the candidate.
pub open spec fn with_candidate(s: DeploymentView, generation: Seq<char>) -> DeploymentView {
    DeploymentView { candidate_generation: generation, activation_error: Seq::empty(), ..s }
}

/// The status once a generation was accepted.
pub open spec fn with_accepted(s: DeploymentView, generation: Seq<char>) -> DeploymentView {
    DeploymentView {
        accepted_generation: generation,
        activation_error: if s.candidate_generation == generation {
            Seq::empty()
        } else {
            s.activation_error
        },
        reconciliation: ReconciliationState::Pending,
        reconciliation_error: Seq::empty(),
        ..s
    }
}

/// The status once a pass started.
pub open spec fn with_pending(s: DeploymentView) -> DeploymentView {
    if s.accepted_generation.len() != 0 {
        DeploymentView { reconciliation: ReconciliationState::Pending, ..s }
    } else {
        s
    }
}

/// The status once a pass ended, with the error that failed it, if any.
pub open spec fn with_reconciled(s: DeploymentView, error: Option<Seq<char>>) -> DeploymentView {
    if s.accepted_generation.len() == 0 {
        s
    } else {
        DeploymentView {
            reconciliation: if error is Some {
                ReconciliationState::Pending
            } else {
                ReconciliationState::Settled
            },
            reconciliation_error: match error {
                Some(e) => e,
                None => Seq::empty(),
            },
            ..s
        }
    }
}

/// The status once a generation's shell started being applied.
pub open spec fn with_applying_shell(
    s: DeploymentView,
    generation: Seq<char>,
    declared: bool,
) -> DeploymentView {
    DeploymentView {
        shell_generation: generation,
        shell: if declared {
            ShellApplicationState::Applying
        } else {
            ShellApplicationState::NotDeclared
        },
        shell_error: Seq::empty(),
        ..s
    }
}

/// The status once the shell was applied, with the error that failed it.
pub open spec fn with_shell_applied(s: DeploymentView, error: Option<Seq<char>>) -> DeploymentView {
    DeploymentView {
        shell: if error is Some {
            ShellApplicationState::Failed
        } else {
            ShellApplicationState::Applied
        },
        shell_error: match error {
            Some(e) => e,
            None => Seq::empty(),
        },
        ..s
    }
}

pub open spec fn message_view(error: Option<String>) -> Option<Seq<char>> {
    match error {
        Some(e) => Some(e@),
        None => None,
    }
}

/// The progress of the build being deployed.
#[derive(Debug, Default)]
pub struct Deployment {
    status: DeploymentStatus,
}

impl Deployment {
    pub closed spec fn state(&self) -> DeploymentView {
        self.status@
    }

    pub fn new() -> (r: Self)
        ensures
            r.state().candidate_generation.len() == 0,
            r.state().accepted_generation.len() == 0,
            r.state().activation_error.len() == 0,
            r.state().reconciliation_error.len() == 0,
            r.state().shell_generation.len() == 0,
            r.state().shell_error.len() == 0,
            r.state().reconciliation == ReconciliationState::Unspecified,
            r.state().shell == ShellApplicationState::Unspecified,
    {
        Deployment {
            status: DeploymentStatus {
                candidate_generation: String::new(),
                activation_error: String::new(),
                accepted_generation: String::new(),
                reconciliation: ReconciliationState::Unspecified,
                reconciliation_error: String::new(),
                shell_generation: String::new(),
                shell: ShellApplicationState::Unspecified,
                shell_error: String::new(),
            },
        }
    }

    pub fn snapshot(&self) -> (r: DeploymentStatus)
        ensures
            r@ == self.state(),
    {
        DeploymentStatus {
            candidate_generation: self.status.candidate_generation.clone(),
            activation_error: self.status.activation_error.clone(),
            accepted_generation: self.status.accepted_generation.clone(),
            reconciliation: self.status.reconciliation,
            reconciliation_error: self.status.reconciliation_error.clone(),
            shell_generation: self.status.shell_generation.clone(),
            shell: self.status.shell,
            shell_error: self.status.shell_error.clone(),
        }
    }

    /// A generation is about to be read; an earlier activation error no
    /// longer describes it.
    pub fn candidate(&mut self, generation: String)
        ensures
            final(self).state() == with_candidate(old(self).state(), generation@),
    {
        self.status.candidate_generation = generation;
        self.status.activation_error = String::new();
    }

    pub fn activation_failed(&mut self, error: String)
        ensures
            final(self).state() == (DeploymentView { activation_error: error@, ..old(self).state() }),
    {
        self.status.activation_error = error;
    }

    /// A generation was accepted: its reconciliation starts pending, and the
    /// activation error is cleared if it was the candidate's.
    pub fn accepted(&mut self, generation: String)
        ensures
            final(self).state() == with_accepted(old(self).state(), generation@),
    {
        self.status.accepted_generation = generation;
        if crate::text::text_eq(
            self.status.candidate_generation.as_str(),
            self.status.accepted_generation.as_str(),
        ) {
            self.status.activation_error = String::new();
        }
        self.status.reconciliation = ReconciliationState::Pending;
        self.status.reconciliation_error = String::new();
    }

    /// A pass is under way; only an accepted generation has a reconciliation.
    pub fn pending(&mut self)
        ensures
            final(self).state() == with_pending(old(self).state()),
    {
        if !self.status.accepted_generation.as_str().is_empty() {
            self.status.reconciliation = ReconciliationState::Pending;
        }
    }

    /// A pass ended, with its error if it failed.
    pub fn reconciled(&mut self, error: Option<String>)
        ensures
            final(self).state() == with_reconciled(old(self).state(), message_view(error)),
    {
        if self.status.accepted_generation.as_str().is_empty() {
            return;
        }
        self.status.reconciliation = match &error {
            Some(_) => ReconciliationState::Pending,
            None => ReconciliationState::Settled,
        };
        self.status.reconciliation_error = match error {
            Some(e) => e,
            None => String::new(),
        };
    }

    pub fn applying_shell(&mut self, generation: String, declared: bool)
        ensures
            final(self).state() == with_applying_shell(old(self).state(), generation@, declared),
    {
        self.status.shell_generation = generation;
        self.status.shell = if declared {
            ShellApplicationState::Applying
        } else {
            ShellApplicationState::NotDeclared
        };
        self.status.shell_error = String::new();
    }

    pub fn shell_applied(&mut self, error: Option<String>)
        ensures
            final(self).state() == with_shell_applied(old(self).state(), message_view(error)),
    {
        self.status.shell = match &error {
            Some(_) => ShellApplicationState::Failed,
            None => ShellApplicationState::Applied,
        };
        self.status.shell_error = match error {
            Some(e) => e,
            None => String::new(),
        };
    }
}

/// Nothing settles a reconciliation before a generation is accepted: a pass
/// that ends with nothing accepted leaves the status as it was.
pub proof fn no_settling_before_acceptance(s: DeploymentView, error: Option<Seq<char>>)
    requires
        s.accepted_generation.len() == 0,
    ensures
        with_reconciled(s, error) == s,
        with_pending(s) == s,
{
}

/// Accepting the candidate clears its activation error, and leaves its
/// reconciliation pending until a pass settles it.
pub proof fn accepting_the_candidate_clears_its_error(s: DeploymentView, generation: Seq<char>)
    requires
        s.candidate_generation == generation,
    ensures
        with_accepted(s, generation).activation_error.len() == 0,
        with_accepted(s, generation).reconciliation == ReconciliationState::Pending,
{
}

/// A pass that ends without error, after a generation was accepted, settles it.
pub proof fn successful_pass_settles(s: DeploymentView, generation: Seq<char>)
    requires
        generation.len() != 0,
    ensures
        with_reconciled(with_accepted(s, generation), None).reconciliation
            == ReconciliationState::Settled,
        with_reconciled(with_accepted(s, generation), None).reconciliation_error.len() == 0,
{
}

} // verus!

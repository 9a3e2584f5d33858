//! The start-up sequence of the application.
//!
//! The harness is created with what initialisation needs. When the event loop
//! first resumes, it hands that over to start initialising, once; when the
//! initialised application arrives, it is ready and receives events.
use vstd::prelude::*;

verus! {

/// The phase of start-up.
pub enum ApplicationHarness<C, A> {
    /// Waiting for the event loop to resume; holds what initialisation needs.
    Created { config: C },
    /// Initialisation has started and has not finished.
    Initializing,
    /// The application runs.
    Ready { application: A },
}

/// A step of the event loop, as far as start-up is concerned.
pub enum HarnessStep {
    Resumed,
    Initialized,
    Event,
}

/// The phases without their payloads.
#[derive(PartialEq, Eq, Structural)]
pub enum Phase {
    Created,
    Initializing,
    Ready,
}

/// Whether a step starts initialisation in a phase.
pub open spec fn starts_init(p: Phase, step: HarnessStep) -> bool {
    p == Phase::Created && step is Resumed
}

/// The phase after a step.
pub open spec fn next_phase(p: Phase, step: HarnessStep) -> Phase {
    match step {
        HarnessStep::Resumed => if p == Phase::Created {
            Phase::Initializing
        } else {
            p
        },
        HarnessStep::Initialized => Phase::Ready,
        HarnessStep::Event => p,
    }
}

/// The phase after a run of steps.
pub open spec fn phase_after(p: Phase, steps: Seq<HarnessStep>) -> Phase
    decreases steps.len(),
{
    if steps.len() == 0 {
        p
    } else {
        next_phase(phase_after(p, steps.drop_last()), steps.last())
    }
}

/// How many steps of a run start initialisation.
pub open spec fn starts_in(p: Phase, steps: Seq<HarnessStep>) -> nat
    decreases steps.len(),
{
    if steps.len() == 0 {
        0
    } else {
        starts_in(p, steps.drop_last()) + if starts_init(
            phase_after(p, steps.drop_last()),
            steps.last(),
        ) {
            1nat
        } else {
            0nat
        }
    }
}

impl<C, A> ApplicationHarness<C, A> {
    pub open spec fn phase(&self) -> Phase {
        match self {
            ApplicationHarness::Created { .. } => Phase::Created,
            ApplicationHarness::Initializing => Phase::Initializing,
            ApplicationHarness::Ready { .. } => Phase::Ready,
        }
    }

    /// A harness waiting for the event loop, holding `config`.
    pub fn new(config: C) -> (h: Self)
        ensures
            h == (ApplicationHarness::<C, A>::Created { config }),
    {
        ApplicationHarness::Created { config }
    }

    /// The event loop resumed: the first time, hands over what initialisation
    /// needs; later, nothing.
    pub fn resumed(&mut self) -> (start: Option<C>)
        ensures
            final(self).phase() == next_phase(old(self).phase(), HarnessStep::Resumed),
            start is Some <==> starts_init(old(self).phase(), HarnessStep::Resumed),
            match *old(self) {
                ApplicationHarness::Created { config } => start == Some(config),
                _ => *final(self) == *old(self),
            },
    {
        let mut previous = ApplicationHarness::Initializing;
        std::mem::swap(self, &mut previous);
        match previous {
            ApplicationHarness::Created { config } => Some(config),
            other => {
                *self = other;
                None
            },
        }
    }

    /// The initialised application arrived: from now on it receives events.
    pub fn initialized(&mut self, application: A)
        ensures
            final(self).phase() == next_phase(old(self).phase(), HarnessStep::Initialized),
            *final(self) == (ApplicationHarness::<C, A>::Ready { application }),
    {
        *self = ApplicationHarness::Ready { application };
    }

    /// The application, when it is ready to receive events.
    pub fn application(&mut self) -> (app: Option<&mut A>)
        ensures
            final(self).phase() == old(self).phase(),
            app is Some <==> old(self).phase() == Phase::Ready,
            match *old(self) {
                ApplicationHarness::Ready { application } => app matches Some(a) && *a
                    == application && *final(self) == (ApplicationHarness::<C, A>::Ready {
                    application: *final(a),
                }),
                _ => *final(self) == *old(self),
            },
    {
        match self {
            ApplicationHarness::Ready { application } => Some(application),
            _ => None,
        }
    }
}

/// Start-up never goes back to waiting: after any run of steps from a phase
/// other than `Created`, the harness is not `Created`.
pub proof fn lemma_never_created_again(p: Phase, steps: Seq<HarnessStep>)
    requires
        p != Phase::Created,
    ensures
        phase_after(p, steps) != Phase::Created,
    decreases steps.len(),
{
    if steps.len() > 0 {
        lemma_never_created_again(p, steps.drop_last());
    }
}

/// Initialisation starts at most once, whatever the event loop does.
pub proof fn lemma_init_starts_at_most_once(p: Phase, steps: Seq<HarnessStep>)
    ensures
        starts_in(p, steps) <= 1,
        p != Phase::Created ==> starts_in(p, steps) == 0,
        starts_in(p, steps) == 1 ==> phase_after(p, steps) != Phase::Created,
    decreases steps.len(),
{
    if steps.len() > 0 {
        let prev = steps.drop_last();
        lemma_init_starts_at_most_once(p, prev);
        if p != Phase::Created {
            lemma_never_created_again(p, prev);
        }
    }
}

} // verus!

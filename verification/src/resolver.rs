//! The spawn resolver: tries the launch plans in priority order until one
//! creates a process.
//!
//! The resolver decides; the caller spawns. The caller asks for the plan to
//! attempt, tries to create the process, and reports whether that worked.

use vstd::prelude::*;
use crate::error::SupervisorError;
use crate::launch::{candidate_models, candidates, plan_models, LaunchPlan, PlanModel, SpawnEnvironment};

verus! {

/// Where a resolution stands.
#[derive(Debug, Clone, Copy, PartialEq, Eq, Structural)]
pub enum Resolution {
    /// A plan is waiting to be attempted.
    Pending,
    /// The plan at this index created a process.
    Spawned(usize),
    /// Every plan was attempted and none created a process.
    Exhausted,
}

/// The state of a resolution: the plans, how many of them were attempted,
/// and which one created a process.
pub struct SpawnResolver {
    plans: Vec<LaunchPlan>,
    attempted: usize,
    chosen: Option<usize>,
}

/// A resolution as plain mathematical data.
pub struct ResolverModel {
    pub plans: Seq<PlanModel>,
    pub attempted: nat,
    pub chosen: Option<nat>,
}

/// The state before any attempt.
pub open spec fn fresh(plans: Seq<PlanModel>) -> ResolverModel {
    ResolverModel { plans, attempted: 0, chosen: None }
}

/// The index of the plan to attempt next, if any: none once a plan has
/// created a process or all were attempted.
pub open spec fn pending(m: ResolverModel) -> Option<nat> {
    if m.chosen is None && m.attempted < m.plans.len() {
        Some(m.attempted)
    } else {
        None
    }
}

/// The state after the caller reports on the pending attempt. Without a
/// pending attempt a report changes nothing.
pub open spec fn step(m: ResolverModel, spawned: bool) -> ResolverModel {
    match pending(m) {
        Some(i) => ResolverModel {
            plans: m.plans,
            attempted: m.attempted + 1,
            chosen: if spawned {
                Some(i)
            } else {
                None
            },
        },
        None => m,
    }
}

/// The state after a series of reports.
pub open spec fn drive(m: ResolverModel, reports: Seq<bool>) -> ResolverModel
    decreases reports.len(),
{
    if reports.len() == 0 {
        m
    } else {
        step(drive(m, reports.drop_last()), reports.last())
    }
}

/// Where the resolution `m` stands.
pub open spec fn standing(m: ResolverModel) -> Resolution {
    match m.chosen {
        Some(i) => Resolution::Spawned(i as usize),
        None => if m.attempted < m.plans.len() {
            Resolution::Pending
        } else {
            Resolution::Exhausted
        },
    }
}

/// The index of the first `true` among the first `limit` reports, if any.
pub open spec fn first_success(reports: Seq<bool>, limit: nat) -> Option<nat>
    decreases reports.len(),
{
    if reports.len() == 0 {
        None
    } else {
        match first_success(reports.drop_last(), limit) {
            Some(i) => Some(i),
            None => if reports.last() && reports.len() <= limit {
                Some((reports.len() - 1) as nat)
            } else {
                None
            },
        }
    }
}

/// Once a plan has created a process, no further plan is offered and
/// further reports change nothing.
pub proof fn lemma_settled_stays(m: ResolverModel, spawned: bool)
    requires
        m.chosen is Some,
    ensures
        pending(m) is None,
        step(m, spawned) == m,
{
}

/// Priority: when the first plan creates a process, it is the one chosen,
/// it is the only one attempted, and no later plan is ever offered.
pub proof fn lemma_first_plan_wins(plans: Seq<PlanModel>, later: Seq<bool>)
    requires
        plans.len() > 0,
    ensures
        pending(fresh(plans)) == Some(0nat),
        drive(step(fresh(plans), true), later).chosen == Some(0nat),
        drive(step(fresh(plans), true), later).attempted == 1,
        pending(drive(step(fresh(plans), true), later)) is None,
    decreases later.len(),
{
    if later.len() > 0 {
        lemma_first_plan_wins(plans, later.drop_last());
    }
}

/// Plans are attempted strictly in order and the first that creates a
/// process ends the resolution: after any series of reports the chosen plan
/// is the first one reported as spawned, the plans before it are exactly
/// those attempted, and when none spawned the attempted plans are as many as
/// the reports, up to the number of plans. The resolution is exhausted
/// exactly when every plan was reported and none spawned.
pub proof fn lemma_drive_follows_priority(plans: Seq<PlanModel>, reports: Seq<bool>)
    ensures
        drive(fresh(plans), reports).plans == plans,
        drive(fresh(plans), reports).chosen == first_success(reports, plans.len()),
        standing(drive(fresh(plans), reports)) == Resolution::Exhausted <==> first_success(
            reports,
            plans.len(),
        ) is None && reports.len() >= plans.len(),
        match first_success(reports, plans.len()) {
            Some(i) => i < plans.len() && i < reports.len() && reports[i as int] && drive(
                fresh(plans),
                reports,
            ).attempted == i + 1 && forall|j: int| 0 <= j < i ==> !#[trigger] reports[j],
            None => drive(fresh(plans), reports).attempted == if reports.len() <= plans.len() {
                reports.len()
            } else {
                plans.len()
            } && forall|j: int|
                0 <= j < reports.len() && j < plans.len() ==> !#[trigger] reports[j],
        },
    decreases reports.len(),
{
    if reports.len() > 0 {
        let before = reports.drop_last();
        lemma_drive_follows_priority(plans, before);
        match first_success(before, plans.len()) {
            Some(i) => {
                assert(reports[i as int] == before[i as int]);
                assert forall|j: int| 0 <= j < i implies !#[trigger] reports[j] by {
                    assert(reports[j] == before[j]);
                }
            },
            None => {
                assert forall|j: int| 0 <= j < before.len() && j < plans.len() implies !#[trigger] reports[j] by {
                    assert(reports[j] == before[j]);
                }
            },
        }
    }
}

impl View for SpawnResolver {
    type V = ResolverModel;

    closed spec fn view(&self) -> ResolverModel {
        ResolverModel {
            plans: plan_models(self.plans@),
            attempted: self.attempted as nat,
            chosen: match self.chosen {
                Some(i) => Some(i as nat),
                None => None,
            },
        }
    }
}

impl SpawnResolver {
    /// Starts a resolution over `plans`, highest priority first.
    pub fn new(plans: Vec<LaunchPlan>) -> (r: SpawnResolver)
        ensures
            r@ == fresh(plan_models(plans@)),
    {
        SpawnResolver { plans, attempted: 0, chosen: None }
    }

    /// Starts a resolution over the launch plans for `env`.
    pub fn for_environment(env: &SpawnEnvironment) -> (r: SpawnResolver)
        ensures
            r@ == fresh(candidate_models(env@)),
    {
        SpawnResolver::new(candidates(env))
    }

    /// The plan to attempt next, if the resolution is still open.
    pub fn next_attempt(&self) -> (r: Option<&LaunchPlan>)
        ensures
            r is Some <==> pending(self@) is Some,
            r matches Some(plan) ==> plan@ == self@.plans[pending(self@).unwrap() as int],
    {
        if self.chosen.is_none() && self.attempted < self.plans.len() {
            Some(&self.plans[self.attempted])
        } else {
            None
        }
    }

    /// Records whether the pending attempt created a process.
    pub fn record(&mut self, spawned: bool)
        ensures
            final(self)@ == step(old(self)@, spawned),
    {
        if self.chosen.is_none() && self.attempted < self.plans.len() {
            if spawned {
                self.chosen = Some(self.attempted);
            }
            self.attempted = self.attempted + 1;
        }
    }

    /// Where the resolution stands.
    pub fn resolution(&self) -> (r: Resolution)
        ensures
            r == standing(self@),
    {
        match self.chosen {
            Some(i) => Resolution::Spawned(i),
            None => if self.attempted < self.plans.len() {
                Resolution::Pending
            } else {
                Resolution::Exhausted
            },
        }
    }

    /// How many plans were attempted so far.
    pub fn attempts(&self) -> (r: usize)
        ensures
            r == self@.attempted,
    {
        self.attempted
    }

    /// The aggregated failure, once every plan was attempted and none
    /// created a process.
    pub fn failure(&self) -> (r: Option<SupervisorError>)
        ensures
            r is Some <==> standing(self@) == Resolution::Exhausted,
            r is Some ==> r == Some(SupervisorError::AllStrategiesExhausted),
    {
        match self.resolution() {
            Resolution::Exhausted => Some(SupervisorError::AllStrategiesExhausted),
            _ => None,
        }
    }
}

} // verus!

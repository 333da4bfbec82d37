//! The failures that the supervisor reports.

use vstd::prelude::*;
use vstd::string::*;

verus! {

/// Why an operation of the supervisor did not succeed.
#[derive(Debug, Clone, PartialEq, Eq)]
pub enum SupervisorError {
    /// An operation needed the bridge while the slot was empty.
    NoProcess,
    /// A write, flush or termination failed at the operating system; the
    /// payload is the system's description.
    IoFailure(String),
    /// One launch plan could not create a process. Not fatal: the next plan
    /// is tried.
    SpawnAttemptFailed { program: String, reason: String },
    /// Every launch plan failed to create a process.
    AllStrategiesExhausted,
}

/// The text reported when the slot is empty.
pub open spec fn no_process_text() -> Seq<char> {
    "bridge not available"@
}

/// The aggregated text reported when no launch plan created a process.
pub open spec fn exhausted_text() -> Seq<char> {
    "All bridge spawn attempts failed. Ensure BRIDGE_DEV_CMD, pnpm or node is available and bridge/dist/index.js exists."@
}

/// The text reported for one failed launch plan.
pub open spec fn attempt_failed_text(program: Seq<char>, reason: Seq<char>) -> Seq<char> {
    "failed to spawn '"@ + program + "': "@ + reason
}

impl SupervisorError {
    /// The human-readable text of the error, as a sequence of characters.
    pub open spec fn text(self) -> Seq<char> {
        match self {
            SupervisorError::NoProcess => no_process_text(),
            SupervisorError::IoFailure(detail) => detail@,
            SupervisorError::SpawnAttemptFailed { program, reason } => attempt_failed_text(
                program@,
                reason@,
            ),
            SupervisorError::AllStrategiesExhausted => exhausted_text(),
        }
    }

    /// Renders the error as text.
    pub fn message(&self) -> (r: String)
        ensures
            r@ == self.text(),
    {
        match self {
            SupervisorError::NoProcess => String::from_str("bridge not available"),
            SupervisorError::IoFailure(detail) => detail.clone(),
            SupervisorError::SpawnAttemptFailed { program, reason } => {
                let head = String::from_str("failed to spawn '");
                let with_program = head.concat(program.as_str());
                let with_sep = with_program.concat("': ");
                with_sep.concat(reason.as_str())
            },
            SupervisorError::AllStrategiesExhausted => String::from_str(
                "All bridge spawn attempts failed. Ensure BRIDGE_DEV_CMD, pnpm or node is available and bridge/dist/index.js exists.",
            ),
        }
    }

    /// Builds the error for a launch plan that could not create a process.
    pub fn spawn_attempt_failed(program: &str, reason: &str) -> (r: SupervisorError)
        ensures
            r matches SupervisorError::SpawnAttemptFailed { program: p, reason: w }
                && p@ == program@ && w@ == reason@,
            r.text() == attempt_failed_text(program@, reason@),
    {
        SupervisorError::SpawnAttemptFailed {
            program: String::from_str(program),
            reason: String::from_str(reason),
        }
    }

    /// Maps the outcome of a write or flush on the bridge's input to the
    /// supervisor's own result: success stays success, a failure becomes
    /// `IoFailure` with the system's description.
    pub fn from_io(outcome: Result<(), String>) -> (r: Result<(), SupervisorError>)
        ensures
            outcome is Ok <==> r is Ok,
            outcome matches Err(detail) ==> r matches Err(SupervisorError::IoFailure(d))
                && d@ == detail@,
    {
        match outcome {
            Ok(()) => Ok(()),
            Err(detail) => Err(SupervisorError::IoFailure(detail)),
        }
    }
}

} // verus!

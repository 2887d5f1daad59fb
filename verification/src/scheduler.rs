//! The scheduler gateway's shared surface: which backend is selected, and
//! the errors a fetch operation can surface.

use vstd::prelude::*;

verus! {

use vstd::string::StringExecFns;
use crate::text::chars_of;
use crate::text::chars_eq;

/// The closed set of backends a dashboard can be configured with.
#[derive(Clone, Copy, Debug, PartialEq, Eq, Structural)]
pub enum SchedulerType {
    Slurm,
    Torque,
    Mock,
}

/// Why a fetch operation failed: either the external command could not be
/// run (or exited non-zero), or a node query succeeded but found nothing in
/// the requested partition (usually a misconfigured partition name).
#[derive(Clone, Debug)]
pub enum FetchError {
    CommandFailed { command: String, detail: String },
    NoNodesInPartition { partition: String },
}

/// A fatal startup error: the configured backend identifier is unknown.
#[derive(Clone, Debug)]
pub enum ConfigError {
    UnknownScheduler { name: String },
}

/// The display text of a fetch error.
pub open spec fn spec_error_text(e: FetchError) -> Seq<char> {
    match e {
        FetchError::CommandFailed { command, detail } => command@ + " command failed: "@
            + detail@,
        FetchError::NoNodesInPartition { partition } => "No nodes found in partition: "@
            + partition@,
    }
}

impl FetchError {
    /// Human-readable message for the dashboard's error line.
    pub fn message(&self) -> (r: String)
        ensures
            r@ == spec_error_text(*self),
    {
        match self {
            FetchError::CommandFailed { command, detail } => {
                let mut s = command.clone();
                s.append(" command failed: ");
                s.append(detail.as_str());
                s
            },
            FetchError::NoNodesInPartition { partition } => {
                let mut s = String::from_str("No nodes found in partition: ");
                s.append(partition.as_str());
                s
            },
        }
    }
}

/// The backend a configuration name selects, if any.
pub open spec fn spec_scheduler_type_of(name: Seq<char>) -> Option<SchedulerType> {
    if name == "slurm"@ {
        Some(SchedulerType::Slurm)
    } else if name == "torque"@ {
        Some(SchedulerType::Torque)
    } else if name == "mock"@ {
        Some(SchedulerType::Mock)
    } else {
        None
    }
}

/// Resolves a configured backend name; an unknown name is a fatal
/// configuration error carrying the offending name.
pub fn scheduler_type_from_name(name: &str) -> (r: Result<SchedulerType, ConfigError>)
    ensures
        match r {
            Ok(t) => spec_scheduler_type_of(name@) == Some(t),
            Err(e) => spec_scheduler_type_of(name@) is None && match e {
                ConfigError::UnknownScheduler { name: n } => n@ == name@,
            },
        },
{
    let nv = chars_of(name);
    if chars_eq(&nv, &chars_of("slurm")) {
        Ok(SchedulerType::Slurm)
    } else if chars_eq(&nv, &chars_of("torque")) {
        Ok(SchedulerType::Torque)
    } else if chars_eq(&nv, &chars_of("mock")) {
        Ok(SchedulerType::Mock)
    } else {
        Err(ConfigError::UnknownScheduler { name: name.to_owned() })
    }
}

} // verus!

//! What happens in the engine.
use vstd::prelude::*;

use crate::error::EngineError;
use crate::exec::ExecOutput;
use crate::services::foreground::cache::PackageProviderSource;
use crate::services::foreground::source::{ForegroundCandidate, ForegroundUnknown};
use crate::services::identity::ResolvedIdentity;
use crate::{error, exec as process, services::foreground::source, services::identity};

verus! {

/// Generic Engine event.
#[derive(Debug, PartialEq, Eq)]
#[allow(inconsistent_fields)]
pub enum EngineEvent {
    RuntimeStarted,
    RuntimeStopped,
    ExecCompleted { output: ExecOutput },
    ForegroundCandidateChanged(ForegroundCandidate),
    ForegroundUnknown(ForegroundUnknown),
    IdentityResolved(ResolvedIdentity),
    IdentityCacheWarmed { source: PackageProviderSource, coherent: bool, count: usize },
    IdentityCacheWarmupFailed { error: String },
    ServiceFailed { error: EngineError },
}

/// The model of an event.
#[allow(inconsistent_fields)]
pub enum EventModel {
    RuntimeStarted,
    RuntimeStopped,
    ExecCompleted { output: process::OutputModel },
    ForegroundCandidateChanged(source::CandidateModel),
    ForegroundUnknown(ForegroundUnknown),
    IdentityResolved(identity::IdentityModel),
    IdentityCacheWarmed { source: PackageProviderSource, coherent: bool, count: usize },
    IdentityCacheWarmupFailed { error: Seq<char> },
    ServiceFailed { error: error::ErrorModel },
}

impl View for EngineEvent {
    type V = EventModel;

    open spec fn view(&self) -> EventModel {
        match *self {
            EngineEvent::RuntimeStarted => EventModel::RuntimeStarted,
            EngineEvent::RuntimeStopped => EventModel::RuntimeStopped,
            EngineEvent::ExecCompleted { output } => EventModel::ExecCompleted { output: output@ },
            EngineEvent::ForegroundCandidateChanged(candidate) => {
                EventModel::ForegroundCandidateChanged(candidate@)
            },
            EngineEvent::ForegroundUnknown(unknown) => EventModel::ForegroundUnknown(unknown),
            EngineEvent::IdentityResolved(identity) => EventModel::IdentityResolved(identity@),
            EngineEvent::IdentityCacheWarmed { source, coherent, count } => {
                EventModel::IdentityCacheWarmed { source, coherent, count }
            },
            EngineEvent::IdentityCacheWarmupFailed { error } => {
                EventModel::IdentityCacheWarmupFailed { error: error@ }
            },
            EngineEvent::ServiceFailed { error } => EventModel::ServiceFailed { error: error@ },
        }
    }
}

/// The models of events.
pub open spec fn event_models(s: Seq<EngineEvent>) -> Seq<EventModel> {
    Seq::new(s.len(), |i: int| s[i]@)
}

} // verus!

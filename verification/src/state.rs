//! What the engine remembers.
use vstd::prelude::*;

use crate::events::EngineEvent;
use crate::services::foreground::cache::PackageProviderSource;
use crate::services::identity::ResolvedIdentity;
use crate::{events, services::foreground::source, services::identity};

verus! {

/// What became of the identity cache.
#[derive(Debug, PartialEq, Eq)]
pub struct IdentityCacheState {
    pub source: Option<PackageProviderSource>,
    pub coherent: bool,
    pub count: usize,
    pub last_cache_error: Option<String>,
}

/// The model of what became of the identity cache.
pub struct CacheStateModel {
    pub source: Option<PackageProviderSource>,
    pub coherent: bool,
    pub count: usize,
    pub last_cache_error: Option<Seq<char>>,
}

impl CacheStateModel {
    /// Nothing happened yet.
    pub open spec fn blank() -> CacheStateModel {
        CacheStateModel { source: None, coherent: false, count: 0, last_cache_error: None }
    }

    /// The cache could not be loaded.
    pub open spec fn failed(error: Seq<char>) -> CacheStateModel {
        CacheStateModel { source: None, coherent: false, count: 0, last_cache_error: Some(error) }
    }
}

impl View for IdentityCacheState {
    type V = CacheStateModel;

    open spec fn view(&self) -> CacheStateModel {
        CacheStateModel {
            source: self.source,
            coherent: self.coherent,
            count: self.count,
            last_cache_error: source::text_model(self.last_cache_error),
        }
    }
}

impl Clone for IdentityCacheState {
    fn clone(&self) -> (r: Self)
        ensures
            r@ == self@,
    {
        IdentityCacheState {
            source: self.source,
            coherent: self.coherent,
            count: self.count,
            last_cache_error: source::clone_text(&self.last_cache_error),
        }
    }
}

impl Default for IdentityCacheState {
    fn default() -> (r: Self)
        ensures
            r@ == CacheStateModel::blank(),
    {
        IdentityCacheState { source: None, coherent: false, count: 0, last_cache_error: None }
    }
}

/// Minimal state tracked by the Engine reducer.
#[derive(Debug, PartialEq, Eq)]
pub struct EngineState {
    pub started: bool,
    pub completed_jobs: u64,
    pub last_identity: Option<ResolvedIdentity>,
    pub identity_cache: IdentityCacheState,
    pub last_error: Option<String>,
}

/// The model of the state.
pub struct StateModel {
    pub started: bool,
    pub completed_jobs: u64,
    pub last_identity: Option<identity::IdentityModel>,
    pub identity_cache: CacheStateModel,
    pub last_error: Option<Seq<char>>,
}

impl View for EngineState {
    type V = StateModel;

    open spec fn view(&self) -> StateModel {
        StateModel {
            started: self.started,
            completed_jobs: self.completed_jobs,
            last_identity: identity::identity_model(self.last_identity),
            identity_cache: self.identity_cache@,
            last_error: source::text_model(self.last_error),
        }
    }
}

impl Default for EngineState {
    fn default() -> (r: Self)
        ensures
            r@ == StateModel::blank(),
    {
        EngineState {
            started: false,
            completed_jobs: 0,
            last_identity: None,
            identity_cache: IdentityCacheState::default(),
            last_error: None,
        }
    }
}

impl StateModel {
    /// Nothing happened yet.
    pub open spec fn blank() -> StateModel {
        StateModel {
            started: false,
            completed_jobs: 0,
            last_identity: None,
            identity_cache: CacheStateModel::blank(),
            last_error: None,
        }
    }

    /// The state after an event.
    pub open spec fn after(self, event: events::EventModel) -> StateModel {
        match event {
            events::EventModel::RuntimeStarted => StateModel {
                started: true,
                last_error: None,
                ..self
            },
            events::EventModel::RuntimeStopped => StateModel { started: false, ..self },
            events::EventModel::ExecCompleted { .. } => StateModel {
                completed_jobs: if self.completed_jobs == u64::MAX {
                    u64::MAX
                } else {
                    (self.completed_jobs + 1) as u64
                },
                ..self
            },
            events::EventModel::ForegroundCandidateChanged(_) => self,
            events::EventModel::ForegroundUnknown(_) => StateModel { last_identity: None, ..self },
            events::EventModel::IdentityResolved(identity) => StateModel {
                last_identity: Some(identity),
                ..self
            },
            events::EventModel::IdentityCacheWarmed { source, coherent, count } => StateModel {
                identity_cache: CacheStateModel {
                    source: Some(source),
                    coherent,
                    count,
                    last_cache_error: None,
                },
                ..self
            },
            events::EventModel::IdentityCacheWarmupFailed { error } => StateModel {
                identity_cache: CacheStateModel::failed(error),
                ..self
            },
            events::EventModel::ServiceFailed { error } => StateModel {
                last_error: Some(error.text()),
                ..self
            },
        }
    }

    /// The state after events in order.
    pub open spec fn after_all(self, events: Seq<events::EventModel>) -> StateModel
        decreases events.len(),
    {
        if events.len() == 0 {
            self
        } else {
            self.after_all(events.drop_last()).after(events.last())
        }
    }
}

/// Pure Engine reducer.
#[derive(Debug, Default)]
pub struct Reducer;

impl Reducer {
    /// Brings an event into the state.
    pub fn apply(event: &EngineEvent, state: &mut EngineState)
        ensures
            final(state)@ == old(state)@.after(event@),
    {
        match event {
            EngineEvent::RuntimeStarted => {
                state.started = true;
                state.last_error = None;
            },
            EngineEvent::RuntimeStopped => {
                state.started = false;
            },
            EngineEvent::ExecCompleted { .. } => {
                state.completed_jobs = state.completed_jobs.saturating_add(1);
            },
            EngineEvent::ForegroundCandidateChanged(_) => {},
            EngineEvent::ForegroundUnknown(_) => {
                state.last_identity = None;
            },
            EngineEvent::IdentityResolved(identity) => {
                state.last_identity = Some(identity.clone());
            },
            EngineEvent::IdentityCacheWarmed { source, coherent, count } => {
                state.identity_cache = IdentityCacheState {
                    source: Some(*source),
                    coherent: *coherent,
                    count: *count,
                    last_cache_error: None,
                };
            },
            EngineEvent::IdentityCacheWarmupFailed { error } => {
                state.identity_cache = IdentityCacheState {
                    source: None,
                    coherent: false,
                    count: 0,
                    last_cache_error: Some(error.clone()),
                };
            },
            EngineEvent::ServiceFailed { error } => {
                state.last_error = Some(error.text());
            },
        }
    }
}

/// How many of the events are completed processes.
pub open spec fn jobs(events: Seq<events::EventModel>) -> nat
    decreases events.len(),
{
    if events.len() == 0 {
        0
    } else {
        jobs(events.drop_last()) + if events.last() is ExecCompleted {
            1nat
        } else {
            0nat
        }
    }
}

/// The state counts the completed processes, as far as the counter goes.
pub proof fn law_jobs_are_counted(state: StateModel, events: Seq<events::EventModel>)
    ensures
        state.after_all(events).completed_jobs == if state.completed_jobs + jobs(events)
            <= u64::MAX {
            state.completed_jobs + jobs(events)
        } else {
            u64::MAX as int
        },
    decreases events.len(),
{
    if events.len() > 0 {
        law_jobs_are_counted(state, events.drop_last());
    }
}

/// The runtime counts as started exactly after a start that no stop followed.
pub proof fn law_started_until_stopped(state: StateModel, events: Seq<events::EventModel>, i: int)
    requires
        0 <= i < events.len(),
        events[i] is RuntimeStarted || events[i] is RuntimeStopped,
        forall|j: int|
            i < j < events.len() ==> !((#[trigger] events[j]) is RuntimeStarted) && !(
            events[j] is RuntimeStopped),
    ensures
        state.after_all(events).started == (events[i] is RuntimeStarted),
    decreases events.len(),
{
    if i < events.len() - 1 {
        let front = events.drop_last();
        assert(events[events.len() - 1] == events.last());
        assert forall|j: int| i < j < front.len() implies !((#[trigger] front[j])
            is RuntimeStarted) && !(front[j] is RuntimeStopped) by {
            assert(events[j] == front[j]);
        }
        law_started_until_stopped(state, front, i);
        assert(front[i] == events[i]);
    }
}

/// A start forgets the last error and keeps the rest; an unknown foreground
/// forgets the identity and keeps the rest.
pub proof fn law_start_and_unknown_forget(
    state: StateModel,
    unknown: crate::services::foreground::source::ForegroundUnknown,
)
    ensures
        state.after(events::EventModel::RuntimeStarted) == (StateModel {
            started: true,
            last_error: None,
            ..state
        }),
        state.after(events::EventModel::ForegroundUnknown(unknown)) == (StateModel {
            last_identity: None,
            ..state
        }),
{
}

/// A stop, a completed process, a resolved identity, what became of the identity
/// cache and a failed service are each noted in their own part of the state, and
/// leave the rest as it was. A new candidate is not noted at all.
pub proof fn law_each_event_has_its_part(state: StateModel, event: events::EventModel)
    ensures
        ({
            let after = state.after(event);
            &&& !(event is RuntimeStarted || event is RuntimeStopped) ==> after.started
                == state.started
            &&& !(event is ExecCompleted) ==> after.completed_jobs == state.completed_jobs
            &&& !(event is IdentityResolved || event is ForegroundUnknown) ==> after.last_identity
                == state.last_identity
            &&& !(event is IdentityCacheWarmed || event is IdentityCacheWarmupFailed)
                ==> after.identity_cache == state.identity_cache
            &&& !(event is RuntimeStarted || event is ServiceFailed) ==> after.last_error
                == state.last_error
            &&& event is RuntimeStopped ==> !after.started
            &&& event is ExecCompleted && state.completed_jobs < u64::MAX ==> after.completed_jobs
                == state.completed_jobs + 1
            &&& event matches events::EventModel::IdentityResolved(identity)
                ==> after.last_identity == Some(identity)
            &&& event matches events::EventModel::ServiceFailed { error } ==> after.last_error
                == Some(error.text())
            &&& event matches events::EventModel::IdentityCacheWarmed { source, coherent, count }
                ==> after.identity_cache.source == Some(source) && after.identity_cache.coherent
                == coherent && after.identity_cache.count == count
                && after.identity_cache.last_cache_error is None
            &&& event matches events::EventModel::IdentityCacheWarmupFailed { error }
                ==> after.identity_cache.last_cache_error == Some(error)
                && after.identity_cache.source is None && !after.identity_cache.coherent
                && after.identity_cache.count == 0
        }),
{
}

/// At first nothing has happened: the runtime is not started, no process has
/// completed, and neither an identity, a cache nor an error is known.
pub proof fn law_blank_state()
    ensures
        !StateModel::blank().started,
        StateModel::blank().completed_jobs == 0,
        StateModel::blank().last_identity is None,
        StateModel::blank().last_error is None,
        StateModel::blank().identity_cache.source is None,
        StateModel::blank().identity_cache.last_cache_error is None,
        !StateModel::blank().identity_cache.coherent,
        StateModel::blank().identity_cache.count == 0,
{
}

} // verus!

//! What events ask for.
use vstd::prelude::*;

use crate::events;
use crate::events::EngineEvent;
use crate::ordered;

verus! {

/// Generic Engine action.
#[derive(Debug, PartialEq, Eq)]
pub enum EngineAction {
    RunExec { argv: Vec<String>, capture_stdout: bool },
    ResolveIdentity { pid: Option<i32>, uid: Option<u32> },
    Shutdown,
}

/// The model of an action.
pub enum ActionModel {
    RunExec { argv: Seq<Seq<char>>, capture_stdout: bool },
    ResolveIdentity { pid: Option<i32>, uid: Option<u32> },
    Shutdown,
}

impl View for EngineAction {
    type V = ActionModel;

    open spec fn view(&self) -> ActionModel {
        match *self {
            EngineAction::RunExec { argv, capture_stdout } => ActionModel::RunExec {
                argv: ordered::strings(argv@),
                capture_stdout,
            },
            EngineAction::ResolveIdentity { pid, uid } => ActionModel::ResolveIdentity { pid, uid },
            EngineAction::Shutdown => ActionModel::Shutdown,
        }
    }
}

impl Clone for EngineAction {
    fn clone(&self) -> (r: Self)
        ensures
            r@ == self@,
    {
        match self {
            EngineAction::RunExec { argv, capture_stdout } => EngineAction::RunExec {
                argv: ordered::Record::duplicate(argv),
                capture_stdout: *capture_stdout,
            },
            EngineAction::ResolveIdentity { pid, uid } => EngineAction::ResolveIdentity {
                pid: *pid,
                uid: *uid,
            },
            EngineAction::Shutdown => EngineAction::Shutdown,
        }
    }
}

/// The models of actions.
pub open spec fn action_models(s: Seq<EngineAction>) -> Seq<ActionModel> {
    Seq::new(s.len(), |i: int| s[i]@)
}

/// What an event asks for: a new foreground candidate with a process or a UID is
/// to be identified; nothing else asks for anything.
pub open spec fn dispatched(event: events::EventModel) -> Seq<ActionModel> {
    match event {
        events::EventModel::ForegroundCandidateChanged(candidate) => if candidate.pid is Some
            || candidate.uid is Some {
            seq![ActionModel::ResolveIdentity { pid: candidate.pid, uid: candidate.uid }]
        } else {
            Seq::empty()
        },
        _ => Seq::empty(),
    }
}

/// Policy-free dispatcher.
#[derive(Debug, Default)]
pub struct Dispatcher;

impl Dispatcher {
    /// The actions that an event asks for.
    pub fn dispatch(event: &EngineEvent) -> (r: Vec<EngineAction>)
        ensures
            action_models(r@) == dispatched(event@),
    {
        let mut actions: Vec<EngineAction> = Vec::new();
        match event {
            EngineEvent::ForegroundCandidateChanged(candidate) => {
                if candidate.pid.is_some() || candidate.uid.is_some() {
                    actions.push(
                        EngineAction::ResolveIdentity { pid: candidate.pid, uid: candidate.uid },
                    );
                }
            },
            _ => {},
        }
        assert(action_models(actions@) =~= dispatched(event@));
        actions
    }
}

/// No event makes the engine run a process or shut down.
pub proof fn law_events_only_ask_for_identities(event: events::EventModel, i: int)
    requires
        0 <= i < dispatched(event).len(),
    ensures
        dispatched(event)[i] is ResolveIdentity,
        event is ForegroundCandidateChanged,
{
}

/// A new foreground candidate asks for one identity, of its process and its UID, if
/// it has either; no other event asks for anything.
pub proof fn law_candidate_asks_for_its_identity(
    candidate: crate::services::foreground::source::CandidateModel,
    other: events::EventModel,
)
    requires
        !(other is ForegroundCandidateChanged),
    ensures
        candidate.pid is Some || candidate.uid is Some ==> dispatched(
            events::EventModel::ForegroundCandidateChanged(candidate),
        ) == seq![ActionModel::ResolveIdentity { pid: candidate.pid, uid: candidate.uid }],
        candidate.pid is None && candidate.uid is None ==> dispatched(
            events::EventModel::ForegroundCandidateChanged(candidate),
        ).len() == 0,
        dispatched(other).len() == 0,
{
}

} // verus!

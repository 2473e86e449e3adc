//! Passing on what is new in the foreground.
use vstd::prelude::*;

use crate::error::EngineError;
use crate::events::EngineEvent;
use crate::path::{EnginePath, PathSet};
use crate::services::foreground::source::{
    ForegroundCandidate, ForegroundSource, ForegroundUnknown,
};
use crate::services::identity_cache::IdentityCacheInvalidator;
use crate::{events, services::foreground::source, services::identity_cache};

verus! {

/// How often a source is asked again about an event that it makes nothing of.
pub const EVENT_RETRY_ATTEMPTS: usize = 3;

/// What is new in the foreground.
#[derive(Debug, PartialEq, Eq)]
pub enum ForegroundUpdate {
    Active(ForegroundCandidate),
    Unknown(ForegroundUnknown),
}

/// The model of what is new in the foreground.
pub enum UpdateModel {
    Active(source::CandidateModel),
    Unknown(ForegroundUnknown),
}

impl View for ForegroundUpdate {
    type V = UpdateModel;

    open spec fn view(&self) -> UpdateModel {
        match *self {
            ForegroundUpdate::Active(candidate) => UpdateModel::Active(candidate@),
            ForegroundUpdate::Unknown(unknown) => UpdateModel::Unknown(unknown),
        }
    }
}

impl Clone for ForegroundUpdate {
    fn clone(&self) -> (r: Self)
        ensures
            r@ == self@,
    {
        match self {
            ForegroundUpdate::Active(candidate) => ForegroundUpdate::Active(candidate.clone()),
            ForegroundUpdate::Unknown(unknown) => ForegroundUpdate::Unknown(*unknown),
        }
    }
}

impl ForegroundUpdate {
    /// The candidate, if there is one.
    pub fn active(self) -> (r: Option<ForegroundCandidate>)
        ensures
            source::candidate_model(r) == match self@ {
                UpdateModel::Active(candidate) => Some(candidate),
                UpdateModel::Unknown(_) => None,
            },
    {
        match self {
            ForegroundUpdate::Active(candidate) => Some(candidate),
            ForegroundUpdate::Unknown(_) => None,
        }
    }
}

/// What is passed on of an answer, and what is remembered.
pub struct Deduped {
    /// The last candidate that was passed on.
    pub last: Option<source::CandidateModel>,
    /// The candidate that is passed on now.
    pub update: Option<source::CandidateModel>,
    /// Whether it takes the place of another.
    pub counts_as_change: bool,
}

/// What is passed on: a candidate that differs from the last one in any way.
/// Hearing nothing leaves the last one in place.
pub open spec fn deduped(
    last: Option<source::CandidateModel>,
    candidate: Option<source::CandidateModel>,
) -> Deduped {
    if candidate is None || candidate == last {
        Deduped { last, update: None, counts_as_change: false }
    } else {
        Deduped { last: candidate, update: candidate, counts_as_change: last is Some }
    }
}

/// The same candidate is passed on once, however often it is heard of.
pub proof fn law_same_candidate_passes_once(
    last: Option<source::CandidateModel>,
    candidate: source::CandidateModel,
)
    ensures
        deduped(deduped(last, Some(candidate)).last, Some(candidate)).update is None,
        deduped(last, Some(candidate)).last == Some(candidate),
{
}

/// Hearing nothing in between changes neither what is passed on afterwards nor
/// what is remembered.
pub proof fn law_silence_keeps_last(
    last: Option<source::CandidateModel>,
    candidate: Option<source::CandidateModel>,
)
    ensures
        deduped(last, None).last == last,
        deduped(last, None).update is None,
        deduped(deduped(last, None).last, candidate) == deduped(last, candidate),
{
}

/// A candidate that differs from the last one is passed on, and counts as a
/// change exactly if it is not the first.
pub proof fn law_new_candidate_passes(
    last: Option<source::CandidateModel>,
    candidate: source::CandidateModel,
)
    requires
        last != Some(candidate),
    ensures
        deduped(last, Some(candidate)).update == Some(candidate),
        deduped(last, Some(candidate)).counts_as_change <==> last is Some,
{
}

/// A source and the last candidate that was passed on.
pub struct ForegroundManager<S> {
    source: S,
    last_payload: Option<ForegroundCandidate>,
}

/// What is passed on of an answer.
pub struct ForegroundUpdateResult {
    update: Option<ForegroundUpdate>,
    counts_as_change: bool,
}

impl ForegroundUpdateResult {
    /// The candidate that is passed on.
    pub closed spec fn candidate(&self) -> Option<source::CandidateModel> {
        match self.update {
            Some(ForegroundUpdate::Active(candidate)) => Some(candidate@),
            _ => None,
        }
    }

    /// Whether what is passed on is a candidate, if anything is.
    pub closed spec fn well_formed(&self) -> bool {
        !(self.update matches Some(ForegroundUpdate::Unknown(_)))
    }

    /// Whether it takes the place of another.
    pub closed spec fn counts(&self) -> bool {
        self.counts_as_change
    }
}

/// What is passed on of an answer: an error as it is, a candidate if it is new.
pub open spec fn passes(
    last: Option<source::CandidateModel>,
    answer: source::SourceAnswer,
    last_after: Option<source::CandidateModel>,
    r: Result<ForegroundUpdateResult, EngineError>,
) -> bool {
    match answer {
        Err(e) => last_after == last && r == Err::<ForegroundUpdateResult, EngineError>(e),
        Ok(found) => {
            let now = deduped(last, source::candidate_model(found));
            &&& last_after == now.last
            &&& r matches Ok(result)
            &&& result.well_formed()
            &&& result.candidate() == now.update
            &&& result.counts() == now.counts_as_change
        },
    }
}

/// What a caller gets of an answer.
pub open spec fn told(
    last: Option<source::CandidateModel>,
    answer: source::SourceAnswer,
    last_after: Option<source::CandidateModel>,
    r: Result<Option<ForegroundUpdate>, EngineError>,
) -> bool {
    match answer {
        Err(e) => last_after == last && r == Err::<Option<ForegroundUpdate>, EngineError>(e),
        Ok(found) => {
            let now = deduped(last, source::candidate_model(found));
            &&& last_after == now.last
            &&& r matches Ok(update)
            &&& match update {
                Some(update) => now.update matches Some(candidate) && update@
                    == UpdateModel::Active(candidate),
                None => now.update is None,
            }
        },
    }
}

/// Whether a source that is asked about an event up to `attempts` times, until it
/// makes something of it or fails, may answer so in the end.
pub open spec fn answers_event<S: ForegroundSource>(
    attempts: nat,
    pre: S,
    event_path: Seq<u8>,
    mask: u32,
    post: S,
    r: source::SourceAnswer,
) -> bool
    decreases attempts,
{
    if attempts == 0 {
        post == pre && r == Ok::<Option<ForegroundCandidate>, EngineError>(None)
    } else {
        exists|mid: S, first: source::SourceAnswer|
            {
                &&& #[trigger] S::answers(
                    pre,
                    source::SourceCall::FsEventWithMask(event_path, mask),
                    mid,
                    first,
                )
                &&& if first == Ok::<Option<ForegroundCandidate>, EngineError>(None) {
                    answers_event((attempts - 1) as nat, mid, event_path, mask, post, r)
                } else {
                    post == mid && r == first
                }
            }
    }
}

impl<S> ForegroundManager<S> {
    /// The source.
    pub closed spec fn asks(&self) -> S {
        self.source
    }

    /// The last candidate that was passed on.
    pub closed spec fn last(&self) -> Option<source::CandidateModel> {
        source::candidate_model(self.last_payload)
    }
}

impl<S: ForegroundSource> ForegroundManager<S> {
    /// A manager that passed nothing on yet.
    pub fn new(source: S) -> (r: Self)
        ensures
            r.asks() == source,
            r.last() is None,
    {
        ForegroundManager { source, last_payload: None }
    }

    /// What the source says is in the foreground now, new or not.
    pub fn poll_current(&mut self) -> (r: Result<Option<ForegroundCandidate>, EngineError>)
        requires
            old(self).asks().ready(),
        ensures
            final(self).asks().ready(),
            S::answers(old(self).asks(), source::SourceCall::Poll, final(self).asks(), r),
            final(self).last() == old(self).last(),
    {
        self.source.poll_current()
    }

    /// What is new in the foreground now.
    pub fn poll_changed(&mut self) -> (r: Result<Option<ForegroundUpdate>, EngineError>)
        requires
            old(self).asks().ready(),
        ensures
            final(self).asks().ready(),
            exists|answer: source::SourceAnswer|
                {
                    &&& #[trigger] S::answers(
                        old(self).asks(),
                        source::SourceCall::Poll,
                        final(self).asks(),
                        answer,
                    )
                    &&& told(old(self).last(), answer, final(self).last(), r)
                },
    {
        match self.poll_update() {
            Ok(result) => Ok(result.update),
            Err(e) => Err(e),
        }
    }

    /// The paths that the source wants watched.
    pub fn watch_hint_paths(&self) -> (r: &Vec<EnginePath>)
        ensures
            source::path_models(r@) == self.asks().hints(),
    {
        self.source.watch_hint_paths()
    }

    /// The events that the source wants a path watched for.
    pub fn watch_hint_mask(&self, hint_path: &EnginePath) -> (r: u32)
        ensures
            r == self.asks().hint_mask(hint_path@),
    {
        self.source.watch_hint_mask(hint_path)
    }

    /// The paths whose priority descriptors are to be registered now.
    pub fn register_priority_fds(&self, registered_paths: &PathSet) -> (r: Vec<EnginePath>)
        ensures
            source::path_models(r@) == self.asks().unregistered(registered_paths@),
    {
        self.source.register_priority_fds(registered_paths)
    }

    /// The paths of the priority descriptors.
    pub fn priority_hint_paths(&self) -> (r: Vec<EnginePath>)
        ensures
            source::path_models(r@) == self.asks().priority_paths(),
    {
        self.source.priority_hint_paths()
    }

    /// The paths of the priority descriptors with their keys.
    pub fn priority_hint_keys(&self) -> (r: Vec<(EnginePath, u64)>)
        ensures
            source::keyed_models(r@) == self.asks().priority_keys(),
    {
        self.source.priority_hint_keys()
    }

    /// What the source makes of an event, new or not.
    pub fn handle_fs_event(&mut self, event_path: &EnginePath) -> (r: Result<
        Option<ForegroundCandidate>,
        EngineError,
    >)
        requires
            old(self).asks().ready(),
        ensures
            final(self).asks().ready(),
            S::answers(
                old(self).asks(),
                source::SourceCall::FsEvent(event_path@),
                final(self).asks(),
                r,
            ),
            final(self).last() == old(self).last(),
    {
        self.source.handle_fs_event(event_path)
    }

    /// What is new in the foreground after an event.
    pub fn handle_fs_event_changed(&mut self, event_path: &EnginePath, mask: u32) -> (r: Result<
        Option<ForegroundUpdate>,
        EngineError,
    >)
        requires
            old(self).asks().ready(),
        ensures
            final(self).asks().ready(),
            exists|answer: source::SourceAnswer|
                {
                    &&& #[trigger] answers_event(
                        EVENT_RETRY_ATTEMPTS as nat,
                        old(self).asks(),
                        event_path@,
                        mask,
                        final(self).asks(),
                        answer,
                    )
                    &&& told(old(self).last(), answer, final(self).last(), r)
                },
    {
        match self.handle_fs_event_update(event_path, mask) {
            Ok(result) => Ok(result.update),
            Err(e) => Err(e),
        }
    }

    pub(crate) fn poll_update(&mut self) -> (r: Result<ForegroundUpdateResult, EngineError>)
        requires
            old(self).asks().ready(),
        ensures
            final(self).asks().ready(),
            exists|answer: source::SourceAnswer|
                {
                    &&& #[trigger] S::answers(
                        old(self).asks(),
                        source::SourceCall::Poll,
                        final(self).asks(),
                        answer,
                    )
                    &&& passes(old(self).last(), answer, final(self).last(), r)
                },
    {
        match self.source.poll_current() {
            Ok(candidate) => {
                let ghost answer: source::SourceAnswer = Ok(candidate);
                assert(S::answers(
                    old(self).asks(),
                    source::SourceCall::Poll,
                    self.asks(),
                    answer,
                ));
                Ok(self.filter_changed(candidate))
            },
            Err(e) => {
                let ghost answer: source::SourceAnswer = Err(e);
                assert(S::answers(
                    old(self).asks(),
                    source::SourceCall::Poll,
                    self.asks(),
                    answer,
                ));
                Err(e)
            },
        }
    }

    fn ask_event(&mut self, attempts: usize, event_path: &EnginePath, mask: u32) -> (r: Result<
        Option<ForegroundCandidate>,
        EngineError,
    >)
        requires
            old(self).asks().ready(),
        ensures
            final(self).asks().ready(),
            final(self).last() == old(self).last(),
            answers_event(
                attempts as nat,
                old(self).asks(),
                event_path@,
                mask,
                final(self).asks(),
                r,
            ),
        decreases attempts,
    {
        if attempts == 0 {
            return Ok(None);
        }
        let first = self.source.handle_fs_event_with_mask(event_path, mask);
        assert(S::answers(
            old(self).asks(),
            source::SourceCall::FsEventWithMask(event_path@, mask),
            self.asks(),
            first,
        ));
        match first {
            Ok(None) => self.ask_event(attempts - 1, event_path, mask),
            other => other,
        }
    }

    pub(crate) fn handle_fs_event_update(&mut self, event_path: &EnginePath, mask: u32) -> (r:
        Result<ForegroundUpdateResult, EngineError>)
        requires
            old(self).asks().ready(),
        ensures
            final(self).asks().ready(),
            exists|answer: source::SourceAnswer|
                {
                    &&& #[trigger] answers_event(
                        EVENT_RETRY_ATTEMPTS as nat,
                        old(self).asks(),
                        event_path@,
                        mask,
                        final(self).asks(),
                        answer,
                    )
                    &&& passes(old(self).last(), answer, final(self).last(), r)
                },
    {
        let answer = self.ask_event(EVENT_RETRY_ATTEMPTS, event_path, mask);
        assert(answers_event(
            EVENT_RETRY_ATTEMPTS as nat,
            old(self).asks(),
            event_path@,
            mask,
            self.asks(),
            answer,
        ));
        match answer {
            Ok(candidate) => Ok(self.filter_changed(candidate)),
            Err(e) => Err(e),
        }
    }

    /// What is new in the foreground after a priority descriptor was signalled.
    pub fn handle_priority_event_changed(&mut self, event_path: &EnginePath) -> (r: Result<
        Option<ForegroundUpdate>,
        EngineError,
    >)
        requires
            old(self).asks().ready(),
        ensures
            final(self).asks().ready(),
            exists|answer: source::SourceAnswer|
                {
                    &&& #[trigger] S::answers(
                        old(self).asks(),
                        source::SourceCall::Priority(event_path@),
                        final(self).asks(),
                        answer,
                    )
                    &&& told(old(self).last(), answer, final(self).last(), r)
                },
    {
        match self.handle_priority_event_update(event_path) {
            Ok(result) => Ok(result.update),
            Err(e) => Err(e),
        }
    }

    /// What is new in the foreground after a priority descriptor failed.
    pub fn handle_stale_priority_event_changed(&mut self, event_path: &EnginePath) -> (r: Result<
        Option<ForegroundUpdate>,
        EngineError,
    >)
        requires
            old(self).asks().ready(),
        ensures
            final(self).asks().ready(),
            exists|answer: source::SourceAnswer|
                {
                    &&& #[trigger] S::answers(
                        old(self).asks(),
                        source::SourceCall::StalePriority(event_path@),
                        final(self).asks(),
                        answer,
                    )
                    &&& told(old(self).last(), answer, final(self).last(), r)
                },
    {
        match self.handle_stale_priority_event_update(event_path) {
            Ok(result) => Ok(result.update),
            Err(e) => Err(e),
        }
    }

    /// Whether there is a priority descriptor of this path to take out.
    pub fn unregister_priority_fd(&self, fd_path: &EnginePath) -> (r: bool)
        ensures
            r == self.asks().holds_descriptor(fd_path@),
    {
        self.source.unregister_priority_fd(fd_path)
    }

    pub(crate) fn handle_priority_event_update(&mut self, event_path: &EnginePath) -> (r: Result<
        ForegroundUpdateResult,
        EngineError,
    >)
        requires
            old(self).asks().ready(),
        ensures
            final(self).asks().ready(),
            exists|answer: source::SourceAnswer|
                {
                    &&& #[trigger] S::answers(
                        old(self).asks(),
                        source::SourceCall::Priority(event_path@),
                        final(self).asks(),
                        answer,
                    )
                    &&& passes(old(self).last(), answer, final(self).last(), r)
                },
    {
        let answer = self.source.handle_priority_event(event_path);
        assert(S::answers(
            old(self).asks(),
            source::SourceCall::Priority(event_path@),
            self.asks(),
            answer,
        ));
        match answer {
            Ok(candidate) => Ok(self.filter_changed(candidate)),
            Err(e) => Err(e),
        }
    }

    pub(crate) fn handle_stale_priority_event_update(&mut self, event_path: &EnginePath) -> (r:
        Result<ForegroundUpdateResult, EngineError>)
        requires
            old(self).asks().ready(),
        ensures
            final(self).asks().ready(),
            exists|answer: source::SourceAnswer|
                {
                    &&& #[trigger] S::answers(
                        old(self).asks(),
                        source::SourceCall::StalePriority(event_path@),
                        final(self).asks(),
                        answer,
                    )
                    &&& passes(old(self).last(), answer, final(self).last(), r)
                },
    {
        let answer = self.source.handle_stale_priority_event(event_path);
        assert(S::answers(
            old(self).asks(),
            source::SourceCall::StalePriority(event_path@),
            self.asks(),
            answer,
        ));
        match answer {
            Ok(candidate) => Ok(self.filter_changed(candidate)),
            Err(e) => Err(e),
        }
    }

    /// The last candidate that was passed on.
    pub fn last_payload(&self) -> (r: Option<&ForegroundCandidate>)
        ensures
            match r {
                Some(candidate) => self.last() == Some(candidate@),
                None => self.last() is None,
            },
    {
        match &self.last_payload {
            Some(candidate) => Some(candidate),
            None => None,
        }
    }

    /// The source, to be changed.
    pub fn source_mut(&mut self) -> (r: &mut S)
        ensures
            *r == old(self).asks(),
            final(self).asks() == *final(r),
            final(self).last() == old(self).last(),
    {
        &mut self.source
    }

    fn filter_changed(&mut self, candidate: Option<ForegroundCandidate>) -> (r:
        ForegroundUpdateResult)
        ensures
            final(self).asks() == old(self).asks(),
            final(self).last() == deduped(
                old(self).last(),
                source::candidate_model(candidate),
            ).last,
            r.well_formed(),
            r.candidate() == deduped(old(self).last(), source::candidate_model(candidate)).update,
            r.counts() == deduped(
                old(self).last(),
                source::candidate_model(candidate),
            ).counts_as_change,
    {
        let candidate = match candidate {
            Some(candidate) => candidate,
            None => {
                return ForegroundUpdateResult { update: None, counts_as_change: false };
            },
        };
        let same = match &self.last_payload {
            Some(last) => last.source == candidate.source && last.pid == candidate.pid && last.uid
                == candidate.uid && source::same_text(&last.package, &candidate.package)
                && last.identity_resolved == candidate.identity_resolved,
            None => false,
        };
        if same {
            return ForegroundUpdateResult { update: None, counts_as_change: false };
        }
        let counts_as_change = self.last_payload.is_some();
        self.last_payload = Some(candidate.clone());
        ForegroundUpdateResult {
            update: Some(ForegroundUpdate::Active(candidate)),
            counts_as_change,
        }
    }
}

// ---------------------------------------------------------------------------
// The pipeline
// ---------------------------------------------------------------------------

/// What comes out of the pipeline.
#[derive(Debug, PartialEq, Eq)]
pub struct PipelineOutcome {
    /// What happened.
    pub events: Vec<EngineEvent>,
    /// Whether the package registry file is to be looked at now.
    pub check_packages_xml: bool,
}

/// A manager whose updates become events.
pub struct ForegroundPipeline<S> {
    manager: ForegroundManager<S>,
}

/// What comes out of the pipeline for an answer, and what becomes of the
/// invalidator: a new candidate is an event, and one that takes the place of
/// another is counted.
pub open spec fn piped(
    last: Option<source::CandidateModel>,
    invalidator: identity_cache::InvalidatorModel,
    answer: source::SourceAnswer,
    last_after: Option<source::CandidateModel>,
    invalidator_after: identity_cache::InvalidatorModel,
    r: Result<PipelineOutcome, EngineError>,
) -> bool {
    match answer {
        Err(e) => {
            &&& last_after == last
            &&& invalidator_after == invalidator
            &&& r == Err::<PipelineOutcome, EngineError>(e)
        },
        Ok(found) => {
            let now = deduped(last, source::candidate_model(found));
            &&& last_after == now.last
            &&& invalidator_after == if now.counts_as_change {
                invalidator.counted()
            } else {
                invalidator
            }
            &&& r matches Ok(outcome)
            &&& events::event_models(outcome.events@) == match now.update {
                Some(candidate) => seq![events::EventModel::ForegroundCandidateChanged(candidate)],
                None => Seq::empty(),
            }
            &&& outcome.check_packages_xml == (now.counts_as_change && invalidator.look_due())
        },
    }
}

impl<S> ForegroundPipeline<S> {
    /// The source.
    pub closed spec fn asks(&self) -> S {
        self.manager.asks()
    }

    /// The last candidate that was passed on.
    pub closed spec fn last(&self) -> Option<source::CandidateModel> {
        self.manager.last()
    }
}

fn events_of(
    result: Result<ForegroundUpdateResult, EngineError>,
    invalidator: &mut IdentityCacheInvalidator,
) -> (r: Result<PipelineOutcome, EngineError>)
    requires
        result matches Ok(result) ==> result.well_formed() && (result.candidate() is None
            ==> !result.counts()),
    ensures
        match result {
            Err(e) => final(invalidator)@ == old(invalidator)@ && r == Err::<
                PipelineOutcome,
                EngineError,
            >(e),
            Ok(result) => {
                &&& final(invalidator)@ == if result.counts() {
                    old(invalidator)@.counted()
                } else {
                    old(invalidator)@
                }
                &&& r matches Ok(outcome)
                &&& events::event_models(outcome.events@) == match result.candidate() {
                    Some(candidate) => seq![
                        events::EventModel::ForegroundCandidateChanged(candidate),
                    ],
                    None => Seq::empty(),
                }
                &&& outcome.check_packages_xml == (result.counts() && old(
                    invalidator,
                )@.look_due())
            },
        },
{
    let result = match result {
        Ok(result) => result,
        Err(e) => {
            return Err(e);
        },
    };
    let mut happened: Vec<EngineEvent> = Vec::new();
    let mut check_packages_xml = false;
    match result.update {
        None => {
            assert(events::event_models(happened@) =~= Seq::<events::EventModel>::empty());
        },
        Some(update) => {
            if result.counts_as_change {
                check_packages_xml = invalidator.mark_foreground_candidate();
            }
            match update {
                ForegroundUpdate::Active(candidate) => {
                    let ghost model = candidate@;
                    happened.push(EngineEvent::ForegroundCandidateChanged(candidate));
                    assert(events::event_models(happened@) =~= seq![
                        events::EventModel::ForegroundCandidateChanged(model),
                    ]);
                },
                ForegroundUpdate::Unknown(unknown) => {
                    happened.push(EngineEvent::ForegroundUnknown(unknown));
                },
            }
        },
    }
    Ok(PipelineOutcome { events: happened, check_packages_xml })
}

impl<S: ForegroundSource> ForegroundPipeline<S> {
    /// A pipeline over a manager.
    pub fn new(manager: ForegroundManager<S>) -> (r: Self)
        ensures
            r.asks() == manager.asks(),
            r.last() == manager.last(),
    {
        ForegroundPipeline { manager }
    }

    /// What happened in the foreground by now.
    pub fn poll_changed(&mut self, invalidator: &mut IdentityCacheInvalidator) -> (r: Result<
        PipelineOutcome,
        EngineError,
    >)
        requires
            old(self).asks().ready(),
        ensures
            final(self).asks().ready(),
            exists|answer: source::SourceAnswer|
                {
                    &&& #[trigger] S::answers(
                        old(self).asks(),
                        source::SourceCall::Poll,
                        final(self).asks(),
                        answer,
                    )
                    &&& piped(
                        old(self).last(),
                        old(invalidator)@,
                        answer,
                        final(self).last(),
                        final(invalidator)@,
                        r,
                    )
                },
    {
        let result = self.manager.poll_update();
        events_of(result, invalidator)
    }

    /// What happened in the foreground on an event.
    pub fn handle_fs_event_changed(
        &mut self,
        event_path: &EnginePath,
        mask: u32,
        invalidator: &mut IdentityCacheInvalidator,
    ) -> (r: Result<PipelineOutcome, EngineError>)
        requires
            old(self).asks().ready(),
        ensures
            final(self).asks().ready(),
            exists|answer: source::SourceAnswer|
                {
                    &&& #[trigger] answers_event(
                        EVENT_RETRY_ATTEMPTS as nat,
                        old(self).asks(),
                        event_path@,
                        mask,
                        final(self).asks(),
                        answer,
                    )
                    &&& piped(
                        old(self).last(),
                        old(invalidator)@,
                        answer,
                        final(self).last(),
                        final(invalidator)@,
                        r,
                    )
                },
    {
        let result = self.manager.handle_fs_event_update(event_path, mask);
        events_of(result, invalidator)
    }

    /// The manager.
    pub fn manager(&self) -> (r: &ForegroundManager<S>)
        ensures
            r.asks() == self.asks(),
            r.last() == self.last(),
    {
        &self.manager
    }

    /// The manager, to be changed.
    pub fn manager_mut(&mut self) -> (r: &mut ForegroundManager<S>)
        ensures
            r.asks() == old(self).asks(),
            r.last() == old(self).last(),
            final(self).asks() == final(r).asks(),
            final(self).last() == final(r).last(),
    {
        &mut self.manager
    }

    /// The source, to be changed.
    pub fn source_mut(&mut self) -> (r: &mut S)
        ensures
            *r == old(self).asks(),
            final(self).asks() == *final(r),
            final(self).last() == old(self).last(),
    {
        self.manager.source_mut()
    }

    /// The paths that the source wants watched.
    pub fn watch_hint_paths(&self) -> (r: &Vec<EnginePath>)
        ensures
            source::path_models(r@) == self.asks().hints(),
    {
        self.manager.watch_hint_paths()
    }

    /// The events that the source wants a path watched for.
    pub fn watch_hint_mask(&self, hint_path: &EnginePath) -> (r: u32)
        ensures
            r == self.asks().hint_mask(hint_path@),
    {
        self.manager.watch_hint_mask(hint_path)
    }

    /// The paths whose priority descriptors are to be registered now.
    pub fn register_priority_fds(&self, registered_paths: &PathSet) -> (r: Vec<EnginePath>)
        ensures
            source::path_models(r@) == self.asks().unregistered(registered_paths@),
    {
        self.manager.register_priority_fds(registered_paths)
    }

    /// The paths of the priority descriptors.
    pub fn priority_hint_paths(&self) -> (r: Vec<EnginePath>)
        ensures
            source::path_models(r@) == self.asks().priority_paths(),
    {
        self.manager.priority_hint_paths()
    }

    /// The paths of the priority descriptors with their keys.
    pub fn priority_hint_keys(&self) -> (r: Vec<(EnginePath, u64)>)
        ensures
            source::keyed_models(r@) == self.asks().priority_keys(),
    {
        self.manager.priority_hint_keys()
    }

    /// What happened in the foreground when a priority descriptor was signalled.
    pub fn handle_priority_event_changed(
        &mut self,
        event_path: &EnginePath,
        invalidator: &mut IdentityCacheInvalidator,
    ) -> (r: Result<PipelineOutcome, EngineError>)
        requires
            old(self).asks().ready(),
        ensures
            final(self).asks().ready(),
            exists|answer: source::SourceAnswer|
                {
                    &&& #[trigger] S::answers(
                        old(self).asks(),
                        source::SourceCall::Priority(event_path@),
                        final(self).asks(),
                        answer,
                    )
                    &&& piped(
                        old(self).last(),
                        old(invalidator)@,
                        answer,
                        final(self).last(),
                        final(invalidator)@,
                        r,
                    )
                },
    {
        let result = self.manager.handle_priority_event_update(event_path);
        events_of(result, invalidator)
    }

    /// What happened in the foreground when a priority descriptor failed.
    pub fn handle_stale_priority_event_changed(
        &mut self,
        event_path: &EnginePath,
        invalidator: &mut IdentityCacheInvalidator,
    ) -> (r: Result<PipelineOutcome, EngineError>)
        requires
            old(self).asks().ready(),
        ensures
            final(self).asks().ready(),
            exists|answer: source::SourceAnswer|
                {
                    &&& #[trigger] S::answers(
                        old(self).asks(),
                        source::SourceCall::StalePriority(event_path@),
                        final(self).asks(),
                        answer,
                    )
                    &&& piped(
                        old(self).last(),
                        old(invalidator)@,
                        answer,
                        final(self).last(),
                        final(invalidator)@,
                        r,
                    )
                },
    {
        let result = self.manager.handle_stale_priority_event_update(event_path);
        events_of(result, invalidator)
    }

    /// Whether there is a priority descriptor of this path to take out.
    pub fn unregister_priority_fd(&self, fd_path: &EnginePath) -> (r: bool)
        ensures
            r == self.asks().holds_descriptor(fd_path@),
    {
        self.manager.unregister_priority_fd(fd_path)
    }
}

/// A caller hears of a candidate exactly if it differs from the last one in its
/// source, its process, its UID, its package or whether it is resolved, and then
/// that is the last one. Hearing of none, or of the same, leaves the last one as it
/// is and tells nothing; an error is handed on.
pub proof fn law_caller_hears_news(
    last: Option<source::CandidateModel>,
    answer: source::SourceAnswer,
    last_after: Option<source::CandidateModel>,
    r: Result<Option<ForegroundUpdate>, EngineError>,
)
    requires
        told(last, answer, last_after, r),
    ensures
        match answer {
            Err(e) => r == Err::<Option<ForegroundUpdate>, EngineError>(e) && last_after == last,
            Ok(None) => r == Ok::<Option<ForegroundUpdate>, EngineError>(None) && last_after
                == last,
            Ok(Some(found)) => {
                let same = last matches Some(known) && known.source == found@.source && known.pid
                    == found@.pid && known.uid == found@.uid && known.package == found@.package
                    && known.identity_resolved == found@.identity_resolved;
                if same {
                    r == Ok::<Option<ForegroundUpdate>, EngineError>(None) && last_after == last
                } else {
                    last_after == Some(found@) && (r matches Ok(Some(update)) && update@
                        == UpdateModel::Active(found@))
                }
            },
        },
{
}

/// A candidate that is news comes out of the pipeline as one event. It is counted
/// exactly if it takes the place of another, and a look at the package registry file
/// is asked for exactly if the count makes one due; nothing else counts.
pub proof fn law_news_is_one_event(
    last: Option<source::CandidateModel>,
    invalidator: identity_cache::InvalidatorModel,
    answer: source::SourceAnswer,
    last_after: Option<source::CandidateModel>,
    invalidator_after: identity_cache::InvalidatorModel,
    r: Result<PipelineOutcome, EngineError>,
)
    requires
        piped(last, invalidator, answer, last_after, invalidator_after, r),
    ensures
        match answer {
            Err(e) => r == Err::<PipelineOutcome, EngineError>(e) && last_after == last
                && invalidator_after == invalidator,
            Ok(found) => r matches Ok(outcome) && match found {
                Some(candidate) if last != Some(candidate@) => {
                    &&& last_after == Some(candidate@)
                    &&& events::event_models(outcome.events@) == seq![
                        events::EventModel::ForegroundCandidateChanged(candidate@),
                    ]
                    &&& last is Some ==> invalidator_after == invalidator.counted()
                        && outcome.check_packages_xml == invalidator.look_due()
                    &&& last is None ==> invalidator_after == invalidator
                        && !outcome.check_packages_xml
                },
                _ => last_after == last && invalidator_after == invalidator && outcome.events@.len()
                    == 0 && !outcome.check_packages_xml,
            },
        },
{
    if let Ok(found) = answer {
        let outcome = r->Ok_0;
        assert(events::event_models(outcome.events@).len() == outcome.events@.len());
    }
}

/// A source that makes something of an event, or fails, is not asked again; one
/// that makes nothing of it is asked up to three times in all.
pub proof fn law_event_is_asked_about_three_times<S: ForegroundSource>(
    pre: S,
    event_path: Seq<u8>,
    mask: u32,
    post: S,
    r: source::SourceAnswer,
)
    requires
        answers_event(EVENT_RETRY_ATTEMPTS as nat, pre, event_path, mask, post, r),
    ensures
        ({
            let call = source::SourceCall::FsEventWithMask(event_path, mask);
            let nothing = Ok::<Option<ForegroundCandidate>, EngineError>(None);
            exists|first: S, answer: source::SourceAnswer| #[trigger]
                S::answers(pre, call, first, answer) && if answer != nothing {
                    post == first && r == answer
                } else {
                    exists|second: S, again: source::SourceAnswer| #[trigger]
                        S::answers(first, call, second, again) && if again != nothing {
                            post == second && r == again
                        } else {
                            S::answers(second, call, post, r)
                        }
                }
        }),
{
    let call = source::SourceCall::FsEventWithMask(event_path, mask);
    let nothing = Ok::<Option<ForegroundCandidate>, EngineError>(None);
    reveal_with_fuel(answers_event, 4);
    let (first, answer) = choose|mid: S, first: source::SourceAnswer|
        {
            &&& #[trigger] S::answers(pre, call, mid, first)
            &&& if first == nothing {
                answers_event(2, mid, event_path, mask, post, r)
            } else {
                post == mid && r == first
            }
        };
    assert(S::answers(pre, call, first, answer));
    if answer == nothing {
        let (second, again) = choose|mid: S, second: source::SourceAnswer|
            {
                &&& #[trigger] S::answers(first, call, mid, second)
                &&& if second == nothing {
                    answers_event(1, mid, event_path, mask, post, r)
                } else {
                    post == mid && r == second
                }
            };
        assert(S::answers(first, call, second, again));
        if again == nothing {
            let (third, last) = choose|mid: S, third: source::SourceAnswer|
                {
                    &&& #[trigger] S::answers(second, call, mid, third)
                    &&& if third == nothing {
                        answers_event(0, mid, event_path, mask, post, r)
                    } else {
                        post == mid && r == third
                    }
                };
            assert(S::answers(second, call, third, last));
        }
    }
}

} // verus!

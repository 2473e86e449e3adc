//! What becomes of what is ready, and of single watches.
use vstd::prelude::*;

use crate::error::EngineError;
use crate::services::foreground::source::ForegroundSource;
use crate::services::watch::{AdditionModel, PollStep, RunModel, WatchState, WatchTarget};
use crate::{
    dispatch, error, events, path, services::foreground::manager, services::foreground::source,
    services::identity_cache, services::system, services::watch, state,
};

verus! {

// ---------------------------------------------------------------------------
// Single watches
// ---------------------------------------------------------------------------

/// A watch that was set is known by its descriptor, and its path counts as watched
/// for its target and for no other; all other watches stay.
pub proof fn law_set_watch_is_known(m: WatchState, addition: AdditionModel, wd: i32)
    requires
        !m.watched_for(path::components(addition.path), addition.target),
        addition.text is Some,
    ensures
        ({
            let after = m.added(addition, Ok(wd));
            let p = path::components(addition.path);
            &&& after.watches.contains_key(wd)
            &&& after.watches[wd] == (addition.path, addition.target)
            &&& forall|other: i32|
                other != wd ==> (#[trigger] after.watches.contains_key(other)
                    <==> m.watches.contains_key(other)) && after.watches[other]
                    == m.watches[other]
            &&& addition.target == WatchTarget::Foreground ==> after.foreground_paths
                == m.foreground_paths.insert(p) && after.identity_paths == m.identity_paths
            &&& addition.target == WatchTarget::IdentityCacheHint ==> after.identity_paths
                == m.identity_paths.insert(p) && after.foreground_paths == m.foreground_paths
            &&& after.failures == m.failures
            &&& after.priority_paths == m.priority_paths && after.priority_keys
                == m.priority_keys && after.priority_tokens == m.priority_tokens
            &&& after.socket_tokens == m.socket_tokens
        }),
{
}

/// A watch that could not be set is noted as a failure with its path and nothing
/// else changes; so is one whose path is not UTF-8, whatever was tried. A path that
/// is watched for the target already is left as it is.
pub proof fn law_failed_watch_is_noted(
    m: WatchState,
    addition: AdditionModel,
    result: Result<i32, error::ErrorModel>,
)
    ensures
        m.watched_for(path::components(addition.path), addition.target) ==> m.added(
            addition,
            result,
        ) == m,
        !m.watched_for(path::components(addition.path), addition.target) && (addition.text is None
            || result is Err) ==> {
            let after = m.added(addition, result);
            &&& after == (WatchState { failures: after.failures, ..m })
            &&& after.failures.len() == m.failures.len() + 1
            &&& after.failures.drop_last() == m.failures
            &&& after.failures.last().path == addition.path
            &&& addition.text is None ==> after.failures.last().error
                == (error::ErrorModel::InvalidConfig {
                field: "watch.path"@,
                reason: "must be UTF-8"@,
            })
            &&& addition.text is Some ==> after.failures.last().error == result->Err_0
        },
        m.watched_for(path::components(addition.path), WatchTarget::Foreground)
            <==> m.foreground_paths.contains(path::components(addition.path)),
        m.watched_for(path::components(addition.path), WatchTarget::IdentityCacheHint)
            <==> m.identity_paths.contains(path::components(addition.path)),
{
    if !m.watched_for(path::components(addition.path), addition.target) && (addition.text is None
        || result is Err) {
        assert(m.added(addition, result).failures.drop_last() =~= m.failures);
    }
}

/// A watch that is taken out is forgotten whether that went well or not, and no
/// other is. A failure is noted, unless it is that the watch was gone already.
pub proof fn law_taken_out_watch_is_forgotten(
    m: WatchState,
    p: Seq<u8>,
    wd: i32,
    result: Result<(), error::ErrorModel>,
)
    ensures
        ({
            let after = m.taken_out(p, wd, result);
            &&& after.watches == m.watches.remove(wd)
            &&& after == (WatchState { watches: after.watches, failures: after.failures, ..m })
            &&& match result {
                Ok(_) => after.failures == m.failures,
                Err(e) => if e matches error::ErrorModel::Core { code, .. } && code == 22 {
                    after.failures == m.failures
                } else {
                    after.failures == m.failures.push(watch::FailureModel { path: p, error: e })
                },
            }
        }),
{
}

/// Priority paths that are dropped leave no path, key or token behind; of all
/// others each stays as it was.
pub proof fn law_dropped_priorities_leave_nothing(
    m: WatchState,
    paths: Set<Seq<Seq<u8>>>,
    p: Seq<Seq<u8>>,
    token: u64,
)
    ensures
        ({
            let after = m.without_priorities(paths);
            &&& paths.contains(p) ==> !after.priority_paths.contains(p)
                && !after.priority_keys.contains_key(p)
            &&& !paths.contains(p) ==> (after.priority_paths.contains(p)
                == m.priority_paths.contains(p)) && (after.priority_keys.contains_key(p)
                == m.priority_keys.contains_key(p)) && (m.priority_keys.contains_key(p)
                ==> after.priority_keys[p] == m.priority_keys[p])
            &&& after.priority_tokens.contains_key(token) <==> m.priority_tokens.contains_key(
                token,
            ) && !paths.contains(path::components(m.priority_tokens[token]))
            &&& after.priority_tokens.contains_key(token) ==> after.priority_tokens[token]
                == m.priority_tokens[token]
            &&& after.watches == m.watches && after.foreground_paths == m.foreground_paths
                && after.identity_paths == m.identity_paths && after.socket_tokens
                == m.socket_tokens && after.failures == m.failures
        }),
{
}

/// A registration is out of date exactly if the source has no key for its path any
/// more, or another.
pub proof fn law_outdated_registrations(
    m: WatchState,
    keys: Map<Seq<Seq<u8>>, u64>,
    p: Seq<Seq<u8>>,
)
    requires
        m.priority_keys.contains_key(p),
    ensures
        m.outdated(keys).contains(p) <==> !keys.contains_key(p) || keys[p] != m.priority_keys[p],
        m.vanished(keys).contains(p) <==> !keys.contains_key(p),
{
}

/// A registered priority path is found by its token, with the key that the source
/// has for it, if it has one.
pub proof fn law_registered_priority_is_known(
    m: WatchState,
    token: u64,
    p: Seq<u8>,
    keys: Map<Seq<Seq<u8>>, u64>,
    other: u64,
)
    requires
        other != token,
    ensures
        ({
            let after = m.registered(token, p, keys);
            let c = path::components(p);
            &&& after.priority_tokens.contains_key(token) && after.priority_tokens[token] == p
            &&& after.priority_paths == m.priority_paths.insert(c)
            &&& keys.contains_key(c) ==> after.priority_keys == m.priority_keys.insert(c, keys[c])
            &&& !keys.contains_key(c) ==> after.priority_keys == m.priority_keys
            &&& after.priority_tokens.contains_key(other) == m.priority_tokens.contains_key(other)
            &&& after.priority_tokens[other] == m.priority_tokens[other]
            &&& after.watches == m.watches && after.socket_tokens == m.socket_tokens
        }),
{
}

/// The keys of priority paths: each path that is listed has the key of its last
/// entry, and no other path has one.
pub proof fn law_last_key_counts(
    keyed: Seq<(Seq<u8>, u64)>,
    p: Seq<u8>,
    key: u64,
    other: Seq<Seq<u8>>,
)
    requires
        other != path::components(p),
    ensures
        watch::keys_of(keyed.push((p, key))).contains_key(path::components(p)),
        watch::keys_of(keyed.push((p, key)))[path::components(p)] == key,
        watch::keys_of(keyed.push((p, key))).contains_key(other) == watch::keys_of(
            keyed,
        ).contains_key(other),
        watch::keys_of(keyed.push((p, key)))[other] == watch::keys_of(keyed)[other],
        !watch::keys_of(Seq::empty()).contains_key(other),
{
    assert(keyed.push((p, key)).drop_last() =~= keyed);
}

/// A watch for the foreground is set for the events that the source wants there; one
/// for the identity cache for changes in the directory. Its path is handed over as
/// the text that it encodes, if it does.
pub proof fn law_watch_to_set<S: ForegroundSource>(asked: S, p: Seq<u8>, name: Seq<char>)
    ensures
        watch::addition_for(asked, p, WatchTarget::Foreground).mask == asked.hint_mask(p),
        watch::addition_for(asked, p, WatchTarget::IdentityCacheHint).mask == 0xd8a,
        forall|target: WatchTarget|
            (#[trigger] watch::addition_for(asked, p, target)).path == p && watch::addition_for(
                asked,
                p,
                target,
            ).target == target,
        p == vstd::utf8::encode_utf8(name) ==> watch::addition_for(
            asked,
            p,
            WatchTarget::Foreground,
        ).text == Some(name),
        !vstd::utf8::valid_utf8(p) ==> watch::addition_for(
            asked,
            p,
            WatchTarget::Foreground,
        ).text is None,
{
    broadcast use vstd::utf8::encode_utf8_decode_utf8;
    broadcast use vstd::utf8::encode_utf8_valid_utf8;

}

/// A report with a name is about what stands under that name in the watched
/// directory; one without a name, with an empty one or with one that is not UTF-8 is
/// about the watched path itself.
pub proof fn law_report_names_path(p: Seq<u8>, name: Seq<char>, bytes: Seq<u8>)
    requires
        vstd::utf8::encode_utf8(name).len() > 0,
        vstd::utf8::encode_utf8(name) != path::here(),
        !vstd::utf8::encode_utf8(name).contains(path::slash()),
    ensures
        path::components(watch::named_path(p, Some(vstd::utf8::encode_utf8(name))))
            == path::components(p).push(vstd::utf8::encode_utf8(name)),
        watch::named_path(p, None) == p,
        watch::named_path(p, Some(Seq::empty())) == p,
        !vstd::utf8::valid_utf8(bytes) ==> watch::named_path(p, Some(bytes)) == p,
{
    broadcast use vstd::utf8::encode_utf8_valid_utf8;

    path::law_joined_name_is_last(p, vstd::utf8::encode_utf8(name));
}

// ---------------------------------------------------------------------------
// Consequences
// ---------------------------------------------------------------------------

proof fn lemma_unfolded_one(services: system::ServicesModel, event: events::EventModel)
    ensures
        watch::unfolded(services, seq![event]) == watch::with_consequences(services, event),
{
    let one = seq![event];
    assert(one.drop_last() =~= Seq::<events::EventModel>::empty());
    assert(watch::unfolded(services, one.drop_last()) =~= Seq::<events::EventModel>::empty());
    assert(Seq::<events::EventModel>::empty() + watch::with_consequences(services, event)
        =~= watch::with_consequences(services, event));
}

/// Events are noted in order, each followed by what happens because of it before the
/// next. An event that is no new candidate has no consequences.
pub proof fn law_consequences_follow_each_event(
    services: system::ServicesModel,
    first: Seq<events::EventModel>,
    second: Seq<events::EventModel>,
    event: events::EventModel,
)
    requires
        !(event is ForegroundCandidateChanged),
    ensures
        watch::unfolded(services, first + second) == watch::unfolded(services, first)
            + watch::unfolded(services, second),
        watch::unfolded(services, seq![event]) == seq![event],
        watch::unfolded(services, Seq::empty()).len() == 0,
    decreases second.len(),
{
    if second.len() == 0 {
        assert(first + second =~= first);
        assert(watch::unfolded(services, first) + watch::unfolded(services, second)
            =~= watch::unfolded(services, first));
    } else {
        law_consequences_follow_each_event(services, first, second.drop_last(), event);
        assert((first + second).drop_last() =~= first + second.drop_last());
        assert((first + second).last() == second.last());
        assert(watch::unfolded(services, first + second) =~= watch::unfolded(services, first)
            + watch::unfolded(services, second));
    }
    lemma_unfolded_one(services, event);
    assert(dispatch::dispatched(event).len() == 0);
    assert(watch::happenings(services, dispatch::dispatched(event)) =~= Seq::<
        events::EventModel,
    >::empty());
    assert(watch::with_consequences(services, event) =~= seq![event]);
}

/// Asking for an identity gives that identity, if there is someone to name; asking
/// for a shutdown stops the runtime.
pub proof fn law_actions_have_effects(
    services: system::ServicesModel,
    pid: Option<i32>,
    uid: Option<u32>,
)
    ensures
        pid is Some || uid is Some ==> (system::performed(
            services,
            dispatch::ActionModel::ResolveIdentity { pid, uid },
        ).len() == 1 && (system::performed(
            services,
            dispatch::ActionModel::ResolveIdentity { pid, uid },
        )[0] matches events::EventModel::IdentityResolved(identity) && identity.pid == pid
            && identity.uid == uid && Some(identity) == crate::services::identity::identity_of(
            services.cache,
            pid,
            uid,
        ))),
        pid is None && uid is None ==> system::performed(
            services,
            dispatch::ActionModel::ResolveIdentity { pid, uid },
        ).len() == 0,
        system::performed(services, dispatch::ActionModel::Shutdown) == seq![
            events::EventModel::RuntimeStopped,
        ],
{
}

// ---------------------------------------------------------------------------
// Steps of a poll
// ---------------------------------------------------------------------------

/// One step of a poll: what there was before it and what there is after it.
pub struct Step<S> {
    pub watches: WatchState,
    pub services: system::ServicesModel,
    pub source: S,
    pub last: Option<source::CandidateModel>,
    pub invalidator: identity_cache::InvalidatorModel,
    pub state: state::StateModel,
    pub run: RunModel,
    pub source_after: S,
    pub last_after: Option<source::CandidateModel>,
    pub invalidator_after: identity_cache::InvalidatorModel,
    pub state_after: state::StateModel,
    pub run_after: RunModel,
    pub result: Result<PollStep, EngineError>,
}

impl<S: ForegroundSource> Step<S> {
    /// Whether a poll may take this step.
    pub open spec fn taken(self) -> bool {
        watch::polls(
            self.watches,
            self.services,
            self.source,
            self.last,
            self.invalidator,
            self.state,
            self.run,
            self.source_after,
            self.last_after,
            self.invalidator_after,
            self.state_after,
            self.run_after,
            self.result,
        )
    }

    /// The path that the next report is about: none after an overflow.
    pub open spec fn report_path(self) -> Seq<u8> {
        let (wd, mask, name) = self.run.reports[0];
        if mask & 0x4000u32 != 0 {
            Seq::empty()
        } else {
            watch::named_path(self.watches.watches[wd].0, name)
        }
    }

    /// What the source is told of the next priority descriptor that is ready.
    pub open spec fn ready_call(self) -> source::SourceCall {
        let p = self.watches.priority_tokens[self.run.ready[0].token];
        if self.run.ready[0].error {
            source::SourceCall::StalePriority(p)
        } else {
            source::SourceCall::Priority(p)
        }
    }

    /// Whether nothing but the run changed.
    pub open spec fn quiet(self) -> bool {
        &&& self.source_after == self.source
        &&& self.last_after == self.last
        &&& self.invalidator_after == self.invalidator
        &&& self.state_after == self.state
        &&& self.run_after.emitted == self.run.emitted
    }

    /// Whether an answer of the source was noted. An error ends the poll and changes
    /// nothing. A candidate that is news is noted with the identity behind it and is
    /// the last one from then on; it is counted if it takes the place of another.
    /// Otherwise nothing is noted. Without an error the watches are to be made to
    /// match.
    pub open spec fn noted(self, answer: source::SourceAnswer, watch_paths: bool) -> bool {
        match answer {
            Err(e) => {
                &&& self.result == Err::<PollStep, EngineError>(e)
                &&& self.last_after == self.last
                &&& self.invalidator_after == self.invalidator
                &&& self.state_after == self.state
                &&& self.run_after.emitted == self.run.emitted
            },
            Ok(found) => match found {
                Some(candidate) if self.last != Some(candidate@) => {
                    let event = events::EventModel::ForegroundCandidateChanged(candidate@);
                    let happened = match crate::services::identity::identity_of(
                        self.services.cache,
                        candidate@.pid,
                        candidate@.uid,
                    ) {
                        Some(identity) => seq![
                            event,
                            events::EventModel::IdentityResolved(identity),
                        ],
                        None => seq![event],
                    };
                    &&& self.last_after == Some(candidate@)
                    &&& self.run_after.emitted == self.run.emitted + happened
                    &&& self.state_after == self.state.after_all(happened)
                    &&& self.invalidator_after == if self.last is Some {
                        self.invalidator.counted()
                    } else {
                        self.invalidator
                    }
                    &&& self.result == Ok::<PollStep, EngineError>(
                        PollStep::Sync {
                            watch_paths,
                            check_packages_xml: self.last is Some && self.invalidator.look_due(),
                        },
                    )
                },
                _ => {
                    &&& self.last_after == self.last
                    &&& self.run_after.emitted == self.run.emitted
                    &&& self.state_after == self.state
                    &&& self.invalidator_after == self.invalidator
                    &&& self.result == Ok::<PollStep, EngineError>(
                        PollStep::Sync { watch_paths, check_packages_xml: false },
                    )
                },
            },
        }
    }
}

proof fn lemma_noted<S: ForegroundSource>(
    step: Step<S>,
    run: RunModel,
    answer: source::SourceAnswer,
    watch_paths: bool,
)
    requires
        run.emitted == step.run.emitted,
        watch::heard(
            step.services,
            step.last,
            step.invalidator,
            step.state,
            run,
            answer,
            watch_paths,
            step.last_after,
            step.invalidator_after,
            step.state_after,
            step.run_after,
            step.result,
        ),
    ensures
        step.noted(answer, watch_paths),
        step.run_after.reports == run.reports,
        step.run_after.ready == run.ready,
        step.run_after.sockets == run.sockets,
        step.run_after.refreshed == run.refreshed,
{
    if let Ok(found) = answer {
        if let Some(candidate) = found {
            if step.last != Some(candidate@) {
                watch::law_candidate_is_identified(step.services, candidate@);
            }
        }
        assert(run.emitted + Seq::<events::EventModel>::empty() =~= run.emitted);
        assert(step.state.after_all(Seq::<events::EventModel>::empty()) == step.state);
    }
}

/// A report of an overflow goes to the source, without a path; one of a watch for the
/// foreground goes to it with the path that the report is about. The source is asked
/// up to three times, and its answer is noted. The report is used up.
pub proof fn law_report_goes_to_source<S: ForegroundSource>(step: Step<S>)
    requires
        step.taken(),
        step.run.reports.len() > 0,
        step.run.reports[0].1 & 0x4000u32 != 0 || (step.watches.watches.contains_key(
            step.run.reports[0].0,
        ) && step.watches.watches[step.run.reports[0].0].1 == WatchTarget::Foreground),
    ensures
        exists|answer: source::SourceAnswer| #[trigger]
            manager::answers_event(
                3,
                step.source,
                step.report_path(),
                step.run.reports[0].1,
                step.source_after,
                answer,
            ) && step.noted(answer, true),
        step.run_after.reports == step.run.reports.skip(1),
        step.run_after.ready == step.run.ready,
        step.run_after.sockets == step.run.sockets,
{
    let mask = step.run.reports[0].1;
    let p = step.report_path();
    let rest = RunModel { reports: step.run.reports.skip(1), ..step.run };
    let answer = choose|answer: source::SourceAnswer|
        {
            &&& #[trigger] manager::answers_event(
                manager::EVENT_RETRY_ATTEMPTS as nat,
                step.source,
                p,
                mask,
                step.source_after,
                answer,
            )
            &&& watch::heard(
                step.services,
                step.last,
                step.invalidator,
                step.state,
                rest,
                answer,
                true,
                step.last_after,
                step.invalidator_after,
                step.state_after,
                step.run_after,
                step.result,
            )
        };
    lemma_noted(step, rest, answer, true);
    assert(manager::answers_event(3, step.source, p, mask, step.source_after, answer));
}

/// A report of a watch for the identity cache asks for a refresh if the cache is out
/// of date and was not refreshed in this poll; otherwise, and from a watch that is
/// not known, it asks for nothing. The report is used up and nothing else changes.
pub proof fn law_other_reports<S: ForegroundSource>(step: Step<S>)
    requires
        step.taken(),
        step.run.reports.len() > 0,
        step.run.reports[0].1 & 0x4000u32 == 0,
        step.watches.watches.contains_key(step.run.reports[0].0) ==> step.watches.watches[
            step.run.reports[0].0].1 == WatchTarget::IdentityCacheHint,
    ensures
        step.quiet(),
        step.run_after.reports == step.run.reports.skip(1),
        step.run_after.ready == step.run.ready,
        step.run_after.sockets == step.run.sockets,
        step.watches.watches.contains_key(step.run.reports[0].0) && step.invalidator.dirty
            && !step.run.refreshed ==> step.run_after.refreshed && step.result == Ok::<
            PollStep,
            EngineError,
        >(PollStep::Refresh),
        !(step.watches.watches.contains_key(step.run.reports[0].0) && step.invalidator.dirty
            && !step.run.refreshed) ==> step.run_after.refreshed == step.run.refreshed
            && step.result == Ok::<PollStep, EngineError>(PollStep::Continue),
{
}

/// A socket that is ready is handed out, behind those before it.
pub proof fn law_ready_socket_is_handed_out<S: ForegroundSource>(step: Step<S>)
    requires
        step.taken(),
        step.run.reports.len() == 0,
        step.run.ready.len() > 0,
        step.watches.socket_tokens.contains(step.run.ready[0].token),
    ensures
        step.quiet(),
        step.run_after.sockets == step.run.sockets.push(step.run.ready[0].token),
        step.run_after.ready == step.run.ready.skip(1),
        step.result == Ok::<PollStep, EngineError>(PollStep::Continue),
{
}

/// A priority descriptor that failed is told to the source as failed; one that is
/// signalled is told as signalled. The answer is noted.
pub proof fn law_ready_priority_goes_to_source<S: ForegroundSource>(step: Step<S>)
    requires
        step.taken(),
        step.run.reports.len() == 0,
        step.run.ready.len() > 0,
        !step.watches.socket_tokens.contains(step.run.ready[0].token),
        step.watches.priority_tokens.contains_key(step.run.ready[0].token),
        step.run.ready[0].error || step.run.ready[0].priority,
    ensures
        exists|answer: source::SourceAnswer| #[trigger]
            S::answers(step.source, step.ready_call(), step.source_after, answer) && step.noted(
                answer,
                false,
            ),
        step.run_after.ready == step.run.ready.skip(1),
        step.run_after.sockets == step.run.sockets,
{
    let call = step.ready_call();
    let rest = RunModel { ready: step.run.ready.skip(1), ..step.run };
    let answer = choose|answer: source::SourceAnswer|
        {
            &&& #[trigger] S::answers(step.source, call, step.source_after, answer)
            &&& watch::heard(
                step.services,
                step.last,
                step.invalidator,
                step.state,
                rest,
                answer,
                false,
                step.last_after,
                step.invalidator_after,
                step.state_after,
                step.run_after,
                step.result,
            )
        };
    lemma_noted(step, rest, answer, false);
}

/// File watches that are readable ask for their reports to be read. What is ready
/// for any other reason asks for nothing. Where nothing is left the poll is over.
pub proof fn law_rest_of_poll<S: ForegroundSource>(step: Step<S>)
    requires
        step.taken(),
        step.run.reports.len() == 0,
        step.run.ready.len() > 0 ==> {
            let event = step.run.ready[0];
            &&& !step.watches.socket_tokens.contains(event.token)
            &&& step.watches.priority_tokens.contains_key(event.token) ==> !event.error
                && !event.priority
        },
    ensures
        step.quiet(),
        step.run_after.sockets == step.run.sockets,
        step.run.ready.len() == 0 ==> step.result == Ok::<PollStep, EngineError>(PollStep::Done)
            && step.run_after == step.run,
        step.run.ready.len() > 0 ==> {
            let event = step.run.ready[0];
            &&& step.run_after.ready == step.run.ready.skip(1)
            &&& step.result == Ok::<PollStep, EngineError>(
                if event.token == step.watches.inotify_token && event.readable
                    && !step.watches.priority_tokens.contains_key(event.token) {
                    PollStep::ReadReports
                } else {
                    PollStep::Continue
                },
            )
        },
{
}

// ---------------------------------------------------------------------------
// Plans
// ---------------------------------------------------------------------------

/// A plan sets a watch for every path that the source wants and that is not watched,
/// and for no other.
pub proof fn law_plan_sets_what_is_wanted<S: ForegroundSource>(
    m: WatchState,
    asked: S,
    removals: Seq<watch::RemovalModel>,
    additions: Seq<AdditionModel>,
    p: Seq<Seq<u8>>,
)
    requires
        watch::plans_sync(m, asked, removals, additions),
    ensures
        (exists|k: int| 0 <= k < additions.len() && path::components(#[trigger] additions[k].path) == p)
            <==> !m.foreground_paths.contains(p) && exists|i: int|
            0 <= i < asked.hints().len() && path::components(#[trigger] asked.hints()[i]) == p,
        forall|k: int|
            0 <= k < additions.len() ==> (#[trigger] additions[k]).target
                == WatchTarget::Foreground && additions[k].mask == asked.hint_mask(
                additions[k].path,
            ),
{
    let names = watch::addition_names(additions);
    let set = watch::wanted(asked.hints()).difference(m.foreground_paths);
    assert(set.contains(p) <==> names.contains(p));
    if exists|k: int| 0 <= k < additions.len() && path::components(#[trigger] additions[k].path) == p {
        let k = choose|k: int|
            0 <= k < additions.len() && path::components(#[trigger] additions[k].path) == p;
        assert(names[k] == p);
    }
    if names.contains(p) {
        let k = choose|k: int| 0 <= k < names.len() && names[k] == p;
        assert(path::components(additions[k].path) == p);
    }
    assert forall|k: int| 0 <= k < additions.len() implies (#[trigger] additions[k]).target
        == WatchTarget::Foreground && additions[k].mask == asked.hint_mask(additions[k].path) by {
        assert(watch::is_hint_addition(asked, additions[k]));
    }
}

/// A plan drops every path that is watched for the foreground and that the source
/// does not want, and no other, with exactly the watches for the foreground that are
/// of that path.
pub proof fn law_plan_drops_what_is_not_wanted<S: ForegroundSource>(
    m: WatchState,
    asked: S,
    removals: Seq<watch::RemovalModel>,
    additions: Seq<AdditionModel>,
    p: Seq<Seq<u8>>,
    k: int,
    wd: i32,
)
    requires
        watch::plans_sync(m, asked, removals, additions),
        0 <= k < removals.len(),
    ensures
        (exists|j: int| 0 <= j < removals.len() && path::components(#[trigger] removals[j].path) == p)
            <==> m.foreground_paths.contains(p) && !(exists|i: int|
            0 <= i < asked.hints().len() && path::components(#[trigger] asked.hints()[i]) == p),
        removals[k].wds.contains(wd) <==> m.watches.contains_key(wd) && m.watches[wd].1
            == WatchTarget::Foreground && path::components(m.watches[wd].0) == path::components(
            removals[k].path,
        ),
{
    let names = watch::removal_names(removals);
    let set = m.foreground_paths.difference(watch::wanted(asked.hints()));
    assert(set.contains(p) <==> names.contains(p));
    if exists|j: int| 0 <= j < removals.len() && path::components(#[trigger] removals[j].path) == p {
        let j = choose|j: int|
            0 <= j < removals.len() && path::components(#[trigger] removals[j].path) == p;
        assert(names[j] == p);
    }
    if names.contains(p) {
        let j = choose|j: int| 0 <= j < names.len() && names[j] == p;
        assert(path::components(removals[j].path) == p);
    }
    let own = watch::wds_of(m, path::components(removals[k].path));
    assert(own.contains(wd) <==> removals[k].wds.contains(wd));
}

/// Several watches are set, taken out and dropped, and several priority paths
/// registered, one after the other in the given order, each with its own result.
pub proof fn law_lists_are_worked_off_in_order(
    m: WatchState,
    additions: Seq<AdditionModel>,
    addition: AdditionModel,
    added: Seq<Result<i32, error::ErrorModel>>,
    p: Seq<u8>,
    wds: Seq<i32>,
    wd: i32,
    taken: Seq<Result<(), error::ErrorModel>>,
    removals: Seq<watch::RemovalModel>,
    removal: watch::RemovalModel,
    dropped: Seq<Seq<Result<(), error::ErrorModel>>>,
)
    ensures
        m.added_all(additions.push(addition), added) == m.added_all(additions, added).added(
            addition,
            added[additions.len() as int],
        ),
        m.taken_out_all(p, wds.push(wd), taken) == m.taken_out_all(p, wds, taken).taken_out(
            p,
            wd,
            taken[wds.len() as int],
        ),
        m.dropped_all(removals.push(removal), dropped) == m.dropped_all(removals, dropped).dropped(
            removal,
            dropped[removals.len() as int],
        ),
        m.added_all(Seq::empty(), added) == m,
        m.taken_out_all(p, Seq::empty(), taken) == m,
        m.dropped_all(Seq::empty(), dropped) == m,
{
    assert(additions.push(addition).drop_last() =~= additions);
    assert(wds.push(wd).drop_last() =~= wds);
    assert(removals.push(removal).drop_last() =~= removals);
}

/// A path that is dropped is not watched for the foreground any more, and all of its
/// watches that are named are gone.
pub proof fn law_dropped_path_is_not_watched(
    m: WatchState,
    removal: watch::RemovalModel,
    results: Seq<Result<(), error::ErrorModel>>,
    other: Seq<Seq<u8>>,
)
    requires
        other != path::components(removal.path),
    ensures
        ({
            let after = m.dropped(removal, results);
            let out = m.taken_out_all(removal.path, removal.wds, results);
            &&& !after.foreground_paths.contains(path::components(removal.path))
            &&& after.foreground_paths.contains(other) == out.foreground_paths.contains(other)
            &&& after.watches == out.watches && after.failures == out.failures
                && after.identity_paths == out.identity_paths
        }),
{
}

/// Actions are performed in order, and what happens on each comes behind what
/// happened before.
pub proof fn law_actions_happen_in_order(
    services: system::ServicesModel,
    actions: Seq<dispatch::ActionModel>,
    action: dispatch::ActionModel,
)
    ensures
        watch::happenings(services, actions.push(action)) == watch::happenings(services, actions)
            + system::performed(services, action),
        watch::happenings(services, Seq::empty()).len() == 0,
{
    assert(actions.push(action).drop_last() =~= actions);
}

/// The models of results keep values and errors as they are, in order.
pub proof fn law_models_keep_results(
    units: Seq<Result<(), EngineError>>,
    descriptors: Seq<Result<i32, EngineError>>,
    i: int,
)
    ensures
        watch::unit_results(units).len() == units.len(),
        watch::wd_results(descriptors).len() == descriptors.len(),
        0 <= i < units.len() ==> match units[i] {
            Ok(_) => watch::unit_results(units)[i] is Ok,
            Err(e) => watch::unit_results(units)[i] == Err::<(), error::ErrorModel>(e@),
        },
        0 <= i < descriptors.len() ==> match descriptors[i] {
            Ok(wd) => watch::wd_results(descriptors)[i] == Ok::<i32, error::ErrorModel>(wd),
            Err(e) => watch::wd_results(descriptors)[i] == Err::<i32, error::ErrorModel>(e@),
        },
{
}

} // verus!

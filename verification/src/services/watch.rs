//! From file and descriptor readiness to engine events.
//!
//! The reactor and the file watches themselves are the caller's: this module
//! says what is to be watched, and makes of what the caller found ready the
//! events of the engine.
use vstd::prelude::*;

use crate::dispatch::Dispatcher;
use crate::error::EngineError;
use crate::events::EngineEvent;
use crate::ordered::{Key, OrdMap, OrdSet, Record};
use crate::path::{EnginePath, PathSet};
use crate::services::foreground::manager::{ForegroundPipeline, PipelineOutcome};
use crate::services::foreground::source::{ForegroundCandidate, ForegroundSource};
use crate::services::identity_cache::IdentityCacheInvalidator;
use crate::services::system::{ServiceStep, SystemServices};
use crate::state::{EngineState, Reducer};
use crate::{
    dispatch, error, events, ordered, path, services::foreground::manager,
    services::foreground::source, services::identity_cache, services::system, state,
};

verus! {

/// The event queue overflowed.
pub const IN_Q_OVERFLOW_MASK: u32 = 0x0000_4000;

/// The raw OS error code of a watch that is gone already.
pub const EINVAL: i32 = 22;

/// `coreshift_core::inotify::PARENT_WATCH_MASK`: creation in a directory, moves
/// into it, closing after a write, modification, and deletion and moves of the
/// directory itself.
#[verifier::external_body]
fn parent_watch_mask() -> (r: u32)
    ensures
        r == 0xd8a,
{
    coreshift_core::inotify::PARENT_WATCH_MASK
}

/// What a watch is for.
#[derive(Clone, Copy, Debug, PartialEq, Eq, Structural)]
pub enum WatchTarget {
    Foreground,
    IdentityCacheHint,
}

/// A watch.
#[derive(Debug, PartialEq, Eq)]
pub struct WatchEntry {
    pub path: EnginePath,
    pub target: WatchTarget,
}

impl Record for WatchEntry {
    type Model = (Seq<u8>, WatchTarget);

    open spec fn model(&self) -> (Seq<u8>, WatchTarget) {
        (self.path@, self.target)
    }

    fn duplicate(&self) -> (r: Self) {
        WatchEntry { path: self.path.clone(), target: self.target }
    }
}

/// A watch that could not be set or taken out.
#[derive(Debug, PartialEq, Eq)]
pub struct WatchRegistrationFailure {
    pub path: EnginePath,
    pub error: EngineError,
}

/// The model of a failure.
pub struct FailureModel {
    pub path: Seq<u8>,
    pub error: error::ErrorModel,
}

impl View for WatchRegistrationFailure {
    type V = FailureModel;

    open spec fn view(&self) -> FailureModel {
        FailureModel { path: self.path@, error: self.error@ }
    }
}

/// The models of failures.
pub open spec fn failure_models(s: Seq<WatchRegistrationFailure>) -> Seq<FailureModel> {
    Seq::new(s.len(), |i: int| s[i]@)
}

/// A watch to be set.
#[derive(Debug, PartialEq, Eq)]
pub struct WatchAddition {
    pub path: EnginePath,
    pub target: WatchTarget,
    /// The path as text, if it is UTF-8; only then can it be watched.
    pub text: Option<String>,
    pub mask: u32,
}

/// The model of a watch to be set.
pub struct AdditionModel {
    pub path: Seq<u8>,
    pub target: WatchTarget,
    pub text: Option<Seq<char>>,
    pub mask: u32,
}

impl View for WatchAddition {
    type V = AdditionModel;

    open spec fn view(&self) -> AdditionModel {
        AdditionModel {
            path: self.path@,
            target: self.target,
            text: source::text_model(self.text),
            mask: self.mask,
        }
    }
}

/// The models of watches to be set.
pub open spec fn addition_models(s: Seq<WatchAddition>) -> Seq<AdditionModel> {
    Seq::new(s.len(), |i: int| s[i]@)
}

/// The watches of a path that is no longer wanted.
#[derive(Debug, PartialEq, Eq)]
pub struct WatchRemoval {
    pub path: EnginePath,
    pub wds: Vec<i32>,
}

/// The model of the watches of a path that is no longer wanted.
pub struct RemovalModel {
    pub path: Seq<u8>,
    pub wds: Seq<i32>,
}

impl View for WatchRemoval {
    type V = RemovalModel;

    open spec fn view(&self) -> RemovalModel {
        RemovalModel { path: self.path@, wds: self.wds@ }
    }
}

/// The models of watches that are no longer wanted.
pub open spec fn removal_models(s: Seq<WatchRemoval>) -> Seq<RemovalModel> {
    Seq::new(s.len(), |i: int| s[i]@)
}

/// What makes the watches match what the source wants.
#[derive(Debug, PartialEq, Eq)]
pub struct WatchSyncPlan {
    /// Taken out first, in order.
    pub removals: Vec<WatchRemoval>,
    /// Set then, in order.
    pub additions: Vec<WatchAddition>,
}

/// What the engine watches.
pub struct WatchState {
    /// The watches by descriptor.
    pub watches: Map<i32, (Seq<u8>, WatchTarget)>,
    /// The priority paths by token.
    pub priority_tokens: Map<u64, Seq<u8>>,
    /// The keys of the registered priority paths.
    pub priority_keys: Map<Seq<Seq<u8>>, u64>,
    pub socket_tokens: Set<u64>,
    pub foreground_paths: Set<Seq<Seq<u8>>>,
    pub priority_paths: Set<Seq<Seq<u8>>>,
    pub identity_paths: Set<Seq<Seq<u8>>>,
    pub failures: Seq<FailureModel>,
    /// The token of the file watches.
    pub inotify_token: u64,
}

impl WatchState {
    /// Nothing is watched.
    pub open spec fn blank(inotify_token: u64) -> WatchState {
        WatchState {
            watches: Map::empty(),
            priority_tokens: Map::empty(),
            priority_keys: Map::empty(),
            socket_tokens: Set::empty(),
            foreground_paths: Set::empty(),
            priority_paths: Set::empty(),
            identity_paths: Set::empty(),
            failures: Seq::empty(),
            inotify_token,
        }
    }

    /// Whether a path is watched for a target.
    pub open spec fn watched_for(self, p: Seq<Seq<u8>>, target: WatchTarget) -> bool {
        match target {
            WatchTarget::Foreground => self.foreground_paths.contains(p),
            WatchTarget::IdentityCacheHint => self.identity_paths.contains(p),
        }
    }

    /// Whether each watch is of a path that counts as watched for its target.
    pub open spec fn watches_belong(self) -> bool {
        forall|wd: i32| #[trigger]
            self.watches.contains_key(wd) ==> self.watched_for(
                path::components(self.watches[wd].0),
                self.watches[wd].1,
            )
    }

    /// The state with a failure noted.
    pub open spec fn failed(self, p: Seq<u8>, e: error::ErrorModel) -> WatchState {
        WatchState { failures: self.failures.push(FailureModel { path: p, error: e }), ..self }
    }

    /// The state after trying to set a watch: a path that is watched already
    /// stays as it is, one that is not UTF-8 cannot be watched.
    pub open spec fn added(
        self,
        addition: AdditionModel,
        result: Result<i32, error::ErrorModel>,
    ) -> WatchState {
        let p = path::components(addition.path);
        if self.watched_for(p, addition.target) {
            self
        } else if addition.text is None {
            self.failed(
                addition.path,
                error::ErrorModel::InvalidConfig {
                    field: "watch.path"@,
                    reason: "must be UTF-8"@,
                },
            )
        } else {
            match result {
                Err(e) => self.failed(addition.path, e),
                Ok(wd) => WatchState {
                    watches: self.watches.insert(wd, (addition.path, addition.target)),
                    foreground_paths: if addition.target == WatchTarget::Foreground {
                        self.foreground_paths.insert(p)
                    } else {
                        self.foreground_paths
                    },
                    identity_paths: if addition.target == WatchTarget::IdentityCacheHint {
                        self.identity_paths.insert(p)
                    } else {
                        self.identity_paths
                    },
                    ..self
                },
            }
        }
    }

    /// The state after trying to set watches in order.
    pub open spec fn added_all(
        self,
        additions: Seq<AdditionModel>,
        results: Seq<Result<i32, error::ErrorModel>>,
    ) -> WatchState
        decreases additions.len(),
    {
        if additions.len() == 0 {
            self
        } else {
            self.added_all(additions.drop_last(), results).added(
                additions.last(),
                results[additions.len() - 1],
            )
        }
    }

    /// The state after taking out one watch of a path: a watch that was gone
    /// already is no failure.
    pub open spec fn taken_out(
        self,
        p: Seq<u8>,
        wd: i32,
        result: Result<(), error::ErrorModel>,
    ) -> WatchState {
        let noted = match result {
            Err(e) => if e is Core && e->code == EINVAL {
                self
            } else {
                self.failed(p, e)
            },
            Ok(_) => self,
        };
        WatchState { watches: noted.watches.remove(wd), ..noted }
    }

    /// The state after taking out the first watches of a path.
    pub open spec fn taken_out_all(
        self,
        p: Seq<u8>,
        wds: Seq<i32>,
        results: Seq<Result<(), error::ErrorModel>>,
    ) -> WatchState
        decreases wds.len(),
    {
        if wds.len() == 0 {
            self
        } else {
            self.taken_out_all(p, wds.drop_last(), results).taken_out(
                p,
                wds.last(),
                results[wds.len() - 1],
            )
        }
    }

    /// The state after a foreground path is dropped.
    pub open spec fn dropped(
        self,
        removal: RemovalModel,
        results: Seq<Result<(), error::ErrorModel>>,
    ) -> WatchState {
        let out = self.taken_out_all(removal.path, removal.wds, results);
        WatchState {
            foreground_paths: out.foreground_paths.remove(path::components(removal.path)),
            ..out
        }
    }

    /// The state after foreground paths are dropped in order.
    pub open spec fn dropped_all(
        self,
        removals: Seq<RemovalModel>,
        results: Seq<Seq<Result<(), error::ErrorModel>>>,
    ) -> WatchState
        decreases removals.len(),
    {
        if removals.len() == 0 {
            self
        } else {
            self.dropped_all(removals.drop_last(), results).dropped(
                removals.last(),
                results[removals.len() - 1],
            )
        }
    }

    /// The state without some priority paths.
    pub open spec fn without_priorities(self, paths: Set<Seq<Seq<u8>>>) -> WatchState {
        WatchState {
            priority_paths: self.priority_paths.difference(paths),
            priority_keys: self.priority_keys.remove_keys(paths),
            priority_tokens: Map::new(
                |t: u64|
                    self.priority_tokens.contains_key(t) && !paths.contains(
                        path::components(self.priority_tokens[t]),
                    ),
                |t: u64| self.priority_tokens[t],
            ),
            ..self
        }
    }

    /// The priority paths whose registrations are out of date.
    pub open spec fn outdated(self, keys: Map<Seq<Seq<u8>>, u64>) -> Set<Seq<Seq<u8>>> {
        Set::new(
            |p: Seq<Seq<u8>>|
                self.priority_keys.contains_key(p) && !(keys.contains_key(p) && keys[p]
                    == self.priority_keys[p]),
        )
    }

    /// The priority paths that the source no longer has.
    pub open spec fn vanished(self, keys: Map<Seq<Seq<u8>>, u64>) -> Set<Seq<Seq<u8>>> {
        self.priority_keys.dom().difference(keys.dom())
    }

    /// The state with a priority path registered.
    pub open spec fn registered(
        self,
        token: u64,
        p: Seq<u8>,
        keys: Map<Seq<Seq<u8>>, u64>,
    ) -> WatchState {
        let c = path::components(p);
        WatchState {
            priority_paths: self.priority_paths.insert(c),
            priority_keys: if keys.contains_key(c) {
                self.priority_keys.insert(c, keys[c])
            } else {
                self.priority_keys
            },
            priority_tokens: self.priority_tokens.insert(token, p),
            ..self
        }
    }

    /// The state with priority paths registered in order.
    pub open spec fn registered_all(
        self,
        registrations: Seq<(u64, Seq<u8>)>,
        keys: Map<Seq<Seq<u8>>, u64>,
    ) -> WatchState
        decreases registrations.len(),
    {
        if registrations.len() == 0 {
            self
        } else {
            self.registered_all(registrations.drop_last(), keys).registered(
                registrations.last().0,
                registrations.last().1,
                keys,
            )
        }
    }
}

/// The model of a result without a value.
pub open spec fn unit_result(r: Result<(), EngineError>) -> Result<(), error::ErrorModel> {
    match r {
        Ok(_) => Ok(()),
        Err(e) => Err(e@),
    }
}

/// The models of results without values.
pub open spec fn unit_results(s: Seq<Result<(), EngineError>>) -> Seq<
    Result<(), error::ErrorModel>,
> {
    Seq::new(s.len(), |i: int| unit_result(s[i]))
}

/// The models of lists of results without values.
pub open spec fn unit_result_lists(s: Seq<Vec<Result<(), EngineError>>>) -> Seq<
    Seq<Result<(), error::ErrorModel>>,
> {
    Seq::new(s.len(), |i: int| unit_results(s[i]@))
}

/// The models of results with watch descriptors.
pub open spec fn wd_results(s: Seq<Result<i32, EngineError>>) -> Seq<
    Result<i32, error::ErrorModel>,
> {
    Seq::new(
        s.len(),
        |i: int|
            match s[i] {
                Ok(wd) => Ok(wd),
                Err(e) => Err(e@),
            },
    )
}

/// The components of paths as a set.
pub open spec fn wanted(hints: Seq<Seq<u8>>) -> Set<Seq<Seq<u8>>> {
    Set::new(
        |p: Seq<Seq<u8>>|
            exists|i: int| 0 <= i < hints.len() && path::components(#[trigger] hints[i]) == p,
    )
}

/// The keys of priority paths: of several for one path, the last.
pub open spec fn keys_of(keyed: Seq<(Seq<u8>, u64)>) -> Map<Seq<Seq<u8>>, u64>
    decreases keyed.len(),
{
    if keyed.len() == 0 {
        Map::empty()
    } else {
        keys_of(keyed.drop_last()).insert(path::components(keyed.last().0), keyed.last().1)
    }
}

/// What is ready, by token.
#[derive(Clone, Copy, Debug, PartialEq, Eq)]
pub struct ReadyEvent {
    pub token: u64,
    pub readable: bool,
    pub priority: bool,
    pub error: bool,
}

/// What a file watch reported.
#[derive(Debug, PartialEq, Eq)]
pub struct InotifyEvent {
    pub wd: i32,
    pub mask: u32,
    pub name: Option<Vec<u8>>,
}

/// The path that a report is about: the watched path, or what stands under the
/// reported name in it if that is not empty and UTF-8.
pub open spec fn named_path(p: Seq<u8>, name: Option<Seq<u8>>) -> Seq<u8> {
    match name {
        Some(name) if name.len() > 0 && vstd::utf8::valid_utf8(name) => path::joined(p, name),
        _ => p,
    }
}

/// The bytes of an optional name.
pub open spec fn name_model(name: Option<Vec<u8>>) -> Option<Seq<u8>> {
    match name {
        Some(name) => Some(name@),
        None => None,
    }
}

/// The path that a report is about.
pub fn named_event_path(watched: EnginePath, name: Option<&[u8]>) -> (r: EnginePath)
    ensures
        r@ == named_path(
            watched@,
            match name {
                Some(name) => Some(name@),
                None => None,
            },
        ),
{
    let name = match name {
        Some(name) => name,
        None => {
            return watched;
        },
    };
    if name.len() == 0 {
        return watched;
    }
    match path::text_of(name) {
        None => watched,
        Some(decoded) => {
            proof {
                vstd::utf8::decode_utf8_encode_utf8(name@);
            }
            watched.join(decoded.as_str())
        },
    }
}

/// What a poll gave.
#[derive(Debug, PartialEq, Eq)]
pub struct EngineWatchPoll {
    pub events: Vec<EngineEvent>,
    pub socket_tokens: Vec<u64>,
}

/// A poll that is under way.
#[derive(Debug)]
pub struct PollRun {
    ready: Vec<ReadyEvent>,
    reports: Vec<InotifyEvent>,
    emitted: Vec<EngineEvent>,
    socket_tokens: Vec<u64>,
    refreshed: bool,
}

/// The model of a poll that is under way.
pub struct RunModel {
    /// What is ready and not handled yet.
    pub ready: Seq<ReadyEvent>,
    /// What file watches reported and is not handled yet.
    pub reports: Seq<(i32, u32, Option<Seq<u8>>)>,
    /// What happened so far.
    pub emitted: Seq<events::EventModel>,
    /// The sockets that are ready.
    pub sockets: Seq<u64>,
    /// Whether the identity cache was refreshed already.
    pub refreshed: bool,
}

/// The models of reports.
pub open spec fn report_models(s: Seq<InotifyEvent>) -> Seq<(i32, u32, Option<Seq<u8>>)> {
    Seq::new(s.len(), |i: int| (s[i].wd, s[i].mask, name_model(s[i].name)))
}

impl View for PollRun {
    type V = RunModel;

    closed spec fn view(&self) -> RunModel {
        RunModel {
            ready: self.ready@,
            reports: report_models(self.reports@),
            emitted: events::event_models(self.emitted@),
            sockets: self.socket_tokens@,
            refreshed: self.refreshed,
        }
    }
}

impl PollRun {
    /// A poll that found something ready.
    pub fn new(ready: Vec<ReadyEvent>) -> (r: Self)
        ensures
            r@ == (RunModel {
                ready: ready@,
                reports: Seq::empty(),
                emitted: Seq::empty(),
                sockets: Seq::empty(),
                refreshed: false,
            }),
    {
        let r = PollRun {
            ready,
            reports: Vec::new(),
            emitted: Vec::new(),
            socket_tokens: Vec::new(),
            refreshed: false,
        };
        assert(r@.reports =~= Seq::<(i32, u32, Option<Seq<u8>>)>::empty());
        assert(r@.emitted =~= Seq::<events::EventModel>::empty());
        r
    }

    /// Hands in what the file watches reported.
    pub fn supply(&mut self, reports: Vec<InotifyEvent>)
        ensures
            final(self)@ == (RunModel {
                reports: old(self)@.reports + report_models(reports@),
                ..old(self)@
            }),
    {
        let mut reports = reports;
        let ghost given = reports@;
        self.reports.append(&mut reports);
        assert(self@.reports =~= old(self)@.reports + report_models(given));
    }

    /// What the poll gave.
    pub fn finish(self) -> (r: EngineWatchPoll)
        ensures
            events::event_models(r.events@) == self@.emitted,
            r.socket_tokens@ == self@.sockets,
    {
        EngineWatchPoll { events: self.emitted, socket_tokens: self.socket_tokens }
    }
}

/// What a poll needs next.
#[derive(Clone, Copy, Debug, PartialEq, Eq, Structural)]
pub enum PollStep {
    /// Nothing: go on.
    Continue,
    /// What the file watches reported.
    ReadReports,
    /// The watches made to match what the source wants: the priority descriptors,
    /// and the file watches before them if `watch_paths`. With
    /// `check_packages_xml` the package registry file is looked at first.
    Sync { watch_paths: bool, check_packages_xml: bool },
    /// The identity cache refreshed.
    Refresh,
    /// Nothing more: the poll is over.
    Done,
}

// ---------------------------------------------------------------------------
// Events and their consequences
// ---------------------------------------------------------------------------

/// What happens when actions are performed in order.
pub open spec fn happenings(
    services: system::ServicesModel,
    actions: Seq<dispatch::ActionModel>,
) -> Seq<events::EventModel>
    decreases actions.len(),
{
    if actions.len() == 0 {
        Seq::empty()
    } else {
        happenings(services, actions.drop_last()) + system::performed(services, actions.last())
    }
}

/// An event and what happens because of it.
pub open spec fn with_consequences(
    services: system::ServicesModel,
    event: events::EventModel,
) -> Seq<events::EventModel> {
    seq![event] + happenings(services, dispatch::dispatched(event))
}

/// Events, each followed by what happens because of it.
pub open spec fn unfolded(
    services: system::ServicesModel,
    happened: Seq<events::EventModel>,
) -> Seq<events::EventModel>
    decreases happened.len(),
{
    if happened.len() == 0 {
        Seq::empty()
    } else {
        unfolded(services, happened.drop_last()) + with_consequences(services, happened.last())
    }
}

/// Events in two parts have the effect of the parts one after the other.
pub proof fn lemma_after_all_concat(
    s: state::StateModel,
    a: Seq<events::EventModel>,
    b: Seq<events::EventModel>,
)
    ensures
        s.after_all(a + b) == s.after_all(a).after_all(b),
    decreases b.len(),
{
    if b.len() == 0 {
        assert(a + b == a);
    } else {
        lemma_after_all_concat(s, a, b.drop_last());
        assert((a + b).drop_last() == a + b.drop_last());
    }
}

proof fn lemma_after_all_one(s: state::StateModel, e: events::EventModel)
    ensures
        s.after_all(seq![e]) == s.after(e),
{
    assert(seq![e].drop_last() == Seq::<events::EventModel>::empty());
    assert(s.after_all(seq![e].drop_last()) == s);
}

proof fn lemma_rest(before: Seq<EngineEvent>, all: Seq<events::EventModel>, done: int)
    requires
        0 <= done < all.len(),
        before.len() > 0,
        events::event_models(before) == all.skip(done),
    ensures
        events::event_models(before)[0] == all[done],
        events::event_models(before.remove(0)) == all.skip(done + 1),
{
    let rest = events::event_models(before.remove(0));
    assert(events::event_models(before).len() == before.len());
    assert(rest.len() == all.skip(done + 1).len());
    assert forall|k: int| 0 <= k < rest.len() implies rest[k] == all.skip(done + 1)[k] by {
        assert(rest[k] == events::event_models(before)[k + 1]);
        assert(all.skip(done)[k + 1] == all[done + k + 1]);
    }
    assert(rest =~= all.skip(done + 1));
    assert(all.skip(done)[0] == all[done]);
}

fn emit(event: EngineEvent, state: &mut EngineState, emitted: &mut Vec<EngineEvent>)
    ensures
        final(state)@ == old(state)@.after(event@),
        events::event_models(final(emitted)@) == events::event_models(old(emitted)@).push(event@),
{
    Reducer::apply(&event, state);
    let ghost model = event@;
    emitted.push(event);
    assert(events::event_models(emitted@) =~= events::event_models(old(emitted)@).push(model));
}

fn emit_all(happened: Vec<EngineEvent>, state: &mut EngineState, emitted: &mut Vec<EngineEvent>)
    ensures
        final(state)@ == old(state)@.after_all(events::event_models(happened@)),
        events::event_models(final(emitted)@) == events::event_models(old(emitted)@)
            + events::event_models(happened@),
{
    let mut happened = happened;
    let ghost all = events::event_models(happened@);
    let ghost mut done: nat = 0;
    proof {
        assert(all.take(0) == Seq::<events::EventModel>::empty());
        assert(all.skip(0) == all);
        assert(events::event_models(emitted@) + all.take(0) == events::event_models(emitted@));
    }
    while happened.len() > 0
        invariant
            done <= all.len(),
            events::event_models(happened@) == all.skip(done as int),
            happened@.len() == all.len() - done,
            state@ == old(state)@.after_all(all.take(done as int)),
            events::event_models(emitted@) == events::event_models(old(emitted)@) + all.take(
                done as int,
            ),
        decreases happened@.len(),
    {
        let ghost before = happened@;
        let event = happened.remove(0);
        proof {
            lemma_rest(before, all, done as int);
            assert(events::event_models(before)[0] == event@);
            assert(all.take(done as int + 1).drop_last() == all.take(done as int));
            assert(all.take(done as int + 1).last() == event@);
            assert(events::event_models(old(emitted)@) + all.take(done as int + 1) == (
            events::event_models(old(emitted)@) + all.take(done as int)).push(event@));
        }
        emit(event, state, emitted);
        proof {
            done = done + 1;
        }
    }
    proof {
        assert(all.take(done as int) == all);
    }
}

/// Brings an event and what happens because of it into the state, and notes all
/// of it.
fn apply_event(
    event: EngineEvent,
    services: &mut SystemServices,
    state: &mut EngineState,
    emitted: &mut Vec<EngineEvent>,
)
    ensures
        final(services)@ == old(services)@,
        final(state)@ == old(state)@.after_all(with_consequences(old(services)@, event@)),
        events::event_models(final(emitted)@) == events::event_models(old(emitted)@)
            + with_consequences(old(services)@, event@),
{
    let mut actions = Dispatcher::dispatch(&event);
    let ghost e = event@;
    let ghost all = dispatch::action_models(actions@);
    let ghost serving = services@;
    let ghost mut done: nat = 0;
    emit(event, state, emitted);
    proof {
        lemma_after_all_one(old(state)@, e);
        assert(seq![e] + happenings(serving, all.take(0)) == seq![e]) by {
            assert(all.take(0) == Seq::<dispatch::ActionModel>::empty());
        }
        assert(events::event_models(old(emitted)@) + seq![e] == events::event_models(
            old(emitted)@,
        ).push(e));
        assert(all.skip(0) == all);
    }
    while actions.len() > 0
        invariant
            services@ == serving,
            all == dispatch::dispatched(e),
            done <= all.len(),
            actions@.len() == all.len() - done,
            dispatch::action_models(actions@) == all.skip(done as int),
            state@ == old(state)@.after_all(
                seq![e] + happenings(serving, all.take(done as int)),
            ),
            events::event_models(emitted@) == events::event_models(old(emitted)@) + (seq![e]
                + happenings(serving, all.take(done as int))),
        decreases actions@.len(),
    {
        let ghost before = actions@;
        let action = actions.remove(0);
        proof {
            assert(dispatch::action_models(before)[0] == action@);
            assert(all.skip(done as int)[0] == all[done as int]);
            dispatch::law_events_only_ask_for_identities(e, done as int);
            assert(dispatch::action_models(actions@) =~= all.skip(done as int + 1));
            assert(all.take(done as int + 1).drop_last() == all.take(done as int));
            assert(all.take(done as int + 1).last() == action@);
        }
        let ghost so_far = seq![e] + happenings(serving, all.take(done as int));
        let ghost next = system::performed(serving, action@);
        let happened = match services.perform(action) {
            Ok(ServiceStep::Done(happened)) => happened,
            _ => Vec::new(),
        };
        assert(events::event_models(happened@) == next);
        emit_all(happened, state, emitted);
        proof {
            lemma_after_all_concat(old(state)@, so_far, next);
            assert(so_far + next == seq![e] + happenings(serving, all.take(done as int + 1)));
            assert(events::event_models(old(emitted)@) + so_far + next == events::event_models(
                old(emitted)@,
            ) + (so_far + next));
            done = done + 1;
        }
    }
    proof {
        assert(all.take(done as int) == all);
    }
}

/// Brings events and what happens because of them into the state, in order, and
/// notes all of it.
pub fn apply_events(
    happened: Vec<EngineEvent>,
    services: &mut SystemServices,
    state: &mut EngineState,
    emitted: &mut Vec<EngineEvent>,
)
    ensures
        final(services)@ == old(services)@,
        final(state)@ == old(state)@.after_all(
            unfolded(old(services)@, events::event_models(happened@)),
        ),
        events::event_models(final(emitted)@) == events::event_models(old(emitted)@) + unfolded(
            old(services)@,
            events::event_models(happened@),
        ),
{
    let mut happened = happened;
    let ghost all = events::event_models(happened@);
    let ghost serving = services@;
    let ghost mut done: nat = 0;
    proof {
        assert(all.take(0) == Seq::<events::EventModel>::empty());
        assert(all.skip(0) == all);
        assert(events::event_models(emitted@) + unfolded(serving, all.take(0))
            == events::event_models(emitted@));
    }
    while happened.len() > 0
        invariant
            services@ == serving,
            done <= all.len(),
            happened@.len() == all.len() - done,
            events::event_models(happened@) == all.skip(done as int),
            state@ == old(state)@.after_all(unfolded(serving, all.take(done as int))),
            events::event_models(emitted@) == events::event_models(old(emitted)@) + unfolded(
                serving,
                all.take(done as int),
            ),
        decreases happened@.len(),
    {
        let ghost before = happened@;
        let event = happened.remove(0);
        let ghost so_far = unfolded(serving, all.take(done as int));
        let ghost next = with_consequences(serving, event@);
        proof {
            lemma_rest(before, all, done as int);
            assert(events::event_models(before)[0] == event@);
            assert(all.take(done as int + 1).drop_last() == all.take(done as int));
            assert(all.take(done as int + 1).last() == event@);
        }
        apply_event(event, services, state, emitted);
        proof {
            lemma_after_all_concat(old(state)@, so_far, next);
            assert(events::event_models(old(emitted)@) + so_far + next == events::event_models(
                old(emitted)@,
            ) + (so_far + next));
            done = done + 1;
        }
    }
    proof {
        assert(all.take(done as int) == all);
    }
}

// ---------------------------------------------------------------------------
// The watch
// ---------------------------------------------------------------------------

/// Step-based bridge from readiness into Engine events.
pub struct EngineWatch<S> {
    inotify_token: u64,
    foreground: ForegroundPipeline<S>,
    watches: OrdMap<i32, WatchEntry>,
    foreground_priority_tokens: OrdMap<u64, EnginePath>,
    foreground_priority_keys: OrdMap<EnginePath, u64>,
    socket_tokens: OrdSet<u64>,
    foreground_paths: PathSet,
    foreground_priority_paths: PathSet,
    identity_paths: PathSet,
    registration_failures: Vec<WatchRegistrationFailure>,
}

impl<S> View for EngineWatch<S> {
    type V = WatchState;

    closed spec fn view(&self) -> WatchState {
        WatchState {
            watches: self.watches@,
            priority_tokens: self.foreground_priority_tokens@,
            priority_keys: self.foreground_priority_keys@,
            socket_tokens: self.socket_tokens@,
            foreground_paths: self.foreground_paths@,
            priority_paths: self.foreground_priority_paths@,
            identity_paths: self.identity_paths@,
            failures: failure_models(self.registration_failures@),
            inotify_token: self.inotify_token,
        }
    }
}

impl<S> EngineWatch<S> {
    /// The foreground source.
    pub closed spec fn asks(&self) -> S {
        self.foreground.asks()
    }

    /// The last foreground candidate that was passed on.
    pub closed spec fn last(&self) -> Option<source::CandidateModel> {
        self.foreground.last()
    }
}

/// The watch to be set for a path and a target.
pub open spec fn addition_for<S: ForegroundSource>(
    asked: S,
    p: Seq<u8>,
    target: WatchTarget,
) -> AdditionModel {
    AdditionModel {
        path: p,
        target,
        text: if vstd::utf8::valid_utf8(p) {
            Some(vstd::utf8::decode_utf8(p))
        } else {
            None
        },
        mask: match target {
            WatchTarget::Foreground => asked.hint_mask(p),
            WatchTarget::IdentityCacheHint => 0xd8a,
        },
    }
}

/// The components of the paths of additions.
pub open spec fn addition_names(s: Seq<AdditionModel>) -> Seq<Seq<Seq<u8>>> {
    Seq::new(s.len(), |i: int| path::components(s[i].path))
}

/// The components of the paths of removals.
pub open spec fn removal_names(s: Seq<RemovalModel>) -> Seq<Seq<Seq<u8>>> {
    Seq::new(s.len(), |i: int| path::components(s[i].path))
}

/// The foreground watches of a path.
pub open spec fn wds_of(m: WatchState, p: Seq<Seq<u8>>) -> Set<i32> {
    Set::new(
        |wd: i32|
            m.watches.contains_key(wd) && m.watches[wd].1 == WatchTarget::Foreground
                && path::components(m.watches[wd].0) == p,
    )
}

/// Whether a plan makes the file watches match what the source wants: every
/// foreground path that is not wanted is dropped with all its watches, and every
/// wanted path that is not watched is added, each in the order of the paths.
pub open spec fn plans_sync<S: ForegroundSource>(
    m: WatchState,
    asked: S,
    removals: Seq<RemovalModel>,
    additions: Seq<AdditionModel>,
) -> bool {
    &&& ordered::enumerates(
        removal_names(removals),
        m.foreground_paths.difference(wanted(asked.hints())),
        EnginePath::order(),
    )
    &&& forall|i: int|
        0 <= i < removals.len() ==> ordered::enumerates(
            (#[trigger] removals[i]).wds,
            wds_of(m, path::components(removals[i].path)),
            i32::order(),
        )
    &&& ordered::enumerates(
        addition_names(additions),
        wanted(asked.hints()).difference(m.foreground_paths),
        EnginePath::order(),
    )
    &&& forall|i: int|
        0 <= i < additions.len() ==> is_hint_addition(asked, #[trigger] additions[i])
}

/// Whether a watch to be set is that for one of the paths that a source wants.
pub open spec fn is_hint_addition<S: ForegroundSource>(asked: S, addition: AdditionModel) -> bool {
    exists|k: int|
        0 <= k < asked.hints().len() && addition == addition_for(
            asked,
            #[trigger] asked.hints()[k],
            WatchTarget::Foreground,
        )
}

/// A priority path that the source no longer has.
#[derive(Debug, PartialEq, Eq)]
pub struct PriorityRemoval {
    pub path: EnginePath,
    /// Whether a descriptor is to be taken out for it.
    pub has_fd: bool,
}

/// The components of the paths of priority removals.
pub open spec fn priority_removal_names(s: Seq<PriorityRemoval>) -> Seq<Seq<Seq<u8>>> {
    Seq::new(s.len(), |i: int| s[i].path.comps())
}

/// Whether taking out a priority descriptor failed.
pub open spec fn removal_failed(
    removals: Seq<PriorityRemoval>,
    results: Seq<Result<(), EngineError>>,
    i: int,
) -> bool {
    removals[i].has_fd && results[i] is Err
}

/// The tokens and paths of registrations.
pub open spec fn registration_models(s: Seq<(u64, EnginePath)>) -> Seq<(u64, Seq<u8>)> {
    Seq::new(s.len(), |i: int| (s[i].0, s[i].1@))
}

fn first_of(hints: &Vec<EnginePath>, p: &EnginePath) -> (r: Option<usize>)
    ensures
        match r {
            Some(k) => k < hints@.len() && hints@[k as int].comps() == p.comps(),
            None => forall|k: int|
                0 <= k < hints@.len() ==> (#[trigger] hints@[k]).comps() != p.comps(),
        },
{
    let mut k: usize = 0;
    while k < hints.len()
        invariant
            k <= hints.len(),
            forall|j: int| 0 <= j < k ==> (#[trigger] hints@[j]).comps() != p.comps(),
        decreases hints.len() - k,
    {
        if hints[k].same_as(p) {
            return Some(k);
        }
        k += 1;
    }
    None
}

fn set_of(hints: &Vec<EnginePath>) -> (r: PathSet)
    ensures
        r@ == wanted(source::path_models(hints@)),
{
    let ghost all = source::path_models(hints@);
    let mut r: PathSet = OrdSet::new();
    let mut i: usize = 0;
    assert(r@ =~= wanted(all.take(0)));
    while i < hints.len()
        invariant
            i <= hints.len(),
            all == source::path_models(hints@),
            r@ == wanted(all.take(i as int)),
        decreases hints.len() - i,
    {
        let ghost was = r@;
        let _ = r.insert(hints[i].clone());
        proof {
            let name = hints@[i as int].comps();
            assert(all.take(i + 1)[i as int] == hints@[i as int]@);
            assert forall|p: Seq<Seq<u8>>| r@.contains(p) <==> wanted(all.take(i + 1)).contains(
                p,
            ) by {
                if was.contains(p) {
                    let k = choose|k: int|
                        0 <= k < all.take(i as int).len() && path::components(
                            #[trigger] all.take(i as int)[k],
                        ) == p;
                    assert(all.take(i + 1)[k] == all.take(i as int)[k]);
                }
                if wanted(all.take(i + 1)).contains(p) {
                    let k = choose|k: int|
                        0 <= k < all.take(i + 1).len() && path::components(
                            #[trigger] all.take(i + 1)[k],
                        ) == p;
                    if k < i {
                        assert(all.take(i as int)[k] == all.take(i + 1)[k]);
                    }
                }
                if p == name {
                    assert(path::components(all.take(i + 1)[i as int]) == p);
                }
            }
            assert(r@ =~= wanted(all.take(i + 1)));
        }
        i += 1;
    }
    assert(all.take(i as int) == all);
    r
}

proof fn lemma_without_twice(m: WatchState, a: Set<Seq<Seq<u8>>>, b: Set<Seq<Seq<u8>>>)
    ensures
        m.without_priorities(a).without_priorities(b) == m.without_priorities(a.union(b)),
{
    let x = m.without_priorities(a).without_priorities(b);
    let y = m.without_priorities(a.union(b));
    assert(x.priority_paths =~= y.priority_paths);
    assert(x.priority_keys =~= y.priority_keys);
    assert(x.priority_tokens =~= y.priority_tokens);
}

proof fn lemma_without_none(m: WatchState)
    ensures
        m.without_priorities(Set::empty()) == m,
{
    let x = m.without_priorities(Set::empty());
    assert(x.priority_paths =~= m.priority_paths);
    assert(x.priority_keys =~= m.priority_keys);
    assert(x.priority_tokens =~= m.priority_tokens);
}

impl<S: ForegroundSource> EngineWatch<S> {
    /// A watch over a foreground pipeline that watches nothing yet; file watches
    /// report under the given token.
    pub fn new(foreground: ForegroundPipeline<S>, inotify_token: u64) -> (r: Self)
        ensures
            r@ == WatchState::blank(inotify_token),
            r.asks() == foreground.asks(),
            r.last() == foreground.last(),
    {
        let r = EngineWatch {
            inotify_token,
            foreground,
            watches: OrdMap::new(),
            foreground_priority_tokens: OrdMap::new(),
            foreground_priority_keys: OrdMap::new(),
            socket_tokens: OrdSet::new(),
            foreground_paths: OrdSet::new(),
            foreground_priority_paths: OrdSet::new(),
            identity_paths: OrdSet::new(),
            registration_failures: Vec::new(),
        };
        assert(r@.failures =~= Seq::<FailureModel>::empty());
        r
    }

    fn addition(&self, p: &EnginePath, target: WatchTarget) -> (r: WatchAddition)
        ensures
            r@ == addition_for(self.asks(), p@, target),
    {
        let mask: u32 = match target {
            WatchTarget::Foreground => self.foreground.watch_hint_mask(p),
            WatchTarget::IdentityCacheHint => parent_watch_mask(),
        };
        WatchAddition { path: p.clone(), target, text: p.to_text(), mask }
    }

    /// The watches to be set at the start: the paths that the source wants, then
    /// those of the identity cache.
    pub fn initial_additions(&self, invalidator: &IdentityCacheInvalidator) -> (r: Vec<
        WatchAddition,
    >)
        ensures
            addition_models(r@) == Seq::new(
                self.asks().hints().len(),
                |i: int|
                    addition_for(self.asks(), self.asks().hints()[i], WatchTarget::Foreground),
            ),
    {
        let hints = self.foreground.watch_hint_paths();
        let ghost all = self.asks().hints();
        let mut r: Vec<WatchAddition> = Vec::new();
        let mut i: usize = 0;
        while i < hints.len()
            invariant
                i <= hints.len(),
                all == source::path_models(hints@),
                r.len() == i,
                forall|k: int|
                    0 <= k < i ==> (#[trigger] r@[k])@ == addition_for(
                        self.asks(),
                        all[k],
                        WatchTarget::Foreground,
                    ),
            decreases hints.len() - i,
        {
            assert(all[i as int] == hints@[i as int]@);
            r.push(self.addition(&hints[i], WatchTarget::Foreground));
            i += 1;
        }
        let more = invalidator.watch_hint_paths();
        let mut j: usize = 0;
        while j < more.len()
            invariant
                more@.len() == 0,
                j <= more.len(),
                r@.len() == all.len(),
                forall|k: int|
                    0 <= k < r@.len() ==> (#[trigger] r@[k])@ == addition_for(
                        self.asks(),
                        all[k],
                        WatchTarget::Foreground,
                    ),
            decreases more.len() - j,
        {
            r.push(self.addition(&more[j], WatchTarget::IdentityCacheHint));
            j += 1;
        }
        assert(addition_models(r@) =~= Seq::new(
            all.len(),
            |k: int| addition_for(self.asks(), all[k], WatchTarget::Foreground),
        ));
        r
    }

    fn fail(&mut self, p: &EnginePath, e: EngineError)
        ensures
            final(self)@ == old(self)@.failed(p@, e@),
            final(self).asks() == old(self).asks(),
            final(self).last() == old(self).last(),
    {
        let failure = WatchRegistrationFailure { path: p.clone(), error: e };
        let ghost model = failure@;
        self.registration_failures.push(failure);
        assert(self@.failures =~= old(self)@.failures.push(model));
    }

    /// Takes the result of setting a watch.
    pub fn add_watch_path(&mut self, addition: &WatchAddition, result: &Result<i32, EngineError>)
        ensures
            final(self)@ == old(self)@.added(
                addition@,
                match *result {
                    Ok(wd) => Ok(wd),
                    Err(e) => Err(e@),
                },
            ),
            final(self).asks() == old(self).asks(),
            final(self).last() == old(self).last(),
    {
        let known = match addition.target {
            WatchTarget::Foreground => self.foreground_paths.contains(&addition.path),
            WatchTarget::IdentityCacheHint => self.identity_paths.contains(&addition.path),
        };
        if known {
            return;
        }
        if addition.text.is_none() {
            self.fail(
                &addition.path,
                EngineError::invalid_config("watch.path", "must be UTF-8"),
            );
            return;
        }
        match result {
            Err(e) => {
                self.fail(&addition.path, e.clone());
            },
            Ok(wd) => {
                match addition.target {
                    WatchTarget::Foreground => {
                        let _ = self.foreground_paths.insert(addition.path.clone());
                    },
                    WatchTarget::IdentityCacheHint => {
                        let _ = self.identity_paths.insert(addition.path.clone());
                    },
                }
                self.watches.insert(
                    *wd,
                    WatchEntry { path: addition.path.clone(), target: addition.target },
                );
            },
        }
    }

    /// Takes the results of setting watches, in order.
    pub fn add_watch_paths(
        &mut self,
        additions: &Vec<WatchAddition>,
        results: &Vec<Result<i32, EngineError>>,
    )
        requires
            results@.len() == additions@.len(),
        ensures
            final(self)@ == old(self)@.added_all(
                addition_models(additions@),
                wd_results(results@),
            ),
            final(self).asks() == old(self).asks(),
            final(self).last() == old(self).last(),
    {
        let ghost all = addition_models(additions@);
        let ghost outcomes = wd_results(results@);
        let mut i: usize = 0;
        assert(all.take(0) == Seq::<AdditionModel>::empty());
        while i < additions.len()
            invariant
                i <= additions.len(),
                results@.len() == additions@.len(),
                all == addition_models(additions@),
                outcomes == wd_results(results@),
                self@ == old(self)@.added_all(all.take(i as int), outcomes),
                self.asks() == old(self).asks(),
                self.last() == old(self).last(),
            decreases additions.len() - i,
        {
            proof {
                assert(all.take(i + 1).drop_last() == all.take(i as int));
                assert(all.take(i + 1).last() == additions@[i as int]@);
                assert(outcomes[i as int] == match results@[i as int] {
                    Ok(wd) => Ok::<i32, error::ErrorModel>(wd),
                    Err(e) => Err(e@),
                });
            }
            self.add_watch_path(&additions[i], &results[i]);
            i += 1;
        }
        assert(all.take(i as int) == all);
    }

    fn foreground_wds(&self, p: &EnginePath) -> (r: Vec<i32>)
        ensures
            ordered::enumerates(r@, wds_of(self@, p.comps()), i32::order()),
    {
        let n: usize = self.watches.len();
        let ghost names = self.watches.names();
        let ghost ours = wds_of(self@, p.comps());
        let mut r: Vec<i32> = Vec::new();
        let mut i: usize = 0;
        while i < n
            invariant
                i <= n,
                n == self.watches.names().len(),
                names == self.watches.names(),
                ours == wds_of(self@, p.comps()),
                ordered::lists(names, self@.watches, i32::order()),
                forall|k: int|
                    0 <= k < r@.len() ==> ours.contains(#[trigger] r@[k]) && exists|j: int|
                        0 <= j < i && #[trigger] names[j] == r@[k],
                forall|j: int| 0 <= j < i && ours.contains(#[trigger] names[j]) ==> r@.contains(
                    names[j],
                ),
                ordered::increasing(r@, i32::order()),
            decreases n - i,
        {
            let wd: i32 = *self.watches.key_at(i);
            let entry = self.watches.value_at(i);
            let ghost was = r@;
            if entry.target == WatchTarget::Foreground && entry.path.same_as(p) {
                proof {
                    assert forall|a: int, b: int|
                        #![trigger was.push(wd)[a], was.push(wd)[b]]
                        0 <= a < b < was.push(wd).len() implies i32::order()(
                        was.push(wd)[a],
                        was.push(wd)[b],
                    ) by {
                        if b == was.len() {
                            assert(ours.contains(was[a]));
                            let j = choose|j: int| 0 <= j < i && #[trigger] names[j] == was[a];
                            assert(i32::order()(names[j], names[i as int]));
                        } else {
                            assert(i32::order()(was[a], was[b]));
                        }
                    }
                }
                r.push(wd);
                assert(r@[was.len() as int] == wd);
            }
            proof {
                assert forall|k: int| 0 <= k < r@.len() implies ours.contains(#[trigger] r@[k])
                    && exists|j: int| 0 <= j < i + 1 && #[trigger] names[j] == r@[k] by {
                    if k < was.len() {
                        assert(ours.contains(was[k]));
                        let j = choose|j: int| 0 <= j < i && #[trigger] names[j] == was[k];
                        assert(names[j] == r@[k]);
                    } else {
                        assert(names[i as int] == r@[k]);
                    }
                }
                assert forall|j: int|
                    0 <= j < i + 1 && ours.contains(#[trigger] names[j]) implies r@.contains(
                    names[j],
                ) by {
                    if j < i {
                        assert(was.contains(names[j]));
                        let k = was.index_of(names[j]);
                        assert(r@[k] == names[j]);
                    } else {
                        assert(r@[was.len() as int] == names[j]);
                    }
                }
            }
            i += 1;
        }
        proof {
            assert(r@.no_duplicates()) by {
                assert forall|a: int, b: int|
                    0 <= a < r@.len() && 0 <= b < r@.len() && a != b implies r@[a] != r@[b] by {
                    if a < b {
                        assert(i32::order()(r@[a], r@[b]));
                    } else {
                        assert(i32::order()(r@[b], r@[a]));
                    }
                }
            }
            assert forall|wd: i32| #[trigger] ours.contains(wd) <==> r@.contains(wd) by {
                if ours.contains(wd) {
                    assert(self@.watches.contains_key(wd));
                    let j = names.index_of(wd);
                    assert(names[j] == wd);
                }
                if r@.contains(wd) {
                    let k = r@.index_of(wd);
                    assert(ours.contains(r@[k]));
                }
            }
            r@.unique_seq_to_set();
            assert(r@.to_set() =~= ours);
        }
        r
    }

    /// What makes the file watches match what the source wants.
    pub fn plan_watch_sync(&self) -> (r: WatchSyncPlan)
        ensures
            plans_sync(
                self@,
                self.asks(),
                removal_models(r.removals@),
                addition_models(r.additions@),
            ),
    {
        let hints = self.foreground.watch_hint_paths();
        let ghost asked = self.asks();
        let desired = set_of(hints);
        let unwanted = difference(&self.foreground_paths, &desired);
        let missing = difference(&desired, &self.foreground_paths);
        let mut removals: Vec<WatchRemoval> = Vec::new();
        let mut i: usize = 0;
        while i < unwanted.len()
            invariant
                i <= unwanted.len(),
                removals.len() == i,
                forall|k: int|
                    0 <= k < i ==> (#[trigger] removals@[k]).path.comps() == unwanted@[k].comps()
                        && ordered::enumerates(
                        removals@[k].wds@,
                        wds_of(self@, unwanted@[k].comps()),
                        i32::order(),
                    ),
            decreases unwanted.len() - i,
        {
            let wds = self.foreground_wds(&unwanted[i]);
            removals.push(WatchRemoval { path: unwanted[i].clone(), wds });
            i += 1;
        }
        let mut additions: Vec<WatchAddition> = Vec::new();
        let mut j: usize = 0;
        while j < missing.len()
            invariant
                j <= missing.len(),
                additions.len() == j,
                asked == self.asks(),
                source::path_models(hints@) == asked.hints(),
                desired@ == wanted(asked.hints()),
                forall|k: int|
                    0 <= k < missing@.len() ==> desired@.contains((#[trigger] missing@[k]).comps()),
                forall|k: int|
                    0 <= k < j ==> path::components((#[trigger] additions@[k])@.path)
                        == missing@[k].comps(),
                forall|k: int|
                    0 <= k < j ==> is_hint_addition(asked, (#[trigger] additions@[k])@),
            decreases missing.len() - j,
        {
            assert(desired@.contains(missing@[j as int].comps()));
            let at = first_of(hints, &missing[j]);
            proof {
                let h = choose|h: int|
                    0 <= h < asked.hints().len() && path::components(#[trigger] asked.hints()[h])
                        == missing@[j as int].comps();
                assert(asked.hints()[h] == hints@[h]@);
                assert(hints@[h].comps() == missing@[j as int].comps());
            }
            if let Some(h) = at {
                let addition = self.addition(&hints[h], WatchTarget::Foreground);
                proof {
                    assert(asked.hints()[h as int] == hints@[h as int]@);
                    assert(addition@ == addition_for(
                        asked,
                        asked.hints()[h as int],
                        WatchTarget::Foreground,
                    ));
                }
                additions.push(addition);
            }
            j += 1;
        }
        proof {
            let r = removal_models(removals@);
            let a = addition_models(additions@);
            assert(removal_names(r) =~= path::comps_of(unwanted@));
            assert(addition_names(a) =~= path::comps_of(missing@));
            assert forall|k: int| 0 <= k < r.len() implies ordered::enumerates(
                (#[trigger] r[k]).wds,
                wds_of(self@, path::components(r[k].path)),
                i32::order(),
            ) by {
                assert(r[k] == removals@[k]@);
            }
            assert forall|k: int| 0 <= k < a.len() implies is_hint_addition(
                asked,
                #[trigger] a[k],
            ) by {
                assert(a[k] == additions@[k]@);
            }
            assert(plans_sync(self@, asked, r, a));
        }
        WatchSyncPlan { removals, additions }
    }

    fn remove_watch_path(&mut self, removal: &WatchRemoval, results: &Vec<Result<(), EngineError>>)
        requires
            results@.len() == removal.wds@.len(),
        ensures
            final(self)@ == old(self)@.dropped(removal@, unit_results(results@)),
            final(self).asks() == old(self).asks(),
            final(self).last() == old(self).last(),
    {
        let ghost outcomes = unit_results(results@);
        let ghost wds = removal.wds@;
        let mut i: usize = 0;
        assert(wds.take(0) == Seq::<i32>::empty());
        while i < removal.wds.len()
            invariant
                i <= removal.wds.len(),
                results@.len() == removal.wds@.len(),
                wds == removal.wds@,
                outcomes == unit_results(results@),
                self@ == old(self)@.taken_out_all(removal.path@, wds.take(i as int), outcomes),
                self.asks() == old(self).asks(),
                self.last() == old(self).last(),
            decreases removal.wds.len() - i,
        {
            proof {
                assert(wds.take(i + 1).drop_last() == wds.take(i as int));
                assert(wds.take(i + 1).last() == wds[i as int]);
                assert(outcomes[i as int] == unit_result(results@[i as int]));
            }
            match &results[i] {
                Err(e) => {
                    let gone = match e.raw_os_error() {
                        Some(code) => code == EINVAL,
                        None => false,
                    };
                    if !gone {
                        self.fail(&removal.path, e.clone());
                    }
                },
                Ok(_) => {},
            }
            let _ = self.watches.remove(&removal.wds[i]);
            i += 1;
        }
        assert(wds.take(i as int) == wds);
        let _ = self.foreground_paths.remove(&removal.path);
    }

    /// Takes the results of carrying out a plan: those of taking watches out, one
    /// list for each removal, and those of setting watches.
    pub fn sync_foreground_watch_paths(
        &mut self,
        plan: &WatchSyncPlan,
        removed: &Vec<Vec<Result<(), EngineError>>>,
        added: &Vec<Result<i32, EngineError>>,
    )
        requires
            removed@.len() == plan.removals@.len(),
            forall|i: int|
                0 <= i < removed@.len() ==> (#[trigger] removed@[i])@.len()
                    == plan.removals@[i].wds@.len(),
            added@.len() == plan.additions@.len(),
        ensures
            final(self)@ == old(self)@.dropped_all(
                removal_models(plan.removals@),
                unit_result_lists(removed@),
            ).added_all(addition_models(plan.additions@), wd_results(added@)),
            final(self).asks() == old(self).asks(),
            final(self).last() == old(self).last(),
    {
        let ghost all = removal_models(plan.removals@);
        let ghost outcomes = unit_result_lists(removed@);
        let mut i: usize = 0;
        assert(all.take(0) == Seq::<RemovalModel>::empty());
        while i < plan.removals.len()
            invariant
                i <= plan.removals.len(),
                removed@.len() == plan.removals@.len(),
                forall|k: int|
                    0 <= k < removed@.len() ==> (#[trigger] removed@[k])@.len()
                        == plan.removals@[k].wds@.len(),
                all == removal_models(plan.removals@),
                outcomes == unit_result_lists(removed@),
                self@ == old(self)@.dropped_all(all.take(i as int), outcomes),
                self.asks() == old(self).asks(),
                self.last() == old(self).last(),
            decreases plan.removals.len() - i,
        {
            proof {
                assert(all.take(i + 1).drop_last() == all.take(i as int));
                assert(all.take(i + 1).last() == plan.removals@[i as int]@);
                assert(outcomes[i as int] == unit_results(removed@[i as int]@));
            }
            self.remove_watch_path(&plan.removals[i], &removed[i]);
            i += 1;
        }
        assert(all.take(i as int) == all);
        self.add_watch_paths(&plan.additions, added);
    }

    fn current_keys(&self) -> (r: OrdMap<EnginePath, u64>)
        ensures
            r@ == keys_of(self.asks().priority_keys()),
    {
        let keyed = self.foreground.priority_hint_keys();
        let ghost all = source::keyed_models(keyed@);
        let mut r: OrdMap<EnginePath, u64> = OrdMap::new();
        let mut i: usize = 0;
        assert(all.take(0) == Seq::<(Seq<u8>, u64)>::empty());
        while i < keyed.len()
            invariant
                i <= keyed.len(),
                all == source::keyed_models(keyed@),
                r@ == keys_of(all.take(i as int)),
            decreases keyed.len() - i,
        {
            proof {
                assert(all.take(i + 1).drop_last() == all.take(i as int));
                assert(all.take(i + 1).last() == (keyed@[i as int].0@, keyed@[i as int].1));
            }
            r.insert(keyed[i].0.clone(), keyed[i].1);
            i += 1;
        }
        assert(all.take(i as int) == all);
        r
    }

    /// The registered priority paths that the source no longer has, in order.
    pub fn plan_priority_removals(&self) -> (r: Vec<PriorityRemoval>)
        ensures
            ordered::enumerates(
                priority_removal_names(r@),
                self@.vanished(keys_of(self.asks().priority_keys())),
                EnginePath::order(),
            ),
            forall|i: int|
                0 <= i < r@.len() ==> (#[trigger] r@[i]).has_fd == self.asks().holds_descriptor(
                    r@[i].path@,
                ),
    {
        let current = self.current_keys();
        let gone = keys_without(&self.foreground_priority_keys, &current);
        let mut r: Vec<PriorityRemoval> = Vec::new();
        let mut i: usize = 0;
        while i < gone.len()
            invariant
                i <= gone.len(),
                r.len() == i,
                forall|k: int|
                    0 <= k < i ==> (#[trigger] r@[k]).path.comps() == gone@[k].comps()
                        && r@[k].has_fd == self.asks().holds_descriptor(r@[k].path@),
            decreases gone.len() - i,
        {
            let p = gone[i].clone();
            let has_fd = self.foreground.unregister_priority_fd(&p);
            r.push(PriorityRemoval { path: p, has_fd });
            i += 1;
        }
        assert(priority_removal_names(r@) =~= path::comps_of(gone@));
        assert(self@.vanished(keys_of(self.asks().priority_keys()))
            =~= self.foreground_priority_keys@.dom().difference(current@.dom()));
        r
    }

    fn drop_priority_path(&mut self, p: &EnginePath)
        ensures
            final(self)@ == old(self)@.without_priorities(set![p.comps()]),
            final(self).asks() == old(self).asks(),
            final(self).last() == old(self).last(),
    {
        let _ = self.foreground_priority_paths.remove(p);
        let _ = self.foreground_priority_keys.remove(p);
        let n: usize = self.foreground_priority_tokens.len();
        let ghost names = self.foreground_priority_tokens.names();
        let ghost tokens = self.foreground_priority_tokens@;
        let mut kept: OrdMap<u64, EnginePath> = OrdMap::new();
        let mut i: usize = 0;
        while i < n
            invariant
                i <= n,
                n == self.foreground_priority_tokens.names().len(),
                names == self.foreground_priority_tokens.names(),
                tokens == self.foreground_priority_tokens@,
                ordered::lists(names, tokens, u64::order()),
                forall|t: u64| #[trigger]
                    kept@.contains_key(t) <==> names.take(i as int).contains(t)
                        && path::components(tokens[t]) != p.comps(),
                forall|t: u64| #[trigger] kept@.contains_key(t) ==> kept@[t] == tokens[t],
            decreases n - i,
        {
            let ghost was = kept@;
            let token: u64 = *self.foreground_priority_tokens.key_at(i);
            let registered = self.foreground_priority_tokens.value_at(i);
            if !registered.same_as(p) {
                kept.insert(token, registered.clone());
            }
            proof {
                assert(names.take(i + 1) == names.take(i as int).push(token));
                assert forall|t: u64| #[trigger]
                    kept@.contains_key(t) <==> names.take(i + 1).contains(t) && path::components(
                        tokens[t],
                    ) != p.comps() by {
                    assert(names.take(i + 1)[i as int] == token);
                    if names.take(i as int).contains(t) {
                        let k = names.take(i as int).index_of(t);
                        assert(names.take(i + 1)[k] == t);
                    }
                    if names.take(i + 1).contains(t) {
                        let k = names.take(i + 1).index_of(t);
                        if k < i {
                            assert(names.take(i as int)[k] == t);
                        }
                    }
                    assert(was.contains_key(t) <==> names.take(i as int).contains(t)
                        && path::components(tokens[t]) != p.comps());
                }
            }
            i += 1;
        }
        proof {
            assert(names.take(n as int) == names);
        }
        self.foreground_priority_tokens = kept;
        proof {
            let want = old(self)@.without_priorities(set![p.comps()]);
            assert(self@.priority_tokens =~= want.priority_tokens) by {
                assert forall|t: u64| self@.priority_tokens.contains_key(t)
                    <==> want.priority_tokens.contains_key(t) by {
                    assert(tokens.contains_key(t) <==> names.contains(t));
                    assert(kept@.contains_key(t) <==> names.contains(t) && path::components(
                        tokens[t],
                    ) != p.comps());
                }
            }
            assert(self@.priority_paths =~= want.priority_paths);
            assert(self@.priority_keys =~= want.priority_keys);
        }
    }

    /// Takes the results of taking out the priority descriptors of paths that
    /// are gone, up to the first failure; then drops the registrations that are
    /// out of date.
    pub fn finish_priority_removals(
        &mut self,
        removals: &Vec<PriorityRemoval>,
        results: &Vec<Result<(), EngineError>>,
    ) -> (r: Result<(), EngineError>)
        requires
            results@.len() == removals@.len(),
        ensures
            final(self).asks() == old(self).asks(),
            final(self).last() == old(self).last(),
            match r {
                Ok(_) => {
                    let names = priority_removal_names(removals@).to_set();
                    &&& forall|i: int|
                        0 <= i < removals@.len() ==> !#[trigger] removal_failed(
                            removals@,
                            results@,
                            i,
                        )
                    &&& final(self)@ == old(self)@.without_priorities(names).without_priorities(
                        old(self)@.without_priorities(names).outdated(
                            keys_of(old(self).asks().priority_keys()),
                        ),
                    )
                },
                Err(e) => exists|n: int|
                    {
                        &&& 0 <= n < removals@.len()
                        &&& #[trigger] removal_failed(removals@, results@, n)
                        &&& forall|i: int|
                            0 <= i < n ==> !#[trigger] removal_failed(removals@, results@, i)
                        &&& e@ == results@[n]->Err_0@
                        &&& final(self)@ == old(self)@.without_priorities(
                            priority_removal_names(removals@).take(n).to_set(),
                        )
                    },
            },
    {
        let ghost names = priority_removal_names(removals@);
        let mut i: usize = 0;
        proof {
            assert(names.take(0).to_set() =~= Set::<Seq<Seq<u8>>>::empty());
            lemma_without_none(self@);
        }
        while i < removals.len()
            invariant
                i <= removals.len(),
                results@.len() == removals@.len(),
                names == priority_removal_names(removals@),
                forall|k: int| 0 <= k < i ==> !#[trigger] removal_failed(removals@, results@, k),
                self@ == old(self)@.without_priorities(names.take(i as int).to_set()),
                self.asks() == old(self).asks(),
                self.last() == old(self).last(),
            decreases removals.len() - i,
        {
            if removals[i].has_fd {
                match &results[i] {
                    Err(e) => {
                        assert(removal_failed(removals@, results@, i as int));
                        return Err(e.clone());
                    },
                    Ok(_) => {},
                }
            }
            assert(!removal_failed(removals@, results@, i as int));
            self.drop_priority_path(&removals[i].path);
            proof {
                let before = names.take(i as int).to_set();
                let now = set![names[i as int]];
                lemma_without_twice(old(self)@, before, now);
                assert(before.union(now) =~= names.take(i + 1).to_set()) by {
                    assert(names.take(i + 1) == names.take(i as int).push(names[i as int]));
                    assert forall|p: Seq<Seq<u8>>| names.take(i + 1).to_set().contains(p)
                        <==> before.union(now).contains(p) by {
                        assert(names.take(i + 1)[i as int] == names[i as int]);
                        if names.take(i as int).contains(p) {
                            let k = names.take(i as int).index_of(p);
                            assert(names.take(i + 1)[k] == p);
                        }
                        if names.take(i + 1).contains(p) {
                            let k = names.take(i + 1).index_of(p);
                            if k < i {
                                assert(names.take(i as int)[k] == p);
                            }
                        }
                    }
                }
            }
            i += 1;
        }
        assert(names.take(i as int) == names);
        self.drop_outdated_priorities();
        Ok(())
    }

    fn drop_outdated_priorities(&mut self)
        ensures
            final(self)@ == old(self)@.without_priorities(
                old(self)@.outdated(keys_of(old(self).asks().priority_keys())),
            ),
            final(self).asks() == old(self).asks(),
            final(self).last() == old(self).last(),
    {
        let current = self.current_keys();
        let ghost keys = current@;
        let previous = self.foreground_priority_keys.clone();
        let n: usize = previous.len();
        let ghost names = previous.names();
        let ghost stale = old(self)@.outdated(keys);
        let ghost mut gone: Set<Seq<Seq<u8>>> = Set::empty();
        proof {
            lemma_without_none(self@);
        }
        let mut i: usize = 0;
        while i < n
            invariant
                i <= n,
                n == previous.names().len(),
                names == previous.names(),
                keys == current@,
                stale == old(self)@.outdated(keys),
                previous@ == old(self)@.priority_keys,
                ordered::lists(names, previous@, EnginePath::order()),
                self@ == old(self)@.without_priorities(gone),
                self.asks() == old(self).asks(),
                self.last() == old(self).last(),
                forall|p: Seq<Seq<u8>>| #[trigger]
                    gone.contains(p) <==> names.take(i as int).contains(p) && stale.contains(p),
            decreases n - i,
        {
            let p = previous.key_at(i);
            let key: u64 = *previous.value_at(i);
            let same = match current.get(p) {
                Some(now) => *now == key,
                None => false,
            };
            let ghost before = gone;
            let ghost name = names[i as int];
            if !same {
                self.drop_priority_path(p);
                proof {
                    lemma_without_twice(old(self)@, before, set![name]);
                    gone = before.union(set![name]);
                }
            }
            proof {
                assert(stale.contains(name) <==> !same);
                assert(names.take(i + 1) == names.take(i as int).push(name));
                assert forall|q: Seq<Seq<u8>>| #[trigger]
                    gone.contains(q) <==> names.take(i + 1).contains(q) && stale.contains(q) by {
                    assert(before.contains(q) <==> names.take(i as int).contains(q)
                        && stale.contains(q));
                    assert(names.take(i + 1)[i as int] == name);
                    if names.take(i as int).contains(q) {
                        let k = names.take(i as int).index_of(q);
                        assert(names.take(i + 1)[k] == q);
                    }
                    if names.take(i + 1).contains(q) {
                        let k = names.take(i + 1).index_of(q);
                        if k < i {
                            assert(names.take(i as int)[k] == q);
                        }
                    }
                }
            }
            i += 1;
        }
        proof {
            assert(names.take(n as int) == names);
            assert(gone =~= stale) by {
                assert forall|p: Seq<Seq<u8>>| gone.contains(p) <==> stale.contains(p) by {
                    if stale.contains(p) {
                        assert(previous@.contains_key(p));
                    }
                }
            }
        }
    }

    /// The paths whose priority descriptors are to be registered.
    pub fn plan_priority_registrations(&self) -> (r: Vec<EnginePath>)
        ensures
            source::path_models(r@) == self.asks().unregistered(self@.priority_paths),
    {
        self.foreground.register_priority_fds(&self.foreground_priority_paths)
    }

    /// Takes the tokens under which priority descriptors were registered.
    pub fn finish_priority_registrations(&mut self, registrations: &Vec<(u64, EnginePath)>)
        ensures
            final(self)@ == old(self)@.registered_all(
                registration_models(registrations@),
                keys_of(old(self).asks().priority_keys()),
            ),
            final(self).asks() == old(self).asks(),
            final(self).last() == old(self).last(),
    {
        let current = self.current_keys();
        let ghost keys = current@;
        let ghost all = registration_models(registrations@);
        let mut i: usize = 0;
        assert(all.take(0) == Seq::<(u64, Seq<u8>)>::empty());
        while i < registrations.len()
            invariant
                i <= registrations.len(),
                all == registration_models(registrations@),
                keys == current@,
                self@ == old(self)@.registered_all(all.take(i as int), keys),
                self.asks() == old(self).asks(),
                self.last() == old(self).last(),
            decreases registrations.len() - i,
        {
            let p = &registrations[i].1;
            proof {
                assert(all.take(i + 1).drop_last() == all.take(i as int));
                assert(all.take(i + 1).last() == (registrations@[i as int].0, p@));
            }
            let _ = self.foreground_priority_paths.insert(p.clone());
            match current.get(p) {
                Some(key) => {
                    self.foreground_priority_keys.insert(p.clone(), *key);
                },
                None => {},
            }
            self.foreground_priority_tokens.insert(registrations[i].0, p.clone());
            i += 1;
        }
        assert(all.take(i as int) == all);
    }
}

/// The paths of one set that are not in another, in order.
fn difference(a: &PathSet, b: &PathSet) -> (r: Vec<EnginePath>)
    ensures
        ordered::enumerates(path::comps_of(r@), a@.difference(b@), EnginePath::order()),
        forall|i: int| 0 <= i < r@.len() ==> a@.contains((#[trigger] r@[i]).comps()),
{
    let n: usize = a.len();
    let ghost names = a.names();
    let mut r: Vec<EnginePath> = Vec::new();
    let mut i: usize = 0;
    assert(path::comps_of(r@) =~= Seq::<Seq<Seq<u8>>>::empty());
    while i < n
        invariant
            i <= n,
            n == a.names().len(),
            names == a.names(),
            ordered::enumerates(names, a@, EnginePath::order()),
            sifted(names, i as int, path::comps_of(r@), b@),
        decreases n - i,
    {
        let p = a.key_at(i);
        let ghost was = r@;
        if !b.contains(p) {
            r.push(p.clone());
            assert(path::comps_of(r@) =~= path::comps_of(was).push(names[i as int]));
        }
        proof {
            lemma_sifted(names, i as int, path::comps_of(was), b@);
        }
        i += 1;
    }
    proof {
        lemma_sifted_all(names, path::comps_of(r@), a@, b@, EnginePath::order());
        assert forall|k: int| 0 <= k < r@.len() implies a@.contains(
            (#[trigger] r@[k]).comps(),
        ) by {
            assert(path::comps_of(r@)[k] == r@[k].comps());
            assert(path::comps_of(r@).contains(path::comps_of(r@)[k]));
            assert(a@.difference(b@).contains(path::comps_of(r@)[k]));
        }
    }
    r
}

/// The keys of one map that another does not have, in order.
fn keys_without(a: &OrdMap<EnginePath, u64>, b: &OrdMap<EnginePath, u64>) -> (r: Vec<EnginePath>)
    ensures
        ordered::enumerates(
            path::comps_of(r@),
            a@.dom().difference(b@.dom()),
            EnginePath::order(),
        ),
{
    let n: usize = a.len();
    let ghost names = a.names();
    let mut r: Vec<EnginePath> = Vec::new();
    let mut i: usize = 0;
    assert(path::comps_of(r@) =~= Seq::<Seq<Seq<u8>>>::empty());
    while i < n
        invariant
            i <= n,
            n == a.names().len(),
            names == a.names(),
            ordered::lists(names, a@, EnginePath::order()),
            sifted(names, i as int, path::comps_of(r@), b@.dom()),
        decreases n - i,
    {
        let p = a.key_at(i);
        let ghost was = r@;
        if !b.contains_key(p) {
            r.push(p.clone());
            assert(path::comps_of(r@) =~= path::comps_of(was).push(names[i as int]));
        }
        proof {
            lemma_sifted(names, i as int, path::comps_of(was), b@.dom());
        }
        i += 1;
    }
    proof {
        assert forall|p: Seq<Seq<u8>>| #[trigger] a@.dom().contains(p) <==> names.contains(p) by {
            assert(a@.contains_key(p) <==> names.contains(p));
        }
        lemma_sifted_all(names, path::comps_of(r@), a@.dom(), b@.dom(), EnginePath::order());
    }
    r
}

/// Whether a list holds, in order, those of the first names that are not in a
/// set.
spec fn sifted(
    names: Seq<Seq<Seq<u8>>>,
    i: int,
    kept: Seq<Seq<Seq<u8>>>,
    out: Set<Seq<Seq<u8>>>,
) -> bool
    decreases i,
{
    if i <= 0 {
        kept == Seq::<Seq<Seq<u8>>>::empty()
    } else if out.contains(names[i - 1]) {
        sifted(names, i - 1, kept, out)
    } else {
        kept.len() > 0 && kept.last() == names[i - 1] && sifted(names, i - 1, kept.drop_last(), out)
    }
}

proof fn lemma_sifted(
    names: Seq<Seq<Seq<u8>>>,
    i: int,
    kept: Seq<Seq<Seq<u8>>>,
    out: Set<Seq<Seq<u8>>>,
)
    requires
        0 <= i < names.len(),
        sifted(names, i, kept, out),
    ensures
        out.contains(names[i]) ==> sifted(names, i + 1, kept, out),
        !out.contains(names[i]) ==> sifted(names, i + 1, kept.push(names[i]), out),
{
    assert(kept.push(names[i]).drop_last() == kept);
}

proof fn lemma_sifted_facts(
    names: Seq<Seq<Seq<u8>>>,
    i: int,
    kept: Seq<Seq<Seq<u8>>>,
    out: Set<Seq<Seq<u8>>>,
    lt: spec_fn(Seq<Seq<u8>>, Seq<Seq<u8>>) -> bool,
)
    requires
        0 <= i <= names.len(),
        ordered::increasing(names, lt),
        sifted(names, i, kept, out),
    ensures
        ordered::increasing(kept, lt),
        forall|k: int|
            0 <= k < kept.len() ==> !out.contains(#[trigger] kept[k]) && exists|j: int|
                0 <= j < i && #[trigger] names[j] == kept[k],
        forall|j: int|
            0 <= j < i && !out.contains(#[trigger] names[j]) ==> kept.contains(names[j]),
    decreases i,
{
    if i > 0 {
        if out.contains(names[i - 1]) {
            lemma_sifted_facts(names, i - 1, kept, out, lt);
            assert forall|k: int| 0 <= k < kept.len() implies !out.contains(#[trigger] kept[k])
                && exists|j: int| 0 <= j < i && #[trigger] names[j] == kept[k] by {
                let j = choose|j: int| 0 <= j < i - 1 && #[trigger] names[j] == kept[k];
                assert(names[j] == kept[k]);
            }
        } else {
            let front = kept.drop_last();
            lemma_sifted_facts(names, i - 1, front, out, lt);
            assert forall|k: int| 0 <= k < kept.len() implies !out.contains(#[trigger] kept[k])
                && exists|j: int| 0 <= j < i && #[trigger] names[j] == kept[k] by {
                if k < front.len() {
                    assert(front[k] == kept[k]);
                    let j = choose|j: int| 0 <= j < i - 1 && #[trigger] names[j] == front[k];
                    assert(names[j] == kept[k]);
                } else {
                    assert(names[i - 1] == kept[k]);
                }
            }
            assert forall|a: int, b: int|
                #![trigger kept[a], kept[b]]
                0 <= a < b < kept.len() implies lt(kept[a], kept[b]) by {
                assert(front[a] == kept[a]);
                if b == front.len() {
                    let j = choose|j: int| 0 <= j < i - 1 && #[trigger] names[j] == front[a];
                    assert(lt(names[j], names[i - 1]));
                } else {
                    assert(front[b] == kept[b]);
                }
            }
            assert forall|j: int|
                0 <= j < i && !out.contains(#[trigger] names[j]) implies kept.contains(
                names[j],
            ) by {
                if j < i - 1 {
                    assert(front.contains(names[j]));
                    let k = front.index_of(names[j]);
                    assert(kept[k] == names[j]);
                } else {
                    assert(kept[kept.len() - 1] == names[j]);
                }
            }
        }
    }
}

proof fn lemma_sifted_all(
    names: Seq<Seq<Seq<u8>>>,
    kept: Seq<Seq<Seq<u8>>>,
    all: Set<Seq<Seq<u8>>>,
    out: Set<Seq<Seq<u8>>>,
    lt: spec_fn(Seq<Seq<u8>>, Seq<Seq<u8>>) -> bool,
)
    requires
        lt == EnginePath::order(),
        ordered::increasing(names, lt),
        forall|p: Seq<Seq<u8>>| #[trigger] all.contains(p) <==> names.contains(p),
        sifted(names, names.len() as int, kept, out),
    ensures
        ordered::enumerates(kept, all.difference(out), lt),
{
    EnginePath::order_laws();
    lemma_sifted_facts(names, names.len() as int, kept, out, lt);
    assert forall|a: int, b: int|
        0 <= a < kept.len() && 0 <= b < kept.len() && a != b implies kept[a] != kept[b] by {
        if a < b {
            assert(lt(kept[a], kept[b]));
        } else {
            assert(lt(kept[b], kept[a]));
        }
        assert(!lt(kept[a], kept[a]));
    }
    let set = all.difference(out);
    assert forall|p: Seq<Seq<u8>>| #[trigger] set.contains(p) <==> kept.contains(p) by {
        if set.contains(p) {
            let j = names.index_of(p);
            assert(names[j] == p);
        }
        if kept.contains(p) {
            let k = kept.index_of(p);
            assert(!out.contains(kept[k]));
            let j = choose|j: int| 0 <= j < names.len() && #[trigger] names[j] == kept[k];
            assert(names.contains(names[j]));
        }
    }
    kept.unique_seq_to_set();
    assert(kept.to_set() =~= set);
}

// ---------------------------------------------------------------------------
// Polling
// ---------------------------------------------------------------------------

/// What the source's answer makes of a poll: a failure ends it; else a new
/// candidate and what happens because of it are noted, and the watches are to be
/// made to match.
pub open spec fn heard(
    services: system::ServicesModel,
    last: Option<source::CandidateModel>,
    invalidator: identity_cache::InvalidatorModel,
    st: state::StateModel,
    run: RunModel,
    answer: source::SourceAnswer,
    watch_paths: bool,
    last_after: Option<source::CandidateModel>,
    invalidator_after: identity_cache::InvalidatorModel,
    st_after: state::StateModel,
    run_after: RunModel,
    r: Result<PollStep, EngineError>,
) -> bool {
    match answer {
        Err(e) => {
            &&& last_after == last
            &&& invalidator_after == invalidator
            &&& st_after == st
            &&& run_after == run
            &&& r == Err::<PollStep, EngineError>(e)
        },
        Ok(found) => {
            let now = manager::deduped(last, source::candidate_model(found));
            let happened = match now.update {
                Some(candidate) => unfolded(
                    services,
                    seq![events::EventModel::ForegroundCandidateChanged(candidate)],
                ),
                None => Seq::empty(),
            };
            &&& last_after == now.last
            &&& invalidator_after == if now.counts_as_change {
                invalidator.counted()
            } else {
                invalidator
            }
            &&& st_after == st.after_all(happened)
            &&& run_after == (RunModel { emitted: run.emitted + happened, ..run })
            &&& r == Ok::<PollStep, EngineError>(
                PollStep::Sync {
                    watch_paths,
                    check_packages_xml: now.counts_as_change && invalidator.look_due(),
                },
            )
        },
    }
}

/// Whether an event that goes to the source may make this of a poll.
pub open spec fn event_heard<S: ForegroundSource>(
    services: system::ServicesModel,
    pre: S,
    last: Option<source::CandidateModel>,
    invalidator: identity_cache::InvalidatorModel,
    st: state::StateModel,
    run: RunModel,
    event_path: Seq<u8>,
    mask: u32,
    post: S,
    last_after: Option<source::CandidateModel>,
    invalidator_after: identity_cache::InvalidatorModel,
    st_after: state::StateModel,
    run_after: RunModel,
    r: Result<PollStep, EngineError>,
) -> bool {
    exists|answer: source::SourceAnswer|
        {
            &&& #[trigger] manager::answers_event(
                manager::EVENT_RETRY_ATTEMPTS as nat,
                pre,
                event_path,
                mask,
                post,
                answer,
            )
            &&& heard(
                services,
                last,
                invalidator,
                st,
                run,
                answer,
                true,
                last_after,
                invalidator_after,
                st_after,
                run_after,
                r,
            )
        }
}

/// Whether a priority descriptor that goes to the source may make this of a
/// poll.
pub open spec fn signal_heard<S: ForegroundSource>(
    services: system::ServicesModel,
    pre: S,
    last: Option<source::CandidateModel>,
    invalidator: identity_cache::InvalidatorModel,
    st: state::StateModel,
    run: RunModel,
    call: source::SourceCall,
    post: S,
    last_after: Option<source::CandidateModel>,
    invalidator_after: identity_cache::InvalidatorModel,
    st_after: state::StateModel,
    run_after: RunModel,
    r: Result<PollStep, EngineError>,
) -> bool {
    exists|answer: source::SourceAnswer|
        {
            &&& #[trigger] S::answers(pre, call, post, answer)
            &&& heard(
                services,
                last,
                invalidator,
                st,
                run,
                answer,
                false,
                last_after,
                invalidator_after,
                st_after,
                run_after,
                r,
            )
        }
}

/// Whether one step of a poll may go so: a report of a file watch is handled if
/// there is one, else the next that is ready, else the poll is over.
pub open spec fn polls<S: ForegroundSource>(
    m: WatchState,
    services: system::ServicesModel,
    pre: S,
    last: Option<source::CandidateModel>,
    invalidator: identity_cache::InvalidatorModel,
    st: state::StateModel,
    run: RunModel,
    post: S,
    last_after: Option<source::CandidateModel>,
    invalidator_after: identity_cache::InvalidatorModel,
    st_after: state::StateModel,
    run_after: RunModel,
    r: Result<PollStep, EngineError>,
) -> bool {
    let quiet = post == pre && last_after == last && invalidator_after == invalidator && st_after
        == st;
    if run.reports.len() > 0 {
        let (wd, mask, name) = run.reports[0];
        let rest = RunModel { reports: run.reports.skip(1), ..run };
        if mask & 0x4000u32 != 0 || (m.watches.contains_key(wd) && m.watches[wd].1
            == WatchTarget::Foreground) {
            let p = if mask & 0x4000u32 != 0 {
                Seq::empty()
            } else {
                named_path(m.watches[wd].0, name)
            };
            event_heard(
                services,
                pre,
                last,
                invalidator,
                st,
                rest,
                p,
                mask,
                post,
                last_after,
                invalidator_after,
                st_after,
                run_after,
                r,
            )
        } else if m.watches.contains_key(wd) && invalidator.dirty && !run.refreshed {
            quiet && run_after == (RunModel { refreshed: true, ..rest }) && r == Ok::<
                PollStep,
                EngineError,
            >(PollStep::Refresh)
        } else {
            quiet && run_after == rest && r == Ok::<PollStep, EngineError>(PollStep::Continue)
        }
    } else if run.ready.len() > 0 {
        let event = run.ready[0];
        let rest = RunModel { ready: run.ready.skip(1), ..run };
        if m.socket_tokens.contains(event.token) {
            &&& quiet
            &&& run_after == (RunModel { sockets: run.sockets.push(event.token), ..rest })
            &&& r == Ok::<PollStep, EngineError>(PollStep::Continue)
        } else if m.priority_tokens.contains_key(event.token) {
            let p = m.priority_tokens[event.token];
            if event.error || event.priority {
                let call = if event.error {
                    source::SourceCall::StalePriority(p)
                } else {
                    source::SourceCall::Priority(p)
                };
                signal_heard(
                    services,
                    pre,
                    last,
                    invalidator,
                    st,
                    rest,
                    call,
                    post,
                    last_after,
                    invalidator_after,
                    st_after,
                    run_after,
                    r,
                )
            } else {
                quiet && run_after == rest && r == Ok::<PollStep, EngineError>(PollStep::Continue)
            }
        } else if event.token == m.inotify_token && event.readable {
            quiet && run_after == rest && r == Ok::<PollStep, EngineError>(PollStep::ReadReports)
        } else {
            quiet && run_after == rest && r == Ok::<PollStep, EngineError>(PollStep::Continue)
        }
    } else {
        quiet && run_after == run && r == Ok::<PollStep, EngineError>(PollStep::Done)
    }
}

impl PollRun {
    /// Notes what came out of the pipeline; says what the poll needs next.
    fn note(
        &mut self,
        outcome: Result<PipelineOutcome, EngineError>,
        watch_paths: bool,
        services: &mut SystemServices,
        state: &mut EngineState,
    ) -> (r: Result<PollStep, EngineError>)
        ensures
            final(services)@ == old(services)@,
            match outcome {
                Err(e) => {
                    &&& final(self)@ == old(self)@
                    &&& final(state)@ == old(state)@
                    &&& r == Err::<PollStep, EngineError>(e)
                },
                Ok(outcome) => {
                    let happened = unfolded(
                        old(services)@,
                        events::event_models(outcome.events@),
                    );
                    &&& final(self)@ == (RunModel {
                        emitted: old(self)@.emitted + happened,
                        ..old(self)@
                    })
                    &&& final(state)@ == old(state)@.after_all(happened)
                    &&& r == Ok::<PollStep, EngineError>(
                        PollStep::Sync {
                            watch_paths,
                            check_packages_xml: outcome.check_packages_xml,
                        },
                    )
                },
            },
    {
        match outcome {
            Err(e) => Err(e),
            Ok(outcome) => {
                let check_packages_xml = outcome.check_packages_xml;
                apply_events(outcome.events, services, state, &mut self.emitted);
                Ok(PollStep::Sync { watch_paths, check_packages_xml })
            },
        }
    }
}

impl<S: ForegroundSource> EngineWatch<S> {
    /// Takes a poll one step further; says what it needs next.
    pub fn poll_step(
        &mut self,
        run: &mut PollRun,
        invalidator: &mut IdentityCacheInvalidator,
        services: &mut SystemServices,
        state: &mut EngineState,
    ) -> (r: Result<PollStep, EngineError>)
        requires
            old(self).asks().ready(),
        ensures
            final(self).asks().ready(),
            final(self)@ == old(self)@,
            final(services)@ == old(services)@,
            polls(
                old(self)@,
                old(services)@,
                old(self).asks(),
                old(self).last(),
                old(invalidator)@,
                old(state)@,
                old(run)@,
                final(self).asks(),
                final(self).last(),
                final(invalidator)@,
                final(state)@,
                final(run)@,
                r,
            ),
    {
        if run.reports.len() > 0 {
            self.handle_report(run, invalidator, services, state)
        } else if run.ready.len() > 0 {
            self.handle_ready(run, invalidator, services, state)
        } else {
            Ok(PollStep::Done)
        }
    }

    /// Passes an event on to the source, and notes what comes out of it.
    fn hear_event(
        &mut self,
        event_path: &EnginePath,
        mask: u32,
        run: &mut PollRun,
        invalidator: &mut IdentityCacheInvalidator,
        services: &mut SystemServices,
        state: &mut EngineState,
    ) -> (r: Result<PollStep, EngineError>)
        requires
            old(self).asks().ready(),
        ensures
            final(self).asks().ready(),
            final(self)@ == old(self)@,
            final(services)@ == old(services)@,
            event_heard(
                old(services)@,
                old(self).asks(),
                old(self).last(),
                old(invalidator)@,
                old(state)@,
                old(run)@,
                event_path@,
                mask,
                final(self).asks(),
                final(self).last(),
                final(invalidator)@,
                final(state)@,
                final(run)@,
                r,
            ),
    {
        let outcome = self.foreground.handle_fs_event_changed(event_path, mask, invalidator);
        let ghost answer = choose|answer: source::SourceAnswer|
            {
                &&& #[trigger] manager::answers_event(
                    manager::EVENT_RETRY_ATTEMPTS as nat,
                    old(self).asks(),
                    event_path@,
                    mask,
                    self.asks(),
                    answer,
                )
                &&& manager::piped(
                    old(self).last(),
                    old(invalidator)@,
                    answer,
                    self.last(),
                    invalidator@,
                    outcome,
                )
            };
        let r = run.note(outcome, true, services, state);
        assert(unfolded(services@, Seq::empty()) == Seq::<events::EventModel>::empty());
        assert(heard(
            services@,
            old(self).last(),
            old(invalidator)@,
            old(state)@,
            old(run)@,
            answer,
            true,
            self.last(),
            invalidator@,
            state@,
            run@,
            r,
        ));
        r
    }

    /// Passes the signal of a priority descriptor on to the source, and notes
    /// what comes out of it.
    fn hear_signal(
        &mut self,
        event_path: &EnginePath,
        stale: bool,
        run: &mut PollRun,
        invalidator: &mut IdentityCacheInvalidator,
        services: &mut SystemServices,
        state: &mut EngineState,
    ) -> (r: Result<PollStep, EngineError>)
        requires
            old(self).asks().ready(),
        ensures
            final(self).asks().ready(),
            final(self)@ == old(self)@,
            final(services)@ == old(services)@,
            signal_heard(
                old(services)@,
                old(self).asks(),
                old(self).last(),
                old(invalidator)@,
                old(state)@,
                old(run)@,
                if stale {
                    source::SourceCall::StalePriority(event_path@)
                } else {
                    source::SourceCall::Priority(event_path@)
                },
                final(self).asks(),
                final(self).last(),
                final(invalidator)@,
                final(state)@,
                final(run)@,
                r,
            ),
    {
        let ghost call = if stale {
            source::SourceCall::StalePriority(event_path@)
        } else {
            source::SourceCall::Priority(event_path@)
        };
        let outcome = if stale {
            self.foreground.handle_stale_priority_event_changed(event_path, invalidator)
        } else {
            self.foreground.handle_priority_event_changed(event_path, invalidator)
        };
        let ghost answer = choose|answer: source::SourceAnswer|
            {
                &&& #[trigger] S::answers(old(self).asks(), call, self.asks(), answer)
                &&& manager::piped(
                    old(self).last(),
                    old(invalidator)@,
                    answer,
                    self.last(),
                    invalidator@,
                    outcome,
                )
            };
        let r = run.note(outcome, false, services, state);
        assert(unfolded(services@, Seq::empty()) == Seq::<events::EventModel>::empty());
        assert(heard(
            services@,
            old(self).last(),
            old(invalidator)@,
            old(state)@,
            old(run)@,
            answer,
            false,
            self.last(),
            invalidator@,
            state@,
            run@,
            r,
        ));
        r
    }

    fn handle_report(
        &mut self,
        run: &mut PollRun,
        invalidator: &mut IdentityCacheInvalidator,
        services: &mut SystemServices,
        state: &mut EngineState,
    ) -> (r: Result<PollStep, EngineError>)
        requires
            old(self).asks().ready(),
            old(run)@.reports.len() > 0,
        ensures
            final(self).asks().ready(),
            final(self)@ == old(self)@,
            final(services)@ == old(services)@,
            polls(
                old(self)@,
                old(services)@,
                old(self).asks(),
                old(self).last(),
                old(invalidator)@,
                old(state)@,
                old(run)@,
                final(self).asks(),
                final(self).last(),
                final(invalidator)@,
                final(state)@,
                final(run)@,
                r,
            ),
    {
        let report = run.reports.remove(0);
        proof {
            assert(old(run)@.reports[0] == (report.wd, report.mask, name_model(report.name)));
            assert(run@.reports =~= old(run)@.reports.skip(1));
            assert(run@ == (RunModel { reports: old(run)@.reports.skip(1), ..old(run)@ }));
        }
        if report.mask & IN_Q_OVERFLOW_MASK != 0 {
            let nowhere = EnginePath::from_bytes(Vec::new());
            assert(nowhere@ =~= Seq::<u8>::empty());
            return self.hear_event(&nowhere, report.mask, run, invalidator, services, state);
        }
        let (watched, target) = match self.watches.get(&report.wd) {
            Some(entry) => (entry.path.clone(), entry.target),
            None => {
                return Ok(PollStep::Continue);
            },
        };
        let name = match &report.name {
            Some(name) => Some(name.as_slice()),
            None => None,
        };
        let event_path = named_event_path(watched, name);
        match target {
            WatchTarget::Foreground => self.hear_event(
                &event_path,
                report.mask,
                run,
                invalidator,
                services,
                state,
            ),
            WatchTarget::IdentityCacheHint => {
                invalidator.mark_event(&event_path);
                if invalidator.should_refresh_now() && !run.refreshed {
                    run.refreshed = true;
                    Ok(PollStep::Refresh)
                } else {
                    Ok(PollStep::Continue)
                }
            },
        }
    }

    fn handle_ready(
        &mut self,
        run: &mut PollRun,
        invalidator: &mut IdentityCacheInvalidator,
        services: &mut SystemServices,
        state: &mut EngineState,
    ) -> (r: Result<PollStep, EngineError>)
        requires
            old(self).asks().ready(),
            old(run)@.reports.len() == 0,
            old(run)@.ready.len() > 0,
        ensures
            final(self).asks().ready(),
            final(self)@ == old(self)@,
            final(services)@ == old(services)@,
            polls(
                old(self)@,
                old(services)@,
                old(self).asks(),
                old(self).last(),
                old(invalidator)@,
                old(state)@,
                old(run)@,
                final(self).asks(),
                final(self).last(),
                final(invalidator)@,
                final(state)@,
                final(run)@,
                r,
            ),
    {
        let event = run.ready.remove(0);
        proof {
            assert(old(run)@.ready[0] == event);
            assert(run@.ready =~= old(run)@.ready.skip(1));
            assert(run@ == (RunModel { ready: old(run)@.ready.skip(1), ..old(run)@ }));
        }
        if self.socket_tokens.contains(&event.token) {
            run.socket_tokens.push(event.token);
            return Ok(PollStep::Continue);
        }
        let registered = match self.foreground_priority_tokens.get(&event.token) {
            Some(p) => Some(p.clone()),
            None => None,
        };
        match registered {
            Some(p) => {
                if event.error || event.priority {
                    self.hear_signal(&p, event.error, run, invalidator, services, state)
                } else {
                    Ok(PollStep::Continue)
                }
            },
            None => {
                if event.token != self.inotify_token || !event.readable {
                    Ok(PollStep::Continue)
                } else {
                    Ok(PollStep::ReadReports)
                }
            },
        }
    }

    /// What is in the foreground now, new or not.
    pub fn poll_current_foreground(&mut self) -> (r: Result<
        Option<ForegroundCandidate>,
        EngineError,
    >)
        requires
            old(self).asks().ready(),
        ensures
            final(self).asks().ready(),
            final(self)@ == old(self)@,
            final(self).last() == old(self).last(),
            S::answers(old(self).asks(), source::SourceCall::Poll, final(self).asks(), r),
    {
        self.foreground.manager_mut().poll_current()
    }

    /// Takes the token of a listening socket.
    pub fn register_socket_listener(&mut self, token: u64)
        ensures
            final(self)@ == (WatchState {
                socket_tokens: old(self)@.socket_tokens.insert(token),
                ..old(self)@
            }),
            final(self).asks() == old(self).asks(),
            final(self).last() == old(self).last(),
    {
        let _ = self.socket_tokens.insert(token);
    }

    /// Takes the token of a connected socket.
    pub fn register_socket_stream(&mut self, token: u64)
        ensures
            final(self)@ == (WatchState {
                socket_tokens: old(self)@.socket_tokens.insert(token),
                ..old(self)@
            }),
            final(self).asks() == old(self).asks(),
            final(self).last() == old(self).last(),
    {
        let _ = self.socket_tokens.insert(token);
    }

    /// Forgets the token of a connected socket; says whether there is a
    /// registration to take out.
    pub fn unregister_socket_stream(&mut self, token: u64) -> (r: bool)
        ensures
            r == old(self)@.socket_tokens.contains(token),
            final(self)@ == (WatchState {
                socket_tokens: old(self)@.socket_tokens.remove(token),
                ..old(self)@
            }),
            final(self).asks() == old(self).asks(),
            final(self).last() == old(self).last(),
    {
        self.socket_tokens.remove(&token)
    }

    /// How many sockets are watched.
    pub fn socket_token_count(&self) -> (r: usize)
        ensures
            r == self@.socket_tokens.len(),
    {
        self.socket_tokens.len()
    }

    /// How many priority descriptors are registered.
    pub fn foreground_priority_token_count(&self) -> (r: usize)
        ensures
            r == self@.priority_tokens.len(),
    {
        self.foreground_priority_tokens.len()
    }

    /// The keys of the registered priority paths.
    pub fn foreground_priority_registration_keys(&self) -> (r: &OrdMap<EnginePath, u64>)
        ensures
            r@ == self@.priority_keys,
    {
        &self.foreground_priority_keys
    }

    /// The foreground source, to be changed.
    pub fn foreground_source_mut(&mut self) -> (r: &mut S)
        ensures
            *r == old(self).asks(),
            final(self).asks() == *final(r),
            final(self)@ == old(self)@,
            final(self).last() == old(self).last(),
    {
        self.foreground.source_mut()
    }

    /// The watched foreground paths.
    pub fn foreground_watch_paths(&self) -> (r: &PathSet)
        ensures
            r@ == self@.foreground_paths,
    {
        &self.foreground_paths
    }

    /// The registered priority paths.
    pub fn foreground_priority_paths(&self) -> (r: &PathSet)
        ensures
            r@ == self@.priority_paths,
    {
        &self.foreground_priority_paths
    }

    /// The watched paths of the identity cache.
    pub fn identity_watch_paths(&self) -> (r: &PathSet)
        ensures
            r@ == self@.identity_paths,
    {
        &self.identity_paths
    }

    /// What could not be watched.
    pub fn registration_failures(&self) -> (r: &Vec<WatchRegistrationFailure>)
        ensures
            failure_models(r@) == self@.failures,
    {
        &self.registration_failures
    }
}

// ---------------------------------------------------------------------------
// Laws
// ---------------------------------------------------------------------------

/// What a poll notes is what the state went through: after every step the state
/// is the state before it after the events that were noted in it.
pub proof fn law_state_follows_noted_events<S: ForegroundSource>(
    m: WatchState,
    services: system::ServicesModel,
    pre: S,
    last: Option<source::CandidateModel>,
    invalidator: identity_cache::InvalidatorModel,
    st: state::StateModel,
    run: RunModel,
    post: S,
    last_after: Option<source::CandidateModel>,
    invalidator_after: identity_cache::InvalidatorModel,
    st_after: state::StateModel,
    run_after: RunModel,
    r: Result<PollStep, EngineError>,
)
    requires
        polls(
            m,
            services,
            pre,
            last,
            invalidator,
            st,
            run,
            post,
            last_after,
            invalidator_after,
            st_after,
            run_after,
            r,
        ),
    ensures
        run.emitted.len() <= run_after.emitted.len(),
        run_after.emitted.take(run.emitted.len() as int) == run.emitted,
        st_after == st.after_all(run_after.emitted.skip(run.emitted.len() as int)),
{
    let n = run.emitted.len() as int;
    if run_after.emitted == run.emitted && st_after == st {
        assert(run_after.emitted.skip(n) == Seq::<events::EventModel>::empty());
        assert(run_after.emitted.take(n) == run.emitted);
    } else {
        let happened = run_after.emitted.skip(n);
        assert(exists|h: Seq<events::EventModel>|
            run_after.emitted == #[trigger] (run.emitted + h) && st_after == st.after_all(h)) by {
            if run.reports.len() > 0 {
                let (wd, mask, name) = run.reports[0];
                let rest = RunModel { reports: run.reports.skip(1), ..run };
                let p = if mask & 0x4000u32 != 0 {
                    Seq::empty()
                } else {
                    named_path(m.watches[wd].0, name)
                };
                let answer = choose|answer: source::SourceAnswer|
                    {
                        &&& #[trigger] manager::answers_event(
                            manager::EVENT_RETRY_ATTEMPTS as nat,
                            pre,
                            p,
                            mask,
                            post,
                            answer,
                        )
                        &&& heard(
                            services,
                            last,
                            invalidator,
                            st,
                            rest,
                            answer,
                            true,
                            last_after,
                            invalidator_after,
                            st_after,
                            run_after,
                            r,
                        )
                    };
                lemma_heard_follows(
                    services,
                    last,
                    invalidator,
                    st,
                    rest,
                    answer,
                    true,
                    last_after,
                    invalidator_after,
                    st_after,
                    run_after,
                    r,
                );
            } else {
                let event = run.ready[0];
                let rest = RunModel { ready: run.ready.skip(1), ..run };
                let call = if event.error {
                    source::SourceCall::StalePriority(m.priority_tokens[event.token])
                } else {
                    source::SourceCall::Priority(m.priority_tokens[event.token])
                };
                let answer = choose|answer: source::SourceAnswer|
                    {
                        &&& #[trigger] S::answers(pre, call, post, answer)
                        &&& heard(
                            services,
                            last,
                            invalidator,
                            st,
                            rest,
                            answer,
                            false,
                            last_after,
                            invalidator_after,
                            st_after,
                            run_after,
                            r,
                        )
                    };
                lemma_heard_follows(
                    services,
                    last,
                    invalidator,
                    st,
                    rest,
                    answer,
                    false,
                    last_after,
                    invalidator_after,
                    st_after,
                    run_after,
                    r,
                );
            }
        }
        let h = choose|h: Seq<events::EventModel>|
            run_after.emitted == #[trigger] (run.emitted + h) && st_after == st.after_all(h);
        assert((run.emitted + h).skip(n) == h);
        assert((run.emitted + h).take(n) == run.emitted);
    }
}

proof fn lemma_heard_follows(
    services: system::ServicesModel,
    last: Option<source::CandidateModel>,
    invalidator: identity_cache::InvalidatorModel,
    st: state::StateModel,
    run: RunModel,
    answer: source::SourceAnswer,
    watch_paths: bool,
    last_after: Option<source::CandidateModel>,
    invalidator_after: identity_cache::InvalidatorModel,
    st_after: state::StateModel,
    run_after: RunModel,
    r: Result<PollStep, EngineError>,
)
    requires
        heard(
            services,
            last,
            invalidator,
            st,
            run,
            answer,
            watch_paths,
            last_after,
            invalidator_after,
            st_after,
            run_after,
            r,
        ),
    ensures
        exists|h: Seq<events::EventModel>|
            run_after.emitted == #[trigger] (run.emitted + h) && st_after == st.after_all(h),
{
    if answer is Err {
        let none = Seq::<events::EventModel>::empty();
        assert(run.emitted + none == run.emitted);
        assert(st.after_all(none) == st);
    }
}

/// Every step but the last handles exactly one report or one thing that is ready,
/// reports first; and a poll asks for at most one refresh of the identity cache.
pub proof fn law_steps_use_up_what_is_ready<S: ForegroundSource>(
    m: WatchState,
    services: system::ServicesModel,
    pre: S,
    last: Option<source::CandidateModel>,
    invalidator: identity_cache::InvalidatorModel,
    st: state::StateModel,
    run: RunModel,
    post: S,
    last_after: Option<source::CandidateModel>,
    invalidator_after: identity_cache::InvalidatorModel,
    st_after: state::StateModel,
    run_after: RunModel,
    r: Result<PollStep, EngineError>,
)
    requires
        polls(
            m,
            services,
            pre,
            last,
            invalidator,
            st,
            run,
            post,
            last_after,
            invalidator_after,
            st_after,
            run_after,
            r,
        ),
    ensures
        run.reports.len() > 0 ==> run_after.reports == run.reports.skip(1) && run_after.ready
            == run.ready,
        run.reports.len() == 0 && run.ready.len() > 0 ==> run_after.reports == run.reports
            && run_after.ready == run.ready.skip(1),
        r == Ok::<PollStep, EngineError>(PollStep::Done) <==> run.reports.len() == 0
            && run.ready.len() == 0,
        r == Ok::<PollStep, EngineError>(PollStep::Refresh) ==> !run.refreshed
            && run_after.refreshed,
        run.refreshed ==> run_after.refreshed,
{
}

/// The tokens of sockets among what is ready, in order.
pub open spec fn ready_sockets(ready: Seq<ReadyEvent>, sockets: Set<u64>) -> Seq<u64>
    decreases ready.len(),
{
    if ready.len() == 0 {
        Seq::empty()
    } else if sockets.contains(ready[0].token) {
        seq![ready[0].token] + ready_sockets(ready.skip(1), sockets)
    } else {
        ready_sockets(ready.skip(1), sockets)
    }
}

/// A poll gives the sockets that are ready in the order in which they are: what it
/// has noted and what it has still to note of them together stays the same, so
/// that at its end it has noted them all.
pub proof fn law_sockets_come_out_in_order<S: ForegroundSource>(
    m: WatchState,
    services: system::ServicesModel,
    pre: S,
    last: Option<source::CandidateModel>,
    invalidator: identity_cache::InvalidatorModel,
    st: state::StateModel,
    run: RunModel,
    post: S,
    last_after: Option<source::CandidateModel>,
    invalidator_after: identity_cache::InvalidatorModel,
    st_after: state::StateModel,
    run_after: RunModel,
    r: Result<PollStep, EngineError>,
)
    requires
        polls(
            m,
            services,
            pre,
            last,
            invalidator,
            st,
            run,
            post,
            last_after,
            invalidator_after,
            st_after,
            run_after,
            r,
        ),
    ensures
        run_after.sockets + ready_sockets(run_after.ready, m.socket_tokens) == run.sockets
            + ready_sockets(run.ready, m.socket_tokens),
        r == Ok::<PollStep, EngineError>(PollStep::Done) ==> ready_sockets(
            run_after.ready,
            m.socket_tokens,
        ) == Seq::<u64>::empty(),
{
    if run.reports.len() == 0 && run.ready.len() > 0 && m.socket_tokens.contains(
        run.ready[0].token,
    ) {
        assert(run.sockets.push(run.ready[0].token) + ready_sockets(
            run.ready.skip(1),
            m.socket_tokens,
        ) =~= run.sockets + (seq![run.ready[0].token] + ready_sockets(
            run.ready.skip(1),
            m.socket_tokens,
        )));
    }
}

/// Throughout a poll the state is the one at its start after all that was noted.
pub proof fn law_state_is_start_after_events<S: ForegroundSource>(
    m: WatchState,
    services: system::ServicesModel,
    pre: S,
    last: Option<source::CandidateModel>,
    invalidator: identity_cache::InvalidatorModel,
    st: state::StateModel,
    run: RunModel,
    post: S,
    last_after: Option<source::CandidateModel>,
    invalidator_after: identity_cache::InvalidatorModel,
    st_after: state::StateModel,
    run_after: RunModel,
    r: Result<PollStep, EngineError>,
    start: state::StateModel,
)
    requires
        polls(
            m,
            services,
            pre,
            last,
            invalidator,
            st,
            run,
            post,
            last_after,
            invalidator_after,
            st_after,
            run_after,
            r,
        ),
        st == start.after_all(run.emitted),
    ensures
        st_after == start.after_all(run_after.emitted),
{
    law_state_follows_noted_events(
        m,
        services,
        pre,
        last,
        invalidator,
        st,
        run,
        post,
        last_after,
        invalidator_after,
        st_after,
        run_after,
        r,
    );
    let n = run.emitted.len() as int;
    lemma_after_all_concat(start, run.emitted, run_after.emitted.skip(n));
    assert(run_after.emitted.take(n) + run_after.emitted.skip(n) =~= run_after.emitted);
}

/// A new candidate is noted together with the identity behind it, if it has a
/// process or a UID: nothing else happens because of it.
pub proof fn law_candidate_is_identified(
    services: system::ServicesModel,
    candidate: source::CandidateModel,
)
    ensures
        unfolded(services, seq![events::EventModel::ForegroundCandidateChanged(candidate)]) == {
            let event = events::EventModel::ForegroundCandidateChanged(candidate);
            match crate::services::identity::identity_of(
                services.cache,
                candidate.pid,
                candidate.uid,
            ) {
                Some(identity) => seq![event, events::EventModel::IdentityResolved(identity)],
                None => seq![event],
            }
        },
{
    let event = events::EventModel::ForegroundCandidateChanged(candidate);
    let one = seq![event];
    assert(one.drop_last() == Seq::<events::EventModel>::empty());
    assert(unfolded(services, one) == unfolded(services, Seq::empty()) + with_consequences(
        services,
        event,
    ));
    let actions = dispatch::dispatched(event);
    if actions.len() > 0 {
        assert(actions.drop_last() == Seq::<dispatch::ActionModel>::empty());
        assert(happenings(services, actions.drop_last()) == Seq::<events::EventModel>::empty());
    }
    assert(unfolded(services, one) =~= match crate::services::identity::identity_of(
        services.cache,
        candidate.pid,
        candidate.uid,
    ) {
        Some(identity) => seq![event, events::EventModel::IdentityResolved(identity)],
        None => seq![event],
    });
}

} // verus!

//! The runtime: configuration, the identity cache and its invalidation.
use vstd::prelude::*;

use crate::config::{EngineConfig, IdentityCacheProviderMode};
use crate::error::EngineError;
use crate::events::EngineEvent;
use crate::exec::{ExecOutput, ExecRunner, ExitStatus, SpawnRequest};
use crate::path::EnginePath;
use crate::services::foreground::cache::{
    CmdPackageListProvider, PackageProviderSource, UidPackageCache,
};
use crate::services::identity_cache::{
    IdentityCacheDirtyState, IdentityCacheFingerprint, IdentityCacheInvalidator,
};
use crate::services::system::SystemServices;
use crate::state::{EngineState, Reducer};
use crate::{
    config, events, exec as process, services::foreground::cache, services::foreground::source,
    services::identity_cache, services::system, state,
};

verus! {

/// What became of loading the identity cache.
#[derive(Debug, PartialEq, Eq)]
pub struct IdentityCacheWarmupState {
    pub source: Option<PackageProviderSource>,
    pub coherent: bool,
    pub count: usize,
    pub last_cache_error: Option<String>,
}

impl View for IdentityCacheWarmupState {
    type V = state::CacheStateModel;

    open spec fn view(&self) -> state::CacheStateModel {
        state::CacheStateModel {
            source: self.source,
            coherent: self.coherent,
            count: self.count,
            last_cache_error: source::text_model(self.last_cache_error),
        }
    }
}

impl Clone for IdentityCacheWarmupState {
    fn clone(&self) -> (r: Self)
        ensures
            r@ == self@,
    {
        IdentityCacheWarmupState {
            source: self.source,
            coherent: self.coherent,
            count: self.count,
            last_cache_error: source::clone_text(&self.last_cache_error),
        }
    }
}

impl Default for IdentityCacheWarmupState {
    fn default() -> (r: Self)
        ensures
            r@ == state::CacheStateModel::blank(),
    {
        IdentityCacheWarmupState {
            source: None,
            coherent: false,
            count: 0,
            last_cache_error: None,
        }
    }
}

/// What loading the identity cache takes.
#[derive(Debug, PartialEq, Eq)]
pub enum IdentityCacheLoad {
    /// Nothing: there is no source.
    Disabled,
    /// This process, run to its end.
    Run(SpawnRequest),
    /// The process cannot be asked for; the load fails with this error.
    Refused(EngineError),
}

/// Runtime coordinator. Processes and polling are the caller's: the runtime says
/// what to run and takes what came of it.
#[derive(Debug)]
pub struct EngineRuntime {
    config: EngineConfig,
    started: bool,
    identity_cache: UidPackageCache,
    identity_cache_state: IdentityCacheWarmupState,
    identity_cache_invalidator: IdentityCacheInvalidator,
}

/// The model of the runtime.
pub struct RuntimeModel {
    pub config: config::EngineConfigModel,
    pub started: bool,
    pub cache: cache::CacheModel,
    pub cache_state: state::CacheStateModel,
    pub invalidator: identity_cache::InvalidatorModel,
}

impl View for EngineRuntime {
    type V = RuntimeModel;

    closed spec fn view(&self) -> RuntimeModel {
        RuntimeModel {
            config: self.config@,
            started: self.started,
            cache: self.identity_cache@,
            cache_state: self.identity_cache_state@,
            invalidator: self.identity_cache_invalidator@,
        }
    }
}

/// The arguments of the package list command.
pub open spec fn load_argv(config: config::EngineConfigModel) -> Seq<Seq<char>> {
    cache::package_list_argv(config.identity_cache.cmd_path, config.identity_cache.user_id)
}

/// Whether a load is what a configuration asks for.
pub open spec fn load_planned(config: config::EngineConfigModel, load: IdentityCacheLoad) -> bool {
    match config.identity_cache.provider_mode {
        IdentityCacheProviderMode::Disabled => load is Disabled,
        IdentityCacheProviderMode::CmdPackageList => match load {
            IdentityCacheLoad::Run(request) => process::asked(
                config.execution,
                load_argv(config),
                true,
                Ok(request),
            ),
            IdentityCacheLoad::Refused(e) => process::asked(
                config.execution,
                load_argv(config),
                true,
                Err(e),
            ),
            IdentityCacheLoad::Disabled => false,
        },
    }
}

/// Whether a snapshot is what the output of the package list command states, with
/// the usual number of entries that it needs.
pub open spec fn snapshot_of(output: process::OutputModel, snapshot: cache::SnapshotModel) -> bool {
    &&& cache::in_order(snapshot.entries)
    &&& snapshot.entries.to_multiset() == (if output.status == Some(ExitStatus::Exited(0)) {
        cache::listed(output.stdout)
    } else {
        Seq::empty()
    }).to_multiset()
    &&& snapshot.source == PackageProviderSource::CmdPackageList
    &&& snapshot.coherent == cache::credible(snapshot.entries, 5)
}

/// Whether a cache and its state are what a load gives whose process left the
/// given output.
pub open spec fn loaded(
    config: config::EngineConfigModel,
    output: process::OutputModel,
    packages: cache::CacheModel,
    warmup: state::CacheStateModel,
) -> bool {
    match config.identity_cache.provider_mode {
        IdentityCacheProviderMode::Disabled => packages == cache::CacheModel::blank() && warmup
            == state::CacheStateModel::blank(),
        IdentityCacheProviderMode::CmdPackageList => exists|snapshot: cache::SnapshotModel|
            {
                &&& #[trigger] snapshot_of(output, snapshot)
                &&& cache::holds_snapshot(packages, snapshot)
                &&& warmup == (state::CacheStateModel {
                    source: Some(snapshot.source),
                    coherent: snapshot.coherent,
                    count: snapshot.entries.len() as usize,
                    last_cache_error: None,
                })
                &&& snapshot.entries.len() <= usize::MAX
            },
    }
}

impl RuntimeModel {
    /// Whether a load fails: there is a source, and its process could not run.
    pub open spec fn load_fails(self, run: Result<ExecOutput, EngineError>) -> bool {
        self.config.identity_cache.provider_mode == IdentityCacheProviderMode::CmdPackageList
            && run is Err
    }

    /// Whether the runtime is what it becomes when the identity cache is loaded
    /// anew: a load that fails leaves an empty cache, the error, and the cache
    /// out of date if it was.
    pub open spec fn refreshed(
        self,
        run: Result<ExecOutput, EngineError>,
        after: RuntimeModel,
    ) -> bool {
        &&& after.config == self.config
        &&& after.started == self.started
        &&& if self.load_fails(run) {
            &&& after.cache == cache::CacheModel::blank()
            &&& after.cache_state == state::CacheStateModel::failed(run->Err_0@.text())
            &&& after.invalidator == self.invalidator
        } else {
            &&& self.config.identity_cache.provider_mode == IdentityCacheProviderMode::Disabled
                ==> after.cache == cache::CacheModel::blank() && after.cache_state
                == state::CacheStateModel::blank()
            &&& run matches Ok(output) ==> loaded(
                self.config,
                output@,
                after.cache,
                after.cache_state,
            )
            &&& after.invalidator == (identity_cache::InvalidatorModel {
                dirty: false,
                ..self.invalidator
            })
        }
    }

    /// The event that tells what became of the identity cache.
    pub open spec fn cache_event(self) -> Option<events::EventModel> {
        match self.cache_state.source {
            Some(source) => Some(
                events::EventModel::IdentityCacheWarmed {
                    source,
                    coherent: self.cache_state.coherent,
                    count: self.cache_state.count,
                },
            ),
            None => match self.cache_state.last_cache_error {
                Some(error) => Some(events::EventModel::IdentityCacheWarmupFailed { error }),
                None => None,
            },
        }
    }

    /// The services of the runtime: with the identity cache where one was loaded.
    pub open spec fn services(self) -> system::ServicesModel {
        system::ServicesModel {
            settings: self.config.execution,
            cache: if self.cache_state.source is Some {
                Some(self.cache)
            } else {
                None
            },
        }
    }
}

/// The events of a step: those of the poll, then what became of the cache.
pub open spec fn with_event(
    polled: Seq<events::EventModel>,
    more: Option<events::EventModel>,
) -> Seq<events::EventModel> {
    match more {
        Some(event) => polled.push(event),
        None => polled,
    }
}

/// The state after an event, if there is one.
pub open spec fn state_with_event(
    before: state::StateModel,
    more: Option<events::EventModel>,
) -> state::StateModel {
    match more {
        Some(event) => before.after(event),
        None => before,
    }
}

impl EngineRuntime {
    /// A runtime that was not started, with what a first look at the package
    /// registry file found.
    pub fn new(
        config: EngineConfig,
        first: Result<IdentityCacheFingerprint, EngineError>,
    ) -> (r: Self)
        ensures
            r@.config == config@,
            !r@.started,
            r@.cache == cache::CacheModel::blank(),
            r@.cache_state == state::CacheStateModel::blank(),
            r@.invalidator == (identity_cache::InvalidatorModel {
                config: config@.identity_cache_invalidation,
                foreground_count: 0,
                fingerprint: match first {
                    Ok(fingerprint) if config@.identity_cache_invalidation.enabled() => Some(
                        fingerprint,
                    ),
                    _ => None,
                },
                dirty: false,
            }),
    {
        let identity_cache_invalidator = IdentityCacheInvalidator::new(
            config.identity_cache_invalidation.clone(),
            first,
        );
        EngineRuntime {
            config,
            started: false,
            identity_cache: UidPackageCache::default(),
            identity_cache_state: IdentityCacheWarmupState::default(),
            identity_cache_invalidator,
        }
    }

    /// What loading the identity cache takes.
    pub fn plan_identity_cache_load(&self) -> (r: IdentityCacheLoad)
        ensures
            load_planned(self@.config, r),
    {
        match self.config.identity_cache.provider_mode {
            IdentityCacheProviderMode::Disabled => IdentityCacheLoad::Disabled,
            IdentityCacheProviderMode::CmdPackageList => {
                match self.package_list().load_request() {
                    Ok(request) => IdentityCacheLoad::Run(request),
                    Err(e) => IdentityCacheLoad::Refused(e),
                }
            },
        }
    }

    fn package_list(&self) -> (r: CmdPackageListProvider)
        ensures
            r.settings() == self@.config.execution,
            r.command() == self@.config.identity_cache.cmd_path,
            r.user_id() == self@.config.identity_cache.user_id,
            r.min_entries() == 5,
    {
        CmdPackageListProvider::new(
            self.exec_runner(),
            self.config.identity_cache.cmd_path.clone(),
            self.config.identity_cache.user_id,
        )
    }

    fn load_identity_cache(&self, run: Result<ExecOutput, EngineError>) -> (r: Result<
        (UidPackageCache, IdentityCacheWarmupState),
        EngineError,
    >)
        ensures
            match r {
                Ok((packages, warmup)) => {
                    &&& !self@.load_fails(run)
                    &&& self@.config.identity_cache.provider_mode
                        == IdentityCacheProviderMode::Disabled ==> packages@
                        == cache::CacheModel::blank() && warmup@ == state::CacheStateModel::blank()
                    &&& run matches Ok(output) ==> loaded(
                        self@.config,
                        output@,
                        packages@,
                        warmup@,
                    )
                },
                Err(e) => self@.load_fails(run) && run == Err::<ExecOutput, EngineError>(e),
            },
    {
        match self.config.identity_cache.provider_mode {
            IdentityCacheProviderMode::Disabled => Ok(
                (UidPackageCache::default(), IdentityCacheWarmupState::default()),
            ),
            IdentityCacheProviderMode::CmdPackageList => {
                let snapshot = match self.package_list().load(run) {
                    Ok(snapshot) => snapshot,
                    Err(e) => {
                        return Err(e);
                    },
                };
                let ghost model = snapshot@;
                let count: usize = snapshot.entries.len();
                let warmup = IdentityCacheWarmupState {
                    source: Some(snapshot.source),
                    coherent: snapshot.coherent,
                    count,
                    last_cache_error: None,
                };
                let mut packages = UidPackageCache::default();
                match packages.update_from_snapshot(snapshot) {
                    Ok(()) => {
                        assert(snapshot_of(run->Ok_0@, model));
                        assert(loaded(self@.config, run->Ok_0@, packages@, warmup@));
                        Ok((packages, warmup))
                    },
                    Err(e) => Err(e),
                }
            },
        }
    }

    /// Starts the runtime with what the load of the identity cache left. A load
    /// that fails does not keep the runtime from starting.
    pub fn start(&mut self, run: Result<ExecOutput, EngineError>) -> (r: Result<(), EngineError>)
        ensures
            match r {
                Ok(_) => {
                    &&& !old(self)@.started
                    &&& old(self)@.config.valid()
                    &&& final(self)@.started
                    &&& old(self)@.refreshed(
                        run,
                        (RuntimeModel { started: false, ..final(self)@ }),
                    )
                },
                Err(e) => {
                    &&& final(self)@ == old(self)@
                    &&& if old(self)@.started {
                        e == EngineError::AlreadyStarted
                    } else {
                        !old(self)@.config.valid() && e@ == old(self)@.config.fault()
                    }
                },
            },
    {
        match self.can_start() {
            Ok(()) => {},
            Err(e) => {
                return Err(e);
            },
        }
        self.refresh_identity_cache(run);
        self.started = true;
        Ok(())
    }

    /// Whether the runtime can be started, and if not, why.
    pub fn can_start(&self) -> (r: Result<(), EngineError>)
        ensures
            match r {
                Ok(_) => !self@.started && self@.config.valid(),
                Err(e) => if self@.started {
                    e == EngineError::AlreadyStarted
                } else {
                    !self@.config.valid() && e@ == self@.config.fault()
                },
            },
    {
        if self.started {
            return Err(EngineError::AlreadyStarted);
        }
        self.config.validate()
    }

    /// The services for the poll of a step.
    pub fn begin_step(&self) -> (r: Result<SystemServices, EngineError>)
        ensures
            match r {
                Ok(services) => self@.started && services@ == self@.services(),
                Err(e) => !self@.started && e == EngineError::NotStarted,
            },
    {
        if !self.started {
            return Err(EngineError::NotStarted);
        }
        Ok(self.system_services())
    }

    /// Ends a step with what the poll gave. If the poll asked for it, the
    /// identity cache is loaded anew with what the load left, and its event
    /// follows those of the poll.
    pub fn step(
        &mut self,
        polled: Result<Vec<EngineEvent>, EngineError>,
        refresh: Option<Result<ExecOutput, EngineError>>,
        state: &mut EngineState,
    ) -> (r: Result<Vec<EngineEvent>, EngineError>)
        ensures
            match r {
                Ok(emitted) => {
                    &&& old(self)@.started
                    &&& polled is Ok
                    &&& match refresh {
                        Some(run) => {
                            &&& old(self)@.refreshed(run, final(self)@)
                            &&& events::event_models(emitted@) == with_event(
                                events::event_models(polled->Ok_0@),
                                final(self)@.cache_event(),
                            )
                            &&& final(state)@ == state_with_event(
                                old(state)@,
                                final(self)@.cache_event(),
                            )
                        },
                        None => {
                            &&& final(self)@ == old(self)@
                            &&& final(state)@ == old(state)@
                            &&& emitted@ == polled->Ok_0@
                        },
                    }
                },
                Err(e) => {
                    &&& final(self)@ == old(self)@
                    &&& final(state)@ == old(state)@
                    &&& if old(self)@.started {
                        polled == Err::<Vec<EngineEvent>, EngineError>(e)
                    } else {
                        e == EngineError::NotStarted
                    }
                },
            },
    {
        if !self.started {
            return Err(EngineError::NotStarted);
        }
        let mut emitted = match polled {
            Ok(events) => events,
            Err(e) => {
                return Err(e);
            },
        };
        match refresh {
            Some(run) => {
                self.refresh_identity_cache(run);
                self.apply_identity_cache_state(state, &mut emitted);
            },
            None => {},
        }
        Ok(emitted)
    }

    /// Loads the identity cache anew with what the load left.
    pub fn refresh_identity_cache(&mut self, run: Result<ExecOutput, EngineError>)
        ensures
            old(self)@.refreshed(run, final(self)@),
    {
        match self.load_identity_cache(run) {
            Ok((packages, warmup)) => {
                let _ = self.identity_cache_invalidator.consume_dirty();
                self.identity_cache = packages;
                self.identity_cache_state = warmup;
            },
            Err(e) => {
                self.identity_cache = UidPackageCache::default();
                self.identity_cache_state = IdentityCacheWarmupState {
                    source: None,
                    coherent: false,
                    count: 0,
                    last_cache_error: Some(e.text()),
                };
            },
        }
    }

    fn apply_identity_cache_state(&self, state: &mut EngineState, emitted: &mut Vec<EngineEvent>)
        ensures
            events::event_models(final(emitted)@) == with_event(
                events::event_models(old(emitted)@),
                self@.cache_event(),
            ),
            final(state)@ == state_with_event(old(state)@, self@.cache_event()),
    {
        let event = match self.identity_cache_state.source {
            Some(source) => EngineEvent::IdentityCacheWarmed {
                source,
                coherent: self.identity_cache_state.coherent,
                count: self.identity_cache_state.count,
            },
            None => match &self.identity_cache_state.last_cache_error {
                Some(error) => EngineEvent::IdentityCacheWarmupFailed { error: error.clone() },
                None => {
                    return ;
                },
            },
        };
        Reducer::apply(&event, state);
        let ghost model = event@;
        emitted.push(event);
        assert(events::event_models(emitted@) =~= events::event_models(old(emitted)@).push(model));
    }

    /// Stops the runtime.
    pub fn shutdown(&mut self)
        ensures
            final(self)@ == (RuntimeModel { started: false, ..old(self)@ }),
    {
        self.started = false;
    }

    /// A runner with the execution settings.
    pub fn exec_runner(&self) -> (r: ExecRunner)
        ensures
            r@ == self@.config.execution,
    {
        ExecRunner::new(self.config.execution.clone())
    }

    /// The services: with the identity cache where one was loaded.
    pub fn system_services(&self) -> (r: SystemServices)
        ensures
            r@ == self@.services(),
    {
        let services = SystemServices::new(self.exec_runner());
        if self.identity_cache_state.source.is_some() {
            services.with_uid_package_cache(self.identity_cache.clone())
        } else {
            services
        }
    }

    /// The identity cache.
    pub fn identity_cache(&self) -> (r: &UidPackageCache)
        ensures
            r@ == self@.cache,
    {
        &self.identity_cache
    }

    /// What became of loading the identity cache.
    pub fn identity_cache_state(&self) -> (r: &IdentityCacheWarmupState)
        ensures
            r@ == self@.cache_state,
    {
        &self.identity_cache_state
    }

    /// When the identity cache has to be loaded anew.
    pub fn identity_cache_invalidator(&self) -> (r: &IdentityCacheInvalidator)
        ensures
            r@ == self@.invalidator,
    {
        &self.identity_cache_invalidator
    }

    /// When the identity cache has to be loaded anew, for the poll of a step.
    pub fn identity_cache_invalidator_mut(&mut self) -> (r: &mut IdentityCacheInvalidator)
        ensures
            r@ == old(self)@.invalidator,
            final(self)@ == (RuntimeModel { invalidator: final(r)@, ..old(self)@ }),
    {
        &mut self.identity_cache_invalidator
    }

    /// Counts a change of the foreground; says whether a look at the package
    /// registry file is due, whose result goes to the invalidator.
    pub fn mark_identity_cache_foreground_candidate(&mut self) -> (r: bool)
        ensures
            final(self)@ == (RuntimeModel {
                invalidator: old(self)@.invalidator.counted(),
                ..old(self)@
            }),
            r == old(self)@.invalidator.look_due(),
    {
        self.identity_cache_invalidator.mark_foreground_candidate()
    }

    /// Takes the result of a look at the package registry file; says whether it
    /// is another file than at the last look.
    pub fn check_identity_cache_packages_xml(
        &mut self,
        look: Result<IdentityCacheFingerprint, EngineError>,
    ) -> (r: Result<bool, EngineError>)
        ensures
            match look {
                Ok(next) => final(self)@ == (RuntimeModel {
                    invalidator: old(self)@.invalidator.looked(next),
                    ..old(self)@
                }) && r == Ok::<bool, EngineError>(
                    old(self)@.invalidator.fingerprint != Some(next),
                ),
                Err(e) => final(self)@ == old(self)@ && r == Err::<bool, EngineError>(e),
            },
    {
        self.identity_cache_invalidator.check_packages_xml(look)
    }

    /// Notes an event at a watched path.
    pub fn mark_identity_cache_event(&mut self, path: &EnginePath)
        ensures
            final(self)@ == old(self)@,
    {
        self.identity_cache_invalidator.mark_event(path);
    }

    /// Whether the identity cache is out of date.
    pub fn should_refresh_identity_cache_now(&self) -> (r: bool)
        ensures
            r == self@.invalidator.dirty,
    {
        self.identity_cache_invalidator.should_refresh_now()
    }

    /// Hands out what makes the identity cache out of date, and forgets it.
    pub fn consume_identity_cache_dirty(&mut self) -> (r: IdentityCacheDirtyState)
        ensures
            r.packages_xml_changed == old(self)@.invalidator.dirty,
            final(self)@ == (RuntimeModel {
                invalidator: (identity_cache::InvalidatorModel {
                    dirty: false,
                    ..old(self)@.invalidator
                }),
                ..old(self)@
            }),
    {
        self.identity_cache_invalidator.consume_dirty()
    }

    /// The configuration.
    pub fn config(&self) -> (r: &EngineConfig)
        ensures
            r@ == self@.config,
    {
        &self.config
    }
}

/// A load that fails leaves the services without a cache, says why in its event,
/// and leaves the cache out of date if it was: it will be tried again.
pub proof fn law_failed_load_is_told(
    before: RuntimeModel,
    run: Result<ExecOutput, EngineError>,
    after: RuntimeModel,
)
    requires
        before.refreshed(run, after),
        before.load_fails(run),
    ensures
        after.services().cache is None,
        after.cache_event() == Some(
            events::EventModel::IdentityCacheWarmupFailed { error: run->Err_0@.text() },
        ),
        after.invalidator.dirty == before.invalidator.dirty,
{
}

/// A load whose process ran gives the services its cache, says how many entries
/// there are, and makes the cache up to date.
pub proof fn law_load_is_told(
    before: RuntimeModel,
    run: Result<ExecOutput, EngineError>,
    after: RuntimeModel,
)
    requires
        before.refreshed(run, after),
        before.config.identity_cache.provider_mode == IdentityCacheProviderMode::CmdPackageList,
        run is Ok,
    ensures
        after.services().cache == Some(after.cache),
        !after.invalidator.dirty,
        exists|snapshot: cache::SnapshotModel|
            {
                &&& #[trigger] snapshot_of(run->Ok_0@, snapshot)
                &&& cache::holds_snapshot(after.cache, snapshot)
                &&& after.cache_event() == Some(
                    events::EventModel::IdentityCacheWarmed {
                        source: PackageProviderSource::CmdPackageList,
                        coherent: snapshot.coherent,
                        count: snapshot.entries.len() as usize,
                    },
                )
            },
{
    let snapshot = choose|snapshot: cache::SnapshotModel|
        {
            &&& #[trigger] snapshot_of(run->Ok_0@, snapshot)
            &&& cache::holds_snapshot(after.cache, snapshot)
            &&& after.cache_state == (state::CacheStateModel {
                source: Some(snapshot.source),
                coherent: snapshot.coherent,
                count: snapshot.entries.len() as usize,
                last_cache_error: None,
            })
            &&& snapshot.entries.len() <= usize::MAX
        };
    assert(snapshot_of(run->Ok_0@, snapshot));
}

/// After a load from a source the state tells of the identity cache what the
/// runtime knows of it.
pub proof fn law_state_tells_cache(
    before: RuntimeModel,
    run: Result<ExecOutput, EngineError>,
    after: RuntimeModel,
    state: state::StateModel,
)
    requires
        before.refreshed(run, after),
        before.config.identity_cache.provider_mode == IdentityCacheProviderMode::CmdPackageList,
    ensures
        state_with_event(state, after.cache_event()).identity_cache == after.cache_state,
{
}

/// What loading takes follows from the configuration: without a source nothing, and
/// with one the package list command for the configured user, under the configured
/// settings and with its output kept.
pub proof fn law_load_asks_for_package_list(
    config: config::EngineConfigModel,
    load: IdentityCacheLoad,
)
    requires
        load_planned(config, load),
    ensures
        load is Disabled <==> config.identity_cache.provider_mode
            == IdentityCacheProviderMode::Disabled,
        load matches IdentityCacheLoad::Run(request) ==> {
            &&& request@.argv == seq![
                crate::path::text_in(config.identity_cache.cmd_path),
                "package"@,
                "list"@,
                "packages"@,
                "-U"@,
                "--user"@,
                crate::text::decimal(config.identity_cache.user_id as nat),
            ]
            &&& request@.capture_stdout
            &&& request@.backend == config.execution.backend && request@.fd_policy
                == config.execution.fd_policy && request@.max_output
                == config.execution.max_output && request@.timeout_ms
                == config.execution.timeout_ms
        },
{
}

/// After a load whose process exited with zero, the cache lists under each UID
/// exactly the packages that the output states under it; after one that ended in any
/// other way it lists none. Either way it is told how many entries there are and
/// whether they can be believed, and the cache is up to date.
pub proof fn law_load_lists_output(
    before: RuntimeModel,
    output: ExecOutput,
    after: RuntimeModel,
    package: Seq<char>,
    uid: u32,
)
    requires
        before.refreshed(Ok(output), after),
        before.config.identity_cache.provider_mode == IdentityCacheProviderMode::CmdPackageList,
    ensures
        after.cache.packages.contains_key(uid) && after.cache.packages[uid].contains(package) <==> (
        output@.status == Some(ExitStatus::Exited(0)) && exists|i: int|
            0 <= i < cache::listed(output@.stdout).len() && (#[trigger] cache::listed(
                output@.stdout,
            )[i]).uid == uid && cache::listed(output@.stdout)[i].package == package),
        output@.status == Some(ExitStatus::Exited(0)) ==> after.cache_state.count
            == cache::listed(output@.stdout).len() && after.cache_state.coherent
            == cache::credible(cache::listed(output@.stdout), 5),
        output@.status != Some(ExitStatus::Exited(0)) ==> after.cache_state.count == 0
            && !after.cache_state.coherent,
        after.cache_state.source == Some(PackageProviderSource::CmdPackageList),
        after.cache_state.last_cache_error is None,
        after.cache_state.coherent == after.cache.coherent,
        !after.invalidator.dirty,
{
    let snapshot = choose|snapshot: cache::SnapshotModel|
        {
            &&& #[trigger] snapshot_of(output@, snapshot)
            &&& cache::holds_snapshot(after.cache, snapshot)
            &&& after.cache_state == (state::CacheStateModel {
                source: Some(snapshot.source),
                coherent: snapshot.coherent,
                count: snapshot.entries.len() as usize,
                last_cache_error: None,
            })
            &&& snapshot.entries.len() <= usize::MAX
        };
    let stated = if output@.status == Some(ExitStatus::Exited(0)) {
        cache::listed(output@.stdout)
    } else {
        Seq::empty()
    };
    let entries = snapshot.entries;
    entries.to_multiset_ensures();
    stated.to_multiset_ensures();
    assert(entries.to_multiset() == stated.to_multiset());
    crate::services::foreground::cache_laws::law_credible_by_entries(entries, stated, 5);
    crate::services::foreground::cache_laws::law_cache_lists_stated_packages(
        after.cache,
        snapshot,
        uid,
        package,
    );
    if crate::services::foreground::cache_laws::stated(entries, package, uid) {
        let i = choose|i: int|
            0 <= i < entries.len() && (#[trigger] entries[i]).uid == uid && entries[i].package
                == package;
        assert(entries.contains(entries[i]));
        assert(entries.to_multiset().count(entries[i]) > 0);
        assert(stated.to_multiset().count(entries[i]) > 0);
        assert(stated.contains(entries[i]));
        let k = choose|k: int| 0 <= k < stated.len() && stated[k] == entries[i];
        assert(stated[k].uid == uid);
    }
    if exists|i: int| 0 <= i < stated.len() && (#[trigger] stated[i]).uid == uid
        && stated[i].package == package {
        let i = choose|i: int|
            0 <= i < stated.len() && (#[trigger] stated[i]).uid == uid && stated[i].package
                == package;
        assert(stated.contains(stated[i]));
        assert(stated.to_multiset().count(stated[i]) > 0);
        assert(entries.to_multiset().count(stated[i]) > 0);
        assert(entries.contains(stated[i]));
        let k = choose|k: int| 0 <= k < entries.len() && entries[k] == stated[i];
        assert(entries[k].uid == uid);
    }
}

/// Without a source a load leaves an empty cache, tells nothing and gives the
/// services no cache; a load whose process could not run leaves an empty cache too
/// and tells why.
pub proof fn law_load_without_cache(
    before: RuntimeModel,
    run: Result<ExecOutput, EngineError>,
    after: RuntimeModel,
    uid: u32,
)
    requires
        before.refreshed(run, after),
    ensures
        before.config.identity_cache.provider_mode == IdentityCacheProviderMode::Disabled ==> {
            &&& !after.cache.packages.contains_key(uid)
            &&& after.cache_event() is None
            &&& after.services().cache is None
            &&& !after.invalidator.dirty
        },
        before.config.identity_cache.provider_mode == IdentityCacheProviderMode::CmdPackageList ==> (
        run matches Err(e) ==> {
            &&& !after.cache.packages.contains_key(uid)
            &&& after.cache_state.last_cache_error == Some(e@.text())
            &&& after.cache_state.count == 0 && after.cache_state.source is None
            &&& after.invalidator == before.invalidator
        }),
        after.started == before.started,
        after.config == before.config,
{
}

/// The services run processes under the configured settings, and know the cache
/// exactly if one was loaded from a source.
pub proof fn law_services_know_loaded_cache(m: RuntimeModel)
    ensures
        m.services().settings == m.config.execution,
        m.cache_state.source is Some ==> m.services().cache == Some(m.cache),
        m.cache_state.source is None ==> m.services().cache is None,
{
}

/// What became of the cache comes behind the events of the poll and is brought into
/// the state; where there is nothing to tell, events and state stay as they are.
pub proof fn law_cache_event_comes_last(
    polled: Seq<events::EventModel>,
    before: state::StateModel,
    event: events::EventModel,
)
    ensures
        with_event(polled, Some(event)) == polled + seq![event],
        with_event(polled, None) == polled,
        state_with_event(before, Some(event)) == before.after(event),
        state_with_event(before, None) == before,
{
    assert(polled.push(event) =~= polled + seq![event]);
}

} // verus!

//! Performing actions.
use vstd::prelude::*;

use crate::dispatch::EngineAction;
use crate::error::EngineError;
use crate::events::EngineEvent;
use crate::exec::{ExecOutput, ExecRunner, SpawnRequest};
use crate::services::foreground::cache::UidPackageCache;
use crate::services::identity::IdentityService;
use crate::{config, dispatch, events, exec as process, services::foreground::cache, services::identity};

verus! {

/// Boundary for performing generic Engine actions.
pub trait Service {
    /// Performs an action and tells what happened.
    fn perform(&mut self, action: EngineAction) -> Result<Vec<EngineEvent>, EngineError>;
}

/// How far an action could be performed.
#[derive(Debug, PartialEq, Eq)]
pub enum ServiceStep {
    /// It is done, and this happened.
    Done(Vec<EngineEvent>),
    /// This process has to run; what it leaves behind goes to `exec_finished`.
    Spawn(SpawnRequest),
}

/// System services: process execution and identities.
#[derive(Debug)]
pub struct SystemServices {
    runner: ExecRunner,
    identity: IdentityService,
}

/// The model of the services: the execution settings and the package cache.
pub struct ServicesModel {
    pub settings: config::ExecConfigModel,
    pub cache: Option<cache::CacheModel>,
}

impl View for SystemServices {
    type V = ServicesModel;

    closed spec fn view(&self) -> ServicesModel {
        ServicesModel { settings: self.runner@, cache: self.identity@ }
    }
}

/// What happens on an action that needs no process.
pub open spec fn performed(
    services: ServicesModel,
    action: dispatch::ActionModel,
) -> Seq<events::EventModel> {
    match action {
        dispatch::ActionModel::ResolveIdentity { pid, uid } => match identity::identity_of(
            services.cache,
            pid,
            uid,
        ) {
            Some(identity) => seq![events::EventModel::IdentityResolved(identity)],
            None => Seq::empty(),
        },
        _ => seq![events::EventModel::RuntimeStopped],
    }
}

impl SystemServices {
    /// Services without a package cache.
    pub fn new(runner: ExecRunner) -> (r: Self)
        ensures
            r@ == (ServicesModel { settings: runner@, cache: None }),
    {
        SystemServices { runner, identity: IdentityService::default() }
    }

    /// The services with a package cache.
    pub fn with_uid_package_cache(self, package_cache: UidPackageCache) -> (r: Self)
        ensures
            r@ == (ServicesModel { cache: Some(package_cache@), ..self@ }),
    {
        SystemServices { runner: self.runner, identity: IdentityService::new(Some(package_cache)) }
    }

    /// Performs an action as far as no process has to run for it.
    pub fn perform(&mut self, action: EngineAction) -> (r: Result<ServiceStep, EngineError>)
        ensures
            final(self)@ == old(self)@,
            match action@ {
                dispatch::ActionModel::RunExec { argv, capture_stdout } => match r {
                    Ok(step) => step matches ServiceStep::Spawn(request) && process::asked(
                        old(self)@.settings,
                        argv,
                        capture_stdout,
                        Ok(request),
                    ),
                    Err(e) => process::asked(old(self)@.settings, argv, capture_stdout, Err(e)),
                },
                other => r matches Ok(ServiceStep::Done(happened)) && events::event_models(
                    happened@,
                ) == performed(old(self)@, other),
            },
    {
        match action {
            EngineAction::RunExec { argv, capture_stdout } => {
                let request = if capture_stdout {
                    self.runner.run_capture_stdout(argv)
                } else {
                    self.runner.run(argv)
                };
                match request {
                    Ok(request) => Ok(ServiceStep::Spawn(request)),
                    Err(e) => Err(e),
                }
            },
            EngineAction::ResolveIdentity { pid, uid } => {
                let mut happened: Vec<EngineEvent> = Vec::new();
                match self.identity.resolve(pid, uid) {
                    Some(identity) => {
                        happened.push(EngineEvent::IdentityResolved(identity));
                    },
                    None => {},
                }
                assert(events::event_models(happened@) =~= performed(
                    self@,
                    dispatch::ActionModel::ResolveIdentity { pid, uid },
                ));
                Ok(ServiceStep::Done(happened))
            },
            EngineAction::Shutdown => {
                let mut happened: Vec<EngineEvent> = Vec::new();
                happened.push(EngineEvent::RuntimeStopped);
                assert(events::event_models(happened@) =~= performed(
                    self@,
                    dispatch::ActionModel::Shutdown,
                ));
                Ok(ServiceStep::Done(happened))
            },
        }
    }

    /// What happened, once a process that an action asked for has run.
    pub fn exec_finished(run: Result<ExecOutput, EngineError>) -> (r: Result<
        Vec<EngineEvent>,
        EngineError,
    >)
        ensures
            match run {
                Ok(output) => r matches Ok(happened) && events::event_models(happened@) == seq![
                    events::EventModel::ExecCompleted { output: output@ },
                ],
                Err(e) => r == Err::<Vec<EngineEvent>, EngineError>(e),
            },
    {
        match run {
            Ok(output) => {
                let mut happened: Vec<EngineEvent> = Vec::new();
                let ghost model = output@;
                happened.push(EngineEvent::ExecCompleted { output });
                assert(events::event_models(happened@) =~= seq![
                    events::EventModel::ExecCompleted { output: model },
                ]);
                Ok(happened)
            },
            Err(e) => Err(e),
        }
    }
}

} // verus!

use coreshift_engine::config::{
    ExecConfig, IdentityCacheConfig, IdentityCacheInvalidationConfig, IdentityCacheProviderMode,
    SpawnBackend, SpawnFdPolicy,
};
use coreshift_engine::dispatch::{Dispatcher, EngineAction};
use coreshift_engine::error::IoErrorKind;
use coreshift_engine::events::EngineEvent;
use coreshift_engine::exec::{ExecOutput, ExecRunner, ExitStatus, SpawnRequest};
use coreshift_engine::ordered::OrdSet;
use coreshift_engine::path::EnginePath;
use coreshift_engine::runtime::IdentityCacheLoad;
use coreshift_engine::services::foreground::cache::{
    parse_cmd_package_list_stdout, PackageProviderSource, PackageUidEntry, PackageUidProvider,
    PackageUidSnapshot, UidPackageState,
};
use coreshift_engine::services::foreground::{
    parse_top_activity_package, resolve_activity_stdout, resolve_after_v1_unavailable_lazy,
    resolve_after_v1_v2_unavailable_lazy, resolve_v1_payload_with_uid_resolver, AppUidFilter,
    ForegroundCandidate, ForegroundCandidateFilter, ForegroundResolveReport,
    ForegroundResolverState, ForegroundSourceKind, PackageFileStat, PackageFileStatProvider,
    UidPackageCache, V1PayloadCache,
};
use coreshift_engine::services::identity::{
    ResolvedIdentity, ResolvedIdentitySource, ResolvedIdentityState,
};
use coreshift_engine::services::identity_cache::{
    IdentityCacheFingerprint, IdentityCacheInvalidator,
};
use coreshift_engine::services::watch::{apply_events, named_event_path};
use coreshift_engine::services::{ServiceStep, SystemServices};
use coreshift_engine::state::{EngineState, Reducer};
use coreshift_engine::{
    game_targets_from_installed, load_game_list, load_managed_game_downscales, parse_game_list,
    write_managed_game_downscales, EngineConfig, EngineError, EngineRuntime,
};

fn exec_config() -> ExecConfig {
    ExecConfig {
        backend: SpawnBackend::PosixSpawn,
        fd_policy: SpawnFdPolicy::CloexecOnly,
        timeout_ms: Some(2_000),
        max_output: 64 * 1024,
        allow_zero_max_output: false,
    }
}

fn runtime_config(cmd_path: &str) -> EngineConfig {
    let mut config = EngineConfig::new(exec_config());
    config.identity_cache = IdentityCacheConfig {
        provider_mode: IdentityCacheProviderMode::CmdPackageList,
        cmd_path: EnginePath::new(cmd_path),
        user_id: 0,
    };
    config.identity_cache_invalidation = invalidation_config("/data/system/packages.xml");
    config
}

fn invalidation_config(packages_xml_path: &str) -> IdentityCacheInvalidationConfig {
    IdentityCacheInvalidationConfig {
        packages_xml_path: EnginePath::new(packages_xml_path),
        foreground_check_interval: 2,
        debounce_ms: 1_000,
    }
}

fn not_found() -> EngineError {
    EngineError::io(IoErrorKind::NotFound, "No such file or directory (os error 2)")
}

fn fingerprint(size: u64) -> IdentityCacheFingerprint {
    IdentityCacheFingerprint {
        dev: 1,
        inode: 2,
        size,
        mtime_sec: 3,
        mtime_nsec: 4,
    }
}

fn exited(stdout: &str) -> Result<ExecOutput, EngineError> {
    Ok(ExecOutput {
        pid: 7,
        status: Some(ExitStatus::Exited(0)),
        stdout: stdout.as_bytes().to_vec(),
        stderr: Vec::new(),
        timed_out: false,
        stdout_early_exited: false,
    })
}

fn spawn_failed() -> Result<ExecOutput, EngineError> {
    Err(EngineError::Core {
        code: 2,
        op: "posix_spawn",
    })
}

const FIVE_PACKAGES: &str = "package:com.example.app uid:10123\npackage:com.example.two uid:10124\npackage:com.example.three uid:10125\npackage:com.example.four uid:10126\npackage:com.example.five uid:10127\n";

struct FakePackageProvider {
    entries: Vec<(&'static str, u32)>,
}

impl PackageUidProvider for FakePackageProvider {
    fn load(&self) -> Result<PackageUidSnapshot, EngineError> {
        Ok(PackageUidSnapshot {
            entries: self
                .entries
                .iter()
                .map(|(package, uid)| PackageUidEntry {
                    package: package.to_string(),
                    uid: *uid,
                    base_apk_path: None,
                })
                .collect(),
            source: PackageProviderSource::CmdPackageList,
            coherent: true,
        })
    }
}

struct FakePackageStat {
    calls: u32,
    stats: Vec<Result<PackageFileStat, EngineError>>,
}

impl PackageFileStatProvider for FakePackageStat {
    fn stat_package_marker(&mut self, _path: &EnginePath) -> Result<PackageFileStat, EngineError> {
        self.calls += 1;
        self.stats.remove(0)
    }
}

fn foreground_candidate(
    source: ForegroundSourceKind,
    pid: Option<i32>,
    uid: Option<u32>,
) -> ForegroundCandidate {
    ForegroundCandidate {
        source,
        pid,
        uid,
        package: None,
        identity_resolved: false,
    }
}

fn cache_from_entries(entries: Vec<(&'static str, u32)>) -> UidPackageCache {
    UidPackageCache::warm_from(&FakePackageProvider { entries }).unwrap()
}

fn set_of(packages: Vec<&str>) -> OrdSet<String> {
    OrdSet::from_vec(packages.into_iter().map(str::to_string).collect())
}

fn resolver_state(entries: Vec<(&'static str, u32)>) -> ForegroundResolverState {
    ForegroundResolverState::new(
        cache_from_entries(entries),
        OrdSet::new(),
        AppUidFilter {
            modulus: 100_000,
            min_app_id: 10_000,
        },
        None,
    )
}

fn apply_event_path(
    events: Vec<EngineEvent>,
    services: &mut SystemServices,
    state: &mut EngineState,
) {
    let mut emitted = Vec::new();
    apply_events(events, services, state, &mut emitted);
}

fn performed(services: &mut SystemServices, action: EngineAction) -> Vec<EngineEvent> {
    match services.perform(action).unwrap() {
        ServiceStep::Done(events) => events,
        ServiceStep::Spawn(request) => panic!("a process was asked for: {request:?}"),
    }
}

fn services_with(entries: Vec<(&'static str, u32)>) -> SystemServices {
    SystemServices::new(ExecRunner::new(exec_config()))
        .with_uid_package_cache(cache_from_entries(entries))
}

// ---------------------------------------------------------------------------
// Games
// ---------------------------------------------------------------------------

#[test]
fn gamelist_parser_handles_comments_blank_duplicates_and_invalid_lines() {
    let list = parse_game_list(
        "\n# comment\n com.example.game \ncom.example.game\nbad package\ncom.other.Game_2\n*.wildcard\n",
    );

    assert_eq!(list.len(), 2);
    assert!(list.contains("com.example.game"));
    assert!(list.contains("com.other.Game_2"));
    assert!(!list.contains("bad package"));
    assert!(!list.contains("*.wildcard"));
}

#[test]
fn game_targets_use_installed_cache_intersection() {
    let list = parse_game_list("com.installed.game\ncom.missing.game\ncom.other.app\n");
    let installed = set_of(vec!["com.installed.game", "com.not.game"]);

    let targets = game_targets_from_installed(&list, &installed);

    assert_eq!(targets.len(), 1);
    assert!(targets.contains("com.installed.game"));
    assert!(!targets.contains("com.missing.game"));
    assert!(!targets.contains("com.not.game"));
}

#[test]
fn managed_downscale_state_loads_writes_and_accepts_legacy_rows() {
    let text = "\
com.good.game\tperformance\t0123456789abcdef\t42\n\
com.good.other\t0123456789abcdea\t43\n\
bad line\n\
com.bad\tweird\t0123\t1\n\
com.other.game\tstandard\tabcdef\tbad\n";

    let state = load_managed_game_downscales(Ok(text.to_string())).unwrap();

    assert_eq!(state.len(), 2);
    assert!(state.contains("com.good.game"));
    assert!(state.contains("com.good.other"));

    assert_eq!(
        write_managed_game_downscales(&state),
        "\
com.good.game\t0123456789abcdef\t42\n\
com.good.other\t0123456789abcdea\t43\n"
    );
}

#[test]
fn a_missing_state_file_is_an_empty_state_and_a_missing_list_is_an_error() {
    assert!(load_managed_game_downscales(Err(not_found()))
        .unwrap()
        .is_empty());
    let denied = EngineError::io(IoErrorKind::PermissionDenied, "denied");
    assert_eq!(
        load_managed_game_downscales(Err(denied.clone())),
        Err(denied)
    );
    assert_eq!(load_game_list(Err(not_found())), Err(not_found()));
    assert_eq!(
        load_game_list(Ok("com.example.game\n".to_string()))
            .unwrap()
            .packages(),
        vec!["com.example.game".to_string()]
    );
}

// ---------------------------------------------------------------------------
// Configuration and runtime
// ---------------------------------------------------------------------------

#[test]
fn default_config_builds() {
    let config = EngineConfig::default();
    let mut runtime = EngineRuntime::new(config, Err(not_found()));
    assert_eq!(
        runtime.plan_identity_cache_load(),
        IdentityCacheLoad::Disabled
    );
    runtime.start(Err(not_found())).unwrap();
    runtime.shutdown();
}

#[test]
fn engine_default_identity_config_has_no_android_paths() {
    let config = EngineConfig::default();

    assert_eq!(
        config.identity_cache.provider_mode,
        IdentityCacheProviderMode::Disabled
    );
    assert!(config.identity_cache.cmd_path.is_empty());
    assert!(config
        .identity_cache_invalidation
        .packages_xml_path
        .is_empty());
}

#[test]
fn engine_default_identity_runtime_selects_no_hidden_paths() {
    let config = EngineConfig::new(exec_config());
    let mut runtime = EngineRuntime::new(config, Err(not_found()));

    runtime.start(Err(not_found())).unwrap();

    assert_eq!(runtime.identity_cache_state().source, None);
    assert_eq!(runtime.identity_cache_state().count, 0);
    assert!(runtime.identity_cache_state().last_cache_error.is_none());
    assert!(runtime
        .identity_cache_invalidator()
        .watch_hint_paths()
        .is_empty());
    runtime.shutdown();
}

#[test]
fn engine_config_validate_rejects_invalid_runtime_config() {
    let mut config = runtime_config("/system/bin/cmd");
    config.execution.max_output = 0;
    let err = config.validate().unwrap_err();
    assert!(matches!(
        err,
        EngineError::InvalidConfig {
            field: "exec.max_output",
            ..
        }
    ));

    config.execution.allow_zero_max_output = true;
    config.identity_cache_invalidation.foreground_check_interval = 0;
    let err = EngineRuntime::new(config, Err(not_found()))
        .start(exited(""))
        .unwrap_err();
    assert!(matches!(
        err,
        EngineError::InvalidConfig {
            field: "identity_cache_invalidation.foreground_check_interval",
            ..
        }
    ));
}

#[test]
fn a_package_list_without_a_command_is_refused() {
    let config = runtime_config("");
    let err = config.validate().unwrap_err();
    assert_eq!(
        err,
        EngineError::invalid_config("identity_cache.cmd_path", "must not be empty")
    );
    assert_eq!(
        err.text(),
        "invalid config (identity_cache.cmd_path: must not be empty)"
    );
}

#[test]
fn runtime_startup_warms_cache_from_cmd_fallback_path() {
    let mut runtime = EngineRuntime::new(runtime_config("/system/bin/cmd"), Err(not_found()));
    match runtime.plan_identity_cache_load() {
        IdentityCacheLoad::Run(request) => assert_eq!(
            request,
            SpawnRequest {
                argv: [
                    "/system/bin/cmd",
                    "package",
                    "list",
                    "packages",
                    "-U",
                    "--user",
                    "0"
                ]
                .iter()
                .map(|s| s.to_string())
                .collect(),
                backend: SpawnBackend::PosixSpawn,
                fd_policy: SpawnFdPolicy::CloexecOnly,
                capture_stdout: true,
                max_output: 64 * 1024,
                timeout_ms: Some(2_000),
            }
        ),
        other => panic!("unexpected load: {other:?}"),
    }
    runtime.start(exited(FIVE_PACKAGES)).unwrap();

    assert_eq!(
        runtime.identity_cache().uid_for_package("com.example.app"),
        Some(10_123)
    );
    assert_eq!(
        runtime.identity_cache_state().source,
        Some(PackageProviderSource::CmdPackageList)
    );
    assert_eq!(runtime.identity_cache_state().count, 5);
    assert!(runtime.identity_cache_state().coherent);
    runtime.shutdown();
}

#[test]
fn runtime_cache_warmup_failure_does_not_fail_start() {
    let mut runtime = EngineRuntime::new(runtime_config("/missing/cmd"), Err(not_found()));
    runtime.start(spawn_failed()).unwrap();

    assert_eq!(
        runtime.identity_cache_state().last_cache_error.as_deref(),
        Some("posix_spawn failed (code=2)")
    );
    assert_eq!(runtime.identity_cache_state().count, 0);
    assert_eq!(runtime.identity_cache_state().source, None);
    runtime.shutdown();
}

#[test]
fn a_runtime_starts_once_until_it_is_shut_down() {
    let mut runtime = EngineRuntime::new(EngineConfig::default(), Err(not_found()));
    let mut state = EngineState::default();
    assert_eq!(
        runtime.step(Ok(Vec::new()), None, &mut state),
        Err(EngineError::NotStarted)
    );
    assert_eq!(runtime.begin_step().unwrap_err(), EngineError::NotStarted);
    runtime.start(exited("")).unwrap();
    assert_eq!(runtime.start(exited("")), Err(EngineError::AlreadyStarted));
    assert!(runtime.begin_step().is_ok());
    runtime.shutdown();
    assert!(runtime.start(exited("")).is_ok());
}

#[test]
fn a_step_refreshes_the_cache_and_tells_it() {
    let mut runtime = EngineRuntime::new(runtime_config("/system/bin/cmd"), Err(not_found()));
    runtime.start(spawn_failed()).unwrap();
    let mut state = EngineState::default();

    let kept = runtime
        .step(Ok(vec![EngineEvent::RuntimeStarted]), None, &mut state)
        .unwrap();
    assert_eq!(kept, vec![EngineEvent::RuntimeStarted]);
    assert!(!state.started);

    let emitted = runtime
        .step(
            Ok(vec![EngineEvent::RuntimeStarted]),
            Some(exited(FIVE_PACKAGES)),
            &mut state,
        )
        .unwrap();
    assert_eq!(
        emitted,
        vec![
            EngineEvent::RuntimeStarted,
            EngineEvent::IdentityCacheWarmed {
                source: PackageProviderSource::CmdPackageList,
                coherent: true,
                count: 5,
            }
        ]
    );
    assert_eq!(state.identity_cache.count, 5);
    assert!(state.identity_cache.coherent);

    let emitted = runtime
        .step(Ok(Vec::new()), Some(spawn_failed()), &mut state)
        .unwrap();
    assert_eq!(
        emitted,
        vec![EngineEvent::IdentityCacheWarmupFailed {
            error: "posix_spawn failed (code=2)".to_string()
        }]
    );
    assert_eq!(state.identity_cache.count, 0);

    assert_eq!(
        runtime.step(Err(not_found()), Some(exited(FIVE_PACKAGES)), &mut state),
        Err(not_found())
    );
    assert_eq!(runtime.identity_cache_state().count, 0);
}

#[test]
fn resolve_identity_after_start_uses_warmed_cache() {
    let mut runtime = EngineRuntime::new(runtime_config("/system/bin/cmd"), Err(not_found()));
    runtime.start(exited(FIVE_PACKAGES)).unwrap();
    let mut services = runtime.system_services();

    let events = performed(
        &mut services,
        EngineAction::ResolveIdentity {
            pid: None,
            uid: Some(10_123),
        },
    );

    assert!(matches!(
        events.as_slice(),
        [EngineEvent::IdentityResolved(identity)]
            if identity.package.as_deref() == Some("com.example.app")
                && identity.state == ResolvedIdentityState::Exact
    ));
    runtime.shutdown();
}

#[test]
fn refresh_identity_cache_updates_cache() {
    let mut runtime = EngineRuntime::new(runtime_config("/system/bin/cmd"), Err(not_found()));
    runtime
        .start(exited("package:com.example.one uid:10123\n"))
        .unwrap();
    assert_eq!(
        runtime.identity_cache().uid_for_package("com.example.two"),
        None
    );

    runtime.refresh_identity_cache(exited(
        "package:com.example.one uid:10123\npackage:com.example.two uid:10124\n",
    ));

    assert_eq!(
        runtime.identity_cache().uid_for_package("com.example.two"),
        Some(10_124)
    );
    assert_eq!(runtime.identity_cache_state().count, 2);
    runtime.shutdown();
}

#[test]
fn failed_refresh_preserves_dirty_state() {
    let mut runtime = EngineRuntime::new(runtime_config("/system/bin/cmd"), Ok(fingerprint(3)));
    runtime
        .start(exited("package:com.example.one uid:10123\n"))
        .unwrap();

    assert!(!runtime.mark_identity_cache_foreground_candidate());
    assert!(runtime.mark_identity_cache_foreground_candidate());
    assert_eq!(
        runtime.check_identity_cache_packages_xml(Ok(fingerprint(7))),
        Ok(true)
    );
    assert!(runtime.should_refresh_identity_cache_now());

    runtime.refresh_identity_cache(spawn_failed());

    assert!(runtime.identity_cache_state().last_cache_error.is_some());
    assert!(runtime.should_refresh_identity_cache_now());
    runtime.shutdown();
}

// ---------------------------------------------------------------------------
// Identity cache invalidation
// ---------------------------------------------------------------------------

#[test]
fn foreground_interval_triggers_packages_xml_stat_check() {
    let mut invalidator =
        IdentityCacheInvalidator::new(invalidation_config("/packages.xml"), Ok(fingerprint(3)));

    assert!(!invalidator.mark_foreground_candidate());
    assert!(!invalidator.should_refresh_now());

    assert!(invalidator.mark_foreground_candidate());
    assert_eq!(invalidator.check_packages_xml(Ok(fingerprint(7))), Ok(true));

    assert!(invalidator.should_refresh_now());
    assert!(invalidator.consume_dirty().packages_xml_changed);
}

#[test]
fn packages_xml_appearing_after_missing_marks_dirty() {
    let mut invalidator =
        IdentityCacheInvalidator::new(invalidation_config("/system/packages.xml"), Err(not_found()));

    assert!(invalidator.check_packages_xml(Ok(fingerprint(3))).unwrap());
    assert!(invalidator.consume_dirty().packages_xml_changed);
}

#[test]
fn consume_dirty_clears_dirty_state() {
    let mut invalidator =
        IdentityCacheInvalidator::new(invalidation_config("/packages.xml"), Ok(fingerprint(3)));

    assert!(invalidator.check_packages_xml(Ok(fingerprint(7))).unwrap());
    assert!(invalidator.should_refresh_now());

    let dirty = invalidator.consume_dirty();

    assert!(dirty.packages_xml_changed);
    assert!(!invalidator.should_refresh_now());
    assert_eq!(invalidator.consume_dirty(), Default::default());
}

#[test]
fn a_failed_look_and_an_equal_file_change_nothing() {
    let mut invalidator =
        IdentityCacheInvalidator::new(invalidation_config("/packages.xml"), Ok(fingerprint(3)));
    assert_eq!(
        invalidator.check_packages_xml(Err(not_found())),
        Err(not_found())
    );
    assert_eq!(invalidator.check_packages_xml(Ok(fingerprint(3))), Ok(false));
    assert!(!invalidator.should_refresh_now());
}

#[test]
fn without_a_registry_path_nothing_is_counted() {
    let mut invalidator =
        IdentityCacheInvalidator::new(IdentityCacheInvalidationConfig::default(), Ok(fingerprint(3)));
    for _ in 0..4 {
        assert!(!invalidator.mark_foreground_candidate());
    }
    assert_eq!(invalidator.foreground_count(), 0);
}

// ---------------------------------------------------------------------------
// Execution
// ---------------------------------------------------------------------------

#[test]
fn a_runner_turns_arguments_into_a_request() {
    let runner = ExecRunner::new(exec_config());
    let request = runner.run(vec!["/bin/true".to_string()]).unwrap();
    assert_eq!(request.argv, vec!["/bin/true".to_string()]);
    assert!(!request.capture_stdout);
    let request = runner
        .run_capture_stdout(vec!["/bin/echo".to_string(), "engine".to_string()])
        .unwrap();
    assert!(request.capture_stdout);
    assert_eq!(request.max_output, 64 * 1024);
}

#[test]
fn a_runner_refuses_what_cannot_be_run() {
    let runner = ExecRunner::new(exec_config());
    assert_eq!(
        runner.run(Vec::new()),
        Err(EngineError::Core {
            code: 22,
            op: "exec argv empty"
        })
    );
    assert_eq!(
        runner.run(vec!["/bin/echo".to_string(), "a\0b".to_string()]),
        Err(EngineError::Core {
            code: 22,
            op: "exec argv contains nul"
        })
    );
}

#[test]
fn an_exec_action_asks_for_a_process_and_its_end_is_an_event() {
    let mut services = SystemServices::new(ExecRunner::new(exec_config()));
    let step = services
        .perform(EngineAction::RunExec {
            argv: vec!["/bin/true".to_string()],
            capture_stdout: false,
        })
        .unwrap();
    assert!(matches!(
        step,
        ServiceStep::Spawn(request) if request.argv == vec!["/bin/true".to_string()]
    ));
    let events = SystemServices::exec_finished(exited("")).unwrap();
    assert!(matches!(
        events.as_slice(),
        [EngineEvent::ExecCompleted { output }]
            if output.status == Some(ExitStatus::Exited(0))
    ));
    assert_eq!(
        SystemServices::exec_finished(spawn_failed()),
        Err(EngineError::Core {
            code: 2,
            op: "posix_spawn"
        })
    );
    assert_eq!(
        performed(&mut services, EngineAction::Shutdown),
        vec![EngineEvent::RuntimeStopped]
    );
}

// ---------------------------------------------------------------------------
// Reducer and dispatcher
// ---------------------------------------------------------------------------

#[test]
fn reducer_start_stop_is_deterministic() {
    let mut state = EngineState::default();

    Reducer::apply(&EngineEvent::RuntimeStarted, &mut state);
    assert!(state.started);

    Reducer::apply(&EngineEvent::RuntimeStopped, &mut state);
    assert!(!state.started);
}

#[test]
fn dispatcher_emits_no_policy_actions() {
    assert!(Dispatcher::dispatch(&EngineEvent::RuntimeStarted).is_empty());
    assert!(Dispatcher::dispatch(&EngineEvent::RuntimeStopped).is_empty());
}

#[test]
fn service_failed_records_error() {
    let mut state = EngineState::default();
    Reducer::apply(
        &EngineEvent::ServiceFailed {
            error: EngineError::NotStarted,
        },
        &mut state,
    );
    assert_eq!(state.last_error.as_deref(), Some("runtime not started"));
}

#[test]
fn reducer_records_identity_resolved() {
    let mut state = EngineState::default();
    let identity = ResolvedIdentity {
        pid: Some(7),
        uid: Some(10_123),
        package: Some("example.app".to_string()),
        state: ResolvedIdentityState::Exact,
        source: ResolvedIdentitySource::CacheOnly,
    };

    Reducer::apply(&EngineEvent::IdentityResolved(identity.clone()), &mut state);

    assert_eq!(state.last_identity, Some(identity));
}

#[test]
fn completed_processes_are_counted() {
    let mut state = EngineState::default();
    for _ in 0..3 {
        for event in SystemServices::exec_finished(exited("")).unwrap() {
            Reducer::apply(&event, &mut state);
        }
    }
    assert_eq!(state.completed_jobs, 3);
    state.completed_jobs = u64::MAX;
    for event in SystemServices::exec_finished(exited("")).unwrap() {
        Reducer::apply(&event, &mut state);
    }
    assert_eq!(state.completed_jobs, u64::MAX);
}

#[test]
fn dispatcher_maps_foreground_candidate_to_resolve_identity() {
    let candidate = ForegroundCandidate {
        source: ForegroundSourceKind::CgroupV1,
        pid: Some(123),
        uid: Some(10_123),
        package: Some("example.app".to_string()),
        identity_resolved: true,
    };
    let actions = Dispatcher::dispatch(&EngineEvent::ForegroundCandidateChanged(candidate));
    assert_eq!(
        actions,
        vec![EngineAction::ResolveIdentity {
            pid: Some(123),
            uid: Some(10_123),
        }]
    );

    let empty = ForegroundCandidate {
        source: ForegroundSourceKind::CgroupV1,
        pid: None,
        uid: None,
        package: None,
        identity_resolved: false,
    };
    assert!(Dispatcher::dispatch(&EngineEvent::ForegroundCandidateChanged(empty)).is_empty());
}

// ---------------------------------------------------------------------------
// Packages and identities
// ---------------------------------------------------------------------------

#[test]
fn cmd_package_list_parser_reads_package_uid_lines() {
    let entries = parse_cmd_package_list_stdout(
        b"package:com.example.one uid:10123\n\
              package:bad uid:10124\n\
              package:com.example.two uid:not-a-uid\n\
              package:org.example.two uid:10125 installer=null\n",
    );

    assert_eq!(
        entries,
        vec![
            PackageUidEntry {
                package: "com.example.one".to_string(),
                uid: 10_123,
                base_apk_path: None,
            },
            PackageUidEntry {
                package: "org.example.two".to_string(),
                uid: 10_125,
                base_apk_path: None,
            },
        ]
    );
}

#[test]
fn uid_cache_exact_missing_and_ambiguous() {
    let provider = FakePackageProvider {
        entries: vec![("one.app", 10_123), ("two.a", 10_124), ("two.b", 10_124)],
    };
    let cache = UidPackageCache::warm_from(&provider).unwrap();

    assert_eq!(cache.uid_for_package("one.app"), Some(10_123));
    assert_eq!(
        cache.uid_state(10_123),
        UidPackageState::Exact("one.app".to_string())
    );
    assert_eq!(cache.uid_state(99_999), UidPackageState::Missing);
    assert_eq!(
        cache.uid_state(10_124),
        UidPackageState::Ambiguous(vec!["two.a".to_string(), "two.b".to_string()])
    );
}

#[test]
fn foreground_filter_uses_cache_for_package_block_and_resolution() {
    let provider = FakePackageProvider {
        entries: vec![
            ("blocked.app", 10_123),
            ("clear.app", 10_124),
            ("one.app", 10_125),
            ("two.app", 10_125),
        ],
    };
    let cache = UidPackageCache::warm_from(&provider).unwrap();

    let mut filter = ForegroundCandidateFilter::default();
    filter.blocked_packages.insert("blocked.app".to_string());
    assert!(filter
        .candidate_for_uid(ForegroundSourceKind::CgroupV1, None, 10_123, Some(&cache))
        .is_none());

    let exact = filter
        .candidate_for_uid(ForegroundSourceKind::CgroupV1, None, 10_124, Some(&cache))
        .unwrap();
    assert_eq!(exact.package.as_deref(), Some("clear.app"));
    assert!(exact.identity_resolved);

    let missing = filter
        .candidate_for_uid(ForegroundSourceKind::CgroupV1, None, 10_999, Some(&cache))
        .unwrap();
    assert_eq!(missing.package, None);
    assert!(!missing.identity_resolved);

    assert!(filter
        .candidate_for_uid(ForegroundSourceKind::CgroupV1, None, 10_125, Some(&cache),)
        .is_none());
}

#[test]
fn resolve_identity_exact_uid_resolves_package() {
    let mut services = services_with(vec![("example.app", 10_123)]);

    let events = performed(
        &mut services,
        EngineAction::ResolveIdentity {
            pid: Some(7),
            uid: Some(10_123),
        },
    );

    assert!(matches!(
        events.as_slice(),
        [EngineEvent::IdentityResolved(identity)]
            if identity.pid == Some(7)
                && identity.uid == Some(10_123)
                && identity.package.as_deref() == Some("example.app")
                && identity.state == ResolvedIdentityState::Exact
                && identity.source == ResolvedIdentitySource::CacheOnly
    ));
}

#[test]
fn resolve_identity_missing_uid_returns_missing() {
    let mut services = services_with(vec![("example.app", 10_123)]);

    let events = performed(
        &mut services,
        EngineAction::ResolveIdentity {
            pid: None,
            uid: Some(10_999),
        },
    );

    assert!(matches!(
        events.as_slice(),
        [EngineEvent::IdentityResolved(identity)]
            if identity.package.is_none()
                && identity.state == ResolvedIdentityState::Missing
                && identity.source == ResolvedIdentitySource::CacheOnly
    ));
}

#[test]
fn resolve_identity_duplicate_uid_returns_ambiguous() {
    let mut services = services_with(vec![("one.app", 10_123), ("two.app", 10_123)]);

    let events = performed(
        &mut services,
        EngineAction::ResolveIdentity {
            pid: None,
            uid: Some(10_123),
        },
    );

    assert!(matches!(
        events.as_slice(),
        [EngineEvent::IdentityResolved(identity)]
            if identity.package.is_none()
                && identity.state == ResolvedIdentityState::Ambiguous
                && identity.source == ResolvedIdentitySource::CacheOnly
    ));
}

#[test]
fn resolve_identity_pid_only_returns_unresolved_without_cmdline() {
    let mut services = SystemServices::new(ExecRunner::new(exec_config()));

    let events = performed(
        &mut services,
        EngineAction::ResolveIdentity {
            pid: Some(42),
            uid: None,
        },
    );

    assert!(matches!(
        events.as_slice(),
        [EngineEvent::IdentityResolved(identity)]
            if identity.pid == Some(42)
                && identity.uid.is_none()
                && identity.package.is_none()
                && identity.state == ResolvedIdentityState::Unresolved
                && identity.source == ResolvedIdentitySource::CacheOnly
    ));
}

#[test]
fn resolve_identity_empty_action_is_noop() {
    let mut services = SystemServices::new(ExecRunner::new(exec_config()));

    let events = performed(
        &mut services,
        EngineAction::ResolveIdentity {
            pid: None,
            uid: None,
        },
    );

    assert!(events.is_empty());
}

#[test]
fn dispatcher_action_path_emits_identity_resolved() {
    let mut services = services_with(vec![("example.app", 10_123)]);
    let candidate = ForegroundCandidate {
        source: ForegroundSourceKind::CgroupV1,
        pid: None,
        uid: Some(10_123),
        package: None,
        identity_resolved: false,
    };
    let actions = Dispatcher::dispatch(&EngineEvent::ForegroundCandidateChanged(candidate));
    let events = performed(&mut services, actions.into_iter().next().unwrap());

    assert!(matches!(
        events.as_slice(),
        [EngineEvent::IdentityResolved(identity)]
            if identity.package.as_deref() == Some("example.app")
                && identity.state == ResolvedIdentityState::Exact
    ));
}

#[test]
fn foreground_pipeline_missing_and_ambiguous_cache_states_resolve() {
    let mut services = services_with(vec![
        ("one.app", 10_123),
        ("two.a", 10_124),
        ("two.b", 10_124),
    ]);

    let mut missing_state = EngineState::default();
    apply_event_path(
        vec![EngineEvent::ForegroundCandidateChanged(
            foreground_candidate(ForegroundSourceKind::CgroupV1, None, Some(10_999)),
        )],
        &mut services,
        &mut missing_state,
    );
    assert_eq!(
        missing_state.last_identity.unwrap().state,
        ResolvedIdentityState::Missing
    );

    let mut ambiguous_state = EngineState::default();
    apply_event_path(
        vec![EngineEvent::ForegroundCandidateChanged(
            foreground_candidate(ForegroundSourceKind::CgroupV1, None, Some(10_124)),
        )],
        &mut services,
        &mut ambiguous_state,
    );
    assert_eq!(
        ambiguous_state.last_identity.unwrap().state,
        ResolvedIdentityState::Ambiguous
    );
}

// ---------------------------------------------------------------------------
// Resolvers
// ---------------------------------------------------------------------------

#[test]
fn activity_parser_reads_top_activity_package() {
    assert_eq!(
        parse_top_activity_package(
            b"prefix topActivity=ComponentInfo{com.openai.chatgpt/.MainActivity} suffix"
        )
        .as_deref(),
        Some("com.openai.chatgpt")
    );
    assert_eq!(parse_top_activity_package(b"no top activity"), None);
    assert_eq!(
        parse_top_activity_package(b"topActivity=ComponentInfo{bad}"),
        None
    );
}

#[test]
fn activity_resolver_applies_blocklist() {
    let blocked = set_of(vec!["com.android.documentsui"]);
    let report = resolve_activity_stdout(
        b"topActivity=ComponentInfo{com.android.documentsui/.FilesActivity}",
        &blocked,
    );

    assert_eq!(report.package, None);
    assert_eq!(
        report.lines,
        vec!["source=activity package=com.android.documentsui reason=blocked".to_string()]
    );
}

#[test]
fn v1_payload_cache_skips_unchanged_payload() {
    let mut cache = V1PayloadCache::default();

    assert!(cache.observe(b"1\n".to_vec()).is_some());
    assert!(cache.observe(b"1\n".to_vec()).is_none());
    assert!(cache.observe(b"2\n".to_vec()).is_some());
}

#[test]
fn resolver_v1_payload_resolves_exact_package_and_skips_ambiguous() {
    let state = resolver_state(vec![
        ("one.app", 10_123),
        ("two.a", 10_124),
        ("two.b", 10_124),
        ("valid.app", 10_125),
    ]);
    let report = resolve_v1_payload_with_uid_resolver(b"1\n2\n", &state, |pid| {
        Ok(Some(match pid {
            1 => 10_124,
            2 => 10_125,
            _ => unreachable!(),
        }))
    });

    assert_eq!(report.package.as_deref(), Some("valid.app"));
    assert!(report
        .lines
        .contains(&"source=v1 uid=10124 package_count=2 reason=ambiguous".to_string()));
}

#[test]
fn resolver_auto_is_lazy() {
    let calls = std::cell::Cell::new(0);
    let v1 = ForegroundResolveReport {
        package: Some("v1.app".to_string()),
        lines: vec!["source=v1 package=v1.app reason=resolved".to_string()],
    };

    let report = resolve_after_v1_unavailable_lazy(v1.clone(), || {
        calls.set(calls.get() + 1);
        ForegroundResolveReport {
            package: Some("activity.app".to_string()),
            lines: vec!["source=activity package=activity.app reason=resolved".to_string()],
        }
    });

    assert_eq!(report, v1);
    assert_eq!(calls.get(), 0);
}

#[test]
fn resolver_auto_order_is_v1_v2_activity_and_activity_is_lazy() {
    let calls = std::cell::RefCell::new(Vec::new());
    let report = resolve_after_v1_v2_unavailable_lazy(
        ForegroundResolveReport::unavailable("v1"),
        || {
            calls.borrow_mut().push("v2");
            ForegroundResolveReport {
                package: Some("v2.app".to_string()),
                lines: vec!["source=v2 package=v2.app reason=resolved".to_string()],
            }
        },
        || {
            calls.borrow_mut().push("activity");
            ForegroundResolveReport {
                package: Some("activity.app".to_string()),
                lines: vec!["source=activity package=activity.app reason=resolved".to_string()],
            }
        },
    );

    assert_eq!(report.package.as_deref(), Some("v2.app"));
    assert_eq!(calls.borrow().as_slice(), ["v2"]);

    calls.borrow_mut().clear();
    let report = resolve_after_v1_v2_unavailable_lazy(
        ForegroundResolveReport::unavailable("v1"),
        || {
            calls.borrow_mut().push("v2");
            ForegroundResolveReport::unavailable("v2")
        },
        || {
            calls.borrow_mut().push("activity");
            ForegroundResolveReport {
                package: Some("activity.app".to_string()),
                lines: vec!["source=activity package=activity.app reason=resolved".to_string()],
            }
        },
    );

    assert_eq!(report.package.as_deref(), Some("activity.app"));
    assert_eq!(calls.borrow().as_slice(), ["v2", "activity"]);
}

#[test]
fn resolver_invalidation_rebuilds_only_on_interval_and_marker_change() {
    let provider = FakePackageProvider {
        entries: vec![("new.app", 10_123)],
    };
    let mut state = ForegroundResolverState::new(
        UidPackageCache::default(),
        OrdSet::new(),
        AppUidFilter {
            modulus: 100_000,
            min_app_id: 10_000,
        },
        Some(PackageFileStat {
            mtime_sec: 1,
            mtime_nsec: 0,
            size: 10,
        }),
    );
    let mut stat = FakePackageStat {
        calls: 0,
        stats: vec![
            Ok(PackageFileStat {
                mtime_sec: 1,
                mtime_nsec: 0,
                size: 10,
            }),
            Ok(PackageFileStat {
                mtime_sec: 2,
                mtime_nsec: 0,
                size: 11,
            }),
        ],
    };
    let marker = EnginePath::new("marker");

    for _ in 0..9 {
        assert!(state
            .foreground_changed(&provider, &mut stat, &marker, 10)
            .unwrap()
            .is_none());
    }
    let keep = state
        .foreground_changed(&provider, &mut stat, &marker, 10)
        .unwrap()
        .unwrap();
    for _ in 0..9 {
        assert!(state
            .foreground_changed(&provider, &mut stat, &marker, 10)
            .unwrap()
            .is_none());
    }
    let rebuild = state
        .foreground_changed(&provider, &mut stat, &marker, 10)
        .unwrap()
        .unwrap();

    assert_eq!(stat.calls, 2);
    assert_eq!(state.cache_rebuilds, 2);
    assert!(keep.contains("changed=false action=keep"));
    assert!(rebuild.contains("changed=true action=rebuild entries=1"));
    assert_eq!(state.cache.exact_package_for_uid(10_123), Some("new.app"));
}

#[test]
fn non_utf8_inotify_name_returns_parent_path() {
    let parent = EnginePath::new("/tmp/parent");
    let path = named_event_path(parent.clone(), Some(&[0xff, 0xfe]));

    assert_eq!(path, parent);
}

#[test]
fn an_inotify_name_is_joined_to_the_watched_path() {
    let watched = EnginePath::new("/tmp/parent");
    assert_eq!(
        named_event_path(watched.clone(), Some(b"child")),
        EnginePath::new("/tmp/parent/child")
    );
    assert_eq!(named_event_path(watched.clone(), Some(b"")), watched);
    assert_eq!(named_event_path(watched.clone(), None), watched);
}

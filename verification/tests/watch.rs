use coreshift_engine::config::{ExecConfig, IdentityCacheInvalidationConfig};
use coreshift_engine::error::IoErrorKind;
use coreshift_engine::events::EngineEvent;
use coreshift_engine::exec::ExecRunner;
use coreshift_engine::path::{EnginePath, PathSet};
use coreshift_engine::services::foreground::cache::{
    PackageProviderSource, PackageUidEntry, PackageUidSnapshot,
};
use coreshift_engine::services::foreground::source::DEFAULT_HINT_MASK;
use coreshift_engine::services::foreground::{
    ForegroundCandidate, ForegroundManager, ForegroundPipeline, ForegroundSource,
    ForegroundSourceKind, UidPackageCache,
};
use coreshift_engine::services::identity_cache::{
    IdentityCacheFingerprint, IdentityCacheInvalidator,
};
use coreshift_engine::services::watch::{
    EngineWatch, EngineWatchPoll, InotifyEvent, PollRun, PollStep, ReadyEvent, WatchAddition,
};
use coreshift_engine::services::SystemServices;
use coreshift_engine::state::EngineState;
use coreshift_engine::EngineError;
use std::collections::VecDeque;

type Answer = Result<Option<ForegroundCandidate>, EngineError>;

const INOTIFY: u64 = 1;
const IN_MODIFY: u32 = 0x0000_0002;
const IN_Q_OVERFLOW: u32 = 0x0000_4000;

fn candidate(pid: i32, uid: u32) -> ForegroundCandidate {
    ForegroundCandidate {
        source: ForegroundSourceKind::CgroupV1,
        pid: Some(pid),
        uid: Some(uid),
        package: None,
        identity_resolved: false,
    }
}

fn invalidation_config() -> IdentityCacheInvalidationConfig {
    IdentityCacheInvalidationConfig {
        packages_xml_path: EnginePath::new("/data/system/packages.xml"),
        foreground_check_interval: 2,
        debounce_ms: 1_000,
    }
}

fn fingerprint(size: u64) -> IdentityCacheFingerprint {
    IdentityCacheFingerprint {
        dev: 1,
        inode: 2,
        size,
        mtime_sec: 3,
        mtime_nsec: 4,
    }
}

fn services_with(entries: Vec<(&str, u32)>) -> SystemServices {
    let mut cache = UidPackageCache::default();
    cache
        .update_from_snapshot(PackageUidSnapshot {
            entries: entries
                .into_iter()
                .map(|(package, uid)| PackageUidEntry {
                    package: package.to_string(),
                    uid,
                    base_apk_path: None,
                })
                .collect(),
            source: PackageProviderSource::CmdPackageList,
            coherent: true,
        })
        .unwrap();
    SystemServices::new(ExecRunner::new(ExecConfig::default())).with_uid_package_cache(cache)
}

/// A source with prepared answers, whose paths and descriptors a test changes.
struct PreparedSource {
    answers: VecDeque<Answer>,
    hints: Vec<EnginePath>,
    priorities: Vec<(EnginePath, u64)>,
    asked: Vec<String>,
}

impl PreparedSource {
    fn new(answers: Vec<Answer>, hints: Vec<&str>, priorities: Vec<(&str, u64)>) -> Self {
        Self {
            answers: answers.into(),
            hints: hints.into_iter().map(EnginePath::new).collect(),
            priorities: priorities
                .into_iter()
                .map(|(path, key)| (EnginePath::new(path), key))
                .collect(),
            asked: Vec::new(),
        }
    }

    fn answer(&mut self, question: String) -> Answer {
        self.asked.push(question);
        self.answers.pop_front().unwrap_or(Ok(None))
    }
}

impl ForegroundSource for PreparedSource {
    fn kind(&self) -> ForegroundSourceKind {
        ForegroundSourceKind::CgroupV1
    }
    fn poll_current(&mut self) -> Answer {
        self.answer("poll".to_string())
    }
    fn handle_fs_event(&mut self, path: &EnginePath) -> Answer {
        self.handle_fs_event_with_mask(path, 0)
    }
    fn handle_fs_event_with_mask(&mut self, path: &EnginePath, mask: u32) -> Answer {
        self.answer(format!("event {} {mask:#x}", path.to_text_lossy()))
    }
    fn watch_hint_paths(&self) -> &Vec<EnginePath> {
        &self.hints
    }
    fn is_available(&self) -> bool {
        true
    }
    fn watch_hint_mask(&self, _path: &EnginePath) -> u32 {
        DEFAULT_HINT_MASK
    }
    fn register_priority_fds(&self, registered: &PathSet) -> Vec<EnginePath> {
        self.priorities
            .iter()
            .map(|(path, _)| path.clone())
            .filter(|path| !registered.contains(path))
            .collect()
    }
    fn priority_hint_paths(&self) -> Vec<EnginePath> {
        self.priorities.iter().map(|(path, _)| path.clone()).collect()
    }
    fn priority_hint_keys(&self) -> Vec<(EnginePath, u64)> {
        self.priorities
            .iter()
            .map(|(path, key)| (path.clone(), *key))
            .collect()
    }
    fn handle_priority_event(&mut self, path: &EnginePath) -> Answer {
        self.answer(format!("priority {}", path.to_text_lossy()))
    }
    fn handle_stale_priority_event(&mut self, path: &EnginePath) -> Answer {
        self.answer(format!("stale {}", path.to_text_lossy()))
    }
    fn unregister_priority_fd(&self, path: &EnginePath) -> bool {
        self.priorities.iter().any(|(known, _)| known == path)
    }
}

/// Stands for the kernel: hands out watch descriptors and tokens.
struct Kernel {
    missing: Vec<&'static str>,
    added: Vec<(String, u32)>,
    removed: Vec<i32>,
    next_wd: i32,
    next_token: u64,
    reports: VecDeque<Vec<InotifyEvent>>,
    file: IdentityCacheFingerprint,
    looks: usize,
    refreshes: usize,
}

impl Kernel {
    fn new() -> Self {
        Kernel {
            missing: Vec::new(),
            added: Vec::new(),
            removed: Vec::new(),
            next_wd: 1,
            next_token: 10,
            reports: VecDeque::new(),
            file: fingerprint(8),
            looks: 0,
            refreshes: 0,
        }
    }

    fn add(&mut self, addition: &WatchAddition) -> Result<i32, EngineError> {
        let Some(text) = &addition.text else {
            return Err(EngineError::Core { code: 22, op: "inotify_add_watch" });
        };
        if self.missing.iter().any(|path| path == text) {
            return Err(EngineError::Core { code: 2, op: "inotify_add_watch" });
        }
        self.added.push((text.clone(), addition.mask));
        let wd = self.next_wd;
        self.next_wd += 1;
        Ok(wd)
    }

    fn start(
        &mut self,
        source: PreparedSource,
        invalidator: &IdentityCacheInvalidator,
    ) -> EngineWatch<PreparedSource> {
        let pipeline = ForegroundPipeline::new(ForegroundManager::new(source));
        let mut watch = EngineWatch::new(pipeline, INOTIFY);
        for addition in watch.initial_additions(invalidator) {
            let result = if watch.foreground_watch_paths().contains(&addition.path) {
                Ok(0)
            } else {
                self.add(&addition)
            };
            watch.add_watch_path(&addition, &result);
        }
        self.sync_priorities(&mut watch);
        watch
    }

    fn sync_paths(&mut self, watch: &mut EngineWatch<PreparedSource>) {
        let plan = watch.plan_watch_sync();
        let removed = plan
            .removals
            .iter()
            .map(|removal| {
                removal
                    .wds
                    .iter()
                    .map(|wd| {
                        self.removed.push(*wd);
                        Ok(())
                    })
                    .collect()
            })
            .collect();
        let added = plan.additions.iter().map(|addition| self.add(addition)).collect();
        watch.sync_foreground_watch_paths(&plan, &removed, &added);
    }

    fn sync_priorities(&mut self, watch: &mut EngineWatch<PreparedSource>) {
        let removals = watch.plan_priority_removals();
        let results = removals.iter().map(|_| Ok(())).collect();
        watch.finish_priority_removals(&removals, &results).unwrap();
        let registrations: Vec<(u64, EnginePath)> = watch
            .plan_priority_registrations()
            .into_iter()
            .map(|path| {
                self.next_token += 1;
                (self.next_token, path)
            })
            .collect();
        watch.finish_priority_registrations(&registrations);
    }

    fn poll(
        &mut self,
        watch: &mut EngineWatch<PreparedSource>,
        ready: Vec<ReadyEvent>,
        invalidator: &mut IdentityCacheInvalidator,
        services: &mut SystemServices,
        state: &mut EngineState,
    ) -> Result<EngineWatchPoll, EngineError> {
        let mut run = PollRun::new(ready);
        loop {
            match watch.poll_step(&mut run, invalidator, services, state)? {
                PollStep::Continue => {}
                PollStep::ReadReports => {
                    run.supply(self.reports.pop_front().unwrap_or_default());
                }
                PollStep::Sync { watch_paths, check_packages_xml } => {
                    if check_packages_xml {
                        self.looks += 1;
                        let _ = invalidator.check_packages_xml(Ok(self.file));
                    }
                    if watch_paths {
                        self.sync_paths(watch);
                    }
                    self.sync_priorities(watch);
                }
                PollStep::Refresh => self.refreshes += 1,
                PollStep::Done => return Ok(run.finish()),
            }
        }
    }
}

fn readable(token: u64) -> ReadyEvent {
    ReadyEvent { token, readable: true, priority: false, error: false }
}

fn report(wd: i32, mask: u32) -> InotifyEvent {
    InotifyEvent { wd, mask, name: None }
}

const PROCS: &str = "/dev/cpuset/top-app/cgroup.procs";

#[test]
fn watched_foreground_path_triggers_changed_event() {
    let mut kernel = Kernel::new();
    let mut invalidator = IdentityCacheInvalidator::new(invalidation_config(), Ok(fingerprint(8)));
    let source = PreparedSource::new(vec![Ok(Some(candidate(11, 10_124)))], vec![PROCS], vec![]);
    let mut watch = kernel.start(source, &invalidator);
    let mut services = services_with(vec![("example.app", 10_124)]);
    let mut state = EngineState::default();

    kernel.reports.push_back(vec![report(1, IN_MODIFY)]);
    let events = kernel
        .poll(&mut watch, vec![readable(INOTIFY)], &mut invalidator, &mut services, &mut state)
        .unwrap()
        .events;

    assert!(matches!(
        events.as_slice(),
        [
            EngineEvent::ForegroundCandidateChanged(candidate),
            EngineEvent::IdentityResolved(identity),
        ] if candidate.uid == Some(10_124)
            && identity.package.as_deref() == Some("example.app")
            && state.last_identity.as_ref() == Some(identity)
    ));
    assert_eq!(invalidator.foreground_count(), 0);
    assert_eq!(
        watch.foreground_source_mut().asked,
        vec![format!("event {PROCS} 0x2")]
    );
}

#[test]
fn watched_duplicate_foreground_event_emits_once() {
    let mut kernel = Kernel::new();
    let mut invalidator = IdentityCacheInvalidator::new(invalidation_config(), Ok(fingerprint(8)));
    let source = PreparedSource::new(
        vec![Ok(Some(candidate(10, 10_123))), Ok(Some(candidate(10, 10_123)))],
        vec![PROCS],
        vec![],
    );
    let mut watch = kernel.start(source, &invalidator);
    let mut services = services_with(vec![("example.app", 10_123)]);
    let mut state = EngineState::default();

    for expected in [2, 0] {
        kernel.reports.push_back(vec![report(1, IN_MODIFY)]);
        let poll = kernel
            .poll(&mut watch, vec![readable(INOTIFY)], &mut invalidator, &mut services, &mut state)
            .unwrap();
        assert_eq!(poll.events.len(), expected);
    }
    assert_eq!(invalidator.foreground_count(), 0);
}

#[test]
fn watcher_missing_watch_path_does_not_crash() {
    let mut kernel = Kernel::new();
    kernel.missing.push("/missing/cgroup.procs");
    let invalidator = IdentityCacheInvalidator::new(invalidation_config(), Ok(fingerprint(8)));
    let watch = kernel.start(
        PreparedSource::new(vec![], vec!["/missing/cgroup.procs"], vec![]),
        &invalidator,
    );

    assert!(watch.foreground_watch_paths().is_empty());
    assert!(watch.identity_watch_paths().is_empty());
    assert_eq!(watch.registration_failures().len(), 1);
    assert_eq!(
        watch.registration_failures()[0].error,
        EngineError::Core { code: 2, op: "inotify_add_watch" }
    );
}

#[test]
fn a_path_that_is_no_text_cannot_be_watched() {
    let mut kernel = Kernel::new();
    let invalidator = IdentityCacheInvalidator::new(invalidation_config(), Ok(fingerprint(8)));
    let mut source = PreparedSource::new(vec![], vec![], vec![]);
    source.hints.push(EnginePath::from_bytes(vec![b'/', 0xff]));
    let watch = kernel.start(source, &invalidator);

    assert!(watch.foreground_watch_paths().is_empty());
    assert_eq!(
        watch.registration_failures()[0].error,
        EngineError::invalid_config("watch.path", "must be UTF-8")
    );
    assert!(kernel.added.is_empty());
}

#[test]
fn watcher_duplicate_foreground_watch_path_registered_once() {
    let mut kernel = Kernel::new();
    let invalidator = IdentityCacheInvalidator::new(invalidation_config(), Ok(fingerprint(8)));
    let watch = kernel.start(
        PreparedSource::new(vec![], vec![PROCS, PROCS], vec![]),
        &invalidator,
    );

    assert_eq!(
        watch.foreground_watch_paths(),
        &PathSet::from_vec(vec![EnginePath::new(PROCS)])
    );
    assert_eq!(kernel.added, vec![(PROCS.to_string(), DEFAULT_HINT_MASK)]);
}

#[test]
fn watcher_refreshes_priority_registration_for_same_path_new_key() {
    let mut kernel = Kernel::new();
    let mut invalidator = IdentityCacheInvalidator::new(invalidation_config(), Ok(fingerprint(8)));
    let priority = EnginePath::new("/cg/uid_10123/cgroup.events");
    let source = PreparedSource::new(
        vec![],
        vec!["/trigger"],
        vec![("/cg/uid_10123/cgroup.events", 1)],
    );
    let mut watch = kernel.start(source, &invalidator);
    let mut services = services_with(vec![]);
    let mut state = EngineState::default();
    assert_eq!(
        watch.foreground_priority_registration_keys().get(&priority),
        Some(&1)
    );
    assert_eq!(watch.foreground_priority_token_count(), 1);

    watch.foreground_source_mut().priorities[0].1 = 2;
    kernel.reports.push_back(vec![report(1, IN_MODIFY)]);
    kernel
        .poll(&mut watch, vec![readable(INOTIFY)], &mut invalidator, &mut services, &mut state)
        .unwrap();

    assert_eq!(watch.foreground_priority_token_count(), 1);
    assert_eq!(
        watch.foreground_priority_registration_keys().get(&priority),
        Some(&2)
    );
}

#[test]
fn watcher_removes_stale_priority_registration_when_source_drops_path() {
    let mut kernel = Kernel::new();
    let mut invalidator = IdentityCacheInvalidator::new(invalidation_config(), Ok(fingerprint(8)));
    let source = PreparedSource::new(
        vec![],
        vec!["/trigger"],
        vec![("/cg/uid_10123/cgroup.events", 1)],
    );
    let mut watch = kernel.start(source, &invalidator);
    let mut services = services_with(vec![]);
    let mut state = EngineState::default();
    assert_eq!(watch.foreground_priority_token_count(), 1);

    watch.foreground_source_mut().priorities.clear();
    kernel.reports.push_back(vec![report(1, IN_MODIFY)]);
    kernel
        .poll(&mut watch, vec![readable(INOTIFY)], &mut invalidator, &mut services, &mut state)
        .unwrap();

    assert_eq!(watch.foreground_priority_token_count(), 0);
    assert!(watch.foreground_priority_registration_keys().is_empty());
    assert!(watch.foreground_priority_paths().is_empty());
}

#[test]
fn dropped_socket_stream_unregisters_token() {
    let mut kernel = Kernel::new();
    let invalidator = IdentityCacheInvalidator::new(invalidation_config(), Ok(fingerprint(8)));
    let mut watch = kernel.start(PreparedSource::new(vec![], vec![], vec![]), &invalidator);
    watch.register_socket_listener(100);
    watch.register_socket_stream(101);

    assert_eq!(watch.socket_token_count(), 2);
    assert!(watch.unregister_socket_stream(101));
    assert_eq!(watch.socket_token_count(), 1);
    assert!(!watch.unregister_socket_stream(101));
    assert!(watch.socket_token_count() >= 1);
}

#[test]
fn repeated_socket_connect_disconnect_does_not_grow_stale_tokens() {
    let mut kernel = Kernel::new();
    let invalidator = IdentityCacheInvalidator::new(invalidation_config(), Ok(fingerprint(8)));
    let mut watch = kernel.start(PreparedSource::new(vec![], vec![], vec![]), &invalidator);
    watch.register_socket_listener(100);

    for token in 101..117 {
        watch.register_socket_stream(token);
        assert!(watch.unregister_socket_stream(token));
    }

    assert_eq!(watch.socket_token_count(), 1);
}

#[test]
fn watcher_poll_once_no_events_is_empty() {
    let mut kernel = Kernel::new();
    let mut invalidator = IdentityCacheInvalidator::new(invalidation_config(), Ok(fingerprint(8)));
    let mut watch = kernel.start(PreparedSource::new(vec![], vec![PROCS], vec![]), &invalidator);
    let mut services = services_with(vec![]);
    let mut state = EngineState::default();

    let poll = kernel
        .poll(&mut watch, vec![], &mut invalidator, &mut services, &mut state)
        .unwrap();

    assert!(poll.events.is_empty());
    assert!(poll.socket_tokens.is_empty());
}

#[test]
fn sockets_are_reported_in_the_order_in_which_they_are_ready() {
    let mut kernel = Kernel::new();
    let mut invalidator = IdentityCacheInvalidator::new(invalidation_config(), Ok(fingerprint(8)));
    let mut watch = kernel.start(PreparedSource::new(vec![], vec![], vec![]), &invalidator);
    watch.register_socket_listener(100);
    watch.register_socket_stream(101);
    let mut services = services_with(vec![]);
    let mut state = EngineState::default();

    let poll = kernel
        .poll(
            &mut watch,
            vec![readable(101), readable(999), readable(100)],
            &mut invalidator,
            &mut services,
            &mut state,
        )
        .unwrap();

    assert_eq!(poll.socket_tokens, vec![101, 100]);
    assert!(poll.events.is_empty());
}

#[test]
fn priority_signals_and_failures_ask_the_source() {
    let mut kernel = Kernel::new();
    let mut invalidator = IdentityCacheInvalidator::new(invalidation_config(), Ok(fingerprint(8)));
    let source = PreparedSource::new(
        vec![Ok(Some(candidate(10, 10_123))), Ok(None)],
        vec![],
        vec![("/cg/uid_10123/cgroup.events", 1)],
    );
    let mut watch = kernel.start(source, &invalidator);
    let mut services = services_with(vec![("example.app", 10_123)]);
    let mut state = EngineState::default();
    let token = kernel.next_token;

    let poll = kernel
        .poll(
            &mut watch,
            vec![
                ReadyEvent { token, readable: false, priority: true, error: false },
                ReadyEvent { token, readable: false, priority: true, error: true },
                ReadyEvent { token, readable: true, priority: false, error: false },
            ],
            &mut invalidator,
            &mut services,
            &mut state,
        )
        .unwrap();

    assert_eq!(poll.events.len(), 2);
    assert_eq!(
        watch.foreground_source_mut().asked,
        vec![
            "priority /cg/uid_10123/cgroup.events".to_string(),
            "stale /cg/uid_10123/cgroup.events".to_string(),
        ]
    );
}

#[test]
fn a_queue_overflow_asks_at_the_empty_path_and_unknown_watches_ask_nothing() {
    let mut kernel = Kernel::new();
    let mut invalidator = IdentityCacheInvalidator::new(invalidation_config(), Ok(fingerprint(8)));
    let mut watch = kernel.start(PreparedSource::new(vec![], vec![PROCS], vec![]), &invalidator);
    let mut services = services_with(vec![]);
    let mut state = EngineState::default();

    kernel
        .reports
        .push_back(vec![report(99, IN_MODIFY), report(-1, IN_Q_OVERFLOW)]);
    kernel
        .poll(&mut watch, vec![readable(INOTIFY)], &mut invalidator, &mut services, &mut state)
        .unwrap();

    assert_eq!(watch.foreground_source_mut().asked.len(), 3);
    assert_eq!(watch.foreground_source_mut().asked[0], "event  0x4000");
}

#[test]
fn watches_follow_the_paths_that_the_source_wants() {
    let mut kernel = Kernel::new();
    let mut invalidator = IdentityCacheInvalidator::new(invalidation_config(), Ok(fingerprint(8)));
    let mut watch = kernel.start(
        PreparedSource::new(vec![], vec!["/old", "/kept"], vec![]),
        &invalidator,
    );
    let mut services = services_with(vec![]);
    let mut state = EngineState::default();

    watch.foreground_source_mut().hints = vec![EnginePath::new("/kept"), EnginePath::new("/new")];
    kernel.reports.push_back(vec![report(2, IN_MODIFY)]);
    kernel
        .poll(&mut watch, vec![readable(INOTIFY)], &mut invalidator, &mut services, &mut state)
        .unwrap();

    assert_eq!(
        watch.foreground_watch_paths(),
        &PathSet::from_vec(vec![EnginePath::new("/kept"), EnginePath::new("/new")])
    );
    assert_eq!(kernel.removed, vec![1]);
    assert_eq!(kernel.added.len(), 3);
}

#[test]
fn a_failing_source_ends_the_poll_with_its_error() {
    let mut kernel = Kernel::new();
    let mut invalidator = IdentityCacheInvalidator::new(invalidation_config(), Ok(fingerprint(8)));
    let failure = EngineError::io(IoErrorKind::Other, "broken");
    let source = PreparedSource::new(vec![Err(failure.clone())], vec![PROCS], vec![]);
    let mut watch = kernel.start(source, &invalidator);
    let mut services = services_with(vec![]);
    let mut state = EngineState::default();

    kernel.reports.push_back(vec![report(1, IN_MODIFY)]);
    let result = kernel.poll(
        &mut watch,
        vec![readable(INOTIFY)],
        &mut invalidator,
        &mut services,
        &mut state,
    );
    assert_eq!(result.err(), Some(failure));
}

#[test]
fn changes_of_the_foreground_make_the_registry_file_be_looked_at() {
    let mut kernel = Kernel::new();
    let mut invalidator = IdentityCacheInvalidator::new(invalidation_config(), Ok(fingerprint(8)));
    let answers = (0..3)
        .map(|i| Ok(Some(candidate(10 + i, 10_123))))
        .collect();
    let mut watch = kernel.start(
        PreparedSource::new(answers, vec![PROCS], vec![]),
        &invalidator,
    );
    let mut services = services_with(vec![("example.app", 10_123)]);
    let mut state = EngineState::default();
    kernel.file = fingerprint(9);

    kernel.reports.push_back(vec![
        report(1, IN_MODIFY),
        report(1, IN_MODIFY),
        report(1, IN_MODIFY),
    ]);
    let poll = kernel
        .poll(&mut watch, vec![readable(INOTIFY)], &mut invalidator, &mut services, &mut state)
        .unwrap();

    assert_eq!(poll.events.len(), 6);
    assert_eq!(kernel.looks, 1);
    assert!(invalidator.should_refresh_now());
    assert_eq!(kernel.refreshes, 0);
}

#[test]
fn a_failed_removal_is_recorded_unless_the_watch_was_gone() {
    let mut kernel = Kernel::new();
    let invalidator = IdentityCacheInvalidator::new(invalidation_config(), Ok(fingerprint(8)));
    for (code, failures) in [(22, 0), (9, 1)] {
        let mut watch = kernel.start(
            PreparedSource::new(vec![], vec!["/old"], vec![]),
            &invalidator,
        );
        watch.foreground_source_mut().hints.clear();
        let plan = watch.plan_watch_sync();
        assert_eq!(plan.removals.len(), 1);
        assert_eq!(plan.removals[0].wds.len(), 1);
        let gone = EngineError::Core { code, op: "inotify_rm_watch" };
        watch.sync_foreground_watch_paths(&plan, &vec![vec![Err(gone)]], &vec![]);
        assert!(watch.foreground_watch_paths().is_empty());
        assert_eq!(watch.registration_failures().len(), failures);
    }
}

#[test]
fn a_poll_of_the_foreground_asks_the_source() {
    let mut kernel = Kernel::new();
    let invalidator = IdentityCacheInvalidator::new(invalidation_config(), Ok(fingerprint(8)));
    let mut watch = kernel.start(
        PreparedSource::new(vec![Ok(Some(candidate(5, 10_005)))], vec![], vec![]),
        &invalidator,
    );
    assert_eq!(
        watch.poll_current_foreground(),
        Ok(Some(candidate(5, 10_005)))
    );
    assert_eq!(watch.foreground_source_mut().asked, vec!["poll".to_string()]);
}

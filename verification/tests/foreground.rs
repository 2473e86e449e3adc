use coreshift_engine::config::{ExecConfig, IdentityCacheInvalidationConfig};
use coreshift_engine::dispatch::EngineAction;
use coreshift_engine::error::IoErrorKind;
use coreshift_engine::events::EngineEvent;
use coreshift_engine::exec::ExecRunner;
use coreshift_engine::ordered::OrdSet;
use coreshift_engine::path::{EnginePath, PathSet};
use coreshift_engine::services::foreground::cache::{
    PackageProviderSource, PackageUidEntry, PackageUidProvider, PackageUidSnapshot,
    UidPackageState,
};
use coreshift_engine::services::foreground::cgroup_v1::MapPidUidResolver;
use coreshift_engine::services::foreground::cgroup_v2::{
    is_readable_table, EventsObservation, PollObservation, Rescan, RootEntry, RootObservation,
};
use coreshift_engine::services::foreground::source::{zero_keys, DEFAULT_HINT_MASK};
use coreshift_engine::services::foreground::{
    candidate_uid_roots_from_proc_mounts, find_cgroup2_mount, parse_cgroup_events_populated,
    parse_proc_mounts, parse_uid_dir_name, resolve_v2_uid_with_cache, AutoForegroundSource,
    CgroupV1CpusetSource, CgroupV2EventsSource, CgroupV2Populated, ForegroundCandidate,
    ForegroundCandidateFilter, ForegroundManager, ForegroundPipeline, ForegroundSource,
    ForegroundSourceKind, ForegroundUpdate, UidPackageCache, UidRemainderFilter,
};
use coreshift_engine::services::identity::ResolvedIdentityState;
use coreshift_engine::services::identity_cache::{
    IdentityCacheFingerprint, IdentityCacheInvalidator,
};
use coreshift_engine::services::watch::apply_events;
use coreshift_engine::services::SystemServices;
use coreshift_engine::state::EngineState;
use coreshift_engine::EngineError;
use std::cell::{Cell, RefCell};
use std::collections::{BTreeMap, BTreeSet, VecDeque};
use std::rc::Rc;

type Answer = Result<Option<ForegroundCandidate>, EngineError>;

fn not_found() -> EngineError {
    EngineError::io(IoErrorKind::NotFound, "No such file or directory (os error 2)")
}

struct FakePackageProvider {
    entries: Vec<(&'static str, u32)>,
}

impl PackageUidProvider for FakePackageProvider {
    fn load(&self) -> Result<PackageUidSnapshot, EngineError> {
        Ok(PackageUidSnapshot {
            entries: self
                .entries
                .iter()
                .map(|(package, uid)| PackageUidEntry {
                    package: package.to_string(),
                    uid: *uid,
                    base_apk_path: None,
                })
                .collect(),
            source: PackageProviderSource::CmdPackageList,
            coherent: true,
        })
    }
}

fn cache_from_entries(entries: Vec<(&'static str, u32)>) -> UidPackageCache {
    UidPackageCache::warm_from(&FakePackageProvider { entries }).unwrap()
}

fn foreground_candidate(
    source: ForegroundSourceKind,
    pid: Option<i32>,
    uid: Option<u32>,
) -> ForegroundCandidate {
    ForegroundCandidate {
        source,
        pid,
        uid,
        package: None,
        identity_resolved: false,
    }
}

fn test_invalidator() -> IdentityCacheInvalidator {
    IdentityCacheInvalidator::new(
        IdentityCacheInvalidationConfig {
            packages_xml_path: EnginePath::new("/data/system/packages.xml"),
            foreground_check_interval: 2,
            debounce_ms: 1_000,
        },
        Ok(IdentityCacheFingerprint {
            dev: 1,
            inode: 2,
            size: 8,
            mtime_sec: 3,
            mtime_nsec: 4,
        }),
    )
}

fn services_with(entries: Vec<(&'static str, u32)>) -> SystemServices {
    SystemServices::new(ExecRunner::new(ExecConfig::default()))
        .with_uid_package_cache(cache_from_entries(entries))
}

fn apply_event_path(
    events: Vec<EngineEvent>,
    services: &mut SystemServices,
    state: &mut EngineState,
) {
    let mut emitted = Vec::new();
    apply_events(events, services, state, &mut emitted);
}

// ---------------------------------------------------------------------------
// Sources for the tests
// ---------------------------------------------------------------------------

/// Gives prepared answers, one after the other.
struct SequenceForegroundSource {
    kind: ForegroundSourceKind,
    responses: VecDeque<Option<ForegroundCandidate>>,
    watch_hint_paths: Vec<EnginePath>,
}

impl SequenceForegroundSource {
    fn new(responses: Vec<Option<ForegroundCandidate>>) -> Self {
        Self {
            kind: ForegroundSourceKind::CgroupV1,
            responses: responses.into(),
            watch_hint_paths: vec![EnginePath::new("/tmp/cgroup.procs")],
        }
    }
}

impl ForegroundSource for SequenceForegroundSource {
    fn kind(&self) -> ForegroundSourceKind {
        self.kind
    }
    fn poll_current(&mut self) -> Answer {
        Ok(self.responses.pop_front().flatten())
    }
    fn handle_fs_event(&mut self, _path: &EnginePath) -> Answer {
        Ok(self.responses.pop_front().flatten())
    }
    fn handle_fs_event_with_mask(&mut self, path: &EnginePath, _mask: u32) -> Answer {
        self.handle_fs_event(path)
    }
    fn watch_hint_paths(&self) -> &Vec<EnginePath> {
        &self.watch_hint_paths
    }
    fn is_available(&self) -> bool {
        true
    }
    fn watch_hint_mask(&self, _path: &EnginePath) -> u32 {
        DEFAULT_HINT_MASK
    }
    fn register_priority_fds(&self, _registered: &PathSet) -> Vec<EnginePath> {
        Vec::new()
    }
    fn priority_hint_paths(&self) -> Vec<EnginePath> {
        Vec::new()
    }
    fn priority_hint_keys(&self) -> Vec<(EnginePath, u64)> {
        zero_keys(&self.priority_hint_paths())
    }
    fn handle_priority_event(&mut self, _path: &EnginePath) -> Answer {
        Ok(None)
    }
    fn handle_stale_priority_event(&mut self, _path: &EnginePath) -> Answer {
        Ok(None)
    }
    fn unregister_priority_fd(&self, _path: &EnginePath) -> bool {
        false
    }
}

/// Never has an answer.
struct UnavailableForegroundSource {
    kind: ForegroundSourceKind,
    watch_hint_paths: Vec<EnginePath>,
}

impl ForegroundSource for UnavailableForegroundSource {
    fn kind(&self) -> ForegroundSourceKind {
        self.kind
    }
    fn poll_current(&mut self) -> Answer {
        Err(EngineError::io(IoErrorKind::NotFound, "source unavailable"))
    }
    fn handle_fs_event(&mut self, _path: &EnginePath) -> Answer {
        self.poll_current()
    }
    fn handle_fs_event_with_mask(&mut self, path: &EnginePath, _mask: u32) -> Answer {
        self.handle_fs_event(path)
    }
    fn watch_hint_paths(&self) -> &Vec<EnginePath> {
        &self.watch_hint_paths
    }
    fn is_available(&self) -> bool {
        false
    }
    fn watch_hint_mask(&self, _path: &EnginePath) -> u32 {
        DEFAULT_HINT_MASK
    }
    fn register_priority_fds(&self, _registered: &PathSet) -> Vec<EnginePath> {
        Vec::new()
    }
    fn priority_hint_paths(&self) -> Vec<EnginePath> {
        Vec::new()
    }
    fn priority_hint_keys(&self) -> Vec<(EnginePath, u64)> {
        Vec::new()
    }
    fn handle_priority_event(&mut self, _path: &EnginePath) -> Answer {
        Ok(None)
    }
    fn handle_stale_priority_event(&mut self, _path: &EnginePath) -> Answer {
        Ok(None)
    }
    fn unregister_priority_fd(&self, _path: &EnginePath) -> bool {
        false
    }
}

/// A cpuset source over a process list in memory.
struct MemoryV1 {
    source: CgroupV1CpusetSource<MapPidUidResolver>,
    procs: Rc<RefCell<String>>,
}

impl MemoryV1 {
    fn read(&self) -> Result<Vec<u8>, EngineError> {
        Ok(self.procs.borrow().as_bytes().to_vec())
    }
}

impl ForegroundSource for MemoryV1 {
    fn kind(&self) -> ForegroundSourceKind {
        self.source.kind()
    }
    fn poll_current(&mut self) -> Answer {
        let read = self.read();
        self.source.poll_current(read, &BTreeMap::new())
    }
    fn handle_fs_event(&mut self, path: &EnginePath) -> Answer {
        let read = self.read();
        self.source.handle_fs_event(path, read, &BTreeMap::new())
    }
    fn handle_fs_event_with_mask(&mut self, path: &EnginePath, _mask: u32) -> Answer {
        self.handle_fs_event(path)
    }
    fn watch_hint_paths(&self) -> &Vec<EnginePath> {
        self.source.watch_hint_paths()
    }
    fn is_available(&self) -> bool {
        true
    }
    fn watch_hint_mask(&self, _path: &EnginePath) -> u32 {
        DEFAULT_HINT_MASK
    }
    fn register_priority_fds(&self, _registered: &PathSet) -> Vec<EnginePath> {
        Vec::new()
    }
    fn priority_hint_paths(&self) -> Vec<EnginePath> {
        Vec::new()
    }
    fn priority_hint_keys(&self) -> Vec<(EnginePath, u64)> {
        Vec::new()
    }
    fn handle_priority_event(&mut self, _path: &EnginePath) -> Answer {
        Ok(None)
    }
    fn handle_stale_priority_event(&mut self, _path: &EnginePath) -> Answer {
        Ok(None)
    }
    fn unregister_priority_fd(&self, _path: &EnginePath) -> bool {
        false
    }
}

const PROCS: &str = "/dev/cpuset/top-app/cgroup.procs";

fn v1_source(
    filter: ForegroundCandidateFilter,
    uids: Vec<(i32, u32)>,
) -> CgroupV1CpusetSource<MapPidUidResolver> {
    CgroupV1CpusetSource::with_resolver(
        EnginePath::new(PROCS),
        EnginePath::new("/proc"),
        filter,
        MapPidUidResolver::new(uids.into_iter().collect()),
    )
}

fn memory_v1(
    filter: ForegroundCandidateFilter,
    uids: Vec<(i32, u32)>,
    procs: &str,
) -> (MemoryV1, Rc<RefCell<String>>) {
    let procs = Rc::new(RefCell::new(procs.to_string()));
    (
        MemoryV1 {
            source: v1_source(filter, uids),
            procs: procs.clone(),
        },
        procs,
    )
}

fn cmdlines(lines: Vec<(i32, &str)>) -> BTreeMap<i32, String> {
    lines
        .into_iter()
        .map(|(pid, line)| (pid, line.to_string()))
        .collect()
}

/// Control groups in memory: the events files that are there, by directory.
#[derive(Default)]
struct Groups {
    /// Directories, each with the contents of its events file, if it has one.
    dirs: BTreeMap<String, Option<String>>,
}

impl Groups {
    fn with(dirs: Vec<(&str, &str)>) -> Self {
        let mut groups = Groups::default();
        for (dir, events) in dirs {
            groups.set(dir, events);
        }
        groups
    }

    fn set(&mut self, dir: &str, events: &str) {
        self.dirs.insert(dir.to_string(), Some(events.to_string()));
    }

    fn remove(&mut self, dir: &str) {
        self.dirs.remove(dir);
    }

    fn listing(&self, root: &str) -> Vec<RootEntry> {
        self.dirs
            .iter()
            .filter(|(dir, _)| dir.rsplit_once('/').map(|(parent, _)| parent) == Some(root))
            .map(|(dir, events)| RootEntry {
                path: EnginePath::new(dir),
                is_dir: true,
                events_is_file: events.is_some(),
                events_opens: events.is_some(),
            })
            .collect()
    }

    fn listings(&self, roots: &[&str]) -> Vec<Vec<RootEntry>> {
        roots.iter().map(|root| self.listing(root)).collect()
    }

    fn events_of(&self, events_path: &EnginePath) -> Result<Vec<u8>, EngineError> {
        let path = events_path.to_text_lossy();
        let dir = path.strip_suffix("/cgroup.events").unwrap_or(&path);
        match self.dirs.get(dir) {
            Some(Some(events)) => Ok(events.as_bytes().to_vec()),
            _ => Err(not_found()),
        }
    }

    fn rescan(&self, source: &CgroupV2EventsSource, roots: &[&str]) -> Rescan {
        Rescan {
            missing: PathSet::from_vec(
                source
                    .priority_hint_paths()
                    .into_iter()
                    .filter(|path| self.events_of(path).is_err())
                    .collect(),
            ),
            listings: self.listings(roots),
        }
    }

    fn root_event(
        &self,
        source: &mut CgroupV2EventsSource,
        roots: &[&str],
        path: &str,
        mask: u32,
    ) -> Answer {
        let events_path = EnginePath::new(&format!("{path}/cgroup.events"));
        let observed = RootObservation {
            rescan: self.rescan(source, roots),
            path_exists: self.dirs.contains_key(path),
            events_opens: self.events_of(&events_path).is_ok(),
            events: self.events_of(&events_path),
        };
        source.handle_fs_event_with_mask(&EnginePath::new(path), mask, &observed)
    }

    fn priority_event(
        &self,
        source: &mut CgroupV2EventsSource,
        roots: &[&str],
        events_path: &EnginePath,
    ) -> Answer {
        let observed = EventsObservation {
            rescan: self.rescan(source, roots),
            exists: self.events_of(events_path).is_ok(),
            events: self.events_of(events_path),
        };
        source.handle_priority_event(events_path, &observed)
    }

    fn poll(&self, source: &mut CgroupV2EventsSource, roots: &[&str]) -> Answer {
        let observed: Vec<PollObservation> = source
            .priority_hint_paths()
            .iter()
            .map(|path| PollObservation {
                events: self.events_of(path),
                rescan: self.rescan(source, roots),
            })
            .collect();
        source.poll_current(&observed)
    }
}

const ROOT: &str = "/cg";
const ROOTS: [&str; 1] = [ROOT];
const IN_CREATE: u32 = 0x0000_0100;
const IN_DELETE: u32 = 0x0000_0200;
const IN_DELETE_SELF: u32 = 0x0000_0400;
const IN_Q_OVERFLOW: u32 = 0x0000_4000;

fn v2_source(
    groups: &Groups,
    filter: ForegroundCandidateFilter,
    entries: Vec<(&'static str, u32)>,
) -> CgroupV2EventsSource {
    CgroupV2EventsSource::new(
        vec![EnginePath::new(ROOT)],
        filter,
        &groups.listings(&ROOTS),
    )
    .with_package_cache(cache_from_entries(entries))
}

fn app_filter() -> ForegroundCandidateFilter {
    ForegroundCandidateFilter {
        uid_remainder_filter: Some(UidRemainderFilter {
            modulus: 100_000,
            min_remainder: 10_000,
        }),
        ..Default::default()
    }
}

fn key_of(source: &CgroupV2EventsSource, events_path: &EnginePath) -> u64 {
    source
        .priority_hint_keys()
        .into_iter()
        .find_map(|(path, key)| if path == *events_path { Some(key) } else { None })
        .unwrap()
}

/// A control group source over groups in memory.
struct MemoryV2 {
    source: CgroupV2EventsSource,
    groups: Rc<RefCell<Groups>>,
}

impl ForegroundSource for MemoryV2 {
    fn kind(&self) -> ForegroundSourceKind {
        self.source.kind()
    }
    fn poll_current(&mut self) -> Answer {
        self.groups.borrow().poll(&mut self.source, &ROOTS)
    }
    fn handle_fs_event(&mut self, path: &EnginePath) -> Answer {
        self.handle_fs_event_with_mask(path, 0)
    }
    fn handle_fs_event_with_mask(&mut self, path: &EnginePath, mask: u32) -> Answer {
        self.groups
            .borrow()
            .root_event(&mut self.source, &ROOTS, &path.to_text_lossy(), mask)
    }
    fn watch_hint_paths(&self) -> &Vec<EnginePath> {
        self.source.watch_hint_paths()
    }
    fn is_available(&self) -> bool {
        self.source
            .is_available(&self.groups.borrow().listings(&ROOTS))
    }
    fn watch_hint_mask(&self, path: &EnginePath) -> u32 {
        self.source.watch_hint_mask(path)
    }
    fn register_priority_fds(&self, registered: &PathSet) -> Vec<EnginePath> {
        self.source.register_priority_fds(registered)
    }
    fn priority_hint_paths(&self) -> Vec<EnginePath> {
        self.source.priority_hint_paths()
    }
    fn priority_hint_keys(&self) -> Vec<(EnginePath, u64)> {
        self.source.priority_hint_keys()
    }
    fn handle_priority_event(&mut self, path: &EnginePath) -> Answer {
        self.groups
            .borrow()
            .priority_event(&mut self.source, &ROOTS, path)
    }
    fn handle_stale_priority_event(&mut self, path: &EnginePath) -> Answer {
        let rescan = self.groups.borrow().rescan(&self.source, &ROOTS);
        self.source.handle_stale_priority_event(path, &rescan)
    }
    fn unregister_priority_fd(&self, path: &EnginePath) -> bool {
        self.source.unregister_priority_fd(path)
    }
}

fn memory_v2(groups: Groups, entries: Vec<(&'static str, u32)>) -> MemoryV2 {
    let source = v2_source(&groups, ForegroundCandidateFilter::default(), entries);
    MemoryV2 {
        source,
        groups: Rc::new(RefCell::new(groups)),
    }
}

// ---------------------------------------------------------------------------
// The cpuset source
// ---------------------------------------------------------------------------

#[test]
fn cgroup_v1_first_valid_pid_wins() {
    let mut source = v1_source(ForegroundCandidateFilter::default(), vec![(10, 10_123)]);

    let candidate = source
        .poll_current(Ok(b"10\n".to_vec()), &BTreeMap::new())
        .unwrap()
        .unwrap();
    assert_eq!(candidate.source, ForegroundSourceKind::CgroupV1);
    assert_eq!(candidate.pid, Some(10));
    assert_eq!(candidate.uid, Some(10_123));
}

#[test]
fn cgroup_v1_blocked_first_pid_skips_to_next() {
    let mut filter = ForegroundCandidateFilter::default();
    filter.blocked_uids.insert(10_001);
    let mut source = v1_source(filter, vec![(11, 10_001), (12, 10_002)]);

    let candidate = source
        .poll_current(Ok(b"11\n12\n".to_vec()), &BTreeMap::new())
        .unwrap()
        .unwrap();
    assert_eq!(candidate.pid, Some(12));
    assert_eq!(candidate.uid, Some(10_002));
}

#[test]
fn cgroup_v1_cache_hit_uses_warmed_cache_without_provider_fallback() {
    let cache = cache_from_entries(vec![("example.app", 10_123)]);
    assert_eq!(
        cache.uid_state(10_123),
        UidPackageState::Exact("example.app".to_string())
    );
    let mut source = v1_source(ForegroundCandidateFilter::default(), vec![(21, 10_123)])
        .with_package_cache(cache);

    let candidate = source
        .poll_current(Ok(b"21\n".to_vec()), &BTreeMap::new())
        .unwrap()
        .unwrap();
    assert_eq!(candidate.uid, Some(10_123));
    assert_eq!(candidate.package.as_deref(), Some("example.app"));
    assert!(candidate.identity_resolved);
}

#[test]
fn cgroup_v1_cache_miss_resolves_package_from_cmdline() {
    let mut source = v1_source(ForegroundCandidateFilter::default(), vec![(42, 10_042)])
        .with_package_cache(cache_from_entries(vec![]));

    let candidate = source
        .poll_current(
            Ok(b"42\n".to_vec()),
            &cmdlines(vec![(42, "missing.app :service")]),
        )
        .unwrap()
        .unwrap();

    assert_eq!(candidate.pid, Some(42));
    assert_eq!(candidate.uid, Some(10_042));
    assert_eq!(candidate.package.as_deref(), Some("missing.app"));
    assert!(candidate.identity_resolved);
}

#[test]
fn cgroup_v1_ambiguous_uid_resolves_matching_cmdline_package() {
    let mut source = v1_source(ForegroundCandidateFilter::default(), vec![(43, 10_043)])
        .with_package_cache(cache_from_entries(vec![
            ("one.app", 10_043),
            ("two.app", 10_043),
        ]));

    let candidate = source
        .poll_current(Ok(b"43\n".to_vec()), &cmdlines(vec![(43, "two.app")]))
        .unwrap()
        .unwrap();

    assert_eq!(candidate.package.as_deref(), Some("two.app"));
    assert!(candidate.identity_resolved);
}

#[test]
fn cgroup_v1_skips_termux_shell_process_before_package_cmdline() {
    let mut source = v1_source(
        ForegroundCandidateFilter::default(),
        vec![(44, 10_143), (45, 10_144)],
    )
    .with_package_cache(cache_from_entries(vec![
        ("com.termux", 10_143),
        ("com.openai.chatgpt", 10_144),
    ]));

    let candidate = source
        .poll_current(
            Ok(b"44\n45\n".to_vec()),
            &cmdlines(vec![
                (44, "/data/data/com.termux/files/usr/bin/bash"),
                (45, "com.openai.chatgpt"),
            ]),
        )
        .unwrap()
        .unwrap();

    assert_eq!(candidate.pid, Some(45));
    assert_eq!(candidate.uid, Some(10_144));
    assert_eq!(candidate.package.as_deref(), Some("com.openai.chatgpt"));
    assert_ne!(
        candidate.package.as_deref(),
        Some("/data/data/com.termux/files/usr/bin/bash")
    );
}

#[test]
fn cgroup_v1_non_termux_shell_process_can_resolve_from_uid_cache() {
    let mut source = v1_source(ForegroundCandidateFilter::default(), vec![(46, 10_146)])
        .with_package_cache(cache_from_entries(vec![("other.shell.host", 10_146)]));

    let candidate = source
        .poll_current(Ok(b"46\n".to_vec()), &cmdlines(vec![(46, "/system/bin/sh")]))
        .unwrap()
        .unwrap();

    assert_eq!(candidate.pid, Some(46));
    assert_eq!(candidate.package.as_deref(), Some("other.shell.host"));
}

#[test]
fn cgroup_v1_empty_or_invalid_returns_none() {
    let filter = ForegroundCandidateFilter {
        allow_system_uids: true,
        ..Default::default()
    };
    let mut source = v1_source(filter, vec![]);

    assert!(source
        .poll_current(Ok(b"\n".to_vec()), &BTreeMap::new())
        .unwrap()
        .is_none());
}

#[test]
fn cgroup_v1_invalid_payload_is_unusable() {
    let mut source = v1_source(ForegroundCandidateFilter::default(), vec![]);

    assert!(matches!(
        source
            .poll_current(Ok(b"not-a-pid\n999\n".to_vec()), &BTreeMap::new())
            .unwrap_err(),
        EngineError::Io { kind: IoErrorKind::InvalidData, .. }
    ));
}

#[test]
fn an_interface_process_wins_over_others_and_the_greatest_pid_over_its_like() {
    let uids = vec![(110, 10_001), (120, 10_002), (130, 10_003)];
    let mut source = v1_source(ForegroundCandidateFilter::default(), uids);
    let lines = cmdlines(vec![
        (110, "one.app:ui"),
        (120, "two.app"),
        (130, "three.app:remote"),
    ]);
    let best = source
        .poll_current(Ok(b"110\n120\n130\n".to_vec()), &lines)
        .unwrap()
        .unwrap();
    assert_eq!(best.package.as_deref(), Some("one.app"));

    let lines = cmdlines(vec![(110, "one.app"), (120, "two.app"), (130, "three.app")]);
    let best = source
        .poll_current(Ok(b"120\n130\n110\n".to_vec()), &lines)
        .unwrap()
        .unwrap();
    assert_eq!(best.package.as_deref(), Some("three.app"));
}

#[test]
fn a_failed_read_is_passed_on_and_another_path_is_no_event() {
    let mut source = v1_source(ForegroundCandidateFilter::default(), vec![(10, 10_123)]);
    assert_eq!(
        source.poll_current(Err(not_found()), &BTreeMap::new()),
        Err(not_found())
    );
    assert_eq!(
        source.handle_fs_event(
            &EnginePath::new("/elsewhere"),
            Ok(b"10\n".to_vec()),
            &BTreeMap::new()
        ),
        Ok(None)
    );
}

// ---------------------------------------------------------------------------
// Control group files
// ---------------------------------------------------------------------------

#[test]
fn cgroup_v2_events_parser_reads_populated_state() {
    assert_eq!(
        parse_cgroup_events_populated(b"populated 1\nfrozen 0\n"),
        CgroupV2Populated::Active
    );
    assert_eq!(
        parse_cgroup_events_populated(b"populated 0\n"),
        CgroupV2Populated::Inactive
    );
    assert_eq!(
        parse_cgroup_events_populated(b"frozen 0\n"),
        CgroupV2Populated::Unknown
    );
    assert_eq!(
        parse_cgroup_events_populated(b"populated x\n"),
        CgroupV2Populated::Unknown
    );
}

#[test]
fn cgroup_v2_uid_dir_parser_accepts_android_forms() {
    assert_eq!(
        parse_uid_dir_name(&EnginePath::new("uid_10123")),
        Some(10_123)
    );
    assert_eq!(
        parse_uid_dir_name(&EnginePath::new("u0_a123")),
        Some(10_123)
    );
    assert_eq!(
        parse_uid_dir_name(&EnginePath::new("u10_a123")),
        Some(1_010_123)
    );
    assert_eq!(parse_uid_dir_name(&EnginePath::new("pid_1")), None);
}

#[test]
fn uid_directories_out_of_range_name_no_uid() {
    assert_eq!(
        parse_uid_dir_name(&EnginePath::new("uid_4294967295")),
        Some(u32::MAX)
    );
    assert_eq!(parse_uid_dir_name(&EnginePath::new("uid_4294967296")), None);
    assert_eq!(parse_uid_dir_name(&EnginePath::new("u42950_a0")), None);
    assert_eq!(parse_uid_dir_name(&EnginePath::new("u42949_a99999")), None);
    assert_eq!(parse_uid_dir_name(&EnginePath::new("uid_")), None);
    assert_eq!(parse_uid_dir_name(&EnginePath::new("/cg/..")), None);
}

#[test]
fn cgroup2_mount_parser_finds_unified_mount_and_candidate_roots() {
    let mounts = "tmpfs /tmp tmpfs rw 0 0\nnone /sys/fs/cgroup cgroup2 rw,nosuid 0 0\n";

    assert_eq!(
        find_cgroup2_mount(mounts),
        Some(EnginePath::new("/sys/fs/cgroup"))
    );
    assert_eq!(
        candidate_uid_roots_from_proc_mounts(mounts),
        vec![
            EnginePath::new("/sys/fs/cgroup"),
            EnginePath::new("/sys/fs/cgroup/apps")
        ]
    );
}

#[test]
fn cgroup2_mount_parser_reads_parameterized_mounts_path() {
    let mounts = "none /cg cgroup2 rw 0 0\n";
    assert!(is_readable_table(mounts));
    assert_eq!(
        candidate_uid_roots_from_proc_mounts(mounts),
        vec![EnginePath::new("/cg"), EnginePath::new("/cg/apps")]
    );
    assert!(candidate_uid_roots_from_proc_mounts("tmpfs /tmp tmpfs rw 0 0\n").is_empty());
}

#[test]
fn mount_fields_are_unescaped() {
    let mounts = "a\\040b /mnt/with\\040space\\134x cgroup2 rw 0 0\nshort line\n";
    assert!(is_readable_table(mounts));
    let entries = parse_proc_mounts(mounts);
    assert_eq!(entries.len(), 1);
    assert_eq!(entries[0].source, "a b");
    assert_eq!(entries[0].mount_point, EnginePath::new("/mnt/with space\\x"));
    assert_eq!(entries[0].fs_type, "cgroup2");
}

#[test]
fn a_blocked_package_is_not_resolved_from_its_uid() {
    let cache = cache_from_entries(vec![("one.app", 10_001), ("two.app", 10_002)]);
    let blocked = coreshift_engine::ordered::OrdSet::from_vec(vec!["two.app".to_string()]);
    assert_eq!(
        resolve_v2_uid_with_cache(10_001, &cache, &blocked).as_deref(),
        Some("one.app")
    );
    assert_eq!(resolve_v2_uid_with_cache(10_002, &cache, &blocked), None);
    assert_eq!(resolve_v2_uid_with_cache(10_003, &cache, &blocked), None);
}

// ---------------------------------------------------------------------------
// The control group source
// ---------------------------------------------------------------------------

#[test]
fn cgroup_v2_startup_scan_resolves_populated_uid() {
    let groups = Groups::with(vec![("/cg/uid_10123", "populated 1\n")]);
    let mut source = v2_source(&groups, app_filter(), vec![("example.app", 10_123)]);

    let candidate = groups.poll(&mut source, &ROOTS).unwrap().unwrap();
    assert_eq!(candidate.source, ForegroundSourceKind::CgroupV2);
    assert_eq!(candidate.uid, Some(10_123));
    assert_eq!(candidate.package.as_deref(), Some("example.app"));
    assert!(candidate.identity_resolved);
    assert_eq!(source.watch_hint_paths(), &vec![EnginePath::new(ROOT)]);
    assert_eq!(
        source.priority_hint_paths(),
        vec![EnginePath::new("/cg/uid_10123/cgroup.events")]
    );
}

#[test]
fn cgroup_v2_ignores_non_app_uid() {
    let groups = Groups::with(vec![("/cg/uid_9999", "populated 1\n")]);
    let mut source = v2_source(&groups, app_filter(), vec![("system.app", 9_999)]);

    assert!(groups.poll(&mut source, &ROOTS).unwrap().is_none());
    assert_eq!(source.uid_watch_count(), 0);
}

#[test]
fn cgroup_v2_ambiguous_and_blocked_uid_are_skipped() {
    let groups = Groups::with(vec![
        ("/cg/uid_10123", "populated 1\n"),
        ("/cg/uid_10124", "populated 1\n"),
    ]);
    let mut filter = ForegroundCandidateFilter::default();
    filter.blocked_packages.insert("blocked.app".to_string());
    let mut source = v2_source(
        &groups,
        filter,
        vec![
            ("ambiguous.one", 10_123),
            ("ambiguous.two", 10_123),
            ("blocked.app", 10_124),
        ],
    );

    assert!(groups.poll(&mut source, &ROOTS).unwrap().is_none());
}

#[test]
fn cgroup_v2_root_create_event_adds_uid_watch() {
    let mut groups = Groups::default();
    let mut source = v2_source(
        &groups,
        ForegroundCandidateFilter::default(),
        vec![("example.app", 10_123)],
    );
    assert_eq!(source.uid_watch_count(), 0);

    groups.set("/cg/uid_10123", "populated 1\n");
    let candidate = groups
        .root_event(&mut source, &ROOTS, "/cg/uid_10123", IN_CREATE)
        .unwrap()
        .unwrap();

    assert!(source.has_uid_watch(10_123));
    assert_eq!(candidate.package.as_deref(), Some("example.app"));
}

#[test]
fn cgroup_v2_root_delete_event_removes_uid_watch() {
    let mut groups = Groups::with(vec![("/cg/uid_10123", "populated 1\n")]);
    let mut source = v2_source(
        &groups,
        ForegroundCandidateFilter::default(),
        vec![("example.app", 10_123)],
    );
    assert!(source.has_uid_watch(10_123));

    groups.remove("/cg/uid_10123");
    assert!(groups
        .root_event(&mut source, &ROOTS, "/cg/uid_10123", IN_DELETE)
        .unwrap()
        .is_none());

    assert!(!source.has_uid_watch(10_123));
}

#[test]
fn cgroup_v2_delete_event_removes_only_matching_duplicate_uid_path() {
    let roots = ["/one", "/two"];
    let mut groups = Groups::with(vec![
        ("/one/uid_10123", "populated 1\n"),
        ("/two/uid_10123", "populated 1\n"),
    ]);
    let mut source = CgroupV2EventsSource::new(
        vec![EnginePath::new("/one"), EnginePath::new("/two")],
        ForegroundCandidateFilter::default(),
        &groups.listings(&roots),
    )
    .with_package_cache(cache_from_entries(vec![("example.app", 10_123)]));
    let one = EnginePath::new("/one/uid_10123/cgroup.events");
    let two = EnginePath::new("/two/uid_10123/cgroup.events");

    assert_eq!(source.uid_watch_count(), 2);
    assert!(source.has_uid_watch_path(&one));
    assert!(source.has_uid_watch_path(&two));

    groups.remove("/two/uid_10123");
    assert!(groups
        .root_event(&mut source, &roots, "/two/uid_10123", IN_DELETE)
        .unwrap()
        .is_none());

    assert_eq!(source.uid_watch_count(), 1);
    assert!(source.has_uid_watch_path(&one));
    assert!(!source.has_uid_watch_path(&two));
    assert!(source.has_uid_watch(10_123));
}

#[test]
fn cgroup_v2_watch_mask_includes_stale_root_masks() {
    let source = v2_source(
        &Groups::default(),
        ForegroundCandidateFilter::default(),
        vec![],
    );
    let mask = source.watch_hint_mask(&EnginePath::new(ROOT));

    assert_ne!(mask & 0x0000_0400, 0);
    assert_ne!(mask & 0x0000_0800, 0);
    assert_ne!(mask & 0x0000_8000, 0);
}

#[test]
fn cgroup_v2_empty_root_is_unavailable() {
    let groups = Groups::default();
    let source = v2_source(&groups, ForegroundCandidateFilter::default(), vec![]);

    assert!(!source.is_available(&groups.listings(&ROOTS)));
}

#[test]
fn cgroup_v2_uid_layout_without_cgroup_events_is_unavailable() {
    let mut groups = Groups::default();
    groups.dirs.insert("/cg/uid_10123".to_string(), None);
    let source = v2_source(&groups, ForegroundCandidateFilter::default(), vec![]);

    assert!(!source.is_available(&groups.listings(&ROOTS)));
    assert_eq!(source.uid_watch_count(), 0);
}

#[test]
fn cgroup_v2_uid_layout_with_inactive_events_is_available() {
    let groups = Groups::with(vec![("/cg/uid_10123", "populated 0\n")]);
    let mut source = v2_source(
        &groups,
        ForegroundCandidateFilter::default(),
        vec![("example.app", 10_123)],
    );

    assert!(source.is_available(&groups.listings(&ROOTS)));
    assert_eq!(source.uid_watch_count(), 1);
    assert!(groups.poll(&mut source, &ROOTS).unwrap().is_none());
}

#[test]
fn cgroup_v2_populated_zero_keeps_last_real_candidate() {
    let source = memory_v2(
        Groups::with(vec![("/cg/uid_10123", "populated 1\n")]),
        vec![("example.app", 10_123)],
    );
    let groups = source.groups.clone();
    let mut manager = ForegroundManager::new(source);
    let events_path = EnginePath::new("/cg/uid_10123/cgroup.events");

    assert!(matches!(
        manager.poll_changed().unwrap(),
        Some(ForegroundUpdate::Active(_))
    ));
    groups.borrow_mut().set("/cg/uid_10123", "populated 0\n");

    assert!(manager
        .handle_priority_event_changed(&events_path)
        .unwrap()
        .is_none());
    assert!(
        matches!(manager.last_payload(), Some(candidate) if candidate.package.as_deref() == Some("example.app"))
    );
}

#[test]
fn cgroup_v2_repeated_priority_active_after_poll_emits_no_duplicate() {
    let source = memory_v2(
        Groups::with(vec![("/cg/uid_10123", "populated 1\n")]),
        vec![("example.app", 10_123)],
    );
    let mut manager = ForegroundManager::new(source);

    assert!(matches!(
        manager.poll_changed().unwrap(),
        Some(ForegroundUpdate::Active(_))
    ));
    assert!(manager
        .handle_priority_event_changed(&EnginePath::new("/cg/uid_10123/cgroup.events"))
        .unwrap()
        .is_none());
}

#[test]
fn cgroup_v2_repeated_priority_inactive_emits_no_duplicate_unknown() {
    let source = memory_v2(
        Groups::with(vec![("/cg/uid_10123", "populated 0\n")]),
        vec![("example.app", 10_123)],
    );
    let mut manager = ForegroundManager::new(source);
    let events_path = EnginePath::new("/cg/uid_10123/cgroup.events");

    assert!(manager.poll_changed().unwrap().is_none());
    assert!(manager
        .handle_priority_event_changed(&events_path)
        .unwrap()
        .is_none());
    assert!(manager
        .handle_priority_event_changed(&events_path)
        .unwrap()
        .is_none());
}

#[test]
fn cgroup_v2_queue_overflow_rescans_roots() {
    let mut groups = Groups::default();
    let mut source = v2_source(
        &groups,
        ForegroundCandidateFilter::default(),
        vec![("example.app", 10_123)],
    );
    assert_eq!(source.uid_watch_count(), 0);

    groups.set("/cg/uid_10123", "populated 1\n");
    assert!(groups
        .root_event(&mut source, &ROOTS, "", IN_Q_OVERFLOW)
        .unwrap()
        .is_none());

    assert!(source.has_uid_watch(10_123));
}

#[test]
fn cgroup_v2_stale_root_event_marks_stale_without_panic() {
    let groups = Groups::default();
    let mut source = v2_source(&groups, ForegroundCandidateFilter::default(), vec![]);

    assert!(groups
        .root_event(&mut source, &ROOTS, ROOT, IN_DELETE_SELF)
        .unwrap()
        .is_none());
    assert!(source.is_root_stale(&EnginePath::new(ROOT)));
}

#[test]
fn cgroup_v2_recreated_same_path_events_file_gets_new_priority_key() {
    let mut groups = Groups::with(vec![("/cg/uid_10123", "populated 1\n")]);
    let mut source = v2_source(
        &groups,
        ForegroundCandidateFilter::default(),
        vec![("example.app", 10_123)],
    );
    let events_path = EnginePath::new("/cg/uid_10123/cgroup.events");
    let first_key = key_of(&source, &events_path);

    groups.remove("/cg/uid_10123");
    assert!(groups
        .root_event(&mut source, &ROOTS, "/cg/uid_10123", IN_DELETE)
        .unwrap()
        .is_none());
    assert!(source.priority_hint_keys().is_empty());

    groups.set("/cg/uid_10123", "populated 1\n");
    let candidate = groups
        .root_event(&mut source, &ROOTS, "/cg/uid_10123", IN_CREATE)
        .unwrap()
        .unwrap();
    let recreated_key = key_of(&source, &events_path);

    assert_eq!(candidate.package.as_deref(), Some("example.app"));
    assert_ne!(first_key, recreated_key);
}

#[test]
fn cgroup_v2_deleted_priority_event_does_not_error_and_removes_stale_watch() {
    let mut groups = Groups::with(vec![("/cg/uid_10123", "populated 1\n")]);
    let mut source = v2_source(
        &groups,
        ForegroundCandidateFilter::default(),
        vec![("example.app", 10_123)],
    );
    let events_path = EnginePath::new("/cg/uid_10123/cgroup.events");
    assert!(source.has_uid_watch_path(&events_path));

    groups.remove("/cg/uid_10123");
    assert!(groups
        .priority_event(&mut source, &ROOTS, &events_path)
        .unwrap()
        .is_none());

    assert!(!source.has_uid_watch_path(&events_path));
    assert_eq!(source.uid_watch_count(), 0);
}

#[test]
fn cgroup_v2_poll_current_removes_deleted_events_path_rescans_and_continues() {
    let mut groups = Groups::with(vec![
        ("/cg/uid_10123", "populated 1\n"),
        ("/cg/uid_10124", "populated 1\n"),
    ]);
    let mut source = v2_source(
        &groups,
        ForegroundCandidateFilter::default(),
        vec![
            ("stale.app", 10_123),
            ("remaining.app", 10_124),
            ("rescanned.app", 10_125),
        ],
    );
    let stale = EnginePath::new("/cg/uid_10123/cgroup.events");
    let remaining = EnginePath::new("/cg/uid_10124/cgroup.events");
    let rescanned = EnginePath::new("/cg/uid_10125/cgroup.events");

    assert!(source.has_uid_watch_path(&stale));
    assert!(source.has_uid_watch_path(&remaining));

    groups.remove("/cg/uid_10123");
    groups.set("/cg/uid_10125", "populated 1\n");
    let candidate = groups.poll(&mut source, &ROOTS).unwrap().unwrap();

    assert_eq!(candidate.package.as_deref(), Some("remaining.app"));
    assert!(!source.has_uid_watch_path(&stale));
    assert!(source.has_uid_watch_path(&remaining));
    assert!(source.has_uid_watch_path(&rescanned));

    groups.set("/cg/uid_10123", "populated 1\n");
    let replacement = groups
        .root_event(&mut source, &ROOTS, "/cg/uid_10123", IN_CREATE)
        .unwrap()
        .unwrap();
    assert_eq!(replacement.package.as_deref(), Some("stale.app"));
    assert!(source.has_uid_watch_path(&stale));
}

#[test]
fn cgroup_v2_stale_priority_event_rescans_recreated_same_path() {
    let groups = Groups::with(vec![("/cg/uid_10123", "populated 1\n")]);
    let mut source = v2_source(
        &groups,
        ForegroundCandidateFilter::default(),
        vec![("example.app", 10_123)],
    );
    let events_path = EnginePath::new("/cg/uid_10123/cgroup.events");
    let first_key = key_of(&source, &events_path);

    let rescan = groups.rescan(&source, &ROOTS);
    assert!(source
        .handle_stale_priority_event(&events_path, &rescan)
        .unwrap()
        .is_none());
    let recreated_key = key_of(&source, &events_path);

    assert!(source.has_uid_watch_path(&events_path));
    assert_ne!(first_key, recreated_key);
}

#[test]
fn watcher_v2_root_delete_drops_priority_registrations() {
    let mut groups = Groups::with(vec![("/cg/uid_10123", "populated 1\n")]);
    let mut source = v2_source(
        &groups,
        ForegroundCandidateFilter::default(),
        vec![("example.app", 10_123)],
    );

    assert_eq!(source.priority_hint_keys().len(), 1);

    groups.remove("/cg/uid_10123");
    assert!(groups
        .root_event(&mut source, &ROOTS, ROOT, IN_DELETE_SELF)
        .unwrap()
        .is_none());

    assert!(source.priority_hint_keys().is_empty());
    assert!(source.is_root_stale(&EnginePath::new(ROOT)));
    assert!(!source.is_available(&groups.listings(&ROOTS)));
}

#[test]
fn an_unreadable_events_file_ends_a_poll_with_its_error() {
    let groups = Groups::with(vec![("/cg/uid_10123", "populated 1\n")]);
    let mut source = v2_source(
        &groups,
        ForegroundCandidateFilter::default(),
        vec![("example.app", 10_123)],
    );
    let denied = EngineError::io(IoErrorKind::PermissionDenied, "denied");
    let observed = vec![PollObservation {
        events: Err(denied.clone()),
        rescan: Rescan::nothing(),
    }];
    assert_eq!(source.poll_current(&observed), Err(denied));
    assert_eq!(source.uid_watch_count(), 1);
}

// ---------------------------------------------------------------------------
// Manager and pipeline
// ---------------------------------------------------------------------------

#[test]
fn duplicate_in_modify_same_cgroup_procs_emits_once() {
    let (source, _procs) = memory_v1(
        ForegroundCandidateFilter::default(),
        vec![(10, 10_123)],
        "10\n",
    );
    let mut manager = ForegroundManager::new(source);
    let procs = EnginePath::new(PROCS);

    assert!(manager
        .handle_fs_event_changed(&procs, 0)
        .unwrap()
        .is_some());
    assert!(manager
        .handle_fs_event_changed(&procs, 0)
        .unwrap()
        .is_none());
}

#[test]
fn changed_first_valid_pid_emits_again() {
    let (source, file) = memory_v1(
        ForegroundCandidateFilter::default(),
        vec![(10, 10_123), (11, 10_124)],
        "10\n",
    );
    let mut manager = ForegroundManager::new(source);
    let procs = EnginePath::new(PROCS);

    assert_eq!(
        manager
            .handle_fs_event_changed(&procs, 0)
            .unwrap()
            .unwrap()
            .active()
            .unwrap()
            .pid,
        Some(10)
    );
    *file.borrow_mut() = "11\n".to_string();
    let changed = manager
        .handle_fs_event_changed(&procs, 0)
        .unwrap()
        .unwrap()
        .active()
        .unwrap();
    assert_eq!(changed.pid, Some(11));
    assert_eq!(changed.uid, Some(10_124));
}

#[test]
fn first_read_none_then_second_read_valid_emits() {
    let candidate = foreground_candidate(ForegroundSourceKind::CgroupV1, Some(10), Some(10_123));
    let source = SequenceForegroundSource::new(vec![None, Some(candidate.clone())]);
    let mut manager = ForegroundManager::new(source);

    let changed = manager
        .handle_fs_event_changed(&EnginePath::new("/tmp/cgroup.procs"), 0)
        .unwrap();

    assert_eq!(changed.and_then(|update| update.active()), Some(candidate));
}

#[test]
fn changed_package_or_identity_resolution_emits_again() {
    let mut first = foreground_candidate(ForegroundSourceKind::CgroupV1, Some(10), Some(10_123));
    first.package = Some("one.app".to_string());
    first.identity_resolved = true;
    let mut second = foreground_candidate(ForegroundSourceKind::CgroupV1, Some(10), Some(10_123));
    second.package = Some("two.app".to_string());
    second.identity_resolved = true;
    let source = SequenceForegroundSource::new(vec![Some(first), Some(second.clone())]);
    let mut manager = ForegroundManager::new(source);

    assert!(manager.poll_changed().unwrap().is_some());
    assert_eq!(
        manager
            .poll_changed()
            .unwrap()
            .and_then(|update| update.active()),
        Some(second)
    );
}

#[test]
fn repeated_same_valid_payload_after_retry_is_ignored() {
    let candidate = foreground_candidate(ForegroundSourceKind::CgroupV1, Some(10), Some(10_123));
    let source =
        SequenceForegroundSource::new(vec![Some(candidate.clone()), None, Some(candidate.clone())]);
    let mut manager = ForegroundManager::new(source);

    assert!(manager.poll_changed().unwrap().is_some());
    assert!(manager
        .handle_fs_event_changed(&EnginePath::new("/tmp/cgroup.procs"), 0)
        .unwrap()
        .is_none());
}

#[test]
fn blocked_first_pid_dedupes_based_on_first_valid_unblocked_candidate() {
    let mut filter = ForegroundCandidateFilter::default();
    filter.blocked_uids.insert(10_123);
    let (source, _procs) = memory_v1(filter, vec![(10, 10_123), (11, 10_124)], "10\n11\n");
    let mut manager = ForegroundManager::new(source);
    let procs = EnginePath::new(PROCS);

    let first = manager
        .handle_fs_event_changed(&procs, 0)
        .unwrap()
        .unwrap()
        .active()
        .unwrap();
    assert_eq!(first.pid, Some(11));
    assert_eq!(first.uid, Some(10_124));
    assert!(manager
        .handle_fs_event_changed(&procs, 0)
        .unwrap()
        .is_none());
}

#[test]
fn old_foreground_is_retained_when_source_becomes_unknown() {
    let first = foreground_candidate(ForegroundSourceKind::CgroupV1, Some(10), Some(10_123));
    let source = SequenceForegroundSource::new(vec![Some(first.clone()), None, None, None]);
    let mut manager = ForegroundManager::new(source);

    assert!(manager.poll_changed().unwrap().is_some());
    let update = manager
        .handle_fs_event_changed(&EnginePath::new("/tmp/cgroup.procs"), 0)
        .unwrap();
    assert!(update.is_none());
    assert_eq!(manager.last_payload(), Some(&first));
}

#[test]
fn an_event_is_asked_three_times_at_most() {
    let candidate = foreground_candidate(ForegroundSourceKind::CgroupV1, Some(10), Some(10_123));
    let source =
        SequenceForegroundSource::new(vec![None, None, None, Some(candidate.clone())]);
    let mut manager = ForegroundManager::new(source);
    assert!(manager
        .handle_fs_event_changed(&EnginePath::new("/tmp/cgroup.procs"), 0)
        .unwrap()
        .is_none());
    assert_eq!(
        manager.poll_changed().unwrap(),
        Some(ForegroundUpdate::Active(candidate))
    );
}

#[test]
fn foreground_pipeline_duplicate_same_payload_emits_once() {
    let candidate = foreground_candidate(ForegroundSourceKind::CgroupV1, Some(10), Some(10_123));
    let source = SequenceForegroundSource::new(vec![Some(candidate.clone()), Some(candidate)]);
    let mut pipeline = ForegroundPipeline::new(ForegroundManager::new(source));
    let mut invalidator = test_invalidator();

    assert_eq!(
        pipeline.poll_changed(&mut invalidator).unwrap().events.len(),
        1
    );
    assert!(pipeline
        .poll_changed(&mut invalidator)
        .unwrap()
        .events
        .is_empty());
    assert_eq!(invalidator.foreground_count(), 0);
}

#[test]
fn foreground_pipeline_changed_payload_emits_twice() {
    let source = SequenceForegroundSource::new(vec![
        Some(foreground_candidate(
            ForegroundSourceKind::CgroupV1,
            Some(10),
            Some(10_123),
        )),
        Some(foreground_candidate(
            ForegroundSourceKind::CgroupV1,
            Some(11),
            Some(10_124),
        )),
    ]);
    let mut pipeline = ForegroundPipeline::new(ForegroundManager::new(source));
    let mut invalidator = test_invalidator();

    assert_eq!(
        pipeline.poll_changed(&mut invalidator).unwrap().events.len(),
        1
    );
    assert_eq!(
        pipeline.poll_changed(&mut invalidator).unwrap().events.len(),
        1
    );
    assert_eq!(invalidator.foreground_count(), 1);
}

#[test]
fn duplicate_payload_does_not_increment_invalidation_counter() {
    let candidate = foreground_candidate(ForegroundSourceKind::CgroupV1, Some(10), Some(10_123));
    let source = SequenceForegroundSource::new(vec![Some(candidate.clone()), Some(candidate)]);
    let mut pipeline = ForegroundPipeline::new(ForegroundManager::new(source));
    let mut invalidator = test_invalidator();

    let _ = pipeline.poll_changed(&mut invalidator).unwrap();
    let _ = pipeline.poll_changed(&mut invalidator).unwrap();

    assert_eq!(invalidator.foreground_count(), 0);
}

#[test]
fn changed_payload_increments_invalidation_counter() {
    let source = SequenceForegroundSource::new(vec![
        Some(foreground_candidate(
            ForegroundSourceKind::CgroupV1,
            Some(10),
            Some(10_123),
        )),
        Some(foreground_candidate(
            ForegroundSourceKind::CgroupV1,
            Some(10),
            Some(10_124),
        )),
    ]);
    let mut pipeline = ForegroundPipeline::new(ForegroundManager::new(source));
    let mut invalidator = test_invalidator();

    let _ = pipeline.poll_changed(&mut invalidator).unwrap();
    let _ = pipeline.poll_changed(&mut invalidator).unwrap();

    assert_eq!(invalidator.foreground_count(), 1);
}

#[test]
fn the_second_change_makes_a_look_due() {
    let source = SequenceForegroundSource::new(
        (0..3)
            .map(|i| {
                Some(foreground_candidate(
                    ForegroundSourceKind::CgroupV1,
                    Some(10 + i),
                    Some(10_123),
                ))
            })
            .collect(),
    );
    let mut pipeline = ForegroundPipeline::new(ForegroundManager::new(source));
    let mut invalidator = test_invalidator();
    let due: Vec<bool> = (0..3)
        .map(|_| {
            pipeline
                .poll_changed(&mut invalidator)
                .unwrap()
                .check_packages_xml
        })
        .collect();
    assert_eq!(due, vec![false, false, true]);
}

#[test]
fn foreground_pipeline_exact_cache_hit_updates_last_identity() {
    let source = SequenceForegroundSource::new(vec![Some(foreground_candidate(
        ForegroundSourceKind::CgroupV1,
        Some(10),
        Some(10_123),
    ))]);
    let mut pipeline = ForegroundPipeline::new(ForegroundManager::new(source));
    let mut invalidator = test_invalidator();
    let mut services = services_with(vec![("example.app", 10_123)]);
    let mut state = EngineState::default();

    let events = pipeline.poll_changed(&mut invalidator).unwrap().events;
    apply_event_path(events, &mut services, &mut state);

    let identity = state.last_identity.unwrap();
    assert_eq!(identity.package.as_deref(), Some("example.app"));
    assert_eq!(identity.state, ResolvedIdentityState::Exact);
}

#[test]
fn no_valid_candidate_keeps_last_payload_and_last_identity() {
    let first = foreground_candidate(ForegroundSourceKind::CgroupV1, Some(10), Some(10_123));
    let source = SequenceForegroundSource::new(vec![Some(first.clone()), None, None, None]);
    let mut pipeline = ForegroundPipeline::new(ForegroundManager::new(source));
    let mut invalidator = test_invalidator();
    let mut services = services_with(vec![("example.app", 10_123)]);
    let mut state = EngineState::default();

    let events = pipeline.poll_changed(&mut invalidator).unwrap().events;
    apply_event_path(events, &mut services, &mut state);
    let clear_events = pipeline
        .handle_fs_event_changed(&EnginePath::new("/tmp/cgroup.procs"), 0, &mut invalidator)
        .unwrap()
        .events;
    apply_event_path(clear_events, &mut services, &mut state);

    assert_eq!(pipeline.manager().last_payload(), Some(&first));
    assert_eq!(
        state
            .last_identity
            .as_ref()
            .and_then(|id| id.package.as_deref()),
        Some("example.app")
    );
}

#[test]
fn blocked_or_ambiguous_candidate_keeps_last_real_package() {
    let first = foreground_candidate(ForegroundSourceKind::CgroupV1, Some(1), Some(10_123));
    let source = SequenceForegroundSource::new(vec![Some(first), None, None, None]);
    let mut pipeline = ForegroundPipeline::new(ForegroundManager::new(source));
    let mut invalidator = test_invalidator();
    let mut services = services_with(vec![("example.app", 10_123)]);
    let mut state = EngineState::default();

    let events = pipeline.poll_changed(&mut invalidator).unwrap().events;
    apply_event_path(events, &mut services, &mut state);
    assert_eq!(
        state
            .last_identity
            .as_ref()
            .and_then(|id| id.package.as_deref()),
        Some("example.app")
    );

    let events = pipeline
        .handle_fs_event_changed(&EnginePath::new("/tmp/cgroup.procs"), 0, &mut invalidator)
        .unwrap()
        .events;
    assert!(events.is_empty());
    apply_event_path(events, &mut services, &mut state);
    assert_eq!(
        state
            .last_identity
            .as_ref()
            .and_then(|id| id.package.as_deref()),
        Some("example.app")
    );
}

#[test]
fn foreground_manager_watch_paths_and_handle_fs_event() {
    let (source, _procs) = memory_v1(
        ForegroundCandidateFilter::default(),
        vec![(31, 10_131)],
        "31\n",
    );
    let mut manager = ForegroundManager::new(source);
    let procs = EnginePath::new(PROCS);

    assert_eq!(manager.watch_hint_paths(), &vec![procs.clone()]);
    let ignored = manager
        .handle_fs_event(&EnginePath::new("/dev/cpuset/top-app/other"))
        .unwrap();
    assert!(ignored.is_none());

    let candidate = manager.handle_fs_event(&procs).unwrap().unwrap();
    assert_eq!(candidate.pid, Some(31));
    assert_eq!(candidate.uid, Some(10_131));
}

// ---------------------------------------------------------------------------
// The source that tries several
// ---------------------------------------------------------------------------

#[test]
fn auto_foreground_source_order_is_v1_v2_activity_lazy() {
    let v1_candidate = foreground_candidate(ForegroundSourceKind::CgroupV1, Some(1), Some(10_123));
    let v2_candidate = foreground_candidate(ForegroundSourceKind::CgroupV2, None, Some(10_124));
    let activity_calls = Rc::new(Cell::new(0));
    let calls = activity_calls.clone();
    let mut source = AutoForegroundSource::new(
        SequenceForegroundSource::new(vec![Some(v1_candidate.clone())]),
        SequenceForegroundSource {
            kind: ForegroundSourceKind::CgroupV2,
            responses: vec![Some(v2_candidate.clone())].into(),
            watch_hint_paths: vec![EnginePath::new("/tmp/v2")],
        },
        move || {
            calls.set(calls.get() + 1);
            Ok(Some(foreground_candidate(
                ForegroundSourceKind::ActivityManager,
                None,
                Some(10_125),
            )))
        },
    );

    assert_eq!(source.poll_current().unwrap(), Some(v1_candidate));
    assert_eq!(activity_calls.get(), 0);

    let activity_calls = Rc::new(Cell::new(0));
    let calls = activity_calls.clone();
    let mut source = AutoForegroundSource::new(
        UnavailableForegroundSource {
            kind: ForegroundSourceKind::CgroupV1,
            watch_hint_paths: vec![EnginePath::new("/tmp/cgroup.procs")],
        },
        SequenceForegroundSource {
            kind: ForegroundSourceKind::CgroupV2,
            responses: vec![Some(v2_candidate.clone())].into(),
            watch_hint_paths: vec![EnginePath::new("/tmp/v2")],
        },
        move || {
            calls.set(calls.get() + 1);
            Ok(None)
        },
    );

    assert_eq!(source.poll_current().unwrap(), Some(v2_candidate.clone()));
    assert_eq!(activity_calls.get(), 0);

    let activity_calls = Rc::new(Cell::new(0));
    let calls = activity_calls.clone();
    let mut source = AutoForegroundSource::new(
        SequenceForegroundSource::new(vec![None]),
        SequenceForegroundSource {
            kind: ForegroundSourceKind::CgroupV2,
            responses: vec![Some(v2_candidate)].into(),
            watch_hint_paths: vec![EnginePath::new("/tmp/v2")],
        },
        move || {
            calls.set(calls.get() + 1);
            Ok(Some(foreground_candidate(
                ForegroundSourceKind::ActivityManager,
                None,
                Some(10_125),
            )))
        },
    );

    assert!(source.poll_current().unwrap().is_none());
    assert_eq!(activity_calls.get(), 0);

    let activity_calls = Rc::new(Cell::new(0));
    let calls = activity_calls.clone();
    let mut source = AutoForegroundSource::new(
        UnavailableForegroundSource {
            kind: ForegroundSourceKind::CgroupV1,
            watch_hint_paths: vec![EnginePath::new("/tmp/cgroup.procs")],
        },
        UnavailableForegroundSource {
            kind: ForegroundSourceKind::CgroupV2,
            watch_hint_paths: vec![EnginePath::new("/tmp/v2")],
        },
        move || {
            calls.set(calls.get() + 1);
            Ok(Some(foreground_candidate(
                ForegroundSourceKind::ActivityManager,
                None,
                Some(10_125),
            )))
        },
    );

    let candidate = source.poll_current().unwrap().unwrap();
    assert_eq!(candidate.source, ForegroundSourceKind::ActivityManager);
    assert_eq!(activity_calls.get(), 1);
}

#[test]
fn blocked_uids_are_integers_of_a_set() {
    let filter = ForegroundCandidateFilter {
        blocked_uids: BTreeSet::from([10_123]),
        accessibility_uids: BTreeSet::from([10_124]),
        ..Default::default()
    };
    assert!(!filter.is_valid_uid(10_123));
    assert!(!filter.is_valid_uid(10_124));
    assert!(!filter.is_valid_uid(9_999));
    assert!(filter.is_valid_uid(10_125));
    assert!(app_filter().is_valid_uid(110_000));
    assert!(!app_filter().is_valid_uid(109_999));
}

#[test]
fn the_paths_of_both_sources_are_watched_while_the_first_does_not_work() {
    let shared = EnginePath::new("/tmp/shared");
    let mut source = AutoForegroundSource::new(
        UnavailableForegroundSource {
            kind: ForegroundSourceKind::CgroupV1,
            watch_hint_paths: vec![EnginePath::new("/tmp/cgroup.procs"), shared.clone()],
        },
        SequenceForegroundSource {
            kind: ForegroundSourceKind::CgroupV2,
            responses: VecDeque::new(),
            watch_hint_paths: vec![EnginePath::new("/tmp//shared/"), EnginePath::new("/tmp/v2")],
        },
        || Ok(None),
    );

    assert_eq!(
        *source.watch_hint_paths(),
        vec![
            EnginePath::new("/tmp/cgroup.procs"),
            shared,
            EnginePath::new("/tmp/v2")
        ]
    );
    assert!(source.is_available());
    assert_eq!(source.kind(), ForegroundSourceKind::Auto);
    assert_eq!(source.poll_current(), Ok(None));

    let working = AutoForegroundSource::new(
        SequenceForegroundSource::new(Vec::new()),
        SequenceForegroundSource {
            kind: ForegroundSourceKind::CgroupV2,
            responses: VecDeque::new(),
            watch_hint_paths: vec![EnginePath::new("/tmp/v2")],
        },
        || Ok(None),
    );
    assert_eq!(
        *working.watch_hint_paths(),
        vec![EnginePath::new("/tmp/cgroup.procs")]
    );
}

#[test]
fn a_poll_answers_with_the_first_populated_group_that_has_an_application() {
    let groups = Groups::with(vec![
        ("/sys/fs/cgroup/uid_10001", "populated 0\n"),
        ("/sys/fs/cgroup/uid_10002", "populated 1\n"),
        ("/sys/fs/cgroup/uid_10003", "populated 1\n"),
        ("/sys/fs/cgroup/uid_10004", "populated 1\n"),
    ]);
    let mut source = CgroupV2EventsSource::new(
        vec![EnginePath::new("/sys/fs/cgroup")],
        ForegroundCandidateFilter::default(),
        &groups.listings(&["/sys/fs/cgroup"]),
    )
    .with_package_cache(cache_from_entries(vec![
        ("one.app", 10_001),
        ("three.app", 10_003),
        ("four.app", 10_004),
    ]));

    assert_eq!(source.uid_watch_count(), 4);
    let found = groups.poll(&mut source, &["/sys/fs/cgroup"]).unwrap().unwrap();
    assert_eq!(found.package.as_deref(), Some("three.app"));
    assert_eq!(found.uid, Some(10_003));

    let keys: Vec<u64> = source
        .priority_hint_keys()
        .into_iter()
        .map(|(_, key)| key)
        .collect();
    assert_eq!(keys, vec![1, 2, 3, 4]);
}

fn poll_v1(
    source: &mut CgroupV1CpusetSource<MapPidUidResolver>,
    procs: &str,
    lines: Vec<(i32, &str)>,
) -> Option<ForegroundCandidate> {
    source
        .poll_current(Ok(procs.as_bytes().to_vec()), &cmdlines(lines))
        .unwrap()
}

fn blocking(package: &str) -> ForegroundCandidateFilter {
    ForegroundCandidateFilter {
        blocked_packages: OrdSet::from_vec(vec![package.to_string()]),
        ..Default::default()
    }
}

#[test]
fn a_process_of_a_blocked_package_does_not_hide_an_allowed_one() {
    let uids = vec![(200, 10_001), (300, 10_002)];
    let mut source = v1_source(blocking("blocked.app"), uids);
    let lines = vec![(200, "allowed.app"), (300, "blocked.app")];

    let best = poll_v1(&mut source, "200\n300\n", lines.clone()).unwrap();
    assert_eq!(best.pid, Some(200));
    assert_eq!(best.package.as_deref(), Some("allowed.app"));
    assert!(best.identity_resolved);
    assert_eq!(poll_v1(&mut source, "300\n200\n", lines.clone()), Some(best));
    assert_eq!(poll_v1(&mut source, "300\n", lines), None);
}

#[test]
fn a_process_of_a_blocked_package_counts_as_the_package_of_its_uid() {
    let mut source = v1_source(blocking("blocked.app"), vec![(300, 10_002)])
        .with_package_cache(cache_from_entries(vec![("owner.app", 10_002)]));

    let best = poll_v1(&mut source, "300\n", vec![(300, "blocked.app:ui")]).unwrap();
    assert_eq!(best.package.as_deref(), Some("owner.app"));

    let mut source = v1_source(blocking("blocked.app"), vec![(300, 10_002)])
        .with_package_cache(cache_from_entries(vec![("blocked.app", 10_002)]));
    assert_eq!(
        poll_v1(&mut source, "300\n", vec![(300, "blocked.app:ui")]),
        None
    );
}

#[test]
fn an_identified_process_wins_over_an_unidentified_one() {
    let uids = vec![(200, 10_001), (300, 10_002), (400, 10_003)];
    let mut source = v1_source(ForegroundCandidateFilter::default(), uids);

    let best = poll_v1(&mut source, "200\n300\n400\n", vec![(200, "one.app")]).unwrap();
    assert_eq!((best.pid, best.package.as_deref()), (Some(200), Some("one.app")));

    let best = poll_v1(&mut source, "200\n400\n300\n", Vec::new()).unwrap();
    assert_eq!((best.pid, best.package), (Some(400), None));
    assert!(!best.identity_resolved);
}

#[test]
fn an_unidentified_process_is_no_candidate_where_it_could_be_identified() {
    let mut source = v1_source(ForegroundCandidateFilter::default(), vec![(200, 10_001)]);
    assert_eq!(poll_v1(&mut source, "200\n", vec![(200, "sh")]), None);
    assert_eq!(
        poll_v1(&mut source, "200\n", Vec::new()).unwrap().uid,
        Some(10_001)
    );

    source.set_package_cache(cache_from_entries(vec![("other.app", 10_009)]));
    assert_eq!(poll_v1(&mut source, "200\n", Vec::new()), None);
    let best = poll_v1(&mut source, "200\n", vec![(200, "named.app")]).unwrap();
    assert_eq!(best.package.as_deref(), Some("named.app"));
}

#[test]
fn the_order_of_a_process_list_makes_no_difference() {
    let uids = vec![(200, 10_001), (300, 10_002), (400, 10_003), (500, 10_004)];
    let mut source = v1_source(blocking("blocked.app"), uids);
    let lines = vec![
        (200, "one.app"),
        (300, "two.app:ui"),
        (400, "three.app:remote"),
        (500, "blocked.app"),
    ];

    for procs in [
        "200\n300\n400\n500\n",
        "500\n400\n300\n200\n",
        "300\n500\n200\n400\n300\n",
    ] {
        let best = poll_v1(&mut source, procs, lines.clone()).unwrap();
        assert_eq!(best.package.as_deref(), Some("two.app"), "{procs:?}");
    }
}

#[test]
fn a_removed_directory_is_not_watched_however_its_path_is_spelled() {
    let groups = Groups::with(vec![("/sys/fs/cgroup/uid_10001", "populated 1\n")]);
    let mut source = CgroupV2EventsSource::new(
        vec![EnginePath::new("/sys/fs/cgroup")],
        ForegroundCandidateFilter::default(),
        &groups.listings(&["/sys/fs/cgroup"]),
    );
    let events = EnginePath::new("/sys/fs/cgroup/uid_10001/cgroup.events");
    assert!(source.has_uid_watch_path(&events));

    for (path, mask) in [
        ("/sys/fs/cgroup/uid_10002", 0x200),
        ("/sys/fs/cgroup//./uid_10001/", 0x40),
    ] {
        let observed = RootObservation {
            rescan: Rescan::nothing(),
            path_exists: false,
            events_opens: false,
            events: Err(not_found()),
        };
        let answer = source.handle_fs_event_with_mask(&EnginePath::new(path), mask, &observed);
        assert_eq!(answer, Ok(None));
    }
    assert!(!source.has_uid_watch_path(&events));
    assert_eq!(source.uid_watch_count(), 0);
}

#[test]
fn copies_are_equal() {
    let mut source = v1_source(blocking("blocked.app"), vec![(200, 10_001)])
        .with_package_cache(cache_from_entries(vec![("one.app", 10_001)]));
    let mut copy = source.clone();
    assert_eq!(*copy.filter(), blocking("blocked.app"));
    assert_eq!(
        poll_v1(&mut copy, "200\n", Vec::new()),
        poll_v1(&mut source, "200\n", Vec::new())
    );

    let state = UidPackageState::Ambiguous(vec!["a.b".to_string(), "c.d".to_string()]);
    assert_eq!(state.clone(), state);
    let update = ForegroundUpdate::Active(foreground_candidate(
        ForegroundSourceKind::CgroupV1,
        Some(1),
        None,
    ));
    assert_eq!(update.clone(), update);
    let action = EngineAction::RunExec {
        argv: vec!["/bin/true".to_string()],
        capture_stdout: true,
    };
    assert_eq!(action.clone(), action);
}

#[test]
fn a_removed_directory_is_not_watched_after_the_filter_changed() {
    let groups = Groups::with(vec![("/sys/fs/cgroup/uid_10001", "populated 1\n")]);
    let mut source = CgroupV2EventsSource::new(
        vec![EnginePath::new("/sys/fs/cgroup")],
        ForegroundCandidateFilter::default(),
        &groups.listings(&["/sys/fs/cgroup"]),
    );
    source.set_filter(ForegroundCandidateFilter {
        blocked_uids: BTreeSet::from([10_001]),
        ..Default::default()
    });
    assert!(source.has_uid_watch(10_001));

    let observed = RootObservation {
        rescan: Rescan::nothing(),
        path_exists: false,
        events_opens: false,
        events: Err(not_found()),
    };
    let gone = EnginePath::new("/sys/fs/cgroup/uid_10001");
    assert_eq!(
        source.handle_fs_event_with_mask(&gone, 0x200, &observed),
        Ok(None)
    );
    assert!(!source.has_uid_watch(10_001));
}

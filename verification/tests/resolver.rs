//! Reports on what is in the foreground.
use coreshift_engine::error::IoErrorKind;
use coreshift_engine::ordered::OrdSet;
use coreshift_engine::path::EnginePath;
use coreshift_engine::services::foreground::cgroup_v2::{EventsReader, EVENTS_READ_LIMIT};
use coreshift_engine::services::foreground::{
    parse_cgroup_events_populated, parse_top_activity_package,
    resolve_v1_payload_with_uid_resolver, resolve_v2_uid_with_state, AppUidFilter,
    CgroupV2Populated, ForegroundResolveReport, ForegroundResolverState, PackageFileStat,
    PackageFileStatProvider, PackageProviderSource, PackageUidEntry, PackageUidProvider,
    PackageUidSnapshot, UidPackageCache,
};
use coreshift_engine::EngineError;
use std::collections::BTreeSet;

struct Packages(Vec<(&'static str, u32)>);

impl PackageUidProvider for Packages {
    fn load(&self) -> Result<PackageUidSnapshot, EngineError> {
        if self.0.is_empty() {
            return Err(EngineError::NotStarted);
        }
        let entry = |(package, uid): &(&str, u32)| PackageUidEntry {
            package: package.to_string(),
            uid: *uid,
            base_apk_path: None,
        };
        Ok(PackageUidSnapshot {
            entries: self.0.iter().map(entry).collect(),
            source: PackageProviderSource::CmdPackageList,
            coherent: true,
        })
    }
}

struct Looks(Vec<Result<PackageFileStat, EngineError>>);

impl PackageFileStatProvider for Looks {
    fn stat_package_marker(&mut self, _path: &EnginePath) -> Result<PackageFileStat, EngineError> {
        self.0.remove(0)
    }
}

fn stat(size: u64) -> PackageFileStat {
    PackageFileStat {
        mtime_sec: 1,
        mtime_nsec: 2,
        size,
    }
}

fn state(marker: Option<PackageFileStat>) -> ForegroundResolverState {
    let packages = Packages(vec![
        ("one.app", 10_001),
        ("blocked.app", 10_002),
        ("shared.a", 10_003),
        ("shared.b", 10_003),
        ("helper.app", 10_004),
    ]);
    ForegroundResolverState::new(
        UidPackageCache::warm_from(&packages).unwrap(),
        OrdSet::from_vec(vec!["blocked.app".to_string()]),
        AppUidFilter {
            modulus: 100_000,
            min_app_id: 10_000,
        },
        marker,
    )
    .with_accessibility_uids(BTreeSet::from([10_004]))
}

fn uid_of(pid: i32) -> Result<Option<u32>, EngineError> {
    match pid {
        1 => Ok(Some(1_000)),
        2 => Ok(Some(10_004)),
        3 => Ok(Some(10_002)),
        4 => Ok(Some(10_003)),
        5 => Ok(Some(10_009)),
        6 => Ok(None),
        7 => Err(EngineError::NotStarted),
        8 => Ok(Some(10_001)),
        _ => unreachable!(),
    }
}

#[test]
fn a_report_says_why_each_process_was_passed_over() {
    let report = resolve_v1_payload_with_uid_resolver(
        b" 1 \n2\nno number\n3\n\xff\n4\n5\n6\n7\n8\n9\n",
        &state(None),
        uid_of,
    );

    assert_eq!(report.package.as_deref(), Some("one.app"));
    assert_eq!(
        report.lines,
        vec![
            "source=v1 uid=1000 reason=skipped_non_app",
            "source=v1 uid=10004 reason=skipped_accessibility",
            "source=v1 package=blocked.app reason=blocked",
            "source=v1 uid=10003 package_count=2 reason=ambiguous",
            "source=v1 pid=5 uid=10009 reason=unmapped",
            "source=v1 pid=6 reason=pid_uid_failed",
            "source=v1 pid=7 reason=pid_uid_failed",
            "source=v1 pid=8 uid=10001 package=one.app reason=resolved",
        ]
    );
}

#[test]
fn a_report_without_a_package_ends_with_the_unknown() {
    let report = resolve_v1_payload_with_uid_resolver(b"6\n", &state(None), uid_of);
    assert_eq!(report.package, None);
    assert_eq!(
        report.lines,
        vec![
            "source=v1 pid=6 reason=pid_uid_failed",
            "source=v1 reason=unknown"
        ]
    );

    let empty = resolve_v1_payload_with_uid_resolver(b"", &state(None), uid_of);
    assert_eq!(empty, ForegroundResolveReport::unknown("v1"));
    assert_eq!(empty.lines, vec!["source=v1 reason=unknown"]);
}

#[test]
fn a_uid_is_reported_with_its_reason() {
    let state = state(None);
    let told = |uid: u32| {
        let report = resolve_v2_uid_with_state(uid, &state);
        (report.package, report.lines.join("|"))
    };

    assert_eq!(
        told(10_001),
        (
            Some("one.app".to_string()),
            "source=v2 uid=10001 package=one.app reason=resolved".to_string()
        )
    );
    assert_eq!(
        told(1_000).1,
        "source=v2 uid=1000 reason=skipped_non_app"
    );
    assert_eq!(
        told(10_004).1,
        "source=v2 uid=10004 reason=skipped_accessibility"
    );
    assert_eq!(told(10_002).1, "source=v2 package=blocked.app reason=blocked");
    assert_eq!(
        told(10_003).1,
        "source=v2 uid=10003 package_count=2 reason=ambiguous"
    );
    assert_eq!(told(10_009), (None, "source=v2 uid=10009 reason=unmapped".to_string()));
    assert_eq!(
        told(110_001).1,
        "source=v2 uid=110001 reason=unmapped"
    );
}

#[test]
fn failed_looks_are_told_with_their_reason() {
    let mut state = state(Some(stat(1)));
    let marker = EnginePath::new("/marker");
    let mut looks = Looks(vec![
        Err(EngineError::io(IoErrorKind::PermissionDenied, "denied")),
        Err(EngineError::io(IoErrorKind::NotFound, "gone")),
        Err(EngineError::io(IoErrorKind::Other, "too many links")),
        Err(EngineError::Core {
            code: 5,
            op: "stat",
        }),
        Err(EngineError::AlreadyStarted),
        Err(EngineError::invalid_config("a.b", "must be set")),
        Ok(stat(2)),
        Ok(stat(3)),
    ]);
    let mut told = |provider: &Packages| {
        state.foreground_changed(provider, &mut looks, &marker, 1)
    };
    let packages = Packages(vec![("new.app", 10_001), ("other.app", 10_002)]);

    for reason in [
        "permission_denied",
        "not_found",
        "too_many_links",
        "stat_failed_(code=5)",
        "runtime_already_started",
        "invalid_config_(a.b:_must_be_set)",
    ] {
        assert_eq!(
            told(&packages).unwrap(),
            Some(format!("cache stat_check error={reason} action=keep"))
        );
    }
    assert_eq!(told(&Packages(Vec::new())), Err(EngineError::NotStarted));
    assert_eq!(
        told(&packages).unwrap().as_deref(),
        Some("cache stat_check change_count=8 changed=true action=rebuild entries=2")
    );
    assert_eq!(state.cache_rebuilds, 2);
    assert_eq!(state.marker_fingerprint(), Some(&stat(3)));
}

#[test]
fn a_first_look_and_an_interval_of_zero_rebuild_nothing() {
    let mut state = state(None);
    let marker = EnginePath::new("/marker");
    let packages = Packages(vec![("new.app", 10_001)]);
    let mut looks = Looks(vec![Ok(stat(1))]);

    assert_eq!(
        state.foreground_changed(&packages, &mut looks, &marker, 0),
        Ok(None)
    );
    assert_eq!(
        state
            .foreground_changed(&packages, &mut looks, &marker, 2)
            .unwrap()
            .as_deref(),
        Some("cache stat_check change_count=2 changed=false action=keep")
    );
    assert_eq!(state.marker_fingerprint(), Some(&stat(1)));
    assert_eq!(state.cache_rebuilds, 1);
    assert_eq!(state.cache.exact_package_for_uid(10_001), Some("one.app"));
}

#[test]
fn a_dump_with_bytes_that_are_no_text_is_read() {
    assert_eq!(
        parse_top_activity_package(b"\xff\xfe topActivity=ComponentInfo{com.example.app/.Main} \xc0")
            .as_deref(),
        Some("com.example.app")
    );
}

#[test]
fn errors_are_told_in_words() {
    let told = |e: EngineError| e.text();

    assert_eq!(
        told(EngineError::Core {
            code: -22,
            op: "inotify_rm_watch",
        }),
        "inotify_rm_watch failed (code=-22)"
    );
    assert_eq!(told(EngineError::io(IoErrorKind::Other, "message")), "message");
    assert_eq!(told(EngineError::AlreadyStarted), "runtime already started");
    assert_eq!(told(EngineError::NotStarted), "runtime not started");
    assert_eq!(
        told(EngineError::invalid_config("field", "reason")),
        "invalid config (field: reason)"
    );
}

#[test]
fn an_events_file_is_read_up_to_its_limit() {
    let mut reader = EventsReader::new();
    assert_eq!(reader.room(), EVENTS_READ_LIMIT);
    assert!(!reader.read(b"populated 1"));
    assert!(!reader.read(b"\nfrozen 0\n"));
    assert!(reader.read(b""));
    let bytes = reader.into_bytes();
    assert_eq!(bytes, b"populated 1\nfrozen 0\n");
    assert_eq!(
        parse_cgroup_events_populated(&bytes),
        CgroupV2Populated::Active
    );

    let mut reader = EventsReader::new();
    assert!(!reader.read(&[b'x'; 255]));
    assert_eq!(reader.room(), 1);
    assert!(reader.read(b"yz"));
    assert_eq!(reader.room(), 0);
    assert_eq!(reader.into_bytes().len(), EVENTS_READ_LIMIT);
}

#[test]
fn a_state_can_be_read_and_copied() {
    let state = state(Some(stat(1)));

    assert_eq!(state.cache().entry_count(), 5);
    assert!(state.blocked_packages().contains(&"blocked.app".to_string()));
    assert_eq!(*state.accessibility_uids(), BTreeSet::from([10_004]));
    assert!(state.app_uid_filter().accepts(10_001));
    assert_eq!((state.cache_rebuilds(), state.foreground_changes()), (1, 0));
    assert_eq!(state.clone(), state);
}

#[test]
fn a_full_count_of_rebuilds_does_not_matter_where_nothing_is_rebuilt() {
    let mut state = state(Some(stat(1)));
    state.cache_rebuilds = u64::MAX;
    let packages = Packages(vec![("new.app", 10_001)]);

    assert_eq!(
        state.foreground_changed(
            &packages,
            &mut Looks(Vec::new()),
            &EnginePath::new("/marker"),
            2
        ),
        Ok(None)
    );
    assert_eq!((state.cache_rebuilds(), state.foreground_changes()), (u64::MAX, 1));
}

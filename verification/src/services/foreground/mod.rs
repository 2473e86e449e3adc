//! Which application is in the foreground.
pub mod activity;
pub mod auto;
pub mod auto_laws;
pub mod cache;
pub mod cache_laws;
pub mod cgroup_v1;
pub mod cgroup_v1_laws;
pub mod cgroup_v2;
pub mod cgroup_v2_laws;
pub mod manager;
pub mod resolver;
pub mod resolver_laws;
pub mod source;

pub use activity::{parse_top_activity_package, resolve_activity_stdout};
pub use auto::AutoForegroundSource;
pub use cache::{
    parse_cmd_package_list_stdout, CmdPackageListProvider, PackageProviderSource, PackageUidEntry,
    PackageUidProvider, PackageUidSnapshot, UidPackageCache, UidPackageState,
};
pub use cgroup_v1::CgroupV1CpusetSource;
pub use cgroup_v2::{
    candidate_uid_roots_from_proc_mounts, find_cgroup2_mount, parse_cgroup_events_populated,
    parse_proc_mounts, parse_uid_dir_name, resolve_v2_uid_with_cache, CgroupV2EventsSource,
    CgroupV2Populated, CgroupV2UidEvent, ProcMountEntry,
};
pub use manager::{ForegroundManager, ForegroundPipeline, ForegroundUpdate, PipelineOutcome};
pub use resolver::{
    resolve_after_v1_unavailable_lazy, resolve_after_v1_v2_unavailable_lazy,
    resolve_v1_payload_with_uid_resolver, resolve_v1_text_with_uid_resolver,
    resolve_v2_uid_with_state, AppUidFilter, ForegroundResolveReport, ForegroundResolverState,
    PackageFileStat, PackageFileStatProvider, V1PayloadCache,
};
pub use source::{
    ForegroundCandidate, ForegroundCandidateFilter, ForegroundSource, ForegroundSourceKind,
    ForegroundUnknown, UidRemainderFilter,
};

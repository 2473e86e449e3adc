//! Engine configuration.
use vstd::prelude::*;

use crate::error::EngineError;
use crate::path::EnginePath;

verus! {

/// How a child process is made.
#[derive(Clone, Copy, Debug, PartialEq, Eq, Structural)]
pub enum SpawnBackend {
    /// `posix_spawn`.
    PosixSpawn,
    /// `fork` and `exec`.
    Fork,
}

/// Which file descriptors a child process gets.
#[derive(Debug, PartialEq, Eq)]
pub enum SpawnFdPolicy {
    /// Those without the close-on-exec flag.
    CloexecOnly,
    /// None from 3 on.
    CloseFrom3,
    /// From 3 on only the listed ones.
    Allowlist(Vec<i32>),
}

/// The model of a descriptor policy.
pub enum FdPolicyModel {
    CloexecOnly,
    CloseFrom3,
    Allowlist(Seq<i32>),
}

impl View for SpawnFdPolicy {
    type V = FdPolicyModel;

    open spec fn view(&self) -> FdPolicyModel {
        match *self {
            SpawnFdPolicy::CloexecOnly => FdPolicyModel::CloexecOnly,
            SpawnFdPolicy::CloseFrom3 => FdPolicyModel::CloseFrom3,
            SpawnFdPolicy::Allowlist(fds) => FdPolicyModel::Allowlist(fds@),
        }
    }
}

impl Clone for SpawnFdPolicy {
    fn clone(&self) -> (r: Self)
        ensures
            r@ == self@,
    {
        match self {
            SpawnFdPolicy::CloexecOnly => SpawnFdPolicy::CloexecOnly,
            SpawnFdPolicy::CloseFrom3 => SpawnFdPolicy::CloseFrom3,
            SpawnFdPolicy::Allowlist(fds) => {
                let mut copy: Vec<i32> = Vec::new();
                let mut i: usize = 0;
                while i < fds.len()
                    invariant
                        i <= fds.len(),
                        copy@ == fds@.take(i as int),
                    decreases fds.len() - i,
                {
                    copy.push(fds[i]);
                    i += 1;
                    assert(fds@.take(i as int) == fds@.take(i - 1).push(fds@[i - 1]));
                }
                assert(fds@.take(i as int) == fds@);
                SpawnFdPolicy::Allowlist(copy)
            },
        }
    }
}

/// Engine execution settings for child processes.
#[derive(Debug, PartialEq, Eq)]
pub struct ExecConfig {
    /// Required spawn backend.
    pub backend: SpawnBackend,
    /// Explicit child file descriptor policy.
    pub fd_policy: SpawnFdPolicy,
    /// Optional process timeout in milliseconds.
    pub timeout_ms: Option<u32>,
    /// Combined stdout/stderr output limit.
    pub max_output: usize,
    /// Explicitly allow a zero-byte output capture limit.
    pub allow_zero_max_output: bool,
}

/// The model of the execution settings.
pub struct ExecConfigModel {
    pub backend: SpawnBackend,
    pub fd_policy: FdPolicyModel,
    pub timeout_ms: Option<u32>,
    pub max_output: usize,
    pub allow_zero_max_output: bool,
}

impl ExecConfigModel {
    /// The settings that hold where nothing else is said.
    pub open spec fn standard() -> ExecConfigModel {
        ExecConfigModel {
            backend: SpawnBackend::PosixSpawn,
            fd_policy: FdPolicyModel::CloexecOnly,
            timeout_ms: None,
            max_output: 1_048_576,
            allow_zero_max_output: false,
        }
    }
}

impl View for ExecConfig {
    type V = ExecConfigModel;

    open spec fn view(&self) -> ExecConfigModel {
        ExecConfigModel {
            backend: self.backend,
            fd_policy: self.fd_policy@,
            timeout_ms: self.timeout_ms,
            max_output: self.max_output,
            allow_zero_max_output: self.allow_zero_max_output,
        }
    }
}

impl Clone for ExecConfig {
    fn clone(&self) -> (r: Self)
        ensures
            r@ == self@,
    {
        ExecConfig {
            backend: self.backend,
            fd_policy: self.fd_policy.clone(),
            timeout_ms: self.timeout_ms,
            max_output: self.max_output,
            allow_zero_max_output: self.allow_zero_max_output,
        }
    }
}

impl Default for ExecConfig {
    fn default() -> (r: Self)
        ensures
            r@ == ExecConfigModel::standard(),
    {
        ExecConfig {
            backend: SpawnBackend::PosixSpawn,
            fd_policy: SpawnFdPolicy::CloexecOnly,
            timeout_ms: None,
            max_output: 1024 * 1024,
            allow_zero_max_output: false,
        }
    }
}

/// Where package UIDs come from.
#[derive(Clone, Copy, Debug, PartialEq, Eq, Structural)]
pub enum IdentityCacheProviderMode {
    Disabled,
    CmdPackageList,
}

/// Cache warmup settings for package UID identity lookup.
#[derive(Debug, PartialEq, Eq)]
pub struct IdentityCacheConfig {
    pub provider_mode: IdentityCacheProviderMode,
    pub cmd_path: EnginePath,
    pub user_id: u32,
}

/// The model of the cache warmup settings.
pub struct IdentityCacheConfigModel {
    pub provider_mode: IdentityCacheProviderMode,
    pub cmd_path: Seq<u8>,
    pub user_id: u32,
}

impl IdentityCacheConfigModel {
    /// The settings that hold where nothing else is said: no source.
    pub open spec fn standard() -> IdentityCacheConfigModel {
        IdentityCacheConfigModel {
            provider_mode: IdentityCacheProviderMode::Disabled,
            cmd_path: Seq::empty(),
            user_id: 0,
        }
    }
}

impl View for IdentityCacheConfig {
    type V = IdentityCacheConfigModel;

    open spec fn view(&self) -> IdentityCacheConfigModel {
        IdentityCacheConfigModel {
            provider_mode: self.provider_mode,
            cmd_path: self.cmd_path@,
            user_id: self.user_id,
        }
    }
}

impl Clone for IdentityCacheConfig {
    fn clone(&self) -> (r: Self)
        ensures
            r@ == self@,
    {
        IdentityCacheConfig {
            provider_mode: self.provider_mode,
            cmd_path: self.cmd_path.clone(),
            user_id: self.user_id,
        }
    }
}

impl Default for IdentityCacheConfig {
    fn default() -> (r: Self)
        ensures
            r@ == IdentityCacheConfigModel::standard(),
    {
        IdentityCacheConfig {
            provider_mode: IdentityCacheProviderMode::Disabled,
            cmd_path: EnginePath::from_bytes(Vec::new()),
            user_id: 0,
        }
    }
}

/// Identity cache invalidation probe settings.
#[derive(Debug, PartialEq, Eq)]
pub struct IdentityCacheInvalidationConfig {
    pub packages_xml_path: EnginePath,
    pub foreground_check_interval: u64,
    /// Reserved for a timer in the event loop; no time debounce is applied yet.
    pub debounce_ms: u64,
}

/// The model of the invalidation probe settings.
pub struct InvalidationConfigModel {
    pub packages_xml_path: Seq<u8>,
    pub foreground_check_interval: u64,
    pub debounce_ms: u64,
}

impl InvalidationConfigModel {
    /// The settings that hold where nothing else is said: no probe.
    pub open spec fn standard() -> InvalidationConfigModel {
        InvalidationConfigModel {
            packages_xml_path: Seq::empty(),
            foreground_check_interval: 1,
            debounce_ms: 0,
        }
    }

    /// Whether there is a file to probe.
    pub open spec fn enabled(self) -> bool {
        self.packages_xml_path.len() > 0
    }
}

impl View for IdentityCacheInvalidationConfig {
    type V = InvalidationConfigModel;

    open spec fn view(&self) -> InvalidationConfigModel {
        InvalidationConfigModel {
            packages_xml_path: self.packages_xml_path@,
            foreground_check_interval: self.foreground_check_interval,
            debounce_ms: self.debounce_ms,
        }
    }
}

impl Clone for IdentityCacheInvalidationConfig {
    fn clone(&self) -> (r: Self)
        ensures
            r@ == self@,
    {
        IdentityCacheInvalidationConfig {
            packages_xml_path: self.packages_xml_path.clone(),
            foreground_check_interval: self.foreground_check_interval,
            debounce_ms: self.debounce_ms,
        }
    }
}

impl Default for IdentityCacheInvalidationConfig {
    fn default() -> (r: Self)
        ensures
            r@ == InvalidationConfigModel::standard(),
    {
        IdentityCacheInvalidationConfig {
            packages_xml_path: EnginePath::from_bytes(Vec::new()),
            foreground_check_interval: 1,
            debounce_ms: 0,
        }
    }
}

impl IdentityCacheInvalidationConfig {
    /// Whether there is a file to probe.
    pub fn enabled(&self) -> (r: bool)
        ensures
            r == self@.enabled(),
    {
        !self.packages_xml_path.is_empty()
    }
}

/// Top-level Engine configuration.
#[derive(Debug, PartialEq, Eq)]
pub struct EngineConfig {
    pub execution: ExecConfig,
    pub identity_cache: IdentityCacheConfig,
    pub identity_cache_invalidation: IdentityCacheInvalidationConfig,
}

/// The model of the configuration.
pub struct EngineConfigModel {
    pub execution: ExecConfigModel,
    pub identity_cache: IdentityCacheConfigModel,
    pub identity_cache_invalidation: InvalidationConfigModel,
}

impl EngineConfigModel {
    /// The configuration with given execution settings and no identity sources.
    pub open spec fn with(execution: ExecConfigModel) -> EngineConfigModel {
        EngineConfigModel {
            execution,
            identity_cache: IdentityCacheConfigModel::standard(),
            identity_cache_invalidation: InvalidationConfigModel::standard(),
        }
    }

    /// The output limit is zero although that is not allowed.
    pub open spec fn bad_max_output(self) -> bool {
        self.execution.max_output == 0 && !self.execution.allow_zero_max_output
    }

    /// The package list command is asked for and has no path.
    pub open spec fn bad_cmd_path(self) -> bool {
        self.identity_cache.provider_mode == IdentityCacheProviderMode::CmdPackageList
            && self.identity_cache.cmd_path.len() == 0
    }

    /// The invalidation probe is enabled and its interval is zero.
    pub open spec fn bad_check_interval(self) -> bool {
        self.identity_cache_invalidation.enabled()
            && self.identity_cache_invalidation.foreground_check_interval == 0
    }

    /// Whether the configuration can be started with.
    pub open spec fn valid(self) -> bool {
        !self.bad_max_output() && !self.bad_cmd_path() && !self.bad_check_interval()
    }

    /// The error that an invalid configuration is refused with: of several
    /// faults, the first.
    pub open spec fn fault(self) -> crate::error::ErrorModel {
        if self.bad_max_output() {
            crate::error::ErrorModel::InvalidConfig {
                field: "exec.max_output"@,
                reason: "must be > 0 unless allow_zero_max_output is true"@,
            }
        } else if self.bad_cmd_path() {
            crate::error::ErrorModel::InvalidConfig {
                field: "identity_cache.cmd_path"@,
                reason: "must not be empty"@,
            }
        } else {
            crate::error::ErrorModel::InvalidConfig {
                field: "identity_cache_invalidation.foreground_check_interval"@,
                reason: "must be > 0"@,
            }
        }
    }
}

impl View for EngineConfig {
    type V = EngineConfigModel;

    open spec fn view(&self) -> EngineConfigModel {
        EngineConfigModel {
            execution: self.execution@,
            identity_cache: self.identity_cache@,
            identity_cache_invalidation: self.identity_cache_invalidation@,
        }
    }
}

impl Clone for EngineConfig {
    fn clone(&self) -> (r: Self)
        ensures
            r@ == self@,
    {
        EngineConfig {
            execution: self.execution.clone(),
            identity_cache: self.identity_cache.clone(),
            identity_cache_invalidation: self.identity_cache_invalidation.clone(),
        }
    }
}

impl Default for EngineConfig {
    fn default() -> (r: Self)
        ensures
            r@ == EngineConfigModel::with(ExecConfigModel::standard()),
            r@.valid(),
    {
        EngineConfig::new(ExecConfig::default())
    }
}

impl EngineConfig {
    /// The configuration with the given execution settings and no identity
    /// sources.
    pub fn new(execution: ExecConfig) -> (r: Self)
        ensures
            r@ == EngineConfigModel::with(execution@),
    {
        EngineConfig {
            execution,
            identity_cache: IdentityCacheConfig::default(),
            identity_cache_invalidation: IdentityCacheInvalidationConfig::default(),
        }
    }

    /// Whether the engine can start with this configuration, and if not, why.
    pub fn validate(&self) -> (r: Result<(), EngineError>)
        ensures
            r is Ok <==> self@.valid(),
            r matches Err(e) ==> e@ == self@.fault(),
    {
        if self.execution.max_output == 0 && !self.execution.allow_zero_max_output {
            return Err(
                EngineError::invalid_config(
                    "exec.max_output",
                    "must be > 0 unless allow_zero_max_output is true",
                ),
            );
        }
        if self.identity_cache.provider_mode == IdentityCacheProviderMode::CmdPackageList
            && self.identity_cache.cmd_path.is_empty() {
            return Err(
                EngineError::invalid_config("identity_cache.cmd_path", "must not be empty"),
            );
        }
        if self.identity_cache_invalidation.enabled()
            && self.identity_cache_invalidation.foreground_check_interval == 0 {
            return Err(
                EngineError::invalid_config(
                    "identity_cache_invalidation.foreground_check_interval",
                    "must be > 0",
                ),
            );
        }
        Ok(())
    }
}

/// A configuration is refused exactly where one of three settings is missing: an
/// output limit, unless none is wanted; the path of the package list command, if
/// that is asked for; and the interval of the probe, if there is a file to probe.
pub proof fn law_refused_for_missing_setting(config: EngineConfigModel)
    ensures
        config.valid() <==> {
            &&& config.execution.max_output > 0 || config.execution.allow_zero_max_output
            &&& config.identity_cache.provider_mode == IdentityCacheProviderMode::Disabled
                || config.identity_cache.cmd_path.len() > 0
            &&& config.identity_cache_invalidation.packages_xml_path.len() == 0
                || config.identity_cache_invalidation.foreground_check_interval > 0
        },
{
}

/// A refusal names the first of the settings that is missing, and what is wrong.
pub proof fn law_first_fault_is_named(config: EngineConfigModel)
    requires
        !config.valid(),
    ensures
        config.fault() matches crate::error::ErrorModel::InvalidConfig { field, reason } && {
            let output_missing = config.execution.max_output == 0
                && !config.execution.allow_zero_max_output;
            let command_missing = config.identity_cache.provider_mode
                == IdentityCacheProviderMode::CmdPackageList
                && config.identity_cache.cmd_path.len() == 0;
            &&& output_missing ==> field == "exec.max_output"@ && reason
                == "must be > 0 unless allow_zero_max_output is true"@
            &&& !output_missing && command_missing ==> field == "identity_cache.cmd_path"@
                && reason == "must not be empty"@
            &&& !output_missing && !command_missing ==> field
                == "identity_cache_invalidation.foreground_check_interval"@ && reason
                == "must be > 0"@
        },
{
}

/// Where nothing else is said, processes are spawned the POSIX way, with all
/// descriptors closed on execution alone, without a time limit and with up to a
/// mebibyte of output; there is no source of identities and no file to probe.
pub proof fn law_standard_settings(execution: ExecConfigModel)
    ensures
        ExecConfigModel::standard().backend == SpawnBackend::PosixSpawn,
        ExecConfigModel::standard().fd_policy == FdPolicyModel::CloexecOnly,
        ExecConfigModel::standard().timeout_ms is None,
        ExecConfigModel::standard().max_output == 1024 * 1024,
        !ExecConfigModel::standard().allow_zero_max_output,
        EngineConfigModel::with(execution).execution == execution,
        EngineConfigModel::with(execution).identity_cache.provider_mode
            == IdentityCacheProviderMode::Disabled,
        !EngineConfigModel::with(execution).identity_cache_invalidation.enabled(),
        EngineConfigModel::with(execution).valid() <==> execution.max_output > 0
            || execution.allow_zero_max_output,
{
}

} // verus!

//! Resolving the foreground application into a package, with a report.
use vstd::prelude::*;

use crate::error::{EngineError, IoErrorKind};
use crate::ordered::OrdSet;
use crate::path::EnginePath;
use crate::services::foreground::cache::{PackageUidProvider, UidPackageCache, UidPackageState};
use crate::{error, ordered, path, services::foreground::cache, services::foreground::source, text};
use std::collections::BTreeSet;

verus! {

broadcast use {
    vstd::std_specs::btree::group_btree_axioms,
    vstd::laws_cmp::group_laws_cmp,
};

// ---------------------------------------------------------------------------
// Reports
// ---------------------------------------------------------------------------

/// The package that was found, if any, and how it went.
#[derive(Debug, PartialEq, Eq)]
pub struct ForegroundResolveReport {
    pub package: Option<String>,
    pub lines: Vec<String>,
}

/// The model of a report.
pub struct ReportModel {
    pub package: Option<Seq<char>>,
    pub lines: Seq<Seq<char>>,
}

impl ReportModel {
    /// The report of a source that cannot tell.
    pub open spec fn unknown(source: Seq<char>) -> ReportModel {
        ReportModel { package: None, lines: seq!["source="@ + source + " reason=unknown"@] }
    }

    /// The report of a source that is not there.
    pub open spec fn unavailable(source: Seq<char>) -> ReportModel {
        ReportModel { package: None, lines: seq!["source="@ + source + " reason=unavailable"@] }
    }
}

impl View for ForegroundResolveReport {
    type V = ReportModel;

    open spec fn view(&self) -> ReportModel {
        ReportModel {
            package: source::text_model(self.package),
            lines: ordered::strings(self.lines@),
        }
    }
}

impl Default for ForegroundResolveReport {
    fn default() -> (r: Self)
        ensures
            r@ == (ReportModel { package: None, lines: Seq::empty() }),
    {
        let lines: Vec<String> = Vec::new();
        assert(ordered::strings(lines@) =~= Seq::<Seq<char>>::empty());
        ForegroundResolveReport { package: None, lines }
    }
}

/// A list of one line.
pub(crate) fn one_line(line: String) -> (r: Vec<String>)
    ensures
        ordered::strings(r@) == seq![line@],
{
    let mut r: Vec<String> = Vec::new();
    r.push(line);
    assert(ordered::strings(r@) =~= seq![line@]);
    r
}

fn add_line(lines: &mut Vec<String>, line: String)
    ensures
        ordered::strings(final(lines)@) == ordered::strings(old(lines)@).push(line@),
{
    lines.push(line);
    assert(ordered::strings(lines@) =~= ordered::strings(old(lines)@).push(line@));
}

fn add_lines(lines: &mut Vec<String>, more: Vec<String>)
    ensures
        ordered::strings(final(lines)@) == ordered::strings(old(lines)@) + ordered::strings(more@),
{
    let mut more = more;
    let ghost tail = more@;
    lines.append(&mut more);
    assert(ordered::strings(lines@) =~= ordered::strings(old(lines)@) + ordered::strings(tail));
}

fn status_line(source: &str, reason: &str) -> (r: String)
    ensures
        r@ == "source="@ + source@ + reason@,
{
    let mut line = "source=".to_owned();
    text::push_str(&mut line, source);
    text::push_str(&mut line, reason);
    line
}

impl ForegroundResolveReport {
    /// The report of a source that cannot tell.
    pub fn unknown(source: &str) -> (r: Self)
        ensures
            r@ == ReportModel::unknown(source@),
    {
        ForegroundResolveReport {
            package: None,
            lines: one_line(status_line(source, " reason=unknown")),
        }
    }

    /// The report of a source that is not there.
    pub fn unavailable(source: &str) -> (r: Self)
        ensures
            r@ == ReportModel::unavailable(source@),
    {
        ForegroundResolveReport {
            package: None,
            lines: one_line(status_line(source, " reason=unavailable")),
        }
    }
}

impl Clone for ForegroundResolveReport {
    fn clone(&self) -> (r: Self)
        ensures
            r@ == self@,
    {
        ForegroundResolveReport {
            package: source::clone_text(&self.package),
            lines: ordered::Record::duplicate(&self.lines),
        }
    }
}

// ---------------------------------------------------------------------------
// Payloads
// ---------------------------------------------------------------------------

/// The last payload that was read of a file.
#[derive(Debug, PartialEq, Eq)]
pub struct V1PayloadCache {
    last: Option<Vec<u8>>,
}

impl View for V1PayloadCache {
    type V = Option<Seq<u8>>;

    closed spec fn view(&self) -> Option<Seq<u8>> {
        match self.last {
            Some(payload) => Some(payload@),
            None => None,
        }
    }
}

impl Clone for V1PayloadCache {
    fn clone(&self) -> (r: Self)
        ensures
            r@ == self@,
    {
        V1PayloadCache {
            last: match &self.last {
                Some(payload) => Some(path::copy_bytes(payload.as_slice())),
                None => None,
            },
        }
    }
}

impl Default for V1PayloadCache {
    fn default() -> (r: Self)
        ensures
            r@ is None,
    {
        V1PayloadCache { last: None }
    }
}

impl V1PayloadCache {
    /// Takes a first reading: it is kept and handed on whatever was there.
    pub fn read_initial(&mut self, read: Result<Vec<u8>, EngineError>) -> (r: Result<
        Vec<u8>,
        EngineError,
    >)
        ensures
            match read {
                Ok(payload) => r matches Ok(out) && out@ == payload@ && final(self)@ == Some(
                    payload@,
                ),
                Err(e) => r == Err::<Vec<u8>, EngineError>(e) && *final(self) == *old(self),
            },
    {
        match read {
            Ok(payload) => {
                self.last = Some(path::copy_bytes(payload.as_slice()));
                Ok(payload)
            },
            Err(e) => Err(e),
        }
    }

    /// Takes a further reading: it is handed on if it is another.
    pub fn read_changed(&mut self, read: Result<Vec<u8>, EngineError>) -> (r: Result<
        Option<Vec<u8>>,
        EngineError,
    >)
        ensures
            match read {
                Ok(payload) => {
                    &&& final(self)@ == Some(payload@)
                    &&& r matches Ok(out)
                    &&& match out {
                        Some(out) => old(self)@ != Some(payload@) && out@ == payload@,
                        None => old(self)@ == Some(payload@),
                    }
                },
                Err(e) => r == Err::<Option<Vec<u8>>, EngineError>(e) && *final(self) == *old(
                    self,
                ),
            },
    {
        match read {
            Ok(payload) => Ok(self.observe(payload)),
            Err(e) => Err(e),
        }
    }

    /// Takes a payload: it is kept, and handed on if it is another than before.
    pub fn observe(&mut self, payload: Vec<u8>) -> (r: Option<Vec<u8>>)
        ensures
            final(self)@ == Some(payload@),
            match r {
                Some(out) => old(self)@ != Some(payload@) && out@ == payload@,
                None => old(self)@ == Some(payload@),
            },
    {
        let same = match &self.last {
            Some(last) => path::same_bytes(last.as_slice(), payload.as_slice()),
            None => false,
        };
        if same {
            None
        } else {
            self.last = Some(path::copy_bytes(payload.as_slice()));
            Some(payload)
        }
    }

    /// The last payload.
    pub fn last(&self) -> (r: Option<&[u8]>)
        ensures
            match r {
                Some(payload) => self@ == Some(payload@),
                None => self@ is None,
            },
    {
        match &self.last {
            Some(last) => Some(last.as_slice()),
            None => None,
        }
    }
}

// ---------------------------------------------------------------------------
// State
// ---------------------------------------------------------------------------

/// Accepts application UIDs by their remainder.
#[derive(Clone, Copy, Debug, PartialEq, Eq)]
pub struct AppUidFilter {
    pub modulus: u32,
    pub min_app_id: u32,
}

impl AppUidFilter {
    /// Whether a UID's remainder is that of an application.
    pub open spec fn admits(self, uid: u32) -> bool {
        self.modulus != 0 && uid % self.modulus >= self.min_app_id
    }

    /// Whether a UID is accepted.
    pub fn accepts(&self, uid: u32) -> (r: bool)
        ensures
            r == self.admits(uid),
    {
        self.modulus != 0 && uid % self.modulus >= self.min_app_id
    }
}

/// What tells one version of the package marker file from another.
#[derive(Clone, Copy, Debug, PartialEq, Eq, Structural)]
pub struct PackageFileStat {
    pub mtime_sec: i64,
    pub mtime_nsec: i64,
    pub size: u64,
}

/// Something that can look at the package marker file.
pub trait PackageFileStatProvider: Sized {
    /// Whether a look at a path may end so, and what becomes of the provider.
    open spec fn stats(
        pre: Self,
        marker: Seq<u8>,
        post: Self,
        r: Result<PackageFileStat, EngineError>,
    ) -> bool {
        true
    }

    /// Looks at the marker file.
    fn stat_package_marker(&mut self, marker_path: &EnginePath) -> (r: Result<
        PackageFileStat,
        EngineError,
    >)
        ensures
            Self::stats(*old(self), marker_path@, *final(self), r),
    ;
}

/// What resolving needs to know.
#[derive(Debug, PartialEq, Eq)]
pub struct ForegroundResolverState {
    pub cache: UidPackageCache,
    pub blocked_packages: OrdSet<String>,
    pub accessibility_uids: BTreeSet<u32>,
    pub app_uid_filter: AppUidFilter,
    pub cache_rebuilds: u64,
    pub foreground_changes: u64,
    marker_fingerprint: Option<PackageFileStat>,
}

/// The model of the state.
pub struct ResolverModel {
    pub cache: cache::CacheModel,
    pub blocked_packages: Set<Seq<char>>,
    pub accessibility_uids: Set<u32>,
    pub app_uid_filter: AppUidFilter,
    pub cache_rebuilds: u64,
    pub foreground_changes: u64,
    pub marker: Option<PackageFileStat>,
}

impl ResolverModel {
    /// Whether the next change of the foreground may lead to a new load of the cache:
    /// a look at the marker file is due then, and there was one before.
    pub open spec fn may_rebuild(self, interval: u64) -> bool {
        interval != 0 && (self.foreground_changes + 1) % interval as int == 0 && self.marker is Some
    }
}

impl View for ForegroundResolverState {
    type V = ResolverModel;

    closed spec fn view(&self) -> ResolverModel {
        ResolverModel {
            cache: self.cache@,
            blocked_packages: self.blocked_packages@,
            accessibility_uids: self.accessibility_uids@,
            app_uid_filter: self.app_uid_filter,
            cache_rebuilds: self.cache_rebuilds,
            foreground_changes: self.foreground_changes,
            marker: self.marker_fingerprint,
        }
    }
}

impl Clone for ForegroundResolverState {
    fn clone(&self) -> (r: Self)
        ensures
            r@ == self@,
    {
        ForegroundResolverState {
            cache: self.cache.clone(),
            blocked_packages: self.blocked_packages.clone(),
            accessibility_uids: self.accessibility_uids.clone(),
            app_uid_filter: self.app_uid_filter,
            cache_rebuilds: self.cache_rebuilds,
            foreground_changes: self.foreground_changes,
            marker_fingerprint: self.marker_fingerprint,
        }
    }
}

/// A text with its spaces turned into underscores.
pub open spec fn underscored(s: Seq<char>) -> Seq<char> {
    Seq::new(
        s.len(),
        |i: int|
            if s[i] == ' ' {
                '_'
            } else {
                s[i]
            },
    )
}

/// Why a look at the marker file failed, in one word.
pub open spec fn failure_reason(e: error::ErrorModel) -> Seq<char> {
    match e {
        error::ErrorModel::Io { kind: IoErrorKind::PermissionDenied, .. } => "permission_denied"@,
        error::ErrorModel::Io { kind: IoErrorKind::NotFound, .. } => "not_found"@,
        _ => underscored(e.text()),
    }
}

fn format_io_error_reason(e: &EngineError) -> (r: String)
    ensures
        r@ == failure_reason(e@),
{
    match e {
        EngineError::Io { kind: IoErrorKind::PermissionDenied, .. } => {
            return "permission_denied".to_owned();
        },
        EngineError::Io { kind: IoErrorKind::NotFound, .. } => {
            return "not_found".to_owned();
        },
        _ => {},
    }
    let told = e.text();
    let chars = text::chars_of(told.as_str());
    let mut r = String::new();
    let mut i: usize = 0;
    assert(underscored(chars@).take(0) == Seq::<char>::empty());
    while i < chars.len()
        invariant
            i <= chars.len(),
            r@ == underscored(chars@).take(i as int),
        decreases chars.len() - i,
    {
        let c = if chars[i] == ' ' {
            '_'
        } else {
            chars[i]
        };
        r.push(c);
        assert(underscored(chars@).take(i + 1) == underscored(chars@).take(i as int).push(c));
        i += 1;
    }
    assert(underscored(chars@).take(i as int) == underscored(chars@));
    r
}

/// The report of a check that found the marker file changed.
pub open spec fn rebuild_text(changes: nat, entries: nat) -> Seq<char> {
    "cache stat_check change_count="@ + text::decimal(changes)
        + " changed=true action=rebuild entries="@ + text::decimal(entries)
}

/// The report of a check that found the marker file as it was.
pub open spec fn keep_text(changes: nat) -> Seq<char> {
    "cache stat_check change_count="@ + text::decimal(changes) + " changed=false action=keep"@
}

/// The report of a check that failed.
pub open spec fn error_text(e: error::ErrorModel) -> Seq<char> {
    "cache stat_check error="@ + failure_reason(e) + " action=keep"@
}

impl ForegroundResolverState {
    /// The state with a warm cache and no accessibility services.
    pub fn new(
        cache: UidPackageCache,
        blocked_packages: OrdSet<String>,
        app_uid_filter: AppUidFilter,
        marker_fingerprint: Option<PackageFileStat>,
    ) -> (r: Self)
        ensures
            r@ == (ResolverModel {
                cache: cache@,
                blocked_packages: blocked_packages@,
                accessibility_uids: Set::empty(),
                app_uid_filter,
                cache_rebuilds: 1,
                foreground_changes: 0,
                marker: marker_fingerprint,
            }),
    {
        ForegroundResolverState {
            cache,
            blocked_packages,
            accessibility_uids: BTreeSet::new(),
            app_uid_filter,
            cache_rebuilds: 1,
            foreground_changes: 0,
            marker_fingerprint,
        }
    }

    /// The state with the UIDs of accessibility services.
    pub fn with_accessibility_uids(self, accessibility_uids: BTreeSet<u32>) -> (r: Self)
        ensures
            r@ == (ResolverModel { accessibility_uids: accessibility_uids@, ..self@ }),
    {
        let mut this = self;
        this.accessibility_uids = accessibility_uids;
        this
    }

    /// The last look at the marker file.
    pub fn marker_fingerprint(&self) -> (r: Option<&PackageFileStat>)
        ensures
            match r {
                Some(stat) => self@.marker == Some(*stat),
                None => self@.marker is None,
            },
    {
        match &self.marker_fingerprint {
            Some(stat) => Some(stat),
            None => None,
        }
    }

    /// The package cache.
    pub fn cache(&self) -> (r: &UidPackageCache)
        ensures
            r@ == self@.cache,
    {
        &self.cache
    }

    /// The packages that cannot be in the foreground.
    pub fn blocked_packages(&self) -> (r: &OrdSet<String>)
        ensures
            r@ == self@.blocked_packages,
    {
        &self.blocked_packages
    }

    /// The UIDs of accessibility services.
    pub fn accessibility_uids(&self) -> (r: &BTreeSet<u32>)
        ensures
            r@ == self@.accessibility_uids,
    {
        &self.accessibility_uids
    }

    /// Which UIDs are those of applications.
    pub fn app_uid_filter(&self) -> (r: AppUidFilter)
        ensures
            r == self@.app_uid_filter,
    {
        self.app_uid_filter
    }

    /// How often the cache was loaded.
    pub fn cache_rebuilds(&self) -> (r: u64)
        ensures
            r == self@.cache_rebuilds,
    {
        self.cache_rebuilds
    }

    /// How many changes of the foreground were counted.
    pub fn foreground_changes(&self) -> (r: u64)
        ensures
            r == self@.foreground_changes,
    {
        self.foreground_changes
    }

    /// Counts a change of the foreground. At every `interval`-th one the marker
    /// file is looked at, and if it is another than at the last look, the cache
    /// is loaded anew.
    pub fn foreground_changed<P: PackageUidProvider, S: PackageFileStatProvider>(
        &mut self,
        provider: &P,
        statter: &mut S,
        marker_path: &EnginePath,
        interval: u64,
    ) -> (r: Result<Option<String>, EngineError>)
        requires
            old(self)@.foreground_changes < u64::MAX,
            old(self)@.may_rebuild(interval) ==> old(self)@.cache_rebuilds < u64::MAX,
        ensures
            stepped(
                old(self)@,
                *provider,
                *old(statter),
                marker_path@,
                interval,
                final(self)@,
                *final(statter),
                r,
            ),
    {
        self.foreground_changes = self.foreground_changes + 1;
        if interval == 0 || self.foreground_changes % interval != 0 {
            return Ok(None);
        }
        match statter.stat_package_marker(marker_path) {
            Ok(current) => {
                let changed = match &self.marker_fingerprint {
                    Some(previous) => *previous != current,
                    None => false,
                };
                if changed {
                    match self.cache.update_from(provider) {
                        Ok(()) => {},
                        Err(e) => {
                            return Err(e);
                        },
                    }
                    self.cache_rebuilds = self.cache_rebuilds + 1;
                    self.marker_fingerprint = Some(current);
                    let mut line = "cache stat_check change_count=".to_owned();
                    text::push_decimal(&mut line, self.foreground_changes as u128);
                    text::push_str(&mut line, " changed=true action=rebuild entries=");
                    text::push_decimal(&mut line, self.cache.entry_count() as u128);
                    Ok(Some(line))
                } else {
                    self.marker_fingerprint = Some(current);
                    let mut line = "cache stat_check change_count=".to_owned();
                    text::push_decimal(&mut line, self.foreground_changes as u128);
                    text::push_str(&mut line, " changed=false action=keep");
                    Ok(Some(line))
                }
            },
            Err(e) => {
                let mut line = "cache stat_check error=".to_owned();
                text::push_str(&mut line, format_io_error_reason(&e).as_str());
                text::push_str(&mut line, " action=keep");
                Ok(Some(line))
            },
        }
    }
}

/// What counting a change of the foreground does.
pub open spec fn stepped<P: PackageUidProvider, S: PackageFileStatProvider>(
    pre: ResolverModel,
    provider: P,
    statter: S,
    marker_path: Seq<u8>,
    interval: u64,
    post: ResolverModel,
    statter_after: S,
    r: Result<Option<String>, EngineError>,
) -> bool {
    let changes = (pre.foreground_changes + 1) as u64;
    let counted = ResolverModel { foreground_changes: changes, ..pre };
    if interval == 0 || changes % interval != 0 {
        post == counted && statter_after == statter && r == Ok::<Option<String>, EngineError>(None)
    } else {
        exists|look: Result<PackageFileStat, EngineError>| #[trigger]
            S::stats(statter, marker_path, statter_after, look) && match look {
                Err(e) => post == counted && (r matches Ok(Some(line)) && line@ == error_text(e@)),
                Ok(current) => if pre.marker is Some && pre.marker != Some(current) {
                    exists|load: Result<cache::PackageUidSnapshot, EngineError>| #[trigger]
                        provider.loads(load) && match load {
                            Err(e) => post == counted && r == Err::<Option<String>, EngineError>(e),
                            Ok(snapshot) => {
                                &&& cache::holds_snapshot(post.cache, snapshot@)
                                &&& post == (ResolverModel {
                                    cache: post.cache,
                                    cache_rebuilds: (pre.cache_rebuilds + 1) as u64,
                                    marker: Some(current),
                                    ..counted
                                })
                                &&& r matches Ok(Some(line)) && line@ == rebuild_text(
                                    changes as nat,
                                    post.cache.uids.len(),
                                )
                            },
                        }
                } else {
                    post == (ResolverModel { marker: Some(current), ..counted }) && (
                    r matches Ok(Some(line)) && line@ == keep_text(changes as nat))
                },
            }
    }
}

/// The cache is loaded anew only at a change of the foreground that the interval
/// names, and only if the marker file is another than at the last look; otherwise
/// it stays as it is.
pub proof fn law_cache_is_rebuilt_on_marker_change<
    P: PackageUidProvider,
    S: PackageFileStatProvider,
>(
    pre: ResolverModel,
    provider: P,
    statter: S,
    marker_path: Seq<u8>,
    interval: u64,
    post: ResolverModel,
    statter_after: S,
    r: Result<Option<String>, EngineError>,
)
    requires
        pre.foreground_changes < u64::MAX,
        pre.may_rebuild(interval) ==> pre.cache_rebuilds < u64::MAX,
        stepped(pre, provider, statter, marker_path, interval, post, statter_after, r),
    ensures
        post.foreground_changes == pre.foreground_changes + 1,
        post.cache_rebuilds == pre.cache_rebuilds || post.cache_rebuilds == pre.cache_rebuilds + 1,
        post.cache_rebuilds == pre.cache_rebuilds ==> post.cache == pre.cache,
        post.cache_rebuilds != pre.cache_rebuilds ==> {
            &&& interval != 0
            &&& post.foreground_changes % interval == 0
            &&& pre.marker is Some
            &&& post.marker is Some
            &&& post.marker != pre.marker
            &&& r is Ok
        },
        r is Err ==> post.cache == pre.cache && post.marker == pre.marker,
{
}

// ---------------------------------------------------------------------------
// Resolving
// ---------------------------------------------------------------------------

/// The process IDs that lines hold: a line that is no number is passed over.
pub open spec fn pids_of(lines: Seq<Seq<char>>) -> Seq<i32>
    decreases lines.len(),
{
    if lines.len() == 0 {
        Seq::empty()
    } else {
        match text::parse_i32(text::trim(lines.last())) {
            Some(pid) => pids_of(lines.drop_last()).push(pid as i32),
            None => pids_of(lines.drop_last()),
        }
    }
}

/// What is said of a process, and the package that it resolves into.
pub open spec fn v1_verdict(
    state: ResolverModel,
    pid: i32,
    answer: Result<Option<u32>, EngineError>,
) -> (Seq<char>, Option<Seq<char>>) {
    match answer {
        Ok(Some(uid)) => if !state.app_uid_filter.admits(uid) {
            ("source=v1 uid="@ + text::decimal(uid as nat) + " reason=skipped_non_app"@, None)
        } else if state.accessibility_uids.contains(uid) {
            ("source=v1 uid="@ + text::decimal(uid as nat) + " reason=skipped_accessibility"@, None)
        } else {
            match state.cache.uid_state(uid) {
                cache::UidStateModel::Exact(package) => if state.blocked_packages.contains(
                    package,
                ) {
                    ("source=v1 package="@ + package + " reason=blocked"@, None)
                } else {
                    (
                        "source=v1 pid="@ + text::signed_decimal(pid as int) + " uid="@
                            + text::decimal(uid as nat) + " package="@ + package
                            + " reason=resolved"@,
                        Some(package),
                    )
                },
                cache::UidStateModel::Ambiguous(packages) => (
                    "source=v1 uid="@ + text::decimal(uid as nat) + " package_count="@
                        + text::decimal(packages.len()) + " reason=ambiguous"@,
                    None,
                ),
                cache::UidStateModel::Missing => (
                    "source=v1 pid="@ + text::signed_decimal(pid as int) + " uid="@ + text::decimal(
                        uid as nat,
                    ) + " reason=unmapped"@,
                    None,
                ),
            }
        },
        _ => (
            "source=v1 pid="@ + text::signed_decimal(pid as int) + " reason=pid_uid_failed"@,
            None,
        ),
    }
}

/// What is said of the processes that were asked about.
pub open spec fn v1_lines(
    state: ResolverModel,
    pids: Seq<i32>,
    answers: Seq<Result<Option<u32>, EngineError>>,
) -> Seq<Seq<char>> {
    Seq::new(answers.len(), |i: int| v1_verdict(state, pids[i], answers[i]).0)
}

/// Whether a report is the one on a list of processes: they are asked about in
/// order up to the first that resolves, which gives the package; if none does,
/// all are asked about and the report ends with its line for the unknown.
pub open spec fn v1_reported(
    state: ResolverModel,
    pids: Seq<i32>,
    answers: Seq<Result<Option<u32>, EngineError>>,
    report: ReportModel,
) -> bool {
    let n = answers.len();
    &&& n <= pids.len()
    &&& forall|i: int|
        0 <= i < n - 1 ==> (#[trigger] v1_verdict(state, pids[i], answers[i])).1 is None
    &&& if n > 0 && v1_verdict(state, pids[n - 1], answers[n - 1]).1 is Some {
        &&& report.package == v1_verdict(state, pids[n - 1], answers[n - 1]).1
        &&& report.lines == v1_lines(state, pids, answers)
    } else {
        &&& n == pids.len()
        &&& report.package is None
        &&& report.lines == v1_lines(state, pids, answers).push("source=v1 reason=unknown"@)
    }
}

/// Whether each answer is one that the resolver may give for its process.
pub open spec fn v1_answered<F: FnMut(i32) -> Result<Option<u32>, EngineError>>(
    uid_for_pid: F,
    pids: Seq<i32>,
    answers: Seq<Result<Option<u32>, EngineError>>,
) -> bool {
    answers.len() <= pids.len() && forall|i: int|
        0 <= i < answers.len() ==> call_ensures(uid_for_pid, (pids[i],), #[trigger] answers[i])
}

fn pid_line(pid: i32) -> (r: String)
    ensures
        r@ == "source=v1 pid="@ + text::signed_decimal(pid as int),
{
    let mut line = "source=v1 pid=".to_owned();
    text::push_signed(&mut line, pid);
    line
}

fn uid_line(head: &str, uid: u32, tail: &str) -> (r: String)
    ensures
        r@ == head@ + text::decimal(uid as nat) + tail@,
{
    let mut line = head.to_owned();
    text::push_decimal(&mut line, uid as u128);
    text::push_str(&mut line, tail);
    line
}

fn package_line(head: &str, package: &String, tail: &str) -> (r: String)
    ensures
        r@ == head@ + package@ + tail@,
{
    let mut line = head.to_owned();
    text::push_str(&mut line, package.as_str());
    text::push_str(&mut line, tail);
    line
}

fn count_line(head: &str, uid: u32, count: usize) -> (r: String)
    ensures
        r@ == head@ + text::decimal(uid as nat) + " package_count="@ + text::decimal(count as nat)
            + " reason=ambiguous"@,
{
    let mut line = uid_line(head, uid, " package_count=");
    text::push_decimal(&mut line, count as u128);
    text::push_str(&mut line, " reason=ambiguous");
    line
}

/// What is said of a process once its UID was asked for.
fn v1_judge(state: &ForegroundResolverState, pid: i32, answer: &Result<Option<u32>, EngineError>) -> (r: (
    String,
    Option<String>,
))
    ensures
        (r.0@, source::text_model(r.1)) == v1_verdict(state@, pid, *answer),
{
    let uid: u32 = match answer {
        Ok(Some(uid)) => *uid,
        _ => {
            let mut line = pid_line(pid);
            text::push_str(&mut line, " reason=pid_uid_failed");
            return (line, None);
        },
    };
    if !state.app_uid_filter.accepts(uid) {
        return (uid_line("source=v1 uid=", uid, " reason=skipped_non_app"), None);
    }
    if state.accessibility_uids.contains(&uid) {
        return (uid_line("source=v1 uid=", uid, " reason=skipped_accessibility"), None);
    }
    match state.cache.uid_state(uid) {
        UidPackageState::Exact(package) => {
            if state.blocked_packages.contains(&package) {
                (package_line("source=v1 package=", &package, " reason=blocked"), None)
            } else {
                let mut line = pid_line(pid);
                text::push_str(&mut line, " uid=");
                text::push_decimal(&mut line, uid as u128);
                text::push_str(&mut line, " package=");
                text::push_str(&mut line, package.as_str());
                text::push_str(&mut line, " reason=resolved");
                (line, Some(package))
            }
        },
        UidPackageState::Ambiguous(packages) => {
            (count_line("source=v1 uid=", uid, packages.len()), None)
        },
        UidPackageState::Missing => {
            let mut line = pid_line(pid);
            text::push_str(&mut line, " uid=");
            text::push_decimal(&mut line, uid as u128);
            text::push_str(&mut line, " reason=unmapped");
            (line, None)
        },
    }
}

/// Resolves the text of a process list: the first process with a package decides.
pub fn resolve_v1_text_with_uid_resolver<F: FnMut(i32) -> Result<Option<u32>, EngineError>>(
    content: &str,
    state: &ForegroundResolverState,
    uid_for_pid: F,
) -> (r: ForegroundResolveReport)
    requires
        forall|pid: i32| #[trigger] call_requires(uid_for_pid, (pid,)),
    ensures
        exists|answers: Seq<Result<Option<u32>, EngineError>>|
            {
                &&& #[trigger] v1_answered(uid_for_pid, pids_of(text::lines(content@)), answers)
                &&& v1_reported(state@, pids_of(text::lines(content@)), answers, r@)
            },
{
    let ghost resolver = uid_for_pid;
    let mut ask = uid_for_pid;
    let lines = text::lines_of(&text::chars_of(content));
    let ghost all = text::lines(content@);
    let ghost pids = pids_of(all);
    let mut log: Vec<String> = Vec::new();
    let ghost mut answers: Seq<Result<Option<u32>, EngineError>> = Seq::empty();
    let mut i: usize = 0;
    proof {
        assert(all.take(0) == Seq::<Seq<char>>::empty());
        lemma_pids_prefix(all, 0);
        assert(ordered::strings(log@) =~= v1_lines(state@, pids, answers));
    }
    while i < lines.len()
        invariant
            i <= lines.len(),
            all == text::texts(lines@),
            pids == pids_of(all),
            resolver == uid_for_pid,
            ask == resolver,
            forall|pid: i32| #[trigger] call_requires(ask, (pid,)),
            answers.len() == pids_of(all.take(i as int)).len(),
            pids_of(all.take(i as int)) == pids.take(answers.len() as int),
            answers.len() <= pids.len(),
            v1_answered(resolver, pids, answers),
            forall|k: int|
                0 <= k < answers.len() ==> (#[trigger] v1_verdict(
                    state@,
                    pids[k],
                    answers[k],
                )).1 is None,
            ordered::strings(log@) == v1_lines(state@, pids, answers),
            all == text::lines(content@),
        decreases lines.len() - i,
    {
        proof {
            assert(all[i as int] == lines@[i as int]@);
            assert(all.take(i + 1).drop_last() == all.take(i as int));
            assert(all.take(i + 1).last() == lines@[i as int]@);
            lemma_pids_prefix(all, i + 1);
        }
        match text::read_i32(&text::trim_of(&lines[i])) {
            None => {},
            Some(pid) => {
                let answer = ask(pid);
                let (line, package) = v1_judge(state, pid, &answer);
                let ghost before = answers;
                let ghost n = answers.len() as int;
                proof {
                    assert(pids_of(all.take(i + 1)) == pids_of(all.take(i as int)).push(pid));
                    assert(pids_of(all.take(i + 1)).len() == n + 1);
                    assert(pids.take(n + 1)[n] == pid);
                    assert(pids[n] == pid);
                    answers = answers.push(answer);
                    assert forall|k: int| 0 <= k < answers.len() implies call_ensures(
                        resolver,
                        (pids[k],),
                        #[trigger] answers[k],
                    ) by {
                        if k < n {
                            assert(before[k] == answers[k]);
                        }
                    }
                    assert(v1_lines(state@, pids, answers) =~= v1_lines(state@, pids, before).push(
                        line@,
                    ));
                }
                add_line(&mut log, line);
                if package.is_some() {
                    proof {
                        assert forall|k: int| 0 <= k < answers.len() - 1 implies (
                        #[trigger] v1_verdict(state@, pids[k], answers[k])).1 is None by {
                            assert(answers[k] == before[k]);
                            assert(v1_verdict(state@, pids[k], before[k]).1 is None);
                        }
                    }
                    let report = ForegroundResolveReport { package, lines: log };
                    assert(v1_answered(resolver, pids, answers));
                    assert(v1_reported(state@, pids, answers, report@));
                    return report;
                }
                proof {
                    assert forall|k: int| 0 <= k < answers.len() implies (#[trigger] v1_verdict(
                        state@,
                        pids[k],
                        answers[k],
                    )).1 is None by {
                        if k < n {
                            assert(answers[k] == before[k]);
                            assert(v1_verdict(state@, pids[k], before[k]).1 is None);
                        }
                    }
                }
            },
        }
        i += 1;
    }
    assert(all.take(i as int) == all);
    add_line(&mut log, "source=v1 reason=unknown".to_owned());
    let report = ForegroundResolveReport { package: None, lines: log };
    proof {
        if answers.len() > 0 {
            assert(v1_verdict(state@, pids[answers.len() - 1], answers[answers.len() - 1]).1
                is None);
        }
        assert(v1_reported(state@, pids, answers, report@));
    }
    report
}

proof fn lemma_pids_prefix(lines: Seq<Seq<char>>, i: int)
    requires
        0 <= i <= lines.len(),
    ensures
        pids_of(lines.take(i)).len() <= pids_of(lines).len(),
        pids_of(lines.take(i)) == pids_of(lines).take(pids_of(lines.take(i)).len() as int),
    decreases lines.len() - i,
{
    if i == lines.len() {
        assert(lines.take(i) == lines);
        assert(pids_of(lines).take(pids_of(lines).len() as int) == pids_of(lines));
    } else {
        lemma_pids_prefix(lines, i + 1);
        assert(lines.take(i + 1).drop_last() == lines.take(i));
        let some = pids_of(lines.take(i));
        let more = pids_of(lines.take(i + 1));
        let all = pids_of(lines);
        assert(more.take(some.len() as int) == some);
        assert(all.take(more.len() as int).take(some.len() as int) == all.take(some.len() as int));
    }
}

/// Resolves the bytes of a process list, read as text with what is not UTF-8
/// replaced.
pub fn resolve_v1_payload_with_uid_resolver<F: FnMut(i32) -> Result<Option<u32>, EngineError>>(
    payload: &[u8],
    state: &ForegroundResolverState,
    uid_for_pid: F,
) -> (r: ForegroundResolveReport)
    requires
        forall|pid: i32| #[trigger] call_requires(uid_for_pid, (pid,)),
    ensures
        exists|answers: Seq<Result<Option<u32>, EngineError>>|
            {
                &&& #[trigger] v1_answered(
                    uid_for_pid,
                    pids_of(text::lines(path::text_in(payload@))),
                    answers,
                )
                &&& v1_reported(
                    state@,
                    pids_of(text::lines(path::text_in(payload@))),
                    answers,
                    r@,
                )
            },
{
    let content = path::read_text(payload);
    resolve_v1_text_with_uid_resolver(content.as_str(), state, uid_for_pid)
}

/// The report on a UID whose control group is populated.
pub open spec fn v2_report(state: ResolverModel, uid: u32) -> ReportModel {
    if !state.app_uid_filter.admits(uid) {
        ReportModel {
            package: None,
            lines: seq![
                "source=v2 uid="@ + text::decimal(uid as nat) + " reason=skipped_non_app"@,
            ],
        }
    } else if state.accessibility_uids.contains(uid) {
        ReportModel {
            package: None,
            lines: seq![
                "source=v2 uid="@ + text::decimal(uid as nat) + " reason=skipped_accessibility"@,
            ],
        }
    } else {
        match state.cache.uid_state(uid) {
            cache::UidStateModel::Exact(package) => if state.blocked_packages.contains(package) {
                ReportModel {
                    package: None,
                    lines: seq!["source=v2 package="@ + package + " reason=blocked"@],
                }
            } else {
                ReportModel {
                    package: Some(package),
                    lines: seq![
                        "source=v2 uid="@ + text::decimal(uid as nat) + " package="@ + package
                            + " reason=resolved"@,
                    ],
                }
            },
            cache::UidStateModel::Ambiguous(packages) => ReportModel {
                package: None,
                lines: seq![
                    "source=v2 uid="@ + text::decimal(uid as nat) + " package_count="@
                        + text::decimal(packages.len()) + " reason=ambiguous"@,
                ],
            },
            cache::UidStateModel::Missing => ReportModel {
                package: None,
                lines: seq!["source=v2 uid="@ + text::decimal(uid as nat) + " reason=unmapped"@],
            },
        }
    }
}

/// Resolves a UID whose control group is populated.
pub fn resolve_v2_uid_with_state(uid: u32, state: &ForegroundResolverState) -> (r:
    ForegroundResolveReport)
    ensures
        r@ == v2_report(state@, uid),
{
    if !state.app_uid_filter.accepts(uid) {
        return ForegroundResolveReport {
            package: None,
            lines: one_line(uid_line("source=v2 uid=", uid, " reason=skipped_non_app")),
        };
    }
    if state.accessibility_uids.contains(&uid) {
        return ForegroundResolveReport {
            package: None,
            lines: one_line(uid_line("source=v2 uid=", uid, " reason=skipped_accessibility")),
        };
    }
    match state.cache.uid_state(uid) {
        UidPackageState::Exact(package) => {
            if state.blocked_packages.contains(&package) {
                ForegroundResolveReport {
                    package: None,
                    lines: one_line(
                        package_line("source=v2 package=", &package, " reason=blocked"),
                    ),
                }
            } else {
                let mut line = uid_line("source=v2 uid=", uid, " package=");
                text::push_str(&mut line, package.as_str());
                text::push_str(&mut line, " reason=resolved");
                ForegroundResolveReport { package: Some(package), lines: one_line(line) }
            }
        },
        UidPackageState::Ambiguous(packages) => {
            ForegroundResolveReport {
                package: None,
                lines: one_line(count_line("source=v2 uid=", uid, packages.len())),
            }
        },
        UidPackageState::Missing => {
            ForegroundResolveReport {
                package: None,
                lines: one_line(uid_line("source=v2 uid=", uid, " reason=unmapped")),
            }
        },
    }
}

/// A report, a remark, and a second report with its package.
pub open spec fn followed_by(
    first: ReportModel,
    remark: Seq<char>,
    second: ReportModel,
) -> ReportModel {
    ReportModel {
        package: second.package,
        lines: first.lines.push(remark) + second.lines,
    }
}

fn follow(first: ForegroundResolveReport, remark: &str, second: ForegroundResolveReport) -> (r:
    ForegroundResolveReport)
    ensures
        r@ == followed_by(first@, remark@, second@),
{
    let mut lines = first.lines;
    add_line(&mut lines, remark.to_owned());
    add_lines(&mut lines, second.lines);
    ForegroundResolveReport { package: second.package, lines }
}

/// Asks the activity manager only if the first source found no package.
pub fn resolve_after_v1_unavailable_lazy<A: FnOnce() -> ForegroundResolveReport>(
    v1_report: ForegroundResolveReport,
    activity: A,
) -> (r: ForegroundResolveReport)
    requires
        v1_report@.package is None ==> call_requires(activity, ()),
    ensures
        v1_report@.package is Some ==> r@ == v1_report@,
        v1_report@.package is None ==> exists|last: ForegroundResolveReport| #[trigger]
            call_ensures(activity, (), last) && r@ == followed_by(
                v1_report@,
                "source=v1 reason=unavailable fallback=activity"@,
                last@,
            ),
{
    if v1_report.package.is_some() {
        return v1_report;
    }
    let last = activity();
    follow(v1_report, "source=v1 reason=unavailable fallback=activity", last)
}

/// Asks the second source only if the first found no package, and the activity
/// manager only if neither did.
pub fn resolve_after_v1_v2_unavailable_lazy<
    B: FnOnce() -> ForegroundResolveReport,
    A: FnOnce() -> ForegroundResolveReport,
>(v1_report: ForegroundResolveReport, v2: B, activity: A) -> (r: ForegroundResolveReport)
    requires
        v1_report@.package is None ==> call_requires(v2, ()) && (forall|
            second: ForegroundResolveReport,
        | #[trigger]
            call_ensures(v2, (), second) && second@.package is None ==> call_requires(
                activity,
                (),
            )),
    ensures
        v1_report@.package is Some ==> r@ == v1_report@,
        v1_report@.package is None ==> exists|second: ForegroundResolveReport| #[trigger]
            call_ensures(v2, (), second) && {
                let both = followed_by(
                    v1_report@,
                    "source=v1 reason=unavailable fallback=v2"@,
                    second@,
                );
                if second@.package is Some {
                    r@ == both
                } else {
                    exists|last: ForegroundResolveReport| #[trigger]
                        call_ensures(activity, (), last) && r@ == followed_by(
                            both,
                            "source=v2 reason=unavailable fallback=activity"@,
                            last@,
                        )
                }
            },
{
    if v1_report.package.is_some() {
        return v1_report;
    }
    let second = v2();
    let found = second.package.is_some();
    let both = follow(v1_report, "source=v1 reason=unavailable fallback=v2", second);
    if found {
        return both;
    }
    let last = activity();
    follow(both, "source=v2 reason=unavailable fallback=activity", last)
}

/// A process that resolves never resolves into a blocked package, nor through a
/// UID that is not an application's or is an accessibility service's.
pub proof fn law_v1_package_is_allowed(
    state: ResolverModel,
    pids: Seq<i32>,
    answers: Seq<Result<Option<u32>, EngineError>>,
    report: ReportModel,
)
    requires
        v1_reported(state, pids, answers, report),
    ensures
        report.package matches Some(package) ==> {
            &&& !state.blocked_packages.contains(package)
            &&& exists|uid: u32|
                {
                    &&& answers.contains(Ok(Some(uid)))
                    &&& state.app_uid_filter.admits(uid)
                    &&& !state.accessibility_uids.contains(uid)
                    &&& #[trigger] state.cache.uid_state(uid) == cache::UidStateModel::Exact(
                        package,
                    )
                }
        },
{
    if let Some(package) = report.package {
        let n = answers.len();
        let answer = answers[n - 1];
        assert(v1_verdict(state, pids[n - 1], answer).1 is Some);
        let uid = answer->Ok_0->0;
        assert(answers[n - 1] == Ok::<Option<u32>, EngineError>(Some(uid)));
        assert(state.cache.uid_state(uid) == cache::UidStateModel::Exact(package));
    }
}

/// A UID that resolves is an application's and no accessibility service's, and
/// its package is not blocked.
pub proof fn law_v2_package_is_allowed(state: ResolverModel, uid: u32)
    ensures
        v2_report(state, uid).package matches Some(package) ==> {
            &&& !state.blocked_packages.contains(package)
            &&& state.app_uid_filter.admits(uid)
            &&& !state.accessibility_uids.contains(uid)
            &&& state.cache.uid_state(uid) == cache::UidStateModel::Exact(package)
        },
{
}

} // verus!

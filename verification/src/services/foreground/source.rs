//! Foreground candidates, the filter that they pass, and where they come from.
use vstd::prelude::*;

use crate::error::EngineError;
use crate::ordered::OrdSet;
use crate::path::{EnginePath, PathSet};
use crate::services::foreground::cache::{UidPackageCache, UidPackageState, FIRST_APP_UID};
use crate::{path, services::foreground::cache};
use std::collections::BTreeSet;

verus! {

broadcast use {
    vstd::std_specs::btree::group_btree_axioms,
    vstd::laws_cmp::group_laws_cmp,
};

/// What told the engine about a candidate.
#[derive(Clone, Copy, Debug, PartialEq, Eq, Structural)]
pub enum ForegroundSourceKind {
    CgroupV1,
    CgroupV2,
    ActivityManager,
    Auto,
    Cleared,
}

/// An application that may be in the foreground.
#[derive(Debug, PartialEq, Eq)]
pub struct ForegroundCandidate {
    pub source: ForegroundSourceKind,
    pub pid: Option<i32>,
    pub uid: Option<u32>,
    pub package: Option<String>,
    pub identity_resolved: bool,
}

/// The model of a candidate.
pub struct CandidateModel {
    pub source: ForegroundSourceKind,
    pub pid: Option<i32>,
    pub uid: Option<u32>,
    pub package: Option<Seq<char>>,
    pub identity_resolved: bool,
}

/// The text of an optional string.
pub open spec fn text_model(s: Option<String>) -> Option<Seq<char>> {
    match s {
        Some(s) => Some(s@),
        None => None,
    }
}

impl View for ForegroundCandidate {
    type V = CandidateModel;

    open spec fn view(&self) -> CandidateModel {
        CandidateModel {
            source: self.source,
            pid: self.pid,
            uid: self.uid,
            package: text_model(self.package),
            identity_resolved: self.identity_resolved,
        }
    }
}

impl Clone for ForegroundCandidate {
    fn clone(&self) -> (r: Self)
        ensures
            r@ == self@,
    {
        ForegroundCandidate {
            source: self.source,
            pid: self.pid,
            uid: self.uid,
            package: clone_text(&self.package),
            identity_resolved: self.identity_resolved,
        }
    }
}

/// A copy of an optional string.
pub(crate) fn clone_text(s: &Option<String>) -> (r: Option<String>)
    ensures
        text_model(r) == text_model(*s),
{
    match s {
        Some(s) => Some(s.clone()),
        None => None,
    }
}

/// Whether two optional strings hold the same.
pub(crate) fn same_text(a: &Option<String>, b: &Option<String>) -> (r: bool)
    ensures
        r == (text_model(*a) == text_model(*b)),
{
    match (a, b) {
        (Some(a), Some(b)) => *a == *b,
        (None, None) => true,
        _ => false,
    }
}

/// The model of an optional candidate.
pub open spec fn candidate_model(c: Option<ForegroundCandidate>) -> Option<CandidateModel> {
    match c {
        Some(c) => Some(c@),
        None => None,
    }
}

/// A source that cannot tell what is in the foreground.
#[derive(Clone, Copy, Debug, PartialEq, Eq)]
pub struct ForegroundUnknown {
    pub source: ForegroundSourceKind,
}

/// Accepts UIDs by their remainder.
#[derive(Clone, Copy, Debug, PartialEq, Eq)]
pub struct UidRemainderFilter {
    pub modulus: u32,
    pub min_remainder: u32,
}

impl UidRemainderFilter {
    /// Whether a UID's remainder is large enough.
    pub open spec fn admits(self, uid: u32) -> bool {
        self.modulus != 0 && uid % self.modulus >= self.min_remainder
    }

    /// Whether a UID is accepted.
    pub fn accepts(&self, uid: u32) -> (r: bool)
        ensures
            r == self.admits(uid),
    {
        self.modulus != 0 && uid % self.modulus >= self.min_remainder
    }
}

/// Which UIDs and packages can be in the foreground.
#[derive(Debug, PartialEq, Eq)]
pub struct ForegroundCandidateFilter {
    pub blocked_uids: BTreeSet<u32>,
    pub accessibility_uids: BTreeSet<u32>,
    pub blocked_packages: OrdSet<String>,
    pub allow_system_uids: bool,
    pub uid_remainder_filter: Option<UidRemainderFilter>,
}

/// The model of a filter.
pub struct FilterModel {
    pub blocked_uids: Set<u32>,
    pub accessibility_uids: Set<u32>,
    pub blocked_packages: Set<Seq<char>>,
    pub allow_system_uids: bool,
    pub uid_remainder_filter: Option<UidRemainderFilter>,
}

impl FilterModel {
    /// The filter that blocks system UIDs and nothing else.
    pub open spec fn standard() -> FilterModel {
        FilterModel {
            blocked_uids: Set::empty(),
            accessibility_uids: Set::empty(),
            blocked_packages: Set::empty(),
            allow_system_uids: false,
            uid_remainder_filter: None,
        }
    }

    /// Whether an application with this UID can be in the foreground.
    pub open spec fn valid_uid(self, uid: u32) -> bool {
        &&& !self.blocked_uids.contains(uid)
        &&& !self.accessibility_uids.contains(uid)
        &&& self.uid_remainder_filter matches Some(filter) ==> filter.admits(uid)
        &&& self.allow_system_uids || uid >= FIRST_APP_UID
    }

    /// The candidate for a UID. With a cache, a UID of one package gets that
    /// package unless it is blocked, a shared UID gets no candidate, and an
    /// unknown one stays unresolved, as all do without a cache.
    pub open spec fn candidate(
        self,
        source: ForegroundSourceKind,
        pid: Option<i32>,
        uid: u32,
        cache: Option<cache::CacheModel>,
    ) -> Option<CandidateModel> {
        let unresolved = CandidateModel {
            source,
            pid,
            uid: Some(uid),
            package: None,
            identity_resolved: false,
        };
        if !self.valid_uid(uid) {
            None
        } else {
            match cache {
                None => Some(unresolved),
                Some(cache) => match cache.uid_state(uid) {
                    cache::UidStateModel::Exact(package) => if self.blocked_packages.contains(
                        package,
                    ) {
                        None
                    } else {
                        Some(
                            CandidateModel {
                                package: Some(package),
                                identity_resolved: true,
                                ..unresolved
                            },
                        )
                    },
                    cache::UidStateModel::Ambiguous(_) => None,
                    cache::UidStateModel::Missing => Some(unresolved),
                },
            }
        }
    }
}

/// The model of an optional cache.
pub open spec fn cache_model(c: Option<UidPackageCache>) -> Option<cache::CacheModel> {
    match c {
        Some(c) => Some(c@),
        None => None,
    }
}

impl View for ForegroundCandidateFilter {
    type V = FilterModel;

    open spec fn view(&self) -> FilterModel {
        FilterModel {
            blocked_uids: self.blocked_uids@,
            accessibility_uids: self.accessibility_uids@,
            blocked_packages: self.blocked_packages@,
            allow_system_uids: self.allow_system_uids,
            uid_remainder_filter: self.uid_remainder_filter,
        }
    }
}

impl Default for ForegroundCandidateFilter {
    fn default() -> (r: Self)
        ensures
            r@ == FilterModel::standard(),
    {
        ForegroundCandidateFilter {
            blocked_uids: BTreeSet::new(),
            accessibility_uids: BTreeSet::new(),
            blocked_packages: OrdSet::new(),
            allow_system_uids: false,
            uid_remainder_filter: None,
        }
    }
}

impl Clone for ForegroundCandidateFilter {
    fn clone(&self) -> (r: Self)
        ensures
            r@ == self@,
    {
        ForegroundCandidateFilter {
            blocked_uids: self.blocked_uids.clone(),
            accessibility_uids: self.accessibility_uids.clone(),
            blocked_packages: self.blocked_packages.clone(),
            allow_system_uids: self.allow_system_uids,
            uid_remainder_filter: self.uid_remainder_filter,
        }
    }
}

impl ForegroundCandidateFilter {
    /// Whether an application with this UID can be in the foreground.
    pub fn is_valid_uid(&self, uid: u32) -> (r: bool)
        ensures
            r == self@.valid_uid(uid),
    {
        if self.blocked_uids.contains(&uid) {
            return false;
        }
        if self.accessibility_uids.contains(&uid) {
            return false;
        }
        if let Some(filter) = self.uid_remainder_filter {
            if !filter.accepts(uid) {
                return false;
            }
        }
        self.allow_system_uids || uid >= FIRST_APP_UID
    }

    /// The candidate for a UID, if it passes the filter.
    pub fn candidate_for_uid(
        &self,
        source: ForegroundSourceKind,
        pid: Option<i32>,
        uid: u32,
        cache: Option<&UidPackageCache>,
    ) -> (r: Option<ForegroundCandidate>)
        ensures
            candidate_model(r) == self@.candidate(
                source,
                pid,
                uid,
                match cache {
                    Some(cache) => Some(cache@),
                    None => None,
                },
            ),
    {
        if !self.is_valid_uid(uid) {
            return None;
        }
        let mut candidate = ForegroundCandidate {
            source,
            pid,
            uid: Some(uid),
            package: None,
            identity_resolved: false,
        };
        match cache {
            None => Some(candidate),
            Some(cache) => match cache.uid_state(uid) {
                UidPackageState::Exact(package) => {
                    if self.blocked_packages.contains(&package) {
                        None
                    } else {
                        candidate.package = Some(package);
                        candidate.identity_resolved = true;
                        Some(candidate)
                    }
                },
                UidPackageState::Ambiguous(_) => None,
                UidPackageState::Missing => Some(candidate),
            },
        }
    }
}

/// A candidate that passes the filter is never one of a blocked UID, of an
/// accessibility service or of a blocked package.
pub proof fn law_candidate_passes_filter(
    filter: FilterModel,
    source: ForegroundSourceKind,
    pid: Option<i32>,
    uid: u32,
    cache: Option<cache::CacheModel>,
)
    ensures
        filter.candidate(source, pid, uid, cache) matches Some(c) ==> {
            &&& c.uid == Some(uid) && c.pid == pid && c.source == source
            &&& !filter.blocked_uids.contains(uid)
            &&& !filter.accessibility_uids.contains(uid)
            &&& c.package matches Some(p) ==> !filter.blocked_packages.contains(p)
            &&& c.identity_resolved <==> c.package is Some
        },
{
}

// ---------------------------------------------------------------------------
// Sources
// ---------------------------------------------------------------------------

/// The file events that a source's hint paths are watched for by default:
/// modification, creation, deletion and moves.
pub const DEFAULT_HINT_MASK: u32 = 0x0000_03c2;

/// A question that changes a source.
pub enum SourceCall {
    /// What is in the foreground now?
    Poll,
    /// What, after an event at this path?
    FsEvent(Seq<u8>),
    /// What, after an event of this kind at this path?
    FsEventWithMask(Seq<u8>, u32),
    /// What, after the priority descriptor of this path was signalled?
    Priority(Seq<u8>),
    /// What, after the priority descriptor of this path failed?
    StalePriority(Seq<u8>),
}

/// What a source answers.
pub type SourceAnswer = Result<Option<ForegroundCandidate>, EngineError>;

/// The model of an answer.
pub open spec fn answer_model(r: SourceAnswer) -> Result<
    Option<CandidateModel>,
    crate::error::ErrorModel,
> {
    match r {
        Ok(found) => Ok(candidate_model(found)),
        Err(e) => Err(e@),
    }
}

/// The bytes of a sequence of paths.
pub open spec fn path_models(s: Seq<EnginePath>) -> Seq<Seq<u8>> {
    Seq::new(s.len(), |i: int| s[i]@)
}

/// A copy of paths.
pub(crate) fn copy_paths(paths: &Vec<EnginePath>) -> (r: Vec<EnginePath>)
    ensures
        path_models(r@) == path_models(paths@),
{
    let mut r: Vec<EnginePath> = Vec::new();
    let mut i: usize = 0;
    while i < paths.len()
        invariant
            i <= paths.len(),
            r.len() == i,
            forall|k: int| 0 <= k < i ==> (#[trigger] r@[k])@ == paths@[k]@,
        decreases paths.len() - i,
    {
        r.push(paths[i].clone());
        i += 1;
    }
    assert(path_models(r@) =~= path_models(paths@));
    r
}

/// The bytes and the keys of a sequence of keyed paths.
pub open spec fn keyed_models(s: Seq<(EnginePath, u64)>) -> Seq<(Seq<u8>, u64)> {
    Seq::new(s.len(), |i: int| (s[i].0@, s[i].1))
}

/// Something that can tell which application is in the foreground.
///
/// An implementation says by its spec functions what its methods answer. Nothing is
/// known of what one answers that does not define them, and it may be asked at any
/// time.
pub trait ForegroundSource: Sized {
    /// What has to hold for the source to be asked.
    open spec fn ready(&self) -> bool {
        true
    }

    /// Whether a source may answer a question so, and what becomes of it.
    open spec fn answers(pre: Self, call: SourceCall, post: Self, r: SourceAnswer) -> bool {
        true
    }

    /// What kind of source it is.
    open spec fn kind_is(&self) -> ForegroundSourceKind {
        arbitrary::<spec_fn(Self) -> ForegroundSourceKind>()(*self)
    }

    /// The paths that it wants watched.
    open spec fn hints(&self) -> Seq<Seq<u8>> {
        arbitrary::<spec_fn(Self) -> Seq<Seq<u8>>>()(*self)
    }

    /// The events that it wants one of them watched for.
    open spec fn hint_mask(&self, p: Seq<u8>) -> u32 {
        arbitrary::<spec_fn(Self, Seq<u8>) -> u32>()(*self, p)
    }

    /// Whether it may say this of its availability.
    open spec fn may_be_available(&self, r: bool) -> bool {
        true
    }

    /// The paths of its priority descriptors.
    open spec fn priority_paths(&self) -> Seq<Seq<u8>> {
        Seq::new(self.priority_keys().len(), |i: int| self.priority_keys()[i].0)
    }

    /// The paths of its priority descriptors, each with the key of its current
    /// registration.
    open spec fn priority_keys(&self) -> Seq<(Seq<u8>, u64)> {
        arbitrary::<spec_fn(Self) -> Seq<(Seq<u8>, u64)>>()(*self)
    }

    /// The paths whose priority descriptors are to be registered, given those
    /// that are.
    open spec fn unregistered(&self, registered: Set<Seq<Seq<u8>>>) -> Seq<Seq<u8>> {
        arbitrary::<spec_fn(Self, Set<Seq<Seq<u8>>>) -> Seq<Seq<u8>>>()(*self, registered)
    }

    /// Whether it holds the priority descriptor of a path.
    open spec fn holds_descriptor(&self, p: Seq<u8>) -> bool {
        arbitrary::<spec_fn(Self, Seq<u8>) -> bool>()(*self, p)
    }

    /// What kind of source it is.
    fn kind(&self) -> (r: ForegroundSourceKind)
        ensures
            r == self.kind_is(),
    ;

    /// What is in the foreground now.
    fn poll_current(&mut self) -> (r: Result<Option<ForegroundCandidate>, EngineError>)
        requires
            old(self).ready(),
        ensures
            final(self).ready(),
            Self::answers(*old(self), SourceCall::Poll, *final(self), r),
    ;

    /// What is in the foreground after an event at a path.
    fn handle_fs_event(&mut self, event_path: &EnginePath) -> (r: Result<
        Option<ForegroundCandidate>,
        EngineError,
    >)
        requires
            old(self).ready(),
        ensures
            final(self).ready(),
            Self::answers(*old(self), SourceCall::FsEvent(event_path@), *final(self), r),
    ;

    /// What is in the foreground after an event of a kind at a path.
    fn handle_fs_event_with_mask(&mut self, event_path: &EnginePath, mask: u32) -> (r: Result<
        Option<ForegroundCandidate>,
        EngineError,
    >)
        requires
            old(self).ready(),
        ensures
            final(self).ready(),
            Self::answers(
                *old(self),
                SourceCall::FsEventWithMask(event_path@, mask),
                *final(self),
                r,
            ),
    ;

    /// The paths that it wants watched.
    fn watch_hint_paths(&self) -> (r: &Vec<EnginePath>)
        ensures
            path_models(r@) == self.hints(),
    ;

    /// Whether it can tell anything.
    fn is_available(&self) -> (r: bool)
        ensures
            self.may_be_available(r),
    ;

    /// The events that it wants a path watched for.
    fn watch_hint_mask(&self, hint_path: &EnginePath) -> (r: u32)
        ensures
            r == self.hint_mask(hint_path@),
    ;

    /// The paths whose priority descriptors are to be registered now.
    fn register_priority_fds(&self, registered_paths: &PathSet) -> (r: Vec<EnginePath>)
        ensures
            path_models(r@) == self.unregistered(registered_paths@),
    ;

    /// The paths of its priority descriptors.
    fn priority_hint_paths(&self) -> (r: Vec<EnginePath>)
        ensures
            path_models(r@) == self.priority_paths(),
    ;

    /// The paths of its priority descriptors with their keys.
    fn priority_hint_keys(&self) -> (r: Vec<(EnginePath, u64)>)
        ensures
            keyed_models(r@) == self.priority_keys(),
    ;

    /// What is in the foreground after a priority descriptor was signalled.
    fn handle_priority_event(&mut self, event_path: &EnginePath) -> (r: Result<
        Option<ForegroundCandidate>,
        EngineError,
    >)
        requires
            old(self).ready(),
        ensures
            final(self).ready(),
            Self::answers(*old(self), SourceCall::Priority(event_path@), *final(self), r),
    ;

    /// What is in the foreground after a priority descriptor failed.
    fn handle_stale_priority_event(&mut self, event_path: &EnginePath) -> (r: Result<
        Option<ForegroundCandidate>,
        EngineError,
    >)
        requires
            old(self).ready(),
        ensures
            final(self).ready(),
            Self::answers(*old(self), SourceCall::StalePriority(event_path@), *final(self), r),
    ;

    /// Whether there is a priority descriptor of this path to take out.
    fn unregister_priority_fd(&self, fd_path: &EnginePath) -> (r: bool)
        ensures
            r == self.holds_descriptor(fd_path@),
    ;
}

/// Paths whose registrations are not told apart: each with the key zero.
pub fn zero_keys(paths: &Vec<EnginePath>) -> (r: Vec<(EnginePath, u64)>)
    ensures
        keyed_models(r@) == Seq::new(paths@.len(), |i: int| (paths@[i]@, 0u64)),
{
    let mut r: Vec<(EnginePath, u64)> = Vec::new();
    let mut i: usize = 0;
    while i < paths.len()
        invariant
            i <= paths.len(),
            r.len() == i,
            forall|k: int|
                0 <= k < i ==> (#[trigger] r@[k]).0@ == paths@[k]@ && r@[k].1 == 0,
        decreases paths.len() - i,
    {
        r.push((paths[i].clone(), 0));
        i += 1;
    }
    assert(keyed_models(r@) =~= Seq::new(paths@.len(), |i: int| (paths@[i]@, 0u64)));
    r
}

/// A UID passes a filter exactly if neither set of the filter holds it, it is that
/// of an installed application or system UIDs are allowed, and its remainder is
/// large enough, if there is a rule for that; a rule that divides by zero lets
/// nothing pass.
pub proof fn law_filter_lets_pass(filter: FilterModel, uid: u32)
    ensures
        filter.valid_uid(uid) <==> {
            &&& !filter.blocked_uids.contains(uid)
            &&& !filter.accessibility_uids.contains(uid)
            &&& filter.allow_system_uids || uid >= 10_000
            &&& match filter.uid_remainder_filter {
                None => true,
                Some(rule) => rule.modulus > 0 && uid as int % rule.modulus as int
                    >= rule.min_remainder,
            }
        },
{
}

/// Blocking one UID more, in either set, keeps that UID out and makes no difference
/// to any other; so does blocking a package to the UIDs.
pub proof fn law_blocking_keeps_out(
    filter: FilterModel,
    uid: u32,
    other: u32,
    package: Seq<char>,
)
    requires
        uid != other,
    ensures
        ({
            let blocked = FilterModel { blocked_uids: filter.blocked_uids.insert(uid), ..filter };
            !blocked.valid_uid(uid) && blocked.valid_uid(other) == filter.valid_uid(other)
        }),
        ({
            let blocked = FilterModel {
                accessibility_uids: filter.accessibility_uids.insert(uid),
                ..filter
            };
            !blocked.valid_uid(uid) && blocked.valid_uid(other) == filter.valid_uid(other)
        }),
        ({
            let blocked = FilterModel {
                blocked_packages: filter.blocked_packages.insert(package),
                ..filter
            };
            blocked.valid_uid(uid) == filter.valid_uid(uid)
        }),
{
}

/// A UID that passes the filter makes a candidate: for the one package that the
/// cache lists under it, unless that is blocked; for none that is named if the
/// cache lists no package or there is no cache. A UID that packages share makes
/// none, and neither does one that the filter keeps out.
pub proof fn law_uid_makes_candidate(
    filter: FilterModel,
    source: ForegroundSourceKind,
    pid: Option<i32>,
    uid: u32,
    known: Option<cache::CacheModel>,
)
    ensures
        ({
            let listed = match known {
                Some(known) if known.packages.contains_key(uid) => known.packages[uid],
                _ => Seq::empty(),
            };
            filter.candidate(source, pid, uid, known) == if !filter.valid_uid(uid) || listed.len()
                > 1 || (listed.len() == 1 && filter.blocked_packages.contains(listed[0])) {
                None
            } else {
                Some(
                    CandidateModel {
                        source,
                        pid,
                        uid: Some(uid),
                        package: if listed.len() == 1 {
                            Some(listed[0])
                        } else {
                            None
                        },
                        identity_resolved: listed.len() == 1,
                    },
                )
            }
        }),
{
}

/// Where nothing else is said, system UIDs are kept out and nothing else.
pub proof fn law_standard_filter(uid: u32, package: Seq<char>)
    ensures
        FilterModel::standard().valid_uid(uid) <==> uid >= 10_000,
        !FilterModel::standard().blocked_packages.contains(package),
{
}

/// Where a source says nothing else, its paths are watched for modification,
/// creation, deletion and moves in either direction.
pub proof fn law_default_events()
    ensures
        DEFAULT_HINT_MASK == 0x2 + 0x100 + 0x200 + 0x40 + 0x80,
{
}

/// The models of answers keep candidates and errors apart, and what is there apart from
/// what is not.
pub proof fn law_models_keep_answers(
    candidate: ForegroundCandidate,
    e: EngineError,
    text: String,
    known: UidPackageCache,
)
    ensures
        answer_model(Ok(Some(candidate))) == Ok::<Option<CandidateModel>, crate::error::ErrorModel>(
            Some(candidate@),
        ),
        answer_model(Ok(None)) == Ok::<Option<CandidateModel>, crate::error::ErrorModel>(None),
        answer_model(Err(e)) == Err::<Option<CandidateModel>, crate::error::ErrorModel>(e@),
        candidate_model(Some(candidate)) == Some(candidate@),
        candidate_model(None) is None,
        text_model(Some(text)) == Some(text@),
        text_model(None) is None,
        cache_model(Some(known)) == Some(known@),
        cache_model(None) is None,
{
}

} // verus!

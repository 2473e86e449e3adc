//! Who is behind a process or a UID, by what the package cache knows.
use vstd::prelude::*;

use crate::services::foreground::cache::{UidPackageCache, UidPackageState};
use crate::services::foreground::{cache, source};

verus! {

/// How well an identity is known.
#[derive(Clone, Copy, Debug, PartialEq, Eq, Structural)]
pub enum ResolvedIdentityState {
    Exact,
    Missing,
    Ambiguous,
    Unresolved,
}

/// What an identity was resolved from.
#[derive(Clone, Copy, Debug, PartialEq, Eq, Structural)]
pub enum ResolvedIdentitySource {
    CacheOnly,
}

/// Who is behind a process or a UID.
#[derive(Debug, PartialEq, Eq)]
pub struct ResolvedIdentity {
    pub pid: Option<i32>,
    pub uid: Option<u32>,
    pub package: Option<String>,
    pub state: ResolvedIdentityState,
    pub source: ResolvedIdentitySource,
}

/// The model of an identity.
pub struct IdentityModel {
    pub pid: Option<i32>,
    pub uid: Option<u32>,
    pub package: Option<Seq<char>>,
    pub state: ResolvedIdentityState,
    pub source: ResolvedIdentitySource,
}

impl View for ResolvedIdentity {
    type V = IdentityModel;

    open spec fn view(&self) -> IdentityModel {
        IdentityModel {
            pid: self.pid,
            uid: self.uid,
            package: source::text_model(self.package),
            state: self.state,
            source: self.source,
        }
    }
}

impl Clone for ResolvedIdentity {
    fn clone(&self) -> (r: Self)
        ensures
            r@ == self@,
    {
        ResolvedIdentity {
            pid: self.pid,
            uid: self.uid,
            package: source::clone_text(&self.package),
            state: self.state,
            source: self.source,
        }
    }
}

/// The model of an optional identity.
pub open spec fn identity_model(i: Option<ResolvedIdentity>) -> Option<IdentityModel> {
    match i {
        Some(i) => Some(i@),
        None => None,
    }
}

/// Resolves identities by a package cache.
#[derive(Debug)]
pub struct IdentityService {
    package_cache: Option<UidPackageCache>,
}

/// Who is behind a process and a UID: without either there is no one to name;
/// without a UID or a cache the identity stays unresolved; otherwise it is what
/// the cache knows of the UID.
pub open spec fn identity_of(
    cache: Option<cache::CacheModel>,
    pid: Option<i32>,
    uid: Option<u32>,
) -> Option<IdentityModel> {
    let unresolved = IdentityModel {
        pid,
        uid,
        package: None,
        state: ResolvedIdentityState::Unresolved,
        source: ResolvedIdentitySource::CacheOnly,
    };
    match uid {
        None => match pid {
            None => None,
            Some(_) => Some(unresolved),
        },
        Some(uid) => match cache {
            None => Some(unresolved),
            Some(cache) => match cache.uid_state(uid) {
                cache::UidStateModel::Exact(package) => Some(
                    IdentityModel {
                        package: Some(package),
                        state: ResolvedIdentityState::Exact,
                        ..unresolved
                    },
                ),
                cache::UidStateModel::Missing => Some(
                    IdentityModel { state: ResolvedIdentityState::Missing, ..unresolved },
                ),
                cache::UidStateModel::Ambiguous(_) => Some(
                    IdentityModel { state: ResolvedIdentityState::Ambiguous, ..unresolved },
                ),
            },
        },
    }
}

impl View for IdentityService {
    type V = Option<cache::CacheModel>;

    closed spec fn view(&self) -> Option<cache::CacheModel> {
        source::cache_model(self.package_cache)
    }
}

impl Default for IdentityService {
    fn default() -> (r: Self)
        ensures
            r@ is None,
    {
        IdentityService { package_cache: None }
    }
}

impl Clone for IdentityService {
    fn clone(&self) -> (r: Self)
        ensures
            r@ == self@,
    {
        let package_cache = match &self.package_cache {
            Some(cache) => Some(cache.clone()),
            None => None,
        };
        IdentityService { package_cache }
    }
}

impl IdentityService {
    /// A service over a cache, if there is one.
    pub fn new(package_cache: Option<UidPackageCache>) -> (r: Self)
        ensures
            r@ == source::cache_model(package_cache),
    {
        IdentityService { package_cache }
    }

    /// Who is behind a process and a UID.
    pub fn resolve(&self, pid: Option<i32>, uid: Option<u32>) -> (r: Option<ResolvedIdentity>)
        ensures
            identity_model(r) == identity_of(self@, pid, uid),
    {
        let uid_given: u32 = match uid {
            Some(uid) => uid,
            None => {
                return match pid {
                    Some(_) => Some(
                        ResolvedIdentity {
                            pid,
                            uid: None,
                            package: None,
                            state: ResolvedIdentityState::Unresolved,
                            source: ResolvedIdentitySource::CacheOnly,
                        },
                    ),
                    None => None,
                };
            },
        };
        let (package, state) = match &self.package_cache {
            Some(cache) => match cache.uid_state(uid_given) {
                UidPackageState::Exact(package) => (Some(package), ResolvedIdentityState::Exact),
                UidPackageState::Missing => (None, ResolvedIdentityState::Missing),
                UidPackageState::Ambiguous(_) => (None, ResolvedIdentityState::Ambiguous),
            },
            None => (None, ResolvedIdentityState::Unresolved),
        };
        Some(
            ResolvedIdentity {
                pid,
                uid,
                package,
                state,
                source: ResolvedIdentitySource::CacheOnly,
            },
        )
    }
}

/// An identity names a package exactly if it is exact, and keeps the process and
/// the UID that were asked about.
pub proof fn law_identity_names_package_iff_exact(
    cache: Option<cache::CacheModel>,
    pid: Option<i32>,
    uid: Option<u32>,
)
    ensures
        identity_of(cache, pid, uid) is Some <==> pid is Some || uid is Some,
        identity_of(cache, pid, uid) matches Some(identity) ==> {
            &&& identity.pid == pid
            &&& identity.uid == uid
            &&& identity.package is Some <==> identity.state == ResolvedIdentityState::Exact
        },
{
}

/// The identity behind a UID is exact for the one package that the cache lists
/// under it, missing if it lists none, and ambiguous if it lists several. Without a
/// cache, or of a process alone, it stays unresolved.
pub proof fn law_identity_follows_cache(
    known: Option<cache::CacheModel>,
    pid: Option<i32>,
    uid: Option<u32>,
)
    requires
        pid is Some || uid is Some,
    ensures
        identity_of(known, pid, uid) matches Some(identity) && match (known, uid) {
            (Some(known), Some(uid)) => {
                let listed = if known.packages.contains_key(uid) {
                    known.packages[uid]
                } else {
                    Seq::empty()
                };
                &&& listed.len() == 0 ==> identity.state == ResolvedIdentityState::Missing
                    && identity.package is None
                &&& listed.len() == 1 ==> identity.state == ResolvedIdentityState::Exact
                    && identity.package == Some(listed[0])
                &&& listed.len() > 1 ==> identity.state == ResolvedIdentityState::Ambiguous
                    && identity.package is None
            },
            _ => identity.state == ResolvedIdentityState::Unresolved && identity.package is None,
        },
{
}

} // verus!

//! When the identity cache has to be loaded anew.
use vstd::prelude::*;

use crate::config::IdentityCacheInvalidationConfig;
use crate::error::EngineError;
use crate::path::EnginePath;
use crate::config;

verus! {

/// What tells one version of the package registry file from another.
#[derive(Clone, Copy, Debug, PartialEq, Eq, Structural)]
pub struct IdentityCacheFingerprint {
    pub dev: u64,
    pub inode: u64,
    pub size: u64,
    pub mtime_sec: i64,
    pub mtime_nsec: i64,
}

/// What makes the identity cache out of date.
#[derive(Clone, Copy, Debug, PartialEq, Eq, Structural)]
pub struct IdentityCacheDirtyState {
    pub packages_xml_changed: bool,
}

impl Default for IdentityCacheDirtyState {
    fn default() -> (r: Self)
        ensures
            !r.packages_xml_changed,
    {
        IdentityCacheDirtyState { packages_xml_changed: false }
    }
}

/// Counts changes of the foreground and looks at the package registry file at
/// every so many of them. The look itself is the caller's.
#[derive(Debug)]
pub struct IdentityCacheInvalidator {
    config: IdentityCacheInvalidationConfig,
    foreground_count: u64,
    packages_xml_fingerprint: Option<IdentityCacheFingerprint>,
    dirty: IdentityCacheDirtyState,
}

/// The model of the invalidator.
pub struct InvalidatorModel {
    pub config: config::InvalidationConfigModel,
    pub foreground_count: u64,
    pub fingerprint: Option<IdentityCacheFingerprint>,
    pub dirty: bool,
}

impl InvalidatorModel {
    /// The count after one more change of the foreground.
    pub open spec fn next_count(self) -> u64 {
        if self.foreground_count == u64::MAX {
            u64::MAX
        } else {
            (self.foreground_count + 1) as u64
        }
    }

    /// The invalidator after a change of the foreground.
    pub open spec fn counted(self) -> InvalidatorModel {
        if self.config.enabled() {
            InvalidatorModel { foreground_count: self.next_count(), ..self }
        } else {
            self
        }
    }

    /// Whether a change of the foreground makes a look due.
    pub open spec fn look_due(self) -> bool {
        &&& self.config.enabled()
        &&& self.config.foreground_check_interval != 0
        &&& self.next_count() % self.config.foreground_check_interval == 0
    }

    /// The invalidator after a look.
    pub open spec fn looked(self, next: IdentityCacheFingerprint) -> InvalidatorModel {
        InvalidatorModel {
            fingerprint: Some(next),
            dirty: self.dirty || self.fingerprint != Some(next),
            ..self
        }
    }
}

impl View for IdentityCacheInvalidator {
    type V = InvalidatorModel;

    closed spec fn view(&self) -> InvalidatorModel {
        InvalidatorModel {
            config: self.config@,
            foreground_count: self.foreground_count,
            fingerprint: self.packages_xml_fingerprint,
            dirty: self.dirty.packages_xml_changed,
        }
    }
}

impl Clone for IdentityCacheInvalidator {
    fn clone(&self) -> (r: Self)
        ensures
            r@ == self@,
    {
        IdentityCacheInvalidator {
            config: self.config.clone(),
            foreground_count: self.foreground_count,
            packages_xml_fingerprint: self.packages_xml_fingerprint,
            dirty: self.dirty,
        }
    }
}

impl IdentityCacheInvalidator {
    /// An invalidator, with what a first look at the file found. Without a file
    /// there is nothing to look at.
    pub fn new(
        config: IdentityCacheInvalidationConfig,
        first: Result<IdentityCacheFingerprint, EngineError>,
    ) -> (r: Self)
        ensures
            r@ == (InvalidatorModel {
                config: config@,
                foreground_count: 0,
                fingerprint: match first {
                    Ok(fingerprint) if config@.enabled() => Some(fingerprint),
                    _ => None,
                },
                dirty: false,
            }),
    {
        let packages_xml_fingerprint = if config.enabled() {
            match first {
                Ok(fingerprint) => Some(fingerprint),
                Err(_) => None,
            }
        } else {
            None
        };
        IdentityCacheInvalidator {
            config,
            foreground_count: 0,
            packages_xml_fingerprint,
            dirty: IdentityCacheDirtyState::default(),
        }
    }

    /// The settings.
    pub fn config(&self) -> (r: &IdentityCacheInvalidationConfig)
        ensures
            r@ == self@.config,
    {
        &self.config
    }

    /// The paths to watch: none, since the file is looked at by count.
    pub fn watch_hint_paths(&self) -> (r: Vec<EnginePath>)
        ensures
            r@.len() == 0,
    {
        Vec::new()
    }

    /// How many changes of the foreground were counted.
    pub fn foreground_count(&self) -> (r: u64)
        ensures
            r == self@.foreground_count,
    {
        self.foreground_count
    }

    /// Counts a change of the foreground; says whether a look is due, whose
    /// result goes to `check_packages_xml`.
    pub fn mark_foreground_candidate(&mut self) -> (r: bool)
        ensures
            final(self)@ == old(self)@.counted(),
            r == old(self)@.look_due(),
    {
        if !self.config.enabled() {
            return false;
        }
        self.foreground_count = self.foreground_count.saturating_add(1);
        let interval: u64 = self.config.foreground_check_interval;
        interval != 0 && self.foreground_count % interval == 0
    }

    /// Notes an event at a watched path: none is watched, so nothing changes.
    pub fn mark_event(&mut self, _event_path: &EnginePath)
        ensures
            final(self)@ == old(self)@,
    {
    }

    /// Whether the identity cache is out of date.
    pub fn should_refresh_now(&self) -> (r: bool)
        ensures
            r == self@.dirty,
    {
        self.dirty.packages_xml_changed
    }

    /// Hands out what makes the cache out of date, and forgets it.
    pub fn consume_dirty(&mut self) -> (r: IdentityCacheDirtyState)
        ensures
            r.packages_xml_changed == old(self)@.dirty,
            final(self)@ == (InvalidatorModel { dirty: false, ..old(self)@ }),
    {
        let dirty = self.dirty;
        self.dirty = IdentityCacheDirtyState::default();
        dirty
    }

    /// Takes the result of a look; says whether the file is another than at the
    /// last look. A first look counts as a change.
    pub fn check_packages_xml(
        &mut self,
        look: Result<IdentityCacheFingerprint, EngineError>,
    ) -> (r: Result<bool, EngineError>)
        ensures
            match look {
                Ok(next) => final(self)@ == old(self)@.looked(next) && r == Ok::<
                    bool,
                    EngineError,
                >(old(self)@.fingerprint != Some(next)),
                Err(e) => final(self)@ == old(self)@ && r == Err::<bool, EngineError>(e),
            },
    {
        let next = match look {
            Ok(next) => next,
            Err(e) => {
                return Err(e);
            },
        };
        let changed = match &self.packages_xml_fingerprint {
            Some(current) => *current != next,
            None => true,
        };
        self.packages_xml_fingerprint = Some(next);
        if changed {
            self.dirty = IdentityCacheDirtyState { packages_xml_changed: true };
        }
        Ok(changed)
    }
}

/// The invalidator after `n` changes of the foreground.
pub open spec fn counted_times(m: InvalidatorModel, n: nat) -> InvalidatorModel
    decreases n,
{
    if n == 0 {
        m
    } else {
        counted_times(m, (n - 1) as nat).counted()
    }
}

/// While the count has room, a look is due at exactly the changes whose number is
/// a multiple of the interval.
pub proof fn law_look_due_at_interval(m: InvalidatorModel, n: nat)
    requires
        m.config.enabled(),
        m.config.foreground_check_interval > 0,
        m.foreground_count + n < u64::MAX,
    ensures
        counted_times(m, n).foreground_count == m.foreground_count + n,
        counted_times(m, n).config == m.config,
        counted_times(m, n).look_due() <==> (m.foreground_count + n + 1)
            % m.config.foreground_check_interval as int == 0,
    decreases n,
{
    if n > 0 {
        law_look_due_at_interval(m, (n - 1) as nat);
    }
}

/// Two looks that find the same file: the second changes nothing, and once the
/// state was handed out it stays clean.
pub proof fn law_same_file_stays_clean(m: InvalidatorModel, found: IdentityCacheFingerprint)
    ensures
        m.looked(found).looked(found) == m.looked(found),
        !(InvalidatorModel { dirty: false, ..m.looked(found) }).looked(found).dirty,
{
}

/// A look makes the cache out of date exactly if it was, or if it is the first, or
/// if the file found differs from the one before in its device, its inode, its size
/// or either part of its time. It keeps what was found and counts nothing.
pub proof fn law_look_finds_any_difference(m: InvalidatorModel, found: IdentityCacheFingerprint)
    ensures
        m.looked(found).dirty <==> m.dirty || match m.fingerprint {
            None => true,
            Some(known) => known.dev != found.dev || known.inode != found.inode || known.size
                != found.size || known.mtime_sec != found.mtime_sec || known.mtime_nsec
                != found.mtime_nsec,
        },
        m.looked(found).fingerprint == Some(found),
        m.looked(found).foreground_count == m.foreground_count,
        m.looked(found).config == m.config,
{
}

/// Without a file to probe nothing is counted and no look is ever due; with one,
/// every change of the foreground is counted, as far as the counter goes, and
/// changes nothing else.
pub proof fn law_changes_are_counted(m: InvalidatorModel)
    ensures
        m.config.packages_xml_path.len() == 0 ==> m.counted() == m && !m.look_due(),
        m.config.packages_xml_path.len() > 0 ==> {
            &&& m.counted().dirty == m.dirty && m.counted().fingerprint == m.fingerprint
                && m.counted().config == m.config
            &&& m.foreground_count < u64::MAX ==> m.counted().foreground_count
                == m.foreground_count + 1
            &&& m.foreground_count == u64::MAX ==> m.counted().foreground_count == u64::MAX
        },
        m.config.foreground_check_interval == 1 && m.config.packages_xml_path.len() > 0
            ==> m.look_due(),
        m.config.foreground_check_interval == 0 ==> !m.look_due(),
{
}

} // verus!

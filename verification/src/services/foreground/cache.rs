//! Which packages run under which UID.
use vstd::prelude::*;

use crate::error::EngineError;
use crate::exec::{ExecOutput, ExecRunner, ExitStatus, SpawnRequest};
use crate::ordered::{Key, OrdMap, OrdSet, Placement, Record};
use crate::path::EnginePath;
use crate::{exec as process, ordered, package_name, path, text};

verus! {

/// The least UID of an installed application.
pub const FIRST_APP_UID: u32 = 10_000;

/// Something that knows the UIDs of the installed packages.
pub trait PackageUidProvider {
    /// Whether a load may end with the given result.
    open spec fn loads(&self, r: Result<PackageUidSnapshot, EngineError>) -> bool {
        true
    }

    /// Loads the UIDs of the installed packages.
    fn load(&self) -> (r: Result<PackageUidSnapshot, EngineError>)
        ensures
            self.loads(r),
    ;
}

/// Where a snapshot comes from.
#[derive(Clone, Copy, Debug, PartialEq, Eq, Structural)]
pub enum PackageProviderSource {
    CmdPackageList,
}

/// A package and the UID that it runs under.
#[derive(Debug, PartialEq, Eq)]
pub struct PackageUidEntry {
    pub package: String,
    pub uid: u32,
    pub base_apk_path: Option<EnginePath>,
}

/// The model of an entry.
pub struct EntryModel {
    pub package: Seq<char>,
    pub uid: u32,
    pub base_apk_path: Option<Seq<u8>>,
}

/// The bytes of an optional path.
pub open spec fn path_bytes(p: Option<EnginePath>) -> Option<Seq<u8>> {
    match p {
        Some(p) => Some(p@),
        None => None,
    }
}

impl View for PackageUidEntry {
    type V = EntryModel;

    open spec fn view(&self) -> EntryModel {
        EntryModel {
            package: self.package@,
            uid: self.uid,
            base_apk_path: path_bytes(self.base_apk_path),
        }
    }
}

impl Clone for PackageUidEntry {
    fn clone(&self) -> (r: Self)
        ensures
            r@ == self@,
    {
        PackageUidEntry {
            package: self.package.clone(),
            uid: self.uid,
            base_apk_path: match &self.base_apk_path {
                Some(p) => Some(p.clone()),
                None => None,
            },
        }
    }
}

/// The models of a sequence of entries.
pub open spec fn entry_models(s: Seq<PackageUidEntry>) -> Seq<EntryModel> {
    Seq::new(s.len(), |i: int| s[i]@)
}

/// The installed packages at one time.
#[derive(Debug, PartialEq, Eq)]
pub struct PackageUidSnapshot {
    pub entries: Vec<PackageUidEntry>,
    pub source: PackageProviderSource,
    pub coherent: bool,
}

/// The model of a snapshot.
pub struct SnapshotModel {
    pub entries: Seq<EntryModel>,
    pub source: PackageProviderSource,
    pub coherent: bool,
}

impl View for PackageUidSnapshot {
    type V = SnapshotModel;

    open spec fn view(&self) -> SnapshotModel {
        SnapshotModel {
            entries: entry_models(self.entries@),
            source: self.source,
            coherent: self.coherent,
        }
    }
}

impl Clone for PackageUidSnapshot {
    fn clone(&self) -> (r: Self)
        ensures
            r@ == self@,
    {
        let mut entries: Vec<PackageUidEntry> = Vec::new();
        let mut i: usize = 0;
        while i < self.entries.len()
            invariant
                i <= self.entries.len(),
                entries.len() == i,
                forall|k: int| 0 <= k < i ==> (#[trigger] entries@[k])@ == self.entries@[k]@,
            decreases self.entries.len() - i,
        {
            entries.push(self.entries[i].clone());
            i += 1;
        }
        assert(entry_models(entries@) =~= entry_models(self.entries@));
        PackageUidSnapshot { entries, source: self.source, coherent: self.coherent }
    }
}

/// How many entries a snapshot needs to be believed.
#[derive(Clone, Copy, Debug, PartialEq, Eq)]
pub struct PackageUidCoherence {
    pub min_entries: usize,
}

impl Default for PackageUidCoherence {
    fn default() -> (r: Self)
        ensures
            r.min_entries == 5,
    {
        PackageUidCoherence { min_entries: 5 }
    }
}

// ---------------------------------------------------------------------------
// The cache
// ---------------------------------------------------------------------------

/// What the cache knows of a UID.
#[derive(Debug, PartialEq, Eq)]
pub enum UidPackageState {
    /// One package runs under it.
    Exact(String),
    /// No package does.
    Missing,
    /// Several packages share it.
    Ambiguous(Vec<String>),
}

/// The model of what the cache knows of a UID.
pub enum UidStateModel {
    Exact(Seq<char>),
    Missing,
    Ambiguous(Seq<Seq<char>>),
}

impl View for UidPackageState {
    type V = UidStateModel;

    open spec fn view(&self) -> UidStateModel {
        match *self {
            UidPackageState::Exact(package) => UidStateModel::Exact(package@),
            UidPackageState::Missing => UidStateModel::Missing,
            UidPackageState::Ambiguous(packages) => UidStateModel::Ambiguous(
                ordered::strings(packages@),
            ),
        }
    }
}

impl Clone for UidPackageState {
    fn clone(&self) -> (r: Self)
        ensures
            r@ == self@,
    {
        match self {
            UidPackageState::Exact(package) => UidPackageState::Exact(package.clone()),
            UidPackageState::Missing => UidPackageState::Missing,
            UidPackageState::Ambiguous(packages) => UidPackageState::Ambiguous(
                packages.duplicate(),
            ),
        }
    }
}

/// The packages by UID, the UIDs by package, and the base APK paths.
#[derive(Debug, PartialEq, Eq)]
pub struct UidPackageCache {
    uid_to_packages: OrdMap<u32, Vec<String>>,
    package_to_uid: OrdMap<String, u32>,
    package_to_base_apk_path: OrdMap<String, EnginePath>,
    source: Option<PackageProviderSource>,
    coherent: bool,
}

/// The model of the cache.
pub struct CacheModel {
    /// The packages of a UID, in order.
    pub packages: Map<u32, Seq<Seq<char>>>,
    /// The UID of a package.
    pub uids: Map<Seq<char>, u32>,
    /// The base APK path of a package.
    pub apks: Map<Seq<char>, Seq<u8>>,
    pub source: Option<PackageProviderSource>,
    pub coherent: bool,
}

impl CacheModel {
    /// The cache that knows nothing.
    pub open spec fn blank() -> CacheModel {
        CacheModel {
            packages: Map::empty(),
            uids: Map::empty(),
            apks: Map::empty(),
            source: None,
            coherent: false,
        }
    }

    /// What the cache knows of a UID.
    pub open spec fn uid_state(self, uid: u32) -> UidStateModel {
        if !self.packages.contains_key(uid) || self.packages[uid].len() == 0 {
            UidStateModel::Missing
        } else if self.packages[uid].len() == 1 {
            UidStateModel::Exact(self.packages[uid][0])
        } else {
            UidStateModel::Ambiguous(self.packages[uid])
        }
    }
}

/// The packages that run under a UID.
pub open spec fn packages_of(entries: Seq<EntryModel>, uid: u32) -> Set<Seq<char>> {
    Set::new(
        |p: Seq<char>|
            exists|i: int|
                0 <= i < entries.len() && (#[trigger] entries[i]).uid == uid && entries[i].package
                    == p,
    )
}

/// The UID of each package: of several, the last.
pub open spec fn uids_of(entries: Seq<EntryModel>) -> Map<Seq<char>, u32>
    decreases entries.len(),
{
    if entries.len() == 0 {
        Map::empty()
    } else {
        uids_of(entries.drop_last()).insert(entries.last().package, entries.last().uid)
    }
}

/// The base APK path of each package: of several, the last.
pub open spec fn apks_of(entries: Seq<EntryModel>) -> Map<Seq<char>, Seq<u8>>
    decreases entries.len(),
{
    if entries.len() == 0 {
        Map::empty()
    } else {
        match entries.last().base_apk_path {
            Some(p) => apks_of(entries.drop_last()).insert(entries.last().package, p),
            None => apks_of(entries.drop_last()),
        }
    }
}

/// Whether a map lists, for every UID that occurs, its packages in order.
pub open spec fn groups(entries: Seq<EntryModel>, packages: Map<u32, Seq<Seq<char>>>) -> bool {
    forall|uid: u32|
        #![trigger packages.contains_key(uid)]
        #![trigger packages_of(entries, uid)]
        {
            &&& packages.contains_key(uid) <==> packages_of(entries, uid)
                != Set::<Seq<char>>::empty()
            &&& packages.contains_key(uid) ==> ordered::enumerates(
                packages[uid],
                packages_of(entries, uid),
                String::order(),
            )
        }
}

/// Whether a cache holds exactly what a snapshot says.
pub open spec fn holds_snapshot(cache: CacheModel, snapshot: SnapshotModel) -> bool {
    &&& groups(snapshot.entries, cache.packages)
    &&& cache.uids == uids_of(snapshot.entries)
    &&& cache.apks == apks_of(snapshot.entries)
    &&& cache.source == Some(snapshot.source)
    &&& cache.coherent == snapshot.coherent
}

/// After loading a snapshot, a UID is missing exactly if no entry has it, exact
/// exactly if all its entries have one package, and ambiguous otherwise.
pub proof fn law_uid_states(cache: CacheModel, snapshot: SnapshotModel, uid: u32)
    requires
        holds_snapshot(cache, snapshot),
    ensures
        match cache.uid_state(uid) {
            UidStateModel::Missing => packages_of(snapshot.entries, uid)
                == Set::<Seq<char>>::empty(),
            UidStateModel::Exact(p) => packages_of(snapshot.entries, uid) == set![p],
            UidStateModel::Ambiguous(list) => list.len() >= 2 && list.no_duplicates()
                && list.to_set() == packages_of(snapshot.entries, uid),
        },
{
    let set = packages_of(snapshot.entries, uid);
    if cache.packages.contains_key(uid) {
        let list = cache.packages[uid];
        assert(ordered::enumerates(list, set, String::order()));
        assert(list.to_set() =~= set);
        if list.len() == 0 {
            assert(set =~= Set::<Seq<char>>::empty());
        } else if list.len() == 1 {
            assert(list[0] == list[0]);
            assert(set =~= set![list[0]]);
        }
    }
}

/// A package that is listed under a UID has that UID, unless a later entry of
/// the same package has another.
pub proof fn law_uid_of_package(entries: Seq<EntryModel>, i: int)
    requires
        0 <= i < entries.len(),
        forall|j: int|
            i < j < entries.len() && (#[trigger] entries[j]).package == entries[i].package
                ==> entries[j].uid == entries[i].uid,
    ensures
        uids_of(entries).contains_key(entries[i].package),
        uids_of(entries)[entries[i].package] == entries[i].uid,
    decreases entries.len(),
{
    if i < entries.len() - 1 {
        let front = entries.drop_last();
        assert forall|j: int|
            i < j < front.len() && (#[trigger] front[j]).package == front[i].package implies front[j].uid
            == front[i].uid by {
            assert(entries[j] == front[j]);
        }
        law_uid_of_package(front, i);
        assert(front[i] == entries[i]);
    }
}

impl View for UidPackageCache {
    type V = CacheModel;

    closed spec fn view(&self) -> CacheModel {
        CacheModel {
            packages: self.uid_to_packages@,
            uids: self.package_to_uid@,
            apks: self.package_to_base_apk_path@,
            source: self.source,
            coherent: self.coherent,
        }
    }
}

impl Default for UidPackageCache {
    fn default() -> (r: Self)
        ensures
            r@ == CacheModel::blank(),
    {
        UidPackageCache {
            uid_to_packages: OrdMap::new(),
            package_to_uid: OrdMap::new(),
            package_to_base_apk_path: OrdMap::new(),
            source: None,
            coherent: false,
        }
    }
}

impl Clone for UidPackageCache {
    fn clone(&self) -> (r: Self)
        ensures
            r@ == self@,
    {
        UidPackageCache {
            uid_to_packages: self.uid_to_packages.clone(),
            package_to_uid: self.package_to_uid.clone(),
            package_to_base_apk_path: self.package_to_base_apk_path.clone(),
            source: self.source,
            coherent: self.coherent,
        }
    }
}

proof fn lemma_packages_step(entries: Seq<EntryModel>, e: EntryModel, uid: u32)
    ensures
        packages_of(entries.push(e), uid) == if e.uid == uid {
            packages_of(entries, uid).insert(e.package)
        } else {
            packages_of(entries, uid)
        },
{
    let more = entries.push(e);
    assert forall|p: Seq<char>| packages_of(more, uid).contains(p) <==> (packages_of(
        entries,
        uid,
    ).contains(p) || (e.uid == uid && e.package == p)) by {
        if packages_of(more, uid).contains(p) {
            let i = choose|i: int|
                0 <= i < more.len() && (#[trigger] more[i]).uid == uid && more[i].package == p;
            if i < entries.len() {
                assert(entries[i] == more[i]);
            }
        }
        if packages_of(entries, uid).contains(p) {
            let i = choose|i: int|
                0 <= i < entries.len() && (#[trigger] entries[i]).uid == uid && entries[i].package
                    == p;
            assert(more[i] == entries[i]);
        }
        if e.uid == uid && e.package == p {
            assert(more[entries.len() as int] == e);
        }
    }
    if e.uid == uid {
        assert(packages_of(more, uid) =~= packages_of(entries, uid).insert(e.package));
    } else {
        assert(packages_of(more, uid) =~= packages_of(entries, uid));
    }
}

impl UidPackageCache {
    /// A cache of what a provider loads.
    pub fn warm_from<P: PackageUidProvider>(provider: &P) -> (r: Result<Self, EngineError>)
        ensures
            match r {
                Ok(cache) => exists|snapshot: PackageUidSnapshot| #[trigger]
                    provider.loads(Ok(snapshot)) && holds_snapshot(cache@, snapshot@),
                Err(e) => provider.loads(Err(e)),
            },
    {
        let mut cache = UidPackageCache::default();
        match cache.update_from(provider) {
            Ok(()) => Ok(cache),
            Err(e) => Err(e),
        }
    }

    /// Replaces the contents by what a provider loads; keeps them if it fails.
    pub fn update_from<P: PackageUidProvider>(&mut self, provider: &P) -> (r: Result<
        (),
        EngineError,
    >)
        ensures
            match r {
                Ok(_) => exists|snapshot: PackageUidSnapshot| #[trigger]
                    provider.loads(Ok(snapshot)) && holds_snapshot(final(self)@, snapshot@),
                Err(e) => provider.loads(Err(e)) && *final(self) == *old(self),
            },
    {
        match provider.load() {
            Ok(snapshot) => self.update_from_snapshot(snapshot),
            Err(e) => Err(e),
        }
    }

    /// Replaces the contents by a snapshot.
    pub fn update_from_snapshot(&mut self, snapshot: PackageUidSnapshot) -> (r: Result<
        (),
        EngineError,
    >)
        ensures
            r is Ok,
            holds_snapshot(final(self)@, snapshot@),
    {
        let entries = &snapshot.entries;
        let ghost all = entry_models(entries@);
        let mut package_to_uid: OrdMap<String, u32> = OrdMap::new();
        let mut package_to_base_apk_path: OrdMap<String, EnginePath> = OrdMap::new();
        let mut uid_packages: OrdMap<u32, OrdSet<String>> = OrdMap::new();
        let mut i: usize = 0;
        proof {
            assert(all.take(0) == Seq::<EntryModel>::empty());
            assert forall|uid: u32| #[trigger] packages_of(all.take(0), uid) == Set::<
                Seq<char>,
            >::empty() by {
                assert(packages_of(all.take(0), uid) =~= Set::<Seq<char>>::empty());
            }
        }
        while i < entries.len()
            invariant
                i <= entries.len(),
                all == entry_models(entries@),
                package_to_uid@ == uids_of(all.take(i as int)),
                package_to_base_apk_path@ == apks_of(all.take(i as int)),
                forall|uid: u32|
                    #![trigger uid_packages@.contains_key(uid)]
                    #![trigger packages_of(all.take(i as int), uid)]
                    {
                        &&& uid_packages@.contains_key(uid) <==> packages_of(
                            all.take(i as int),
                            uid,
                        ) != Set::<Seq<char>>::empty()
                        &&& uid_packages@.contains_key(uid) ==> uid_packages@[uid] == packages_of(
                            all.take(i as int),
                            uid,
                        )
                    },
            decreases entries.len() - i,
        {
            let entry = &entries[i];
            let ghost seen = all.take(i as int);
            let ghost e = all[i as int];
            proof {
                assert(e == entry@);
                assert(all.take(i + 1) == seen.push(e));
                assert(seen.push(e).drop_last() == seen);
            }
            package_to_uid.insert(entry.package.clone(), entry.uid);
            match &entry.base_apk_path {
                Some(p) => {
                    package_to_base_apk_path.insert(entry.package.clone(), p.clone());
                },
                None => {},
            }
            let ghost was = uid_packages@;
            let mut set = match uid_packages.remove(&entry.uid) {
                Some(set) => set,
                None => OrdSet::new(),
            };
            let _ = set.insert(entry.package.clone());
            let ghost grown = set@;
            uid_packages.insert(entry.uid, set);
            proof {
                assert(packages_of(seen, e.uid) == packages_of(seen, e.uid));
                assert(grown == packages_of(seen, e.uid).insert(e.package));
                assert forall|uid: u32|
                    #![trigger uid_packages@.contains_key(uid)]
                    #![trigger packages_of(all.take(i + 1), uid)]
                    {
                        &&& uid_packages@.contains_key(uid) <==> packages_of(all.take(i + 1), uid)
                            != Set::<Seq<char>>::empty()
                        &&& uid_packages@.contains_key(uid) ==> uid_packages@[uid] == packages_of(
                            all.take(i + 1),
                            uid,
                        )
                    } by {
                    lemma_packages_step(seen, e, uid);
                    assert(was.contains_key(uid) <==> packages_of(seen, uid)
                        != Set::<Seq<char>>::empty());
                    if uid == e.uid {
                        assert(packages_of(all.take(i + 1), uid).contains(e.package));
                    }
                }
            }
            i += 1;
        }
        assert(all.take(i as int) == all);
        let mut uid_to_packages: OrdMap<u32, Vec<String>> = OrdMap::new();
        let n: usize = uid_packages.len();
        let ghost uids = uid_packages.names();
        let mut k: usize = 0;
        while k < n
            invariant
                k <= n,
                n == uid_packages.names().len(),
                uids == uid_packages.names(),
                ordered::lists(uids, uid_packages@, u32::order()),
                forall|uid: u32| #[trigger]
                    uid_to_packages@.contains_key(uid) <==> uids.take(k as int).contains(uid),
                forall|uid: u32| #[trigger]
                    uid_to_packages@.contains_key(uid) ==> ordered::enumerates(
                        uid_to_packages@[uid],
                        uid_packages@[uid],
                        String::order(),
                    ),
            decreases n - k,
        {
            let ghost was = uid_to_packages@;
            let uid: u32 = *uid_packages.key_at(k);
            let list = ordered::listed(uid_packages.value_at(k));
            uid_to_packages.insert(uid, list);
            proof {
                assert(uids.take(k + 1) == uids.take(k as int).push(uid));
                assert forall|u: u32| #[trigger]
                    uid_to_packages@.contains_key(u) <==> uids.take(k + 1).contains(u) by {
                    if u == uid {
                        assert(uids.take(k + 1)[k as int] == u);
                    } else if was.contains_key(u) {
                        let j = uids.take(k as int).index_of(u);
                        assert(uids.take(k + 1)[j] == u);
                    } else if uids.take(k + 1).contains(u) {
                        let j = uids.take(k + 1).index_of(u);
                        assert(uids.take(k as int)[j] == u);
                    }
                }
            }
            k += 1;
        }
        proof {
            assert(uids.take(n as int) == uids);
            assert forall|uid: u32|
                #![trigger uid_to_packages@.contains_key(uid)]
                #![trigger packages_of(all, uid)]
                {
                    &&& uid_to_packages@.contains_key(uid) <==> packages_of(all, uid)
                        != Set::<Seq<char>>::empty()
                    &&& uid_to_packages@.contains_key(uid) ==> ordered::enumerates(
                        uid_to_packages@[uid],
                        packages_of(all, uid),
                        String::order(),
                    )
                } by {
                assert(uid_packages@.contains_key(uid) <==> uids.contains(uid));
            }
        }
        self.uid_to_packages = uid_to_packages;
        self.package_to_uid = package_to_uid;
        self.package_to_base_apk_path = package_to_base_apk_path;
        self.source = Some(snapshot.source);
        self.coherent = snapshot.coherent;
        Ok(())
    }

    /// The packages of a UID, in order.
    pub fn packages_for_uid(&self, uid: u32) -> (r: Option<&[String]>)
        ensures
            match r {
                Some(list) => self@.packages.contains_key(uid) && ordered::strings(list@)
                    == self@.packages[uid],
                None => !self@.packages.contains_key(uid),
            },
    {
        match self.uid_to_packages.get(&uid) {
            Some(list) => Some(list.as_slice()),
            None => None,
        }
    }

    /// The package of a UID that only one package has.
    pub fn exact_package_for_uid(&self, uid: u32) -> (r: Option<&str>)
        ensures
            match r {
                Some(package) => self@.uid_state(uid) == UidStateModel::Exact(package@),
                None => !(self@.uid_state(uid) is Exact),
            },
    {
        match self.uid_to_packages.get(&uid) {
            Some(list) => if list.len() == 1 {
                assert(self@.packages[uid][0] == list@[0]@);
                Some(list[0].as_str())
            } else {
                None
            },
            None => None,
        }
    }

    /// The number of packages.
    pub fn entry_count(&self) -> (r: usize)
        ensures
            r == self@.uids.len(),
    {
        self.package_to_uid.len()
    }

    /// The UID of a package.
    pub fn uid_for_package(&self, package: &str) -> (r: Option<u32>)
        ensures
            match r {
                Some(uid) => self@.uids.contains_key(package@) && self@.uids[package@] == uid,
                None => !self@.uids.contains_key(package@),
            },
    {
        match self.package_to_uid.get(&package.to_owned()) {
            Some(uid) => Some(*uid),
            None => None,
        }
    }

    /// The base APK path of a package.
    pub fn base_apk_path_for_package(&self, package: &str) -> (r: Option<&EnginePath>)
        ensures
            match r {
                Some(p) => self@.apks.contains_key(package@) && self@.apks[package@] == p@,
                None => !self@.apks.contains_key(package@),
            },
    {
        self.package_to_base_apk_path.get(&package.to_owned())
    }

    /// Where the contents come from.
    pub fn source(&self) -> (r: Option<PackageProviderSource>)
        ensures
            r == self@.source,
    {
        self.source
    }

    /// Whether the contents can be believed.
    pub fn coherent(&self) -> (r: bool)
        ensures
            r == self@.coherent,
    {
        self.coherent
    }

    /// What the cache knows of a UID.
    pub fn uid_state(&self, uid: u32) -> (r: UidPackageState)
        ensures
            r@ == self@.uid_state(uid),
    {
        match self.uid_to_packages.get(&uid) {
            Some(list) => {
                assert(self@.packages[uid].len() == list@.len());
                if list.len() == 1 {
                    assert(self@.packages[uid][0] == list@[0]@);
                    UidPackageState::Exact(list[0].clone())
                } else if list.len() > 1 {
                    UidPackageState::Ambiguous(list.duplicate())
                } else {
                    UidPackageState::Missing
                }
            },
            None => UidPackageState::Missing,
        }
    }
}

// ---------------------------------------------------------------------------
// The package list command
// ---------------------------------------------------------------------------

/// What the tokens of a line say: the last well-formed package name and what the
/// last UID token reads as.
pub open spec fn token_scan(tokens: Seq<Seq<char>>) -> (Option<Seq<char>>, Option<nat>)
    decreases tokens.len(),
{
    if tokens.len() == 0 {
        (None, None)
    } else {
        let (package, uid) = token_scan(tokens.drop_last());
        let token = tokens.last();
        match text::strip_prefix(token, "package:"@) {
            Some(value) => if package_name::package_ok(value, false) {
                (Some(value), uid)
            } else {
                (package, uid)
            },
            None => match text::strip_prefix(token, "uid:"@) {
                Some(value) => (package, text::parse_unsigned(value, u32::MAX as nat)),
                None => (package, uid),
            },
        }
    }
}

/// The entry that a line of the package list states.
pub open spec fn line_entry(line: Seq<char>) -> Option<EntryModel> {
    match token_scan(text::words(line)) {
        (Some(package), Some(uid)) => Some(
            EntryModel { package, uid: uid as u32, base_apk_path: None },
        ),
        _ => None,
    }
}

/// The entries that lines state, in the order of the lines.
pub open spec fn entries_of(lines: Seq<Seq<char>>) -> Seq<EntryModel>
    decreases lines.len(),
{
    if lines.len() == 0 {
        Seq::empty()
    } else {
        match line_entry(lines.last()) {
            Some(entry) => entries_of(lines.drop_last()).push(entry),
            None => entries_of(lines.drop_last()),
        }
    }
}

/// The entries that the output of the package list command states.
pub open spec fn listed(stdout: Seq<u8>) -> Seq<EntryModel> {
    if vstd::utf8::valid_utf8(stdout) {
        entries_of(text::lines(vstd::utf8::decode_utf8(stdout)))
    } else {
        Seq::empty()
    }
}

/// The order of entries: by package, then by UID.
pub open spec fn entry_before(a: EntryModel, b: EntryModel) -> bool {
    ordered::lex(a.package, b.package, ordered::char_order()) || (a.package == b.package && a.uid
        < b.uid)
}

/// Whether entries stand in order.
pub open spec fn in_order(s: Seq<EntryModel>) -> bool {
    forall|i: int, j: int|
        #![trigger s[i], s[j]]
        0 <= i < j < s.len() ==> !entry_before(s[j], s[i])
}

fn is_before(a: &PackageUidEntry, b: &PackageUidEntry) -> (r: bool)
    ensures
        r == entry_before(a@, b@),
{
    let ghost lt = ordered::lex_order(ordered::char_order());
    proof {
        String::order_laws();
        assert(!lt(a.package@, a.package@));
        if lt(a.package@, b.package@) && lt(b.package@, a.package@) {
            assert(lt(a.package@, a.package@));
        }
    }
    match a.package.place(&b.package) {
        Placement::Before => true,
        Placement::Same => a.uid < b.uid,
        Placement::After => false,
    }
}

proof fn lemma_entry_order(a: EntryModel, b: EntryModel, c: EntryModel)
    ensures
        !(entry_before(a, b) && entry_before(b, a)),
        entry_before(a, b) && entry_before(b, c) ==> entry_before(a, c),
        !entry_before(a, b) && !entry_before(b, c) ==> !entry_before(a, c),
{
    String::order_laws();
    let lt = ordered::lex_order(ordered::char_order());
    assert(!lt(a.package, a.package) && !lt(b.package, b.package) && !lt(c.package, c.package));
    assert(a.package == b.package || lt(a.package, b.package) || lt(b.package, a.package));
    assert(b.package == c.package || lt(b.package, c.package) || lt(c.package, b.package));
    assert(a.package == c.package || lt(a.package, c.package) || lt(c.package, a.package));
    assert(lt(a.package, b.package) && lt(b.package, a.package) ==> lt(a.package, a.package));
    assert(lt(a.package, b.package) && lt(b.package, c.package) ==> lt(a.package, c.package));
    assert(lt(c.package, b.package) && lt(b.package, a.package) ==> lt(c.package, a.package));
    assert(lt(a.package, c.package) && lt(c.package, a.package) ==> lt(a.package, a.package));
}

/// Puts an entry after those that do not stand behind it.
fn insert_in_order(entries: &mut Vec<PackageUidEntry>, entry: PackageUidEntry)
    requires
        in_order(entry_models(old(entries)@)),
    ensures
        in_order(entry_models(final(entries)@)),
        entry_models(final(entries)@).to_multiset() == entry_models(
            old(entries)@,
        ).to_multiset().insert(entry@),
{
    let ghost s = entry_models(entries@);
    let ghost e = entry@;
    let mut at: usize = entries.len();
    while at > 0 && is_before(&entry, &entries[at - 1])
        invariant
            at <= entries.len(),
            entries@ == old(entries)@,
            s == entry_models(entries@),
            e == entry@,
            forall|k: int| at <= k < s.len() ==> entry_before(e, #[trigger] s[k]),
        decreases at,
    {
        assert(s[at - 1] == entries@[at - 1]@);
        at -= 1;
    }
    entries.insert(at, entry);
    proof {
        let t = entry_models(entries@);
        assert(t =~= s.insert(at as int, e));
        vstd::seq_lib::to_multiset_insert(s, at as int, e);
        if at > 0 {
            assert(s[at - 1] == old(entries)@[at - 1]@);
        }
        assert forall|i: int, j: int|
            #![trigger t[i], t[j]]
            0 <= i < j < t.len() implies !entry_before(t[j], t[i]) by {
            if i == at {
                assert(t[j] == s[j - 1]);
                lemma_entry_order(e, s[j - 1], e);
            } else if j == at {
                assert(t[i] == s[i]);
                if i < at - 1 {
                    assert(!entry_before(s[at - 1], s[i]));
                    lemma_entry_order(e, s[at - 1], s[i]);
                }
            } else {
                let a = if i < at { i } else { i - 1 };
                let b = if j < at { j } else { j - 1 };
                assert(t[i] == s[a]);
                assert(t[j] == s[b]);
            }
        }
    }
}

fn entry_of_line(line: &Vec<char>) -> (r: Option<PackageUidEntry>)
    ensures
        match r {
            Some(entry) => line_entry(line@) == Some(entry@),
            None => line_entry(line@) is None,
        },
{
    let tokens = text::words_of(line);
    let ghost all = text::words(line@);
    let mut package: Option<Vec<char>> = None;
    let mut uid: Option<u32> = None;
    let mut i: usize = 0;
    assert(all.take(0) == Seq::<Seq<char>>::empty());
    while i < tokens.len()
        invariant
            i <= tokens.len(),
            all == text::texts(tokens@),
            match package {
                Some(p) => token_scan(all.take(i as int)).0 == Some(p@),
                None => token_scan(all.take(i as int)).0 is None,
            },
            match uid {
                Some(n) => token_scan(all.take(i as int)).1 == Some(n as nat),
                None => token_scan(all.take(i as int)).1 is None,
            },
        decreases tokens.len() - i,
    {
        let token = &tokens[i];
        proof {
            assert(all[i as int] == token@);
            assert(all.take(i + 1).drop_last() == all.take(i as int));
            assert(all.take(i + 1).last() == token@);
        }
        match text::strip_prefix_of(token, "package:") {
            Some(value) => {
                if package_name::is_package_name(&value, false) {
                    package = Some(value);
                }
            },
            None => {
                match text::strip_prefix_of(token, "uid:") {
                    Some(value) => {
                        uid = text::read_u32(&value);
                    },
                    None => {},
                }
            },
        }
        i += 1;
    }
    assert(all.take(i as int) == all);
    match (package, uid) {
        (Some(package), Some(uid)) => {
            Some(
                PackageUidEntry { package: text::string_of(&package), uid, base_apk_path: None },
            )
        },
        _ => None,
    }
}

/// The entries that the output of the package list command states, in order.
pub fn parse_cmd_package_list_stdout(stdout: &[u8]) -> (r: Vec<PackageUidEntry>)
    ensures
        in_order(entry_models(r@)),
        entry_models(r@).to_multiset() == listed(stdout@).to_multiset(),
{
    let mut entries: Vec<PackageUidEntry> = Vec::new();
    assert(entry_models(entries@) == Seq::<EntryModel>::empty());
    let content = match path::text_of(stdout) {
        Some(content) => content,
        None => {
            return entries;
        },
    };
    let lines = text::lines_of(&text::chars_of(content.as_str()));
    let ghost all = text::lines(content@);
    let mut i: usize = 0;
    assert(all.take(0) == Seq::<Seq<char>>::empty());
    while i < lines.len()
        invariant
            i <= lines.len(),
            all == text::texts(lines@),
            in_order(entry_models(entries@)),
            entry_models(entries@).to_multiset() == entries_of(all.take(i as int)).to_multiset(),
        decreases lines.len() - i,
    {
        proof {
            assert(all[i as int] == lines@[i as int]@);
            assert(all.take(i + 1).drop_last() == all.take(i as int));
            assert(all.take(i + 1).last() == lines@[i as int]@);
        }
        match entry_of_line(&lines[i]) {
            Some(entry) => {
                proof {
                    vstd::seq_lib::to_multiset_build(entries_of(all.take(i as int)), entry@);
                }
                insert_in_order(&mut entries, entry);
            },
            None => {},
        }
        i += 1;
    }
    assert(all.take(i as int) == all);
    entries
}

/// The UIDs of system services.
pub open spec fn system_service_uid(uid: u32) -> bool {
    uid == 0 || uid == 1000 || uid == 1023 || uid == 2000 || uid == 9997
}

/// How many of the entries belong to system services.
pub open spec fn system_count(entries: Seq<EntryModel>) -> nat
    decreases entries.len(),
{
    if entries.len() == 0 {
        0
    } else {
        system_count(entries.drop_last()) + if system_service_uid(entries.last().uid) {
            1nat
        } else {
            0nat
        }
    }
}

/// Whether a package list can be believed: it is long enough, some application
/// is in it, and at most half of it belongs to system services.
pub open spec fn credible(entries: Seq<EntryModel>, min_entries: nat) -> bool {
    &&& entries.len() >= min_entries
    &&& exists|i: int| 0 <= i < entries.len() && (#[trigger] entries[i]).uid >= FIRST_APP_UID
    &&& system_count(entries) * 2 <= entries.len()
}

fn is_coherent(entries: &Vec<PackageUidEntry>, coherence: &PackageUidCoherence) -> (r: bool)
    ensures
        r == credible(entry_models(entries@), coherence.min_entries as nat),
{
    let ghost all = entry_models(entries@);
    let mut app = false;
    let mut system: usize = 0;
    let mut i: usize = 0;
    while i < entries.len()
        invariant
            i <= entries.len(),
            all == entry_models(entries@),
            app == exists|k: int| 0 <= k < i && (#[trigger] all[k]).uid >= FIRST_APP_UID,
            system == system_count(all.take(i as int)),
            system <= i,
        decreases entries.len() - i,
    {
        let uid: u32 = entries[i].uid;
        proof {
            assert(all[i as int] == entries@[i as int]@);
            assert(all.take(i + 1).drop_last() == all.take(i as int));
            assert(all.take(i + 1).last() == all[i as int]);
        }
        if uid >= FIRST_APP_UID {
            app = true;
            assert(all[i as int].uid >= FIRST_APP_UID);
        }
        if uid == 0 || uid == 1000 || uid == 1023 || uid == 2000 || uid == 9997 {
            system += 1;
        }
        i += 1;
    }
    assert(all.take(i as int) == all);
    entries.len() >= coherence.min_entries && app && system <= entries.len() - system
}

/// The package list command of the system.
#[derive(Debug)]
pub struct CmdPackageListProvider {
    runner: ExecRunner,
    cmd_path: EnginePath,
    user: u32,
    coherence: PackageUidCoherence,
}

/// The arguments that ask the package list command for UIDs.
pub open spec fn package_list_argv(cmd_path: Seq<u8>, user: u32) -> Seq<Seq<char>> {
    seq![
        path::text_in(cmd_path),
        "package"@,
        "list"@,
        "packages"@,
        "-U"@,
        "--user"@,
        text::decimal(user as nat),
    ]
}

impl Clone for CmdPackageListProvider {
    fn clone(&self) -> (r: Self)
        ensures
            r.settings() == self.settings(),
            r.command() == self.command(),
            r.user_id() == self.user_id(),
            r.min_entries() == self.min_entries(),
    {
        CmdPackageListProvider {
            runner: self.runner.clone(),
            cmd_path: self.cmd_path.clone(),
            user: self.user,
            coherence: self.coherence,
        }
    }
}

impl CmdPackageListProvider {
    /// The execution settings.
    pub closed spec fn settings(&self) -> crate::config::ExecConfigModel {
        self.runner@
    }

    /// The path of the command.
    pub closed spec fn command(&self) -> Seq<u8> {
        self.cmd_path@
    }

    /// The user whose packages are listed.
    pub closed spec fn user_id(&self) -> u32 {
        self.user
    }

    /// The number of entries that a snapshot needs.
    pub closed spec fn min_entries(&self) -> nat {
        self.coherence.min_entries as nat
    }

    /// A provider that runs the given command for the given user.
    pub fn new(runner: ExecRunner, cmd_path: EnginePath, user: u32) -> (r: Self)
        ensures
            r.settings() == runner@,
            r.command() == cmd_path@,
            r.user_id() == user,
            r.min_entries() == 5,
    {
        CmdPackageListProvider {
            runner,
            cmd_path,
            user,
            coherence: PackageUidCoherence::default(),
        }
    }

    /// The provider with another number of needed entries.
    pub fn with_min_entries(self, min_entries: usize) -> (r: Self)
        ensures
            r.settings() == self.settings(),
            r.command() == self.command(),
            r.user_id() == self.user_id(),
            r.min_entries() == min_entries,
    {
        CmdPackageListProvider {
            runner: self.runner,
            cmd_path: self.cmd_path,
            user: self.user,
            coherence: PackageUidCoherence { min_entries },
        }
    }

    /// The process to run for a load.
    pub fn load_request(&self) -> (r: Result<SpawnRequest, EngineError>)
        ensures
            process::asked(
                self.settings(),
                package_list_argv(self.command(), self.user_id()),
                true,
                r,
            ),
    {
        let mut argv: Vec<String> = Vec::new();
        argv.push(self.cmd_path.to_text_lossy());
        argv.push("package".to_owned());
        argv.push("list".to_owned());
        argv.push("packages".to_owned());
        argv.push("-U".to_owned());
        argv.push("--user".to_owned());
        argv.push(text::string_of(&text::decimal_of(self.user as u128)));
        assert(ordered::strings(argv@) =~= package_list_argv(self.command(), self.user_id()));
        self.runner.run_capture_stdout(argv)
    }

    /// The snapshot that the output of the command states: no entry unless the
    /// process exited with zero.
    pub fn load_output(&self, output: &ExecOutput) -> (r: PackageUidSnapshot)
        ensures
            in_order(r@.entries),
            r@.entries.to_multiset() == (if output.status == Some(ExitStatus::Exited(0)) {
                listed(output.stdout@)
            } else {
                Seq::empty()
            }).to_multiset(),
            r@.source == PackageProviderSource::CmdPackageList,
            r@.coherent == credible(r@.entries, self.min_entries()),
    {
        let exited = match output.status {
            Some(ExitStatus::Exited(code)) => code == 0,
            _ => false,
        };
        let entries: Vec<PackageUidEntry> = if exited {
            parse_cmd_package_list_stdout(output.stdout.as_slice())
        } else {
            let none: Vec<PackageUidEntry> = Vec::new();
            assert(entry_models(none@) == Seq::<EntryModel>::empty());
            none
        };
        let coherent = is_coherent(&entries, &self.coherence);
        PackageUidSnapshot { entries, source: PackageProviderSource::CmdPackageList, coherent }
    }

    /// What a load gives once the process has run.
    pub fn load(&self, run: Result<ExecOutput, EngineError>) -> (r: Result<
        PackageUidSnapshot,
        EngineError,
    >)
        ensures
            match run {
                Ok(output) => r matches Ok(snapshot) && in_order(snapshot@.entries)
                    && snapshot@.entries.to_multiset() == (if output.status == Some(
                    ExitStatus::Exited(0),
                ) {
                    listed(output.stdout@)
                } else {
                    Seq::empty()
                }).to_multiset() && snapshot@.source == PackageProviderSource::CmdPackageList
                    && snapshot@.coherent == credible(snapshot@.entries, self.min_entries()),
                Err(e) => r == Err::<PackageUidSnapshot, EngineError>(e),
            },
    {
        match run {
            Ok(output) => Ok(self.load_output(&output)),
            Err(e) => Err(e),
        }
    }
}

} // verus!

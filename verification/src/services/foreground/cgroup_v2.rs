//! The foreground application by the populated control groups of the second
//! version.
use vstd::prelude::*;

use crate::error::EngineError;
use crate::ordered::{Key, OrdMap, OrdSet, Record};
use crate::path::{EnginePath, PathSet};
use crate::services::foreground::cache::{UidPackageCache, UidPackageState};
use crate::services::foreground::source::{
    ForegroundCandidate, ForegroundCandidateFilter, ForegroundSourceKind,
};
use crate::{
    error, ordered, path, services::foreground::cache, services::foreground::source, text,
};

verus! {

/// Whether a control group has processes.
#[derive(Clone, Copy, Debug, PartialEq, Eq, Structural)]
pub enum CgroupV2Populated {
    Active,
    Inactive,
    Unknown,
}

/// A control group that gained or lost its processes.
#[derive(Clone, Copy, Debug, PartialEq, Eq)]
pub struct CgroupV2UidEvent {
    pub uid: u32,
    pub active: bool,
}

const IN_CREATE_MASK: u32 = 0x0000_0100;

const IN_DELETE_MASK: u32 = 0x0000_0200;

const IN_MOVED_FROM_MASK: u32 = 0x0000_0040;

const IN_MOVED_TO_MASK: u32 = 0x0000_0080;

/// The event queue overflowed.
pub const IN_Q_OVERFLOW_MASK: u32 = 0x0000_4000;

const IN_DELETE_SELF_MASK: u32 = 0x0000_0400;

const IN_MOVE_SELF_MASK: u32 = 0x0000_0800;

const IN_IGNORED_MASK: u32 = 0x0000_8000;

/// The events that the roots are watched for: creation, deletion and moves of
/// what is in them, and deletion, moves and loss of the roots themselves.
pub const ROOT_HINT_MASK: u32 = 0x0000_8fc0;

// ---------------------------------------------------------------------------
// Mounts
// ---------------------------------------------------------------------------

/// A line of the mount table.
#[derive(Debug, PartialEq, Eq)]
pub struct ProcMountEntry {
    pub source: String,
    pub mount_point: EnginePath,
    pub fs_type: String,
}

/// The model of a line of the mount table.
pub struct MountModel {
    pub source: Seq<char>,
    pub mount_point: Seq<u8>,
    pub fs_type: Seq<char>,
}

impl View for ProcMountEntry {
    type V = MountModel;

    open spec fn view(&self) -> MountModel {
        MountModel {
            source: self.source@,
            mount_point: self.mount_point@,
            fs_type: self.fs_type@,
        }
    }
}

impl Clone for ProcMountEntry {
    fn clone(&self) -> (r: Self)
        ensures
            r@ == self@,
    {
        ProcMountEntry {
            source: self.source.clone(),
            mount_point: self.mount_point.clone(),
            fs_type: self.fs_type.clone(),
        }
    }
}

/// The models of the lines of the mount table.
pub open spec fn mount_models(s: Seq<ProcMountEntry>) -> Seq<MountModel> {
    Seq::new(s.len(), |i: int| s[i]@)
}

/// The octal digits.
pub open spec fn octal(b: u8) -> bool {
    0x30 <= b <= 0x37
}

/// The byte that the three characters after a backslash stand for, if they are
/// an octal number of at most 255: three digits, or a plus sign and two.
pub open spec fn escape_at(b: Seq<u8>, i: int) -> Option<u8> {
    if i + 3 < b.len() && b[i] == 0x5c && octal(b[i + 2]) && octal(b[i + 3]) {
        let low = (b[i + 2] - 0x30) * 8 + (b[i + 3] - 0x30);
        if b[i + 1] == 0x2b {
            Some(low as u8)
        } else if 0x30 <= b[i + 1] <= 0x33 {
            Some(((b[i + 1] - 0x30) * 64 + low) as u8)
        } else {
            None
        }
    } else {
        None
    }
}

/// A field from position `i` on with its escapes replaced; every other byte
/// stands for the character of the same number.
pub open spec fn unescaped_from(b: Seq<u8>, i: int) -> Seq<char>
    decreases b.len() - i,
{
    if i < 0 || i >= b.len() {
        Seq::empty()
    } else {
        match escape_at(b, i) {
            Some(value) => seq![value as char] + unescaped_from(b, i + 4),
            None => seq![b[i] as char] + unescaped_from(b, i + 1),
        }
    }
}

/// A field with its escapes replaced.
pub open spec fn unescaped(field: Seq<char>) -> Seq<char> {
    unescaped_from(vstd::utf8::encode_utf8(field), 0)
}

/// Whether the three bytes after every backslash that has three after it end
/// where a character ends.
pub open spec fn escapes_whole(b: Seq<u8>) -> bool {
    forall|i: int|
        0 <= i && i + 4 < b.len() && #[trigger] b[i] == 0x5c ==> !(0x80 <= b[i + 4] < 0xc0)
}

fn unescape_proc_mount_field(field: &Vec<char>) -> (r: String)
    ensures
        r@ == unescaped(field@),
{
    let whole = text::string_of(field);
    let bytes = whole.as_str().as_bytes();
    let ghost b = vstd::utf8::encode_utf8(field@);
    let mut out = String::new();
    let mut i: usize = 0;
    while i < bytes.len()
        invariant
            i <= bytes@.len(),
            bytes@ == b,
            out@ + unescaped_from(b, i as int) == unescaped_from(b, 0),
        decreases bytes@.len() - i,
    {
        let mut escape: Option<u8> = None;
        if bytes[i] == 0x5c && bytes.len() - i > 3 {
            let high: u8 = bytes[i + 1];
            let mid: u8 = bytes[i + 2];
            let low: u8 = bytes[i + 3];
            if 0x30 <= mid && mid <= 0x37 && 0x30 <= low && low <= 0x37 {
                let tail: u8 = (mid - 0x30) * 8 + (low - 0x30);
                if high == 0x2b {
                    escape = Some(tail);
                } else if 0x30 <= high && high <= 0x33 {
                    escape = Some((high - 0x30) * 64 + tail);
                }
            }
        }
        assert(escape == escape_at(b, i as int));
        let ghost before = out@;
        match escape {
            Some(value) => {
                out.push(value as char);
                assert(before + (seq![value as char] + unescaped_from(b, i + 4)) == out@
                    + unescaped_from(b, i + 4));
                i += 4;
            },
            None => {
                let value: u8 = bytes[i];
                out.push(value as char);
                assert(before + (seq![value as char] + unescaped_from(b, i + 1)) == out@
                    + unescaped_from(b, i + 1));
                i += 1;
            },
        }
    }
    assert(out@ + unescaped_from(b, i as int) == out@);
    out
}

/// What a line of the mount table states: source, mount point and type, if it
/// has three fields.
pub open spec fn mount_of_line(line: Seq<char>) -> Option<MountModel> {
    let fields = text::words(line);
    if fields.len() < 3 {
        None
    } else {
        Some(
            MountModel {
                source: unescaped(fields[0]),
                mount_point: vstd::utf8::encode_utf8(unescaped(fields[1])),
                fs_type: unescaped(fields[2]),
            },
        )
    }
}

/// What the lines of a mount table state, in order.
pub open spec fn mounts_of(lines: Seq<Seq<char>>) -> Seq<MountModel>
    decreases lines.len(),
{
    if lines.len() == 0 {
        Seq::empty()
    } else {
        match mount_of_line(lines.last()) {
            Some(entry) => mounts_of(lines.drop_last()).push(entry),
            None => mounts_of(lines.drop_last()),
        }
    }
}

/// Whether the fields of a mount table that are read have no broken escapes.
pub open spec fn table_readable(content: Seq<char>) -> bool {
    let lines = text::lines(content);
    forall|i: int, j: int|
        0 <= i < lines.len() && 0 <= j < 3 && j < text::words(lines[i]).len() ==> escapes_whole(
            vstd::utf8::encode_utf8(#[trigger] text::words(lines[i])[j]),
        )
}

fn has_whole_escapes(field: &Vec<char>) -> (r: bool)
    ensures
        r == escapes_whole(vstd::utf8::encode_utf8(field@)),
{
    let whole = text::string_of(field);
    let bytes = whole.as_str().as_bytes();
    let ghost b = vstd::utf8::encode_utf8(field@);
    let mut i: usize = 0;
    while i < bytes.len()
        invariant
            i <= bytes@.len(),
            bytes@ == b,
            b == vstd::utf8::encode_utf8(field@),
            forall|k: int|
                0 <= k < i && k + 4 < b.len() && #[trigger] b[k] == 0x5c ==> !(0x80 <= b[k + 4]
                    < 0xc0),
        decreases bytes@.len() - i,
    {
        if bytes[i] == 0x5c && bytes.len() - i > 4 {
            let next: u8 = bytes[i + 4];
            if 0x80 <= next && next < 0xc0 {
                assert(b[i as int] == 0x5c && 0x80 <= b[i + 4] < 0xc0);
                return false;
            }
        }
        i += 1;
    }
    true
}

/// Whether a mount table can be read.
pub fn is_readable_table(content: &str) -> (r: bool)
    ensures
        r == table_readable(content@),
{
    let lines = text::lines_of(&text::chars_of(content));
    let ghost all = text::lines(content@);
    let mut i: usize = 0;
    while i < lines.len()
        invariant
            i <= lines.len(),
            all == text::texts(lines@),
            all == text::lines(content@),
            forall|k: int, j: int|
                0 <= k < i && 0 <= j < 3 && j < text::words(all[k]).len() ==> escapes_whole(
                    vstd::utf8::encode_utf8(#[trigger] text::words(all[k])[j]),
                ),
        decreases lines.len() - i,
    {
        let fields = text::words_of(&lines[i]);
        let ghost words = text::words(all[i as int]);
        assert(all[i as int] == lines@[i as int]@);
        let mut j: usize = 0;
        while j < 3 && j < fields.len()
            invariant
                j <= 3,
                j <= fields.len(),
                i < lines.len(),
                all == text::texts(lines@),
                all == text::lines(content@),
                words == text::words(all[i as int]),
                words == text::texts(fields@),
                forall|k: int|
                    0 <= k < j ==> escapes_whole(vstd::utf8::encode_utf8(#[trigger] words[k])),
            decreases 3 - j,
        {
            assert(words[j as int] == fields@[j as int]@);
            if !has_whole_escapes(&fields[j]) {
                assert(!escapes_whole(
                    vstd::utf8::encode_utf8(text::words(text::lines(content@)[i as int])[j as int]),
                ));
                return false;
            }
            j += 1;
        }
        i += 1;
    }
    true
}

/// Reads the mount table. A backslash whose next three bytes end within a
/// character is not read.
pub fn parse_proc_mounts(content: &str) -> (r: Vec<ProcMountEntry>)
    requires
        table_readable(content@),
    ensures
        mount_models(r@) == mounts_of(text::lines(content@)),
{
    let lines = text::lines_of(&text::chars_of(content));
    let ghost all = text::lines(content@);
    let mut r: Vec<ProcMountEntry> = Vec::new();
    let mut i: usize = 0;
    assert(all.take(0) == Seq::<Seq<char>>::empty());
    assert(mount_models(r@) =~= mounts_of(all.take(0)));
    while i < lines.len()
        invariant
            i <= lines.len(),
            all == text::texts(lines@),
            mount_models(r@) == mounts_of(all.take(i as int)),
        decreases lines.len() - i,
    {
        proof {
            assert(all[i as int] == lines@[i as int]@);
            assert(all.take(i + 1).drop_last() == all.take(i as int));
            assert(all.take(i + 1).last() == lines@[i as int]@);
        }
        let fields = text::words_of(&lines[i]);
        assert(text::words(lines@[i as int]@).len() == fields.len());
        if fields.len() >= 3 {
            assert(text::words(lines@[i as int]@)[0] == fields@[0]@);
            assert(text::words(lines@[i as int]@)[1] == fields@[1]@);
            assert(text::words(lines@[i as int]@)[2] == fields@[2]@);
            let source = unescape_proc_mount_field(&fields[0]);
            let mount_point = EnginePath::new(unescape_proc_mount_field(&fields[1]).as_str());
            let fs_type = unescape_proc_mount_field(&fields[2]);
            let ghost was = r@;
            let entry = ProcMountEntry { source, mount_point, fs_type };
            let ghost model = entry@;
            r.push(entry);
            assert(mount_models(r@) =~= mount_models(was).push(model));
        }
        i += 1;
    }
    assert(all.take(i as int) == all);
    r
}

/// The mount point of the first unified control group mount.
pub open spec fn first_cgroup2(mounts: Seq<MountModel>) -> Option<Seq<u8>>
    decreases mounts.len(),
{
    if mounts.len() == 0 {
        None
    } else if mounts.first().fs_type == "cgroup2"@ {
        Some(mounts.first().mount_point)
    } else {
        first_cgroup2(mounts.drop_first())
    }
}

/// Where a mount table says that the unified control groups are mounted.
pub fn find_cgroup2_mount(content: &str) -> (r: Option<EnginePath>)
    requires
        table_readable(content@),
    ensures
        cache::path_bytes(r) == first_cgroup2(mounts_of(text::lines(content@))),
{
    let mounts = parse_proc_mounts(content);
    let ghost all = mount_models(mounts@);
    let mut i: usize = 0;
    assert(all.skip(0) == all);
    while i < mounts.len()
        invariant
            i <= mounts.len(),
            all == mount_models(mounts@),
            all == mounts_of(text::lines(content@)),
            first_cgroup2(all.skip(i as int)) == first_cgroup2(all),
        decreases mounts.len() - i,
    {
        proof {
            assert(all.skip(i as int).first() == mounts@[i as int]@);
            assert(all.skip(i as int).drop_first() == all.skip(i + 1));
        }
        if mounts[i].fs_type == "cgroup2".to_owned() {
            return Some(mounts[i].mount_point.clone());
        }
        i += 1;
    }
    None
}

/// The directories that may hold per-UID control groups: the mount point and its
/// `apps`.
pub open spec fn uid_roots(mount: Option<Seq<u8>>) -> Seq<Seq<u8>> {
    match mount {
        Some(mount) => seq![mount, path::joined(mount, vstd::utf8::encode_utf8("apps"@))],
        None => Seq::empty(),
    }
}

/// The directories that may hold per-UID control groups, by a mount table.
pub fn candidate_uid_roots_from_proc_mounts(content: &str) -> (r: Vec<EnginePath>)
    requires
        table_readable(content@),
    ensures
        source::path_models(r@) == uid_roots(first_cgroup2(mounts_of(text::lines(content@)))),
{
    let mut r: Vec<EnginePath> = Vec::new();
    match find_cgroup2_mount(content) {
        Some(mount) => {
            let apps = mount.join("apps");
            r.push(mount);
            r.push(apps);
        },
        None => {},
    }
    assert(source::path_models(r@) =~= uid_roots(
        first_cgroup2(mounts_of(text::lines(content@))),
    ));
    r
}

// ---------------------------------------------------------------------------
// Events files and directory names
// ---------------------------------------------------------------------------

/// What the lines of an events file say: the first `populated` line decides.
pub open spec fn populated_by(lines: Seq<Seq<char>>) -> CgroupV2Populated
    decreases lines.len(),
{
    if lines.len() == 0 {
        CgroupV2Populated::Unknown
    } else {
        let words = text::words(lines.first());
        if words.len() == 0 || words[0] != "populated"@ {
            populated_by(lines.drop_first())
        } else if words.len() > 1 && words[1] == "1"@ {
            CgroupV2Populated::Active
        } else if words.len() > 1 && words[1] == "0"@ {
            CgroupV2Populated::Inactive
        } else {
            CgroupV2Populated::Unknown
        }
    }
}

/// What the contents of an events file say.
pub open spec fn populated_in(content: Seq<u8>) -> CgroupV2Populated {
    if vstd::utf8::valid_utf8(content) {
        populated_by(text::lines(vstd::utf8::decode_utf8(content)))
    } else {
        CgroupV2Populated::Unknown
    }
}

/// Reads the contents of an events file.
pub fn parse_cgroup_events_populated(content: &[u8]) -> (r: CgroupV2Populated)
    ensures
        r == populated_in(content@),
{
    let decoded = match path::text_of(content) {
        Some(decoded) => decoded,
        None => {
            return CgroupV2Populated::Unknown;
        },
    };
    let lines = text::lines_of(&text::chars_of(decoded.as_str()));
    let ghost all = text::lines(decoded@);
    let mut i: usize = 0;
    assert(all.skip(0) == all);
    while i < lines.len()
        invariant
            i <= lines.len(),
            all == text::texts(lines@),
            populated_by(all) == populated_in(content@),
            populated_by(all.skip(i as int)) == populated_by(all),
        decreases lines.len() - i,
    {
        let words = text::words_of(&lines[i]);
        proof {
            assert(all.skip(i as int).first() == lines@[i as int]@);
            assert(all.skip(i as int).drop_first() == all.skip(i + 1));
            assert(text::words(lines@[i as int]@).len() == words.len());
        }
        if words.len() > 0 {
            assert(text::words(lines@[i as int]@)[0] == words@[0]@);
            if text::same_as_str(&words[0], "populated") {
                if words.len() > 1 {
                    assert(text::words(lines@[i as int]@)[1] == words@[1]@);
                    if text::same_as_str(&words[1], "1") {
                        return CgroupV2Populated::Active;
                    }
                    if text::same_as_str(&words[1], "0") {
                        return CgroupV2Populated::Inactive;
                    }
                }
                return CgroupV2Populated::Unknown;
            }
        }
        i += 1;
    }
    CgroupV2Populated::Unknown
}

/// How much of an events file is read through its descriptor.
pub const EVENTS_READ_LIMIT: usize = 256;

/// What was read of an events file once a further piece was read: all of it, as far as
/// the limit goes.
pub open spec fn read_on(so_far: Seq<u8>, piece: Seq<u8>) -> Seq<u8> {
    if so_far.len() + piece.len() <= EVENTS_READ_LIMIT {
        so_far + piece
    } else {
        (so_far + piece).take(EVENTS_READ_LIMIT as int)
    }
}

/// An events file that is being read through its descriptor, piece by piece.
#[derive(Debug)]
pub struct EventsReader {
    bytes: Vec<u8>,
}

impl View for EventsReader {
    type V = Seq<u8>;

    closed spec fn view(&self) -> Seq<u8> {
        self.bytes@
    }
}

impl EventsReader {
    #[verifier::type_invariant]
    spec fn within_limit(&self) -> bool {
        self.bytes@.len() <= EVENTS_READ_LIMIT
    }

    /// A file of which nothing was read.
    pub fn new() -> (r: Self)
        ensures
            r@ == Seq::<u8>::empty(),
    {
        EventsReader { bytes: Vec::new() }
    }

    /// How many bytes may be read next.
    pub fn room(&self) -> (r: usize)
        ensures
            r == EVENTS_READ_LIMIT - self@.len(),
    {
        proof {
            use_type_invariant(self);
        }
        EVENTS_READ_LIMIT - self.bytes.len()
    }

    /// Takes what was read; says whether to stop there: at the end of the file,
    /// where nothing more could be read, and at the limit. What goes beyond the
    /// limit is left out.
    pub fn read(&mut self, piece: &[u8]) -> (r: bool)
        ensures
            final(self)@ == (if old(self)@.len() + piece@.len() <= EVENTS_READ_LIMIT {
                old(self)@ + piece@
            } else {
                (old(self)@ + piece@).take(EVENTS_READ_LIMIT as int)
            }),
            final(self)@ == read_on(old(self)@, piece@),
            r == (piece@.len() == 0 || final(self)@.len() == EVENTS_READ_LIMIT),
    {
        proof {
            use_type_invariant(&*self);
        }
        let ghost whole = self@ + piece@;
        let ghost before = self@;
        let mut bytes: Vec<u8> = Vec::new();
        std::mem::swap(&mut bytes, &mut self.bytes);
        let mut k: usize = 0;
        assert(bytes@ == whole.take(before.len() as int));
        while k < piece.len() && bytes.len() < EVENTS_READ_LIMIT
            invariant
                k <= piece@.len(),
                whole == before + piece@,
                bytes@.len() <= EVENTS_READ_LIMIT,
                bytes@ == whole.take(before.len() + k),
            decreases piece.len() - k,
        {
            bytes.push(piece[k]);
            k += 1;
        }
        self.bytes = bytes;
        piece.len() == 0 || self.bytes.len() == EVENTS_READ_LIMIT
    }

    /// The bytes that were read.
    pub fn into_bytes(self) -> (r: Vec<u8>)
        ensures
            r@ == self@,
    {
        self.bytes
    }
}

/// The UID that a directory name states: `uid_` and a number, or `u`, a user
/// number, `_a` and an application number.
pub open spec fn uid_of_name(name: Seq<char>) -> Option<nat> {
    match text::strip_prefix(name, "uid_"@) {
        Some(rest) => text::parse_unsigned(rest, u32::MAX as nat),
        None => match text::strip_prefix(name, "u"@) {
            None => None,
            Some(rest) => match text::split_once(rest, "_a"@) {
                None => None,
                Some((user, app)) => match (
                    text::parse_unsigned(user, u32::MAX as nat),
                    text::parse_unsigned(app, u32::MAX as nat),
                ) {
                    (Some(user), Some(app)) => if user * 100_000 + 10_000 + app <= u32::MAX {
                        Some(user * 100_000 + 10_000 + app)
                    } else {
                        None
                    },
                    _ => None,
                },
            },
        },
    }
}

/// The UID that the file name of a path states.
pub open spec fn uid_of_path(p: Seq<u8>) -> Option<nat> {
    match path::file_name(p) {
        Some(name) if vstd::utf8::valid_utf8(name) => uid_of_name(vstd::utf8::decode_utf8(name)),
        _ => None,
    }
}

/// The UID that the file name of a path states.
pub fn parse_uid_dir_name(dir: &EnginePath) -> (r: Option<u32>)
    ensures
        match r {
            Some(uid) => uid_of_path(dir@) == Some(uid as nat),
            None => uid_of_path(dir@) is None,
        },
{
    let name = match dir.file_name() {
        Some(name) => name,
        None => {
            return None;
        },
    };
    let name = match path::text_of(name.as_slice()) {
        Some(name) => text::chars_of(name.as_str()),
        None => {
            return None;
        },
    };
    match text::strip_prefix_of(&name, "uid_") {
        Some(rest) => {
            return text::read_u32(&rest);
        },
        None => {},
    }
    let rest = match text::strip_prefix_of(&name, "u") {
        Some(rest) => rest,
        None => {
            return None;
        },
    };
    let (user, app) = match text::split_once_at(&rest, "_a") {
        Some(parts) => parts,
        None => {
            return None;
        },
    };
    match (text::read_u32(&user), text::read_u32(&app)) {
        (Some(user), Some(app)) => {
            let uid: u64 = user as u64 * 100_000 + 10_000 + app as u64;
            if uid <= 0xffff_ffff {
                Some(uid as u32)
            } else {
                None
            }
        },
        _ => None,
    }
}

/// The package that a UID resolves into, unless it is blocked.
pub open spec fn allowed_package(
    cache: cache::CacheModel,
    uid: u32,
    blocked: Set<Seq<char>>,
) -> Option<Seq<char>> {
    match cache.uid_state(uid) {
        cache::UidStateModel::Exact(package) => if blocked.contains(package) {
            None
        } else {
            Some(package)
        },
        _ => None,
    }
}

/// The package that a UID resolves into, unless it is blocked.
pub fn resolve_v2_uid_with_cache(
    uid: u32,
    cache: &UidPackageCache,
    blocked_packages: &OrdSet<String>,
) -> (r: Option<String>)
    ensures
        source::text_model(r) == allowed_package(cache@, uid, blocked_packages@),
{
    match cache.uid_state(uid) {
        UidPackageState::Exact(package) => {
            if blocked_packages.contains(&package) {
                None
            } else {
                Some(package)
            }
        },
        _ => None,
    }
}

// ---------------------------------------------------------------------------
// The source
// ---------------------------------------------------------------------------

/// A watched control group.
#[derive(Debug, PartialEq, Eq)]
pub struct UidWatch {
    pub uid: u32,
    pub events_path: EnginePath,
    pub generation: u64,
    pub populated: CgroupV2Populated,
}

/// The model of a watched control group.
pub struct WatchModel {
    pub uid: u32,
    pub events_path: Seq<u8>,
    pub generation: u64,
    pub populated: CgroupV2Populated,
}

impl Record for UidWatch {
    type Model = WatchModel;

    open spec fn model(&self) -> WatchModel {
        WatchModel {
            uid: self.uid,
            events_path: self.events_path@,
            generation: self.generation,
            populated: self.populated,
        }
    }

    fn duplicate(&self) -> (r: Self) {
        UidWatch {
            uid: self.uid,
            events_path: self.events_path.clone(),
            generation: self.generation,
            populated: self.populated,
        }
    }
}

/// An entry of a root directory, as it was found.
#[derive(Debug, PartialEq, Eq)]
pub struct RootEntry {
    /// The path of the entry.
    pub path: EnginePath,
    /// Whether it is a directory.
    pub is_dir: bool,
    /// Whether its events file is a regular file.
    pub events_is_file: bool,
    /// Whether its events file could be opened.
    pub events_opens: bool,
}

/// The model of an entry of a root directory.
pub struct RootEntryModel {
    pub path: Seq<u8>,
    pub is_dir: bool,
    pub events_is_file: bool,
    pub events_opens: bool,
}

impl View for RootEntry {
    type V = RootEntryModel;

    open spec fn view(&self) -> RootEntryModel {
        RootEntryModel {
            path: self.path@,
            is_dir: self.is_dir,
            events_is_file: self.events_is_file,
            events_opens: self.events_opens,
        }
    }
}

/// The models of the entries of a root directory.
pub open spec fn entry_models(s: Seq<RootEntry>) -> Seq<RootEntryModel> {
    Seq::new(s.len(), |i: int| s[i]@)
}

/// The models of the entries of all root directories.
pub open spec fn listing_models(s: Seq<Vec<RootEntry>>) -> Seq<Seq<RootEntryModel>> {
    Seq::new(s.len(), |i: int| entry_models(s[i]@))
}

/// What was found on looking at the control groups anew.
#[derive(Debug)]
pub struct Rescan {
    /// The watched events files that are no longer there.
    pub missing: PathSet,
    /// The entries of the roots, one list for each root in order; a root that
    /// cannot be read has none.
    pub listings: Vec<Vec<RootEntry>>,
}

/// The model of what was found.
pub struct RescanModel {
    pub missing: Set<Seq<Seq<u8>>>,
    pub listings: Seq<Seq<RootEntryModel>>,
}

impl View for Rescan {
    type V = RescanModel;

    open spec fn view(&self) -> RescanModel {
        RescanModel { missing: self.missing@, listings: listing_models(self.listings@) }
    }
}

impl Rescan {
    /// Nothing missing, and nothing found.
    pub fn nothing() -> (r: Rescan)
        ensures
            r@.missing == Set::<Seq<Seq<u8>>>::empty(),
            r@.listings == Seq::<Seq<RootEntryModel>>::empty(),
    {
        let listings: Vec<Vec<RootEntry>> = Vec::new();
        assert(listing_models(listings@) =~= Seq::<Seq<RootEntryModel>>::empty());
        Rescan { missing: OrdSet::new(), listings }
    }
}

/// What was found about an event at a root or in it.
#[derive(Debug)]
pub struct RootObservation {
    /// The state of the control groups, for events that ask for a new look.
    pub rescan: Rescan,
    /// Whether the path of the event exists.
    pub path_exists: bool,
    /// Whether its events file could be opened.
    pub events_opens: bool,
    /// The contents of its events file.
    pub events: Result<Vec<u8>, EngineError>,
}

/// What was found about a signalled events file.
#[derive(Debug)]
pub struct EventsObservation {
    /// The state of the control groups, for a file that is gone.
    pub rescan: Rescan,
    /// Whether the events file exists.
    pub exists: bool,
    /// The contents of the events file.
    pub events: Result<Vec<u8>, EngineError>,
}

/// What was found about a watched control group on a poll.
#[derive(Debug)]
pub struct PollObservation {
    /// The contents of the events file.
    pub events: Result<Vec<u8>, EngineError>,
    /// The state of the control groups, for a file that is gone.
    pub rescan: Rescan,
}

/// The name of the events file of a control group.
pub open spec fn events_file(dir: Seq<u8>) -> Seq<u8> {
    path::joined(dir, vstd::utf8::encode_utf8("cgroup.events"@))
}

/// The model of the source.
pub struct V2Model {
    pub roots: Seq<Seq<u8>>,
    pub filter: source::FilterModel,
    pub hints: Seq<Seq<u8>>,
    /// The watched control groups by the components of their events files.
    pub watches: Map<Seq<Seq<u8>>, WatchModel>,
    pub cache: Option<cache::CacheModel>,
    pub stale_roots: Set<Seq<Seq<u8>>>,
    pub next_generation: u64,
}

/// What is answered of a poll or an event.
pub type V2Answer = Result<Option<source::CandidateModel>, error::ErrorModel>;

impl V2Model {
    /// Whether every watch is older than the next one will be.
    pub open spec fn generations_ok(self) -> bool {
        forall|p: Seq<Seq<u8>>| #[trigger]
            self.watches.contains_key(p) ==> self.older_than_next(p)
    }

    /// Whether a watch is older than the next one will be.
    pub open spec fn older_than_next(self, p: Seq<Seq<u8>>) -> bool {
        self.watches[p].generation <= self.next_generation && (self.next_generation < u64::MAX
            ==> self.watches[p].generation < self.next_generation)
    }

    /// Whether a watch is that of a directory's events file, with the UID that the
    /// name of the directory states.
    pub open spec fn watch_of(self, p: Seq<Seq<u8>>, dir: Seq<u8>) -> bool {
        &&& self.watches[p].events_path == events_file(dir)
        &&& uid_of_path(dir) == Some(self.watches[p].uid as nat)
    }

    /// Whether a watch stands under its own path, has the UID of its directory and
    /// is older than the next one will be.
    pub open spec fn watch_ok(self, p: Seq<Seq<u8>>) -> bool {
        &&& path::components(self.watches[p].events_path) == p
        &&& exists|dir: Seq<u8>| #[trigger] self.watch_of(p, dir)
        &&& self.older_than_next(p)
    }

    /// What holds of the watches under any filter.
    pub open spec fn sound(self) -> bool {
        forall|p: Seq<Seq<u8>>| #[trigger] self.watches.contains_key(p) ==> self.watch_ok(p)
    }

    /// Whether all watches have UIDs that pass the filter, as they do as long as it
    /// stays the same.
    pub open spec fn admitted(self) -> bool {
        forall|p: Seq<Seq<u8>>| #[trigger]
            self.watches.contains_key(p) ==> self.filter.valid_uid(self.watches[p].uid)
    }

    /// Whether a control group is new and can be watched.
    pub open spec fn wants(self, dir: Seq<u8>, uid: u32) -> bool {
        self.filter.valid_uid(uid) && !self.watches.contains_key(
            path::components(events_file(dir)),
        )
    }

    /// The source with a control group watched.
    pub open spec fn watching(self, dir: Seq<u8>, uid: u32) -> V2Model {
        V2Model {
            watches: self.watches.insert(
                path::components(events_file(dir)),
                WatchModel {
                    uid,
                    events_path: events_file(dir),
                    generation: self.next_generation,
                    populated: CgroupV2Populated::Unknown,
                },
            ),
            next_generation: if self.next_generation == u64::MAX {
                u64::MAX
            } else {
                (self.next_generation + 1) as u64
            },
            ..self
        }
    }

    /// The source after trying to watch a control group.
    pub open spec fn tried(self, dir: Seq<u8>, uid: u32, opens: bool) -> V2Model {
        if self.wants(dir, uid) && opens {
            self.watching(dir, uid)
        } else {
            self
        }
    }

    /// The source after looking at an entry of a root.
    pub open spec fn looked_at(self, entry: RootEntryModel) -> V2Model {
        match uid_of_path(entry.path) {
            Some(uid) if entry.is_dir => self.tried(entry.path, uid as u32, entry.events_opens),
            _ => self,
        }
    }

    /// The source after looking at the entries of a root.
    pub open spec fn looked_through(self, entries: Seq<RootEntryModel>) -> V2Model
        decreases entries.len(),
    {
        if entries.len() == 0 {
            self
        } else {
            self.looked_through(entries.drop_last()).looked_at(entries.last())
        }
    }

    /// The source after looking at all roots.
    pub open spec fn scanned(self, listings: Seq<Seq<RootEntryModel>>) -> V2Model
        decreases listings.len(),
    {
        if listings.len() == 0 {
            self
        } else {
            self.scanned(listings.drop_last()).looked_through(listings.last())
        }
    }

    /// The source without the watches of events files that are gone.
    pub open spec fn without(self, missing: Set<Seq<Seq<u8>>>) -> V2Model {
        V2Model { watches: self.watches.remove_keys(missing), ..self }
    }

    /// The source after looking at the control groups anew.
    pub open spec fn rescanned(self, rescan: RescanModel) -> V2Model {
        self.without(rescan.missing).scanned(rescan.listings)
    }

    /// The source without the watch of an events file.
    pub open spec fn unwatched(self, p: Seq<Seq<u8>>) -> V2Model {
        V2Model { watches: self.watches.remove(p), ..self }
    }

    /// The source with a watch's state noted.
    pub open spec fn noted(self, p: Seq<Seq<u8>>, populated: CgroupV2Populated) -> V2Model {
        if self.watches.contains_key(p) {
            V2Model {
                watches: self.watches.insert(p, WatchModel { populated, ..self.watches[p] }),
                ..self
            }
        } else {
            self
        }
    }

    /// The candidate for a UID whose control group is populated.
    pub open spec fn candidate(self, uid: u32) -> Option<source::CandidateModel> {
        match self.cache {
            None => None,
            Some(cache) => match allowed_package(cache, uid, self.filter.blocked_packages) {
                None => None,
                Some(package) => Some(
                    source::CandidateModel {
                        source: ForegroundSourceKind::CgroupV2,
                        pid: None,
                        uid: Some(uid),
                        package: Some(package),
                        identity_resolved: true,
                    },
                ),
            },
        }
    }

    /// The candidate that a watched control group makes in a given state.
    pub open spec fn candidate_at(
        self,
        p: Seq<Seq<u8>>,
        uid: u32,
        populated: CgroupV2Populated,
    ) -> Option<source::CandidateModel> {
        if self.watches.contains_key(p) && populated == CgroupV2Populated::Active {
            self.candidate(uid)
        } else {
            None
        }
    }

    /// Whether a path is one of the roots.
    pub open spec fn is_root(self, p: Seq<u8>) -> bool {
        exists|i: int|
            0 <= i < self.roots.len() && path::components(#[trigger] self.roots[i])
                == path::components(p)
    }

    /// Whether a path stands directly in one of the roots.
    pub open spec fn in_root(self, p: Seq<u8>) -> bool {
        exists|i: int| 0 <= i < self.roots.len() && path::is_parent(#[trigger] self.roots[i], p)
    }

    /// What becomes of the source on an event at a root or in it.
    pub open spec fn after_root_event(
        self,
        p: Seq<u8>,
        mask: u32,
        rescan: RescanModel,
        path_exists: bool,
        events_opens: bool,
        events: Result<Seq<u8>, error::ErrorModel>,
    ) -> (V2Model, V2Answer) {
        let events_path = path::components(events_file(p));
        if mask & 0x4000u32 != 0 {
            (self.rescanned(rescan), Ok(None))
        } else if mask & 0x8c00u32 != 0 {
            let marked = if self.is_root(p) {
                V2Model { stale_roots: self.stale_roots.insert(path::components(p)), ..self }
            } else {
                self
            };
            (marked.rescanned(rescan), Ok(None))
        } else {
            match uid_of_path(p) {
                None => (self, Ok(None)),
                Some(uid) => if mask & 0x240u32 != 0 || !path_exists {
                    if self.watches.contains_key(events_path) && self.watches[events_path].uid
                        == uid {
                        (self.unwatched(events_path), Ok(None))
                    } else {
                        (self, Ok(None))
                    }
                } else if (mask & 0x180u32 == 0 && mask != 0) || !self.in_root(p) || !self.wants(
                    p,
                    uid as u32,
                ) || !events_opens {
                    (self, Ok(None))
                } else {
                    let watching = self.watching(p, uid as u32);
                    match events {
                        Err(e) => (watching, Err(e)),
                        Ok(content) => (
                            watching.noted(events_path, populated_in(content)),
                            Ok(
                                watching.candidate_at(
                                    events_path,
                                    uid as u32,
                                    populated_in(content),
                                ),
                            ),
                        ),
                    }
                },
            }
        }
    }

    /// What becomes of the source on an event: one that is neither an overflow
    /// nor at a root or in it says nothing.
    pub open spec fn after_fs_event(
        self,
        p: Seq<u8>,
        mask: u32,
        rescan: RescanModel,
        path_exists: bool,
        events_opens: bool,
        events: Result<Seq<u8>, error::ErrorModel>,
    ) -> (V2Model, V2Answer) {
        if mask & 0x4000u32 != 0 || self.is_root(p) || self.in_root(p) {
            self.after_root_event(p, mask, rescan, path_exists, events_opens, events)
        } else {
            (self, Ok(None))
        }
    }

    /// What becomes of the source when an events file is signalled.
    pub open spec fn after_signal(
        self,
        p: Seq<Seq<u8>>,
        rescan: RescanModel,
        exists_now: bool,
        events: Result<Seq<u8>, error::ErrorModel>,
    ) -> (V2Model, V2Answer) {
        if !self.watches.contains_key(p) {
            (self.rescanned(rescan), Ok(None))
        } else if !exists_now {
            (self.unwatched(p).rescanned(rescan), Ok(None))
        } else {
            match events {
                Err(e) => (self, Err(e)),
                Ok(content) => (
                    self.noted(p, populated_in(content)),
                    Ok(self.candidate_at(p, self.watches[p].uid, populated_in(content))),
                ),
            }
        }
    }

    /// What becomes of the source, and whether the poll ends, when a poll comes
    /// to one of the events files that were watched at its start.
    pub open spec fn after_poll_of(
        self,
        p: Seq<Seq<u8>>,
        events: Result<Seq<u8>, error::ErrorModel>,
        rescan: RescanModel,
    ) -> (V2Model, Option<V2Answer>) {
        if !self.watches.contains_key(p) {
            (self, None)
        } else {
            match events {
                Err(e) => if e is Io && e->kind == crate::error::IoErrorKind::NotFound {
                    (self.unwatched(p).rescanned(rescan), None)
                } else {
                    (self, Some(Err(e)))
                },
                Ok(content) => {
                    let after = self.noted(p, populated_in(content));
                    match self.candidate_at(p, self.watches[p].uid, populated_in(content)) {
                        Some(candidate) => (after, Some(Ok(Some(candidate)))),
                        None => (after, None),
                    }
                },
            }
        }
    }

    /// What becomes of the source when a poll goes through events files in order
    /// until one ends it.
    pub open spec fn after_poll(
        self,
        paths: Seq<Seq<Seq<u8>>>,
        events: Seq<Result<Seq<u8>, error::ErrorModel>>,
        rescans: Seq<RescanModel>,
        n: nat,
    ) -> (V2Model, Option<V2Answer>)
        decreases n,
    {
        if n == 0 {
            (self, None)
        } else {
            let (before, ended) = self.after_poll(paths, events, rescans, (n - 1) as nat);
            match ended {
                Some(answer) => (before, ended),
                None => before.after_poll_of(paths[n - 1], events[n - 1], rescans[n - 1]),
            }
        }
    }
}

/// The model of a reading.
pub open spec fn read_model(r: Result<Vec<u8>, EngineError>) -> Result<
    Seq<u8>,
    error::ErrorModel,
> {
    match r {
        Ok(content) => Ok(content@),
        Err(e) => Err(e@),
    }
}

/// The foreground application by the populated per-UID control groups. The
/// descriptors of the events files are held by the caller.
#[derive(Debug)]
pub struct CgroupV2EventsSource {
    roots: Vec<EnginePath>,
    pub filter: ForegroundCandidateFilter,
    watch_hint_paths: Vec<EnginePath>,
    watches: OrdMap<EnginePath, UidWatch>,
    package_cache: Option<UidPackageCache>,
    stale_roots: PathSet,
    next_watch_generation: u64,
}

impl View for CgroupV2EventsSource {
    type V = V2Model;

    closed spec fn view(&self) -> V2Model {
        V2Model {
            roots: source::path_models(self.roots@),
            filter: self.filter@,
            hints: source::path_models(self.watch_hint_paths@),
            watches: self.watches@,
            cache: source::cache_model(self.package_cache),
            stale_roots: self.stale_roots@,
            next_generation: self.next_watch_generation,
        }
    }
}

impl CgroupV2EventsSource {
    /// A source over the given roots, with what a first look at them found.
    pub fn new(
        roots: Vec<EnginePath>,
        filter: ForegroundCandidateFilter,
        listings: &Vec<Vec<RootEntry>>,
    ) -> (r: Self)
        ensures
            r@ == (V2Model {
                roots: source::path_models(roots@),
                filter: filter@,
                hints: source::path_models(roots@),
                watches: Map::empty(),
                cache: None,
                stale_roots: Set::empty(),
                next_generation: 1,
            }).scanned(listing_models(listings@)),
    {
        let mut this = CgroupV2EventsSource {
            watch_hint_paths: source::copy_paths(&roots),
            roots,
            filter,
            watches: OrdMap::new(),
            package_cache: None,
            stale_roots: OrdSet::new(),
            next_watch_generation: 1,
        };
        this.scan_roots(listings);
        this
    }

    /// The source with a package cache.
    pub fn with_package_cache(self, package_cache: UidPackageCache) -> (r: Self)
        ensures
            r@ == (V2Model { cache: Some(package_cache@), ..self@ }),
    {
        let mut this = self;
        this.package_cache = Some(package_cache);
        this
    }

    /// Gives the source a package cache.
    pub fn set_package_cache(&mut self, package_cache: UidPackageCache)
        ensures
            final(self)@ == (V2Model { cache: Some(package_cache@), ..old(self)@ }),
    {
        self.package_cache = Some(package_cache);
    }

    /// Which UIDs and packages can be in the foreground.
    pub fn filter(&self) -> (r: &ForegroundCandidateFilter)
        ensures
            r@ == self@.filter,
    {
        &self.filter
    }

    /// Gives the source another filter.
    pub fn set_filter(&mut self, filter: ForegroundCandidateFilter)
        ensures
            final(self)@ == (V2Model { filter: filter@, ..old(self)@ }),
    {
        self.filter = filter;
    }

    /// The kind of the source.
    pub fn kind(&self) -> (r: ForegroundSourceKind)
        ensures
            r == ForegroundSourceKind::CgroupV2,
    {
        ForegroundSourceKind::CgroupV2
    }

    /// The roots.
    pub fn roots(&self) -> (r: &Vec<EnginePath>)
        ensures
            source::path_models(r@) == self@.roots,
    {
        &self.roots
    }

    /// The paths to watch: the roots.
    pub fn watch_hint_paths(&self) -> (r: &Vec<EnginePath>)
        ensures
            source::path_models(r@) == self@.hints,
    {
        &self.watch_hint_paths
    }

    /// The events to watch a root for.
    pub fn watch_hint_mask(&self, _hint_path: &EnginePath) -> (r: u32)
        ensures
            r == ROOT_HINT_MASK,
    {
        ROOT_HINT_MASK
    }

    /// How many control groups are watched.
    pub fn uid_watch_count(&self) -> (r: usize)
        ensures
            r == self@.watches.len(),
    {
        self.watches.len()
    }

    /// Whether a control group of a UID is watched.
    pub fn has_uid_watch(&self, uid: u32) -> (r: bool)
        ensures
            r == exists|p: Seq<Seq<u8>>| #[trigger]
                self@.watches.contains_key(p) && self@.watches[p].uid == uid,
    {
        let n: usize = self.watches.len();
        let ghost names = self.watches.names();
        let mut i: usize = 0;
        while i < n
            invariant
                i <= n,
                n == self.watches.names().len(),
                names == self.watches.names(),
                ordered::lists(names, self.watches@, EnginePath::order()),
                forall|k: int| 0 <= k < i ==> self@.watches[#[trigger] names[k]].uid != uid,
            decreases n - i,
        {
            if self.watches.value_at(i).uid == uid {
                assert(self@.watches.contains_key(names[i as int]));
                return true;
            }
            i += 1;
        }
        assert forall|p: Seq<Seq<u8>>| #[trigger] self@.watches.contains_key(p) implies self@.watches[p].uid
            != uid by {
            let k = names.index_of(p);
            assert(names[k] == p);
        }
        false
    }

    /// Whether an events file is watched.
    pub fn has_uid_watch_path(&self, events_path: &EnginePath) -> (r: bool)
        ensures
            r == self@.watches.contains_key(events_path.comps()),
    {
        self.watches.contains_key(events_path)
    }

    /// Whether a root was deleted, moved or lost.
    pub fn is_root_stale(&self, root: &EnginePath) -> (r: bool)
        ensures
            r == self@.stale_roots.contains(root.comps()),
    {
        self.stale_roots.contains(root)
    }

    /// Whether something can be told: a control group is watched, or a root that
    /// is not stale has one that could be.
    pub fn is_available(&self, listings: &Vec<Vec<RootEntry>>) -> (r: bool)
        requires
            listings@.len() == self@.roots.len(),
        ensures
            r == (self@.watches.len() > 0 || exists|i: int|
                0 <= i < self@.roots.len() && #[trigger] usable_root(
                    self@,
                    self@.roots[i],
                    listing_models(listings@)[i],
                )),
    {
        if !self.watches.is_empty() {
            return true;
        }
        let mut i: usize = 0;
        while i < self.roots.len()
            invariant
                i <= self.roots.len(),
                self@.watches.len() == 0,
                listings@.len() == self@.roots.len(),
                self@.roots == source::path_models(self.roots@),
                forall|k: int|
                    0 <= k < i ==> !#[trigger] usable_root(
                        self@,
                        self@.roots[k],
                        listing_models(listings@)[k],
                    ),
            decreases self.roots.len() - i,
        {
            assert(self@.roots[i as int] == self.roots@[i as int]@);
            assert(listing_models(listings@)[i as int] == entry_models(listings@[i as int]@));
            if self.root_has_usable_layout(&self.roots[i], &listings[i]) {
                return true;
            }
            i += 1;
        }
        false
    }

    fn root_has_usable_layout(&self, root: &EnginePath, entries: &Vec<RootEntry>) -> (r: bool)
        ensures
            r == usable_root(self@, root@, entry_models(entries@)),
    {
        if self.stale_roots.contains(root) {
            return false;
        }
        let ghost all = entry_models(entries@);
        let mut i: usize = 0;
        while i < entries.len()
            invariant
                i <= entries.len(),
                all == entry_models(entries@),
                !self@.stale_roots.contains(root.comps()),
                forall|k: int| 0 <= k < i ==> !usable_entry(self@, #[trigger] all[k]),
            decreases entries.len() - i,
        {
            assert(all[i as int] == entries@[i as int]@);
            let entry = &entries[i];
            if entry.is_dir && entry.events_is_file {
                match parse_uid_dir_name(&entry.path) {
                    Some(uid) => {
                        if self.filter.is_valid_uid(uid) {
                            assert(usable_entry(self@, all[i as int]));
                            return true;
                        }
                    },
                    None => {},
                }
            }
            i += 1;
        }
        false
    }

    /// Watches a control group if it is new, its UID is valid and its events
    /// file could be opened; says whether it did.
    fn add_uid_watch(&mut self, uid_dir: &EnginePath, uid: u32, opens: bool) -> (r: bool)
        ensures
            r == (old(self)@.wants(uid_dir@, uid) && opens),
            final(self)@ == old(self)@.tried(uid_dir@, uid, opens),
    {
        if !self.filter.is_valid_uid(uid) {
            return false;
        }
        let events_path = uid_dir.join("cgroup.events");
        if self.watches.contains_key(&events_path) {
            return false;
        }
        if !opens {
            return false;
        }
        let generation: u64 = self.next_watch_generation;
        self.next_watch_generation = if generation == u64::MAX {
            u64::MAX
        } else {
            generation + 1
        };
        let watch = UidWatch {
            uid,
            events_path: events_path.clone(),
            generation,
            populated: CgroupV2Populated::Unknown,
        };
        self.watches.insert(events_path, watch);
        true
    }

    /// Watches the new control groups that a look at the roots found.
    pub fn scan_roots(&mut self, listings: &Vec<Vec<RootEntry>>)
        ensures
            final(self)@ == old(self)@.scanned(listing_models(listings@)),
    {
        let ghost all = listing_models(listings@);
        let mut i: usize = 0;
        assert(all.take(0) == Seq::<Seq<RootEntryModel>>::empty());
        while i < listings.len()
            invariant
                i <= listings.len(),
                all == listing_models(listings@),
                self@ == old(self)@.scanned(all.take(i as int)),
            decreases listings.len() - i,
        {
            proof {
                assert(all.take(i + 1).drop_last() == all.take(i as int));
                assert(all.take(i + 1).last() == entry_models(listings@[i as int]@));
            }
            self.scan_root(&listings[i]);
            i += 1;
        }
        assert(all.take(i as int) == all);
    }

    fn scan_root(&mut self, entries: &Vec<RootEntry>)
        ensures
            final(self)@ == old(self)@.looked_through(entry_models(entries@)),
    {
        let ghost all = entry_models(entries@);
        let mut i: usize = 0;
        assert(all.take(0) == Seq::<RootEntryModel>::empty());
        while i < entries.len()
            invariant
                i <= entries.len(),
                all == entry_models(entries@),
                self@ == old(self)@.looked_through(all.take(i as int)),
            decreases entries.len() - i,
        {
            proof {
                assert(all.take(i + 1).drop_last() == all.take(i as int));
                assert(all.take(i + 1).last() == entries@[i as int]@);
            }
            let entry = &entries[i];
            if entry.is_dir {
                match parse_uid_dir_name(&entry.path) {
                    Some(uid) => {
                        let _ = self.add_uid_watch(&entry.path, uid, entry.events_opens);
                    },
                    None => {},
                }
            }
            i += 1;
        }
        assert(all.take(i as int) == all);
    }

    /// Drops the watches of events files that are gone, then watches the new
    /// control groups.
    pub fn rescan_roots(&mut self, rescan: &Rescan)
        ensures
            final(self)@ == old(self)@.rescanned(rescan@),
    {
        let n: usize = rescan.missing.len();
        let ghost names = rescan.missing.names();
        let mut i: usize = 0;
        proof {
            assert(self@.watches =~= old(self)@.watches.remove_keys(names.take(0).to_set()));
        }
        while i < n
            invariant
                i <= n,
                n == rescan.missing.names().len(),
                names == rescan.missing.names(),
                self@ == old(self)@.without(names.take(i as int).to_set()),
            decreases n - i,
        {
            let gone = rescan.missing.key_at(i);
            let _ = self.remove_watch_path(gone);
            proof {
                let before = names.take(i as int).to_set();
                let after = names.take(i + 1).to_set();
                assert(names.take(i + 1) == names.take(i as int).push(names[i as int]));
                assert(after =~= before.insert(names[i as int])) by {
                    assert forall|p: Seq<Seq<u8>>| after.contains(p) <==> (before.contains(p) || p
                        == names[i as int]) by {
                        if names.take(i + 1).contains(p) {
                            let k = names.take(i + 1).index_of(p);
                            if k < i {
                                assert(names.take(i as int)[k] == p);
                            }
                        }
                        if names.take(i as int).contains(p) {
                            let k = names.take(i as int).index_of(p);
                            assert(names.take(i + 1)[k] == p);
                        }
                        assert(names.take(i + 1)[i as int] == names[i as int]);
                    }
                }
                assert(self@.watches =~= old(self)@.watches.remove_keys(after));
            }
            i += 1;
        }
        proof {
            assert(names.take(n as int) == names);
            assert(names.to_set() =~= rescan.missing@) by {
                assert forall|p: Seq<Seq<u8>>| names.to_set().contains(p)
                    <==> rescan.missing@.contains(p) by {
                    assert(rescan.missing@.contains(p) <==> names.contains(p));
                }
            }
        }
        self.scan_roots(&rescan.listings);
    }

    fn remove_uid_watch_path(&mut self, events_path: &EnginePath, uid: u32) -> (r: bool)
        ensures
            r == (old(self)@.watches.contains_key(events_path.comps())
                && old(self)@.watches[events_path.comps()].uid == uid),
            final(self)@ == (if r {
                old(self)@.unwatched(events_path.comps())
            } else {
                old(self)@
            }),
    {
        let ours = match self.watches.get(events_path) {
            Some(watch) => watch.uid == uid,
            None => false,
        };
        if !ours {
            return false;
        }
        self.watches.remove(events_path).is_some()
    }

    fn remove_watch_path(&mut self, events_path: &EnginePath) -> (r: bool)
        ensures
            r == old(self)@.watches.contains_key(events_path.comps()),
            final(self)@ == old(self)@.unwatched(events_path.comps()),
    {
        self.watches.remove(events_path).is_some()
    }

    fn candidate_for_uid(&self, uid: u32) -> (r: Option<ForegroundCandidate>)
        ensures
            source::candidate_model(r) == self@.candidate(uid),
    {
        match &self.package_cache {
            None => None,
            Some(cache) => match resolve_v2_uid_with_cache(
                uid,
                cache,
                &self.filter.blocked_packages,
            ) {
                Some(package) => Some(
                    ForegroundCandidate {
                        source: ForegroundSourceKind::CgroupV2,
                        pid: None,
                        uid: Some(uid),
                        package: Some(package),
                        identity_resolved: true,
                    },
                ),
                None => None,
            },
        }
    }

    fn set_populated(&mut self, events_path: &EnginePath, populated: CgroupV2Populated)
        ensures
            final(self)@ == old(self)@.noted(events_path.comps(), populated),
    {
        let mut watch = match self.watches.get(events_path) {
            Some(watch) => watch.duplicate(),
            None => {
                return;
            },
        };
        watch.populated = populated;
        self.watches.insert(events_path.clone(), watch);
    }

    fn handle_uid_populated_at(
        &mut self,
        events_path: &EnginePath,
        uid: u32,
        populated: CgroupV2Populated,
    ) -> (r: Option<ForegroundCandidate>)
        ensures
            final(self)@ == old(self)@.noted(events_path.comps(), populated),
            source::candidate_model(r) == old(self)@.candidate_at(
                events_path.comps(),
                uid,
                populated,
            ),
    {
        if !self.watches.contains_key(events_path) {
            return None;
        }
        self.set_populated(events_path, populated);
        if populated == CgroupV2Populated::Active {
            self.candidate_for_uid(uid)
        } else {
            None
        }
    }

    fn is_root_path(&self, p: &EnginePath) -> (r: bool)
        ensures
            r == self@.is_root(p@),
    {
        let mut i: usize = 0;
        while i < self.roots.len()
            invariant
                i <= self.roots.len(),
                self@.roots == source::path_models(self.roots@),
                forall|k: int|
                    0 <= k < i ==> path::components(#[trigger] self@.roots[k]) != p.comps(),
            decreases self.roots.len() - i,
        {
            assert(self@.roots[i as int] == self.roots@[i as int]@);
            if self.roots[i].same_as(p) {
                return true;
            }
            i += 1;
        }
        false
    }

    fn is_in_root(&self, p: &EnginePath) -> (r: bool)
        ensures
            r == self@.in_root(p@),
    {
        let mut i: usize = 0;
        while i < self.roots.len()
            invariant
                i <= self.roots.len(),
                self@.roots == source::path_models(self.roots@),
                forall|k: int| 0 <= k < i ==> !path::is_parent(#[trigger] self@.roots[k], p@),
            decreases self.roots.len() - i,
        {
            assert(self@.roots[i as int] == self.roots@[i as int]@);
            if p.has_parent(&self.roots[i]) {
                return true;
            }
            i += 1;
        }
        false
    }

    /// Handles an event at a root or in it.
    pub fn handle_root_path(
        &mut self,
        event_path: &EnginePath,
        mask: u32,
        observed: &RootObservation,
    ) -> (r: Result<Option<ForegroundCandidate>, EngineError>)
        ensures
            (final(self)@, source::answer_model(r)) == old(self)@.after_root_event(
                event_path@,
                mask,
                observed.rescan@,
                observed.path_exists,
                observed.events_opens,
                read_model(observed.events),
            ),
    {
        proof {
            assert(0x400u32 | 0x800u32 | 0x8000u32 == 0x8c00u32) by (bit_vector);
            assert(0x200u32 | 0x40u32 == 0x240u32) by (bit_vector);
            assert(0x100u32 | 0x80u32 == 0x180u32) by (bit_vector);
        }
        if mask & IN_Q_OVERFLOW_MASK != 0 {
            self.rescan_roots(&observed.rescan);
            return Ok(None);
        }
        if mask & (IN_DELETE_SELF_MASK | IN_MOVE_SELF_MASK | IN_IGNORED_MASK) != 0 {
            if self.is_root_path(event_path) {
                let _ = self.stale_roots.insert(event_path.clone());
            }
            self.rescan_roots(&observed.rescan);
            return Ok(None);
        }
        let uid: u32 = match parse_uid_dir_name(event_path) {
            Some(uid) => uid,
            None => {
                return Ok(None);
            },
        };
        let events_path = event_path.join("cgroup.events");
        if mask & (IN_DELETE_MASK | IN_MOVED_FROM_MASK) != 0 || !observed.path_exists {
            let _ = self.remove_uid_watch_path(&events_path, uid);
            return Ok(None);
        }
        if mask & (IN_CREATE_MASK | IN_MOVED_TO_MASK) == 0 && mask != 0 {
            return Ok(None);
        }
        if !self.is_in_root(event_path) {
            return Ok(None);
        }
        if !self.add_uid_watch(event_path, uid, observed.events_opens) {
            return Ok(None);
        }
        match &observed.events {
            Err(e) => Err(e.clone()),
            Ok(content) => {
                let populated = parse_cgroup_events_populated(content.as_slice());
                Ok(self.handle_uid_populated_at(&events_path, uid, populated))
            },
        }
    }

    /// Handles an event: one that is neither an overflow nor at a root or in it
    /// says nothing.
    pub fn handle_fs_event_with_mask(
        &mut self,
        event_path: &EnginePath,
        mask: u32,
        observed: &RootObservation,
    ) -> (r: Result<Option<ForegroundCandidate>, EngineError>)
        ensures
            (final(self)@, source::answer_model(r)) == old(self)@.after_fs_event(
                event_path@,
                mask,
                observed.rescan@,
                observed.path_exists,
                observed.events_opens,
                read_model(observed.events),
            ),
    {
        if mask & IN_Q_OVERFLOW_MASK != 0 || self.is_root_path(event_path) || self.is_in_root(
            event_path,
        ) {
            return self.handle_root_path(event_path, mask, observed);
        }
        Ok(None)
    }

    /// Handles an event of no particular kind.
    pub fn handle_fs_event(&mut self, event_path: &EnginePath, observed: &RootObservation) -> (r:
        Result<Option<ForegroundCandidate>, EngineError>)
        ensures
            (final(self)@, source::answer_model(r)) == old(self)@.after_fs_event(
                event_path@,
                0,
                observed.rescan@,
                observed.path_exists,
                observed.events_opens,
                read_model(observed.events),
            ),
    {
        self.handle_fs_event_with_mask(event_path, 0, observed)
    }

    /// Handles a signalled events file.
    pub fn handle_priority_event(
        &mut self,
        event_path: &EnginePath,
        observed: &EventsObservation,
    ) -> (r: Result<Option<ForegroundCandidate>, EngineError>)
        ensures
            (final(self)@, source::answer_model(r)) == old(self)@.after_signal(
                event_path.comps(),
                observed.rescan@,
                observed.exists,
                read_model(observed.events),
            ),
    {
        let uid: u32 = match self.watches.get(event_path) {
            Some(watch) => watch.uid,
            None => {
                self.rescan_roots(&observed.rescan);
                return Ok(None);
            },
        };
        if !observed.exists {
            return self.handle_stale_priority_event(event_path, &observed.rescan);
        }
        match &observed.events {
            Err(e) => Err(e.clone()),
            Ok(content) => {
                let populated = parse_cgroup_events_populated(content.as_slice());
                Ok(self.handle_uid_populated_at(event_path, uid, populated))
            },
        }
    }

    /// Handles an events file whose descriptor failed.
    pub fn handle_stale_priority_event(&mut self, event_path: &EnginePath, rescan: &Rescan) -> (r:
        Result<Option<ForegroundCandidate>, EngineError>)
        ensures
            r == Ok::<Option<ForegroundCandidate>, EngineError>(None),
            final(self)@ == old(self)@.unwatched(event_path.comps()).rescanned(rescan@),
    {
        let _ = self.remove_watch_path(event_path);
        self.rescan_roots(rescan);
        Ok(None)
    }

    /// What is in the foreground now, by what was found about each watched
    /// events file in order: the first populated control group with a candidate.
    pub fn poll_current(&mut self, observed: &Vec<PollObservation>) -> (r: Result<
        Option<ForegroundCandidate>,
        EngineError,
    >)
        requires
            observed@.len() == old(self)@.watches.len(),
        ensures
            exists|paths: Seq<Seq<Seq<u8>>>|
                {
                    &&& #[trigger] ordered::lists(paths, old(self)@.watches, EnginePath::order())
                    &&& final(self)@ == old(self)@.after_poll(
                        paths,
                        poll_events(observed@),
                        poll_rescans(observed@),
                        observed@.len(),
                    ).0
                    &&& source::answer_model(r) == match old(self)@.after_poll(
                        paths,
                        poll_events(observed@),
                        poll_rescans(observed@),
                        observed@.len(),
                    ).1 {
                        Some(answer) => answer,
                        None => Ok(None),
                    }
                },
    {
        let n: usize = self.watches.len();
        let ghost names = self.watches.names();
        let ghost pre = self@;
        let ghost events = poll_events(observed@);
        let ghost rescans = poll_rescans(observed@);
        let mut paths: Vec<EnginePath> = Vec::new();
        let mut k: usize = 0;
        while k < n
            invariant
                k <= n,
                n == self.watches.names().len(),
                names == self.watches.names(),
                paths.len() == k,
                forall|j: int| 0 <= j < k ==> (#[trigger] paths@[j]).comps() == names[j],
            decreases n - k,
        {
            paths.push(self.watches.key_at(k).clone());
            k += 1;
        }
        let mut i: usize = 0;
        while i < n
            invariant
                i <= n,
                n == names.len(),
                n == observed@.len(),
                paths.len() == n,
                pre == old(self)@,
                ordered::lists(names, pre.watches, EnginePath::order()),
                events == poll_events(observed@),
                rescans == poll_rescans(observed@),
                forall|j: int| 0 <= j < n ==> (#[trigger] paths@[j]).comps() == names[j],
                (self@, None::<V2Answer>) == pre.after_poll(names, events, rescans, i as nat),
            decreases n - i,
        {
            let p = &paths[i];
            let seen = &observed[i];
            proof {
                assert(p.comps() == names[i as int]);
                assert(events[i as int] == read_model(seen.events));
                assert(rescans[i as int] == seen.rescan@);
                lemma_poll_ended(pre, names, events, rescans, (i + 1) as nat, n as nat);
            }
            let uid: Option<u32> = match self.watches.get(p) {
                Some(watch) => Some(watch.uid),
                None => None,
            };
            if let Some(uid) = uid {
                match &seen.events {
                    Err(e) => {
                        if e.is_not_found() {
                            let _ = self.remove_watch_path(p);
                            self.rescan_roots(&seen.rescan);
                        } else {
                            return Err(e.clone());
                        }
                    },
                    Ok(content) => {
                        let populated = parse_cgroup_events_populated(content.as_slice());
                        let found = self.handle_uid_populated_at(p, uid, populated);
                        if found.is_some() {
                            return Ok(found);
                        }
                    },
                }
            }
            i += 1;
        }
        Ok(None)
    }

    /// The paths of the events files.
    pub fn priority_hint_paths(&self) -> (r: Vec<EnginePath>)
        ensures
            exists|names: Seq<Seq<Seq<u8>>>|
                {
                    &&& #[trigger] ordered::lists(names, self@.watches, EnginePath::order())
                    &&& r@.len() == names.len()
                    &&& forall|i: int| 0 <= i < r@.len() ==> (#[trigger] r@[i]).comps() == names[i]
                },
    {
        let n: usize = self.watches.len();
        let ghost names = self.watches.names();
        let mut r: Vec<EnginePath> = Vec::new();
        let mut i: usize = 0;
        while i < n
            invariant
                i <= n,
                n == self.watches.names().len(),
                names == self.watches.names(),
                ordered::lists(names, self@.watches, EnginePath::order()),
                r.len() == i,
                forall|j: int| 0 <= j < i ==> (#[trigger] r@[j]).comps() == names[j],
            decreases n - i,
        {
            r.push(self.watches.key_at(i).clone());
            i += 1;
        }
        assert(ordered::lists(names, self@.watches, EnginePath::order()));
        r
    }

    /// The paths of the events files, each with the generation of its watch.
    pub fn priority_hint_keys(&self) -> (r: Vec<(EnginePath, u64)>)
        ensures
            exists|names: Seq<Seq<Seq<u8>>>|
                {
                    &&& #[trigger] ordered::lists(names, self@.watches, EnginePath::order())
                    &&& r@.len() == names.len()
                    &&& forall|i: int|
                        0 <= i < r@.len() ==> (#[trigger] r@[i]).0.comps() == names[i] && r@[i].1
                            == self@.watches[names[i]].generation
                },
    {
        let n: usize = self.watches.len();
        let ghost names = self.watches.names();
        let mut r: Vec<(EnginePath, u64)> = Vec::new();
        let mut i: usize = 0;
        while i < n
            invariant
                i <= n,
                n == self.watches.names().len(),
                names == self.watches.names(),
                ordered::lists(names, self@.watches, EnginePath::order()),
                r.len() == i,
                forall|j: int|
                    0 <= j < i ==> (#[trigger] r@[j]).0.comps() == names[j] && r@[j].1
                        == self@.watches[names[j]].generation,
            decreases n - i,
        {
            r.push((self.watches.key_at(i).clone(), self.watches.value_at(i).generation));
            i += 1;
        }
        assert(ordered::lists(names, self@.watches, EnginePath::order()));
        r
    }

    /// The paths of the events files whose descriptors are not registered yet.
    pub fn register_priority_fds(&self, registered_paths: &PathSet) -> (r: Vec<EnginePath>)
        ensures
            forall|p: Seq<Seq<u8>>| #[trigger]
                path::comps_of(r@).contains(p) <==> self@.watches.contains_key(p)
                    && !registered_paths@.contains(p),
            path::comps_of(r@).no_duplicates(),
            ordered::increasing(path::comps_of(r@), EnginePath::order()),
    {
        let n: usize = self.watches.len();
        let ghost names = self.watches.names();
        let mut r: Vec<EnginePath> = Vec::new();
        let mut i: usize = 0;
        assert(path::comps_of(r@) =~= Seq::<Seq<Seq<u8>>>::empty());
        while i < n
            invariant
                i <= n,
                n == self.watches.names().len(),
                names == self.watches.names(),
                ordered::lists(names, self@.watches, EnginePath::order()),
                forall|p: Seq<Seq<u8>>| #[trigger]
                    path::comps_of(r@).contains(p) <==> names.take(i as int).contains(p)
                        && !registered_paths@.contains(p),
                forall|j: int|
                    0 <= j < path::comps_of(r@).len() ==> names.take(i as int).contains(
                        #[trigger] path::comps_of(r@)[j],
                    ),
                path::comps_of(r@).no_duplicates(),
                ordered::increasing(path::comps_of(r@), EnginePath::order()),
            decreases n - i,
        {
            let p = self.watches.key_at(i);
            let ghost name = names[i as int];
            let ghost was = r@;
            proof {
                assert(names.take(i + 1) == names.take(i as int).push(name));
                assert(names.take(i + 1)[i as int] == name);
                assert forall|q: Seq<Seq<u8>>| names.take(i + 1).contains(q) <==> (names.take(
                    i as int,
                ).contains(q) || q == name) by {
                    if names.take(i + 1).contains(q) {
                        let k = names.take(i + 1).index_of(q);
                        if k < i {
                            assert(names.take(i as int)[k] == q);
                        }
                    }
                    if names.take(i as int).contains(q) {
                        let k = names.take(i as int).index_of(q);
                        assert(names.take(i + 1)[k] == q);
                    }
                }
                if names.take(i as int).contains(name) {
                    let k = names.take(i as int).index_of(name);
                    assert(names[k] == names[i as int]);
                }
            }
            if !registered_paths.contains(p) {
                r.push(p.clone());
                proof {
                    assert(path::comps_of(r@) =~= path::comps_of(was).push(name));
                    assert forall|q: Seq<Seq<u8>>| path::comps_of(r@).contains(q) <==> (path::comps_of(
                        was,
                    ).contains(q) || q == name) by {
                        if path::comps_of(r@).contains(q) {
                            let k = path::comps_of(r@).index_of(q);
                            if k < was.len() {
                                assert(path::comps_of(was)[k] == q);
                            }
                        }
                        if path::comps_of(was).contains(q) {
                            let k = path::comps_of(was).index_of(q);
                            assert(path::comps_of(r@)[k] == q);
                        }
                        if q == name {
                            assert(path::comps_of(r@)[was.len() as int] == name);
                        }
                    }
                    assert forall|a: int, b: int|
                        #![trigger path::comps_of(r@)[a], path::comps_of(r@)[b]]
                        0 <= a < b < path::comps_of(r@).len() implies EnginePath::order()(
                        path::comps_of(r@)[a],
                        path::comps_of(r@)[b],
                    ) by {
                        if b == was.len() {
                            assert(names.take(i as int).contains(path::comps_of(was)[a]));
                            let k = names.take(i as int).index_of(path::comps_of(was)[a]);
                            assert(EnginePath::order()(names[k], names[i as int]));
                        } else {
                            assert(path::comps_of(was)[a] == path::comps_of(r@)[a]);
                            assert(path::comps_of(was)[b] == path::comps_of(r@)[b]);
                        }
                    }
                    assert forall|j: int| 0 <= j < path::comps_of(r@).len() implies names.take(
                        i + 1,
                    ).contains(#[trigger] path::comps_of(r@)[j]) by {
                        if j < was.len() {
                            assert(path::comps_of(was)[j] == path::comps_of(r@)[j]);
                        }
                    }
                }
            }
            assert forall|q: Seq<Seq<u8>>| #[trigger]
                path::comps_of(r@).contains(q) <==> names.take(i + 1).contains(q)
                    && !registered_paths@.contains(q) by {
                assert(path::comps_of(was).contains(q) <==> names.take(i as int).contains(q)
                    && !registered_paths@.contains(q));
                assert(names.take(i + 1).contains(q) <==> (names.take(i as int).contains(q) || q
                    == name));
            }
            i += 1;
        }
        proof {
            assert(names.take(n as int) == names);
        }
        r
    }

    /// Whether there is a descriptor of this events file to take out.
    pub fn unregister_priority_fd(&self, fd_path: &EnginePath) -> (r: bool)
        ensures
            r == self@.watches.contains_key(fd_path.comps()),
    {
        self.watches.contains_key(fd_path)
    }
}

/// What was read on a poll.
pub open spec fn poll_events(s: Seq<PollObservation>) -> Seq<
    Result<Seq<u8>, error::ErrorModel>,
> {
    Seq::new(s.len(), |i: int| read_model(s[i].events))
}

/// What was found anew on a poll.
pub open spec fn poll_rescans(s: Seq<PollObservation>) -> Seq<RescanModel> {
    Seq::new(s.len(), |i: int| s[i].rescan@)
}

/// Whether an entry of a root is a control group that could be watched.
pub open spec fn usable_entry(m: V2Model, entry: RootEntryModel) -> bool {
    entry.is_dir && entry.events_is_file && (uid_of_path(entry.path) matches Some(uid)
        && m.filter.valid_uid(uid as u32))
}

/// Whether a root is not stale and has a control group that could be watched.
pub open spec fn usable_root(m: V2Model, root: Seq<u8>, entries: Seq<RootEntryModel>) -> bool {
    !m.stale_roots.contains(path::components(root)) && exists|i: int|
        0 <= i < entries.len() && usable_entry(m, #[trigger] entries[i])
}

proof fn lemma_poll_ended(
    m: V2Model,
    paths: Seq<Seq<Seq<u8>>>,
    events: Seq<Result<Seq<u8>, error::ErrorModel>>,
    rescans: Seq<RescanModel>,
    i: nat,
    n: nat,
)
    requires
        i <= n,
    ensures
        m.after_poll(paths, events, rescans, i).1 is Some ==> m.after_poll(
            paths,
            events,
            rescans,
            n,
        ) == m.after_poll(paths, events, rescans, i),
    decreases n - i,
{
    if i < n {
        lemma_poll_ended(m, paths, events, rescans, i, (n - 1) as nat);
    }
}

// ---------------------------------------------------------------------------
// Laws
// ---------------------------------------------------------------------------

/// A candidate by a control group is resolved, and into a package that is not
/// blocked.
pub proof fn law_candidate_is_allowed(m: V2Model, uid: u32)
    ensures
        m.candidate(uid) matches Some(c) ==> c.uid == Some(uid) && c.identity_resolved && (
        c.package matches Some(package) && !m.filter.blocked_packages.contains(package)),
{
}

/// A new watch has another generation than every watch before it.
pub proof fn law_new_watch_has_fresh_generation(m: V2Model, dir: Seq<u8>, uid: u32)
    requires
        m.generations_ok(),
        m.next_generation < u64::MAX,
    ensures
        forall|p: Seq<Seq<u8>>| #[trigger]
            m.watches.contains_key(p) ==> m.watches[p].generation < m.watching(
                dir,
                uid,
            ).watches[path::components(events_file(dir))].generation,
{
}

/// A control group that is watched again after its watch was dropped gets
/// another generation than before.
pub proof fn law_watch_again_changes_generation(m: V2Model, dir: Seq<u8>, uid: u32)
    requires
        m.generations_ok(),
        m.next_generation < u64::MAX,
        m.watches.contains_key(path::components(events_file(dir))),
    ensures
        m.unwatched(path::components(events_file(dir))).watching(
            dir,
            uid,
        ).watches[path::components(events_file(dir))].generation
            != m.watches[path::components(events_file(dir))].generation,
{
}

/// A source that watches nothing is sound, and all that it watches passes its
/// filter.
pub proof fn law_nothing_watched_is_sound(m: V2Model)
    requires
        m.watches == Map::<Seq<Seq<u8>>, WatchModel>::empty(),
    ensures
        m.sound(),
        m.admitted(),
{
}

/// Another filter or another package cache leaves the source as sound as it was.
pub proof fn law_settings_leave_sound(
    m: V2Model,
    filter: source::FilterModel,
    cache: Option<cache::CacheModel>,
)
    requires
        m.sound(),
    ensures
        (V2Model { filter, cache, ..m }).sound(),
{
    let after = V2Model { filter, cache, ..m };
    assert forall|p: Seq<Seq<u8>>| #[trigger] after.watches.contains_key(p) implies after.watch_ok(
        p,
    ) by {
        lemma_same_watch_ok(m, after, p);
    }
}

/// Trying to watch a control group under the UID of its directory keeps the source
/// sound, and watches nothing that does not pass the filter. So do the other
/// operations below.
pub proof fn law_trying_keeps_sound(m: V2Model, dir: Seq<u8>, uid: u32, opens: bool)
    requires
        m.sound(),
        uid_of_path(dir) == Some(uid as nat),
    ensures
        m.tried(dir, uid, opens).sound(),
        m.admitted() ==> m.tried(dir, uid, opens).admitted(),
{
    let after = m.tried(dir, uid, opens);
    assert forall|p: Seq<Seq<u8>>| #[trigger] after.watches.contains_key(p) implies after.watch_ok(
        p,
    ) by {
        if m.watches.contains_key(p) {
            lemma_same_watch_ok(m, after, p);
        } else {
            assert(after.watch_of(p, dir));
        }
    }
}

/// A watch that keeps its path, UID and generation stays as it has to be.
proof fn lemma_same_watch_ok(m: V2Model, after: V2Model, p: Seq<Seq<u8>>)
    requires
        m.watch_ok(p),
        after.watches[p].uid == m.watches[p].uid,
        after.watches[p].events_path == m.watches[p].events_path,
        after.watches[p].generation == m.watches[p].generation,
        after.next_generation >= m.next_generation,
    ensures
        after.watch_ok(p),
{
    let dir = choose|dir: Seq<u8>| #[trigger] m.watch_of(p, dir);
    assert(after.watch_of(p, dir));
}

proof fn lemma_fewer_watches_sound(m: V2Model, after: V2Model)
    requires
        m.sound(),
        after.filter == m.filter,
        after.next_generation == m.next_generation,
        forall|p: Seq<Seq<u8>>| #[trigger]
            after.watches.contains_key(p) ==> m.watches.contains_key(p) && after.watches[p]
                == m.watches[p],
    ensures
        after.sound(),
        m.admitted() ==> after.admitted(),
{
    assert forall|p: Seq<Seq<u8>>| #[trigger] after.watches.contains_key(p) implies after.watch_ok(
        p,
    ) by {
        lemma_same_watch_ok(m, after, p);
    }
}

proof fn lemma_noted_sound(m: V2Model, p: Seq<Seq<u8>>, populated: CgroupV2Populated)
    requires
        m.sound(),
    ensures
        m.noted(p, populated).sound(),
        m.admitted() ==> m.noted(p, populated).admitted(),
{
    let after = m.noted(p, populated);
    assert forall|q: Seq<Seq<u8>>| #[trigger] after.watches.contains_key(q) implies after.watch_ok(
        q,
    ) by {
        assert(m.watches.contains_key(q));
        lemma_same_watch_ok(m, after, q);
    }
}

proof fn lemma_uid_fits(p: Seq<u8>)
    ensures
        uid_of_path(p) matches Some(uid) ==> uid <= u32::MAX,
{
}

proof fn lemma_looked_through_sound(m: V2Model, entries: Seq<RootEntryModel>)
    requires
        m.sound(),
    ensures
        m.looked_through(entries).sound(),
        m.admitted() ==> m.looked_through(entries).admitted(),
    decreases entries.len(),
{
    if entries.len() > 0 {
        lemma_looked_through_sound(m, entries.drop_last());
        let entry = entries.last();
        if let Some(uid) = uid_of_path(entry.path) {
            lemma_uid_fits(entry.path);
            law_trying_keeps_sound(
                m.looked_through(entries.drop_last()),
                entry.path,
                uid as u32,
                entry.events_opens,
            );
        }
    }
}

/// Looking at the roots keeps the source sound: the new watches have the UIDs of
/// their directories, which pass the filter, and generations of their own.
pub proof fn law_scan_keeps_sound(m: V2Model, listings: Seq<Seq<RootEntryModel>>)
    requires
        m.sound(),
    ensures
        m.scanned(listings).sound(),
        m.admitted() ==> m.scanned(listings).admitted(),
    decreases listings.len(),
{
    if listings.len() > 0 {
        law_scan_keeps_sound(m, listings.drop_last());
        lemma_looked_through_sound(m.scanned(listings.drop_last()), listings.last());
    }
}

/// Looking at the control groups anew keeps the source sound.
pub proof fn law_rescan_keeps_sound(m: V2Model, rescan: RescanModel)
    requires
        m.sound(),
    ensures
        m.rescanned(rescan).sound(),
        m.admitted() ==> m.rescanned(rescan).admitted(),
{
    lemma_fewer_watches_sound(m, m.without(rescan.missing));
    law_scan_keeps_sound(m.without(rescan.missing), rescan.listings);
}

/// An event keeps the source sound, whatever its path and kind.
pub proof fn law_event_keeps_sound(
    m: V2Model,
    p: Seq<u8>,
    mask: u32,
    rescan: RescanModel,
    path_exists: bool,
    events_opens: bool,
    events: Result<Seq<u8>, error::ErrorModel>,
)
    requires
        m.sound(),
    ensures
        m.after_root_event(p, mask, rescan, path_exists, events_opens, events).0.sound(),
        m.after_fs_event(p, mask, rescan, path_exists, events_opens, events).0.sound(),
        m.admitted() ==> m.after_root_event(
            p,
            mask,
            rescan,
            path_exists,
            events_opens,
            events,
        ).0.admitted(),
        m.admitted() ==> m.after_fs_event(
            p,
            mask,
            rescan,
            path_exists,
            events_opens,
            events,
        ).0.admitted(),
{
    let marked = V2Model { stale_roots: m.stale_roots.insert(path::components(p)), ..m };
    lemma_fewer_watches_sound(m, marked);
    law_rescan_keeps_sound(m, rescan);
    law_rescan_keeps_sound(marked, rescan);
    let events_path = path::components(events_file(p));
    lemma_fewer_watches_sound(m, m.unwatched(events_path));
    if let Some(uid) = uid_of_path(p) {
        lemma_uid_fits(p);
        law_trying_keeps_sound(m, p, uid as u32, true);
        if m.wants(p, uid as u32) {
            if let Ok(content) = events {
                lemma_noted_sound(m.watching(p, uid as u32), events_path, populated_in(content));
            }
        }
    }
}

/// Directories whose events files are the same state the same UID.
proof fn lemma_same_events_file(a: Seq<u8>, b: Seq<u8>)
    requires
        path::components(events_file(a)) == path::components(events_file(b)),
    ensures
        uid_of_path(a) == uid_of_path(b),
{
    reveal_strlit("cgroup.events");
    let name = vstd::utf8::encode_utf8("cgroup.events"@);
    vstd::utf8::is_ascii_chars_encode_utf8("cgroup.events"@);
    assert forall|i: int| 0 <= i < name.len() implies #[trigger] name[i] != path::slash() by {
        assert("cgroup.events"@[i] as u8 == name[i]);
    }
    assert(name.len() == 13);
    path::law_joined_name_is_last(a, name);
    path::law_joined_name_is_last(b, name);
    assert(path::components(events_file(a)).drop_last() == path::components(a));
    assert(path::components(events_file(b)).drop_last() == path::components(b));
}

/// After a UID directory was deleted, moved out or found gone, its events file is
/// not watched, whatever filters the source had.
pub proof fn law_removed_directory_is_not_watched(
    m: V2Model,
    p: Seq<u8>,
    mask: u32,
    rescan: RescanModel,
    path_exists: bool,
    events_opens: bool,
    events: Result<Seq<u8>, error::ErrorModel>,
)
    requires
        m.sound(),
        uid_of_path(p) is Some,
        mask & 0x4000u32 == 0,
        mask & 0x8c00u32 == 0,
        mask & 0x240u32 != 0 || !path_exists,
    ensures
        !m.after_root_event(
            p,
            mask,
            rescan,
            path_exists,
            events_opens,
            events,
        ).0.watches.contains_key(path::components(events_file(p))),
{
    let key = path::components(events_file(p));
    lemma_uid_fits(p);
    if m.watches.contains_key(key) {
        assert(m.watch_ok(key));
        let dir = choose|dir: Seq<u8>| #[trigger] m.watch_of(key, dir);
        lemma_same_events_file(dir, p);
    }
}

/// A signalled events file keeps the source sound.
pub proof fn law_signal_keeps_sound(
    m: V2Model,
    p: Seq<Seq<u8>>,
    rescan: RescanModel,
    exists_now: bool,
    events: Result<Seq<u8>, error::ErrorModel>,
)
    requires
        m.sound(),
    ensures
        m.after_signal(p, rescan, exists_now, events).0.sound(),
        m.admitted() ==> m.after_signal(p, rescan, exists_now, events).0.admitted(),
{
    law_rescan_keeps_sound(m, rescan);
    lemma_fewer_watches_sound(m, m.unwatched(p));
    law_rescan_keeps_sound(m.unwatched(p), rescan);
    if let Ok(content) = events {
        lemma_noted_sound(m, p, populated_in(content));
    }
}

/// A poll keeps the source sound.
pub proof fn law_poll_keeps_sound(
    m: V2Model,
    paths: Seq<Seq<Seq<u8>>>,
    events: Seq<Result<Seq<u8>, error::ErrorModel>>,
    rescans: Seq<RescanModel>,
    n: nat,
)
    requires
        m.sound(),
    ensures
        m.after_poll(paths, events, rescans, n).0.sound(),
        m.admitted() ==> m.after_poll(paths, events, rescans, n).0.admitted(),
    decreases n,
{
    if n > 0 {
        law_poll_keeps_sound(m, paths, events, rescans, (n - 1) as nat);
        let before = m.after_poll(paths, events, rescans, (n - 1) as nat).0;
        let p = paths[n - 1];
        lemma_fewer_watches_sound(before, before.unwatched(p));
        law_rescan_keeps_sound(before.unwatched(p), rescans[n - 1]);
        if let Ok(content) = events[n - 1] {
            lemma_noted_sound(before, p, populated_in(content));
        }
    }
}

/// What a poll answers is an application of a watched and populated control
/// group, and nothing before it in the order of the paths ended the poll.
pub proof fn law_poll_answers_first(
    m: V2Model,
    paths: Seq<Seq<Seq<u8>>>,
    events: Seq<Result<Seq<u8>, error::ErrorModel>>,
    rescans: Seq<RescanModel>,
    n: nat,
)
    requires
        n <= paths.len(),
        events.len() == paths.len(),
    ensures
        m.after_poll(paths, events, rescans, n).1 matches Some(Ok(Some(c))) ==> exists|i: int|
            {
                let before = m.after_poll(paths, events, rescans, i as nat);
                &&& 0 <= i < n
                &&& before.1 is None
                &&& before.0.watches.contains_key(#[trigger] paths[i])
                &&& events[i] matches Ok(content) && populated_in(content)
                    == CgroupV2Populated::Active
                &&& before.0.candidate(before.0.watches[paths[i]].uid) == Some(c)
            },
    decreases n,
{
    if n > 0 {
        let before = m.after_poll(paths, events, rescans, (n - 1) as nat);
        if before.1 is Some {
            law_poll_answers_first(m, paths, events, rescans, (n - 1) as nat);
        } else if m.after_poll(paths, events, rescans, n).1 matches Some(Ok(Some(c))) {
            assert(before.0.watches.contains_key(paths[n - 1]));
        }
    }
}

proof fn lemma_plain_from(b: Seq<u8>, i: int)
    requires
        0 <= i <= b.len(),
        forall|k: int| 0 <= k < b.len() ==> #[trigger] b[k] < 0x80 && b[k] != 0x5c,
    ensures
        unescaped_from(b, i) == Seq::new((b.len() - i) as nat, |k: int| b[i + k] as char),
    decreases b.len() - i,
{
    if i < b.len() {
        lemma_plain_from(b, i + 1);
        assert(unescaped_from(b, i) =~= Seq::new((b.len() - i) as nat, |k: int| b[i + k] as char));
    }
}

/// A field of plain characters without a backslash is read as it stands.
pub proof fn law_plain_field_is_itself(field: Seq<char>)
    requires
        vstd::utf8::is_ascii_chars(field),
        !field.contains('\\'),
    ensures
        unescaped(field) == field,
{
    let b = vstd::utf8::encode_utf8(field);
    vstd::utf8::is_ascii_chars_encode_utf8(field);
    vstd::utf8::is_ascii_chars_nat_bound(field);
    assert forall|k: int| 0 <= k < b.len() implies #[trigger] b[k] < 0x80 && b[k] != 0x5c by {
        assert(field[k] as u8 == b[k]);
        assert(field.contains(field[k]));
    }
    lemma_plain_from(b, 0);
    assert(unescaped_from(b, 0) =~= field);
}

} // verus!

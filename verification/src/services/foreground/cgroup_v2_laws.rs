//! What control groups, their events files and the mount table say.
use vstd::prelude::*;

use crate::services::foreground::cache::CacheModel;
use crate::services::foreground::cgroup_v2::{
    CgroupV2Populated, MountModel, RescanModel, RootEntryModel, V2Model, WatchModel,
};
use crate::services::foreground::source::{CandidateModel, ForegroundSourceKind};
use crate::{error, path, services::foreground::cgroup_v2, text, text_laws};

verus! {

// ---------------------------------------------------------------------------
// Applications
// ---------------------------------------------------------------------------

/// The one package that a cache lists under a UID, if it is not blocked.
pub open spec fn sole_package(
    known: CacheModel,
    uid: u32,
    blocked: Set<Seq<char>>,
) -> Option<Seq<char>> {
    if known.packages.contains_key(uid) && known.packages[uid].len() == 1 && !blocked.contains(
        known.packages[uid][0],
    ) {
        Some(known.packages[uid][0])
    } else {
        None
    }
}

/// The application that is told of when the control group of a UID has processes:
/// that of the one package under the UID, if it is not blocked.
pub open spec fn told_of(m: V2Model, uid: u32) -> Option<CandidateModel> {
    match m.cache {
        Some(known) => match sole_package(known, uid, m.filter.blocked_packages) {
            Some(package) => Some(
                CandidateModel {
                    source: ForegroundSourceKind::CgroupV2,
                    pid: None,
                    uid: Some(uid),
                    package: Some(package),
                    identity_resolved: true,
                },
            ),
            None => None,
        },
        None => None,
    }
}

/// A UID resolves into its package exactly if the cache lists one package under it
/// and that is not blocked.
pub proof fn law_sole_package_is_resolved(known: CacheModel, uid: u32, blocked: Set<Seq<char>>)
    ensures
        cgroup_v2::allowed_package(known, uid, blocked) == sole_package(known, uid, blocked),
{
}

/// What is told of a UID is the candidate of its one package that is not blocked.
pub proof fn law_candidate_is_sole_package(m: V2Model, uid: u32)
    ensures
        m.candidate(uid) == told_of(m, uid),
        m.candidate(uid) is Some <==> (m.cache matches Some(known) && sole_package(
            known,
            uid,
            m.filter.blocked_packages,
        ) is Some),
{
}

// ---------------------------------------------------------------------------
// Events files
// ---------------------------------------------------------------------------

/// The bytes of an events file with the given text.
pub open spec fn file_of(content: Seq<char>) -> Seq<u8> {
    vstd::utf8::encode_utf8(content)
}

/// An events file that starts with `populated 1` has processes, one that starts
/// with `populated 0` has none, whatever follows; anything else behind `populated`
/// says neither.
pub proof fn law_populated_line_tells(word: Seq<char>, rest: Seq<char>)
    requires
        word.len() > 0,
        text_laws::solid(word),
    ensures
        cgroup_v2::populated_in(file_of("populated "@ + word + seq!['\n'] + rest)) == if word
            == seq!['1'] {
            CgroupV2Populated::Active
        } else if word == seq!['0'] {
            CgroupV2Populated::Inactive
        } else {
            CgroupV2Populated::Unknown
        },
        cgroup_v2::populated_in(file_of("populated"@ + seq!['\n'] + rest))
            == CgroupV2Populated::Unknown,
{
    broadcast use vstd::utf8::encode_utf8_decode_utf8;
    broadcast use vstd::utf8::encode_utf8_valid_utf8;

    reveal_strlit("populated ");
    reveal_strlit("populated");
    reveal_strlit("1");
    reveal_strlit("0");
    assert("1"@ =~= seq!['1']);
    assert("0"@ =~= seq!['0']);
    assert("populated "@ =~= "populated"@ + seq![' ']);
    let line = "populated "@ + word;
    text_laws::law_first_word("populated"@, ' ', word);
    text_laws::law_last_word(word);
    assert("populated"@ + seq![' '] + word =~= line);
    assert(text::words(line) =~= seq!["populated"@, word]);
    assert forall|i: int| 0 <= i < line.len() implies #[trigger] line[i] != '\n' by {
        if i >= 10 {
            assert(line[i] == word[i - 10]);
        }
    }
    assert(line.last() == word[word.len() - 1]);
    assert(line.last() != '\r');
    text_laws::law_first_line(line, rest);
    let all = seq![line] + text::lines(rest);
    assert(all.first() == line);
    text_laws::law_first_line("populated"@, rest);
    text_laws::law_last_word("populated"@);
    let all = seq!["populated"@] + text::lines(rest);
    assert(all.first() == "populated"@);
}

/// A line that does not start with the word `populated` makes no difference; a file
/// without such a line, or one that is not UTF-8, says nothing.
pub proof fn law_other_lines_tell_nothing(line: Seq<char>, rest: Seq<char>, content: Seq<u8>)
    requires
        text_laws::lacks(line, '\n'),
        line.len() == 0 || line.last() != '\r',
        text::words(line).len() == 0 || text::words(line)[0] != "populated"@,
    ensures
        cgroup_v2::populated_in(file_of(line + seq!['\n'] + rest)) == cgroup_v2::populated_in(
            file_of(rest),
        ),
        cgroup_v2::populated_in(file_of(line)) == CgroupV2Populated::Unknown,
        !vstd::utf8::valid_utf8(content) ==> cgroup_v2::populated_in(content)
            == CgroupV2Populated::Unknown,
{
    broadcast use vstd::utf8::encode_utf8_decode_utf8;
    broadcast use vstd::utf8::encode_utf8_valid_utf8;

    text_laws::law_first_line(line, rest);
    let all = seq![line] + text::lines(rest);
    assert(all.first() == line);
    assert(all.drop_first() =~= text::lines(rest));
    text_laws::law_last_line(line);
    if line.len() > 0 {
        let one = seq![line];
        assert(one.drop_first() =~= Seq::<Seq<char>>::empty());
        assert(one.first() == line);
        reveal_with_fuel(cgroup_v2::populated_by, 2);
    }
}

// ---------------------------------------------------------------------------
// Signals
// ---------------------------------------------------------------------------

/// When a watched events file is signalled and says that its control group has
/// processes, the answer is the application of the watch's UID; if it says
/// otherwise, there is none. What the file says is noted at the watch and nothing
/// else changes.
pub proof fn law_signal_tells_foreground(
    m: V2Model,
    p: Seq<Seq<u8>>,
    rescan: RescanModel,
    content: Seq<u8>,
)
    requires
        m.watches.contains_key(p),
    ensures
        cgroup_v2::populated_in(content) == CgroupV2Populated::Active ==> m.after_signal(
            p,
            rescan,
            true,
            Ok(content),
        ).1 == Ok::<Option<CandidateModel>, error::ErrorModel>(told_of(m, m.watches[p].uid)),
        cgroup_v2::populated_in(content) != CgroupV2Populated::Active ==> m.after_signal(
            p,
            rescan,
            true,
            Ok(content),
        ).1 == Ok::<Option<CandidateModel>, error::ErrorModel>(None),
        m.after_signal(p, rescan, true, Ok(content)).0 == (V2Model {
            watches: m.watches.insert(
                p,
                WatchModel {
                    uid: m.watches[p].uid,
                    events_path: m.watches[p].events_path,
                    generation: m.watches[p].generation,
                    populated: cgroup_v2::populated_in(content),
                },
            ),
            ..m
        }),
{
}

/// A signalled events file that starts with `populated 1` tells of the application
/// of its UID.
pub proof fn law_signal_of_populated_file(
    m: V2Model,
    p: Seq<Seq<u8>>,
    rescan: RescanModel,
    rest: Seq<char>,
)
    requires
        m.watches.contains_key(p),
    ensures
        m.after_signal(
            p,
            rescan,
            true,
            Ok(file_of("populated "@ + seq!['1'] + seq!['\n'] + rest)),
        ).1 == Ok::<Option<CandidateModel>, error::ErrorModel>(told_of(m, m.watches[p].uid)),
        m.after_signal(
            p,
            rescan,
            true,
            Ok(file_of("populated "@ + seq!['0'] + seq!['\n'] + rest)),
        ).1 == Ok::<Option<CandidateModel>, error::ErrorModel>(None),
{
    law_populated_line_tells(seq!['1'], rest);
    law_populated_line_tells(seq!['0'], rest);
    assert(seq!['0'][0] != seq!['1'][0]);
}

/// A signalled events file that cannot be read is answered with that error, and
/// nothing changes. One that is gone is no longer watched and one that was not
/// watched says nothing; both make the source look at the control groups anew.
pub proof fn law_signal_without_contents(
    m: V2Model,
    p: Seq<Seq<u8>>,
    rescan: RescanModel,
    exists_now: bool,
    events: Result<Seq<u8>, error::ErrorModel>,
)
    ensures
        m.watches.contains_key(p) && exists_now ==> (events matches Err(e) ==> m.after_signal(
            p,
            rescan,
            exists_now,
            events,
        ) == (m, Err::<Option<CandidateModel>, error::ErrorModel>(e))),
        m.watches.contains_key(p) && !exists_now ==> m.after_signal(p, rescan, exists_now, events)
            == (
            V2Model { watches: m.watches.remove(p), ..m }.rescanned(rescan),
            Ok::<Option<CandidateModel>, error::ErrorModel>(None),
        ),
        !m.watches.contains_key(p) ==> m.after_signal(p, rescan, exists_now, events) == (
            m.rescanned(rescan),
            Ok::<Option<CandidateModel>, error::ErrorModel>(None),
        ),
{
}

// ---------------------------------------------------------------------------
// Polls
// ---------------------------------------------------------------------------

/// A poll that comes to a watched events file ends with the application of its UID
/// if the file says that its control group has processes and there is one, and with
/// the error if the file cannot be read; a file that is gone is no longer watched,
/// and the poll goes on.
pub proof fn law_poll_of_file(
    m: V2Model,
    p: Seq<Seq<u8>>,
    rescan: RescanModel,
    events: Result<Seq<u8>, error::ErrorModel>,
)
    requires
        m.watches.contains_key(p),
    ensures
        match events {
            Ok(content) => {
                &&& m.after_poll_of(p, events, rescan).1 == if cgroup_v2::populated_in(content)
                    == CgroupV2Populated::Active && told_of(m, m.watches[p].uid) is Some {
                    Some(
                        Ok::<Option<CandidateModel>, error::ErrorModel>(
                            told_of(m, m.watches[p].uid),
                        ),
                    )
                } else {
                    None
                }
                &&& m.after_poll_of(p, events, rescan).0 == m.after_signal(
                    p,
                    rescan,
                    true,
                    events,
                ).0
            },
            Err(e) => if e matches error::ErrorModel::Io { kind, .. } && kind
                == crate::error::IoErrorKind::NotFound {
                m.after_poll_of(p, events, rescan) == (
                    V2Model { watches: m.watches.remove(p), ..m }.rescanned(rescan),
                    None::<Result<Option<CandidateModel>, error::ErrorModel>>,
                )
            } else {
                m.after_poll_of(p, events, rescan) == (
                    m,
                    Some(Err::<Option<CandidateModel>, error::ErrorModel>(e)),
                )
            },
        },
{
}

/// Whether an events file ends a poll with an application.
pub open spec fn tells(m: V2Model, p: Seq<Seq<u8>>, content: Seq<u8>) -> bool {
    &&& m.watches.contains_key(p)
    &&& cgroup_v2::populated_in(content) == CgroupV2Populated::Active
    &&& told_of(m, m.watches[p].uid) is Some
}

proof fn lemma_poll_of_readable_files(
    m: V2Model,
    paths: Seq<Seq<Seq<u8>>>,
    events: Seq<Result<Seq<u8>, error::ErrorModel>>,
    rescans: Seq<RescanModel>,
    n: nat,
)
    requires
        forall|i: int| 0 <= i < n ==> (#[trigger] events[i]) is Ok,
    ensures
        ({
            let after = m.after_poll(paths, events, rescans, n).0;
            &&& after.cache == m.cache
            &&& after.filter == m.filter
            &&& after.roots == m.roots
            &&& after.stale_roots == m.stale_roots
            &&& after.next_generation == m.next_generation
            &&& forall|p: Seq<Seq<u8>>| #[trigger]
                after.watches.contains_key(p) <==> m.watches.contains_key(p)
            &&& forall|p: Seq<Seq<u8>>| #[trigger]
                m.watches.contains_key(p) ==> after.watches[p].uid == m.watches[p].uid
                    && after.watches[p].generation == m.watches[p].generation
                    && after.watches[p].events_path == m.watches[p].events_path
        }),
    decreases n,
{
    if n > 0 {
        lemma_poll_of_readable_files(m, paths, events, rescans, (n - 1) as nat);
        assert(events[n - 1] is Ok);
        let before = m.after_poll(paths, events, rescans, (n - 1) as nat).0;
        let p = paths[n - 1];
        assert(m.watches.contains_key(p) <==> before.watches.contains_key(p));
    }
}

/// Where all events files can be read, a poll ends at the first one in order that
/// tells of an application, with that application; if none does, it ends with
/// nothing.
pub proof fn law_first_telling_file_ends_poll(
    m: V2Model,
    paths: Seq<Seq<Seq<u8>>>,
    events: Seq<Result<Seq<u8>, error::ErrorModel>>,
    rescans: Seq<RescanModel>,
    n: nat,
    first: int,
)
    requires
        forall|i: int| 0 <= i < n ==> (#[trigger] events[i]) is Ok,
        0 <= first <= n,
        forall|i: int|
            0 <= i < first ==> !tells(m, paths[i], (#[trigger] events[i])->Ok_0),
        first < n ==> tells(m, paths[first], events[first]->Ok_0),
    ensures
        first < n ==> m.after_poll(paths, events, rescans, n).1 == Some(
            Ok::<Option<CandidateModel>, error::ErrorModel>(
                told_of(m, m.watches[paths[first]].uid),
            ),
        ),
        first == n ==> m.after_poll(paths, events, rescans, n).1 is None,
    decreases n,
{
    if n > 0 {
        let before = m.after_poll(paths, events, rescans, (n - 1) as nat);
        if first == n {
            assert(!tells(m, paths[n - 1], events[n - 1]->Ok_0));
        }
        law_first_telling_file_ends_poll(
            m,
            paths,
            events,
            rescans,
            (n - 1) as nat,
            if first == n {
                first - 1
            } else {
                first
            },
        );
        lemma_poll_of_readable_files(m, paths, events, rescans, (n - 1) as nat);
        assert(events[n - 1] is Ok);
        let p = paths[n - 1];
        assert(before.0.watches.contains_key(p) <==> m.watches.contains_key(p));
    }
}

// ---------------------------------------------------------------------------
// Directories
// ---------------------------------------------------------------------------

/// The components of a directory's events file.
pub open spec fn events_key(dir: Seq<u8>) -> Seq<Seq<u8>> {
    path::components(cgroup_v2::events_file(dir))
}

/// The events file of a directory is the file `cgroup.events` in it.
pub proof fn law_events_file_is_in_directory(dir: Seq<u8>)
    ensures
        path::components(cgroup_v2::events_file(dir)) == path::components(dir).push(
            file_of("cgroup.events"@),
        ),
{
    broadcast use vstd::utf8::group_utf8_lib;

    reveal_strlit("cgroup.events");
    let name = "cgroup.events"@;
    vstd::utf8::is_ascii_chars_encode_utf8(name);
    let bytes = file_of(name);
    assert(bytes.len() == 13);
    assert(bytes[0] == name[0] as u8);
    assert forall|i: int| 0 <= i < bytes.len() implies #[trigger] bytes[i] != path::slash() by {
        assert(bytes[i] == name[i] as u8);
    }
    path::law_joined_name_is_last(dir, bytes);
}

/// A directory that appeared in a root, or of which nothing more is known, and
/// whose name states a UID that passes the filter, is watched if it was not and its
/// events file opens. What the file says is noted, and if it says that the control
/// group has processes, the answer is the application of the UID.
pub proof fn law_new_directory_is_watched_and_told(
    m: V2Model,
    p: Seq<u8>,
    mask: u32,
    rescan: RescanModel,
    uid: u32,
    content: Seq<u8>,
    root: int,
)
    requires
        mask & 0x4000u32 == 0,
        mask & 0x8c00u32 == 0,
        mask & 0x240u32 == 0,
        mask & 0x180u32 != 0 || mask == 0,
        0 <= root < m.roots.len(),
        path::components(p).len() > 0,
        path::components(p).last() != path::root(),
        path::components(p).drop_last() == path::components(m.roots[root]),
        cgroup_v2::uid_of_path(p) == Some(uid as nat),
        m.filter.valid_uid(uid),
        !m.watches.contains_key(events_key(p)),
    ensures
        ({
            let (after, answer) = m.after_fs_event(p, mask, rescan, true, true, Ok(content));
            &&& answer == Ok::<Option<CandidateModel>, error::ErrorModel>(
                if cgroup_v2::populated_in(content) == CgroupV2Populated::Active {
                    told_of(m, uid)
                } else {
                    None
                },
            )
            &&& after.watches.contains_key(events_key(p))
            &&& after.watches[events_key(p)].uid == uid
            &&& after.watches[events_key(p)].events_path == cgroup_v2::events_file(p)
            &&& after.watches[events_key(p)].generation == m.next_generation
            &&& after.watches[events_key(p)].populated == cgroup_v2::populated_in(content)
            &&& after.watches.remove(events_key(p)) == m.watches
            &&& after.cache == m.cache && after.filter == m.filter && after.stale_roots
                == m.stale_roots && after.roots == m.roots
        }),
        forall|e: error::ErrorModel|
            (#[trigger] m.after_fs_event(p, mask, rescan, true, true, Err(e))).1 == Err::<
                Option<CandidateModel>,
                error::ErrorModel,
            >(e),
        m.after_fs_event(p, mask, rescan, true, false, Ok(content)) == (m, Ok::<
            Option<CandidateModel>,
            error::ErrorModel,
        >(None)),
{
    assert(path::is_parent(m.roots[root], p));
    assert(m.in_root(p));
    let after = m.after_fs_event(p, mask, rescan, true, true, Ok(content)).0;
    assert(after.watches.remove(events_key(p)) =~= m.watches);
}

/// An event that is no overflow, no loss and no removal changes nothing and is answered
/// with nothing where it is not in a root; where its name states no UID, or one that
/// the filter rejects, or one that is watched already; or where it is of a sort that
/// the roots are not watched for.
pub proof fn law_other_events_change_nothing(
    m: V2Model,
    p: Seq<u8>,
    mask: u32,
    rescan: RescanModel,
    events_opens: bool,
    events: Result<Seq<u8>, error::ErrorModel>,
)
    requires
        mask & 0x4000u32 == 0,
        mask & 0x8c00u32 == 0,
        mask & 0x240u32 == 0,
    ensures
        (match cgroup_v2::uid_of_path(p) {
            None => true,
            Some(uid) => !m.filter.valid_uid(uid as u32) || m.watches.contains_key(events_key(p)),
        }) || (mask & 0x180u32 == 0 && mask != 0) || !m.in_root(p) ==> m.after_fs_event(p, mask, rescan, true, events_opens, events) == (m, Ok::<
            Option<CandidateModel>,
            error::ErrorModel,
        >(None)),
{
}

/// After an overflow the control groups are looked at anew, whatever path the event
/// has. So they are after the loss of a root, which is then stale.
pub proof fn law_lost_events_are_made_up_for(
    m: V2Model,
    p: Seq<u8>,
    mask: u32,
    rescan: RescanModel,
    path_exists: bool,
    events_opens: bool,
    events: Result<Seq<u8>, error::ErrorModel>,
)
    ensures
        mask & 0x4000u32 != 0 ==> m.after_fs_event(
            p,
            mask,
            rescan,
            path_exists,
            events_opens,
            events,
        ) == (m.rescanned(rescan), Ok::<Option<CandidateModel>, error::ErrorModel>(None)),
        mask & 0x4000u32 == 0 && mask & 0x8c00u32 != 0 && m.is_root(p) ==> m.after_fs_event(
            p,
            mask,
            rescan,
            path_exists,
            events_opens,
            events,
        ) == (
            V2Model {
                stale_roots: m.stale_roots.insert(path::components(p)),
                ..m
            }.rescanned(rescan),
            Ok::<Option<CandidateModel>, error::ErrorModel>(None),
        ),
        mask & 0x4000u32 == 0 && mask & 0x8c00u32 != 0 && !m.is_root(p) && m.in_root(p)
            ==> m.after_fs_event(p, mask, rescan, path_exists, events_opens, events) == (
            m.rescanned(rescan),
            Ok::<Option<CandidateModel>, error::ErrorModel>(None),
        ),
        mask & 0x4000u32 == 0 && !m.is_root(p) && !m.in_root(p) ==> m.after_fs_event(
            p,
            mask,
            rescan,
            path_exists,
            events_opens,
            events,
        ) == (m, Ok::<Option<CandidateModel>, error::ErrorModel>(None)),
{
}

// ---------------------------------------------------------------------------
// Scans
// ---------------------------------------------------------------------------

/// Whether an entry of a root is a control group to watch: a directory whose name
/// states a UID that passes the filter and whose events file opens.
pub open spec fn watchable(m: V2Model, entry: RootEntryModel) -> bool {
    &&& entry.is_dir
    &&& entry.events_opens
    &&& cgroup_v2::uid_of_path(entry.path) matches Some(uid) && m.filter.valid_uid(uid as u32)
}

/// Whether an entry to watch has the given events file and states the given UID.
pub open spec fn watch_for(
    m: V2Model,
    entry: RootEntryModel,
    p: Seq<Seq<u8>>,
    watch: WatchModel,
) -> bool {
    &&& watchable(m, entry)
    &&& events_key(entry.path) == p
    &&& cgroup_v2::uid_of_path(entry.path) == Some(watch.uid as nat)
    &&& watch.events_path == cgroup_v2::events_file(entry.path)
    &&& watch.populated == CgroupV2Populated::Unknown
}

/// Whether a source looks like another but for the watches and the next generation.
pub open spec fn same_settings(after: V2Model, m: V2Model) -> bool {
    &&& after.roots == m.roots
    &&& after.filter == m.filter
    &&& after.hints == m.hints
    &&& after.cache == m.cache
    &&& after.stale_roots == m.stale_roots
}

/// Whether a source keeps all watches of another.
pub open spec fn keeps_watches(after: V2Model, m: V2Model) -> bool {
    forall|p: Seq<Seq<u8>>| #[trigger]
        m.watches.contains_key(p) ==> after.watches.contains_key(p) && after.watches[p]
            == m.watches[p]
}

proof fn lemma_uid_fits(p: Seq<u8>)
    ensures
        cgroup_v2::uid_of_path(p) matches Some(uid) ==> uid <= u32::MAX,
{
}

/// Looking through a root keeps all watches, watches every control group there that
/// is to be watched, and no other; nothing else changes.
pub proof fn law_root_is_looked_through(m: V2Model, entries: Seq<RootEntryModel>)
    ensures
        ({
            let after = m.looked_through(entries);
            &&& same_settings(after, m)
            &&& keeps_watches(after, m)
            &&& forall|i: int|
                0 <= i < entries.len() && watchable(m, #[trigger] entries[i])
                    ==> after.watches.contains_key(events_key(entries[i].path))
            &&& forall|p: Seq<Seq<u8>>| #[trigger]
                after.watches.contains_key(p) ==> m.watches.contains_key(p) || exists|i: int|
                    0 <= i < entries.len() && watch_for(
                        m,
                        #[trigger] entries[i],
                        p,
                        after.watches[p],
                    )
        }),
    decreases entries.len(),
{
    if entries.len() > 0 {
        let front = entries.drop_last();
        law_root_is_looked_through(m, front);
        let before = m.looked_through(front);
        let after = m.looked_through(entries);
        let last = entries.last();
        lemma_uid_fits(last.path);
        assert(entries[entries.len() - 1] == last);
        assert forall|i: int| 0 <= i < entries.len() && watchable(m, #[trigger] entries[i])
            implies after.watches.contains_key(events_key(entries[i].path)) by {
            if i < front.len() {
                assert(front[i] == entries[i]);
            }
        }
        assert forall|p: Seq<Seq<u8>>| #[trigger]
            after.watches.contains_key(p) implies m.watches.contains_key(p) || exists|i: int|
            0 <= i < entries.len() && watch_for(
                m,
                #[trigger] entries[i],
                p,
                after.watches[p],
            ) by {
            if before.watches.contains_key(p) {
                if !m.watches.contains_key(p) {
                    let i = choose|i: int|
                        0 <= i < front.len() && watch_for(
                            m,
                            #[trigger] front[i],
                            p,
                            before.watches[p],
                        );
                    assert(front[i] == entries[i]);
                }
            } else {
                assert(watch_for(m, entries[entries.len() - 1], p, after.watches[p]));
            }
        }
    }
}

/// Whether a control group to watch stands in one of the listings.
pub open spec fn listed_for(
    m: V2Model,
    listings: Seq<Seq<RootEntryModel>>,
    p: Seq<Seq<u8>>,
    watch: WatchModel,
) -> bool {
    exists|k: int, i: int|
        0 <= k < listings.len() && 0 <= i < listings[k].len() && watch_for(
            m,
            #[trigger] listings[k][i],
            p,
            watch,
        )
}

/// A scan keeps all watches, watches every control group that is to be watched in
/// any of the roots, and no other; nothing else changes.
pub proof fn law_scan_watches_listed(m: V2Model, listings: Seq<Seq<RootEntryModel>>)
    ensures
        ({
            let after = m.scanned(listings);
            &&& same_settings(after, m)
            &&& keeps_watches(after, m)
            &&& forall|k: int, i: int|
                0 <= k < listings.len() && 0 <= i < listings[k].len() && watchable(
                    m,
                    #[trigger] listings[k][i],
                ) ==> after.watches.contains_key(events_key(listings[k][i].path))
            &&& forall|p: Seq<Seq<u8>>| #[trigger]
                after.watches.contains_key(p) ==> m.watches.contains_key(p) || listed_for(
                    m,
                    listings,
                    p,
                    after.watches[p],
                )
        }),
    decreases listings.len(),
{
    if listings.len() > 0 {
        let front = listings.drop_last();
        law_scan_watches_listed(m, front);
        let before = m.scanned(front);
        let after = m.scanned(listings);
        let last = listings.last();
        law_root_is_looked_through(before, last);
        assert forall|k: int, i: int|
            0 <= k < listings.len() && 0 <= i < listings[k].len() && watchable(
                m,
                #[trigger] listings[k][i],
            ) implies after.watches.contains_key(events_key(listings[k][i].path)) by {
            if k < front.len() {
                assert(front[k] == listings[k]);
                assert(watchable(m, front[k][i]));
                assert(before.watches.contains_key(events_key(front[k][i].path)));
            } else {
                assert(listings[k] == last);
                assert(watchable(before, last[i]));
            }
        }
        assert forall|p: Seq<Seq<u8>>| #[trigger]
            after.watches.contains_key(p) implies m.watches.contains_key(p) || listed_for(
            m,
            listings,
            p,
            after.watches[p],
        ) by {
            if before.watches.contains_key(p) {
                if !m.watches.contains_key(p) {
                    let (k, i) = choose|k: int, i: int|
                        0 <= k < front.len() && 0 <= i < front[k].len() && watch_for(
                            m,
                            #[trigger] front[k][i],
                            p,
                            before.watches[p],
                        );
                    assert(listings[k] == front[k]);
                    assert(watch_for(m, listings[k][i], p, after.watches[p]));
                }
            } else {
                let i = choose|i: int|
                    0 <= i < last.len() && watch_for(
                        before,
                        #[trigger] last[i],
                        p,
                        after.watches[p],
                    );
                let k = listings.len() - 1;
                assert(listings[k] == last);
                assert(watch_for(m, listings[k][i], p, after.watches[p]));
            }
        }
    }
}

/// After a new look, an events file that was found missing is watched only if it is
/// listed again; all other watches stand as they were, and every control group that
/// is to be watched is.
pub proof fn law_rescan_drops_missing(m: V2Model, rescan: RescanModel)
    ensures
        ({
            let after = m.rescanned(rescan);
            &&& same_settings(after, m)
            &&& forall|p: Seq<Seq<u8>>| #[trigger]
                m.watches.contains_key(p) && !rescan.missing.contains(p)
                    ==> after.watches.contains_key(p) && after.watches[p] == m.watches[p]
            &&& forall|p: Seq<Seq<u8>>| #[trigger]
                after.watches.contains_key(p) ==> (m.watches.contains_key(p)
                    && !rescan.missing.contains(p)) || listed_for(
                    m,
                    rescan.listings,
                    p,
                    after.watches[p],
                )
            &&& forall|k: int, i: int|
                0 <= k < rescan.listings.len() && 0 <= i < rescan.listings[k].len() && watchable(
                    m,
                    #[trigger] rescan.listings[k][i],
                ) ==> after.watches.contains_key(events_key(rescan.listings[k][i].path))
        }),
{
    let kept = m.without(rescan.missing);
    let after = m.rescanned(rescan);
    law_scan_watches_listed(kept, rescan.listings);
    assert forall|p: Seq<Seq<u8>>| #[trigger]
        m.watches.contains_key(p) && !rescan.missing.contains(p) implies after.watches.contains_key(
        p,
    ) && after.watches[p] == m.watches[p] by {
        assert(kept.watches.contains_key(p));
    }
    assert forall|p: Seq<Seq<u8>>| #[trigger] after.watches.contains_key(p) implies (
    m.watches.contains_key(p) && !rescan.missing.contains(p)) || listed_for(
        m,
        rescan.listings,
        p,
        after.watches[p],
    ) by {
        if !kept.watches.contains_key(p) {
            let listings = rescan.listings;
            let (k, i) = choose|k: int, i: int|
                0 <= k < listings.len() && 0 <= i < listings[k].len() && watch_for(
                    kept,
                    #[trigger] listings[k][i],
                    p,
                    after.watches[p],
                );
            assert(watch_for(m, listings[k][i], p, after.watches[p]));
        }
    }
    assert forall|k: int, i: int|
        0 <= k < rescan.listings.len() && 0 <= i < rescan.listings[k].len() && watchable(
            m,
            #[trigger] rescan.listings[k][i],
        ) implies after.watches.contains_key(events_key(rescan.listings[k][i].path)) by {
        assert(watchable(kept, rescan.listings[k][i]));
    }
}

/// A root can be used exactly if it is not stale and one of its entries is a
/// directory with a regular events file whose name states a UID that passes the
/// filter.
pub proof fn law_usable_roots(m: V2Model, root: Seq<u8>, entries: Seq<RootEntryModel>)
    ensures
        cgroup_v2::usable_root(m, root, entries) <==> !m.stale_roots.contains(
            path::components(root),
        ) && exists|i: int|
            0 <= i < entries.len() && (#[trigger] entries[i]).is_dir && entries[i].events_is_file
                && (cgroup_v2::uid_of_path(entries[i].path) matches Some(uid)
                && m.filter.valid_uid(uid as u32)),
{
    if cgroup_v2::usable_root(m, root, entries) {
        let i = choose|i: int|
            0 <= i < entries.len() && cgroup_v2::usable_entry(m, #[trigger] entries[i]);
        assert(entries[i].is_dir);
    }
    if exists|i: int|
        0 <= i < entries.len() && (#[trigger] entries[i]).is_dir && entries[i].events_is_file && (
        cgroup_v2::uid_of_path(entries[i].path) matches Some(uid) && m.filter.valid_uid(
            uid as u32,
        )) {
        let i = choose|i: int|
            0 <= i < entries.len() && (#[trigger] entries[i]).is_dir && entries[i].events_is_file
                && (cgroup_v2::uid_of_path(entries[i].path) matches Some(uid)
                && m.filter.valid_uid(uid as u32));
        assert(cgroup_v2::usable_entry(m, entries[i]));
    }
}

// ---------------------------------------------------------------------------
// Directory names
// ---------------------------------------------------------------------------

/// A directory named `uid_` and a number states that number as its UID, if it is a
/// UID at all.
pub proof fn law_uid_directory(n: nat)
    ensures
        cgroup_v2::uid_of_name(seq!['u', 'i', 'd', '_'] + text::decimal(n)) == if n <= u32::MAX {
            Some(n)
        } else {
            None
        },
{
    reveal_strlit("uid_");
    assert("uid_"@ =~= seq!['u', 'i', 'd', '_']);
    text_laws::law_prefix_comes_off("uid_"@, text::decimal(n));
    text::lemma_decimal(n);
    assert(text::digit(text::decimal(n)[0]));
}

/// A directory named `u`, a user number, `_a` and an application number states the
/// UID of that application of that user: a hundred thousand for each user, and the
/// applications from ten thousand on.
pub proof fn law_user_directory(user: nat, app: nat)
    ensures
        cgroup_v2::uid_of_name(
            seq!['u'] + text::decimal(user) + seq!['_', 'a'] + text::decimal(app),
        ) == if user * 100_000 + 10_000 + app <= u32::MAX {
            Some(user * 100_000 + 10_000 + app)
        } else {
            None
        },
{
    reveal_strlit("uid_");
    reveal_strlit("u");
    reveal_strlit("_a");
    assert("u"@ =~= seq!['u']);
    assert("_a"@ =~= seq!['_', 'a']);
    let number = text::decimal(user);
    let rest = number + "_a"@ + text::decimal(app);
    let name = seq!['u'] + number + seq!['_', 'a'] + text::decimal(app);
    text::lemma_decimal(user);
    text::lemma_decimal(app);
    assert(text::digit(number[0]));
    assert(text::digit(text::decimal(app)[0]));
    assert(name[1] == number[0]);
    text_laws::law_other_start_keeps_prefix(name, "uid_"@, 1);
    assert(name =~= "u"@ + rest);
    text_laws::law_prefix_comes_off("u"@, rest);
    assert forall|k: int| 0 <= k < number.len() implies !#[trigger] text::occurs_at(
        rest,
        "_a"@,
        k,
    ) by {
        assert(text::digit(number[k]));
        assert(rest[k] == number[k]);
        if text::occurs_at(rest, "_a"@, k) {
            assert(rest.subrange(k, k + 2)[0] == rest[k]);
        }
    }
    text_laws::law_cut_at_first_place(number, "_a"@, text::decimal(app));
    assert(text::split_once(rest, "_a"@) == Some((number, text::decimal(app))));
    assert(text::parse_unsigned(number, u32::MAX as nat) == if user <= u32::MAX {
        Some(user)
    } else {
        None
    });
    assert(text::parse_unsigned(text::decimal(app), u32::MAX as nat) == if app <= u32::MAX {
        Some(app)
    } else {
        None
    });
}

/// A name that does not start with `u` states no UID, nor does one that goes on
/// otherwise than with `id_` and has no underscore.
pub proof fn law_other_directory(name: Seq<char>)
    ensures
        name.len() == 0 || name[0] != 'u' ==> cgroup_v2::uid_of_name(name) is None,
        text_laws::lacks(name, '_') ==> cgroup_v2::uid_of_name(name) is None,
{
    reveal_strlit("uid_");
    reveal_strlit("u");
    reveal_strlit("_a");
    if name.len() == 0 || name[0] != 'u' {
        text_laws::law_other_start_keeps_prefix(name, "uid_"@, 0);
        text_laws::law_other_start_keeps_prefix(name, "u"@, 0);
    }
    if name.len() > 0 && text_laws::lacks(name, '_') {
        text_laws::law_other_start_keeps_prefix(name, "uid_"@, 3);
        let rest = name.skip(1);
        text::lemma_find(rest, "_a"@);
        if let Some(at) = text::find(rest, "_a"@) {
            assert(rest.subrange(at, at + 2)[0] == rest[at]);
            assert(rest[at] == name[at + 1]);
        }
    }
}

/// A path states the UID that its file name states; one whose file name is not
/// UTF-8, or that has none, states no UID.
pub proof fn law_file_name_states_uid(p: Seq<u8>, name: Seq<char>)
    ensures
        path::file_name(p) == Some(file_of(name)) ==> cgroup_v2::uid_of_path(p)
            == cgroup_v2::uid_of_name(name),
        path::file_name(p) is None ==> cgroup_v2::uid_of_path(p) is None,
        path::file_name(p) matches Some(bytes) && !vstd::utf8::valid_utf8(bytes)
            ==> cgroup_v2::uid_of_path(p) is None,
{
    broadcast use vstd::utf8::encode_utf8_decode_utf8;
    broadcast use vstd::utf8::encode_utf8_valid_utf8;

}

// ---------------------------------------------------------------------------
// The mount table
// ---------------------------------------------------------------------------

/// A line of three fields, with anything behind them, states source, mount point
/// and type in this order, each with its escapes replaced.
pub proof fn law_mount_line(
    source: Seq<char>,
    mount_point: Seq<char>,
    fs_type: Seq<char>,
    options: Seq<char>,
)
    requires
        source.len() > 0,
        text_laws::solid(source),
        mount_point.len() > 0,
        text_laws::solid(mount_point),
        fs_type.len() > 0,
        text_laws::solid(fs_type),
    ensures
        ({
            let short = source + seq![' '] + (mount_point + seq![' '] + fs_type);
            let long = source + seq![' '] + (mount_point + seq![' '] + (fs_type + seq![' ']
                + options));
            let entry = MountModel {
                source: cgroup_v2::unescaped(source),
                mount_point: vstd::utf8::encode_utf8(cgroup_v2::unescaped(mount_point)),
                fs_type: cgroup_v2::unescaped(fs_type),
            };
            cgroup_v2::mount_of_line(short) == Some(entry) && cgroup_v2::mount_of_line(long)
                == Some(entry)
        }),
        cgroup_v2::mount_of_line(source + seq![' '] + mount_point) is None,
        cgroup_v2::mount_of_line(source) is None,
        cgroup_v2::mount_of_line(Seq::empty()) is None,
{
    text_laws::law_last_word(source);
    text_laws::law_last_word(mount_point);
    text_laws::law_last_word(fs_type);
    text_laws::law_last_word(Seq::empty());
    text_laws::law_first_word(fs_type, ' ', options);
    text_laws::law_first_word(mount_point, ' ', fs_type);
    text_laws::law_first_word(mount_point, ' ', fs_type + seq![' '] + options);
    text_laws::law_first_word(source, ' ', mount_point);
    text_laws::law_first_word(source, ' ', mount_point + seq![' '] + fs_type);
    text_laws::law_first_word(
        source,
        ' ',
        mount_point + seq![' '] + (fs_type + seq![' '] + options),
    );
}

proof fn lemma_first_mount(first: Seq<char>, lines: Seq<Seq<char>>)
    ensures
        cgroup_v2::mounts_of(seq![first] + lines) == (match cgroup_v2::mount_of_line(first) {
            Some(entry) => seq![entry],
            None => Seq::empty(),
        }) + cgroup_v2::mounts_of(lines),
    decreases lines.len(),
{
    let all = seq![first] + lines;
    let head = match cgroup_v2::mount_of_line(first) {
        Some(entry) => seq![entry],
        None => Seq::empty(),
    };
    if lines.len() == 0 {
        assert(all.drop_last() =~= Seq::<Seq<char>>::empty());
        assert(all.last() == first);
        assert(cgroup_v2::mounts_of(all.drop_last()) =~= Seq::<MountModel>::empty());
        assert(cgroup_v2::mounts_of(all) =~= head + cgroup_v2::mounts_of(lines));
    } else {
        lemma_first_mount(first, lines.drop_last());
        assert(all.drop_last() =~= seq![first] + lines.drop_last());
        assert(all.last() == lines.last());
        assert(cgroup_v2::mounts_of(all) =~= head + cgroup_v2::mounts_of(lines));
    }
}

/// The mount table is read line by line, in order, and no line is left out but
/// those with fewer than three fields.
pub proof fn law_mounts_go_line_by_line(line: Seq<char>, rest: Seq<char>)
    requires
        text_laws::lacks(line, '\n'),
        line.len() == 0 || line.last() != '\r',
    ensures
        cgroup_v2::mounts_of(text::lines(line + seq!['\n'] + rest)) == (
        match cgroup_v2::mount_of_line(line) {
            Some(entry) => seq![entry],
            None => Seq::empty(),
        }) + cgroup_v2::mounts_of(text::lines(rest)),
{
    text_laws::law_first_line(line, rest);
    lemma_first_mount(line, text::lines(rest));
}

/// The unified control groups are mounted where the first entry of type `cgroup2`
/// says; without such an entry they are mounted nowhere.
pub proof fn law_first_unified_mount(
    before: Seq<MountModel>,
    mount: MountModel,
    after: Seq<MountModel>,
)
    requires
        forall|i: int| 0 <= i < before.len() ==> (#[trigger] before[i]).fs_type != "cgroup2"@,
        mount.fs_type == "cgroup2"@,
    ensures
        cgroup_v2::first_cgroup2(before + seq![mount] + after) == Some(mount.mount_point),
        cgroup_v2::first_cgroup2(before) is None,
    decreases before.len(),
{
    let all = before + seq![mount] + after;
    if before.len() > 0 {
        let rest = before.drop_first();
        assert forall|i: int| 0 <= i < rest.len() implies (#[trigger] rest[i]).fs_type
            != "cgroup2"@ by {
            assert(rest[i] == before[i + 1]);
        }
        law_first_unified_mount(rest, mount, after);
        assert(all.first() == before[0]);
        assert(before.first() == before[0]);
        assert(all.drop_first() =~= rest + seq![mount] + after);
    } else {
        assert(all.first() == mount);
    }
}

/// Control groups of UIDs may stand in the mount point and in its directory
/// `apps`, in this order; without a mount they stand nowhere.
pub proof fn law_roots_of_mount(mount: Seq<u8>)
    ensures
        cgroup_v2::uid_roots(Some(mount)).len() == 2,
        cgroup_v2::uid_roots(Some(mount))[0] == mount,
        path::components(cgroup_v2::uid_roots(Some(mount))[1]) == path::components(mount).push(
            file_of("apps"@),
        ),
        cgroup_v2::uid_roots(None).len() == 0,
{
    broadcast use vstd::utf8::group_utf8_lib;

    reveal_strlit("apps");
    let name = "apps"@;
    vstd::utf8::is_ascii_chars_encode_utf8(name);
    let bytes = file_of(name);
    assert(bytes.len() == 4);
    assert forall|i: int| 0 <= i < bytes.len() implies #[trigger] bytes[i] != path::slash() by {
        assert(bytes[i] == name[i] as u8);
    }
    path::law_joined_name_is_last(mount, bytes);
}

proof fn lemma_unescaped_behind(front: Seq<u8>, b: Seq<u8>, i: int)
    requires
        0 <= i <= b.len(),
    ensures
        cgroup_v2::unescaped_from(front + b, front.len() + i) == cgroup_v2::unescaped_from(b, i),
    decreases b.len() - i,
{
    if i < b.len() {
        let all = front + b;
        let n = front.len();
        assert(all[n + i] == b[i]);
        if i + 3 < b.len() {
            assert(all[n + i + 1] == b[i + 1]);
            assert(all[n + i + 2] == b[i + 2]);
            assert(all[n + i + 3] == b[i + 3]);
        }
        assert(cgroup_v2::escape_at(all, n + i) == cgroup_v2::escape_at(b, i));
        if cgroup_v2::escape_at(b, i) is Some {
            lemma_unescaped_behind(front, b, i + 4);
        } else {
            lemma_unescaped_behind(front, b, i + 1);
        }
    }
}

proof fn lemma_ascii_bytes(front: Seq<char>, rest: Seq<char>)
    requires
        vstd::utf8::is_ascii_chars(front),
        vstd::utf8::is_ascii_chars(rest),
    ensures
        vstd::utf8::encode_utf8(front + rest) == vstd::utf8::encode_utf8(front)
            + vstd::utf8::encode_utf8(rest),
        vstd::utf8::encode_utf8(front).len() == front.len(),
        forall|i: int|
            0 <= i < front.len() ==> #[trigger] vstd::utf8::encode_utf8(front)[i]
                == front[i] as u8 && (front[i] as nat) < 128,
{
    vstd::utf8::is_ascii_chars_encode_utf8(front);
    vstd::utf8::is_ascii_chars_encode_utf8(rest);
    let all = front + rest;
    assert(vstd::utf8::is_ascii_chars(all));
    vstd::utf8::is_ascii_chars_encode_utf8(all);
    let (a, b, c) = (
        vstd::utf8::encode_utf8(front),
        vstd::utf8::encode_utf8(rest),
        vstd::utf8::encode_utf8(all),
    );
    assert forall|i: int| 0 <= i < c.len() implies #[trigger] c[i] == (a + b)[i] by {
        assert(c[i] == all[i] as u8);
        if i < front.len() {
            assert(a[i] == front[i] as u8);
        } else {
            assert(b[i - front.len()] == rest[i - front.len()] as u8);
        }
    }
    assert(c =~= a + b);
    vstd::utf8::is_ascii_chars_nat_bound(front);
}

/// In a plain field, a backslash and three octal digits of a number up to 255
/// stand for the character of that number, and any character but a backslash stands
/// for itself; what follows is read likewise.
pub proof fn law_escapes_are_replaced(high: u8, middle: u8, low: u8, c: char, rest: Seq<char>)
    requires
        high < 4,
        middle < 8,
        low < 8,
        (c as nat) < 128,
        c != '\\',
        vstd::utf8::is_ascii_chars(rest),
    ensures
        cgroup_v2::unescaped(
            seq![
                '\\',
                (0x30 + high) as char,
                (0x30 + middle) as char,
                (0x30 + low) as char,
            ] + rest,
        ) == seq![(high * 64 + middle * 8 + low) as u8 as char] + cgroup_v2::unescaped(rest),
        cgroup_v2::unescaped(seq![c] + rest) == seq![c] + cgroup_v2::unescaped(rest),
        cgroup_v2::unescaped(Seq::empty()) == Seq::<char>::empty(),
{
    let front = seq![
        '\\',
        (0x30 + high) as char,
        (0x30 + middle) as char,
        (0x30 + low) as char,
    ];
    assert(vstd::utf8::is_ascii_chars(front));
    lemma_ascii_bytes(front, rest);
    let a = vstd::utf8::encode_utf8(front);
    let b = vstd::utf8::encode_utf8(rest);
    lemma_unescaped_behind(a, b, 0);
    assert(a[0] == front[0] as u8);
    assert(a[1] == front[1] as u8);
    assert(a[2] == front[2] as u8);
    assert(a[3] == front[3] as u8);
    assert((a + b)[0] == 0x5c);
    assert((a + b)[1] == 0x30 + high);
    assert((a + b)[2] == 0x30 + middle);
    assert((a + b)[3] == 0x30 + low);
    assert(cgroup_v2::escape_at(a + b, 0) == Some((high * 64 + middle * 8 + low) as u8));
    let single = seq![c];
    assert(vstd::utf8::is_ascii_chars(single));
    lemma_ascii_bytes(single, rest);
    let a = vstd::utf8::encode_utf8(single);
    lemma_unescaped_behind(a, b, 0);
    assert(a[0] == single[0] as u8);
    assert((a + b)[0] == c as u8);
    assert(cgroup_v2::escape_at(a + b, 0) is None);
    assert((c as u8) as char == c);
    let none = Seq::<char>::empty();
    assert(vstd::utf8::is_ascii_chars(none));
    vstd::utf8::is_ascii_chars_encode_utf8(none);
}

// ---------------------------------------------------------------------------
// Removed directories and events
// ---------------------------------------------------------------------------

/// A UID directory that was deleted, moved out or found gone takes its own watch with
/// it, if it had one with its UID; all other watches stay and nothing is answered.
pub proof fn law_removed_directory_takes_its_watch(
    m: V2Model,
    p: Seq<u8>,
    mask: u32,
    rescan: RescanModel,
    path_exists: bool,
    events_opens: bool,
    events: Result<Seq<u8>, error::ErrorModel>,
    uid: u32,
    other: Seq<Seq<u8>>,
)
    requires
        cgroup_v2::uid_of_path(p) == Some(uid as nat),
        mask & 0x4000u32 == 0,
        mask & 0x8c00u32 == 0,
        mask & 0x240u32 != 0 || !path_exists,
        other != events_key(p),
    ensures
        ({
            let (after, answer) = m.after_root_event(
                p,
                mask,
                rescan,
                path_exists,
                events_opens,
                events,
            );
            &&& answer == Ok::<Option<CandidateModel>, error::ErrorModel>(None)
            &&& after == (V2Model { watches: after.watches, ..m })
            &&& after.watches.contains_key(other) == m.watches.contains_key(other)
            &&& after.watches[other] == m.watches[other]
            &&& m.watches.contains_key(events_key(p)) && m.watches[events_key(p)].uid == uid
                ==> !after.watches.contains_key(events_key(p))
        }),
{
}

/// The roots are watched for creation, deletion and moves of what is in them, and for
/// the deletion, the move and the loss of the roots themselves: these are the events
/// that are told apart.
pub proof fn law_roots_are_watched_for_what_counts()
    ensures
        cgroup_v2::ROOT_HINT_MASK & 0x180u32 == 0x180,
        cgroup_v2::ROOT_HINT_MASK & 0x240u32 == 0x240,
        cgroup_v2::ROOT_HINT_MASK & 0x8c00u32 == 0x8c00,
        cgroup_v2::ROOT_HINT_MASK == 0x180 + 0x240 + 0x8c00,
        cgroup_v2::IN_Q_OVERFLOW_MASK == 0x4000,
{
    assert(0x8fc0u32 & 0x180u32 == 0x180) by (bit_vector);
    assert(0x8fc0u32 & 0x240u32 == 0x240) by (bit_vector);
    assert(0x8fc0u32 & 0x8c00u32 == 0x8c00) by (bit_vector);
}

/// A file of up to 256 bytes is read whole and a longer one up to there, in whatever
/// pieces it comes.
pub proof fn law_file_is_read_in_pieces(so_far: Seq<u8>, first: Seq<u8>, second: Seq<u8>)
    requires
        so_far.len() <= 256,
    ensures
        so_far.len() + first.len() <= 256 ==> cgroup_v2::read_on(so_far, first) == so_far + first,
        so_far.len() + first.len() > 256 ==> cgroup_v2::read_on(so_far, first).len() == 256
            && cgroup_v2::read_on(so_far, first).is_prefix_of(so_far + first),
        cgroup_v2::read_on(cgroup_v2::read_on(so_far, first), second) == cgroup_v2::read_on(
            so_far,
            first + second,
        ),
{
    assert((so_far + first) + second =~= so_far + (first + second));
    assert(cgroup_v2::read_on(cgroup_v2::read_on(so_far, first), second) =~= cgroup_v2::read_on(
        so_far,
        first + second,
    ));
}

proof fn lemma_bytes_stand(b: Seq<u8>, i: int)
    requires
        0 <= i <= b.len(),
        forall|k: int| 0 <= k < b.len() ==> #[trigger] b[k] != 0x5c,
    ensures
        cgroup_v2::unescaped_from(b, i) == Seq::new((b.len() - i) as nat, |k: int| b[i + k] as char),
    decreases b.len() - i,
{
    if i < b.len() {
        lemma_bytes_stand(b, i + 1);
        assert(cgroup_v2::escape_at(b, i) is None);
        assert(cgroup_v2::unescaped_from(b, i) =~= Seq::new(
            (b.len() - i) as nat,
            |k: int| b[i + k] as char,
        ));
    } else {
        assert(cgroup_v2::unescaped_from(b, i) =~= Seq::new(
            (b.len() - i) as nat,
            |k: int| b[i + k] as char,
        ));
    }
}

/// A field without a backslash is read byte by byte, each for the character of its
/// number.
pub proof fn law_bytes_stand_for_characters(field: Seq<char>)
    requires
        forall|k: int|
            0 <= k < vstd::utf8::encode_utf8(field).len() ==> #[trigger] vstd::utf8::encode_utf8(
                field,
            )[k] != 0x5c,
    ensures
        cgroup_v2::unescaped(field).len() == vstd::utf8::encode_utf8(field).len(),
        forall|k: int|
            0 <= k < vstd::utf8::encode_utf8(field).len() ==> #[trigger] cgroup_v2::unescaped(
                field,
            )[k] as nat == vstd::utf8::encode_utf8(field)[k] as nat,
{
    lemma_bytes_stand(vstd::utf8::encode_utf8(field), 0);
}

/// In a plain field, a backslash that no octal digit, or no plus sign, follows stands
/// for itself; a backslash, a plus sign and two octal digits stand for the character
/// of that number.
pub proof fn law_other_backslashes(c: char, middle: u8, low: u8, rest: Seq<char>)
    requires
        (c as nat) < 128,
        !('0' <= c <= '3'),
        c != '+',
        middle < 8,
        low < 8,
        vstd::utf8::is_ascii_chars(rest),
    ensures
        cgroup_v2::unescaped(seq!['\\'] + (seq![c] + rest)) == seq!['\\'] + cgroup_v2::unescaped(
            seq![c] + rest,
        ),
        cgroup_v2::unescaped(
            seq!['\\', '+', (0x30 + middle) as char, (0x30 + low) as char] + rest,
        ) == seq![(middle * 8 + low) as u8 as char] + cgroup_v2::unescaped(rest),
        cgroup_v2::unescaped(seq!['\\']) == seq!['\\'],
{
    let single = seq!['\\'];
    let tail = seq![c] + rest;
    assert(vstd::utf8::is_ascii_chars(single));
    assert(vstd::utf8::is_ascii_chars(tail));
    lemma_ascii_bytes(single, tail);
    lemma_ascii_bytes(seq![c], rest);
    let a = vstd::utf8::encode_utf8(single);
    let b = vstd::utf8::encode_utf8(tail);
    assert(vstd::utf8::encode_utf8(seq![c])[0] == c as u8);
    assert(b[0] == c as u8);
    assert(a[0] == 0x5c);
    lemma_unescaped_behind(a, b, 0);
    assert((a + b)[0] == 0x5c);
    assert((a + b)[1] == c as u8);
    assert(cgroup_v2::escape_at(a + b, 0) is None);
    assert(cgroup_v2::unescaped(single + tail) =~= single + cgroup_v2::unescaped(tail));
    let front = seq!['\\', '+', (0x30 + middle) as char, (0x30 + low) as char];
    assert(vstd::utf8::is_ascii_chars(front));
    lemma_ascii_bytes(front, rest);
    let f = vstd::utf8::encode_utf8(front);
    let r = vstd::utf8::encode_utf8(rest);
    lemma_unescaped_behind(f, r, 0);
    assert(f[0] == front[0] as u8);
    assert(f[1] == front[1] as u8);
    assert(f[2] == front[2] as u8);
    assert(f[3] == front[3] as u8);
    assert((f + r)[0] == 0x5c);
    assert((f + r)[1] == 0x2b);
    assert((f + r)[2] == 0x30 + middle);
    assert((f + r)[3] == 0x30 + low);
    assert(cgroup_v2::escape_at(f + r, 0) == Some((middle * 8 + low) as u8));
    let none = Seq::<char>::empty();
    assert(vstd::utf8::is_ascii_chars(none));
    lemma_ascii_bytes(single, none);
    assert(single + none =~= single);
    assert(cgroup_v2::escape_at(a, 0) is None);
    assert(cgroup_v2::unescaped_from(a, 1) =~= Seq::<char>::empty());
}

/// Of an event in a root whose name states no UID nothing comes but a new look where
/// events were lost.
pub proof fn law_event_without_uid(
    m: V2Model,
    p: Seq<u8>,
    mask: u32,
    rescan: RescanModel,
    path_exists: bool,
    events_opens: bool,
    events: Result<Seq<u8>, error::ErrorModel>,
)
    requires
        cgroup_v2::uid_of_path(p) is None,
        mask & 0x4000u32 == 0,
        mask & 0x8c00u32 == 0,
    ensures
        m.after_fs_event(p, mask, rescan, path_exists, events_opens, events) == (m, Ok::<
            Option<CandidateModel>,
            error::ErrorModel,
        >(None)),
{
}

/// A poll takes the events files in order and goes no further once one has ended it;
/// a file that is not watched any more is passed over.
pub proof fn law_poll_goes_in_order(
    m: V2Model,
    paths: Seq<Seq<Seq<u8>>>,
    events: Seq<Result<Seq<u8>, error::ErrorModel>>,
    rescans: Seq<RescanModel>,
    n: nat,
)
    ensures
        ({
            let before = m.after_poll(paths, events, rescans, n);
            let after = m.after_poll(paths, events, rescans, n + 1);
            &&& before.1 is Some ==> after == before
            &&& before.1 is None ==> after == before.0.after_poll_of(
                paths[n as int],
                events[n as int],
                rescans[n as int],
            )
            &&& before.1 is None && !before.0.watches.contains_key(paths[n as int]) ==> after
                == before
        }),
        m.after_poll(paths, events, rescans, 0).0 == m,
        m.after_poll(paths, events, rescans, 0).1 is None,
{
}

/// The first line of an events file that starts with the word `populated` decides by
/// its second word, however the words are spaced and whatever follows them.
pub proof fn law_populated_words_tell(line: Seq<char>, rest: Seq<char>)
    requires
        text_laws::lacks(line, '\n'),
        line.len() == 0 || line.last() != '\r',
        text::words(line).len() > 0,
        text::words(line)[0] == seq!['p', 'o', 'p', 'u', 'l', 'a', 't', 'e', 'd'],
    ensures
        ({
            let words = text::words(line);
            let told = if words.len() > 1 && words[1] == seq!['1'] {
                CgroupV2Populated::Active
            } else if words.len() > 1 && words[1] == seq!['0'] {
                CgroupV2Populated::Inactive
            } else {
                CgroupV2Populated::Unknown
            };
            &&& cgroup_v2::populated_in(file_of(line + seq!['\n'] + rest)) == told
            &&& cgroup_v2::populated_in(file_of(line)) == told
        }),
{
    broadcast use vstd::utf8::encode_utf8_decode_utf8;
    broadcast use vstd::utf8::encode_utf8_valid_utf8;

    reveal_strlit("populated");
    reveal_strlit("1");
    reveal_strlit("0");
    assert("1"@ =~= seq!['1']);
    assert("0"@ =~= seq!['0']);
    assert("populated"@ =~= seq!['p', 'o', 'p', 'u', 'l', 'a', 't', 'e', 'd']);
    text_laws::law_first_line(line, rest);
    let all = seq![line] + text::lines(rest);
    assert(all.first() == line);
    text_laws::law_last_line(line);
    if line.len() == 0 {
        text_laws::law_last_word(line);
    }
    assert(seq![line].first() == line);
}

/// The first three words of any line of the mount table are source, mount point and
/// type; a line of fewer words states nothing.
pub proof fn law_mount_words(line: Seq<char>)
    ensures
        text::words(line).len() >= 3 ==> (cgroup_v2::mount_of_line(line) matches Some(entry)
            && entry.source == cgroup_v2::unescaped(text::words(line)[0]) && entry.mount_point
            == vstd::utf8::encode_utf8(cgroup_v2::unescaped(text::words(line)[1])) && entry.fs_type
            == cgroup_v2::unescaped(text::words(line)[2])),
        text::words(line).len() < 3 ==> cgroup_v2::mount_of_line(line) is None,
{
}

/// Behind `uid_` stands any text that reads as a `u32`. Behind `u`, a user and an
/// application stand on either side of the first `_a`, and both are needed.
pub proof fn law_directory_numbers(number: Seq<char>, user: Seq<char>, app: Seq<char>)
    requires
        text_laws::lacks(user, '_'),
        text_laws::lacks(user, 'i'),
    ensures
        cgroup_v2::uid_of_name(seq!['u', 'i', 'd', '_'] + number) == text::parse_unsigned(
            number,
            u32::MAX as nat,
        ),
        cgroup_v2::uid_of_name(seq!['u'] + user + seq!['_', 'a'] + app) == match (
            text::parse_unsigned(user, u32::MAX as nat),
            text::parse_unsigned(app, u32::MAX as nat),
        ) {
            (Some(user), Some(app)) => if user * 100_000 + 10_000 + app <= u32::MAX {
                Some(user * 100_000 + 10_000 + app)
            } else {
                None
            },
            _ => None,
        },
{
    reveal_strlit("uid_");
    reveal_strlit("u");
    reveal_strlit("_a");
    assert("uid_"@ =~= seq!['u', 'i', 'd', '_']);
    assert("u"@ =~= seq!['u']);
    assert("_a"@ =~= seq!['_', 'a']);
    text_laws::law_prefix_comes_off("uid_"@, number);
    let rest = user + "_a"@ + app;
    let name = seq!['u'] + user + seq!['_', 'a'] + app;
    if user.len() > 0 {
        assert(name[1] == user[0]);
    } else {
        assert(name[1] == '_');
    }
    text_laws::law_other_start_keeps_prefix(name, "uid_"@, 1);
    assert(name =~= "u"@ + rest);
    text_laws::law_prefix_comes_off("u"@, rest);
    assert forall|k: int| 0 <= k < user.len() implies !#[trigger] text::occurs_at(
        rest,
        "_a"@,
        k,
    ) by {
        assert(rest[k] == user[k]);
        if text::occurs_at(rest, "_a"@, k) {
            assert(rest.subrange(k, k + 2)[0] == rest[k]);
        }
    }
    text_laws::law_cut_at_first_place(user, "_a"@, app);
    assert(text::split_once(rest, "_a"@) == Some((user, app)));
}

/// A name that starts with `u` and not with `uid_` states no UID where no `_a` stands
/// behind the `u`.
pub proof fn law_user_directory_needs_both(rest: Seq<char>)
    requires
        text_laws::lacks_text(rest, seq!['_', 'a']),
        rest.len() < 3 || rest.take(3) != seq!['i', 'd', '_'],
    ensures
        cgroup_v2::uid_of_name(seq!['u'] + rest) is None,
{
    reveal_strlit("uid_");
    reveal_strlit("u");
    reveal_strlit("_a");
    assert("u"@ =~= seq!['u']);
    assert("_a"@ =~= seq!['_', 'a']);
    let name = seq!['u'] + rest;
    text_laws::law_prefix_comes_off("u"@, rest);
    text_laws::law_no_cut_without_pattern(rest, "_a"@);
    if text::occurs_at(name, "uid_"@, 0) {
        assert(name.subrange(0, 4) =~= "uid_"@);
        assert forall|i: int| 0 <= i < 3 implies #[trigger] rest[i] == "uid_"@[i + 1] by {
            assert(rest[i] == name[i + 1]);
            assert(name.subrange(0, 4)[i + 1] == name[i + 1]);
        }
        assert(rest.take(3) =~= seq!['i', 'd', '_']);
    }
}

/// The model of a reading keeps its bytes or its error.
pub proof fn law_model_keeps_reading(content: Vec<u8>, e: crate::error::EngineError)
    ensures
        cgroup_v2::read_model(Ok(content)) == Ok::<Seq<u8>, error::ErrorModel>(content@),
        cgroup_v2::read_model(Err(e)) == Err::<Seq<u8>, error::ErrorModel>(e@),
{
}

} // verus!

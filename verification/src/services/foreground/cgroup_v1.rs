//! The foreground application by the top cpuset of the first control group
//! version.
use vstd::prelude::*;

use crate::error::{EngineError, IoErrorKind};
use crate::path::EnginePath;
use crate::services::foreground::cache::{UidPackageCache, UidPackageState, FIRST_APP_UID};
use crate::services::foreground::resolver::V1PayloadCache;
use crate::services::foreground::source::{
    ForegroundCandidate, ForegroundCandidateFilter, ForegroundSourceKind,
};
use crate::{
    error, ordered, path, services::foreground::cache, services::foreground::resolver,
    services::foreground::source, text,
};
use std::collections::BTreeMap;

verus! {

broadcast use {
    vstd::std_specs::btree::group_btree_axioms,
    vstd::laws_cmp::group_laws_cmp,
};

/// Something that knows the UID of a process.
pub trait PidUidResolver: Sized {
    /// Whether a look at a process may end so, and what becomes of the resolver.
    open spec fn resolves(
        pre: Self,
        proc_root: Seq<u8>,
        pid: i32,
        post: Self,
        r: Result<Option<u32>, EngineError>,
    ) -> bool {
        true
    }

    /// The UID of a process, if there is such a process.
    fn uid_for_pid(&mut self, proc_root: &EnginePath, pid: i32) -> (r: Result<
        Option<u32>,
        EngineError,
    >)
        ensures
            Self::resolves(*old(self), proc_root@, pid, *final(self), r),
    ;
}

/// A resolver that looks UIDs up in a table.
#[derive(Debug)]
pub struct MapPidUidResolver {
    uids: BTreeMap<i32, u32>,
}

impl View for MapPidUidResolver {
    type V = Map<i32, u32>;

    closed spec fn view(&self) -> Map<i32, u32> {
        self.uids@
    }
}

impl MapPidUidResolver {
    /// A resolver with the given table.
    pub fn new(uids: BTreeMap<i32, u32>) -> (r: Self)
        ensures
            r@ == uids@,
    {
        MapPidUidResolver { uids }
    }
}

impl Clone for MapPidUidResolver {
    fn clone(&self) -> (r: Self)
        ensures
            r@ == self@,
    {
        MapPidUidResolver { uids: self.uids.clone() }
    }
}

impl Default for MapPidUidResolver {
    fn default() -> (r: Self)
        ensures
            r@ == Map::<i32, u32>::empty(),
    {
        MapPidUidResolver { uids: BTreeMap::new() }
    }
}

impl PidUidResolver for MapPidUidResolver {
    open spec fn resolves(
        pre: Self,
        proc_root: Seq<u8>,
        pid: i32,
        post: Self,
        r: Result<Option<u32>, EngineError>,
    ) -> bool {
        &&& post@ == pre@
        &&& r == Ok::<Option<u32>, EngineError>(
            if pre@.contains_key(pid) {
                Some(pre@[pid])
            } else {
                None
            },
        )
    }

    fn uid_for_pid(&mut self, proc_root: &EnginePath, pid: i32) -> (r: Result<
        Option<u32>,
        EngineError,
    >) {
        match self.uids.get(&pid) {
            Some(uid) => Ok(Some(*uid)),
            None => Ok(None),
        }
    }
}

// ---------------------------------------------------------------------------
// Command lines
// ---------------------------------------------------------------------------

/// The package that a command line names: the first word up to its first colon,
/// if that has a dot and no slash.
pub open spec fn cmdline_package(cmdline: Seq<char>) -> Option<Seq<char>> {
    let words = text::words(cmdline);
    if words.len() == 0 {
        None
    } else {
        let process = text::split(words[0], ':')[0];
        if process.len() > 0 && text::holds(process, "."@) && !text::holds(process, "/"@) {
            Some(process)
        } else {
            None
        }
    }
}

/// Whether a command line is that of an application's interface process: it has
/// a colon, and neither `remote` nor `service` in it.
pub open spec fn is_interface(cmdline: Seq<char>) -> bool {
    text::holds(cmdline, ":"@) && !text::holds(cmdline, "remote"@) && !text::holds(
        cmdline,
        "service"@,
    )
}

fn package_from_proc_cmdline(cmdline: &Vec<char>) -> (r: Option<Vec<char>>)
    ensures
        match r {
            Some(package) => cmdline_package(cmdline@) == Some(package@),
            None => cmdline_package(cmdline@) is None,
        },
{
    let words = text::words_of(cmdline);
    assert(text::words(cmdline@).len() == words.len());
    if words.len() == 0 {
        return None;
    }
    assert(text::words(cmdline@)[0] == words@[0]@);
    let pieces = text::split_at_char(&words[0], ':');
    assert(text::split(words@[0]@, ':')[0] == pieces@[0]@);
    let n: usize = pieces[0].len();
    if n > 0 && text::contains(&pieces[0], ".") && !text::contains(&pieces[0], "/") {
        assert(pieces@[0]@ == pieces@[0]@.subrange(0, n as int));
        Some(text::slice(&pieces[0], 0, n))
    } else {
        None
    }
}

/// Whether what the cache knows of a UID allows for a package.
pub open spec fn consistent(
    cache: Option<cache::CacheModel>,
    uid: u32,
    package: Seq<char>,
) -> bool {
    match cache {
        Some(cache) if uid >= FIRST_APP_UID => match cache.uid_state(uid) {
            cache::UidStateModel::Exact(cached) => cached == package,
            cache::UidStateModel::Ambiguous(packages) => packages.contains(package),
            cache::UidStateModel::Missing => true,
        },
        _ => true,
    }
}

/// Whether the cache lists a package under a UID.
pub open spec fn has_package(
    cache: Option<cache::CacheModel>,
    uid: u32,
    package: Seq<char>,
) -> bool {
    cache matches Some(cache) && match cache.uid_state(uid) {
        cache::UidStateModel::Exact(cached) => cached == package,
        cache::UidStateModel::Ambiguous(packages) => packages.contains(package),
        cache::UidStateModel::Missing => false,
    }
}

fn lists_package(packages: &Vec<String>, package: &String) -> (r: bool)
    ensures
        r == ordered::strings(packages@).contains(package@),
{
    let ghost all = ordered::strings(packages@);
    let mut i: usize = 0;
    while i < packages.len()
        invariant
            i <= packages.len(),
            all == ordered::strings(packages@),
            forall|k: int| 0 <= k < i ==> #[trigger] all[k] != package@,
        decreases packages.len() - i,
    {
        assert(all[i as int] == packages@[i as int]@);
        if packages[i] == *package {
            return true;
        }
        i += 1;
    }
    false
}

// ---------------------------------------------------------------------------
// The source
// ---------------------------------------------------------------------------

/// The model of what a process is judged by.
pub struct V1Context {
    pub filter: source::FilterModel,
    pub cache: Option<cache::CacheModel>,
    /// The command lines that could be read.
    pub cmdlines: Map<i32, Seq<char>>,
}

impl V1Context {
    /// The candidate that a process makes by its command line, and whether it
    /// is an interface process.
    pub open spec fn named(self, pid: i32, uid: u32) -> Option<(source::CandidateModel, bool)> {
        if !self.filter.valid_uid(uid) || !self.cmdlines.contains_key(pid) {
            None
        } else {
            let cmdline = self.cmdlines[pid];
            match cmdline_package(cmdline) {
                None => None,
                Some(package) => if self.filter.blocked_packages.contains(package)
                    || !consistent(self.cache, uid, package) {
                    None
                } else {
                    Some(
                        (
                            source::CandidateModel {
                                source: ForegroundSourceKind::CgroupV1,
                                pid: Some(pid),
                                uid: Some(uid),
                                package: Some(package),
                                identity_resolved: true,
                            },
                            is_interface(cmdline),
                        ),
                    )
                },
            }
        }
    }

    /// Whether a process is one of a terminal application's child programs.
    pub open spec fn terminal_child(self, pid: i32, uid: u32) -> bool {
        &&& has_package(self.cache, uid, "com.termux"@)
        &&& self.cmdlines.contains_key(pid)
        &&& text::words(self.cmdlines[pid]).len() > 0
        &&& text::words(self.cmdlines[pid])[0].len() > 0
        &&& cmdline_package(self.cmdlines[pid]) is None
    }

    /// Whether there is something to identify a process by besides its UID: a
    /// package cache, or its command line.
    pub open spec fn can_identify(self, pid: i32) -> bool {
        self.cache is Some || self.cmdlines.contains_key(pid)
    }

    /// The candidate that a process makes, and whether it is an interface
    /// process: by its command line if that names a package, else by its UID. A
    /// process that stays unidentified is no candidate, unless there is nothing to
    /// identify it by.
    pub open spec fn weighed(self, pid: i32, uid: u32) -> Option<(source::CandidateModel, bool)> {
        match self.named(pid, uid) {
            Some(found) => Some(found),
            None => if self.terminal_child(pid, uid) {
                None
            } else {
                match self.filter.candidate(
                    ForegroundSourceKind::CgroupV1,
                    Some(pid),
                    uid,
                    self.cache,
                ) {
                    Some(candidate) if candidate.identity_resolved || !self.can_identify(
                        pid,
                    ) => Some((candidate, false)),
                    _ => None,
                }
            },
        }
    }
}

/// A process that could be the foreground one.
pub struct Contender {
    pub pid: i32,
    pub candidate: source::CandidateModel,
    pub interface: bool,
}

/// Whether a process takes the place of the best one so far: an interface
/// process beats one that is none, among equals an identified one beats one that
/// is not, and among equals again the higher process ID wins.
pub open spec fn beats(
    best: Option<Contender>,
    pid: i32,
    interface: bool,
    identified: bool,
) -> bool {
    match best {
        None => true,
        Some(best) => if interface != best.interface {
            interface
        } else if identified != best.candidate.identity_resolved {
            identified
        } else {
            pid > best.pid
        },
    }
}

/// The non-blank lines of a process list, last first, without white space
/// around them.
pub open spec fn rows(lines: Seq<Seq<char>>) -> Seq<Seq<char>>
    decreases lines.len(),
{
    if lines.len() == 0 {
        Seq::empty()
    } else {
        let rest = rows(lines.drop_first());
        let row = text::trim(lines.first());
        if row.len() == 0 {
            rest
        } else {
            rest.push(row)
        }
    }
}

/// The best process among those that were asked about.
pub open spec fn best_of(
    context: V1Context,
    rows: Seq<Seq<char>>,
    answers: Seq<Result<Option<u32>, EngineError>>,
) -> Option<Contender>
    decreases answers.len(),
{
    if answers.len() == 0 {
        None
    } else {
        let best = best_of(context, rows, answers.drop_last());
        let pid = row_pid(rows, answers.len() - 1);
        match answers.last() {
            Ok(Some(uid)) => match context.weighed(pid, uid) {
                Some((candidate, interface)) => if beats(
                    best,
                    pid,
                    interface,
                    candidate.identity_resolved,
                ) {
                    Some(Contender { pid, candidate, interface })
                } else {
                    best
                },
                None => best,
            },
            _ => best,
        }
    }
}

/// Whether a row is a process ID and the resolver gave this answer for it.
pub open spec fn row_answered<R: PidUidResolver>(
    proc_root: Seq<u8>,
    rows: Seq<Seq<char>>,
    states: Seq<R>,
    answers: Seq<Result<Option<u32>, EngineError>>,
    i: int,
) -> bool {
    &&& text::parse_i32(rows[i]) is Some
    &&& R::resolves(
        states[i],
        proc_root,
        text::parse_i32(rows[i])->0 as i32,
        states[i + 1],
        answers[i],
    )
}

/// Whether a resolver was asked about the first rows, in order, and answered so.
pub open spec fn rows_answered<R: PidUidResolver>(
    proc_root: Seq<u8>,
    rows: Seq<Seq<char>>,
    states: Seq<R>,
    answers: Seq<Result<Option<u32>, EngineError>>,
) -> bool {
    &&& answers.len() <= rows.len()
    &&& states.len() == answers.len() + 1
    &&& forall|i: int|
        0 <= i < answers.len() ==> #[trigger] row_answered(proc_root, rows, states, answers, i)
    &&& forall|i: int| 0 <= i < answers.len() - 1 ==> (#[trigger] answers[i]) is Ok
}

/// The error of a process list with a line that is no process ID.
pub open spec fn bad_row() -> error::ErrorModel {
    error::ErrorModel::Io {
        kind: IoErrorKind::InvalidData,
        message: "invalid cgroup.procs pid list"@,
    }
}

/// What a process list resolves into: the first failing answer or bad row ends
/// it with an error; otherwise the best process decides.
pub open spec fn resolved(
    context: V1Context,
    rows: Seq<Seq<char>>,
    answers: Seq<Result<Option<u32>, EngineError>>,
    r: source::SourceAnswer,
) -> bool {
    let n = answers.len();
    if n > 0 && answers[n - 1] is Err {
        r == Err::<Option<ForegroundCandidate>, EngineError>(answers[n - 1]->Err_0)
    } else if n < rows.len() {
        text::parse_i32(rows[n as int]) is None && (r matches Err(e) && e@ == bad_row())
    } else {
        r matches Ok(found) && source::candidate_model(found) == match best_of(
            context,
            rows,
            answers,
        ) {
            Some(best) => Some(best.candidate),
            None => None,
        }
    }
}

/// The process ID that a row states.
pub open spec fn row_pid(rows: Seq<Seq<char>>, i: int) -> i32 {
    text::parse_i32(rows[i])->0 as i32
}

/// Whether a process makes this contender.
pub open spec fn contends(
    context: V1Context,
    rows: Seq<Seq<char>>,
    answers: Seq<Result<Option<u32>, EngineError>>,
    i: int,
    contender: Contender,
) -> bool {
    &&& contender.pid == row_pid(rows, i)
    &&& answers[i] matches Ok(Some(uid)) && context.weighed(contender.pid, uid) == Some(
        (contender.candidate, contender.interface),
    )
}

/// None of the processes beats the winner: an interface process is beaten by
/// interface processes only, an identified one by no unidentified one of its sort,
/// and of two that are alike in both the winner has the higher process ID.
pub proof fn law_best_wins(
    context: V1Context,
    rows: Seq<Seq<char>>,
    answers: Seq<Result<Option<u32>, EngineError>>,
    i: int,
    contender: Contender,
)
    requires
        0 <= i < answers.len(),
        contends(context, rows, answers, i, contender),
    ensures
        best_of(context, rows, answers) matches Some(best) && if contender.interface
            != best.interface {
            best.interface
        } else if contender.candidate.identity_resolved != best.candidate.identity_resolved {
            best.candidate.identity_resolved
        } else {
            best.pid >= contender.pid
        },
    decreases answers.len(),
{
    if i < answers.len() - 1 {
        assert(contends(context, rows, answers.drop_last(), i, contender));
        law_best_wins(context, rows, answers.drop_last(), i, contender);
    }
}

/// The winner is one of the processes.
pub proof fn law_winner_is_a_process(
    context: V1Context,
    rows: Seq<Seq<char>>,
    answers: Seq<Result<Option<u32>, EngineError>>,
)
    ensures
        best_of(context, rows, answers) matches Some(best) ==> exists|i: int|
            0 <= i < answers.len() && #[trigger] contends(context, rows, answers, i, best),
    decreases answers.len(),
{
    if answers.len() > 0 {
        law_winner_is_a_process(context, rows, answers.drop_last());
        if let Some(best) = best_of(context, rows, answers) {
            let last = answers.len() - 1;
            if !contends(context, rows, answers, last, best) {
                let i = choose|i: int|
                    0 <= i < answers.len() - 1 && #[trigger] contends(
                        context,
                        rows,
                        answers.drop_last(),
                        i,
                        best,
                    );
                assert(contends(context, rows, answers, i, best));
            }
        }
    }
}

/// There is a winner exactly if one of the processes is a candidate.
pub proof fn law_winner_iff_candidate(
    context: V1Context,
    rows: Seq<Seq<char>>,
    answers: Seq<Result<Option<u32>, EngineError>>,
)
    ensures
        best_of(context, rows, answers) is Some <==> exists|i: int, contender: Contender|
            0 <= i < answers.len() && #[trigger] contends(context, rows, answers, i, contender),
{
    law_winner_is_a_process(context, rows, answers);
    if exists|i: int, contender: Contender|
        0 <= i < answers.len() && #[trigger] contends(context, rows, answers, i, contender) {
        let (i, contender) = choose|i: int, contender: Contender|
            0 <= i < answers.len() && #[trigger] contends(context, rows, answers, i, contender);
        law_best_wins(context, rows, answers, i, contender);
    }
}

/// What a process makes has a UID that passes the filter, and its package, if it
/// has one, is not blocked. An interface process is always identified.
pub proof fn law_weighed_passes_filter(context: V1Context, pid: i32, uid: u32)
    ensures
        context.weighed(pid, uid) matches Some(found) ==> {
            &&& found.0.pid == Some(pid)
            &&& found.0.uid == Some(uid)
            &&& context.filter.valid_uid(uid)
            &&& found.0.package matches Some(package) ==> !context.filter.blocked_packages.contains(
                package,
            )
            &&& found.0.identity_resolved <==> found.0.package is Some
            &&& found.1 ==> found.0.identity_resolved
        },
{
}

/// If any process of the list is identified, the winner is.
pub proof fn law_identified_wins(
    context: V1Context,
    rows: Seq<Seq<char>>,
    answers: Seq<Result<Option<u32>, EngineError>>,
    i: int,
    contender: Contender,
)
    requires
        0 <= i < answers.len(),
        contends(context, rows, answers, i, contender),
        contender.candidate.identity_resolved,
    ensures
        best_of(context, rows, answers) matches Some(best) && best.candidate.identity_resolved,
{
    law_best_wins(context, rows, answers, i, contender);
    law_winner_is_a_process(context, rows, answers);
    let best = best_of(context, rows, answers)->0;
    let k = choose|k: int|
        0 <= k < answers.len() && #[trigger] contends(context, rows, answers, k, best);
    law_weighed_passes_filter(context, best.pid, answers[k]->Ok_0->0);
}

/// A winner for which there was something to identify it by is identified.
pub proof fn law_winner_is_identified_where_it_can_be(
    context: V1Context,
    rows: Seq<Seq<char>>,
    answers: Seq<Result<Option<u32>, EngineError>>,
)
    ensures
        best_of(context, rows, answers) matches Some(best) ==> context.can_identify(best.pid)
            ==> best.candidate.identity_resolved,
{
    law_winner_is_a_process(context, rows, answers);
}

/// A process whose command line names a blocked package wins only as the package
/// that the cache gives its UID, which is another.
pub proof fn law_blocked_wins_only_by_cache(
    context: V1Context,
    rows: Seq<Seq<char>>,
    answers: Seq<Result<Option<u32>, EngineError>>,
)
    ensures
        best_of(context, rows, answers) matches Some(best) ==> context.cmdlines.contains_key(
            best.pid,
        ) ==> (cmdline_package(context.cmdlines[best.pid]) matches Some(named)
            && context.filter.blocked_packages.contains(named)) ==> {
            &&& context.cache matches Some(cache) && best.candidate.uid matches Some(uid)
                && best.candidate.package matches Some(package) && cache.uid_state(uid)
                == cache::UidStateModel::Exact(package)
            &&& best.candidate.package != cmdline_package(context.cmdlines[best.pid])
        },
{
    law_winner_is_a_process(context, rows, answers);
}

/// Whether every process of a list stands in another with the same answer.
pub open spec fn covered_by(
    rows: Seq<Seq<char>>,
    answers: Seq<Result<Option<u32>, EngineError>>,
    other_rows: Seq<Seq<char>>,
    other_answers: Seq<Result<Option<u32>, EngineError>>,
) -> bool {
    forall|i: int|
        0 <= i < answers.len() ==> #[trigger] stands_in(rows, answers, i, other_rows, other_answers)
}

/// Whether a process of a list stands in another with the same answer.
pub open spec fn stands_in(
    rows: Seq<Seq<char>>,
    answers: Seq<Result<Option<u32>, EngineError>>,
    i: int,
    other_rows: Seq<Seq<char>>,
    other_answers: Seq<Result<Option<u32>, EngineError>>,
) -> bool {
    exists|k: int|
        0 <= k < other_answers.len() && #[trigger] row_pid(other_rows, k) == row_pid(rows, i)
            && other_answers[k] == answers[i]
}

/// Whether the answers of a list are about processes alone: of one process there is
/// one answer.
pub open spec fn one_answer_each(
    rows: Seq<Seq<char>>,
    answers: Seq<Result<Option<u32>, EngineError>>,
) -> bool {
    forall|i: int, k: int|
        0 <= i < answers.len() && 0 <= k < answers.len() && #[trigger] row_pid(rows, i)
            == #[trigger] row_pid(rows, k) ==> answers[i] == answers[k]
}

proof fn lemma_covered_best(
    context: V1Context,
    rows: Seq<Seq<char>>,
    answers: Seq<Result<Option<u32>, EngineError>>,
    other_rows: Seq<Seq<char>>,
    other_answers: Seq<Result<Option<u32>, EngineError>>,
)
    requires
        covered_by(rows, answers, other_rows, other_answers),
    ensures
        best_of(context, rows, answers) matches Some(best) ==> exists|k: int|
            0 <= k < other_answers.len() && #[trigger] contends(
                context,
                other_rows,
                other_answers,
                k,
                best,
            ),
{
    law_winner_is_a_process(context, rows, answers);
    if let Some(best) = best_of(context, rows, answers) {
        let i = choose|i: int|
            0 <= i < answers.len() && #[trigger] contends(context, rows, answers, i, best);
        assert(stands_in(rows, answers, i, other_rows, other_answers));
        let k = choose|k: int|
            0 <= k < other_answers.len() && #[trigger] row_pid(other_rows, k) == row_pid(rows, i)
                && other_answers[k] == answers[i];
        assert(contends(context, other_rows, other_answers, k, best));
    }
}

/// The order of a process list, and how often a process stands in it, make no
/// difference to the winner.
pub proof fn law_order_makes_no_difference(
    context: V1Context,
    rows: Seq<Seq<char>>,
    answers: Seq<Result<Option<u32>, EngineError>>,
    other_rows: Seq<Seq<char>>,
    other_answers: Seq<Result<Option<u32>, EngineError>>,
)
    requires
        covered_by(rows, answers, other_rows, other_answers),
        covered_by(other_rows, other_answers, rows, answers),
        one_answer_each(rows, answers),
    ensures
        best_of(context, rows, answers) == best_of(context, other_rows, other_answers),
{
    lemma_covered_best(context, rows, answers, other_rows, other_answers);
    lemma_covered_best(context, other_rows, other_answers, rows, answers);
    law_winner_is_a_process(context, rows, answers);
    if let Some(best) = best_of(context, rows, answers) {
        let k = choose|k: int|
            0 <= k < other_answers.len() && #[trigger] contends(
                context,
                other_rows,
                other_answers,
                k,
                best,
            );
        law_best_wins(context, other_rows, other_answers, k, best);
    }
    if let Some(other) = best_of(context, other_rows, other_answers) {
        let k = choose|k: int|
            0 <= k < answers.len() && #[trigger] contends(context, rows, answers, k, other);
        law_best_wins(context, rows, answers, k, other);
        let best = best_of(context, rows, answers)->0;
        let i = choose|i: int|
            0 <= i < answers.len() && #[trigger] contends(context, rows, answers, i, best);
        assert(row_pid(rows, i) == row_pid(rows, k));
    }
}

/// The foreground application by the processes of the top cpuset.
#[derive(Debug)]
pub struct CgroupV1CpusetSource<R> {
    cgroup_procs_path: EnginePath,
    proc_root: EnginePath,
    pub filter: ForegroundCandidateFilter,
    watch_hint_paths: Vec<EnginePath>,
    resolver: R,
    package_cache: Option<UidPackageCache>,
    payload_cache: V1PayloadCache,
    last_candidate: Option<ForegroundCandidate>,
}

/// The model of the source but for its resolver.
pub struct V1Model {
    pub cgroup_procs_path: Seq<u8>,
    pub proc_root: Seq<u8>,
    pub filter: source::FilterModel,
    pub hints: Seq<Seq<u8>>,
    pub cache: Option<cache::CacheModel>,
    pub payload: Option<Seq<u8>>,
    pub last_candidate: Option<source::CandidateModel>,
}

impl<R> View for CgroupV1CpusetSource<R> {
    type V = V1Model;

    closed spec fn view(&self) -> V1Model {
        V1Model {
            cgroup_procs_path: self.cgroup_procs_path@,
            proc_root: self.proc_root@,
            filter: self.filter@,
            hints: source::path_models(self.watch_hint_paths@),
            cache: source::cache_model(self.package_cache),
            payload: self.payload_cache@,
            last_candidate: source::candidate_model(self.last_candidate),
        }
    }
}

impl<R: Clone> Clone for CgroupV1CpusetSource<R> {
    fn clone(&self) -> (r: Self)
        ensures
            r@ == self@,
            cloned::<R>(self.asks(), r.asks()),
    {
        CgroupV1CpusetSource {
            cgroup_procs_path: self.cgroup_procs_path.clone(),
            proc_root: self.proc_root.clone(),
            filter: self.filter.clone(),
            watch_hint_paths: source::copy_paths(&self.watch_hint_paths),
            resolver: self.resolver.clone(),
            package_cache: match &self.package_cache {
                Some(cache) => Some(cache.clone()),
                None => None,
            },
            payload_cache: self.payload_cache.clone(),
            last_candidate: match &self.last_candidate {
                Some(candidate) => Some(candidate.clone()),
                None => None,
            },
        }
    }
}

impl<R> CgroupV1CpusetSource<R> {
    /// The resolver.
    pub closed spec fn asks(&self) -> R {
        self.resolver
    }

    /// A source that reads process IDs at a path and asks a resolver about them.
    pub fn with_resolver(
        cgroup_procs_path: EnginePath,
        proc_root: EnginePath,
        filter: ForegroundCandidateFilter,
        resolver: R,
    ) -> (r: Self)
        ensures
            r.asks() == resolver,
            r@ == (V1Model {
                cgroup_procs_path: cgroup_procs_path@,
                proc_root: proc_root@,
                filter: filter@,
                hints: seq![cgroup_procs_path@],
                cache: None,
                payload: None,
                last_candidate: None,
            }),
    {
        let mut watch_hint_paths: Vec<EnginePath> = Vec::new();
        watch_hint_paths.push(cgroup_procs_path.clone());
        assert(source::path_models(watch_hint_paths@) =~= seq![cgroup_procs_path@]);
        CgroupV1CpusetSource {
            cgroup_procs_path,
            proc_root,
            filter,
            watch_hint_paths,
            resolver,
            package_cache: None,
            payload_cache: V1PayloadCache::default(),
            last_candidate: None,
        }
    }

    /// The path of the process list.
    pub fn cgroup_procs_path(&self) -> (r: &EnginePath)
        ensures
            r@ == self@.cgroup_procs_path,
    {
        &self.cgroup_procs_path
    }

    /// Where processes are looked up.
    pub fn proc_root(&self) -> (r: &EnginePath)
        ensures
            r@ == self@.proc_root,
    {
        &self.proc_root
    }

    /// The paths to watch: that of the process list.
    pub fn watch_hint_paths(&self) -> (r: &Vec<EnginePath>)
        ensures
            source::path_models(r@) == self@.hints,
    {
        &self.watch_hint_paths
    }

    /// The kind of the source.
    pub fn kind(&self) -> (r: ForegroundSourceKind)
        ensures
            r == ForegroundSourceKind::CgroupV1,
    {
        ForegroundSourceKind::CgroupV1
    }

    /// The source with a package cache.
    pub fn with_package_cache(self, package_cache: UidPackageCache) -> (r: Self)
        ensures
            r.asks() == self.asks(),
            r@ == (V1Model { cache: Some(package_cache@), ..self@ }),
    {
        let mut this = self;
        this.package_cache = Some(package_cache);
        this
    }

    /// Gives the source a package cache.
    pub fn set_package_cache(&mut self, package_cache: UidPackageCache)
        ensures
            final(self).asks() == old(self).asks(),
            final(self)@ == (V1Model { cache: Some(package_cache@), ..old(self)@ }),
    {
        self.package_cache = Some(package_cache);
    }

    /// Which UIDs and packages can be in the foreground.
    pub fn filter(&self) -> (r: &ForegroundCandidateFilter)
        ensures
            r@ == self@.filter,
    {
        &self.filter
    }

    /// Gives the source another filter.
    pub fn set_filter(&mut self, filter: ForegroundCandidateFilter)
        ensures
            final(self).asks() == old(self).asks(),
            final(self)@ == (V1Model { filter: filter@, ..old(self)@ }),
    {
        self.filter = filter;
    }

    /// Blocks a UID.
    pub fn block_uid(&mut self, uid: u32)
        ensures
            final(self).asks() == old(self).asks(),
            final(self)@ == (V1Model {
                filter: source::FilterModel {
                    blocked_uids: old(self)@.filter.blocked_uids.insert(uid),
                    ..old(self)@.filter
                },
                ..old(self)@
            }),
    {
        let _ = self.filter.blocked_uids.insert(uid);
    }

    /// What processes are judged by, with the given command lines.
    pub open spec fn context(&self, cmdlines: Map<i32, String>) -> V1Context {
        V1Context {
            filter: self@.filter,
            cache: self@.cache,
            cmdlines: cmdlines.map_values(|s: String| s@),
        }
    }

    fn cache_uid_has_package(&self, uid: u32, package: &String) -> (r: bool)
        ensures
            r == has_package(self@.cache, uid, package@),
    {
        match &self.package_cache {
            None => false,
            Some(cache) => match cache.uid_state(uid) {
                UidPackageState::Exact(cached) => cached == *package,
                UidPackageState::Ambiguous(packages) => lists_package(&packages, package),
                UidPackageState::Missing => false,
            },
        }
    }

    fn cmdline_info_for_pid(
        &self,
        pid: i32,
        uid: u32,
        cmdlines: &BTreeMap<i32, String>,
    ) -> (r: Option<(ForegroundCandidate, bool)>)
        ensures
            match r {
                Some(found) => self.context(cmdlines@).named(pid, uid) == Some(
                    (found.0@, found.1),
                ),
                None => self.context(cmdlines@).named(pid, uid) is None,
            },
    {
        if !self.filter.is_valid_uid(uid) {
            return None;
        }
        let cmdline = match cmdlines.get(&pid) {
            Some(cmdline) => text::chars_of(cmdline.as_str()),
            None => {
                return None;
            },
        };
        assert(self.context(cmdlines@).cmdlines[pid] == cmdline@);
        let is_ui = text::contains(&cmdline, ":") && !text::contains(&cmdline, "remote")
            && !text::contains(&cmdline, "service");
        let package = match package_from_proc_cmdline(&cmdline) {
            Some(package) => text::string_of(&package),
            None => {
                return None;
            },
        };
        if self.filter.blocked_packages.contains(&package) {
            return None;
        }
        match &self.package_cache {
            Some(cache) => {
                if uid >= FIRST_APP_UID {
                    match cache.uid_state(uid) {
                        UidPackageState::Exact(cached) => {
                            if cached != package {
                                return None;
                            }
                        },
                        UidPackageState::Ambiguous(packages) => {
                            if !lists_package(&packages, &package) {
                                return None;
                            }
                        },
                        UidPackageState::Missing => {},
                    }
                }
            },
            None => {},
        }
        Some(
            (
                ForegroundCandidate {
                    source: ForegroundSourceKind::CgroupV1,
                    pid: Some(pid),
                    uid: Some(uid),
                    package: Some(package),
                    identity_resolved: true,
                },
                is_ui,
            ),
        )
    }

    fn termux_process_has_non_package_cmdline(
        &self,
        pid: i32,
        uid: u32,
        cmdlines: &BTreeMap<i32, String>,
    ) -> (r: bool)
        ensures
            r == self.context(cmdlines@).terminal_child(pid, uid),
    {
        if !self.cache_uid_has_package(uid, &"com.termux".to_owned()) {
            return false;
        }
        let cmdline = match cmdlines.get(&pid) {
            Some(cmdline) => text::chars_of(cmdline.as_str()),
            None => {
                return false;
            },
        };
        assert(self.context(cmdlines@).cmdlines[pid] == cmdline@);
        let words = text::words_of(&cmdline);
        assert(text::words(cmdline@).len() == words.len());
        if words.len() == 0 {
            return false;
        }
        assert(text::words(cmdline@)[0] == words@[0]@);
        words[0].len() > 0 && package_from_proc_cmdline(&cmdline).is_none()
    }

    fn weigh(&self, pid: i32, uid: u32, cmdlines: &BTreeMap<i32, String>) -> (r: Option<
        (ForegroundCandidate, bool),
    >)
        ensures
            match r {
                Some(found) => self.context(cmdlines@).weighed(pid, uid) == Some(
                    (found.0@, found.1),
                ),
                None => self.context(cmdlines@).weighed(pid, uid) is None,
            },
    {
        match self.cmdline_info_for_pid(pid, uid, cmdlines) {
            Some(found) => Some(found),
            None => {
                if self.termux_process_has_non_package_cmdline(pid, uid, cmdlines) {
                    return None;
                }
                let cache = match &self.package_cache {
                    Some(cache) => Some(cache),
                    None => None,
                };
                match self.filter.candidate_for_uid(
                    ForegroundSourceKind::CgroupV1,
                    Some(pid),
                    uid,
                    cache,
                ) {
                    Some(candidate) => {
                        if candidate.identity_resolved || !(self.package_cache.is_some()
                            || cmdlines.contains_key(&pid)) {
                            Some((candidate, false))
                        } else {
                            None
                        }
                    },
                    None => None,
                }
            },
        }
    }
}

/// The rows of a process list.
fn rows_of(lines: &Vec<Vec<char>>) -> (r: Vec<Vec<char>>)
    ensures
        text::texts(r@) == rows(text::texts(lines@)),
{
    let ghost all = text::texts(lines@);
    let mut r: Vec<Vec<char>> = Vec::new();
    let mut i: usize = lines.len();
    assert(all.skip(i as int) == Seq::<Seq<char>>::empty());
    assert(text::texts(r@) =~= rows(all.skip(i as int)));
    while i > 0
        invariant
            i <= lines.len(),
            all == text::texts(lines@),
            text::texts(r@) == rows(all.skip(i as int)),
        decreases i,
    {
        let row = text::trim_of(&lines[i - 1]);
        proof {
            assert(all.skip(i - 1).drop_first() == all.skip(i as int));
            assert(all.skip(i - 1).first() == lines@[i - 1]@);
        }
        if row.len() > 0 {
            let ghost was = r@;
            let ghost text = row@;
            r.push(row);
            assert(text::texts(r@) =~= text::texts(was).push(text));
        }
        i -= 1;
    }
    assert(all.skip(0) == all);
    r
}

/// The process IDs of a process list, for which command lines are needed.
pub fn payload_pids(payload: &[u8]) -> (r: Vec<i32>)
    ensures
        r@ == resolver::pids_of(text::lines(path::text_in(payload@))),
{
    let content = path::read_text(payload);
    let lines = text::lines_of(&text::chars_of(content.as_str()));
    let ghost all = text::lines(content@);
    let mut r: Vec<i32> = Vec::new();
    let mut i: usize = 0;
    assert(all.take(0) == Seq::<Seq<char>>::empty());
    while i < lines.len()
        invariant
            i <= lines.len(),
            all == text::texts(lines@),
            r@ == resolver::pids_of(all.take(i as int)),
        decreases lines.len() - i,
    {
        proof {
            assert(all[i as int] == lines@[i as int]@);
            assert(all.take(i + 1).drop_last() == all.take(i as int));
            assert(all.take(i + 1).last() == lines@[i as int]@);
        }
        match text::read_i32(&text::trim_of(&lines[i])) {
            Some(pid) => {
                r.push(pid);
            },
            None => {},
        }
        i += 1;
    }
    assert(all.take(i as int) == all);
    r
}

impl<R: PidUidResolver> CgroupV1CpusetSource<R> {
    /// Whether a process list resolves so, and what becomes of the source.
    pub open spec fn resolves_text(
        pre: Self,
        content: Seq<char>,
        cmdlines: Map<i32, String>,
        post: Self,
        r: source::SourceAnswer,
    ) -> bool {
        exists|states: Seq<R>, answers: Seq<Result<Option<u32>, EngineError>>|
            {
                &&& #[trigger] rows_answered(
                    pre@.proc_root,
                    rows(text::lines(content)),
                    states,
                    answers,
                )
                &&& states.first() == pre.asks()
                &&& states.last() == post.asks()
                &&& resolved(pre.context(cmdlines), rows(text::lines(content)), answers, r)
                &&& post@ == match r {
                    Ok(found) => V1Model {
                        last_candidate: source::candidate_model(found),
                        ..pre@
                    },
                    Err(_) => pre@,
                }
            }
    }

    /// Resolves the text of a process list.
    pub fn resolve_text(&mut self, content: &str, cmdlines: &BTreeMap<i32, String>) -> (r: Result<
        Option<ForegroundCandidate>,
        EngineError,
    >)
        ensures
            Self::resolves_text(*old(self), content@, cmdlines@, *final(self), r),
    {
        let lines = text::lines_of(&text::chars_of(content));
        let list = rows_of(&lines);
        let ghost rows = rows(text::lines(content@));
        let ghost pre = *self;
        let ghost context = self.context(cmdlines@);
        let ghost mut states: Seq<R> = seq![self.resolver];
        let ghost mut answers: Seq<Result<Option<u32>, EngineError>> = Seq::empty();
        let mut best: Option<(i32, ForegroundCandidate, bool)> = None;
        let mut i: usize = 0;
        while i < list.len()
            invariant
                i <= list.len(),
                rows == text::texts(list@),
                rows == crate::services::foreground::cgroup_v1::rows(text::lines(content@)),
                *old(self) == pre,
                context == pre.context(cmdlines@),
                self@ == pre@,
                answers.len() == i,
                rows_answered(pre@.proc_root, rows, states, answers),
                forall|k: int| 0 <= k < i ==> (#[trigger] answers[k]) is Ok,
                states.first() == pre.asks(),
                states.last() == self.asks(),
                match best {
                    Some((pid, candidate, interface)) => best_of(context, rows, answers) == Some(
                        Contender { pid, candidate: candidate@, interface },
                    ),
                    None => best_of(context, rows, answers) is None,
                },
            decreases list.len() - i,
        {
            assert(rows[i as int] == list@[i as int]@);
            let pid: i32 = match text::read_i32(&list[i]) {
                Some(pid) => pid,
                None => {
                    let r: Result<Option<ForegroundCandidate>, EngineError> = Err(
                        EngineError::io(IoErrorKind::InvalidData, "invalid cgroup.procs pid list"),
                    );
                    assert(resolved(context, rows, answers, r));
                    return r;
                },
            };
            let ghost asked = *self;
            let answer = self.resolver.uid_for_pid(&self.proc_root, pid);
            let ghost were = answers;
            let ghost stood = states;
            proof {
                answers = answers.push(answer);
                states = states.push(self.resolver);
                assert(answers.drop_last() == were);
                assert forall|k: int| 0 <= k < answers.len() implies #[trigger] row_answered(
                    pre@.proc_root,
                    rows,
                    states,
                    answers,
                    k,
                ) by {
                    if k < i {
                        assert(row_answered(pre@.proc_root, rows, stood, were, k));
                        assert(answers[k] == were[k]);
                        assert(states[k] == stood[k] && states[k + 1] == stood[k + 1]);
                    } else {
                        assert(states[k] == stood.last());
                    }
                }
                assert forall|k: int| 0 <= k < answers.len() - 1 implies (#[trigger] answers[k])
                    is Ok by {
                    assert(answers[k] == were[k]);
                }
                assert(rows.len() == list@.len());
                assert(rows_answered(pre@.proc_root, rows, states, answers));
                assert(states.first() == stood.first());
            }
            match answer {
                Err(e) => {
                    let r: Result<Option<ForegroundCandidate>, EngineError> = Err(e);
                    assert(resolved(context, rows, answers, r));
                    return r;
                },
                Ok(None) => {},
                Ok(Some(uid)) => {
                    match self.weigh(pid, uid, cmdlines) {
                        None => {},
                        Some((candidate, interface)) => {
                            let better = match &best {
                                None => true,
                                Some((best_pid, best_candidate, best_interface)) => {
                                    if interface != *best_interface {
                                        interface
                                    } else if candidate.identity_resolved
                                        != best_candidate.identity_resolved {
                                        candidate.identity_resolved
                                    } else {
                                        pid > *best_pid
                                    }
                                },
                            };
                            if better {
                                best = Some((pid, candidate, interface));
                            }
                        },
                    }
                },
            }
            i += 1;
        }
        match best {
            Some((_, candidate, _)) => {
                self.last_candidate = Some(candidate.clone());
                let r: Result<Option<ForegroundCandidate>, EngineError> = Ok(Some(candidate));
                assert(resolved(context, rows, answers, r));
                r
            },
            None => {
                self.last_candidate = None;
                let r: Result<Option<ForegroundCandidate>, EngineError> = Ok(None);
                assert(resolved(context, rows, answers, r));
                r
            },
        }
    }

    /// Resolves the bytes of a process list, read as text with what is not UTF-8
    /// replaced.
    pub fn resolve_payload(&mut self, payload: &Vec<u8>, cmdlines: &BTreeMap<i32, String>) -> (r:
        Result<Option<ForegroundCandidate>, EngineError>)
        ensures
            Self::resolves_text(
                *old(self),
                path::text_in(payload@),
                cmdlines@,
                *final(self),
                r,
            ),
    {
        let content = path::read_text(payload.as_slice());
        self.resolve_text(content.as_str(), cmdlines)
    }

    /// Whether a reading of the process list is answered so, and what becomes of
    /// the source: the payload is remembered before it is resolved.
    pub open spec fn reads(
        pre: Self,
        read: Result<Vec<u8>, EngineError>,
        cmdlines: Map<i32, String>,
        post: Self,
        r: source::SourceAnswer,
    ) -> bool {
        match read {
            Err(e) => post@ == pre@ && post.asks() == pre.asks() && r == Err::<
                Option<ForegroundCandidate>,
                EngineError,
            >(e),
            Ok(payload) => exists|mid: Self|
                {
                    &&& mid@ == (V1Model { payload: Some(payload@), ..pre@ })
                    &&& mid.asks() == pre.asks()
                    &&& #[trigger] Self::resolves_text(
                        mid,
                        path::text_in(payload@),
                        cmdlines,
                        post,
                        r,
                    )
                },
        }
    }

    /// What is in the foreground by a reading of the process list.
    pub fn poll_current(
        &mut self,
        read: Result<Vec<u8>, EngineError>,
        cmdlines: &BTreeMap<i32, String>,
    ) -> (r: Result<Option<ForegroundCandidate>, EngineError>)
        ensures
            Self::reads(*old(self), read, cmdlines@, *final(self), r),
    {
        match self.payload_cache.read_initial(read) {
            Err(e) => Err(e),
            Ok(payload) => {
                let ghost mid = *self;
                let r = self.resolve_payload(&payload, cmdlines);
                assert(Self::resolves_text(mid, path::text_in(payload@), cmdlines@, *self, r));
                r
            },
        }
    }

    /// What is in the foreground after an event: an event at another path than
    /// that of the process list says nothing, and leaves the reading unused.
    pub fn handle_fs_event(
        &mut self,
        event_path: &EnginePath,
        read: Result<Vec<u8>, EngineError>,
        cmdlines: &BTreeMap<i32, String>,
    ) -> (r: Result<Option<ForegroundCandidate>, EngineError>)
        ensures
            if event_path.comps() == path::components(old(self)@.cgroup_procs_path) {
                Self::reads(*old(self), read, cmdlines@, *final(self), r)
            } else {
                *final(self) == *old(self) && r == Ok::<Option<ForegroundCandidate>, EngineError>(
                    None,
                )
            },
    {
        if !event_path.same_as(&self.cgroup_procs_path) {
            return Ok(None);
        }
        match self.payload_cache.read_changed(read) {
            Err(e) => Err(e),
            Ok(changed) => {
                let payload: Vec<u8> = match changed {
                    Some(payload) => payload,
                    None => match self.payload_cache.last() {
                        Some(last) => path::copy_bytes(last),
                        None => Vec::new(),
                    },
                };
                let ghost mid = *self;
                let r = self.resolve_payload(&payload, cmdlines);
                assert(Self::resolves_text(mid, path::text_in(payload@), cmdlines@, *self, r));
                r
            },
        }
    }
}

} // verus!

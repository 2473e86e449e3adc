//! What is reported of processes and UIDs, and when the cache is loaded anew.
use vstd::prelude::*;

use crate::error::{EngineError, IoErrorKind};
use crate::services::foreground::cache::PackageUidProvider;
use crate::services::foreground::resolver::{
    PackageFileStat, PackageFileStatProvider, ReportModel, ResolverModel,
};
use crate::{error, services::foreground::cache, services::foreground::resolver, text, text_laws};

verus! {

// ---------------------------------------------------------------------------
// Verdicts
// ---------------------------------------------------------------------------

/// The packages that a cache lists under a UID.
pub open spec fn listed(known: cache::CacheModel, uid: u32) -> Seq<Seq<char>> {
    if known.packages.contains_key(uid) {
        known.packages[uid]
    } else {
        Seq::empty()
    }
}

/// Whether a UID is one of applications: its remainder is large enough.
pub open spec fn app_uid(state: ResolverModel, uid: u32) -> bool {
    state.app_uid_filter.modulus > 0 && uid as int % state.app_uid_filter.modulus as int
        >= state.app_uid_filter.min_app_id
}

/// The package that a UID resolves into: the one package under it, if the UID is
/// an application's and no accessibility service's and the package is not blocked.
pub open spec fn resolvable(state: ResolverModel, uid: u32) -> Option<Seq<char>> {
    if app_uid(state, uid) && !state.accessibility_uids.contains(uid) && listed(
        state.cache,
        uid,
    ).len() == 1 && !state.blocked_packages.contains(listed(state.cache, uid)[0]) {
        Some(listed(state.cache, uid)[0])
    } else {
        None
    }
}

/// The package that a process resolves into, by what was answered for its UID.
pub open spec fn answer_resolves(
    state: ResolverModel,
    answer: Result<Option<u32>, EngineError>,
) -> Option<Seq<char>> {
    match answer {
        Ok(Some(uid)) => resolvable(state, uid),
        _ => None,
    }
}

/// A process resolves into the package of its UID; one whose UID is not known, or
/// could not be asked for, does not resolve.
pub proof fn law_process_resolves_by_uid(
    state: ResolverModel,
    pid: i32,
    answer: Result<Option<u32>, EngineError>,
)
    ensures
        resolver::v1_verdict(state, pid, answer).1 == answer_resolves(state, answer),
{
}

/// A populated UID resolves into its package, and is reported on in one line.
pub proof fn law_uid_resolves(state: ResolverModel, uid: u32)
    ensures
        resolver::v2_report(state, uid).package == resolvable(state, uid),
        resolver::v2_report(state, uid).lines.len() == 1,
{
}

/// The first process of a list that resolves decides: its package is reported and
/// none is asked about after it. There is one line for each process that was asked
/// about.
pub proof fn law_first_resolving_process_decides(
    state: ResolverModel,
    pids: Seq<i32>,
    answers: Seq<Result<Option<u32>, EngineError>>,
    report: ReportModel,
    i: int,
)
    requires
        resolver::v1_reported(state, pids, answers, report),
        0 <= i < answers.len(),
        answer_resolves(state, answers[i]) is Some,
    ensures
        i == answers.len() - 1,
        report.package == answer_resolves(state, answers[i]),
        report.lines.len() == answers.len(),
{
    law_process_resolves_by_uid(state, pids[i], answers[i]);
    if i < answers.len() - 1 {
        assert(resolver::v1_verdict(state, pids[i], answers[i]).1 is None);
    }
}

/// If no process that was asked about resolves, all of the list were asked about, no
/// package is reported, and the report ends with a line for that.
pub proof fn law_no_resolving_process_is_unknown(
    state: ResolverModel,
    pids: Seq<i32>,
    answers: Seq<Result<Option<u32>, EngineError>>,
    report: ReportModel,
)
    requires
        resolver::v1_reported(state, pids, answers, report),
        forall|i: int|
            0 <= i < answers.len() ==> answer_resolves(state, #[trigger] answers[i]) is None,
    ensures
        answers.len() == pids.len(),
        report.package is None,
        report.lines.len() == answers.len() + 1,
        report.lines.last() == "source=v1 reason=unknown"@,
{
    let n = answers.len();
    if n > 0 {
        law_process_resolves_by_uid(state, pids[n - 1], answers[n - 1]);
        assert(answer_resolves(state, answers[n - 1]) is None);
    }
}

/// The line on a process says what became of it: that its UID is not known, is no
/// application's or is an accessibility service's, that no package or several have
/// it, that its package is blocked, or that it resolved.
pub proof fn law_line_tells_reason(
    state: ResolverModel,
    pids: Seq<i32>,
    answers: Seq<Result<Option<u32>, EngineError>>,
    report: ReportModel,
    i: int,
)
    requires
        resolver::v1_reported(state, pids, answers, report),
        0 <= i < answers.len(),
    ensures
        ({
            let pid = text::signed_decimal(pids[i] as int);
            match answers[i] {
                Ok(Some(uid)) => {
                    let number = text::decimal(uid as nat);
                    let packages = listed(state.cache, uid);
                    report.lines[i] == if !app_uid(state, uid) {
                        "source=v1 uid="@ + number + " reason=skipped_non_app"@
                    } else if state.accessibility_uids.contains(uid) {
                        "source=v1 uid="@ + number + " reason=skipped_accessibility"@
                    } else if packages.len() == 0 {
                        "source=v1 pid="@ + pid + " uid="@ + number + " reason=unmapped"@
                    } else if packages.len() > 1 {
                        "source=v1 uid="@ + number + " package_count="@ + text::decimal(
                            packages.len(),
                        ) + " reason=ambiguous"@
                    } else if state.blocked_packages.contains(packages[0]) {
                        "source=v1 package="@ + packages[0] + " reason=blocked"@
                    } else {
                        "source=v1 pid="@ + pid + " uid="@ + number + " package="@ + packages[0]
                            + " reason=resolved"@
                    }
                },
                _ => report.lines[i] == "source=v1 pid="@ + pid + " reason=pid_uid_failed"@,
            }
        }),
{
}

/// The line on a populated UID says likewise what became of it.
pub proof fn law_uid_line_tells_reason(state: ResolverModel, uid: u32)
    ensures
        ({
            let number = text::decimal(uid as nat);
            let packages = listed(state.cache, uid);
            resolver::v2_report(state, uid).lines[0] == if !app_uid(state, uid) {
                "source=v2 uid="@ + number + " reason=skipped_non_app"@
            } else if state.accessibility_uids.contains(uid) {
                "source=v2 uid="@ + number + " reason=skipped_accessibility"@
            } else if packages.len() == 0 {
                "source=v2 uid="@ + number + " reason=unmapped"@
            } else if packages.len() > 1 {
                "source=v2 uid="@ + number + " package_count="@ + text::decimal(packages.len())
                    + " reason=ambiguous"@
            } else if state.blocked_packages.contains(packages[0]) {
                "source=v2 package="@ + packages[0] + " reason=blocked"@
            } else {
                "source=v2 uid="@ + number + " package="@ + packages[0] + " reason=resolved"@
            }
        }),
{
}

// ---------------------------------------------------------------------------
// Process lists
// ---------------------------------------------------------------------------

proof fn lemma_first_pid(first: Seq<char>, lines: Seq<Seq<char>>)
    ensures
        resolver::pids_of(seq![first] + lines) == (match text::parse_i32(text::trim(first)) {
            Some(pid) => seq![pid as i32],
            None => Seq::empty(),
        }) + resolver::pids_of(lines),
    decreases lines.len(),
{
    let all = seq![first] + lines;
    let head = match text::parse_i32(text::trim(first)) {
        Some(pid) => seq![pid as i32],
        None => Seq::empty(),
    };
    if lines.len() == 0 {
        assert(all.drop_last() =~= Seq::<Seq<char>>::empty());
        assert(all.last() == first);
        assert(resolver::pids_of(all.drop_last()) =~= Seq::<i32>::empty());
        assert(resolver::pids_of(all) =~= head + resolver::pids_of(lines));
    } else {
        lemma_first_pid(first, lines.drop_last());
        assert(all.drop_last() =~= seq![first] + lines.drop_last());
        assert(all.last() == lines.last());
        assert(resolver::pids_of(all) =~= head + resolver::pids_of(lines));
    }
}

proof fn lemma_signed_is_solid(n: int)
    ensures
        text_laws::solid(text::signed_decimal(n)),
        text::signed_decimal(n).len() > 0,
{
    let m = if n < 0 {
        (-n) as nat
    } else {
        n as nat
    };
    text::lemma_decimal(m);
    let s = text::signed_decimal(n);
    let digits = text::decimal(m);
    assert forall|i: int| 0 <= i < s.len() implies !text::white_space(#[trigger] s[i]) by {
        if n >= 0 {
            assert(text::digit(digits[i]));
        } else if i > 0 {
            assert(s[i] == digits[i - 1]);
            assert(text::digit(digits[i - 1]));
        }
    }
}

/// A line with a process ID, and white space on either side of it, puts that process
/// before those of the lines after it.
pub proof fn law_process_ids_in_order(
    before: Seq<char>,
    pid: i32,
    after: Seq<char>,
    rest: Seq<char>,
)
    requires
        text_laws::blank(before),
        text_laws::blank(after),
        text_laws::lacks(before, '\n'),
        text_laws::lacks(after, '\n'),
        after.len() == 0 || after.last() != '\r',
    ensures
        resolver::pids_of(
            text::lines(
                before + text::signed_decimal(pid as int) + after + seq!['\n'] + rest,
            ),
        ) == seq![pid] + resolver::pids_of(text::lines(rest)),
{
    let number = text::signed_decimal(pid as int);
    lemma_signed_is_solid(pid as int);
    let line = before + number + after;
    assert forall|i: int| 0 <= i < line.len() implies #[trigger] line[i] != '\n' by {
        if i < before.len() {
            assert(line[i] == before[i]);
        } else if i < before.len() + number.len() {
            assert(line[i] == number[i - before.len()]);
        } else {
            assert(line[i] == after[i - before.len() - number.len()]);
        }
    }
    if after.len() == 0 {
        assert(line.last() == number[number.len() - 1]);
    } else {
        assert(line.last() == after.last());
    }
    text_laws::law_first_line(line, rest);
    text_laws::law_trim_takes_space_off(before, number, after);
    text_laws::law_signed_reads_back(pid as int);
    lemma_first_pid(line, text::lines(rest));
}

/// A line that is no process ID is passed over.
pub proof fn law_other_lines_are_passed_over(line: Seq<char>, rest: Seq<char>)
    requires
        text_laws::lacks(line, '\n'),
        line.len() == 0 || line.last() != '\r',
        text::parse_i32(text::trim(line)) is None,
    ensures
        resolver::pids_of(text::lines(line + seq!['\n'] + rest)) == resolver::pids_of(
            text::lines(rest),
        ),
{
    text_laws::law_first_line(line, rest);
    lemma_first_pid(line, text::lines(rest));
    assert(Seq::<i32>::empty() + resolver::pids_of(text::lines(rest)) =~= resolver::pids_of(
        text::lines(rest),
    ));
}

// ---------------------------------------------------------------------------
// Reports in a row
// ---------------------------------------------------------------------------

/// A report that follows another keeps the package of the later one and the lines
/// of both, in order, with the remark between them.
pub proof fn law_reports_follow(first: ReportModel, remark: Seq<char>, second: ReportModel)
    ensures
        resolver::followed_by(first, remark, second).package == second.package,
        resolver::followed_by(first, remark, second).lines == first.lines + seq![remark]
            + second.lines,
{
    assert(first.lines.push(remark) + second.lines =~= first.lines + seq![remark] + second.lines);
}

/// A source that cannot tell, or is not there, reports no package, in one line.
pub proof fn law_reports_without_package(source: Seq<char>)
    ensures
        ReportModel::unknown(source).package is None,
        ReportModel::unknown(source).lines == seq!["source="@ + source + " reason=unknown"@],
        ReportModel::unavailable(source).package is None,
        ReportModel::unavailable(source).lines == seq![
            "source="@ + source + " reason=unavailable"@,
        ],
{
}

// ---------------------------------------------------------------------------
// The marker file
// ---------------------------------------------------------------------------

/// A change of the foreground that the interval does not name is counted, and
/// nothing else happens: the marker file is not looked at and nothing is said.
pub proof fn law_no_look_between_intervals<P: PackageUidProvider, S: PackageFileStatProvider>(
    pre: ResolverModel,
    provider: P,
    statter: S,
    marker_path: Seq<u8>,
    interval: u64,
    post: ResolverModel,
    statter_after: S,
    r: Result<Option<String>, EngineError>,
)
    requires
        pre.foreground_changes < u64::MAX,
        resolver::stepped(
            pre,
            provider,
            statter,
            marker_path,
            interval,
            post,
            statter_after,
            r,
        ),
        interval == 0 || (pre.foreground_changes + 1) % interval as int != 0,
    ensures
        post.foreground_changes == pre.foreground_changes + 1,
        post.cache == pre.cache,
        post.cache_rebuilds == pre.cache_rebuilds,
        post.marker == pre.marker,
        statter_after == statter,
        r == Ok::<Option<String>, EngineError>(None),
{
}

/// At a change that the interval names, what the look at the marker file finds
/// decides. A look that fails keeps everything and says why. A first look, and one
/// that finds the file as it was, keep the cache. One that finds another time or
/// size loads the cache anew, or ends with the error of the load.
pub proof fn law_look_decides<P: PackageUidProvider, S: PackageFileStatProvider>(
    pre: ResolverModel,
    provider: P,
    statter: S,
    marker_path: Seq<u8>,
    interval: u64,
    post: ResolverModel,
    statter_after: S,
    r: Result<Option<String>, EngineError>,
    look: Result<PackageFileStat, EngineError>,
)
    requires
        pre.foreground_changes < u64::MAX,
        pre.may_rebuild(interval) ==> pre.cache_rebuilds < u64::MAX,
        resolver::stepped(
            pre,
            provider,
            statter,
            marker_path,
            interval,
            post,
            statter_after,
            r,
        ),
        interval > 0,
        (pre.foreground_changes + 1) % interval as int == 0,
        forall|found: Result<PackageFileStat, EngineError>| #[trigger]
            S::stats(statter, marker_path, statter_after, found) ==> found == look,
    ensures
        post.foreground_changes == pre.foreground_changes + 1,
        match look {
            Err(e) => post.cache == pre.cache && post.marker == pre.marker && (
            r matches Ok(Some(line)) && line@ == "cache stat_check error="@
                + resolver::failure_reason(e@) + " action=keep"@),
            Ok(found) => {
                let changed = match pre.marker {
                    None => false,
                    Some(known) => known.mtime_sec != found.mtime_sec || known.mtime_nsec
                        != found.mtime_nsec || known.size != found.size,
                };
                if !changed {
                    post.cache == pre.cache && post.marker == Some(found) && post.cache_rebuilds
                        == pre.cache_rebuilds && (r matches Ok(Some(line)) && line@
                        == "cache stat_check change_count="@ + text::decimal(
                        post.foreground_changes as nat,
                    ) + " changed=false action=keep"@)
                } else {
                    match r {
                        Err(e) => provider.loads(Err(e)) && post.cache == pre.cache && post.marker
                            == pre.marker && post.cache_rebuilds == pre.cache_rebuilds,
                        Ok(told) => post.marker == Some(found) && post.cache_rebuilds
                            == pre.cache_rebuilds + 1 && (exists|snapshot:
                            cache::PackageUidSnapshot| #[trigger]
                            provider.loads(Ok(snapshot)) && cache::holds_snapshot(
                                post.cache,
                                snapshot@,
                            )) && (told matches Some(line) && line@
                            == "cache stat_check change_count="@ + text::decimal(
                            post.foreground_changes as nat,
                        ) + " changed=true action=rebuild entries="@ + text::decimal(
                            post.cache.uids.len(),
                        )),
                    }
                }
            },
        },
        post.blocked_packages == pre.blocked_packages,
        post.accessibility_uids == pre.accessibility_uids,
        post.app_uid_filter == pre.app_uid_filter,
{
}

/// Why a look failed is told in one word: for a missing permission and a missing
/// file by a word of their own, otherwise by the words of the error with an
/// underscore for each space and every other character as it was.
pub proof fn law_failure_is_one_word(e: error::ErrorModel, i: int)
    ensures
        e matches error::ErrorModel::Io { kind, .. } && kind == IoErrorKind::PermissionDenied
            ==> resolver::failure_reason(e) == "permission_denied"@,
        e matches error::ErrorModel::Io { kind, .. } && kind == IoErrorKind::NotFound
            ==> resolver::failure_reason(e) == "not_found"@,
        !(e matches error::ErrorModel::Io { kind, .. } && (kind == IoErrorKind::PermissionDenied
            || kind == IoErrorKind::NotFound)) ==> {
            &&& resolver::failure_reason(e).len() == e.text().len()
            &&& 0 <= i < e.text().len() ==> resolver::failure_reason(e)[i] == if e.text()[i] == ' ' {
                '_'
            } else {
                e.text()[i]
            }
        },
{
}

} // verus!

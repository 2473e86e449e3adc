//! Which processes of the top cpuset count, and for what.
use vstd::prelude::*;

use crate::error::EngineError;
use crate::services::foreground::cgroup_v1::{
    CgroupV1CpusetSource, Contender, MapPidUidResolver, PidUidResolver, V1Context,
};
use crate::services::foreground::source::{
    CandidateModel, ForegroundCandidate, ForegroundSourceKind,
};
use crate::{
    error, path, services::foreground::cache, services::foreground::cgroup_v1,
    services::foreground::source, text, text_laws,
};

verus! {

// ---------------------------------------------------------------------------
// Command lines
// ---------------------------------------------------------------------------

/// Whether a text can be the name of a process that is named after its package:
/// it has a dot and neither a slash, a colon nor white space.
pub open spec fn package_process(process: Seq<char>) -> bool {
    &&& process.len() > 0
    &&& text_laws::solid(process)
    &&& text_laws::lacks(process, ':')
    &&& text_laws::lacks(process, '/')
    &&& !text_laws::lacks(process, '.')
}

proof fn lemma_holds_char(s: Seq<char>, c: char)
    ensures
        text::holds(s, seq![c]) == !text_laws::lacks(s, c),
{
    text_laws::law_holds_where_it_stands(s, seq![c]);
    if text_laws::lacks(s, c) {
        assert forall|a: int, b: int|
            0 <= a <= b <= s.len() && b - a == 1 implies #[trigger] s.subrange(a, b)
            != seq![c] by {
            assert(s.subrange(a, b)[0] == s[a]);
        }
    } else {
        let i = choose|i: int| 0 <= i < s.len() && s[i] == c;
        assert(s.subrange(i, i + 1) =~= seq![c]);
    }
}

proof fn lemma_package_of_process(process: Seq<char>, word: Seq<char>)
    requires
        text::split(word, ':').len() > 0,
        text::split(word, ':')[0] == process,
    ensures
        ({
            let r = process.len() > 0 && !text_laws::lacks(process, '.') && text_laws::lacks(
                process,
                '/',
            );
            forall|cmdline: Seq<char>|
                text::words(cmdline).len() > 0 && text::words(cmdline)[0] == word ==> (
                #[trigger] cgroup_v1::cmdline_package(cmdline)) == if r {
                    Some(process)
                } else {
                    None
                }
        }),
{
    reveal_strlit(".");
    reveal_strlit("/");
    assert("."@ =~= seq!['.']);
    assert("/"@ =~= seq!['/']);
    lemma_holds_char(process, '.');
    lemma_holds_char(process, '/');
}

/// The first word of a command line up to its first colon names the package,
/// whatever stands behind the colon or behind the word.
pub proof fn law_process_names_package(
    process: Seq<char>,
    suffix: Seq<char>,
    space: char,
    arguments: Seq<char>,
)
    requires
        package_process(process),
        text_laws::solid(suffix),
        text::white_space(space),
    ensures
        cgroup_v1::cmdline_package(process) == Some(process),
        cgroup_v1::cmdline_package(process + seq![':'] + suffix) == Some(process),
        cgroup_v1::cmdline_package(process + seq![space] + arguments) == Some(process),
        cgroup_v1::cmdline_package(process + seq![':'] + suffix + seq![space] + arguments) == Some(
            process,
        ),
{
    text_laws::law_one_piece(process, ':');
    lemma_package_of_process(process, process);
    text_laws::law_last_word(process);
    text_laws::law_first_word(process, space, arguments);
    let long = process + seq![':'] + suffix;
    assert forall|i: int| 0 <= i < long.len() implies !text::white_space(#[trigger] long[i]) by {
        if i < process.len() {
            assert(long[i] == process[i]);
        } else if i > process.len() {
            assert(long[i] == suffix[i - process.len() - 1]);
        }
    }
    text_laws::law_first_piece(process, ':', suffix);
    text::lemma_split_nonempty(suffix, ':');
    lemma_package_of_process(process, long);
    text_laws::law_last_word(long);
    text_laws::law_first_word(long, space, arguments);
}

/// A command line names no package if it is blank, or if its first word up to the
/// first colon has a slash or no dot.
pub proof fn law_program_names_no_package(
    blank: Seq<char>,
    process: Seq<char>,
    suffix: Seq<char>,
    space: char,
    arguments: Seq<char>,
)
    requires
        text_laws::blank(blank),
        text_laws::solid(process),
        text_laws::lacks(process, ':'),
        !text_laws::lacks(process, '/') || text_laws::lacks(process, '.'),
        text_laws::solid(suffix),
        text::white_space(space),
    ensures
        cgroup_v1::cmdline_package(blank) is None,
        process.len() > 0 ==> cgroup_v1::cmdline_package(process) is None,
        process.len() > 0 ==> cgroup_v1::cmdline_package(process + seq![space] + arguments)
            is None,
        cgroup_v1::cmdline_package(process + seq![':'] + suffix) is None,
{
    lemma_blank_words(blank);
    let long = process + seq![':'] + suffix;
    assert forall|i: int| 0 <= i < long.len() implies !text::white_space(#[trigger] long[i]) by {
        if i < process.len() {
            assert(long[i] == process[i]);
        } else if i > process.len() {
            assert(long[i] == suffix[i - process.len() - 1]);
        }
    }
    text_laws::law_first_piece(process, ':', suffix);
    text::lemma_split_nonempty(suffix, ':');
    lemma_package_of_process(process, long);
    text_laws::law_last_word(long);
    if process.len() > 0 {
        text_laws::law_one_piece(process, ':');
        lemma_package_of_process(process, process);
        text_laws::law_last_word(process);
        text_laws::law_first_word(process, space, arguments);
    }
}

proof fn lemma_blank_words(blank: Seq<char>)
    requires
        text_laws::blank(blank),
    ensures
        text::words(blank).len() == 0,
    decreases blank.len(),
{
    if blank.len() == 0 {
        text_laws::law_last_word(blank);
    } else {
        let rest = blank.skip(1);
        assert forall|i: int| 0 <= i < rest.len() implies text::white_space(
            #[trigger] rest[i],
        ) by {
            assert(rest[i] == blank[i + 1]);
        }
        lemma_blank_words(rest);
        text_laws::law_leading_space(blank[0], rest);
        assert(seq![blank[0]] + rest =~= blank);
    }
}

/// Whether a command line has a colon and neither of the words that background
/// processes are named by.
pub open spec fn bare_colon(cmdline: Seq<char>) -> bool {
    &&& exists|i: int| 0 <= i < cmdline.len() && #[trigger] cmdline[i] == ':'
    &&& text_laws::lacks_text(cmdline, seq!['s', 'e', 'r', 'v', 'i', 'c', 'e'])
    &&& text_laws::lacks_text(cmdline, seq!['r', 'e', 'm', 'o', 't', 'e'])
}

proof fn lemma_interface(cmdline: Seq<char>)
    ensures
        cgroup_v1::is_interface(cmdline) == bare_colon(cmdline),
{
    reveal_strlit(":");
    reveal_strlit("remote");
    reveal_strlit("service");
    assert(":"@ =~= seq![':']);
    assert("remote"@ =~= seq!['r', 'e', 'm', 'o', 't', 'e']);
    assert("service"@ =~= seq!['s', 'e', 'r', 'v', 'i', 'c', 'e']);
    lemma_holds_char(cmdline, ':');
    text_laws::law_holds_where_it_stands(cmdline, "remote"@);
    text_laws::law_holds_where_it_stands(cmdline, "service"@);
}

/// A process whose command line has `service` or `remote` in it never counts as an
/// interface process, nor does one whose command line has no colon or cannot be
/// read.
pub proof fn law_background_is_no_interface(context: V1Context, pid: i32, uid: u32)
    requires
        context.cmdlines.contains_key(pid) ==> !bare_colon(context.cmdlines[pid]),
    ensures
        context.weighed(pid, uid) matches Some(found) ==> !found.1,
{
    if context.cmdlines.contains_key(pid) {
        lemma_interface(context.cmdlines[pid]);
    }
}

/// Among processes of which none has a command line with a colon and neither
/// `service` nor `remote`, the identified one with the highest process ID wins.
pub proof fn law_highest_identified_wins(
    context: V1Context,
    rows: Seq<Seq<char>>,
    answers: Seq<Result<Option<u32>, EngineError>>,
    i: int,
    contender: Contender,
)
    requires
        forall|pid: i32| #[trigger]
            context.cmdlines.contains_key(pid) ==> !bare_colon(context.cmdlines[pid]),
        0 <= i < answers.len(),
        cgroup_v1::contends(context, rows, answers, i, contender),
        contender.candidate.identity_resolved,
    ensures
        cgroup_v1::best_of(context, rows, answers) matches Some(best) && best.pid >= contender.pid
            && best.candidate.identity_resolved && !best.interface,
{
    cgroup_v1::law_best_wins(context, rows, answers, i, contender);
    cgroup_v1::law_winner_is_a_process(context, rows, answers);
    let best = cgroup_v1::best_of(context, rows, answers)->0;
    let k = choose|k: int|
        0 <= k < answers.len() && #[trigger] cgroup_v1::contends(context, rows, answers, k, best);
    law_background_is_no_interface(context, best.pid, answers[k]->Ok_0->0);
    law_background_is_no_interface(context, contender.pid, answers[i]->Ok_0->0);
}

/// If any identified process has a command line with a colon and neither `service`
/// nor `remote`, the one of these with the highest process ID wins.
pub proof fn law_highest_interface_wins(
    context: V1Context,
    rows: Seq<Seq<char>>,
    answers: Seq<Result<Option<u32>, EngineError>>,
    i: int,
    uid: u32,
)
    requires
        0 <= i < answers.len(),
        answers[i] == Ok::<Option<u32>, EngineError>(Some(uid)),
        names_itself(context, cgroup_v1::row_pid(rows, i), uid),
        bare_colon(context.cmdlines[cgroup_v1::row_pid(rows, i)]),
    ensures
        cgroup_v1::best_of(context, rows, answers) matches Some(best) && best.interface
            && bare_colon(context.cmdlines[best.pid]) && best.pid >= cgroup_v1::row_pid(rows, i),
{
    let pid = cgroup_v1::row_pid(rows, i);
    lemma_interface(context.cmdlines[pid]);
    let (candidate, interface) = context.weighed(pid, uid)->0;
    let contender = Contender { pid, candidate, interface };
    assert(cgroup_v1::contends(context, rows, answers, i, contender));
    cgroup_v1::law_best_wins(context, rows, answers, i, contender);
    cgroup_v1::law_winner_is_a_process(context, rows, answers);
    let best = cgroup_v1::best_of(context, rows, answers)->0;
    let k = choose|k: int|
        0 <= k < answers.len() && #[trigger] cgroup_v1::contends(context, rows, answers, k, best);
    cgroup_v1::law_weighed_passes_filter(context, best.pid, answers[k]->Ok_0->0);
    if !context.cmdlines.contains_key(best.pid) || !bare_colon(context.cmdlines[best.pid]) {
        law_background_is_no_interface(context, best.pid, answers[k]->Ok_0->0);
    }
}

// ---------------------------------------------------------------------------
// Candidates
// ---------------------------------------------------------------------------

/// Whether a cache, if there is one, leaves open that a package runs under the UID
/// of an application: it lists the package there, or it lists none.
pub open spec fn not_ruled_out(
    known: Option<cache::CacheModel>,
    uid: u32,
    package: Seq<char>,
) -> bool {
    match known {
        None => true,
        Some(known) => uid < 10_000 || !known.packages.contains_key(uid)
            || known.packages[uid].len() == 0 || known.packages[uid].contains(package),
    }
}

/// Whether the command line of a process names a package that can be in the
/// foreground under its UID.
pub open spec fn names_itself(context: V1Context, pid: i32, uid: u32) -> bool {
    &&& context.filter.valid_uid(uid)
    &&& context.cmdlines.contains_key(pid)
    &&& cgroup_v1::cmdline_package(context.cmdlines[pid]) matches Some(package)
        && !context.filter.blocked_packages.contains(package) && not_ruled_out(
        context.cache,
        uid,
        package,
    )
}

/// A process whose command line names a package that can be in the foreground is a
/// candidate for that package, and an interface process exactly if its command
/// line has a colon and neither `service` nor `remote`.
pub proof fn law_command_line_names_candidate(context: V1Context, pid: i32, uid: u32)
    requires
        names_itself(context, pid, uid),
    ensures
        context.weighed(pid, uid) == Some(
            (
                CandidateModel {
                    source: ForegroundSourceKind::CgroupV1,
                    pid: Some(pid),
                    uid: Some(uid),
                    package: cgroup_v1::cmdline_package(context.cmdlines[pid]),
                    identity_resolved: true,
                },
                bare_colon(context.cmdlines[pid]),
            ),
        ),
{
    lemma_interface(context.cmdlines[pid]);
    lemma_consistent(
        context.cache,
        uid,
        cgroup_v1::cmdline_package(context.cmdlines[pid])->0,
    );
}

proof fn lemma_consistent(known: Option<cache::CacheModel>, uid: u32, package: Seq<char>)
    ensures
        cgroup_v1::consistent(known, uid, package) == not_ruled_out(known, uid, package),
{
    if let Some(known) = known {
        if known.packages.contains_key(uid) && known.packages[uid].len() == 1 {
            let list = known.packages[uid];
            if list.contains(package) {
                let i = choose|i: int| 0 <= i < list.len() && list[i] == package;
                assert(i == 0);
            } else if list[0] == package {
                assert(list.contains(list[0]));
            }
        }
    }
}

/// Whether a process is a program that runs inside the terminal application: the cache
/// lists that application under its UID, and it has a command line that names no
/// package.
pub open spec fn terminal_program(context: V1Context, pid: i32, uid: u32) -> bool {
    &&& context.cache matches Some(known) && known.packages.contains_key(uid)
        && known.packages[uid].contains("com.termux"@)
    &&& context.cmdlines.contains_key(pid)
    &&& text::words(context.cmdlines[pid]).len() > 0
    &&& text::words(context.cmdlines[pid])[0].len() > 0
    &&& cgroup_v1::cmdline_package(context.cmdlines[pid]) is None
}

/// A process whose command line does not do that is a candidate by its UID: if the
/// cache lists one package there that is not blocked, for that package; if there
/// is neither a cache nor a command line, for no package. It is never an interface
/// process. All others are no candidates, and neither is a program that runs
/// inside the terminal application and has a command line of its own.
pub proof fn law_uid_gives_candidate(context: V1Context, pid: i32, uid: u32)
    requires
        !names_itself(context, pid, uid),
        context.filter.valid_uid(uid),
        !terminal_program(context, pid, uid),
    ensures
        match context.cache {
            Some(known) => if known.packages.contains_key(uid) && known.packages[uid].len() == 1
                && !context.filter.blocked_packages.contains(known.packages[uid][0]) {
                context.weighed(pid, uid) == Some(
                    (
                        CandidateModel {
                            source: ForegroundSourceKind::CgroupV1,
                            pid: Some(pid),
                            uid: Some(uid),
                            package: Some(known.packages[uid][0]),
                            identity_resolved: true,
                        },
                        false,
                    ),
                )
            } else {
                context.weighed(pid, uid) is None
            },
            None => if context.cmdlines.contains_key(pid) {
                context.weighed(pid, uid) is None
            } else {
                context.weighed(pid, uid) == Some(
                    (
                        CandidateModel {
                            source: ForegroundSourceKind::CgroupV1,
                            pid: Some(pid),
                            uid: Some(uid),
                            package: None,
                            identity_resolved: false,
                        },
                        false,
                    ),
                )
            },
        },
{
    if context.cmdlines.contains_key(pid) {
        if let Some(package) = cgroup_v1::cmdline_package(context.cmdlines[pid]) {
            lemma_consistent(context.cache, uid, package);
        }
    }
    if let Some(known) = context.cache {
        if known.packages.contains_key(uid) && known.packages[uid].len() == 1 {
            assert(known.packages[uid].contains(known.packages[uid][0]));
        }
    }
}

/// Under the UID of the terminal application, a process with a command line that
/// names no package is no candidate; one without a command line is weighed by its
/// UID like any other.
pub proof fn law_terminal_programs_do_not_count(
    context: V1Context,
    pid: i32,
    uid: u32,
    known: cache::CacheModel,
)
    requires
        context.filter.valid_uid(uid),
        context.cache == Some(known),
        known.packages.contains_key(uid),
        known.packages[uid].contains("com.termux"@),
    ensures
        context.cmdlines.contains_key(pid) && text::words(context.cmdlines[pid]).len() > 0
            && text::words(context.cmdlines[pid])[0].len() > 0 && cgroup_v1::cmdline_package(
            context.cmdlines[pid],
        ) is None ==> context.weighed(pid, uid) is None,
        !context.cmdlines.contains_key(pid) && known.packages[uid].len() == 1
            && !context.filter.blocked_packages.contains("com.termux"@) ==> (
        context.weighed(pid, uid) matches Some(found) && found.0.package == Some("com.termux"@)),
{
    let list = known.packages[uid];
    let i = choose|i: int| 0 <= i < list.len() && list[i] == "com.termux"@;
    assert(list[i] == "com.termux"@);
}

/// A process with a UID that the filter rejects is no candidate.
pub proof fn law_rejected_uid_gives_no_candidate(context: V1Context, pid: i32, uid: u32)
    requires
        !context.filter.valid_uid(uid),
    ensures
        context.weighed(pid, uid) is None,
{
}

// ---------------------------------------------------------------------------
// Process lists
// ---------------------------------------------------------------------------

/// The rows of a process list come in the opposite order of its lines: a line
/// that is not blank, with white space taken off both ends, comes behind the rows
/// of the lines after it, and a blank one makes no row.
pub proof fn law_rows_go_backwards(
    before: Seq<char>,
    row: Seq<char>,
    after: Seq<char>,
    rest: Seq<char>,
)
    requires
        text_laws::blank(before),
        text_laws::blank(after),
        text_laws::lacks(before + row + after, '\n'),
        (before + row + after).len() == 0 || (before + row + after).last() != '\r',
        row.len() > 0 ==> !text::white_space(row[0]) && !text::white_space(row.last()),
    ensures
        cgroup_v1::rows(text::lines(before + row + after + seq!['\n'] + rest)) == if row.len()
            > 0 {
            cgroup_v1::rows(text::lines(rest)).push(row)
        } else {
            cgroup_v1::rows(text::lines(rest))
        },
{
    let line = before + row + after;
    text_laws::law_first_line(line, rest);
    text_laws::law_trim_takes_space_off(before, row, after);
    let all = seq![line] + text::lines(rest);
    assert(all.first() == line);
    assert(all.drop_first() =~= text::lines(rest));
}

/// A process list with a line that is no process ID is refused as invalid data.
pub proof fn law_bad_row_is_invalid_data()
    ensures
        cgroup_v1::bad_row() matches error::ErrorModel::Io { kind, message } && kind
            == crate::error::IoErrorKind::InvalidData && message
            == "invalid cgroup.procs pid list"@,
{
}

/// A process list whose rows were all answered resolves into the candidate of the
/// best process, or into none. An answer that failed ends it with that error, and a
/// row that is no process ID with the error for bad rows.
pub proof fn law_list_resolves_into_winner(
    context: V1Context,
    rows: Seq<Seq<char>>,
    answers: Seq<Result<Option<u32>, EngineError>>,
    r: source::SourceAnswer,
)
    requires
        answers.len() <= rows.len(),
        cgroup_v1::resolved(context, rows, answers, r),
        forall|i: int| 0 <= i < answers.len() - 1 ==> (#[trigger] answers[i]) is Ok,
    ensures
        answers.len() > 0 && answers.last() is Err ==> r == Err::<
            Option<ForegroundCandidate>,
            EngineError,
        >(answers.last()->Err_0),
        (answers.len() == 0 || answers.last() is Ok) && answers.len() == rows.len() ==> match cgroup_v1::best_of(
            context,
            rows,
            answers,
        ) {
            Some(best) => r matches Ok(Some(found)) && found@ == best.candidate,
            None => r == Ok::<Option<ForegroundCandidate>, EngineError>(None),
        },
        (answers.len() == 0 || answers.last() is Ok) && answers.len() < rows.len() ==> (r matches Err(
            e,
        ) && e@ == cgroup_v1::bad_row()) && text::parse_i32(rows[answers.len() as int]) is None,
{
}

/// The rows are asked about in order, each once, by the process ID that it states,
/// and none behind one that failed.
pub proof fn law_rows_are_asked_in_order<R: PidUidResolver>(
    proc_root: Seq<u8>,
    rows: Seq<Seq<char>>,
    states: Seq<R>,
    answers: Seq<Result<Option<u32>, EngineError>>,
    i: int,
    pid: i32,
)
    requires
        cgroup_v1::rows_answered(proc_root, rows, states, answers),
        0 <= i < answers.len(),
        rows[i] == text::signed_decimal(pid as int),
    ensures
        cgroup_v1::row_pid(rows, i) == pid,
        R::resolves(states[i], proc_root, pid, states[i + 1], answers[i]),
        i < answers.len() - 1 ==> answers[i] is Ok,
        answers.len() <= rows.len(),
{
    text_laws::law_signed_reads_back(pid as int);
    assert(cgroup_v1::row_answered(proc_root, rows, states, answers, i));
}

/// Processes are judged by the filter and the cache of the source and by the command
/// lines that are handed over.
pub proof fn law_source_judges_by_its_own<R>(
    s: CgroupV1CpusetSource<R>,
    cmdlines: Map<i32, String>,
    pid: i32,
)
    ensures
        s.context(cmdlines).filter == s@.filter,
        s.context(cmdlines).cache == s@.cache,
        s.context(cmdlines).cmdlines.contains_key(pid) <==> cmdlines.contains_key(pid),
        cmdlines.contains_key(pid) ==> s.context(cmdlines).cmdlines[pid] == cmdlines[pid]@,
{
}

/// A reading that failed is answered with its error and changes nothing. Otherwise
/// the payload is remembered; so is the candidate that it resolves into, or that
/// there is none, and where it resolves into an error the last one stays. What the
/// source is set up with stays as it is.
pub proof fn law_reading_is_remembered<R: PidUidResolver>(
    pre: CgroupV1CpusetSource<R>,
    read: Result<Vec<u8>, EngineError>,
    cmdlines: Map<i32, String>,
    post: CgroupV1CpusetSource<R>,
    r: source::SourceAnswer,
)
    requires
        CgroupV1CpusetSource::<R>::reads(pre, read, cmdlines, post, r),
    ensures
        read matches Err(e) ==> r == Err::<Option<ForegroundCandidate>, EngineError>(e) && post@
            == pre@ && post.asks() == pre.asks(),
        read matches Ok(payload) ==> {
            &&& post@.payload == Some(payload@)
            &&& r matches Ok(found) ==> post@.last_candidate == source::candidate_model(found)
            &&& r is Err ==> post@.last_candidate == pre@.last_candidate
        },
        post@.filter == pre@.filter && post@.cache == pre@.cache && post@.hints == pre@.hints,
        post@.cgroup_procs_path == pre@.cgroup_procs_path && post@.proc_root == pre@.proc_root,
{
    if let Ok(payload) = read {
        let mid = choose|mid: CgroupV1CpusetSource<R>|
            {
                &&& mid@ == (cgroup_v1::V1Model { payload: Some(payload@), ..pre@ })
                &&& mid.asks() == pre.asks()
                &&& #[trigger] CgroupV1CpusetSource::<R>::resolves_text(
                    mid,
                    path::text_in(payload@),
                    cmdlines,
                    post,
                    r,
                )
            };
        assert(CgroupV1CpusetSource::<R>::resolves_text(
            mid,
            path::text_in(payload@),
            cmdlines,
            post,
            r,
        ));
    }
}

/// A table of UIDs answers with the UID that it holds for a process, or with none.
pub proof fn law_table_answers(
    pre: MapPidUidResolver,
    proc_root: Seq<u8>,
    pid: i32,
    post: MapPidUidResolver,
    r: Result<Option<u32>, EngineError>,
)
    requires
        MapPidUidResolver::resolves(pre, proc_root, pid, post, r),
    ensures
        pre@.contains_key(pid) ==> r == Ok::<Option<u32>, EngineError>(Some(pre@[pid])),
        !pre@.contains_key(pid) ==> r == Ok::<Option<u32>, EngineError>(None),
        post@ == pre@,
{
}

/// The first word of any command line decides, wherever it starts: what stands in it
/// before its first colon, or all of it, is the package if it has a dot and no slash.
pub proof fn law_first_word_decides_package(
    cmdline: Seq<char>,
    process: Seq<char>,
    suffix: Seq<char>,
)
    requires
        text::words(cmdline).len() > 0,
        text_laws::lacks(process, ':'),
        text::words(cmdline)[0] == process || text::words(cmdline)[0] == process + seq![':']
            + suffix,
    ensures
        cgroup_v1::cmdline_package(cmdline) == if process.len() > 0 && !text_laws::lacks(
            process,
            '.',
        ) && text_laws::lacks(process, '/') {
            Some(process)
        } else {
            None
        },
{
    let word = text::words(cmdline)[0];
    if word == process {
        text_laws::law_one_piece(process, ':');
    } else {
        text_laws::law_first_piece(process, ':', suffix);
        text::lemma_split_nonempty(suffix, ':');
    }
    lemma_package_of_process(process, word);
}

/// What a table of UIDs answers for the rows of a process list.
pub open spec fn table_answers(uids: Map<i32, u32>, rows: Seq<Seq<char>>) -> Seq<
    Result<Option<u32>, EngineError>,
> {
    Seq::new(
        rows.len(),
        |i: int|
            Ok(
                if uids.contains_key(cgroup_v1::row_pid(rows, i)) {
                    Some(uids[cgroup_v1::row_pid(rows, i)])
                } else {
                    None
                },
            ),
    )
}

proof fn lemma_table_stays(
    proc_root: Seq<u8>,
    rows: Seq<Seq<char>>,
    states: Seq<MapPidUidResolver>,
    answers: Seq<Result<Option<u32>, EngineError>>,
    i: int,
)
    requires
        cgroup_v1::rows_answered(proc_root, rows, states, answers),
        0 <= i <= answers.len(),
    ensures
        states[i]@ == states[0]@,
        forall|k: int|
            0 <= k < i ==> #[trigger] answers[k] == table_answers(states[0]@, rows)[k],
    decreases i,
{
    if i > 0 {
        lemma_table_stays(proc_root, rows, states, answers, i - 1);
        assert(cgroup_v1::row_answered(proc_root, rows, states, answers, i - 1));
    }
}

/// A reading of a list of process IDs, with a table of their UIDs, is answered with the
/// candidate of the best of all these processes, or with none if none is a candidate;
/// a list with a line that is no process ID is refused.
pub proof fn law_list_is_answered_with_winner(
    pre: CgroupV1CpusetSource<MapPidUidResolver>,
    payload: Vec<u8>,
    cmdlines: Map<i32, String>,
    post: CgroupV1CpusetSource<MapPidUidResolver>,
    r: source::SourceAnswer,
)
    requires
        CgroupV1CpusetSource::<MapPidUidResolver>::reads(pre, Ok(payload), cmdlines, post, r),
    ensures
        ({
            let rows = cgroup_v1::rows(text::lines(path::text_in(payload@)));
            if forall|i: int| 0 <= i < rows.len() ==> text::parse_i32(#[trigger] rows[i]) is Some {
                match cgroup_v1::best_of(
                    pre.context(cmdlines),
                    rows,
                    table_answers(pre.asks()@, rows),
                ) {
                    Some(best) => r matches Ok(Some(found)) && found@ == best.candidate,
                    None => r == Ok::<Option<ForegroundCandidate>, EngineError>(None),
                }
            } else {
                r matches Err(e) && e@ == cgroup_v1::bad_row()
            }
        }),
        post.asks()@ == pre.asks()@,
{
    let content = path::text_in(payload@);
    let rows = cgroup_v1::rows(text::lines(content));
    let mid = choose|mid: CgroupV1CpusetSource<MapPidUidResolver>|
        {
            &&& mid@ == (cgroup_v1::V1Model { payload: Some(payload@), ..pre@ })
            &&& mid.asks() == pre.asks()
            &&& #[trigger] CgroupV1CpusetSource::<MapPidUidResolver>::resolves_text(
                mid,
                content,
                cmdlines,
                post,
                r,
            )
        };
    assert(CgroupV1CpusetSource::<MapPidUidResolver>::resolves_text(
        mid,
        content,
        cmdlines,
        post,
        r,
    ));
    let (states, answers) = choose|
        states: Seq<MapPidUidResolver>,
        answers: Seq<Result<Option<u32>, EngineError>>,
    |
        {
            &&& #[trigger] cgroup_v1::rows_answered(mid@.proc_root, rows, states, answers)
            &&& states.first() == mid.asks()
            &&& states.last() == post.asks()
            &&& cgroup_v1::resolved(mid.context(cmdlines), rows, answers, r)
            &&& post@ == match r {
                Ok(found) => cgroup_v1::V1Model {
                    last_candidate: source::candidate_model(found),
                    ..mid@
                },
                Err(_) => mid@,
            }
        };
    let n = answers.len();
    lemma_table_stays(mid@.proc_root, rows, states, answers, n as int);
    assert(states[n as int] == states.last());
    assert(mid.context(cmdlines) == pre.context(cmdlines));
    if n > 0 {
        assert(answers[n - 1] == table_answers(states[0]@, rows)[n - 1]);
    }
    if n == rows.len() {
        assert(answers =~= table_answers(pre.asks()@, rows));
        assert forall|i: int| 0 <= i < rows.len() implies text::parse_i32(
            #[trigger] rows[i],
        ) is Some by {
            assert(cgroup_v1::row_answered(mid@.proc_root, rows, states, answers, i));
        }
    } else {
        assert(text::parse_i32(rows[n as int]) is None);
    }
}

} // verus!

//! Warming files up in the page cache.
use vstd::prelude::*;

use crate::error::EngineError;
use crate::path::EnginePath;

verus! {

/// How a file is warmed up.
#[derive(Clone, Copy, Debug, PartialEq, Eq, Structural)]
pub enum PreloadMethod {
    /// One read-ahead.
    Readahead,
    /// A mapping with advice.
    MmapMadvise,
    /// A mapping with advice whose pages are touched.
    MmapMadviseTouch,
    /// Read-aheads of bounded size, one after the other.
    ChunkedReadahead,
}

/// How much of a file is warmed up.
#[derive(Clone, Copy, Debug, PartialEq, Eq, Structural)]
pub struct PreloadLimits {
    pub mmap_madvise_max_bytes: Option<u64>,
    pub mmap_touch_max_bytes: Option<u64>,
    pub asset_max_bytes: Option<u64>,
    pub chunk_bytes: u64,
}

impl Default for PreloadLimits {
    fn default() -> (r: Self)
        ensures
            r.mmap_madvise_max_bytes is None,
            r.mmap_touch_max_bytes is None,
            r.asset_max_bytes is None,
            r.chunk_bytes == 16 * 1024 * 1024,
    {
        PreloadLimits {
            mmap_madvise_max_bytes: None,
            mmap_touch_max_bytes: None,
            asset_max_bytes: None,
            chunk_bytes: 16 * 1024 * 1024,
        }
    }
}

/// A file to warm up.
#[derive(Debug, PartialEq, Eq)]
pub struct PreloadTarget {
    pub path: EnginePath,
    pub method: PreloadMethod,
    pub len: u64,
}

impl Clone for PreloadTarget {
    fn clone(&self) -> (r: Self)
        ensures
            r.path@ == self.path@,
            r.method == self.method,
            r.len == self.len,
    {
        PreloadTarget { path: self.path.clone(), method: self.method, len: self.len }
    }
}

/// One piece of work on an opened file.
#[derive(Clone, Copy, Debug, PartialEq, Eq, Structural)]
pub enum PreloadOp {
    /// Read ahead.
    Readahead { offset: u64, bytes: u64 },
    /// Map from the start and advise, touching the pages or not.
    MmapMadvise { bytes: u64, touch: bool },
}

/// The limit that a method is under.
pub open spec fn cap_of(method: PreloadMethod, limits: PreloadLimits) -> Option<u64> {
    match method {
        PreloadMethod::Readahead => None,
        PreloadMethod::MmapMadvise => limits.mmap_madvise_max_bytes,
        PreloadMethod::MmapMadviseTouch => limits.mmap_touch_max_bytes,
        PreloadMethod::ChunkedReadahead => limits.asset_max_bytes,
    }
}

/// How many bytes of a target are warmed up.
pub open spec fn capped(method: PreloadMethod, len: u64, limits: PreloadLimits) -> u64 {
    match cap_of(method, limits) {
        Some(cap) if cap < len => cap,
        _ => len,
    }
}

/// How many bytes of a target are warmed up.
pub fn capped_len(target: &PreloadTarget, limits: &PreloadLimits) -> (r: u64)
    ensures
        r == capped(target.method, target.len, *limits),
{
    let cap = match target.method {
        PreloadMethod::Readahead => None,
        PreloadMethod::MmapMadvise => limits.mmap_madvise_max_bytes,
        PreloadMethod::MmapMadviseTouch => limits.mmap_touch_max_bytes,
        PreloadMethod::ChunkedReadahead => limits.asset_max_bytes,
    };
    match cap {
        Some(cap) => if cap < target.len {
            cap
        } else {
            target.len
        },
        None => target.len,
    }
}

// ---------------------------------------------------------------------------
// The work on one target
// ---------------------------------------------------------------------------

/// The read-aheads of at most `chunk` bytes from `offset` up to `len`.
pub open spec fn chunks(offset: u64, len: u64, chunk: u64) -> Seq<PreloadOp>
    decreases len - offset,
{
    if offset >= len || chunk == 0 {
        Seq::empty()
    } else if len - offset <= chunk {
        seq![PreloadOp::Readahead { offset, bytes: (len - offset) as u64 }]
    } else {
        seq![PreloadOp::Readahead { offset, bytes: chunk }] + chunks(
            (offset + chunk) as u64,
            len,
            chunk,
        )
    }
}

/// The work on a target, in order.
pub open spec fn work(method: PreloadMethod, len: u64, limits: PreloadLimits) -> Seq<PreloadOp> {
    let bytes = capped(method, len, limits);
    match method {
        PreloadMethod::Readahead => seq![PreloadOp::Readahead { offset: 0, bytes }],
        PreloadMethod::MmapMadvise => seq![PreloadOp::MmapMadvise { bytes, touch: false }],
        PreloadMethod::MmapMadviseTouch => seq![PreloadOp::MmapMadvise { bytes, touch: true }],
        PreloadMethod::ChunkedReadahead => chunks(
            0,
            bytes,
            if limits.chunk_bytes == 0 {
                1
            } else {
                limits.chunk_bytes
            },
        ),
    }
}

/// The work on a target that is still to do.
#[derive(Debug)]
pub struct PreloadWork {
    single: Option<PreloadOp>,
    offset: u64,
    end: u64,
    chunk: u64,
}

impl View for PreloadWork {
    type V = Seq<PreloadOp>;

    closed spec fn view(&self) -> Seq<PreloadOp> {
        match self.single {
            Some(op) => seq![op],
            None => chunks(self.offset, self.end, self.chunk),
        }
    }
}

impl PreloadWork {
    #[verifier::type_invariant]
    spec fn wf(&self) -> bool {
        self.chunk > 0 && (self.single is Some ==> self.offset >= self.end)
    }

    /// The work on a target.
    pub fn new(target: &PreloadTarget, limits: &PreloadLimits) -> (r: Self)
        ensures
            r@ == work(target.method, target.len, *limits),
    {
        let bytes: u64 = capped_len(target, limits);
        match target.method {
            PreloadMethod::Readahead => PreloadWork {
                single: Some(PreloadOp::Readahead { offset: 0, bytes }),
                offset: 0,
                end: 0,
                chunk: 1,
            },
            PreloadMethod::MmapMadvise => PreloadWork {
                single: Some(PreloadOp::MmapMadvise { bytes, touch: false }),
                offset: 0,
                end: 0,
                chunk: 1,
            },
            PreloadMethod::MmapMadviseTouch => PreloadWork {
                single: Some(PreloadOp::MmapMadvise { bytes, touch: true }),
                offset: 0,
                end: 0,
                chunk: 1,
            },
            PreloadMethod::ChunkedReadahead => PreloadWork {
                single: None,
                offset: 0,
                end: bytes,
                chunk: if limits.chunk_bytes == 0 {
                    1
                } else {
                    limits.chunk_bytes
                },
            },
        }
    }

    /// Hands out the next piece of work.
    pub fn next(&mut self) -> (r: Option<PreloadOp>)
        ensures
            match r {
                Some(op) => old(self)@.len() > 0 && op == old(self)@[0] && final(self)@ == old(
                    self,
                )@.drop_first(),
                None => old(self)@.len() == 0 && final(self)@ == old(self)@,
            },
    {
        proof {
            use_type_invariant(&*self);
        }
        match self.single {
            Some(op) => {
                self.single = None;
                assert(self@ =~= old(self)@.drop_first());
                Some(op)
            },
            None => if self.offset < self.end {
                let rest: u64 = self.end - self.offset;
                let bytes: u64 = if rest <= self.chunk {
                    rest
                } else {
                    self.chunk
                };
                let op = PreloadOp::Readahead { offset: self.offset, bytes };
                self.offset = self.offset + bytes;
                assert(self@ =~= old(self)@.drop_first());
                Some(op)
            } else {
                None
            },
        }
    }
}

/// The read-aheads follow each other without a gap, from the offset up to the
/// end, and each has at least one byte and at most the given number.
pub proof fn law_chunks_cover(offset: u64, len: u64, chunk: u64)
    requires
        offset < len,
        chunk > 0,
    ensures
        chunks(offset, len, chunk).len() > 0,
        forall|i: int|
            0 <= i < chunks(offset, len, chunk).len() ==> (#[trigger] chunks(
                offset,
                len,
                chunk,
            )[i]) is Readahead && 0 < chunks(offset, len, chunk)[i]->Readahead_bytes <= chunk,
        chunks(offset, len, chunk)[0]->Readahead_offset == offset,
        forall|i: int, j: int|
            #![trigger chunks(offset, len, chunk)[i], chunks(offset, len, chunk)[j]]
            0 <= i && j == i + 1 && j < chunks(offset, len, chunk).len() ==> chunks(
                offset,
                len,
                chunk,
            )[j]->Readahead_offset == chunks(offset, len, chunk)[i]->Readahead_offset + chunks(
                offset,
                len,
                chunk,
            )[i]->Readahead_bytes,
        chunks(offset, len, chunk).last()->Readahead_offset + chunks(
            offset,
            len,
            chunk,
        ).last()->Readahead_bytes == len,
    decreases len - offset,
{
    let all = chunks(offset, len, chunk);
    if len - offset > chunk {
        let rest = chunks((offset + chunk) as u64, len, chunk);
        law_chunks_cover((offset + chunk) as u64, len, chunk);
        assert(all.last() == rest.last());
        assert forall|i: int| 0 <= i < all.len() implies (#[trigger] all[i]) is Readahead && 0
            < all[i]->Readahead_bytes <= chunk by {
            if i > 0 {
                assert(all[i] == rest[i - 1]);
            }
        }
        assert forall|i: int, j: int|
            #![trigger all[i], all[j]]
            0 <= i && j == i + 1 && j < all.len() implies all[j]->Readahead_offset
            == all[i]->Readahead_offset + all[i]->Readahead_bytes by {
            assert(all[j] == rest[j - 1]);
            if i > 0 {
                assert(all[i] == rest[i - 1]);
            }
        }
    }
}

/// No method warms up more than the file or more than its limit, and plain
/// read-ahead has none.
pub proof fn law_limits_hold(method: PreloadMethod, len: u64, limits: PreloadLimits)
    ensures
        capped(method, len, limits) <= len,
        cap_of(method, limits) matches Some(cap) ==> capped(method, len, limits) <= cap,
        method == PreloadMethod::Readahead ==> capped(method, len, limits) == len,
{
}

// ---------------------------------------------------------------------------
// The report
// ---------------------------------------------------------------------------

/// A file that was not warmed up, and why.
#[derive(Debug, PartialEq, Eq)]
pub struct PreloadFileError {
    pub path: EnginePath,
    pub error: String,
}

/// The model of a file that was not warmed up.
pub struct FileErrorModel {
    pub path: Seq<u8>,
    pub error: Seq<char>,
}

impl View for PreloadFileError {
    type V = FileErrorModel;

    open spec fn view(&self) -> FileErrorModel {
        FileErrorModel { path: self.path@, error: self.error@ }
    }
}

impl Clone for PreloadFileError {
    fn clone(&self) -> (r: Self)
        ensures
            r@ == self@,
    {
        PreloadFileError { path: self.path.clone(), error: self.error.clone() }
    }
}

/// What became of a plan.
#[derive(Debug, PartialEq, Eq)]
pub struct PreloadReport {
    pub attempted_files: usize,
    pub preloaded_files: usize,
    pub preloaded_bytes: u64,
    pub skipped: Vec<PreloadFileError>,
}

/// The model of a report.
#[verifier::ext_equal]
pub struct ReportModel {
    pub attempted: nat,
    pub preloaded: nat,
    pub bytes: u64,
    pub skipped: Seq<FileErrorModel>,
}

impl View for PreloadReport {
    type V = ReportModel;

    open spec fn view(&self) -> ReportModel {
        ReportModel {
            attempted: self.attempted_files as nat,
            preloaded: self.preloaded_files as nat,
            bytes: self.preloaded_bytes,
            skipped: Seq::new(self.skipped@.len(), |i: int| self.skipped@[i]@),
        }
    }
}

impl ReportModel {
    /// Nothing was attempted.
    pub open spec fn blank() -> ReportModel {
        ReportModel { attempted: 0, preloaded: 0, bytes: 0, skipped: Seq::empty() }
    }
}

impl Clone for PreloadReport {
    fn clone(&self) -> (r: Self)
        ensures
            r@ == self@,
    {
        let mut skipped: Vec<PreloadFileError> = Vec::new();
        let mut i: usize = 0;
        while i < self.skipped.len()
            invariant
                i <= self.skipped.len(),
                skipped.len() == i,
                forall|k: int| 0 <= k < i ==> (#[trigger] skipped@[k])@ == self.skipped@[k]@,
            decreases self.skipped.len() - i,
        {
            skipped.push(self.skipped[i].clone());
            i += 1;
        }
        let r = PreloadReport {
            attempted_files: self.attempted_files,
            preloaded_files: self.preloaded_files,
            preloaded_bytes: self.preloaded_bytes,
            skipped,
        };
        assert(r@ =~= self@);
        r
    }
}

impl Default for PreloadReport {
    fn default() -> (r: Self)
        ensures
            r@ == ReportModel::blank(),
    {
        let r = PreloadReport {
            attempted_files: 0,
            preloaded_files: 0,
            preloaded_bytes: 0,
            skipped: Vec::new(),
        };
        assert(r@ =~= ReportModel::blank());
        r
    }
}

/// A target and how the work on it ended.
#[derive(Debug, PartialEq, Eq)]
pub struct PreloadAttempt {
    pub target: PreloadTarget,
    pub outcome: Result<(), EngineError>,
}

/// The sum of two numbers of bytes, as far as the counter goes.
pub open spec fn bytes_sum(a: u64, b: u64) -> u64 {
    if a + b > u64::MAX {
        u64::MAX
    } else {
        (a + b) as u64
    }
}

/// The report on attempts.
pub open spec fn report_of(attempts: Seq<PreloadAttempt>, limits: PreloadLimits) -> ReportModel
    decreases attempts.len(),
{
    if attempts.len() == 0 {
        ReportModel::blank()
    } else {
        let before = report_of(attempts.drop_last(), limits);
        let attempt = attempts.last();
        match attempt.outcome {
            Ok(_) => ReportModel {
                attempted: before.attempted + 1,
                preloaded: before.preloaded + 1,
                bytes: bytes_sum(
                    before.bytes,
                    capped(attempt.target.method, attempt.target.len, limits),
                ),
                skipped: before.skipped,
            },
            Err(e) => ReportModel {
                attempted: before.attempted + 1,
                skipped: before.skipped.push(
                    FileErrorModel { path: attempt.target.path@, error: e@.text() },
                ),
                ..before
            },
        }
    }
}

/// The report on the attempts of a plan. A failed attempt is skipped and does not
/// fail the plan.
pub fn execute_preload_plan(attempts: &Vec<PreloadAttempt>, limits: &PreloadLimits) -> (r: Result<
    PreloadReport,
    EngineError,
>)
    ensures
        r matches Ok(report) && report@ == report_of(attempts@, *limits),
{
    let mut report = PreloadReport::default();
    let mut i: usize = 0;
    assert(attempts@.take(0) == Seq::<PreloadAttempt>::empty());
    while i < attempts.len()
        invariant
            i <= attempts.len(),
            report.attempted_files == i,
            report.preloaded_files <= i,
            report@ == report_of(attempts@.take(i as int), *limits),
        decreases attempts.len() - i,
    {
        let attempt = &attempts[i];
        let ghost before = report@;
        proof {
            assert(attempts@.take(i + 1).drop_last() == attempts@.take(i as int));
            assert(attempts@.take(i + 1).last() == attempts@[i as int]);
        }
        report.attempted_files += 1;
        match &attempt.outcome {
            Ok(_) => {
                report.preloaded_files += 1;
                report.preloaded_bytes = report.preloaded_bytes.saturating_add(
                    capped_len(&attempt.target, limits),
                );
                assert(report@.skipped =~= before.skipped);
            },
            Err(e) => {
                report.skipped.push(
                    PreloadFileError { path: attempt.target.path.clone(), error: e.text() },
                );
                assert(report@.skipped =~= before.skipped.push(
                    FileErrorModel { path: attempt.target.path@, error: e@.text() },
                ));
            },
        }
        i += 1;
    }
    assert(attempts@.take(i as int) == attempts@);
    Ok(report)
}

/// Every attempt is counted once: as preloaded or as skipped.
pub proof fn law_attempts_are_accounted(attempts: Seq<PreloadAttempt>, limits: PreloadLimits)
    ensures
        report_of(attempts, limits).attempted == attempts.len(),
        report_of(attempts, limits).preloaded + report_of(attempts, limits).skipped.len()
            == attempts.len(),
    decreases attempts.len(),
{
    if attempts.len() > 0 {
        law_attempts_are_accounted(attempts.drop_last(), limits);
    }
}

/// How many bytes a piece of work covers.
pub open spec fn op_bytes(op: PreloadOp) -> nat {
    match op {
        PreloadOp::Readahead { bytes, .. } => bytes as nat,
        PreloadOp::MmapMadvise { bytes, .. } => bytes as nat,
    }
}

/// How many bytes several pieces of work cover.
pub open spec fn total_bytes(ops: Seq<PreloadOp>) -> nat
    decreases ops.len(),
{
    if ops.len() == 0 {
        0
    } else {
        op_bytes(ops.first()) + total_bytes(ops.drop_first())
    }
}

/// How many bytes the work on the targets covers whose attempts went well.
pub open spec fn covered_bytes(attempts: Seq<PreloadAttempt>, limits: PreloadLimits) -> nat
    decreases attempts.len(),
{
    if attempts.len() == 0 {
        0
    } else {
        let target = attempts.last().target;
        covered_bytes(attempts.drop_last(), limits) + if attempts.last().outcome is Ok {
            total_bytes(work(target.method, target.len, limits))
        } else {
            0
        }
    }
}

proof fn lemma_chunks_total(offset: u64, len: u64, chunk: u64)
    requires
        offset <= len,
        chunk > 0,
    ensures
        total_bytes(chunks(offset, len, chunk)) == len - offset,
    decreases len - offset,
{
    let all = chunks(offset, len, chunk);
    if offset < len {
        if len - offset <= chunk {
            assert(all.drop_first() =~= Seq::<PreloadOp>::empty());
            assert(total_bytes(all.drop_first()) == 0);
        } else {
            lemma_chunks_total((offset + chunk) as u64, len, chunk);
            assert(all.drop_first() =~= chunks((offset + chunk) as u64, len, chunk));
        }
    }
}

/// Whether some work is one mapping of a file up to a limit, if there is one.
pub open spec fn one_mapping(ops: Seq<PreloadOp>, len: u64, limit: Option<u64>, touch: bool) -> bool {
    &&& ops.len() == 1
    &&& ops[0] matches PreloadOp::MmapMadvise { bytes, touch: touched } && touched == touch
        && match limit {
        None => bytes == len,
        Some(most) => bytes <= len && bytes <= most && (bytes == len || bytes == most),
    }
}

/// What the work on a target covers. A plain read-ahead covers the whole file, in
/// one piece; the mappings cover the file up to the limit that stands for them, in
/// one piece, with the pages touched or not as the method says; the read-aheads in
/// chunks together cover the file up to the limit for assets, each of them starting
/// where the one before it ended and none longer than a chunk.
pub proof fn law_work_covers_target(len: u64, limits: PreloadLimits)
    ensures
        work(PreloadMethod::Readahead, len, limits) == seq![
            PreloadOp::Readahead { offset: 0, bytes: len },
        ],
        one_mapping(
            work(PreloadMethod::MmapMadvise, len, limits),
            len,
            limits.mmap_madvise_max_bytes,
            false,
        ),
        one_mapping(
            work(PreloadMethod::MmapMadviseTouch, len, limits),
            len,
            limits.mmap_touch_max_bytes,
            true,
        ),
        ({
            let ops = work(PreloadMethod::ChunkedReadahead, len, limits);
            &&& match limits.asset_max_bytes {
                None => total_bytes(ops) == len,
                Some(most) => total_bytes(ops) <= len && total_bytes(ops) <= most && (
                total_bytes(ops) == len || total_bytes(ops) == most),
            }
            &&& forall|i: int|
                0 <= i < ops.len() ==> (#[trigger] ops[i] matches PreloadOp::Readahead {
                    offset,
                    bytes,
                } && offset == total_bytes(ops.take(i)) && 0 < bytes && (bytes
                    <= limits.chunk_bytes || bytes == 1))
        }),
{
    let ops = work(PreloadMethod::ChunkedReadahead, len, limits);
    let end = capped(PreloadMethod::ChunkedReadahead, len, limits);
    let chunk = if limits.chunk_bytes == 0 {
        1u64
    } else {
        limits.chunk_bytes
    };
    lemma_chunks_total(0, end, chunk);
    if end > 0 {
        law_chunks_cover(0, end, chunk);
    }
    assert forall|i: int| 0 <= i < ops.len() implies (#[trigger] ops[i] matches PreloadOp::Readahead {
        offset,
        bytes,
    } && offset == total_bytes(ops.take(i)) && 0 < bytes && (bytes <= limits.chunk_bytes || bytes
        == 1)) by {
        lemma_chunk_offset(0, end, chunk, i);
    }
}

proof fn lemma_chunk_offset(offset: u64, len: u64, chunk: u64, i: int)
    requires
        chunk > 0,
        0 <= i < chunks(offset, len, chunk).len(),
    ensures
        chunks(offset, len, chunk)[i] is Readahead,
        chunks(offset, len, chunk)[i]->Readahead_offset == offset + total_bytes(
            chunks(offset, len, chunk).take(i),
        ),
    decreases i,
{
    let all = chunks(offset, len, chunk);
    if i > 0 {
        let rest = chunks((offset + chunk) as u64, len, chunk);
        lemma_chunk_offset((offset + chunk) as u64, len, chunk, i - 1);
        assert(all[i] == rest[i - 1]);
        assert(all.take(i).drop_first() =~= rest.take(i - 1));
        assert(all.take(i).first() == all[0]);
    }
}

proof fn lemma_work_total(method: PreloadMethod, len: u64, limits: PreloadLimits)
    ensures
        total_bytes(work(method, len, limits)) == capped(method, len, limits),
{
    let ops = work(method, len, limits);
    match method {
        PreloadMethod::ChunkedReadahead => {
            lemma_chunks_total(
                0,
                capped(method, len, limits),
                if limits.chunk_bytes == 0 {
                    1
                } else {
                    limits.chunk_bytes
                },
            );
        },
        _ => {
            assert(ops.drop_first() =~= Seq::<PreloadOp>::empty());
            assert(total_bytes(ops.drop_first()) == 0);
        },
    }
}

/// The reported bytes are those that the work of the attempts that went well
/// covers, as far as the counter goes.
pub proof fn law_reported_bytes_are_covered(attempts: Seq<PreloadAttempt>, limits: PreloadLimits)
    ensures
        report_of(attempts, limits).bytes == if covered_bytes(attempts, limits) <= u64::MAX {
            covered_bytes(attempts, limits) as int
        } else {
            u64::MAX as int
        },
    decreases attempts.len(),
{
    if attempts.len() > 0 {
        law_reported_bytes_are_covered(attempts.drop_last(), limits);
        let target = attempts.last().target;
        lemma_work_total(target.method, target.len, limits);
    }
}

/// One attempt more adds one to the attempts. If it went well, it adds one to the
/// preloaded files and, for a plain read-ahead, the whole length of its target to
/// the bytes; if it failed, it adds its path and the words of its error to the
/// files that were skipped. Nothing else of the report changes.
pub proof fn law_attempt_adds_to_report(
    attempts: Seq<PreloadAttempt>,
    attempt: PreloadAttempt,
    limits: PreloadLimits,
)
    ensures
        ({
            let before = report_of(attempts, limits);
            let after = report_of(attempts.push(attempt), limits);
            &&& after.attempted == before.attempted + 1
            &&& attempt.outcome is Ok ==> after.preloaded == before.preloaded + 1 && after.skipped
                == before.skipped && after.bytes >= before.bytes
            &&& attempt.outcome is Ok && attempt.target.method == PreloadMethod::Readahead ==> (
            if before.bytes + attempt.target.len <= u64::MAX {
                after.bytes == before.bytes + attempt.target.len
            } else {
                after.bytes == u64::MAX
            })
            &&& attempt.outcome matches Err(e) ==> after.preloaded == before.preloaded
                && after.bytes == before.bytes && after.skipped.len() == before.skipped.len() + 1
                && after.skipped.drop_last() == before.skipped && after.skipped.last().path
                == attempt.target.path@ && after.skipped.last().error == e@.text()
        }),
        report_of(Seq::empty(), limits).attempted == 0,
        report_of(Seq::empty(), limits).preloaded == 0,
        report_of(Seq::empty(), limits).bytes == 0,
        report_of(Seq::empty(), limits).skipped.len() == 0,
{
    let all = attempts.push(attempt);
    assert(all.drop_last() =~= attempts);
    assert(all.last() == attempt);
    let before = report_of(attempts, limits);
    let after = report_of(all, limits);
    if attempt.outcome is Err {
        assert(after.skipped.drop_last() =~= before.skipped);
    }
}

/// All read-aheads in chunks but the last have the full size of a chunk, which is at
/// least one byte.
pub proof fn law_chunks_are_full(len: u64, limits: PreloadLimits, i: int)
    requires
        0 <= i < work(PreloadMethod::ChunkedReadahead, len, limits).len() - 1,
    ensures
        work(PreloadMethod::ChunkedReadahead, len, limits)[i] matches PreloadOp::Readahead {
            bytes,
            ..
        } && bytes == if limits.chunk_bytes == 0 {
            1
        } else {
            limits.chunk_bytes
        },
{
    let chunk = if limits.chunk_bytes == 0 {
        1u64
    } else {
        limits.chunk_bytes
    };
    lemma_full_chunk(0, capped(PreloadMethod::ChunkedReadahead, len, limits), chunk, i);
}

proof fn lemma_full_chunk(offset: u64, len: u64, chunk: u64, i: int)
    requires
        chunk > 0,
        0 <= i < chunks(offset, len, chunk).len() - 1,
    ensures
        chunks(offset, len, chunk)[i] is Readahead,
        chunks(offset, len, chunk)[i]->Readahead_bytes == chunk,
    decreases i,
{
    if i > 0 {
        lemma_full_chunk((offset + chunk) as u64, len, chunk, i - 1);
        assert(chunks(offset, len, chunk)[i] == chunks((offset + chunk) as u64, len, chunk)[i - 1]);
    }
}

} // verus!

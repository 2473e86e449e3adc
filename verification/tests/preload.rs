use coreshift_engine::error::IoErrorKind;
use coreshift_engine::path::EnginePath;
use coreshift_engine::preload::{
    capped_len, execute_preload_plan, PreloadAttempt, PreloadLimits, PreloadMethod, PreloadOp,
    PreloadTarget, PreloadWork,
};
use coreshift_engine::EngineError;

fn target(method: PreloadMethod, len: u64) -> PreloadTarget {
    PreloadTarget {
        path: EnginePath::new("/data/app/base.apk"),
        method,
        len,
    }
}

fn limits() -> PreloadLimits {
    PreloadLimits {
        mmap_madvise_max_bytes: Some(100),
        mmap_touch_max_bytes: Some(50),
        asset_max_bytes: Some(70),
        chunk_bytes: 32,
    }
}

fn all(target: &PreloadTarget, limits: &PreloadLimits) -> Vec<PreloadOp> {
    let mut work = PreloadWork::new(target, limits);
    let mut ops = Vec::new();
    while let Some(op) = work.next() {
        ops.push(op);
    }
    assert_eq!(work.next(), None);
    ops
}

#[test]
fn limits_are_off_and_chunks_are_large_where_nothing_is_said() {
    let limits = PreloadLimits::default();
    assert_eq!(limits.chunk_bytes, 16_777_216);
    for method in [
        PreloadMethod::Readahead,
        PreloadMethod::MmapMadvise,
        PreloadMethod::MmapMadviseTouch,
        PreloadMethod::ChunkedReadahead,
    ] {
        assert_eq!(capped_len(&target(method, u64::MAX), &limits), u64::MAX);
    }
}

#[test]
fn each_method_has_its_own_limit() {
    assert_eq!(capped_len(&target(PreloadMethod::Readahead, 1_000), &limits()), 1_000);
    assert_eq!(capped_len(&target(PreloadMethod::MmapMadvise, 1_000), &limits()), 100);
    assert_eq!(capped_len(&target(PreloadMethod::MmapMadviseTouch, 1_000), &limits()), 50);
    assert_eq!(capped_len(&target(PreloadMethod::ChunkedReadahead, 1_000), &limits()), 70);
    assert_eq!(capped_len(&target(PreloadMethod::ChunkedReadahead, 7), &limits()), 7);
}

#[test]
fn single_methods_are_one_piece_of_work() {
    assert_eq!(
        all(&target(PreloadMethod::Readahead, 9), &limits()),
        vec![PreloadOp::Readahead { offset: 0, bytes: 9 }]
    );
    assert_eq!(
        all(&target(PreloadMethod::MmapMadvise, 900), &limits()),
        vec![PreloadOp::MmapMadvise { bytes: 100, touch: false }]
    );
    assert_eq!(
        all(&target(PreloadMethod::MmapMadviseTouch, 900), &limits()),
        vec![PreloadOp::MmapMadvise { bytes: 50, touch: true }]
    );
}

#[test]
fn chunks_cover_the_file_without_gaps() {
    assert_eq!(
        all(&target(PreloadMethod::ChunkedReadahead, 900), &limits()),
        vec![
            PreloadOp::Readahead { offset: 0, bytes: 32 },
            PreloadOp::Readahead { offset: 32, bytes: 32 },
            PreloadOp::Readahead { offset: 64, bytes: 6 },
        ]
    );
    assert!(all(&target(PreloadMethod::ChunkedReadahead, 0), &limits()).is_empty());
}

#[test]
fn a_chunk_of_nothing_is_a_chunk_of_one() {
    let limits = PreloadLimits { chunk_bytes: 0, ..PreloadLimits::default() };
    assert_eq!(all(&target(PreloadMethod::ChunkedReadahead, 3), &limits).len(), 3);
}

#[test]
fn the_report_counts_every_attempt_once() {
    let failed = EngineError::io(IoErrorKind::NotFound, "No such file or directory (os error 2)");
    let core = EngineError::Core { code: 5, op: "readahead" };
    let attempts = vec![
        PreloadAttempt { target: target(PreloadMethod::Readahead, 10), outcome: Ok(()) },
        PreloadAttempt { target: target(PreloadMethod::Readahead, 20), outcome: Err(failed) },
        PreloadAttempt { target: target(PreloadMethod::MmapMadvise, 900), outcome: Ok(()) },
        PreloadAttempt { target: target(PreloadMethod::MmapMadvise, 900), outcome: Err(core) },
    ];
    let report = execute_preload_plan(&attempts, &limits()).unwrap();
    assert_eq!(report.attempted_files, 4);
    assert_eq!(report.preloaded_files, 2);
    assert_eq!(report.preloaded_bytes, 110);
    assert_eq!(report.skipped.len(), 2);
    assert_eq!(report.skipped[0].error, "No such file or directory (os error 2)");
    assert_eq!(report.skipped[1].error, "readahead failed (code=5)");
    assert_eq!(report.skipped[1].path, EnginePath::new("/data/app/base.apk"));
}

#[test]
fn the_number_of_bytes_does_not_wrap() {
    let attempts: Vec<PreloadAttempt> = (0..2)
        .map(|_| PreloadAttempt {
            target: target(PreloadMethod::Readahead, u64::MAX),
            outcome: Ok(()),
        })
        .collect();
    let report = execute_preload_plan(&attempts, &PreloadLimits::default()).unwrap();
    assert_eq!(report.preloaded_bytes, u64::MAX);
    assert_eq!(report.preloaded_files, 2);
}

#[test]
fn an_empty_plan_reports_nothing() {
    let report = execute_preload_plan(&Vec::new(), &limits()).unwrap();
    assert_eq!(report.attempted_files, 0);
    assert!(report.skipped.is_empty());
}

//! Who is asked about what by the source that asks others in turn.
use vstd::prelude::*;

use crate::error::EngineError;
use crate::services::foreground::auto::AutoForegroundSource;
use crate::services::foreground::source::{
    ForegroundCandidate, ForegroundSource, ForegroundSourceKind,
};
use crate::{path, services::foreground, services::foreground::source};

verus! {

/// Whether an answer comes about in turn: the first source is asked one thing, and
/// if it answers, that is the answer and the second is left alone; if it fails, the
/// second is asked another thing, and if that fails too, the activity manager. The
/// first source works from then on exactly if it answered.
pub open spec fn in_turn<V1, V2, A>(
    pre: AutoForegroundSource<V1, V2, A>,
    first_call: source::SourceCall,
    second_call: source::SourceCall,
    post: AutoForegroundSource<V1, V2, A>,
    r: source::SourceAnswer,
) -> bool where
    V1: ForegroundSource,
    V2: ForegroundSource,
    A: FnMut() -> Result<Option<ForegroundCandidate>, EngineError>,
 {
    if post.first_works() {
        &&& r is Ok
        &&& V1::answers(pre.first(), first_call, post.first(), r)
        &&& post.second() == pre.second()
    } else {
        &&& exists|e: EngineError| #[trigger]
            V1::answers(pre.first(), first_call, post.first(), Err(e))
        &&& (r is Ok && V2::answers(pre.second(), second_call, post.second(), r)) || (exists|
            e: EngineError,
        | #[trigger]
            V2::answers(pre.second(), second_call, post.second(), Err(e)) && call_ensures(
                pre.last_resort(),
                (),
                r,
            ))
    }
}

/// Whether the paths to watch are right after an answer: they are those of the first
/// source once it works again, those of both once it does not any more, and else
/// they stay.
pub open spec fn watches_follow<V1, V2, A>(
    pre: AutoForegroundSource<V1, V2, A>,
    post: AutoForegroundSource<V1, V2, A>,
) -> bool where V1: ForegroundSource, V2: ForegroundSource {
    if post.first_works() == pre.first_works() {
        post.watched() == pre.watched()
    } else if post.first_works() {
        post.watched() == post.first().hints()
    } else {
        post.watched() == foreground::auto::merged(post.first().hints(), pre.second().hints())
    }
}

proof fn lemma_fallback<V1, V2, A>(
    pre: AutoForegroundSource<V1, V2, A>,
    call: source::SourceCall,
    post: AutoForegroundSource<V1, V2, A>,
    r: source::SourceAnswer,
) where
    V1: ForegroundSource,
    V2: ForegroundSource,
    A: FnMut() -> Result<Option<ForegroundCandidate>, EngineError>,

    requires
        AutoForegroundSource::<V1, V2, A>::falls_back(pre, call, post, r),
    ensures
        (r is Ok && V2::answers(pre.second(), call, post.second(), r)) || (exists|e: EngineError|
         #[trigger]
            V2::answers(pre.second(), call, post.second(), Err(e)) && call_ensures(
                pre.last_resort(),
                (),
                r,
            )),
{
    let next = choose|next: source::SourceAnswer|
        {
            &&& #[trigger] V2::answers(pre.second(), call, post.second(), next)
            &&& match next {
                Ok(_) => r == next,
                Err(_) => call_ensures(pre.last_resort(), (), r),
            }
        };
    if let Err(e) = next {
        assert(V2::answers(pre.second(), call, post.second(), Err(e)));
    }
}

/// On a poll the sources are asked in turn what is in the foreground.
pub proof fn law_poll_asks_in_turn<V1, V2, A>(
    pre: AutoForegroundSource<V1, V2, A>,
    post: AutoForegroundSource<V1, V2, A>,
    r: source::SourceAnswer,
) where
    V1: ForegroundSource,
    V2: ForegroundSource,
    A: FnMut() -> Result<Option<ForegroundCandidate>, EngineError>,

    requires
        AutoForegroundSource::<V1, V2, A>::answers(pre, source::SourceCall::Poll, post, r),
    ensures
        in_turn(pre, source::SourceCall::Poll, source::SourceCall::Poll, post, r),
        watches_follow(pre, post),
{
    let answer = choose|answer: source::SourceAnswer|
        {
            &&& #[trigger] V1::answers(
                pre.first(),
                source::SourceCall::Poll,
                post.first(),
                answer,
            )
            &&& post.first_works() == (answer is Ok)
            &&& post.watched() == foreground::auto::hints_after(
                pre.watched(),
                pre.first_works(),
                post.first().hints(),
                pre.second().hints(),
                answer is Ok,
            )
            &&& match answer {
                Ok(_) => post.second() == pre.second() && r == answer,
                Err(_) => AutoForegroundSource::<V1, V2, A>::falls_back(
                    pre,
                    source::SourceCall::Poll,
                    post,
                    r,
                ),
            }
        };
    if let Err(e) = answer {
        assert(V1::answers(pre.first(), source::SourceCall::Poll, post.first(), Err(e)));
        lemma_fallback(pre, source::SourceCall::Poll, post, r);
    }
}

/// Of an event at a path of the first source, that source is asked what it makes of
/// it; only if it fails is the second asked what is in the foreground.
pub proof fn law_event_of_first_source<V1, V2, A>(
    pre: AutoForegroundSource<V1, V2, A>,
    event_path: Seq<u8>,
    mask: u32,
    post: AutoForegroundSource<V1, V2, A>,
    r: source::SourceAnswer,
    i: int,
) where
    V1: ForegroundSource,
    V2: ForegroundSource,
    A: FnMut() -> Result<Option<ForegroundCandidate>, EngineError>,

    requires
        AutoForegroundSource::<V1, V2, A>::answers(
            pre,
            source::SourceCall::FsEventWithMask(event_path, mask),
            post,
            r,
        ),
        0 <= i < pre.first().hints().len(),
        path::components(pre.first().hints()[i]) == path::components(event_path),
    ensures
        in_turn(
            pre,
            source::SourceCall::FsEventWithMask(event_path, mask),
            source::SourceCall::Poll,
            post,
            r,
        ),
        watches_follow(pre, post),
{
    let call = source::SourceCall::FsEventWithMask(event_path, mask);
    assert(foreground::auto::has_path(pre.first().hints(), event_path));
    let answer = choose|answer: source::SourceAnswer|
        {
            &&& #[trigger] V1::answers(pre.first(), call, post.first(), answer)
            &&& post.first_works() == (answer is Ok)
            &&& post.watched() == foreground::auto::hints_after(
                pre.watched(),
                pre.first_works(),
                post.first().hints(),
                pre.second().hints(),
                answer is Ok,
            )
            &&& match answer {
                Ok(_) => post.second() == pre.second() && r == answer,
                Err(_) => AutoForegroundSource::<V1, V2, A>::falls_back(
                    pre,
                    source::SourceCall::Poll,
                    post,
                    r,
                ),
            }
        };
    if let Err(e) = answer {
        assert(V1::answers(pre.first(), call, post.first(), Err(e)));
        lemma_fallback(pre, source::SourceCall::Poll, post, r);
    }
}

proof fn lemma_recovery<V1, V2, A>(
    pre: AutoForegroundSource<V1, V2, A>,
    call: source::SourceCall,
    post: AutoForegroundSource<V1, V2, A>,
    r: source::SourceAnswer,
) where
    V1: ForegroundSource,
    V2: ForegroundSource,
    A: FnMut() -> Result<Option<ForegroundCandidate>, EngineError>,

    requires
        AutoForegroundSource::<V1, V2, A>::recovers_or(pre, call, post, r),
        !pre.first_works(),
    ensures
        in_turn(pre, source::SourceCall::Poll, call, post, r),
        watches_follow(pre, post),
{
    let answer = choose|answer: source::SourceAnswer|
        {
            &&& #[trigger] V1::answers(
                pre.first(),
                source::SourceCall::Poll,
                post.first(),
                answer,
            )
            &&& post.first_works() == (answer is Ok)
            &&& post.watched() == foreground::auto::hints_after(
                pre.watched(),
                false,
                post.first().hints(),
                pre.second().hints(),
                answer is Ok,
            )
            &&& match answer {
                Ok(_) => post.second() == pre.second() && r == answer,
                Err(_) => AutoForegroundSource::<V1, V2, A>::falls_back(pre, call, post, r),
            }
        };
    if let Err(e) = answer {
        assert(V1::answers(pre.first(), source::SourceCall::Poll, post.first(), Err(e)));
        lemma_fallback(pre, call, post, r);
    }
}

/// An event at a path of the second source alone, or directly in one, says nothing
/// while the first source works. Otherwise the first is asked what is in the
/// foreground, and only if it fails is the second asked what it makes of the event.
pub proof fn law_event_of_second_source<V1, V2, A>(
    pre: AutoForegroundSource<V1, V2, A>,
    event_path: Seq<u8>,
    mask: u32,
    post: AutoForegroundSource<V1, V2, A>,
    r: source::SourceAnswer,
    i: int,
) where
    V1: ForegroundSource,
    V2: ForegroundSource,
    A: FnMut() -> Result<Option<ForegroundCandidate>, EngineError>,

    requires
        AutoForegroundSource::<V1, V2, A>::answers(
            pre,
            source::SourceCall::FsEventWithMask(event_path, mask),
            post,
            r,
        ),
        !foreground::auto::has_path(pre.first().hints(), event_path),
        0 <= i < pre.second().hints().len(),
        path::components(pre.second().hints()[i]) == path::components(event_path)
            || path::is_parent(pre.second().hints()[i], event_path),
    ensures
        pre.first_works() ==> {
            &&& r == Ok::<Option<ForegroundCandidate>, EngineError>(None)
            &&& post.first() == pre.first() && post.second() == pre.second()
            &&& post.first_works() && post.watched() == pre.watched()
        },
        !pre.first_works() ==> in_turn(
            pre,
            source::SourceCall::Poll,
            source::SourceCall::FsEventWithMask(event_path, mask),
            post,
            r,
        ) && watches_follow(pre, post),
{
    assert(foreground::auto::has_path_or_parent(pre.second().hints(), event_path));
    if !pre.first_works() {
        lemma_recovery(pre, source::SourceCall::FsEventWithMask(event_path, mask), post, r);
    }
}

/// An event at a path of neither source is answered as a poll is.
pub proof fn law_event_elsewhere_is_a_poll<V1, V2, A>(
    pre: AutoForegroundSource<V1, V2, A>,
    event_path: Seq<u8>,
    mask: u32,
    post: AutoForegroundSource<V1, V2, A>,
    r: source::SourceAnswer,
) where
    V1: ForegroundSource,
    V2: ForegroundSource,
    A: FnMut() -> Result<Option<ForegroundCandidate>, EngineError>,

    requires
        !foreground::auto::has_path(pre.first().hints(), event_path),
        !foreground::auto::has_path_or_parent(pre.second().hints(), event_path),
    ensures
        AutoForegroundSource::<V1, V2, A>::answers(
            pre,
            source::SourceCall::FsEventWithMask(event_path, mask),
            post,
            r,
        ) <==> AutoForegroundSource::<V1, V2, A>::answers(
            pre,
            source::SourceCall::Poll,
            post,
            r,
        ),
        AutoForegroundSource::<V1, V2, A>::answers(
            pre,
            source::SourceCall::FsEvent(event_path),
            post,
            r,
        ) <==> AutoForegroundSource::<V1, V2, A>::answers(
            pre,
            source::SourceCall::Poll,
            post,
            r,
        ),
{
}

/// A signal at a priority descriptor, or its failure, says nothing while the first
/// source works. Otherwise the first is asked what is in the foreground, and only if
/// it fails is the second told of the descriptor.
pub proof fn law_priority_is_for_second_source<V1, V2, A>(
    pre: AutoForegroundSource<V1, V2, A>,
    call: source::SourceCall,
    post: AutoForegroundSource<V1, V2, A>,
    r: source::SourceAnswer,
) where
    V1: ForegroundSource,
    V2: ForegroundSource,
    A: FnMut() -> Result<Option<ForegroundCandidate>, EngineError>,

    requires
        call is Priority || call is StalePriority,
        AutoForegroundSource::<V1, V2, A>::answers(pre, call, post, r),
    ensures
        pre.first_works() ==> {
            &&& r == Ok::<Option<ForegroundCandidate>, EngineError>(None)
            &&& post.first() == pre.first() && post.second() == pre.second()
            &&& post.first_works() && post.watched() == pre.watched()
        },
        !pre.first_works() ==> in_turn(pre, source::SourceCall::Poll, call, post, r)
            && watches_follow(pre, post),
{
    if !pre.first_works() {
        lemma_recovery(pre, call, post, r);
    }
}

/// The priority descriptors are those of the second source while the first does not
/// work, and there are none while it does. A path is watched for the events that the
/// source wants whose path it is, the first before the second.
pub proof fn law_second_source_has_descriptors<V1, V2, A>(
    s: AutoForegroundSource<V1, V2, A>,
    registered: Set<Seq<Seq<u8>>>,
    p: Seq<u8>,
) where
    V1: ForegroundSource,
    V2: ForegroundSource,
    A: FnMut() -> Result<Option<ForegroundCandidate>, EngineError>,

    ensures
        s.first_works() ==> s.priority_paths().len() == 0 && s.priority_keys().len() == 0
            && s.unregistered(registered).len() == 0,
        !s.first_works() ==> s.priority_paths() == s.second().priority_paths()
            && s.priority_keys() == s.second().priority_keys() && s.unregistered(registered)
            == s.second().unregistered(registered),
        s.holds_descriptor(p) == s.second().holds_descriptor(p),
        foreground::auto::has_path(s.first().hints(), p) ==> s.hint_mask(p) == s.first().hint_mask(p),
        !foreground::auto::has_path(s.first().hints(), p) ==> s.hint_mask(p) == s.second().hint_mask(p),
        s.hints() == s.watched(),
        s.kind_is() == ForegroundSourceKind::Auto,
        s.first_works() ==> (s.may_be_available(true) && !s.may_be_available(false)),
        !s.first_works() ==> forall|r: bool| #[trigger]
            s.may_be_available(r) == s.second().may_be_available(r),
{
}

/// Merged paths start with those of the first list as they stand, and what is added
/// comes from the second and was not there before.
pub proof fn law_merging_adds_what_is_new(first: Seq<Seq<u8>>, second: Seq<Seq<u8>>, i: int)
    requires
        0 <= i < foreground::auto::merged(first, second).len(),
    ensures
        foreground::auto::merged(first, second).len() >= first.len(),
        i < first.len() ==> foreground::auto::merged(first, second)[i] == first[i],
        i >= first.len() ==> second.contains(foreground::auto::merged(first, second)[i]) && !foreground::auto::has_path(
            foreground::auto::merged(first, second).take(i),
            foreground::auto::merged(first, second)[i],
        ),
    decreases second.len(),
{
    if second.len() > 0 {
        let front = second.drop_last();
        let before = foreground::auto::merged(first, front);
        let after = foreground::auto::merged(first, second);
        if i < before.len() {
            law_merging_adds_what_is_new(first, front, i);
            assert(after[i] == before[i]);
            assert(after.take(i) =~= before.take(i));
            if i >= first.len() {
                let k = front.index_of(before[i]);
                assert(second[k] == front[k]);
            }
        } else {
            lemma_merged_len(first, front);
            assert(after.take(i) =~= before);
            assert(second[second.len() - 1] == after[i]);
        }
    }
}

proof fn lemma_merged_len(first: Seq<Seq<u8>>, second: Seq<Seq<u8>>)
    ensures
        foreground::auto::merged(first, second).len() >= first.len(),
    decreases second.len(),
{
    if second.len() > 0 {
        lemma_merged_len(first, second.drop_last());
    }
}

/// A path is among others exactly if one of them has the same components, and it is
/// among them or in one of them exactly if one has the same components or those but
/// the last.
pub proof fn law_paths_are_compared_by_components(paths: Seq<Seq<u8>>, p: Seq<u8>)
    ensures
        foreground::auto::has_path(paths, p) <==> exists|i: int|
            0 <= i < paths.len() && path::components(#[trigger] paths[i]) == path::components(p),
        foreground::auto::has_path_or_parent(paths, p) <==> exists|i: int|
            0 <= i < paths.len() && (path::components(#[trigger] paths[i]) == path::components(p)
                || (path::components(p).len() > 0 && path::components(p).last() != path::root()
                && path::components(paths[i]) == path::components(p).drop_last())),
{
    if foreground::auto::has_path_or_parent(paths, p) {
        let i = choose|i: int|
            0 <= i < paths.len() && (path::components(#[trigger] paths[i]) == path::components(p)
                || path::is_parent(paths[i], p));
        assert(path::components(paths[i]) == path::components(paths[i]));
    }
    if exists|i: int|
        0 <= i < paths.len() && (path::components(#[trigger] paths[i]) == path::components(p) || (
        path::components(p).len() > 0 && path::components(p).last() != path::root()
            && path::components(paths[i]) == path::components(p).drop_last())) {
        let i = choose|i: int|
            0 <= i < paths.len() && (path::components(#[trigger] paths[i]) == path::components(p)
                || (path::components(p).len() > 0 && path::components(p).last() != path::root()
                && path::components(paths[i]) == path::components(p).drop_last()));
        assert(path::components(paths[i]) == path::components(p) || path::is_parent(paths[i], p));
    }
}

} // verus!

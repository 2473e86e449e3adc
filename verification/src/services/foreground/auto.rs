//! A source that asks others in turn.
use vstd::prelude::*;

use crate::error::EngineError;
use crate::path::{EnginePath, PathSet};
use crate::services::foreground::source::{
    ForegroundCandidate, ForegroundSource, ForegroundSourceKind,
};
use crate::{path, services::foreground::source};

verus! {

/// Asks a first source; where that fails, a second; and where that fails too,
/// the activity manager.
pub struct AutoForegroundSource<V1, V2, A> {
    v1: V1,
    v2: V2,
    activity: A,
    watch_hint_paths: Vec<EnginePath>,
    v1_available: bool,
}

impl<V1, V2, A> AutoForegroundSource<V1, V2, A> {
    /// The first source.
    pub closed spec fn first(&self) -> V1 {
        self.v1
    }

    /// The second source.
    pub closed spec fn second(&self) -> V2 {
        self.v2
    }

    /// What asks the activity manager.
    pub closed spec fn last_resort(&self) -> A {
        self.activity
    }

    /// The paths to watch.
    pub closed spec fn watched(&self) -> Seq<Seq<u8>> {
        source::path_models(self.watch_hint_paths@)
    }

    /// Whether the first source answered when it was last asked.
    pub closed spec fn first_works(&self) -> bool {
        self.v1_available
    }
}

/// Whether a path is among others.
pub open spec fn has_path(paths: Seq<Seq<u8>>, p: Seq<u8>) -> bool {
    exists|i: int|
        0 <= i < paths.len() && path::components(#[trigger] paths[i]) == path::components(p)
}

/// Whether a path is among others or stands directly in one of them.
pub open spec fn has_path_or_parent(paths: Seq<Seq<u8>>, p: Seq<u8>) -> bool {
    exists|i: int|
        0 <= i < paths.len() && (path::components(#[trigger] paths[i]) == path::components(p)
            || path::is_parent(paths[i], p))
}

/// Paths with those of a second list that are not there yet.
pub open spec fn merged(paths: Seq<Seq<u8>>, more: Seq<Seq<u8>>) -> Seq<Seq<u8>>
    decreases more.len(),
{
    if more.len() == 0 {
        paths
    } else {
        let before = merged(paths, more.drop_last());
        if has_path(before, more.last()) {
            before
        } else {
            before.push(more.last())
        }
    }
}

/// The paths to watch: those of the first source, and while it does not work
/// those of the second too.
pub open spec fn hints_for(
    first: Seq<Seq<u8>>,
    second: Seq<Seq<u8>>,
    first_works: bool,
) -> Seq<Seq<u8>> {
    if first_works {
        first
    } else {
        merged(first, second)
    }
}

/// The paths to watch once it is known whether the first source works: they are
/// drawn up anew only if that changed.
pub open spec fn hints_after(
    watched: Seq<Seq<u8>>,
    worked: bool,
    first: Seq<Seq<u8>>,
    second: Seq<Seq<u8>>,
    works: bool,
) -> Seq<Seq<u8>> {
    if worked == works {
        watched
    } else {
        hints_for(first, second, works)
    }
}

fn contains_path(paths: &Vec<EnginePath>, p: &EnginePath) -> (r: bool)
    ensures
        r == has_path(source::path_models(paths@), p@),
{
    let ghost all = source::path_models(paths@);
    let mut i: usize = 0;
    while i < paths.len()
        invariant
            i <= paths.len(),
            all == source::path_models(paths@),
            forall|k: int| 0 <= k < i ==> path::components(#[trigger] all[k]) != p.comps(),
        decreases paths.len() - i,
    {
        assert(all[i as int] == paths@[i as int]@);
        if paths[i].same_as(p) {
            return true;
        }
        i += 1;
    }
    false
}

fn contains_path_or_parent(paths: &Vec<EnginePath>, p: &EnginePath) -> (r: bool)
    ensures
        r == has_path_or_parent(source::path_models(paths@), p@),
{
    let ghost all = source::path_models(paths@);
    let mut i: usize = 0;
    while i < paths.len()
        invariant
            i <= paths.len(),
            all == source::path_models(paths@),
            forall|k: int|
                0 <= k < i ==> path::components(#[trigger] all[k]) != p.comps()
                    && !path::is_parent(all[k], p@),
        decreases paths.len() - i,
    {
        assert(all[i as int] == paths@[i as int]@);
        if paths[i].same_as(p) || p.has_parent(&paths[i]) {
            return true;
        }
        i += 1;
    }
    false
}

fn merge_paths(paths: &Vec<EnginePath>, more: &Vec<EnginePath>, all: bool) -> (r: Vec<EnginePath>)
    ensures
        source::path_models(r@) == if all {
            merged(source::path_models(paths@), source::path_models(more@))
        } else {
            source::path_models(paths@)
        },
{
    let ghost first = source::path_models(paths@);
    let ghost second = source::path_models(more@);
    let mut r: Vec<EnginePath> = Vec::new();
    let mut i: usize = 0;
    while i < paths.len()
        invariant
            i <= paths.len(),
            r.len() == i,
            forall|k: int| 0 <= k < i ==> (#[trigger] r@[k])@ == paths@[k]@,
        decreases paths.len() - i,
    {
        r.push(paths[i].clone());
        i += 1;
    }
    assert(source::path_models(r@) =~= first);
    if !all {
        return r;
    }
    let mut j: usize = 0;
    assert(second.take(0) == Seq::<Seq<u8>>::empty());
    while j < more.len()
        invariant
            j <= more.len(),
            second == source::path_models(more@),
            source::path_models(r@) == merged(first, second.take(j as int)),
        decreases more.len() - j,
    {
        proof {
            assert(second.take(j + 1).drop_last() == second.take(j as int));
            assert(second.take(j + 1).last() == more@[j as int]@);
        }
        if !contains_path(&r, &more[j]) {
            let ghost was = r@;
            let added = more[j].clone();
            let ghost bytes = added@;
            r.push(added);
            assert(source::path_models(r@) =~= source::path_models(was).push(bytes));
        }
        j += 1;
    }
    assert(second.take(j as int) == second);
    r
}

impl<V1, V2, A> AutoForegroundSource<V1, V2, A> where
    V1: ForegroundSource,
    V2: ForegroundSource,
    A: FnMut() -> Result<Option<ForegroundCandidate>, EngineError>,
 {
    /// A source over two others and the activity manager.
    pub fn new(v1: V1, v2: V2, activity: A) -> (r: Self)
        ensures
            r.first() == v1,
            r.second() == v2,
            r.last_resort() == activity,
            v1.may_be_available(r.first_works()),
            r.watched() == hints_for(v1.hints(), v2.hints(), r.first_works()),
    {
        let v1_available = v1.is_available();
        let watch_hint_paths = merge_paths(
            v1.watch_hint_paths(),
            v2.watch_hint_paths(),
            !v1_available,
        );
        AutoForegroundSource { v1, v2, activity, watch_hint_paths, v1_available }
    }

    /// Whether the second source and then the activity manager may answer so.
    pub open spec fn falls_back(
        pre: Self,
        call: source::SourceCall,
        post: Self,
        r: source::SourceAnswer,
    ) -> bool {
        exists|answer: source::SourceAnswer|
            {
                &&& #[trigger] V2::answers(pre.second(), call, post.second(), answer)
                &&& match answer {
                    Ok(_) => r == answer,
                    Err(_) => call_ensures(pre.last_resort(), (), r),
                }
            }
    }

    /// Whether asking all in turn may end so.
    pub open spec fn polls(pre: Self, post: Self, r: source::SourceAnswer) -> bool {
        exists|answer: source::SourceAnswer|
            {
                &&& #[trigger] V1::answers(
                    pre.first(),
                    source::SourceCall::Poll,
                    post.first(),
                    answer,
                )
                &&& post.first_works() == (answer is Ok)
                &&& post.watched() == hints_after(
                    pre.watched(),
                    pre.first_works(),
                    post.first().hints(),
                    pre.second().hints(),
                    answer is Ok,
                )
                &&& match answer {
                    Ok(_) => post.second() == pre.second() && r == answer,
                    Err(_) => Self::falls_back(pre, source::SourceCall::Poll, post, r),
                }
            }
    }

    /// Whether a question for the second source may be answered so: while the
    /// first works nothing is said; else the first is asked again, and only if
    /// it fails the second.
    pub open spec fn recovers_or(
        pre: Self,
        call: source::SourceCall,
        post: Self,
        r: source::SourceAnswer,
    ) -> bool {
        if pre.first_works() {
            &&& post.first() == pre.first()
            &&& post.second() == pre.second()
            &&& post.first_works()
            &&& post.watched() == pre.watched()
            &&& r == Ok::<Option<ForegroundCandidate>, EngineError>(None)
        } else {
            exists|answer: source::SourceAnswer|
                {
                    &&& #[trigger] V1::answers(
                        pre.first(),
                        source::SourceCall::Poll,
                        post.first(),
                        answer,
                    )
                    &&& post.first_works() == (answer is Ok)
                    &&& post.watched() == hints_after(
                        pre.watched(),
                        false,
                        post.first().hints(),
                        pre.second().hints(),
                        answer is Ok,
                    )
                    &&& match answer {
                        Ok(_) => post.second() == pre.second() && r == answer,
                        Err(_) => Self::falls_back(pre, call, post, r),
                    }
                }
        }
    }

    /// Whether an event may be answered so: it goes to the source among whose
    /// paths it is; one that is at none of them makes all be asked in turn.
    pub open spec fn handles(
        pre: Self,
        event_path: Seq<u8>,
        mask: u32,
        post: Self,
        r: source::SourceAnswer,
    ) -> bool {
        let call = source::SourceCall::FsEventWithMask(event_path, mask);
        if has_path(pre.first().hints(), event_path) {
            exists|answer: source::SourceAnswer|
                {
                    &&& #[trigger] V1::answers(pre.first(), call, post.first(), answer)
                    &&& post.first_works() == (answer is Ok)
                    &&& post.watched() == hints_after(
                        pre.watched(),
                        pre.first_works(),
                        post.first().hints(),
                        pre.second().hints(),
                        answer is Ok,
                    )
                    &&& match answer {
                        Ok(_) => post.second() == pre.second() && r == answer,
                        Err(_) => Self::falls_back(pre, source::SourceCall::Poll, post, r),
                    }
                }
        } else if has_path_or_parent(pre.second().hints(), event_path) {
            Self::recovers_or(pre, call, post, r)
        } else {
            Self::polls(pre, post, r)
        }
    }

    fn set_v1_available(&mut self, available: bool)
        ensures
            final(self).first() == old(self).first(),
            final(self).second() == old(self).second(),
            final(self).last_resort() == old(self).last_resort(),
            final(self).first_works() == available,
            final(self).watched() == hints_after(
                old(self).watched(),
                old(self).first_works(),
                old(self).first().hints(),
                old(self).second().hints(),
                available,
            ),
    {
        if self.v1_available == available {
            return;
        }
        self.v1_available = available;
        self.watch_hint_paths = merge_paths(
            self.v1.watch_hint_paths(),
            self.v2.watch_hint_paths(),
            !available,
        );
    }

    fn poll_without_v1(&mut self) -> (r: Result<Option<ForegroundCandidate>, EngineError>)
        requires
            old(self).second().ready(),
            call_requires(old(self).last_resort(), ()),
        ensures
            final(self).first() == old(self).first(),
            final(self).last_resort() == old(self).last_resort(),
            final(self).second().ready(),
            final(self).first_works() == false,
            final(self).watched() == hints_after(
                old(self).watched(),
                old(self).first_works(),
                old(self).first().hints(),
                old(self).second().hints(),
                false,
            ),
            Self::falls_back(*old(self), source::SourceCall::Poll, *final(self), r),
    {
        self.set_v1_available(false);
        let answer = self.v2.poll_current();
        assert(V2::answers(
            old(self).second(),
            source::SourceCall::Poll,
            self.second(),
            answer,
        ));
        match answer {
            Ok(candidate) => Ok(candidate),
            Err(_) => (self.activity)(),
        }
    }

    /// Asks the first source again unless it works; its failure is no failure of
    /// the whole.
    fn recover_v1_if_available(&mut self) -> (r: Result<Option<ForegroundCandidate>, EngineError>)
        requires
            old(self).first().ready(),
        ensures
            final(self).first().ready(),
            final(self).second() == old(self).second(),
            final(self).last_resort() == old(self).last_resort(),
            if old(self).first_works() {
                &&& r == Ok::<Option<ForegroundCandidate>, EngineError>(None)
                &&& final(self).first() == old(self).first()
                &&& final(self).first_works()
                &&& final(self).watched() == old(self).watched()
            } else {
                &&& V1::answers(
                    old(self).first(),
                    source::SourceCall::Poll,
                    final(self).first(),
                    r,
                )
                &&& final(self).first_works() == (r is Ok)
                &&& final(self).watched() == hints_after(
                    old(self).watched(),
                    false,
                    final(self).first().hints(),
                    old(self).second().hints(),
                    r is Ok,
                )
            },
    {
        if self.v1_available {
            return Ok(None);
        }
        let answer = self.v1.poll_current();
        if answer.is_ok() {
            self.set_v1_available(true);
        }
        answer
    }
}

impl<V1, V2, A> ForegroundSource for AutoForegroundSource<V1, V2, A> where
    V1: ForegroundSource,
    V2: ForegroundSource,
    A: FnMut() -> Result<Option<ForegroundCandidate>, EngineError>,
 {
    open spec fn ready(&self) -> bool {
        &&& self.first().ready()
        &&& self.second().ready()
        &&& call_requires(self.last_resort(), ())
    }

    open spec fn answers(
        pre: Self,
        call: source::SourceCall,
        post: Self,
        r: source::SourceAnswer,
    ) -> bool {
        &&& post.last_resort() == pre.last_resort()
        &&& match call {
            source::SourceCall::Poll => Self::polls(pre, post, r),
            source::SourceCall::FsEvent(event_path) => Self::handles(pre, event_path, 0, post, r),
            source::SourceCall::FsEventWithMask(event_path, mask) => Self::handles(
                pre,
                event_path,
                mask,
                post,
                r,
            ),
            source::SourceCall::Priority(_) => Self::recovers_or(pre, call, post, r),
            source::SourceCall::StalePriority(_) => Self::recovers_or(pre, call, post, r),
        }
    }

    open spec fn kind_is(&self) -> ForegroundSourceKind {
        ForegroundSourceKind::Auto
    }

    open spec fn hints(&self) -> Seq<Seq<u8>> {
        self.watched()
    }

    open spec fn hint_mask(&self, p: Seq<u8>) -> u32 {
        if has_path(self.first().hints(), p) {
            self.first().hint_mask(p)
        } else {
            self.second().hint_mask(p)
        }
    }

    open spec fn may_be_available(&self, r: bool) -> bool {
        if self.first_works() {
            r
        } else {
            self.second().may_be_available(r)
        }
    }

    open spec fn priority_paths(&self) -> Seq<Seq<u8>> {
        if self.first_works() {
            Seq::empty()
        } else {
            self.second().priority_paths()
        }
    }

    open spec fn priority_keys(&self) -> Seq<(Seq<u8>, u64)> {
        if self.first_works() {
            Seq::empty()
        } else {
            self.second().priority_keys()
        }
    }

    open spec fn unregistered(&self, registered: Set<Seq<Seq<u8>>>) -> Seq<Seq<u8>> {
        if self.first_works() {
            Seq::empty()
        } else {
            self.second().unregistered(registered)
        }
    }

    open spec fn holds_descriptor(&self, p: Seq<u8>) -> bool {
        self.second().holds_descriptor(p)
    }

    fn kind(&self) -> (r: ForegroundSourceKind) {
        ForegroundSourceKind::Auto
    }

    fn poll_current(&mut self) -> (r: Result<Option<ForegroundCandidate>, EngineError>) {
        let answer = self.v1.poll_current();
        assert(V1::answers(
            old(self).first(),
            source::SourceCall::Poll,
            self.first(),
            answer,
        ));
        match answer {
            Ok(candidate) => {
                self.set_v1_available(true);
                Ok(candidate)
            },
            Err(_) => {
                let r = self.poll_without_v1();
                assert(Self::falls_back(*old(self), source::SourceCall::Poll, *self, r));
                r
            },
        }
    }

    fn handle_fs_event(&mut self, event_path: &EnginePath) -> (r: Result<
        Option<ForegroundCandidate>,
        EngineError,
    >) {
        self.handle_fs_event_with_mask(event_path, 0)
    }

    fn handle_fs_event_with_mask(&mut self, event_path: &EnginePath, mask: u32) -> (r: Result<
        Option<ForegroundCandidate>,
        EngineError,
    >) {
        let ghost call = source::SourceCall::FsEventWithMask(event_path@, mask);
        if contains_path(self.v1.watch_hint_paths(), event_path) {
            let answer = self.v1.handle_fs_event_with_mask(event_path, mask);
            assert(V1::answers(old(self).first(), call, self.first(), answer));
            return match answer {
                Ok(candidate) => {
                    self.set_v1_available(true);
                    Ok(candidate)
                },
                Err(_) => {
                    let r = self.poll_without_v1();
                    assert(Self::falls_back(*old(self), source::SourceCall::Poll, *self, r));
                    r
                },
            };
        }
        if contains_path_or_parent(self.v2.watch_hint_paths(), event_path) {
            let first = self.recover_v1_if_available();
            if first.is_ok() {
                return first;
            }
            let answer = self.v2.handle_fs_event_with_mask(event_path, mask);
            assert(V1::answers(
                old(self).first(),
                source::SourceCall::Poll,
                self.first(),
                first,
            ));
            assert(V2::answers(old(self).second(), call, self.second(), answer));
            let r = match answer {
                Ok(candidate) => Ok(candidate),
                Err(_) => (self.activity)(),
            };
            assert(Self::falls_back(*old(self), call, *self, r));
            return r;
        }
        self.poll_current()
    }

    fn watch_hint_paths(&self) -> (r: &Vec<EnginePath>) {
        &self.watch_hint_paths
    }

    fn is_available(&self) -> (r: bool) {
        self.v1_available || self.v2.is_available()
    }

    fn watch_hint_mask(&self, hint_path: &EnginePath) -> (r: u32) {
        if contains_path(self.v1.watch_hint_paths(), hint_path) {
            return self.v1.watch_hint_mask(hint_path);
        }
        self.v2.watch_hint_mask(hint_path)
    }

    fn register_priority_fds(&self, registered_paths: &PathSet) -> (r: Vec<EnginePath>) {
        if self.v1_available {
            let none: Vec<EnginePath> = Vec::new();
            assert(source::path_models(none@) =~= Seq::<Seq<u8>>::empty());
            return none;
        }
        self.v2.register_priority_fds(registered_paths)
    }

    fn priority_hint_paths(&self) -> (r: Vec<EnginePath>) {
        if self.v1_available {
            let none: Vec<EnginePath> = Vec::new();
            assert(source::path_models(none@) =~= Seq::<Seq<u8>>::empty());
            return none;
        }
        self.v2.priority_hint_paths()
    }

    fn priority_hint_keys(&self) -> (r: Vec<(EnginePath, u64)>) {
        if self.v1_available {
            let none: Vec<(EnginePath, u64)> = Vec::new();
            assert(source::keyed_models(none@) =~= Seq::<(Seq<u8>, u64)>::empty());
            return none;
        }
        self.v2.priority_hint_keys()
    }

    fn handle_priority_event(&mut self, event_path: &EnginePath) -> (r: Result<
        Option<ForegroundCandidate>,
        EngineError,
    >) {
        let ghost call = source::SourceCall::Priority(event_path@);
        let first = self.recover_v1_if_available();
        if first.is_ok() {
            return first;
        }
        let answer = self.v2.handle_priority_event(event_path);
        assert(V1::answers(old(self).first(), source::SourceCall::Poll, self.first(), first));
        assert(V2::answers(old(self).second(), call, self.second(), answer));
        let r = match answer {
            Ok(candidate) => Ok(candidate),
            Err(_) => (self.activity)(),
        };
        assert(Self::falls_back(*old(self), call, *self, r));
        r
    }

    fn handle_stale_priority_event(&mut self, event_path: &EnginePath) -> (r: Result<
        Option<ForegroundCandidate>,
        EngineError,
    >) {
        let ghost call = source::SourceCall::StalePriority(event_path@);
        let first = self.recover_v1_if_available();
        if first.is_ok() {
            return first;
        }
        let answer = self.v2.handle_stale_priority_event(event_path);
        assert(V1::answers(old(self).first(), source::SourceCall::Poll, self.first(), first));
        assert(V2::answers(old(self).second(), call, self.second(), answer));
        let r = match answer {
            Ok(candidate) => Ok(candidate),
            Err(_) => (self.activity)(),
        };
        assert(Self::falls_back(*old(self), call, *self, r));
        r
    }

    fn unregister_priority_fd(&self, fd_path: &EnginePath) -> (r: bool) {
        self.v2.unregister_priority_fd(fd_path)
    }
}

/// While the first source answers, neither the second source nor the activity
/// manager is asked: the second source stays as it is, and the answer is that of
/// the first.
pub proof fn law_second_is_asked_only_if_first_fails<V1, V2, A>(
    pre: AutoForegroundSource<V1, V2, A>,
    post: AutoForegroundSource<V1, V2, A>,
    r: source::SourceAnswer,
) where
    V1: ForegroundSource,
    V2: ForegroundSource,
    A: FnMut() -> Result<Option<ForegroundCandidate>, EngineError>,

    requires
        AutoForegroundSource::<V1, V2, A>::answers(pre, source::SourceCall::Poll, post, r),
        post.first_works(),
    ensures
        V1::answers(pre.first(), source::SourceCall::Poll, post.first(), r),
        post.second() == pre.second(),
{
}

/// Where a poll finds the first source failing, its answer is that of the second
/// source, or of the activity manager if the second fails too.
pub proof fn law_order_is_first_second_activity<V1, V2, A>(
    pre: AutoForegroundSource<V1, V2, A>,
    post: AutoForegroundSource<V1, V2, A>,
    r: source::SourceAnswer,
) where
    V1: ForegroundSource,
    V2: ForegroundSource,
    A: FnMut() -> Result<Option<ForegroundCandidate>, EngineError>,

    requires
        AutoForegroundSource::<V1, V2, A>::answers(pre, source::SourceCall::Poll, post, r),
        !post.first_works(),
    ensures
        exists|e: EngineError| #[trigger]
            V1::answers(pre.first(), source::SourceCall::Poll, post.first(), Err(e)),
        V2::answers(pre.second(), source::SourceCall::Poll, post.second(), r) || (exists|
            e: EngineError,
        | #[trigger]
            V2::answers(pre.second(), source::SourceCall::Poll, post.second(), Err(e))
                && call_ensures(pre.last_resort(), (), r)),
{
    let answer = choose|answer: source::SourceAnswer|
        {
            &&& #[trigger] V1::answers(
                pre.first(),
                source::SourceCall::Poll,
                post.first(),
                answer,
            )
            &&& post.first_works() == (answer is Ok)
            &&& post.watched() == hints_after(
                pre.watched(),
                pre.first_works(),
                post.first().hints(),
                pre.second().hints(),
                answer is Ok,
            )
            &&& match answer {
                Ok(_) => post.second() == pre.second() && r == answer,
                Err(_) => AutoForegroundSource::<V1, V2, A>::falls_back(
                    pre,
                    source::SourceCall::Poll,
                    post,
                    r,
                ),
            }
        };
    let e = answer->Err_0;
    assert(V1::answers(pre.first(), source::SourceCall::Poll, post.first(), Err(e)));
    let next = choose|next: source::SourceAnswer|
        {
            &&& #[trigger] V2::answers(
                pre.second(),
                source::SourceCall::Poll,
                post.second(),
                next,
            )
            &&& match next {
                Ok(_) => r == next,
                Err(_) => call_ensures(pre.last_resort(), (), r),
            }
        };
    if let Err(f) = next {
        assert(V2::answers(pre.second(), source::SourceCall::Poll, post.second(), Err(f)));
    }
}

/// While the first source does not work, the paths of both are watched, and no
/// others.
pub proof fn law_both_are_watched(first: Seq<Seq<u8>>, second: Seq<Seq<u8>>, p: Seq<u8>)
    ensures
        has_path(hints_for(first, second, false), p) <==> has_path(first, p) || has_path(second, p),
    decreases second.len(),
{
    if second.len() > 0 {
        let front = second.drop_last();
        let before = merged(first, front);
        let after = merged(first, second);
        law_both_are_watched(first, front, p);
        if has_path(second, p) {
            let i = choose|i: int|
                0 <= i < second.len() && path::components(#[trigger] second[i])
                    == path::components(p);
            if i < front.len() {
                assert(front[i] == second[i]);
            } else {
                assert(second[i] == second.last());
                if !has_path(before, second.last()) {
                    assert(after[before.len() as int] == second.last());
                } else {
                    let k = choose|k: int|
                        0 <= k < before.len() && path::components(#[trigger] before[k])
                            == path::components(second.last());
                    assert(path::components(after[k]) == path::components(p));
                }
            }
        }
        if has_path(front, p) {
            let i = choose|i: int|
                0 <= i < front.len() && path::components(#[trigger] front[i])
                    == path::components(p);
            assert(second[i] == front[i]);
        }
        if has_path(before, p) {
            let k = choose|k: int|
                0 <= k < before.len() && path::components(#[trigger] before[k])
                    == path::components(p);
            assert(after[k] == before[k]);
        }
        if has_path(after, p) {
            let k = choose|k: int|
                0 <= k < after.len() && path::components(#[trigger] after[k])
                    == path::components(p);
            if k < before.len() {
                assert(before[k] == after[k]);
            } else {
                assert(second[second.len() - 1] == after[k]);
            }
        }
    }
}

} // verus!

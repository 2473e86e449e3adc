//! What holds of the watches as a whole.
use vstd::prelude::*;

use crate::ordered::Key;
use crate::services::foreground::source::ForegroundSource;
use crate::services::watch::{WatchState, WatchTarget};
use crate::{error, ordered, path, services::watch};

verus! {

/// Whether a watch to be set was set.
pub open spec fn was_set(
    additions: Seq<watch::AdditionModel>,
    results: Seq<Result<i32, error::ErrorModel>>,
    i: int,
) -> bool {
    additions[i].text is Some && results[i] is Ok
}

/// Whether one of the watches to be set for a path was set.
pub open spec fn path_set(
    additions: Seq<watch::AdditionModel>,
    results: Seq<Result<i32, error::ErrorModel>>,
    n: int,
    p: Seq<Seq<u8>>,
) -> bool {
    exists|i: int|
        0 <= i < n && path::components(additions[i].path) == p && #[trigger] was_set(
            additions,
            results,
            i,
        )
}

proof fn lemma_taken_out_all(
    m: WatchState,
    p: Seq<u8>,
    wds: Seq<i32>,
    results: Seq<Result<(), error::ErrorModel>>,
)
    ensures
        ({
            let out = m.taken_out_all(p, wds, results);
            &&& out.foreground_paths == m.foreground_paths
            &&& out.identity_paths == m.identity_paths
            &&& forall|wd: i32| #[trigger]
                out.watches.contains_key(wd) <==> m.watches.contains_key(wd) && !wds.contains(wd)
            &&& forall|wd: i32| #[trigger]
                out.watches.contains_key(wd) ==> out.watches[wd] == m.watches[wd]
        }),
    decreases wds.len(),
{
    if wds.len() > 0 {
        lemma_taken_out_all(m, p, wds.drop_last(), results);
        let before = m.taken_out_all(p, wds.drop_last(), results);
        let out = m.taken_out_all(p, wds, results);
        assert forall|wd: i32| #[trigger]
            out.watches.contains_key(wd) <==> m.watches.contains_key(wd) && !wds.contains(wd) by {
            assert(before.watches.contains_key(wd) <==> m.watches.contains_key(wd)
                && !wds.drop_last().contains(wd));
            if wds.contains(wd) {
                let k = wds.index_of(wd);
                if k < wds.len() - 1 {
                    assert(wds.drop_last()[k] == wd);
                }
            }
            if wds.drop_last().contains(wd) {
                let k = wds.drop_last().index_of(wd);
                assert(wds[k] == wd);
            }
            assert(wds[wds.len() - 1] == wds.last());
        }
    }
}

proof fn lemma_dropped_all(
    m: WatchState,
    removals: Seq<watch::RemovalModel>,
    results: Seq<Seq<Result<(), error::ErrorModel>>>,
)
    requires
        forall|i: int|
            0 <= i < removals.len() ==> ordered::enumerates(
                (#[trigger] removals[i]).wds,
                watch::wds_of(m, path::components(removals[i].path)),
                i32::order(),
            ),
        m.watches_belong(),
    ensures
        ({
            let out = m.dropped_all(removals, results);
            &&& out.watches_belong()
            &&& out.identity_paths == m.identity_paths
            &&& out.foreground_paths == m.foreground_paths.difference(
                watch::removal_names(removals).to_set(),
            )
            &&& forall|wd: i32| #[trigger]
                out.watches.contains_key(wd) ==> m.watches.contains_key(wd) && out.watches[wd]
                    == m.watches[wd]
        }),
    decreases removals.len(),
{
    let names = watch::removal_names(removals);
    if removals.len() == 0 {
        assert(names.to_set() =~= Set::<Seq<Seq<u8>>>::empty());
        assert(m.foreground_paths.difference(names.to_set()) =~= m.foreground_paths);
    } else {
        let front = removals.drop_last();
        assert forall|i: int| 0 <= i < front.len() implies ordered::enumerates(
            (#[trigger] front[i]).wds,
            watch::wds_of(m, path::components(front[i].path)),
            i32::order(),
        ) by {
            assert(front[i] == removals[i]);
        }
        lemma_dropped_all(m, front, results);
        let before = m.dropped_all(front, results);
        let removal = removals.last();
        let p = path::components(removal.path);
        let out = m.dropped_all(removals, results);
        lemma_taken_out_all(before, removal.path, removal.wds, results[removals.len() - 1]);
        assert(removals[removals.len() - 1] == removal);
        assert forall|wd: i32| #[trigger] out.watches.contains_key(wd) implies out.watched_for(
            path::components(out.watches[wd].0),
            out.watches[wd].1,
        ) by {
            assert(before.watches.contains_key(wd));
            assert(m.watches.contains_key(wd));
            if out.watches[wd].1 == WatchTarget::Foreground && path::components(
                out.watches[wd].0,
            ) == p {
                assert(watch::wds_of(m, p).contains(wd));
                assert(removal.wds.contains(wd));
            }
        }
        let front_names = watch::removal_names(front);
        assert(out.foreground_paths =~= m.foreground_paths.difference(names.to_set())) by {
            assert forall|q: Seq<Seq<u8>>| names.to_set().contains(q) <==> (
            front_names.to_set().contains(q) || q == p) by {
                if names.contains(q) {
                    let k = names.index_of(q);
                    if k < front.len() {
                        assert(front_names[k] == q);
                    }
                }
                if front_names.contains(q) {
                    let k = front_names.index_of(q);
                    assert(names[k] == q);
                }
                assert(names[removals.len() - 1] == p);
            }
        }
    }
}

proof fn lemma_added_all(
    m: WatchState,
    additions: Seq<watch::AdditionModel>,
    results: Seq<Result<i32, error::ErrorModel>>,
)
    requires
        m.watches_belong(),
        forall|i: int|
            0 <= i < additions.len() ==> (#[trigger] additions[i]).target
                == WatchTarget::Foreground,
    ensures
        ({
            let out = m.added_all(additions, results);
            &&& out.watches_belong()
            &&& out.identity_paths == m.identity_paths
            &&& forall|p: Seq<Seq<u8>>| #[trigger]
                out.foreground_paths.contains(p) <==> m.foreground_paths.contains(p) || path_set(
                    additions,
                    results,
                    additions.len() as int,
                    p,
                )
        }),
    decreases additions.len(),
{
    if additions.len() > 0 {
        let n = additions.len() as int;
        let front = additions.drop_last();
        assert forall|i: int| 0 <= i < front.len() implies (#[trigger] front[i]).target
            == WatchTarget::Foreground by {
            assert(front[i] == additions[i]);
        }
        lemma_added_all(m, front, results);
        let before = m.added_all(front, results);
        let out = m.added_all(additions, results);
        let addition = additions.last();
        let c = path::components(addition.path);
        assert(additions[n - 1] == addition);
        assert forall|wd: i32| #[trigger] out.watches.contains_key(wd) implies out.watched_for(
            path::components(out.watches[wd].0),
            out.watches[wd].1,
        ) by {
            if before.watches.contains_key(wd) && before.watches[wd] == out.watches[wd] {
            }
        }
        assert forall|p: Seq<Seq<u8>>| #[trigger]
            out.foreground_paths.contains(p) <==> m.foreground_paths.contains(p) || path_set(
                additions,
                results,
                n,
                p,
            ) by {
            assert(before.foreground_paths.contains(p) <==> m.foreground_paths.contains(p)
                || path_set(front, results, n - 1, p));
            if path_set(front, results, n - 1, p) {
                let i = choose|i: int|
                    0 <= i < n - 1 && path::components(front[i].path) == p && #[trigger] was_set(
                        front,
                        results,
                        i,
                    );
                assert(front[i] == additions[i]);
                assert(was_set(additions, results, i));
            }
            if path_set(additions, results, n, p) {
                let i = choose|i: int|
                    0 <= i < n && path::components(additions[i].path) == p && #[trigger] was_set(
                        additions,
                        results,
                        i,
                    );
                if i < n - 1 {
                    assert(front[i] == additions[i]);
                    assert(was_set(front, results, i));
                }
            }
            if p == c && was_set(additions, results, n - 1) {
                assert(path_set(additions, results, n, p));
            }
        }
    }
}

/// After the watches were made to match what the source wants, the watched
/// foreground paths are exactly the wanted ones, but for those that were not
/// watched before and could not be; and every watch still belongs to a path that
/// counts as watched.
pub proof fn law_sync_reaches_wanted<S: ForegroundSource>(
    m: WatchState,
    asked: S,
    removals: Seq<watch::RemovalModel>,
    additions: Seq<watch::AdditionModel>,
    removed: Seq<Seq<Result<(), error::ErrorModel>>>,
    added: Seq<Result<i32, error::ErrorModel>>,
)
    requires
        m.watches_belong(),
        watch::plans_sync(m, asked, removals, additions),
    ensures
        ({
            let out = m.dropped_all(removals, removed).added_all(additions, added);
            &&& out.watches_belong()
            &&& out.identity_paths == m.identity_paths
            &&& forall|p: Seq<Seq<u8>>| #[trigger]
                out.foreground_paths.contains(p) <==> watch::wanted(asked.hints()).contains(p) && (
                m.foreground_paths.contains(p) || path_set(
                    additions,
                    added,
                    additions.len() as int,
                    p,
                ))
        }),
{
    let mid = m.dropped_all(removals, removed);
    let out = mid.added_all(additions, added);
    let want = watch::wanted(asked.hints());
    let dropped = watch::removal_names(removals);
    let fresh = watch::addition_names(additions);
    lemma_dropped_all(m, removals, removed);
    assert forall|i: int| 0 <= i < additions.len() implies (#[trigger] additions[i]).target
        == WatchTarget::Foreground by {
        assert(watch::is_hint_addition(asked, additions[i]));
    }
    lemma_added_all(mid, additions, added);
    assert forall|p: Seq<Seq<u8>>| #[trigger]
        out.foreground_paths.contains(p) <==> want.contains(p) && (m.foreground_paths.contains(p)
            || path_set(additions, added, additions.len() as int, p)) by {
        let unwanted = m.foreground_paths.difference(want);
        assert(unwanted.contains(p) <==> dropped.contains(p));
        assert(dropped.to_set().contains(p) <==> dropped.contains(p));
        if path_set(additions, added, additions.len() as int, p) {
            let i = choose|i: int|
                0 <= i < additions.len() && path::components(additions[i].path) == p
                    && #[trigger] was_set(additions, added, i);
            assert(fresh[i] == p);
            assert(fresh.contains(p));
            assert(want.difference(m.foreground_paths).contains(p));
        }
    }
}

/// If all goes well, making the watches match leaves exactly the wanted paths
/// watched.
pub proof fn law_sync_without_failures<S: ForegroundSource>(
    m: WatchState,
    asked: S,
    removals: Seq<watch::RemovalModel>,
    additions: Seq<watch::AdditionModel>,
    removed: Seq<Seq<Result<(), error::ErrorModel>>>,
    added: Seq<Result<i32, error::ErrorModel>>,
)
    requires
        m.watches_belong(),
        watch::plans_sync(m, asked, removals, additions),
        forall|i: int| 0 <= i < additions.len() ==> #[trigger] was_set(additions, added, i),
    ensures
        m.dropped_all(removals, removed).added_all(additions, added).foreground_paths
            == watch::wanted(asked.hints()),
{
    law_sync_reaches_wanted(m, asked, removals, additions, removed, added);
    let out = m.dropped_all(removals, removed).added_all(additions, added);
    let want = watch::wanted(asked.hints());
    let fresh = watch::addition_names(additions);
    assert forall|p: Seq<Seq<u8>>| out.foreground_paths.contains(p) <==> want.contains(p) by {
        if want.contains(p) && !m.foreground_paths.contains(p) {
            assert(want.difference(m.foreground_paths).contains(p));
            let i = fresh.index_of(p);
            assert(fresh[i] == p);
            assert(was_set(additions, added, i));
        }
    }
    assert(out.foreground_paths =~= want);
}

/// Whether a path is among those registered.
pub open spec fn has_registration(registrations: Seq<(u64, Seq<u8>)>, p: Seq<Seq<u8>>) -> bool {
    exists|i: int|
        0 <= i < registrations.len() && path::components(#[trigger] registrations[i].1) == p
}

proof fn lemma_registered_all(
    m: WatchState,
    registrations: Seq<(u64, Seq<u8>)>,
    keys: Map<Seq<Seq<u8>>, u64>,
)
    ensures
        ({
            let out = m.registered_all(registrations, keys);
            &&& forall|p: Seq<Seq<u8>>| #[trigger]
                out.priority_paths.contains(p) <==> m.priority_paths.contains(p)
                    || has_registration(registrations, p)
            &&& forall|p: Seq<Seq<u8>>| #[trigger]
                out.priority_keys.contains_key(p) <==> m.priority_keys.contains_key(p) || (
                keys.contains_key(p) && has_registration(registrations, p))
            &&& forall|p: Seq<Seq<u8>>| #[trigger]
                out.priority_keys.contains_key(p) ==> out.priority_keys[p] == if keys.contains_key(
                    p,
                ) && has_registration(registrations, p) {
                    keys[p]
                } else {
                    m.priority_keys[p]
                }
        }),
    decreases registrations.len(),
{
    if registrations.len() > 0 {
        let n = registrations.len();
        let front = registrations.drop_last();
        lemma_registered_all(m, front, keys);
        let c = path::components(registrations.last().1);
        assert forall|p: Seq<Seq<u8>>| #[trigger]
            has_registration(registrations, p) <==> (p == c
                || has_registration(front, p)) by {
            if has_registration(registrations, p) {
                let i = choose|i: int|
                    0 <= i < n && path::components(#[trigger] registrations[i].1) == p;
                if i < front.len() {
                    assert(front[i].1 == registrations[i].1);
                }
            }
            if has_registration(front, p) {
                let i = choose|i: int|
                    0 <= i < front.len() && path::components(#[trigger] front[i].1) == p;
                assert(registrations[i].1 == front[i].1);
            }
            assert(path::components(registrations[n - 1].1) == c);
        }
        let before = m.registered_all(front, keys);
        let out = m.registered_all(registrations, keys);
        assert forall|p: Seq<Seq<u8>>| #[trigger]
            out.priority_paths.contains(p) <==> m.priority_paths.contains(p) || has_registration(
                registrations,
                p,
            ) by {
            assert(before.priority_paths.contains(p) <==> m.priority_paths.contains(p)
                || has_registration(front, p));
            assert(has_registration(registrations, p) <==> (p == c || has_registration(front, p)));
        }
        assert forall|p: Seq<Seq<u8>>| #[trigger]
            out.priority_keys.contains_key(p) <==> m.priority_keys.contains_key(p) || (
            keys.contains_key(p) && has_registration(registrations, p)) by {
            assert(before.priority_keys.contains_key(p) <==> m.priority_keys.contains_key(p) || (
            keys.contains_key(p) && has_registration(front, p)));
            assert(has_registration(registrations, p) <==> (p == c || has_registration(front, p)));
        }
        assert forall|p: Seq<Seq<u8>>| #[trigger]
            out.priority_keys.contains_key(p) implies out.priority_keys[p] == if keys.contains_key(
            p,
        ) && has_registration(registrations, p) {
            keys[p]
        } else {
            m.priority_keys[p]
        } by {
            assert(before.priority_keys.contains_key(p) <==> m.priority_keys.contains_key(p) || (
            keys.contains_key(p) && has_registration(front, p)));
            assert(has_registration(registrations, p) <==> (p == c || has_registration(front, p)));
        }
    }
}

/// After the priority descriptors were made to match, the registered paths and
/// keys are exactly those of the source: registrations that are out of date are
/// dropped, and the missing ones are made.
pub proof fn law_priority_sync_matches_source(
    m: WatchState,
    keys: Map<Seq<Seq<u8>>, u64>,
    registrations: Seq<(u64, Seq<u8>)>,
)
    requires
        m.priority_paths == m.priority_keys.dom(),
        forall|p: Seq<Seq<u8>>|
            #![trigger has_registration(registrations, p)]
            keys.contains_key(p) && !m.without_priorities(m.outdated(keys)).priority_paths.contains(
                p,
            ) <==> has_registration(registrations, p),
    ensures
        m.without_priorities(m.outdated(keys)).registered_all(registrations, keys).priority_keys
            == keys,
        m.without_priorities(m.outdated(keys)).registered_all(registrations, keys).priority_paths
            == keys.dom(),
{
    let mid = m.without_priorities(m.outdated(keys));
    let out = mid.registered_all(registrations, keys);
    lemma_registered_all(mid, registrations, keys);
    assert forall|p: Seq<Seq<u8>>| out.priority_keys.contains_key(p) <==> keys.contains_key(p) by {
        assert(keys.contains_key(p) && !mid.priority_paths.contains(p) <==> has_registration(
            registrations,
            p,
        ));
        assert(out.priority_keys.contains_key(p) <==> mid.priority_keys.contains_key(p) || (
        keys.contains_key(p) && has_registration(registrations, p)));
        assert(m.priority_paths.contains(p) <==> m.priority_keys.contains_key(p));
    }
    assert forall|p: Seq<Seq<u8>>| out.priority_keys.contains_key(p) implies out.priority_keys[p]
        == keys[p] by {
        assert(keys.contains_key(p));
    }
    assert(out.priority_keys =~= keys);
    assert forall|p: Seq<Seq<u8>>| out.priority_paths.contains(p) <==> keys.dom().contains(p) by {
        assert(keys.contains_key(p) && !mid.priority_paths.contains(p) <==> has_registration(
            registrations,
            p,
        ));
        assert(out.priority_paths.contains(p) <==> mid.priority_paths.contains(p)
            || has_registration(registrations, p));
        assert(m.priority_paths.contains(p) <==> m.priority_keys.contains_key(p));
    }
    assert(out.priority_paths =~= keys.dom());
}

/// Dropping first the paths that the source no longer has, and then the
/// registrations that are out of date, drops exactly what is out of date.
pub proof fn law_vanished_are_outdated(m: WatchState, keys: Map<Seq<Seq<u8>>, u64>)
    ensures
        m.without_priorities(m.vanished(keys)).without_priorities(
            m.without_priorities(m.vanished(keys)).outdated(keys),
        ) == m.without_priorities(m.outdated(keys)),
{
    let mid = m.without_priorities(m.vanished(keys));
    let out = mid.without_priorities(mid.outdated(keys));
    let want = m.without_priorities(m.outdated(keys));
    assert forall|p: Seq<Seq<u8>>| (m.vanished(keys).contains(p) || mid.outdated(keys).contains(p))
        <==> m.outdated(keys).contains(p) by {}
    assert(out.priority_paths =~= want.priority_paths);
    assert(out.priority_keys =~= want.priority_keys);
    assert(out.priority_tokens =~= want.priority_tokens);
}

} // verus!

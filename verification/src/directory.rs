//! What a batch of renames makes of a directory.
//!
//! The directory is a map from names to entries, and a rename moves the entry
//! under one name to another name, over whatever stood there. The two phases
//! of [`crate::rename::Executor`] are written out on that map for a run in
//! which every rename goes well, and it is proved that every entry ends under
//! its target name and that no entry is lost.

use crate::rename::{is_pending_original, Batch, Pair};
use vstd::prelude::*;

verus! {

/// A directory: the entry that stands under each name.
pub type Directory = Map<Seq<char>, int>;

/// `dir` after the entry under `from` has been renamed to `to`. The entry
/// takes the place of what stood under `to`. Without an entry under `from`
/// nothing is renamed.
pub open spec fn renamed(dir: Directory, from: Seq<char>, to: Seq<char>) -> Directory {
    if dir.dom().contains(from) {
        dir.remove(from).insert(to, dir[from])
    } else {
        dir
    }
}

/// The directory and the deferred pairs after the first phase on `pending`,
/// from the last pair down, where `temps` holds at the position of each pair
/// the temporary name that is drawn for it if it needs one. Every rename is
/// the one that [`crate::rename::Executor::step`] asks for, and goes well.
pub open spec fn first_phase(
    pending: Seq<Pair>,
    temps: Seq<Seq<char>>,
    dir: Directory,
    deferred: Seq<Pair>,
) -> (Directory, Seq<Pair>)
    decreases pending.len(),
{
    if pending.len() == 0 {
        (dir, deferred)
    } else {
        let batch = Batch { pending, deferred, failures: Seq::empty() };
        match batch.first_phase_rename(temps[pending.len() - 1]) {
            Some(attempt) => first_phase(
                batch.rest(),
                temps,
                renamed(dir, attempt.from, attempt.to),
                batch.settled(attempt).deferred,
            ),
            None => first_phase(batch.rest(), temps, dir, deferred),
        }
    }
}

/// The directory after the second phase on `deferred`, from the first pair on.
pub open spec fn second_phase(deferred: Seq<Pair>, dir: Directory) -> Directory
    decreases deferred.len(),
{
    if deferred.len() == 0 {
        dir
    } else {
        let batch = Batch { pending: Seq::empty(), deferred, failures: Seq::empty() };
        let attempt = batch.second_phase_rename();
        second_phase(batch.resumed().deferred, renamed(dir, attempt.from, attempt.to))
    }
}

/// The directory after both phases.
pub open spec fn after_batch(pairs: Seq<Pair>, temps: Seq<Seq<char>>, dir: Directory) -> Directory {
    let (staged, deferred) = first_phase(pairs, temps, dir, Seq::empty());
    second_phase(deferred, staged)
}

/// Whether `name` is the target of one of `pairs`.
pub open spec fn is_target(pairs: Seq<Pair>, name: Seq<char>) -> bool {
    exists|i: int| 0 <= i < pairs.len() && (#[trigger] pairs[i]).1 == name
}

/// Whether the names of the batch `pairs` and the temporary names `temps`
/// keep apart: no two pairs have the same original name or the same target,
/// and the temporary names are no targets and differ from each other.
pub open spec fn fits_names(pairs: Seq<Pair>, temps: Seq<Seq<char>>) -> bool {
    &&& temps.len() == pairs.len()
    &&& forall|i: int, j: int|
        0 <= i < pairs.len() && 0 <= j < pairs.len() && i != j ==> (#[trigger] pairs[i]).0 != (
        #[trigger] pairs[j]).0
    &&& forall|i: int, j: int|
        0 <= i < pairs.len() && 0 <= j < pairs.len() && i != j ==> (#[trigger] pairs[i]).1 != (
        #[trigger] pairs[j]).1
    &&& forall|i: int, j: int|
        0 <= i < temps.len() && 0 <= j < pairs.len() ==> #[trigger] temps[i] != (
        #[trigger] pairs[j]).1
    &&& forall|i: int, j: int|
        0 <= i < temps.len() && 0 <= j < temps.len() && i != j ==> #[trigger] temps[i]
            != #[trigger] temps[j]
}

/// Whether the batch `pairs` with the temporary names `temps` can be applied
/// to `dir` without loss.
///
/// The names keep apart. Every original name is the name of an entry. A
/// target is the name of an entry only if that entry is in the batch. The
/// temporary names are no names of entries.
pub open spec fn fits(pairs: Seq<Pair>, temps: Seq<Seq<char>>, dir: Directory) -> bool {
    &&& fits_names(pairs, temps)
    &&& forall|i: int| 0 <= i < pairs.len() ==> dir.dom().contains((#[trigger] pairs[i]).0)
    &&& forall|i: int|
        0 <= i < pairs.len() && dir.dom().contains((#[trigger] pairs[i]).1)
            ==> is_pending_original(pairs, pairs[i].1)
    &&& forall|i: int| 0 <= i < temps.len() ==> !dir.dom().contains(#[trigger] temps[i])
}

/// Whether `after` is `before` with every entry of the batch under its
/// target name, and every other entry where it was.
pub open spec fn moved(pairs: Seq<Pair>, before: Directory, after: Directory) -> bool {
    &&& forall|i: int|
        0 <= i < pairs.len() ==> after.dom().contains((#[trigger] pairs[i]).1)
            && after[pairs[i].1] == before[pairs[i].0]
    &&& forall|name: Seq<char>|
        !is_target(pairs, name) ==> (#[trigger] after.dom().contains(name)
            <==> before.dom().contains(name) && !is_pending_original(pairs, name))
    &&& forall|name: Seq<char>|
        !is_target(pairs, name) && #[trigger] after.dom().contains(name) ==> after[name]
            == before[name]
}

/// Whether `deferred` holds the pair of the temporary name and the target of
/// the pair at `j`.
spec fn is_deferred(pairs: Seq<Pair>, temps: Seq<Seq<char>>, deferred: Seq<Pair>, j: int) -> bool {
    exists|i: int| 0 <= i < deferred.len() && #[trigger] deferred[i] == (temps[j], pairs[j].1)
}

/// Whether `entry` is the temporary name and the target of a pair from `k` on
/// whose entry stands under its temporary name.
spec fn is_waiting(
    pairs: Seq<Pair>,
    temps: Seq<Seq<char>>,
    places: Seq<Seq<char>>,
    k: int,
    entry: Pair,
) -> bool {
    exists|j: int|
        k <= j < pairs.len() && #[trigger] places[j] == temps[j] && entry == (temps[j], pairs[j].1)
}

/// What holds of the books between the renames: the pairs below `k` are not
/// addressed, `places` holds the name under which each entry of the batch
/// stands, and `deferred` holds the entries that stand under a temporary name,
/// each once.
spec fn kept_track(
    pairs: Seq<Pair>,
    temps: Seq<Seq<char>>,
    k: int,
    deferred: Seq<Pair>,
    places: Seq<Seq<char>>,
) -> bool {
    &&& 0 <= k <= pairs.len()
    &&& places.len() == pairs.len()
    &&& forall|j: int| 0 <= j < k ==> #[trigger] places[j] == pairs[j].0
    &&& forall|j: int|
        k <= j < pairs.len() ==> #[trigger] places[j] == pairs[j].1 || (places[j] == temps[j]
            && is_deferred(pairs, temps, deferred, j))
    &&& forall|i: int|
        0 <= i < deferred.len() ==> is_waiting(pairs, temps, places, k, #[trigger] deferred[i])
    &&& forall|i: int, j: int|
        0 <= i < j < deferred.len() ==> #[trigger] deferred[i] != #[trigger] deferred[j]
}

/// What holds of the directory between the renames: every entry of the batch
/// stands under its place, no two under the same, and every other name holds
/// what it held at the start, unless it was the name of an entry of the batch.
spec fn in_place(pairs: Seq<Pair>, start: Directory, dir: Directory, places: Seq<Seq<char>>) -> bool {
    &&& places.len() == pairs.len()
    &&& forall|i: int, j: int|
        0 <= i < j < places.len() ==> #[trigger] places[i] != #[trigger] places[j]
    &&& forall|j: int|
        0 <= j < places.len() ==> dir.dom().contains(#[trigger] places[j]) && dir[places[j]]
            == start[pairs[j].0]
    &&& forall|name: Seq<char>|
        !places.contains(name) ==> (#[trigger] dir.dom().contains(name) <==> start.dom().contains(
            name,
        ) && !is_pending_original(pairs, name))
    &&& forall|name: Seq<char>|
        !places.contains(name) && #[trigger] dir.dom().contains(name) ==> dir[name] == start[name]
}

/// One rename of the entry at `at` to the name `to`, which is the place of no
/// other entry, keeps the directory in step with the places.
proof fn lemma_move(
    pairs: Seq<Pair>,
    start: Directory,
    dir: Directory,
    places: Seq<Seq<char>>,
    at: int,
    to: Seq<char>,
)
    requires
        in_place(pairs, start, dir, places),
        0 <= at < places.len(),
        forall|j: int| 0 <= j < places.len() && j != at ==> #[trigger] places[j] != to,
        is_pending_original(pairs, places[at]) || !start.dom().contains(places[at]),
    ensures
        in_place(pairs, start, renamed(dir, places[at], to), places.update(at, to)),
{
    let from = places[at];
    let after = renamed(dir, from, to);
    let moved = places.update(at, to);
    assert(dir.dom().contains(from));
    assert forall|i: int, j: int| 0 <= i < j < moved.len() implies #[trigger] moved[i]
        != #[trigger] moved[j] by {
        assert(moved[i] == if i == at { to } else { places[i] });
        assert(moved[j] == if j == at { to } else { places[j] });
    }
    assert forall|j: int| 0 <= j < moved.len() implies after.dom().contains(#[trigger] moved[j])
        && after[moved[j]] == start[pairs[j].0] by {
        if j != at {
            assert(places[j] != to);
            assert(places[j] != from);
        }
    }
    assert forall|name: Seq<char>| !moved.contains(name) implies (#[trigger] after.dom().contains(
        name,
    ) <==> start.dom().contains(name) && !is_pending_original(pairs, name)) by {
        assert(moved[at] == to);
        assert(name != to);
        if name != from {
            if places.contains(name) {
                let j = choose|j: int| 0 <= j < places.len() && places[j] == name;
                assert(moved[j] == name);
            }
            assert(!places.contains(name));
        }
    }
    assert forall|name: Seq<char>|
        !moved.contains(name) && #[trigger] after.dom().contains(name) implies after[name]
        == start[name] by {
        assert(moved[at] == to);
        assert(name != to);
        assert(name != from);
        if places.contains(name) {
            let j = choose|j: int| 0 <= j < places.len() && places[j] == name;
            assert(moved[j] == name);
        }
        assert(!places.contains(name));
    }
}

/// The books after a pair that asks for no rename.
proof fn lemma_track_unchanged(
    pairs: Seq<Pair>,
    temps: Seq<Seq<char>>,
    k: int,
    deferred: Seq<Pair>,
    places: Seq<Seq<char>>,
)
    requires
        kept_track(pairs, temps, k, deferred, places),
        k > 0,
        pairs[k - 1].0 == pairs[k - 1].1,
    ensures
        kept_track(pairs, temps, k - 1, deferred, places),
{
    assert forall|i: int| 0 <= i < deferred.len() implies is_waiting(
        pairs,
        temps,
        places,
        k - 1,
        #[trigger] deferred[i],
    ) by {
        assert(is_waiting(pairs, temps, places, k, deferred[i]));
        let j = choose|j: int|
            k <= j < pairs.len() && #[trigger] places[j] == temps[j] && deferred[i] == (
                temps[j],
                pairs[j].1,
            );
        assert(k - 1 <= j < pairs.len() && places[j] == temps[j]);
    }
}

/// The books after a rename of the pair below `k` to `to`, which is its
/// target, or its temporary name with `deferred` one pair longer.
proof fn lemma_track_moved(
    pairs: Seq<Pair>,
    temps: Seq<Seq<char>>,
    k: int,
    deferred: Seq<Pair>,
    places: Seq<Seq<char>>,
    staged: bool,
)
    requires
        fits_names(pairs, temps),
        kept_track(pairs, temps, k, deferred, places),
        k > 0,
    ensures
        kept_track(
            pairs,
            temps,
            k - 1,
            if staged {
                deferred.push((temps[k - 1], pairs[k - 1].1))
            } else {
                deferred
            },
            places.update(k - 1, if staged { temps[k - 1] } else { pairs[k - 1].1 }),
        ),
{
    let at = k - 1;
    let to = if staged { temps[at] } else { pairs[at].1 };
    let more = if staged { deferred.push((temps[at], pairs[at].1)) } else { deferred };
    let moved = places.update(at, to);
    assert forall|j: int| at <= j < pairs.len() implies #[trigger] moved[j] == pairs[j].1 || (
    moved[j] == temps[j] && is_deferred(pairs, temps, more, j)) by {
        if j == at {
            if staged {
                assert(more[deferred.len() as int] == (temps[at], pairs[at].1));
            }
        } else if places[j] != pairs[j].1 {
            assert(is_deferred(pairs, temps, deferred, j));
            let i = choose|i: int|
                0 <= i < deferred.len() && #[trigger] deferred[i] == (temps[j], pairs[j].1);
            assert(more[i] == deferred[i]);
        }
    }
    assert forall|i: int| 0 <= i < more.len() implies is_waiting(
        pairs,
        temps,
        moved,
        at,
        #[trigger] more[i],
    ) by {
        if i < deferred.len() {
            assert(more[i] == deferred[i]);
            assert(is_waiting(pairs, temps, places, k, deferred[i]));
            let j = choose|j: int|
                k <= j < pairs.len() && #[trigger] places[j] == temps[j] && deferred[i] == (
                    temps[j],
                    pairs[j].1,
                );
            assert(at <= j < pairs.len() && moved[j] == temps[j]);
        } else {
            assert(moved[at] == temps[at]);
        }
    }
    assert forall|i: int, j: int| 0 <= i < j < more.len() implies #[trigger] more[i]
        != #[trigger] more[j] by {
        if j == deferred.len() {
            assert(more[i] == deferred[i]);
            assert(is_waiting(pairs, temps, places, k, deferred[i]));
            let m = choose|m: int|
                k <= m < pairs.len() && #[trigger] places[m] == temps[m] && deferred[i] == (
                    temps[m],
                    pairs[m].1,
                );
            assert(temps[at] != temps[m]);
        } else {
            assert(more[i] == deferred[i]);
            assert(more[j] == deferred[j]);
        }
    }
}

/// The books after the first deferred pair, which is that of the pair at
/// `at`, has been renamed to its target.
proof fn lemma_track_resumed(
    pairs: Seq<Pair>,
    temps: Seq<Seq<char>>,
    deferred: Seq<Pair>,
    places: Seq<Seq<char>>,
    at: int,
)
    requires
        fits_names(pairs, temps),
        kept_track(pairs, temps, 0, deferred, places),
        deferred.len() > 0,
        0 <= at < pairs.len(),
        places[at] == temps[at],
        deferred[0] == (temps[at], pairs[at].1),
    ensures
        kept_track(pairs, temps, 0, deferred.drop_first(), places.update(at, pairs[at].1)),
{
    let fewer = deferred.drop_first();
    let moved = places.update(at, pairs[at].1);
    assert forall|j: int| 0 <= j < pairs.len() implies #[trigger] moved[j] == pairs[j].1 || (
    moved[j] == temps[j] && is_deferred(pairs, temps, fewer, j)) by {
        if j != at && places[j] != pairs[j].1 {
            assert(is_deferred(pairs, temps, deferred, j));
            let i = choose|i: int|
                0 <= i < deferred.len() && #[trigger] deferred[i] == (temps[j], pairs[j].1);
            assert(temps[j] != temps[at]);
            assert(i > 0);
            assert(fewer[i - 1] == deferred[i]);
        }
    }
    assert forall|i: int| 0 <= i < fewer.len() implies is_waiting(
        pairs,
        temps,
        moved,
        0,
        #[trigger] fewer[i],
    ) by {
        assert(fewer[i] == deferred[i + 1]);
        assert(is_waiting(pairs, temps, places, 0, deferred[i + 1]));
        let j = choose|j: int|
            0 <= j < pairs.len() && #[trigger] places[j] == temps[j] && deferred[i + 1] == (
                temps[j],
                pairs[j].1,
            );
        assert(deferred[0] != deferred[i + 1]);
        assert(j != at);
        assert(0 <= j < pairs.len() && moved[j] == temps[j]);
    }
    assert forall|i: int, j: int| 0 <= i < j < fewer.len() implies #[trigger] fewer[i]
        != #[trigger] fewer[j] by {
        assert(fewer[i] == deferred[i + 1]);
        assert(fewer[j] == deferred[j + 1]);
    }
}

/// No other entry of the batch stands under the name that the pair below `k`
/// is renamed to.
proof fn lemma_free(
    pairs: Seq<Pair>,
    temps: Seq<Seq<char>>,
    start: Directory,
    k: int,
    deferred: Seq<Pair>,
    places: Seq<Seq<char>>,
    staged: bool,
)
    requires
        fits(pairs, temps, start),
        kept_track(pairs, temps, k, deferred, places),
        k > 0,
        staged || !is_pending_original(pairs.take(k - 1), pairs[k - 1].1),
    ensures
        forall|j: int|
            0 <= j < places.len() && j != k - 1 ==> #[trigger] places[j] != (if staged {
                temps[k - 1]
            } else {
                pairs[k - 1].1
            }),
{
    let at = k - 1;
    let to = if staged { temps[at] } else { pairs[at].1 };
    assert forall|j: int| 0 <= j < places.len() && j != at implies #[trigger] places[j] != to by {
        if j < at {
            assert(places[j] == pairs[j].0);
            assert(pairs.take(at)[j] == pairs[j]);
            assert(start.dom().contains(pairs[j].0));
            assert(!start.dom().contains(temps[at]));
        } else {
            assert(pairs[j].1 != pairs[at].1);
            assert(temps[j] != pairs[at].1);
            assert(pairs[j].1 != temps[at]);
            assert(temps[j] != temps[at]);
        }
    }
}

proof fn lemma_first_phase(
    pairs: Seq<Pair>,
    temps: Seq<Seq<char>>,
    start: Directory,
    k: int,
    dir: Directory,
    deferred: Seq<Pair>,
    places: Seq<Seq<char>>,
) -> (last: Seq<Seq<char>>)
    requires
        fits(pairs, temps, start),
        kept_track(pairs, temps, k, deferred, places),
        in_place(pairs, start, dir, places),
    ensures
        kept_track(pairs, temps, 0, first_phase(pairs.take(k), temps, dir, deferred).1, last),
        in_place(pairs, start, first_phase(pairs.take(k), temps, dir, deferred).0, last),
    decreases k,
{
    let pending = pairs.take(k);
    if k == 0 {
        places
    } else {
        let at = k - 1;
        let rest = pending.drop_last();
        let (original, target) = pending.last();
        assert(rest =~= pairs.take(at));
        assert(pending.last() == pairs[at]);
        assert(places[at] == original);
        assert(is_pending_original(pairs, original));
        if original == target {
            lemma_track_unchanged(pairs, temps, k, deferred, places);
            lemma_first_phase(pairs, temps, start, at, dir, deferred, places)
        } else {
            let staged = is_pending_original(rest, target);
            let to = if staged { temps[at] } else { target };
            let more = if staged { deferred.push((temps[at], target)) } else { deferred };
            lemma_free(pairs, temps, start, k, deferred, places, staged);
            lemma_move(pairs, start, dir, places, at, to);
            lemma_track_moved(pairs, temps, k, deferred, places, staged);
            lemma_first_phase(
                pairs,
                temps,
                start,
                at,
                renamed(dir, original, to),
                more,
                places.update(at, to),
            )
        }
    }
}

proof fn lemma_second_phase(
    pairs: Seq<Pair>,
    temps: Seq<Seq<char>>,
    start: Directory,
    dir: Directory,
    deferred: Seq<Pair>,
    places: Seq<Seq<char>>,
)
    requires
        fits(pairs, temps, start),
        kept_track(pairs, temps, 0, deferred, places),
        in_place(pairs, start, dir, places),
    ensures
        moved(pairs, start, second_phase(deferred, dir)),
    decreases deferred.len(),
{
    if deferred.len() == 0 {
        assert forall|j: int| 0 <= j < pairs.len() implies #[trigger] places[j] == pairs[j].1 by {
            if places[j] != pairs[j].1 {
                assert(is_deferred(pairs, temps, deferred, j));
            }
        }
        assert forall|name: Seq<char>| !is_target(pairs, name) implies !places.contains(name) by {
            if places.contains(name) {
                let j = choose|j: int| 0 <= j < places.len() && places[j] == name;
                assert(pairs[j].1 == name);
            }
        }
        assert forall|i: int| 0 <= i < pairs.len() implies dir.dom().contains(
            (#[trigger] pairs[i]).1,
        ) && dir[pairs[i].1] == start[pairs[i].0] by {
            assert(places[i] == pairs[i].1);
        }
    } else {
        assert(is_waiting(pairs, temps, places, 0, deferred[0]));
        let at = choose|j: int|
            0 <= j < pairs.len() && #[trigger] places[j] == temps[j] && deferred[0] == (
                temps[j],
                pairs[j].1,
            );
        let target = pairs[at].1;
        assert forall|j: int| 0 <= j < places.len() && j != at implies #[trigger] places[j]
            != target by {
            assert(pairs[j].1 != pairs[at].1);
            assert(temps[j] != pairs[at].1);
        }
        assert(!start.dom().contains(temps[at]));
        lemma_move(pairs, start, dir, places, at, target);
        lemma_track_resumed(pairs, temps, deferred, places, at);
        lemma_second_phase(
            pairs,
            temps,
            start,
            renamed(dir, temps[at], target),
            deferred.drop_first(),
            places.update(at, target),
        );
    }
}

/// Nothing is lost: a batch that fits the directory, and in which every
/// rename goes well, leaves every entry of the batch under its target name
/// and every other entry where it was, whatever the targets are: a swap, a
/// cycle or a chain of names.
pub proof fn lemma_batch_moves_every_entry(
    pairs: Seq<Pair>,
    temps: Seq<Seq<char>>,
    dir: Directory,
)
    requires
        fits(pairs, temps, dir),
    ensures
        moved(pairs, dir, after_batch(pairs, temps, dir)),
{
    let places = Seq::new(pairs.len(), |j: int| pairs[j].0);
    let none = Seq::<Pair>::empty();
    assert forall|name: Seq<char>| !places.contains(name) implies !is_pending_original(
        pairs,
        name,
    ) by {
        if is_pending_original(pairs, name) {
            let i = choose|i: int| 0 <= i < pairs.len() && (#[trigger] pairs[i]).0 == name;
            assert(places[i] == name);
        }
    }
    assert(kept_track(pairs, temps, pairs.len() as int, none, places));
    assert(in_place(pairs, dir, dir, places));
    let last = lemma_first_phase(pairs, temps, dir, pairs.len() as int, dir, none, places);
    assert(pairs.take(pairs.len() as int) =~= pairs);
    let (staged, deferred) = first_phase(pairs, temps, dir, none);
    lemma_second_phase(pairs, temps, dir, staged, deferred, last);
}

} // verus!

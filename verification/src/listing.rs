use crate::model::{called, in_listing_order, SnapshotView};
use crate::search::last_at;
use crate::storage::{insert_all_by_age, snapshot_views, Snapshot};
use crate::text::{key_order, lemma_text_lt_order, text_lt, KeyOrder};
use vstd::prelude::*;

verus! {

/// `s` is the last snapshot of its name in `list`.
pub open spec fn is_latest(list: Seq<SnapshotView>, s: SnapshotView) -> bool {
    exists|i: int| last_at(list, called(s.name), i) && #[trigger] list[i] == s
}

/// The names of `list` come in strictly ascending order.
pub open spec fn names_ascending(list: Seq<SnapshotView>) -> bool {
    forall|i: int, j: int| 0 <= i < j < list.len() ==> text_lt((#[trigger] list[i]).name, (#[trigger] list[j]).name)
}

/// `picked` holds, for every name in `list`, the last snapshot of that
/// name, in ascending order of the names.
pub open spec fn is_latest_by_name(picked: Seq<SnapshotView>, list: Seq<SnapshotView>) -> bool {
    &&& names_ascending(picked)
    &&& forall|i: int| 0 <= i < picked.len() ==> is_latest(list, #[trigger] picked[i])
    &&& forall|s: SnapshotView| #[trigger] is_latest(list, s) ==> picked.contains(s)
}

/// What becomes of the last snapshots of their names when one more snapshot
/// comes at the end of a list.
proof fn lemma_latest_after_push(list: Seq<SnapshotView>, x: SnapshotView, s: SnapshotView)
    ensures
        is_latest(list.push(x), s) == (if s.name == x.name {
            s == x
        } else {
            is_latest(list, s)
        }),
{
    let more = list.push(x);
    let p = called(s.name);
    if s.name == x.name {
        if is_latest(more, s) {
            let i = choose|i: int| last_at(more, p, i) && #[trigger] more[i] == s;
            if i < list.len() {
                assert(p(more[list.len() as int]));
            }
        }
        if s == x {
            assert(more[list.len() as int] == s);
        }
    } else {
        if is_latest(more, s) {
            let i = choose|i: int| last_at(more, p, i) && #[trigger] more[i] == s;
            assert forall|j: int| i < j < list.len() implies !p(#[trigger] list[j]) by {
                assert(list[j] == more[j]);
            }
        }
        if is_latest(list, s) {
            let i = choose|i: int| last_at(list, p, i) && #[trigger] list[i] == s;
            assert forall|j: int| i < j < more.len() implies !p(#[trigger] more[j]) by {
                if j < list.len() {
                    assert(more[j] == list[j]);
                }
            }
            assert(last_at(more, p, i));
        }
    }
}

/// The place of `name` in a list whose names ascend: that of the first
/// snapshot whose name is not below it, and whether that snapshot has the name.
fn place_of(picked: &Vec<Snapshot>, name: &str) -> (r: (usize, bool))
    requires
        names_ascending(snapshot_views(picked@)),
    ensures
        r.0 <= picked@.len(),
        forall|j: int| 0 <= j < r.0 ==> text_lt((#[trigger] snapshot_views(picked@)[j]).name, name@),
        r.1 ==> r.0 < picked@.len() && snapshot_views(picked@)[r.0 as int].name == name@,
        !r.1 ==> forall|j: int| r.0 <= j < picked@.len() ==> text_lt(name@, (#[trigger] snapshot_views(picked@)[j]).name),
{
    let ghost held = snapshot_views(picked@);
    let mut at: usize = 0;
    while at < picked.len()
        invariant
            at <= picked@.len(),
            held == snapshot_views(picked@),
            names_ascending(held),
            forall|j: int| 0 <= j < at ==> text_lt((#[trigger] held[j]).name, name@),
        decreases picked@.len() - at,
    {
        match key_order(picked[at].name.as_str(), name) {
            KeyOrder::Less => {},
            KeyOrder::Equal => {
                return (at, true);
            },
            KeyOrder::Greater => {
                assert forall|j: int| at <= j < held.len() implies text_lt(name@, (#[trigger] held[j]).name) by {
                    if at < j {
                        lemma_text_lt_order(name@, held[at as int].name, held[j].name);
                    }
                }
                return (at, false);
            },
        }
        at = at + 1;
    }
    (at, false)
}

/// For every name in `list`, the last snapshot of that name, in ascending
/// order of the names.
pub fn latest_by_name(list: &[Snapshot]) -> (picked: Vec<Snapshot>)
    ensures
        is_latest_by_name(snapshot_views(picked@), snapshot_views(list@)),
{
    let ghost views = snapshot_views(list@);
    let mut picked: Vec<Snapshot> = Vec::new();
    let mut k: usize = 0;
    proof {
        assert forall|s: SnapshotView| !#[trigger] is_latest(views.take(0), s) by {}
    }
    while k < list.len()
        invariant
            k <= list@.len(),
            views == snapshot_views(list@),
            is_latest_by_name(snapshot_views(picked@), views.take(k as int)),
        decreases list@.len() - k,
    {
        let ghost seen = views.take(k as int);
        let ghost held = snapshot_views(picked@);
        let x = list[k].clone();
        let (at, found) = place_of(&picked, x.name.as_str());
        proof {
            assert(views.take(k + 1) =~= seen.push(x@));
        }
        if found {
            let _ = picked.remove(at);
            picked.insert(at, x);
        } else {
            picked.insert(at, x);
        }
        proof {
            let done = snapshot_views(picked@);
            let xv = views[k as int];
            if found {
                assert(done =~= held.update(at as int, xv));
            } else {
                assert(done =~= held.insert(at as int, xv));
            }
            let back = |i: int| if found || i < at { i } else { i - 1 };
            assert forall|i: int| 0 <= i < done.len() && i != at implies #[trigger] done[i] == held[back(i)] by {}
            assert forall|i: int| 0 <= i < done.len() && i != at implies (#[trigger] done[i]).name != xv.name by {
                let o = held[back(i)];
                lemma_text_lt_order(o.name, o.name, xv.name);
            }
            assert forall|i: int, j: int| 0 <= i < j < done.len() implies text_lt(
                (#[trigger] done[i]).name,
                (#[trigger] done[j]).name,
            ) by {
                if i != at && j != at {
                    assert(done[i] == held[back(i)] && done[j] == held[back(j)]);
                } else if i == at {
                    assert(done[j] == held[back(j)]);
                } else {
                    assert(done[i] == held[back(i)]);
                }
            }
            assert forall|i: int| 0 <= i < done.len() implies is_latest(seen.push(xv), #[trigger] done[i]) by {
                lemma_latest_after_push(seen, xv, done[i]);
                if i != at {
                    assert(done[i] == held[back(i)]);
                }
            }
            assert forall|s: SnapshotView| #[trigger] is_latest(seen.push(xv), s) implies done.contains(s) by {
                lemma_latest_after_push(seen, xv, s);
                if s.name == xv.name {
                    assert(done[at as int] == s);
                } else {
                    let i = choose|i: int| 0 <= i < held.len() && held[i] == s;
                    if found {
                        assert(done[i] == s);
                    } else if i < at {
                        assert(done[i] == s);
                    } else {
                        assert(done[i + 1] == s);
                    }
                }
            }
        }
        k = k + 1;
    }
    proof {
        assert(views.take(k as int) =~= views);
    }
    picked
}

/// The snapshots of `list`, the newest first, and those made at the same
/// moment in the order in which `list` has them.
pub fn newest_first(list: &[Snapshot]) -> (sorted: Vec<Snapshot>)
    ensures
        in_listing_order(snapshot_views(sorted@), snapshot_views(list@)),
{
    let mut sorted: Vec<Snapshot> = Vec::new();
    insert_all_by_age(&mut sorted, list);
    sorted
}

} // verus!

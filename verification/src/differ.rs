use crate::env::{ascending, has_key, Env};
use crate::text::{key_order, lemma_text_lt_order, text_lt, KeyOrder};
use vstd::prelude::*;
use vstd::string::StringExecFns;

verus! {

/// One finding of a comparison of two environments.
#[derive(Debug, PartialEq, Eq)]
pub enum EnvDiff {
    Added { key: String, value: String },
    Removed { key: String, old_value: String },
    Changed { key: String, old_value: String, new_value: String },
    Unchanged { key: String, value: String },
}

/// What a finding says.
pub enum EnvDiffView {
    Added { key: Seq<char>, value: Seq<char> },
    Removed { key: Seq<char>, old_value: Seq<char> },
    Changed { key: Seq<char>, old_value: Seq<char>, new_value: Seq<char> },
    Unchanged { key: Seq<char>, value: Seq<char> },
}

impl View for EnvDiff {
    type V = EnvDiffView;

    open spec fn view(&self) -> EnvDiffView {
        match self {
            EnvDiff::Added { key, value } => EnvDiffView::Added { key: key@, value: value@ },
            EnvDiff::Removed { key, old_value } => EnvDiffView::Removed { key: key@, old_value: old_value@ },
            EnvDiff::Changed { key, old_value, new_value } => EnvDiffView::Changed {
                key: key@,
                old_value: old_value@,
                new_value: new_value@,
            },
            EnvDiff::Unchanged { key, value } => EnvDiffView::Unchanged { key: key@, value: value@ },
        }
    }
}

impl Clone for EnvDiff {
    fn clone(&self) -> (copy: EnvDiff)
        ensures
            copy@ == self@,
    {
        match self {
            EnvDiff::Added { key, value } => EnvDiff::Added { key: key.clone(), value: value.clone() },
            EnvDiff::Removed { key, old_value } => EnvDiff::Removed {
                key: key.clone(),
                old_value: old_value.clone(),
            },
            EnvDiff::Changed { key, old_value, new_value } => EnvDiff::Changed {
                key: key.clone(),
                old_value: old_value.clone(),
                new_value: new_value.clone(),
            },
            EnvDiff::Unchanged { key, value } => EnvDiff::Unchanged { key: key.clone(), value: value.clone() },
        }
    }
}

impl EnvDiffView {
    /// The variable that the finding is about.
    pub open spec fn key(self) -> Seq<char> {
        match self {
            EnvDiffView::Added { key, .. } => key,
            EnvDiffView::Removed { key, .. } => key,
            EnvDiffView::Changed { key, .. } => key,
            EnvDiffView::Unchanged { key, .. } => key,
        }
    }

    /// Whether the finding is true of the step from `old` to `new`. A variable
    /// that only `new` has is added, one that only `old` has is removed. One
    /// that both have is unchanged where they give it one value, and changed
    /// where they give it two.
    pub open spec fn holds(self, old: Map<Seq<char>, Seq<char>>, new: Map<Seq<char>, Seq<char>>) -> bool {
        match self {
            EnvDiffView::Added { key, value } => !old.contains_key(key) && new.contains_key(key) && new[key]
                == value,
            EnvDiffView::Removed { key, old_value } => old.contains_key(key) && old[key] == old_value
                && !new.contains_key(key),
            EnvDiffView::Changed { key, old_value, new_value } => old.contains_key(key) && new.contains_key(key)
                && old[key] == old_value && new[key] == new_value && old_value != new_value,
            EnvDiffView::Unchanged { key, value } => old.contains_key(key) && new.contains_key(key) && old[key]
                == value && new[key] == value,
        }
    }

    /// The order of the findings: that of the names of their variables.
    pub open spec fn before(self, other: EnvDiffView) -> bool {
        text_lt(self.key(), other.key())
    }

    /// The finding as it reads for the step back: what was added is removed
    /// and the reverse, and a change runs the other way.
    pub open spec fn mirrored(self) -> EnvDiffView {
        match self {
            EnvDiffView::Added { key, value } => EnvDiffView::Removed { key, old_value: value },
            EnvDiffView::Removed { key, old_value } => EnvDiffView::Added { key, value: old_value },
            EnvDiffView::Changed { key, old_value, new_value } => EnvDiffView::Changed {
                key,
                old_value: new_value,
                new_value: old_value,
            },
            EnvDiffView::Unchanged { key, value } => EnvDiffView::Unchanged { key, value },
        }
    }
}

/// What a list of findings holds.
pub open spec fn diff_views(list: Seq<EnvDiff>) -> Seq<EnvDiffView> {
    Seq::new(list.len(), |i: int| list[i]@)
}

/// `diffs` is the difference between `old` and `new`: all findings that
/// are true of the step from the one to the other, in the order of the
/// names. There is one finding for each name that either has, and no other.
pub open spec fn is_difference(
    diffs: Seq<EnvDiffView>,
    old: Map<Seq<char>, Seq<char>>,
    new: Map<Seq<char>, Seq<char>>,
) -> bool {
    &&& forall|i: int| 0 <= i < diffs.len() ==> (#[trigger] diffs[i]).holds(old, new)
    &&& forall|d: EnvDiffView| #[trigger] d.holds(old, new) ==> diffs.contains(d)
    &&& forall|i: int, j: int| 0 <= i < j < diffs.len() ==> (#[trigger] diffs[i]).before(#[trigger] diffs[j])
}

/// What there is to say of the name `key`, which one of the two has.
pub open spec fn finding_for(
    old: Map<Seq<char>, Seq<char>>,
    new: Map<Seq<char>, Seq<char>>,
    key: Seq<char>,
) -> EnvDiffView {
    if !old.contains_key(key) {
        EnvDiffView::Added { key, value: new[key] }
    } else if !new.contains_key(key) {
        EnvDiffView::Removed { key, old_value: old[key] }
    } else if old[key] == new[key] {
        EnvDiffView::Unchanged { key, value: old[key] }
    } else {
        EnvDiffView::Changed { key, old_value: old[key], new_value: new[key] }
    }
}

/// The names of the findings, one by one.
pub open spec fn names_of(diffs: Seq<EnvDiffView>) -> Seq<Seq<char>> {
    Seq::new(diffs.len(), |i: int| diffs[i].key())
}

/// A difference has one finding for each name that either environment
/// has, and no other: its names ascend strictly, they are the names of the
/// two environments, and there are as many findings as there are names.
pub proof fn lemma_one_finding_per_name(
    diffs: Seq<EnvDiffView>,
    old: Map<Seq<char>, Seq<char>>,
    new: Map<Seq<char>, Seq<char>>,
)
    requires
        is_difference(diffs, old, new),
        old.dom().finite(),
        new.dom().finite(),
    ensures
        forall|i: int| 0 <= i < diffs.len() ==> #[trigger] diffs[i] == finding_for(old, new, diffs[i].key()),
        forall|i: int, j: int| 0 <= i < j < diffs.len() ==> text_lt((#[trigger] diffs[i]).key(), (#[trigger] diffs[j]).key()),
        names_of(diffs).no_duplicates(),
        names_of(diffs).to_set() == old.dom().union(new.dom()),
        diffs.len() == old.dom().union(new.dom()).len(),
{
    let names = names_of(diffs);
    assert forall|i: int| 0 <= i < diffs.len() implies #[trigger] diffs[i] == finding_for(old, new, diffs[i].key()) by {
        assert(diffs[i].holds(old, new));
    }
    assert forall|i: int, j: int| 0 <= i < j < diffs.len() implies text_lt(
        (#[trigger] diffs[i]).key(),
        (#[trigger] diffs[j]).key(),
    ) by {
        assert(diffs[i].before(diffs[j]));
    }
    assert forall|i: int, j: int| 0 <= i < names.len() && 0 <= j < names.len() && i != j implies names[i]
        != names[j] by {
        lemma_text_lt_order(names[i], names[i], names[i]);
        if i < j {
            assert(diffs[i].before(diffs[j]));
        } else {
            assert(diffs[j].before(diffs[i]));
        }
    }
    assert forall|key: Seq<char>| names.to_set().contains(key) == old.dom().union(new.dom()).contains(key) by {
        if names.to_set().contains(key) {
            let i = choose|i: int| 0 <= i < names.len() && names[i] == key;
            assert(diffs[i].holds(old, new));
        }
        if old.contains_key(key) || new.contains_key(key) {
            let d = finding_for(old, new, key);
            assert(d.holds(old, new));
            let i = choose|i: int| 0 <= i < diffs.len() && diffs[i] == d;
            assert(names[i] == key);
        }
    }
    assert(names.to_set() =~= old.dom().union(new.dom()));
    names.unique_seq_to_set();
}

/// The difference of the step back is the mirror image of the difference
/// of the step forth, finding by finding.
pub proof fn lemma_mirror(
    diffs: Seq<EnvDiffView>,
    old: Map<Seq<char>, Seq<char>>,
    new: Map<Seq<char>, Seq<char>>,
)
    requires
        is_difference(diffs, old, new),
    ensures
        is_difference(Seq::new(diffs.len(), |i: int| diffs[i].mirrored()), new, old),
{
    let back = Seq::new(diffs.len(), |i: int| diffs[i].mirrored());
    assert forall|i: int| 0 <= i < back.len() implies (#[trigger] back[i]).holds(new, old) by {
        assert(diffs[i].holds(old, new));
    }
    assert forall|d: EnvDiffView| #[trigger] d.holds(new, old) implies back.contains(d) by {
        let forth = d.mirrored();
        assert(forth.holds(old, new));
        let i = choose|i: int| 0 <= i < diffs.len() && diffs[i] == forth;
        assert(back[i] == d);
    }
    assert forall|i: int, j: int| 0 <= i < j < back.len() implies (#[trigger] back[i]).before(#[trigger] back[j]) by {
        assert(diffs[i].before(diffs[j]));
    }
}

/// Whether the name `key` is among the first `n` names of `pairs`.
spec fn among(pairs: Seq<(Seq<char>, Seq<char>)>, n: int, key: Seq<char>) -> bool {
    exists|i: int| 0 <= i < n && #[trigger] pairs[i].0 == key
}

/// The state of the walk through both environments: `done` holds what is
/// to be said of the first `i` names of `old` and the first `j` of `new`.
spec fn walked(
    done: Seq<EnvDiffView>,
    olds: Seq<(Seq<char>, Seq<char>)>,
    news: Seq<(Seq<char>, Seq<char>)>,
    old: Map<Seq<char>, Seq<char>>,
    new: Map<Seq<char>, Seq<char>>,
    i: int,
    j: int,
) -> bool {
    &&& 0 <= i <= olds.len()
    &&& 0 <= j <= news.len()
    &&& forall|k: int| 0 <= k < done.len() ==> (#[trigger] done[k]).holds(old, new)
    &&& forall|k: int| 0 <= k < done.len() ==> among(olds, i, (#[trigger] done[k]).key()) || among(news, j, done[k].key())
    &&& forall|d: EnvDiffView| #[trigger]
        d.holds(old, new) && (among(olds, i, d.key()) || among(news, j, d.key())) ==> done.contains(d)
    &&& forall|a: int, b: int| 0 <= a < b < done.len() ==> (#[trigger] done[a]).before(#[trigger] done[b])
    &&& i < olds.len() ==> forall|b: int| 0 <= b < j ==> text_lt(#[trigger] news[b].0, olds[i].0)
    &&& j < news.len() ==> forall|a: int| 0 <= a < i ==> text_lt(#[trigger] olds[a].0, news[j].0)
}

/// The difference between two environments: one finding for each name that
/// either has, in the order of the names.
pub fn diff_envs(old: &Env, new: &Env) -> (diffs: Vec<EnvDiff>)
    ensures
        is_difference(diff_views(diffs@), old@, new@),
        diffs@.len() == old@.dom().union(new@.dom()).len(),
{
    proof {
        use_type_invariant(old);
        use_type_invariant(new);
        old.lemma_pairs();
        new.lemma_pairs();
    }
    let ghost olds = old.pairs();
    let ghost news = new.pairs();
    let mut diffs: Vec<EnvDiff> = Vec::new();
    let mut i: usize = 0;
    let mut j: usize = 0;
    let n = old.len();
    let m = new.len();
    while i < n || j < m
        invariant
            n == olds.len(),
            m == news.len(),
            olds == old.pairs(),
            news == new.pairs(),
            ascending(olds),
            ascending(news),
            forall|k: int| 0 <= k < olds.len() ==> old@.contains_key(#[trigger] olds[k].0) && old@[olds[k].0] == olds[k].1,
            forall|k: int| 0 <= k < news.len() ==> new@.contains_key(#[trigger] news[k].0) && new@[news[k].0] == news[k].1,
            forall|k: Seq<char>| old@.contains_key(k) ==> has_key(olds, k),
            forall|k: Seq<char>| new@.contains_key(k) ==> has_key(news, k),
            walked(diff_views(diffs@), olds, news, old@, new@, i as int, j as int),
        decreases (n - i) + (m - j),
    {
        let ghost done = diff_views(diffs@);
        let order = if j >= m {
            KeyOrder::Less
        } else if i >= n {
            KeyOrder::Greater
        } else {
            key_order(old.key_at(i).as_str(), new.key_at(j).as_str())
        };
        match order {
            KeyOrder::Less => {
                let ghost key = olds[i as int].0;
                let found = EnvDiff::Removed { key: old.key_at(i).clone(), old_value: old.value_at(i).clone() };
                proof {
                    lemma_only_here(olds, news, i as int, j as int, true);
                    assert forall|d: EnvDiffView| #[trigger] d.holds(old@, new@) && d.key() == key implies seq![
                        found@,
                    ].contains(d) by {
                        assert(seq![found@][0] == d);
                    }
                    lemma_step(done, seq![found@], olds, news, old@, new@, i as int, j as int, true, false);
                }
                diffs.push(found);
                assert(diff_views(diffs@) =~= done + seq![found@]);
                i = i + 1;
            },
            KeyOrder::Greater => {
                let ghost key = news[j as int].0;
                let found = EnvDiff::Added { key: new.key_at(j).clone(), value: new.value_at(j).clone() };
                proof {
                    lemma_only_here(olds, news, i as int, j as int, false);
                    assert forall|d: EnvDiffView| #[trigger] d.holds(old@, new@) && d.key() == key implies seq![
                        found@,
                    ].contains(d) by {
                        assert(seq![found@][0] == d);
                    }
                    lemma_step(done, seq![found@], olds, news, old@, new@, i as int, j as int, false, true);
                }
                diffs.push(found);
                assert(diff_views(diffs@) =~= done + seq![found@]);
                j = j + 1;
            },
            KeyOrder::Equal => {
                let same = match key_order(old.value_at(i).as_str(), new.value_at(j).as_str()) {
                    KeyOrder::Equal => true,
                    _ => false,
                };
                if same {
                    let found = EnvDiff::Unchanged { key: new.key_at(j).clone(), value: old.value_at(i).clone() };
                    proof {
                        let key = olds[i as int].0;
                        assert forall|d: EnvDiffView| #[trigger] d.holds(old@, new@) && d.key() == key implies seq![
                            found@,
                        ].contains(d) by {
                            assert(seq![found@][0] == d);
                        }
                        lemma_step(done, seq![found@], olds, news, old@, new@, i as int, j as int, true, true);
                    }
                    diffs.push(found);
                    assert(diff_views(diffs@) =~= done + seq![found@]);
                } else {
                    let found = EnvDiff::Changed {
                        key: new.key_at(j).clone(),
                        old_value: old.value_at(i).clone(),
                        new_value: new.value_at(j).clone(),
                    };
                    proof {
                        let key = olds[i as int].0;
                        assert forall|d: EnvDiffView| #[trigger] d.holds(old@, new@) && d.key() == key implies seq![
                            found@,
                        ].contains(d) by {
                            assert(seq![found@][0] == d);
                        }
                        lemma_step(done, seq![found@], olds, news, old@, new@, i as int, j as int, true, true);
                    }
                    diffs.push(found);
                    assert(diff_views(diffs@) =~= done + seq![found@]);
                }
                i = i + 1;
                j = j + 1;
            },
        }
    }
    proof {
        let done = diff_views(diffs@);
        assert forall|d: EnvDiffView| #[trigger] d.holds(old@, new@) implies done.contains(d) by {
            if old@.contains_key(d.key()) {
                assert(among(olds, i as int, d.key()));
            } else {
                assert(among(news, j as int, d.key()));
            }
        }
        lemma_one_finding_per_name(done, old@, new@);
    }
    diffs
}

/// Where the walk stands at a name that only one of the two environments
/// can have, the other does not have it.
proof fn lemma_only_here(
    olds: Seq<(Seq<char>, Seq<char>)>,
    news: Seq<(Seq<char>, Seq<char>)>,
    i: int,
    j: int,
    in_old: bool,
)
    requires
        ascending(olds),
        ascending(news),
        0 <= i <= olds.len(),
        0 <= j <= news.len(),
        in_old ==> i < olds.len() && (j < news.len() ==> text_lt(olds[i].0, news[j].0)),
        !in_old ==> j < news.len() && (i < olds.len() ==> text_lt(news[j].0, olds[i].0)),
        i < olds.len() ==> forall|b: int| 0 <= b < j ==> text_lt(#[trigger] news[b].0, olds[i].0),
        j < news.len() ==> forall|a: int| 0 <= a < i ==> text_lt(#[trigger] olds[a].0, news[j].0),
    ensures
        in_old ==> !has_key(news, olds[i].0),
        !in_old ==> !has_key(olds, news[j].0),
{
    if in_old {
        let key = olds[i].0;
        assert forall|b: int| 0 <= b < news.len() implies #[trigger] news[b].0 != key by {
            lemma_text_lt_order(key, key, key);
            if b > j {
                lemma_text_lt_order(key, news[j].0, news[b].0);
            }
        }
    } else {
        let key = news[j].0;
        assert forall|a: int| 0 <= a < olds.len() implies #[trigger] olds[a].0 != key by {
            lemma_text_lt_order(key, key, key);
            if a > i {
                lemma_text_lt_order(key, olds[i].0, olds[a].0);
            }
        }
    }
}

/// One step of the walk: the findings `found` say all there is to say of the
/// name at which the walk stands, and the walk moves past that name.
proof fn lemma_step(
    done: Seq<EnvDiffView>,
    found: Seq<EnvDiffView>,
    olds: Seq<(Seq<char>, Seq<char>)>,
    news: Seq<(Seq<char>, Seq<char>)>,
    old: Map<Seq<char>, Seq<char>>,
    new: Map<Seq<char>, Seq<char>>,
    i: int,
    j: int,
    in_old: bool,
    in_new: bool,
)
    requires
        ascending(olds),
        ascending(news),
        walked(done, olds, news, old, new, i, j),
        in_old || in_new,
        in_old ==> i < olds.len(),
        in_new ==> j < news.len(),
        in_old && in_new ==> olds[i].0 == news[j].0,
        in_old && !in_new ==> (j < news.len() ==> text_lt(olds[i].0, news[j].0)),
        !in_old && in_new ==> (i < olds.len() ==> text_lt(news[j].0, olds[i].0)),
        forall|k: int| 0 <= k < found.len() ==> (#[trigger] found[k]).holds(old, new),
        forall|k: int| 0 <= k < found.len() ==> (#[trigger] found[k]).key() == (if in_old {
            olds[i].0
        } else {
            news[j].0
        }),
        forall|d: EnvDiffView| #[trigger]
            d.holds(old, new) && d.key() == (if in_old {
                olds[i].0
            } else {
                news[j].0
            }) ==> found.contains(d),
        forall|a: int, b: int| 0 <= a < b < found.len() ==> (#[trigger] found[a]).before(#[trigger] found[b]),
    ensures
        walked(
            done + found,
            olds,
            news,
            old,
            new,
            if in_old {
                i + 1
            } else {
                i
            },
            if in_new {
                j + 1
            } else {
                j
            },
        ),
{
    let key = if in_old {
        olds[i].0
    } else {
        news[j].0
    };
    let i2 = if in_old {
        i + 1
    } else {
        i
    };
    let j2 = if in_new {
        j + 1
    } else {
        j
    };
    let all = done + found;
    assert forall|k: int| 0 <= k < all.len() implies (#[trigger] all[k]).holds(old, new) && (among(
        olds,
        i2,
        all[k].key(),
    ) || among(news, j2, all[k].key())) by {
        if k < done.len() {
            if among(olds, i, done[k].key()) {
                let a = choose|a: int| 0 <= a < i && #[trigger] olds[a].0 == done[k].key();
                assert(olds[a].0 == done[k].key());
            } else {
                let b = choose|b: int| 0 <= b < j && #[trigger] news[b].0 == done[k].key();
                assert(news[b].0 == done[k].key());
            }
        } else {
            if in_old {
                assert(olds[i].0 == key);
            } else {
                assert(news[j].0 == key);
            }
        }
    }
    assert forall|d: EnvDiffView| #[trigger]
        d.holds(old, new) && (among(olds, i2, d.key()) || among(news, j2, d.key())) implies all.contains(d) by {
        if among(olds, i, d.key()) || among(news, j, d.key()) {
            let k = choose|k: int| 0 <= k < done.len() && done[k] == d;
            assert(all[k] == d);
        } else {
            if among(olds, i2, d.key()) {
                let a = choose|a: int| 0 <= a < i2 && #[trigger] olds[a].0 == d.key();
                if a < i {
                    assert(among(olds, i, d.key()));
                }
            } else {
                let b = choose|b: int| 0 <= b < j2 && #[trigger] news[b].0 == d.key();
                if b < j {
                    assert(among(news, j, d.key()));
                }
            }
            let k = choose|k: int| 0 <= k < found.len() && found[k] == d;
            assert(all[done.len() + k] == d);
        }
    }
    assert forall|a: int, b: int| 0 <= a < b < all.len() implies (#[trigger] all[a]).before(#[trigger] all[b]) by {
        if b < done.len() {
            assert(all[a] == done[a] && all[b] == done[b]);
        } else if a >= done.len() {
            assert(all[a] == found[a - done.len()] && all[b] == found[b - done.len()]);
        } else {
            if among(olds, i, done[a].key()) {
                let x = choose|x: int| 0 <= x < i && #[trigger] olds[x].0 == done[a].key();
                if in_old {
                    assert(text_lt(olds[x].0, olds[i].0));
                } else {
                    assert(text_lt(olds[x].0, news[j].0));
                }
            } else {
                let y = choose|y: int| 0 <= y < j && #[trigger] news[y].0 == done[a].key();
                if in_new {
                    assert(text_lt(news[y].0, news[j].0));
                } else {
                    assert(text_lt(news[y].0, olds[i].0));
                }
            }
        }
    }
    if i2 < olds.len() {
        assert forall|b: int| 0 <= b < j2 implies text_lt(#[trigger] news[b].0, olds[i2].0) by {
            if in_old {
                if b < j {
                    lemma_text_lt_order(news[b].0, olds[i].0, olds[i2].0);
                }
            }
        }
    }
    if j2 < news.len() {
        assert forall|a: int| 0 <= a < i2 implies text_lt(#[trigger] olds[a].0, news[j2].0) by {
            if in_new {
                if a < i {
                    lemma_text_lt_order(olds[a].0, news[j].0, news[j2].0);
                }
            }
        }
    }
}

/// The label under which the finding at `i` is shown: the one of `labels`
/// for it, or the name of its variable where `labels` has none.
pub open spec fn label_at(labels: Seq<Seq<char>>, i: int, key: Seq<char>) -> Seq<char> {
    if 0 <= i < labels.len() {
        labels[i]
    } else {
        key
    }
}

/// The lines that show one finding. An unchanged variable is shown only
/// where that is asked for, and under its own name.
pub open spec fn shown(d: EnvDiffView, label: Seq<char>, show_unchanged: bool) -> Seq<char> {
    match d {
        EnvDiffView::Added { key, value } => "+ "@ + label + ": "@ + value + "\n"@,
        EnvDiffView::Removed { key, old_value } => "- "@ + label + ": "@ + old_value + "\n"@,
        EnvDiffView::Changed { key, old_value, new_value } => "~ "@ + label + ":\n"@ + "  - "@ + old_value + "\n"@
            + "  + "@ + new_value + "\n"@,
        EnvDiffView::Unchanged { key, value } => if show_unchanged {
            "  "@ + key + ": "@ + value + "\n"@
        } else {
            Seq::empty()
        },
    }
}

/// The lines that show the first `n` findings.
pub open spec fn shown_all(diffs: Seq<EnvDiffView>, labels: Seq<Seq<char>>, show_unchanged: bool, n: int) -> Seq<
    char,
>
    decreases n,
{
    if n <= 0 {
        Seq::empty()
    } else {
        shown_all(diffs, labels, show_unchanged, n - 1) + shown(
            diffs[n - 1],
            label_at(labels, n - 1, diffs[n - 1].key()),
            show_unchanged,
        )
    }
}

/// How many of the first `n` findings are of the kind `kind`.
pub open spec fn count(diffs: Seq<EnvDiffView>, kind: spec_fn(EnvDiffView) -> bool, n: int) -> nat
    decreases n,
{
    if n <= 0 {
        0
    } else {
        count(diffs, kind, n - 1) + if kind(diffs[n - 1]) {
            1nat
        } else {
            0nat
        }
    }
}

/// The line that sums the findings up.
pub open spec fn summary(diffs: Seq<EnvDiffView>) -> Seq<char> {
    "\n"@ + crate::text::decimal(count(diffs, |d: EnvDiffView| d is Changed, diffs.len() as int)) + " changed, "@
        + crate::text::decimal(count(diffs, |d: EnvDiffView| d is Added, diffs.len() as int)) + " added, "@
        + crate::text::decimal(count(diffs, |d: EnvDiffView| d is Removed, diffs.len() as int)) + " removed\n"@
}

/// The findings as text: one after the other and, unless the unchanged
/// variables are shown too, the sums at the end.
pub open spec fn formatted(diffs: Seq<EnvDiffView>, labels: Seq<Seq<char>>, show_unchanged: bool) -> Seq<char> {
    shown_all(diffs, labels, show_unchanged, diffs.len() as int) + if show_unchanged {
        Seq::empty()
    } else {
        summary(diffs)
    }
}

/// The findings as text, each under the label that `labels` has for it.
pub fn format_diff_labelled(diffs: &[EnvDiff], labels: &Vec<String>, show_unchanged: bool) -> (output: String)
    ensures
        output@ == formatted(diff_views(diffs@), crate::config::texts(labels@), show_unchanged),
{
    let ghost views = diff_views(diffs@);
    let ghost names = crate::config::texts(labels@);
    let mut output = String::new();
    let mut added: usize = 0;
    let mut removed: usize = 0;
    let mut changed: usize = 0;
    let mut i: usize = 0;
    while i < diffs.len()
        invariant
            i <= diffs@.len(),
            views == diff_views(diffs@),
            names == crate::config::texts(labels@),
            output@ == shown_all(views, names, show_unchanged, i as int),
            changed == count(views, |d: EnvDiffView| d is Changed, i as int),
            added == count(views, |d: EnvDiffView| d is Added, i as int),
            removed == count(views, |d: EnvDiffView| d is Removed, i as int),
            changed <= i && added <= i && removed <= i,
        decreases diffs@.len() - i,
    {
        let ghost before = output@;
        let ghost label = label_at(names, i as int, views[i as int].key());
        match &diffs[i] {
            EnvDiff::Added { key, value } => {
                output.append("+ ");
                if i < labels.len() {
                    output.append(labels[i].as_str());
                } else {
                    output.append(key.as_str());
                }
                output.append(": ");
                output.append(value.as_str());
                output.append("\n");
                added = added + 1;
            },
            EnvDiff::Removed { key, old_value } => {
                output.append("- ");
                if i < labels.len() {
                    output.append(labels[i].as_str());
                } else {
                    output.append(key.as_str());
                }
                output.append(": ");
                output.append(old_value.as_str());
                output.append("\n");
                removed = removed + 1;
            },
            EnvDiff::Changed { key, old_value, new_value } => {
                output.append("~ ");
                if i < labels.len() {
                    output.append(labels[i].as_str());
                } else {
                    output.append(key.as_str());
                }
                output.append(":\n");
                output.append("  - ");
                output.append(old_value.as_str());
                output.append("\n");
                output.append("  + ");
                output.append(new_value.as_str());
                output.append("\n");
                changed = changed + 1;
            },
            EnvDiff::Unchanged { key, value } => {
                if show_unchanged {
                    output.append("  ");
                    output.append(key.as_str());
                    output.append(": ");
                    output.append(value.as_str());
                    output.append("\n");
                }
            },
        }
        assert(output@ =~= before + shown(views[i as int], label, show_unchanged));
        i = i + 1;
    }
    if !show_unchanged {
        let ghost lines = output@;
        output.append("\n");
        crate::text::push_decimal(&mut output, changed);
        output.append(" changed, ");
        crate::text::push_decimal(&mut output, added);
        output.append(" added, ");
        crate::text::push_decimal(&mut output, removed);
        output.append(" removed\n");
        assert(output@ =~= lines + summary(views));
    } else {
        assert(output@ =~= output@ + Seq::<char>::empty());
    }
    output
}

/// The labels that show every finding under the name of its variable.
pub open spec fn own_labels(diffs: Seq<EnvDiffView>) -> Seq<Seq<char>> {
    Seq::new(diffs.len(), |i: int| diffs[i].key())
}

/// The findings as text, each under the name of its variable.
pub fn format_diff(diffs: &[EnvDiff], show_unchanged: bool) -> (output: String)
    ensures
        output@ == formatted(diff_views(diffs@), own_labels(diff_views(diffs@)), show_unchanged),
{
    let labels: Vec<String> = Vec::new();
    let output = format_diff_labelled(diffs, &labels, show_unchanged);
    proof {
        assert(crate::config::texts(labels@) =~= Seq::<Seq<char>>::empty());
        lemma_labels_default(diff_views(diffs@), show_unchanged, diffs@.len() as int);
    }
    output
}

/// Where no labels are given, every finding is shown under its own name.
proof fn lemma_labels_default(diffs: Seq<EnvDiffView>, show_unchanged: bool, n: int)
    requires
        0 <= n <= diffs.len(),
    ensures
        shown_all(diffs, Seq::empty(), show_unchanged, n) == shown_all(diffs, own_labels(diffs), show_unchanged, n),
    decreases n,
{
    if n > 0 {
        lemma_labels_default(diffs, show_unchanged, n - 1);
    }
}

/// `colored::Colorize::green`, written out as text: `text`, set in green
/// where the terminal and the environment allow colour, and as it is where
/// they do not. Nothing is claimed of the result.
#[verifier::external_body]
fn paint_green(text: &str) -> (painted: String) {
    colored::Colorize::green(text).to_string()
}

/// `colored::Colorize::red`, written out as text: `text`, set in red where
/// the terminal and the environment allow colour, and as it is where they
/// do not. Nothing is claimed of the result.
#[verifier::external_body]
fn paint_red(text: &str) -> (painted: String) {
    colored::Colorize::red(text).to_string()
}

/// `colored::Colorize::yellow`, written out as text: `text`, set in yellow
/// where the terminal and the environment allow colour, and as it is where
/// they do not. Nothing is claimed of the result.
#[verifier::external_body]
fn paint_yellow(text: &str) -> (painted: String) {
    colored::Colorize::yellow(text).to_string()
}

/// The findings as text, with the names of the added variables in green,
/// of the removed ones in red and of the changed ones in yellow. What a
/// name looks like in colour is left to the terminal; the rest of the text
/// is that of `format_diff`.
pub fn format_diff_colored(diffs: &[EnvDiff], show_unchanged: bool) -> (output: String)
    ensures
        exists|labels: Seq<Seq<char>>|
            labels.len() == diffs@.len() && #[trigger] formatted(diff_views(diffs@), labels, show_unchanged)
                == output@,
{
    let mut labels: Vec<String> = Vec::new();
    let mut i: usize = 0;
    while i < diffs.len()
        invariant
            i <= diffs@.len(),
            labels@.len() == i,
        decreases diffs@.len() - i,
    {
        let label = match &diffs[i] {
            EnvDiff::Added { key, .. } => paint_green(key.as_str()),
            EnvDiff::Removed { key, .. } => paint_red(key.as_str()),
            EnvDiff::Changed { key, .. } => paint_yellow(key.as_str()),
            EnvDiff::Unchanged { key, .. } => key.clone(),
        };
        labels.push(label);
        i = i + 1;
    }
    let output = format_diff_labelled(diffs, &labels, show_unchanged);
    output
}

} // verus!

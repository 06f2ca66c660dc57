//! Tables whose entries carry a time and of which only so many are kept.
use vstd::prelude::*;

use crate::table::{Table, TableView};

verus! {

/// How long ago a time is; a time to come is not ago at all.
pub open spec fn age(now: u64, then: u64) -> u64 {
    if now > then {
        (now - then) as u64
    } else {
        0
    }
}

/// An entry that carries a time, in nanoseconds.
pub trait Timed: DeepView {
    /// The time that the entry carries.
    spec fn stamp(value: Self::V) -> u64;

    /// The time that the entry carries.
    fn time(&self) -> (r: u64)
        ensures
            r == Self::stamp(self.deep_view()),
    ;
}

impl Timed for u64 {
    open spec fn stamp(value: u64) -> u64 {
        value
    }

    fn time(&self) -> (r: u64) {
        *self
    }
}

/// The times of the entries, in the order of their keys.
pub open spec fn stamps<T: Timed>(table: TableView<T::V>) -> Seq<u64> {
    Seq::new(table.keys.len(), |i: int| T::stamp(table.map[table.keys[i]]))
}

/// The place of the earliest time, the first of them where there are several.
pub open spec fn earliest(times: Seq<u64>) -> int
    decreases times.len(),
{
    if times.len() <= 1 {
        0
    } else {
        let place = earliest(times.drop_last());
        if times.last() < times[place] {
            times.len() - 1
        } else {
            place
        }
    }
}

/// The table without its `count` earliest entries.
pub open spec fn drop_earliest<T: Timed>(table: TableView<T::V>, count: nat) -> TableView<T::V>
    decreases count,
{
    if count == 0 {
        table
    } else {
        drop_earliest::<T>(
            table.remove(table.keys[earliest(stamps::<T>(table))]),
            (count - 1) as nat,
        )
    }
}

/// Whether an entry is at most `ttl` old.
pub open spec fn young<T: Timed>(now: u64, ttl: u64) -> spec_fn(T::V) -> bool {
    |value: T::V| age(now, T::stamp(value)) <= ttl
}

/// What is kept of a table: all of it while it holds no more than `max` entries; else those that
/// are at most `ttl` old, and of these the latest `max`.
pub open spec fn pruned<T: Timed>(table: TableView<T::V>, now: u64, ttl: u64, max: nat) -> TableView<
    T::V,
> {
    if table.keys.len() > max {
        let kept = table.retain(young::<T>(now, ttl));
        if kept.keys.len() > max {
            drop_earliest::<T>(kept, (kept.keys.len() - max) as nat)
        } else {
            kept
        }
    } else {
        table
    }
}

/// The earliest time is a time, and none is earlier.
pub proof fn lemma_earliest(times: Seq<u64>)
    requires
        times.len() > 0,
    ensures
        0 <= earliest(times) < times.len(),
        forall|i: int| 0 <= i < times.len() ==> times[earliest(times)] <= #[trigger] times[i],
        forall|i: int| 0 <= i < earliest(times) ==> times[earliest(times)] < #[trigger] times[i],
    decreases times.len(),
{
    if times.len() > 1 {
        let rest = times.drop_last();
        lemma_earliest(rest);
        assert forall|i: int| 0 <= i < times.len() implies times[earliest(times)]
            <= #[trigger] times[i] by {
            if i < times.len() - 1 {
                assert(rest[i] == times[i]);
            }
            assert(rest[earliest(rest)] == times[earliest(rest)]);
        }
        assert forall|i: int| 0 <= i < earliest(times) implies times[earliest(times)]
            < #[trigger] times[i] by {
            assert(rest[i] == times[i]);
        }
    }
}

/// Dropping entries keeps a table well formed and keeps what is left as it was.
pub proof fn lemma_drop_earliest<T: Timed>(table: TableView<T::V>, count: nat)
    requires
        table.wf(),
        count <= table.keys.len(),
    ensures
        drop_earliest::<T>(table, count).wf(),
        drop_earliest::<T>(table, count).keys.len() == table.keys.len() - count,
        forall|k: Seq<char>| #[trigger]
            drop_earliest::<T>(table, count).has(k) ==> table.has(k) && drop_earliest::<T>(
                table,
                count,
            ).at(k) == table.at(k),
    decreases count,
{
    if count > 0 {
        let place = earliest(stamps::<T>(table));
        lemma_earliest(stamps::<T>(table));
        table.lemma_index(place);
        table.lemma_remove(table.keys[place]);
        let rest = table.remove(table.keys[place]);
        lemma_drop_earliest::<T>(rest, (count - 1) as nat);
        assert forall|k: Seq<char>| #[trigger] drop_earliest::<T>(table, count).has(k) implies table.has(
            k,
        ) && drop_earliest::<T>(table, count).at(k) == table.at(k) by {
            assert(rest.has(k));
        }
    }
}

/// A pruned table is well formed, holds no more than `max` entries, and holds nothing that was not
/// there.
pub proof fn law_pruned<T: Timed>(table: TableView<T::V>, now: u64, ttl: u64, max: nat)
    requires
        table.wf(),
    ensures
        pruned::<T>(table, now, ttl, max).wf(),
        pruned::<T>(table, now, ttl, max).keys.len() <= max,
        forall|k: Seq<char>| #[trigger]
            pruned::<T>(table, now, ttl, max).has(k) ==> table.has(k) && pruned::<T>(
                table,
                now,
                ttl,
                max,
            ).at(k) == table.at(k),
{
    if table.keys.len() > max {
        let kept = table.retain(young::<T>(now, ttl));
        table.lemma_retain(young::<T>(now, ttl));
        if kept.keys.len() > max {
            lemma_drop_earliest::<T>(kept, (kept.keys.len() - max) as nat);
            assert forall|k: Seq<char>| #[trigger]
                pruned::<T>(table, now, ttl, max).has(k) implies table.has(k) && pruned::<T>(
                table,
                now,
                ttl,
                max,
            ).at(k) == table.at(k) by {
                assert(kept.has(k));
            }
        }
    }
}

/// The last entry survives where none is later: it is not dropped before the others.
proof fn lemma_last_survives<T: Timed>(table: TableView<T::V>, count: nat)
    requires
        table.wf(),
        count < table.keys.len(),
        forall|i: int|
            0 <= i < table.keys.len() ==> #[trigger] stamps::<T>(table)[i] <= stamps::<T>(
                table,
            ).last(),
    ensures
        drop_earliest::<T>(table, count).has(table.keys.last()),
        drop_earliest::<T>(table, count).at(table.keys.last()) == table.at(table.keys.last()),
    decreases count,
{
    let last = table.keys.last();
    let n = table.keys.len() - 1;
    table.lemma_index(n);
    if count > 0 {
        let times = stamps::<T>(table);
        let place = earliest(times);
        lemma_earliest(times);
        if place == n {
            assert(times[n] < times[0]);
        }
        table.lemma_index(place);
        let gone = table.keys[place];
        table.lemma_remove(gone);
        let rest = table.remove(gone);
        let rest_times = stamps::<T>(rest);
        assert(rest.keys =~= table.keys.remove(place));
        assert(rest.keys.last() == last);
        assert(gone != last);
        assert forall|i: int| 0 <= i < rest.keys.len() implies #[trigger] rest_times[i]
            <= rest_times.last() by {
            let j = if i < place { i } else { i + 1 };
            assert(rest.keys[i] == table.keys[j]);
            assert(table.keys[j] != gone) by {
                table.lemma_index(j);
            }
            assert(times[j] <= times.last());
        }
        lemma_last_survives::<T>(rest, (count - 1) as nat);
    }
}

/// Filtering keeps the last item where it passes.
proof fn lemma_filter_last(s: Seq<Seq<char>>, p: spec_fn(Seq<char>) -> bool)
    requires
        s.len() > 0,
        p(s.last()),
    ensures
        s.filter(p).len() > 0,
        s.filter(p).last() == s.last(),
{
    reveal(Seq::filter);
}

/// An entry that was just added under a new key, and that carries the present time, survives
/// pruning, as long as no entry carries a time to come.
pub proof fn law_newest_survives<T: Timed>(
    table: TableView<T::V>,
    key: Seq<char>,
    value: T::V,
    now: u64,
    ttl: u64,
    max: nat,
)
    requires
        table.wf(),
        !table.has(key),
        T::stamp(value) == now,
        max > 0,
        forall|k: Seq<char>| #[trigger] table.has(k) ==> T::stamp(table.at(k)) <= now,
    ensures
        pruned::<T>(table.insert(key, value), now, ttl, max).has(key),
        pruned::<T>(table.insert(key, value), now, ttl, max).at(key) == value,
{
    let full = table.insert(key, value);
    table.lemma_insert(key, value);
    if full.keys.len() > max {
        let p = young::<T>(now, ttl);
        let q = |k: Seq<char>| p(full.map[k]);
        let kept = full.retain(p);
        full.lemma_retain(p);
        assert(full.keys.last() == key);
        lemma_filter_last(full.keys, q);
        assert(kept.keys.last() == key);
        if kept.keys.len() > max {
            let times = stamps::<T>(kept);
            assert forall|i: int| 0 <= i < kept.keys.len() implies #[trigger] times[i]
                <= times.last() by {
                kept.lemma_index(i);
                assert(full.has(kept.keys[i]));
                if kept.keys[i] != key {
                    assert(table.has(kept.keys[i]));
                }
            }
            lemma_last_survives::<T>(kept, (kept.keys.len() - max) as nat);
        }
    }
}

/// Finds the place of the earliest entry.
fn find_earliest<T: Timed>(table: &Table<T>) -> (r: usize)
    requires
        table.wf(),
        table.deep_view().keys.len() > 0,
    ensures
        r == earliest(stamps::<T>(table.deep_view())),
        r < table.deep_view().keys.len(),
{
    let ghost times = stamps::<T>(table.deep_view());
    let total: usize = table.len();
    let mut place: usize = 0;
    let mut best: u64 = table.value_at(0).time();
    let mut i: usize = 1;
    assert(times.take(1).len() == 1);
    while i < total
        invariant
            table.wf(),
            times == stamps::<T>(table.deep_view()),
            total == times.len(),
            total == table.deep_view().keys.len(),
            1 <= i <= total,
            place < i,
            place == earliest(times.take(i as int)),
            best == times[place as int],
        decreases total - i,
    {
        let time: u64 = table.value_at(i).time();
        proof {
            assert(times.take(i + 1).drop_last() =~= times.take(i as int));
            assert(times.take(i + 1).last() == times[i as int]);
            assert(time == times[i as int]);
            assert(times.take(i + 1)[place as int] == times[place as int]);
        }
        if time < best {
            place = i;
            best = time;
        }
        i = i + 1;
    }
    assert(times.take(i as int) =~= times);
    place
}

/// Keeps of a table what is to be kept.
pub(crate) fn prune<T: Timed>(table: &mut Table<T>, now: u64, ttl: u64, max: usize)
    requires
        old(table).wf(),
    ensures
        final(table).wf(),
        final(table).deep_view() == pruned::<T>(old(table).deep_view(), now, ttl, max as nat),
{
    if table.len() <= max {
        return ;
    }
    let keep = |value: &T| -> (kept: bool)
        ensures
            kept == (age(now, T::stamp(value.deep_view())) <= ttl),
        { now.saturating_sub(value.time()) <= ttl };
    table.retain(keep, Ghost(young::<T>(now, ttl)));
    let ghost kept = table.deep_view();
    let ghost total = kept.keys.len();
    while table.len() > max
        invariant
            table.wf(),
            total == kept.keys.len(),
            table.deep_view().keys.len() <= total,
            total > max ==> {
                &&& table.deep_view().keys.len() >= max
                &&& drop_earliest::<T>(kept, (total - max) as nat) == drop_earliest::<T>(
                    table.deep_view(),
                    (table.deep_view().keys.len() - max) as nat,
                )
            },
            total <= max ==> table.deep_view() == kept,
        decreases table.deep_view().keys.len(),
    {
        let ghost before = table.deep_view();
        proof {
            table.lemma_wf();
        }
        let place: usize = find_earliest(table);
        let key: String = table.key_at(place).clone();
        proof {
            before.lemma_index(place as int);
        }
        table.remove(key.as_str());
    }
}

/// The age of something is the time since then, and nothing is younger than now.
pub proof fn law_age(now: u64, then: u64)
    ensures
        then <= now ==> age(now, then) == now - then,
        then > now ==> age(now, then) == 0,
{
}

/// A table that is not too large is left as it is. Of one that is, what is too old goes first.
pub proof fn law_pruned_only_where_needed<T: Timed>(
    table: TableView<T::V>,
    now: u64,
    ttl: u64,
    max: nat,
    k: Seq<char>,
)
    requires
        table.wf(),
    ensures
        table.keys.len() <= max ==> pruned::<T>(table, now, ttl, max) == table,
        table.keys.len() > max && table.has(k) && age(now, T::stamp(table.at(k))) > ttl
            ==> !pruned::<T>(table, now, ttl, max).has(k),
        table.keys.len() > max && table.retain(young::<T>(now, ttl)).keys.len() <= max && table.has(
            k,
        ) && age(now, T::stamp(table.at(k))) <= ttl ==> pruned::<T>(table, now, ttl, max).has(k),
{
    if table.keys.len() > max {
        let kept = table.retain(young::<T>(now, ttl));
        table.lemma_retain(young::<T>(now, ttl));
        if kept.keys.len() > max {
            lemma_drop_earliest::<T>(kept, (kept.keys.len() - max) as nat);
        }
    }
}

} // verus!

//! A map with text keys that remembers the order in which its keys came.
use vstd::prelude::*;

use crate::text::same_text;

verus! {

/// What a table holds: its keys in the order in which they came, and the value of each.
#[verifier::ext_equal]
pub struct TableView<V> {
    pub keys: Seq<Seq<char>>,
    pub map: Map<Seq<char>, V>,
}

impl<V> TableView<V> {
    /// The table that holds nothing.
    pub open spec fn empty() -> Self {
        TableView { keys: Seq::empty(), map: Map::empty() }
    }

    /// No key occurs twice, and the keys with a value are those that are listed.
    pub open spec fn wf(self) -> bool {
        &&& self.keys.no_duplicates()
        &&& forall|k: Seq<char>| #[trigger] self.map.dom().contains(k) <==> self.keys.contains(k)
    }

    /// Whether `k` has a value.
    pub open spec fn has(self, k: Seq<char>) -> bool {
        self.map.dom().contains(k)
    }

    /// The value of `k`.
    pub open spec fn at(self, k: Seq<char>) -> V {
        self.map[k]
    }

    /// The value of `k`, if it has one.
    pub open spec fn find(self, k: Seq<char>) -> Option<V> {
        if self.has(k) {
            Some(self.at(k))
        } else {
            None
        }
    }

    /// The values in the order of their keys.
    pub open spec fn values(self) -> Seq<V> {
        Seq::new(self.keys.len(), |i: int| self.map[self.keys[i]])
    }

    /// The table in which `k` has the value `v`; a key that had a value keeps its place.
    pub open spec fn insert(self, k: Seq<char>, v: V) -> Self {
        TableView {
            keys: if self.has(k) {
                self.keys
            } else {
                self.keys.push(k)
            },
            map: self.map.insert(k, v),
        }
    }

    /// The table without `k`.
    pub open spec fn remove(self, k: Seq<char>) -> Self {
        TableView {
            keys: if self.has(k) {
                self.keys.remove(self.keys.index_of(k))
            } else {
                self.keys
            },
            map: self.map.remove(k),
        }
    }

    /// The table with those entries only whose value satisfies `p`.
    pub open spec fn retain(self, p: spec_fn(V) -> bool) -> Self {
        TableView {
            keys: self.keys.filter(|k: Seq<char>| p(self.map[k])),
            map: Map::new(|k: Seq<char>| self.has(k) && p(self.map[k]), |k: Seq<char>| self.map[k]),
        }
    }

    /// A key that is listed stands at its own place only.
    pub proof fn lemma_index(self, i: int)
        requires
            self.wf(),
            0 <= i < self.keys.len(),
        ensures
            self.has(self.keys[i]),
            self.keys.index_of(self.keys[i]) == i,
    {
        assert(self.keys.contains(self.keys[i]));
        assert(self.has(self.keys[i]));
    }

    /// Adding a value keeps a table well formed.
    pub proof fn lemma_insert(self, k: Seq<char>, v: V)
        requires
            self.wf(),
        ensures
            self.insert(k, v).wf(),
    {
        let after = self.insert(k, v);
        if !self.has(k) {
            assert(!self.keys.contains(k));
            assert forall|x: Seq<char>| #[trigger]
                after.map.dom().contains(x) <==> after.keys.contains(x) by {
                if self.keys.contains(x) {
                    assert(after.keys[self.keys.index_of(x)] == x);
                }
                if x == k {
                    assert(after.keys[self.keys.len() as int] == x);
                }
                if after.keys.contains(x) && x != k {
                    let i = after.keys.index_of(x);
                    assert(self.keys[i] == x);
                    assert(self.has(x));
                }
                if after.map.dom().contains(x) && x != k {
                    assert(self.has(x));
                }
            }
        } else {
            assert forall|x: Seq<char>| #[trigger]
                after.map.dom().contains(x) <==> after.keys.contains(x) by {
                assert(self.has(x) <==> self.keys.contains(x));
            }
        }
    }

    /// Removing a key keeps a table well formed.
    pub proof fn lemma_remove(self, k: Seq<char>)
        requires
            self.wf(),
        ensures
            self.remove(k).wf(),
    {
        let after = self.remove(k);
        if self.has(k) {
            assert(self.keys.contains(k));
            let n = self.keys.index_of(k);
            assert forall|x: Seq<char>| #[trigger]
                after.map.dom().contains(x) <==> after.keys.contains(x) by {
                if self.has(x) && x != k {
                    assert(self.keys.contains(x));
                    let i = self.keys.index_of(x);
                    assert(after.keys[if i < n { i } else { i - 1 }] == x);
                }
                if after.keys.contains(x) {
                    let i = after.keys.index_of(x);
                    let j = if i < n { i } else { i + 1 };
                    assert(self.keys[j] == x);
                    assert(self.keys.contains(x));
                    assert(self.has(x));
                    assert(j != n);
                }
            }
        } else {
            assert forall|x: Seq<char>| #[trigger]
                after.map.dom().contains(x) <==> after.keys.contains(x) by {
                assert(self.has(x) <==> self.keys.contains(x));
            }
        }
    }

    /// Dropping entries keeps a table well formed, and drops exactly those that were to go.
    pub proof fn lemma_retain(self, p: spec_fn(V) -> bool)
        requires
            self.wf(),
        ensures
            self.retain(p).wf(),
            self.retain(p).keys.len() <= self.keys.len(),
    {
        let q = |k: Seq<char>| p(self.map[k]);
        let after = self.retain(p);
        broadcast use vstd::seq_lib::group_filter_ensures;

        lemma_filter_no_duplicates(self.keys, q);
        assert forall|x: Seq<char>| #[trigger]
            after.map.dom().contains(x) <==> after.keys.contains(x) by {
            if after.map.dom().contains(x) {
                assert(self.has(x));
                assert(self.keys.contains(x));
                let i = self.keys.index_of(x);
                assert(q(self.keys[i]));
                assert(after.keys.contains(self.keys[i]));
            }
            if after.keys.contains(x) {
                let i = after.keys.index_of(x);
                assert(q(after.keys[i]));
                lemma_filter_subset(self.keys, q, x);
                assert(self.has(x));
            }
        }
    }
}

/// What a filter leaves was there before.
pub proof fn lemma_filter_subset<A>(s: Seq<A>, p: spec_fn(A) -> bool, x: A)
    requires
        s.filter(p).contains(x),
    ensures
        s.contains(x),
        p(x),
    decreases s.len(),
{
    reveal(Seq::filter);
    if s.len() > 0 {
        let rest = s.drop_last();
        if p(s.last()) {
            let i = s.filter(p).index_of(x);
            if i < rest.filter(p).len() {
                assert(rest.filter(p)[i] == x);
                lemma_filter_subset(rest, p, x);
                assert(s[rest.index_of(x)] == x);
            } else {
                assert(s[s.len() - 1] == x);
            }
        } else {
            lemma_filter_subset(rest, p, x);
            assert(s[rest.index_of(x)] == x);
        }
    }
}

/// A filter brings in no duplicates.
pub proof fn lemma_filter_no_duplicates<A>(s: Seq<A>, p: spec_fn(A) -> bool)
    requires
        s.no_duplicates(),
    ensures
        s.filter(p).no_duplicates(),
        s.filter(p).len() <= s.len(),
    decreases s.len(),
{
    reveal(Seq::filter);
    if s.len() > 0 {
        let rest = s.drop_last();
        lemma_filter_no_duplicates(rest, p);
        if rest.filter(p).contains(s.last()) {
            lemma_filter_subset(rest, p, s.last());
            assert(rest[rest.index_of(s.last())] == s[s.len() - 1]);
        }
    }
}

/// How a filter treats one more item.
pub proof fn lemma_filter_push<A>(s: Seq<A>, p: spec_fn(A) -> bool, x: A)
    ensures
        s.push(x).filter(p) == (if p(x) {
            s.filter(p).push(x)
        } else {
            s.filter(p)
        }),
{
    reveal(Seq::filter);
    assert(s.push(x).drop_last() =~= s);
}

/// A map with text keys that remembers the order in which its keys came.
pub struct Table<V> {
    keys: Vec<String>,
    values: Vec<V>,
}

impl<V: DeepView> DeepView for Table<V> {
    type V = TableView<V::V>;

    closed spec fn deep_view(&self) -> TableView<V::V> {
        TableView {
            keys: self.keys.deep_view(),
            map: Map::new(
                |k: Seq<char>| self.keys.deep_view().contains(k),
                |k: Seq<char>| self.values.deep_view()[self.keys.deep_view().index_of(k)],
            ),
        }
    }
}

impl<V: DeepView> Table<V> {
    /// Each key stands once, beside its value.
    pub closed spec fn wf(&self) -> bool {
        &&& self.keys@.len() == self.values@.len()
        &&& self.keys.deep_view().no_duplicates()
    }

    /// What a well-formed table holds is well formed.
    pub proof fn lemma_wf(&self)
        requires
            self.wf(),
        ensures
            self.deep_view().wf(),
    {
    }

    /// The values are listed beside their keys.
    proof fn lemma_listing(&self)
        requires
            self.wf(),
        ensures
            self.deep_view().wf(),
            self.deep_view().keys.len() == self.keys@.len(),
            self.deep_view().values() == self.values.deep_view(),
    {
        let view = self.deep_view();
        assert forall|i: int| 0 <= i < view.keys.len() implies #[trigger] view.values()[i]
            == self.values.deep_view()[i] by {
            assert(view.keys.contains(view.keys[i]));
            assert(view.keys.index_of(view.keys[i]) == i);
        }
        assert(view.values() =~= self.values.deep_view());
    }

    /// A table that holds nothing.
    pub fn new() -> (r: Self)
        ensures
            r.wf(),
            r.deep_view() == TableView::<V::V>::empty(),
    {
        let r = Table { keys: Vec::new(), values: Vec::new() };
        proof {
            assert(r.deep_view().keys =~= Seq::<Seq<char>>::empty());
            assert(r.deep_view().map =~= Map::<Seq<char>, V::V>::empty());
        }
        r
    }

    /// How many entries there are.
    pub fn len(&self) -> (r: usize)
        requires
            self.wf(),
        ensures
            r == self.deep_view().keys.len(),
    {
        self.keys.len()
    }

    /// The key at a place.
    pub fn key_at(&self, i: usize) -> (r: &String)
        requires
            self.wf(),
            i < self.deep_view().keys.len(),
        ensures
            r@ == self.deep_view().keys[i as int],
            self.deep_view().has(r@),
    {
        proof {
            self.lemma_wf();
            self.deep_view().lemma_index(i as int);
        }
        &self.keys[i]
    }

    /// The value at a place.
    pub fn value_at(&self, i: usize) -> (r: &V)
        requires
            self.wf(),
            i < self.deep_view().keys.len(),
        ensures
            r.deep_view() == self.deep_view().values()[i as int],
            r.deep_view() == self.deep_view().at(self.deep_view().keys[i as int]),
    {
        proof {
            self.lemma_listing();
        }
        &self.values[i]
    }

    /// The place of a key, or the number of entries where the table lacks it.
    fn place(&self, k: &str) -> (r: usize)
        requires
            self.wf(),
        ensures
            r <= self.keys@.len(),
            r < self.keys@.len() <==> self.deep_view().has(k@),
            r < self.keys@.len() ==> self.keys.deep_view()[r as int] == k@
                && self.keys.deep_view().index_of(k@) == r,
    {
        let mut i: usize = 0;
        while i < self.keys.len()
            invariant
                self.wf(),
                i <= self.keys@.len(),
                forall|j: int| 0 <= j < i ==> #[trigger] self.keys.deep_view()[j] != k@,
            decreases self.keys.len() - i,
        {
            if same_text(self.keys[i].as_str(), k) {
                assert(self.keys.deep_view()[i as int] == k@);
                return i;
            }
            assert(self.keys.deep_view()[i as int] != k@);
            i = i + 1;
        }
        i
    }

    /// Whether a key has a value.
    pub fn contains_key(&self, k: &str) -> (r: bool)
        requires
            self.wf(),
        ensures
            r == self.deep_view().has(k@),
    {
        self.place(k) < self.keys.len()
    }

    /// The value of a key, if it has one.
    pub fn get(&self, k: &str) -> (r: Option<&V>)
        requires
            self.wf(),
        ensures
            r.deep_view() == self.deep_view().find(k@),
    {
        let i: usize = self.place(k);
        if i < self.keys.len() {
            Some(&self.values[i])
        } else {
            None
        }
    }

    /// Gives a key a value; a key that had one keeps its place.
    pub fn insert(&mut self, k: String, v: V)
        requires
            old(self).wf(),
        ensures
            final(self).wf(),
            final(self).deep_view() == old(self).deep_view().insert(k@, v.deep_view()),
    {
        let i: usize = self.place(k.as_str());
        let ghost before = self.deep_view();
        let ghost keys = self.keys.deep_view();
        let ghost values = self.values.deep_view();
        let ghost key = k@;
        let ghost value = v.deep_view();
        proof {
            self.lemma_listing();
        }
        if i < self.keys.len() {
            self.values.set(i, v);
            proof {
                assert(self.keys.deep_view() =~= keys);
                assert(self.values.deep_view() =~= values.update(i as int, value));
                let after = self.deep_view();
                assert forall|x: Seq<char>| keys.contains(x) implies #[trigger] after.map[x]
                    == before.map.insert(key, value)[x] by {
                    if x != key {
                        assert(keys.index_of(x) != i);
                    }
                }
                assert(after.map =~= before.map.insert(key, value));
            }
        } else {
            self.keys.push(k);
            self.values.push(v);
            proof {
                assert(self.keys.deep_view() =~= keys.push(key));
                assert(self.values.deep_view() =~= values.push(value));
                before.lemma_insert(key, value);
                let after = self.deep_view();
                assert(after.keys =~= before.insert(key, value).keys);
                assert forall|x: Seq<char>| after.keys.contains(x) implies #[trigger] after.map[x]
                    == before.map.insert(key, value)[x] by {
                    let n = after.keys.index_of(x);
                    if x == key {
                        assert(after.keys[keys.len() as int] == x);
                    } else {
                        assert(keys[n] == x);
                        assert(keys.contains(x));
                        assert(keys.index_of(x) == n);
                    }
                }
                assert(after.map =~= before.map.insert(key, value)) by {
                    assert forall|x: Seq<char>| #[trigger]
                        after.map.dom().contains(x) <==> before.map.insert(
                        key,
                        value,
                    ).dom().contains(x) by {
                        assert(before.insert(key, value).map.dom().contains(x)
                            <==> before.insert(key, value).keys.contains(x));
                    }
                }
            }
        }
    }

    /// Access to the value of a key, if it has one; the table then holds what the access left.
    pub fn get_mut(&mut self, k: &str) -> (r: Option<&mut V>)
        requires
            old(self).wf(),
        ensures
            final(self).wf(),
            r is Some <==> old(self).deep_view().has(k@),
            r matches Some(v) ==> {
                &&& v.deep_view() == old(self).deep_view().at(k@)
                &&& final(self).deep_view() == old(self).deep_view().insert(
                    k@,
                    final(v).deep_view(),
                )
            },
            r is None ==> final(self).deep_view() == old(self).deep_view(),
    {
        let i: usize = self.place(k);
        proof {
            self.lemma_listing();
        }
        if i < self.keys.len() {
            proof {
                let before = self.deep_view();
                let keys = self.keys.deep_view();
                let values = self.values.deep_view();
                assert forall|t: Self|
                    t.keys == self.keys && t.values@ == self.values@.update(
                        i as int,
                        #[trigger] t.values@[i as int],
                    ) implies t.deep_view() == before.insert(
                    k@,
                    t.values@[i as int].deep_view(),
                ) by {
                    let value = t.values@[i as int].deep_view();
                    let after = t.deep_view();
                    assert(t.values.deep_view() =~= values.update(i as int, value));
                    assert forall|x: Seq<char>| keys.contains(x) implies #[trigger] after.map[x]
                        == before.map.insert(k@, value)[x] by {
                        if x != k@ {
                            assert(keys.index_of(x) != i);
                        }
                    }
                    assert(after.map =~= before.map.insert(k@, value));
                }
            }
            let v: &mut V = &mut self.values[i];
            Some(v)
        } else {
            None
        }
    }

    /// Removes the entry at a place and hands out its value.
    fn remove_at(&mut self, i: usize) -> (r: V)
        requires
            old(self).wf(),
            i < old(self).keys@.len(),
        ensures
            final(self).wf(),
            r.deep_view() == old(self).values.deep_view()[i as int],
            final(self).keys.deep_view() == old(self).keys.deep_view().remove(i as int),
            final(self).values.deep_view() == old(self).values.deep_view().remove(i as int),
            final(self).deep_view() == old(self).deep_view().remove(
                old(self).deep_view().keys[i as int],
            ),
    {
        let ghost before = self.deep_view();
        let ghost keys = self.keys.deep_view();
        let ghost values = self.values.deep_view();
        proof {
            self.lemma_listing();
            before.lemma_index(i as int);
            before.lemma_remove(keys[i as int]);
        }
        self.keys.remove(i);
        let r: V = self.values.remove(i);
        proof {
            let k = keys[i as int];
            let after = self.deep_view();
            assert(self.keys.deep_view() =~= keys.remove(i as int));
            assert(self.values.deep_view() =~= values.remove(i as int));
            assert(after.keys == before.remove(k).keys);
            assert forall|x: Seq<char>| after.keys.contains(x) implies #[trigger] after.map[x]
                == before.map.remove(k)[x] by {
                let n = after.keys.index_of(x);
                let m = if n < i { n } else { n + 1 };
                assert(keys[m] == x);
                assert(keys.index_of(x) == m);
            }
            assert(after.map =~= before.map.remove(k)) by {
                assert forall|x: Seq<char>| #[trigger]
                    after.map.dom().contains(x) <==> before.map.remove(k).dom().contains(x) by {
                    assert(before.remove(k).map.dom().contains(x) <==> before.remove(
                        k,
                    ).keys.contains(x));
                }
            }
        }
        r
    }

    /// Removes a key and hands out the value it had.
    pub fn remove(&mut self, k: &str) -> (r: Option<V>)
        requires
            old(self).wf(),
        ensures
            final(self).wf(),
            r.deep_view() == old(self).deep_view().find(k@),
            final(self).deep_view() == old(self).deep_view().remove(k@),
    {
        let i: usize = self.place(k);
        if i < self.keys.len() {
            Some(self.remove_at(i))
        } else {
            assert(self.deep_view().map =~= self.deep_view().map.remove(k@));
            None
        }
    }

    /// Drops the entries whose value does not satisfy `keep`.
    pub(crate) fn retain<F: Fn(&V) -> bool>(
        &mut self,
        keep: F,
        Ghost(p): Ghost<spec_fn(V::V) -> bool>,
    )
        requires
            old(self).wf(),
            forall|v: &V| #[trigger] call_requires(keep, (v,)),
            forall|v: &V, b: bool| #[trigger] call_ensures(keep, (v,), b) ==> b == p(v.deep_view()),
        ensures
            final(self).wf(),
            final(self).deep_view() == old(self).deep_view().retain(p),
    {
        let ghost before = self.deep_view();
        let ghost keys = self.keys.deep_view();
        let ghost values = self.values.deep_view();
        let ghost q = |k: Seq<char>| p(before.map[k]);
        let ghost mut seen: int = 0;
        let mut i: usize = 0;
        proof {
            self.lemma_listing();
            assert(keys.take(0).filter(q) =~= Seq::<Seq<char>>::empty()) by {
                reveal(Seq::filter);
            }
            assert(self.keys.deep_view() =~= keys.take(0).filter(q) + keys.skip(0));
            assert(self.values.deep_view().skip(0) =~= values.skip(0));
        }
        while i < self.keys.len()
            invariant
                self.wf(),
                before.wf(),
                keys == before.keys,
                values == before.values(),
                0 <= seen <= keys.len(),
                q == (|k: Seq<char>| p(before.map[k])),
                forall|v: &V| #[trigger] call_requires(keep, (v,)),
                forall|v: &V, b: bool| #[trigger]
                    call_ensures(keep, (v,), b) ==> b == p(v.deep_view()),
                self.keys.deep_view() == keys.take(seen).filter(q) + keys.skip(seen),
                i == keys.take(seen).filter(q).len(),
                self.values.deep_view().skip(i as int) == values.skip(seen),
                forall|k: Seq<char>| #[trigger]
                    self.deep_view().map.dom().contains(k) ==> before.map.dom().contains(k)
                        && self.deep_view().map[k] == before.map[k],
            decreases self.keys.len() - i,
        {
            let ghost now = self.deep_view();
            proof {
                self.lemma_listing();
                assert(seen < keys.len());
                assert(keys.take(seen + 1) =~= keys.take(seen).push(keys[seen]));
                lemma_filter_push(keys.take(seen), q, keys[seen]);
                assert(self.keys.deep_view()[i as int] == keys[seen]);
                assert(self.values.deep_view().skip(i as int)[0] == values.skip(seen)[0]);
                assert(self.values.deep_view()[i as int] == before.map[keys[seen]]);
            }
            if keep(&self.values[i]) {
                proof {
                    assert(self.keys.deep_view() =~= keys.take(seen + 1).filter(q) + keys.skip(
                        seen + 1,
                    ));
                    assert(self.values.deep_view().skip(i + 1) =~= self.values.deep_view().skip(
                        i as int,
                    ).skip(1));
                    assert(values.skip(seen + 1) =~= values.skip(seen).skip(1));
                }
                i = i + 1;
            } else {
                self.remove_at(i);
                proof {
                    let was = keys.take(seen).filter(q) + keys.skip(seen);
                    assert(was.remove(i as int) =~= keys.take(seen + 1).filter(q) + keys.skip(
                        seen + 1,
                    ));
                    assert(self.values.deep_view().skip(i as int) =~= values.skip(seen).skip(1));
                    assert(values.skip(seen + 1) =~= values.skip(seen).skip(1));
                    assert forall|k: Seq<char>| #[trigger]
                        self.deep_view().map.dom().contains(k) implies before.map.dom().contains(k)
                        && self.deep_view().map[k] == before.map[k] by {
                        assert(now.map.dom().contains(k));
                    }
                }
            }
            proof {
                seen = seen + 1;
            }
        }
        proof {
            assert(keys.skip(seen).len() == 0);
            assert(keys.take(seen) =~= keys);
            let after = self.deep_view();
            assert(after.keys =~= before.retain(p).keys);
            before.lemma_retain(p);
            assert(after.map =~= before.retain(p).map) by {
                assert forall|x: Seq<char>| #[trigger]
                    after.map.dom().contains(x) <==> before.retain(p).map.dom().contains(x) by {
                    assert(before.retain(p).map.dom().contains(x) <==> before.retain(
                        p,
                    ).keys.contains(x));
                }
            }
        }
    }
}

/// What is put into a table is found under its key, and everything else stays as it was. A new key
/// comes last.
pub proof fn law_insert<V>(table: TableView<V>, k: Seq<char>, v: V, other: Seq<char>)
    ensures
        table.insert(k, v).find(k) == Some(v),
        other != k ==> table.insert(k, v).find(other) == table.find(other),
        table.has(k) ==> table.insert(k, v).keys == table.keys,
        !table.has(k) ==> table.insert(k, v).keys.drop_last() == table.keys && table.insert(
            k,
            v,
        ).keys.last() == k,
{
    assert(table.keys.push(k).drop_last() =~= table.keys);
}

/// What is taken out of a table is not found any more, and everything else stays as it was.
pub proof fn law_remove<V>(table: TableView<V>, k: Seq<char>, other: Seq<char>)
    ensures
        table.remove(k).find(k) is None,
        other != k ==> table.remove(k).find(other) == table.find(other),
{
}

/// What is kept of a table are the entries that pass the test, as they were.
pub proof fn law_retain<V>(table: TableView<V>, p: spec_fn(V) -> bool, k: Seq<char>)
    ensures
        table.retain(p).find(k) == (if table.has(k) && p(table.at(k)) {
            table.find(k)
        } else {
            None
        }),
{
}

/// The values of a table are those of its keys, in order.
pub proof fn law_values<V>(table: TableView<V>, i: int)
    requires
        0 <= i < table.keys.len(),
    ensures
        table.values().len() == table.keys.len(),
        table.values()[i] == table.at(table.keys[i]),
{
}

} // verus!

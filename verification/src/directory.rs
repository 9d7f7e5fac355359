//! A directory: values filed under names, which can also be walked one by one.

use crate::wire::Wire;
use vstd::hash_map::StringHashMap;
use vstd::hash_set::StringHashSet;
use vstd::prelude::*;

verus! {

/// A set of names.
pub struct NameSet {
    names: StringHashSet,
}

impl View for NameSet {
    type V = Set<Seq<char>>;

    closed spec fn view(&self) -> Set<Seq<char>> {
        self.names@
    }
}

impl DeepView for NameSet {
    type V = Set<Seq<char>>;

    open spec fn deep_view(&self) -> Set<Seq<char>> {
        self.view()
    }
}

impl NameSet {
    /// The empty set.
    pub fn new() -> (r: NameSet)
        ensures
            r@ == Set::<Seq<char>>::empty(),
    {
        NameSet { names: StringHashSet::new() }
    }

    /// Whether the set holds `name`.
    pub fn contains(&self, name: &str) -> (r: bool)
        ensures
            r == self@.contains(name@),
    {
        self.names.contains(name)
    }

    /// Adds `name`.
    pub fn insert(&mut self, name: String)
        ensures
            final(self)@ == old(self)@.insert(name@),
    {
        self.names.insert(name);
    }

    /// Takes `name` out.
    pub fn remove(&mut self, name: &str)
        ensures
            final(self)@ == old(self)@.remove(name@),
    {
        self.names.remove(name);
    }
}

/// Values filed under names.
#[verifier::reject_recursive_types(V)]
pub struct Directory<V> {
    entries: Vec<(String, V)>,
    index: StringHashMap<usize>,
}

impl<V: DeepView> View for Directory<V> {
    type V = Map<Seq<char>, V::V>;

    closed spec fn view(&self) -> Map<Seq<char>, V::V> {
        Map::new(
            |k: Seq<char>| self.index@.contains_key(k),
            |k: Seq<char>| self.entries@[self.index@[k] as int].1.deep_view(),
        )
    }
}

impl<V: DeepView> Directory<V> {
    /// Whether the index leads from every name to its one entry.
    pub closed spec fn wf(&self) -> bool {
        &&& forall|i: int|
            0 <= i < self.entries@.len() ==> self.index@.contains_key(
                #[trigger] self.entries@[i].0@,
            ) && self.index@[self.entries@[i].0@] == i
        &&& forall|k: Seq<char>| #[trigger]
            self.index@.contains_key(k) ==> self.index@[k] < self.entries@.len()
                && self.entries@[self.index@[k] as int].0@ == k
    }

    /// The entries in the order in which they are walked.
    pub closed spec fn listed(&self) -> Seq<(Seq<char>, V::V)> {
        Seq::new(
            self.entries@.len(),
            |i: int| (self.entries@[i].0@, self.entries@[i].1.deep_view()),
        )
    }

    /// The listed entries are the directory: each name is listed once, with its value.
    pub proof fn lemma_listed(&self)
        requires
            self.wf(),
        ensures
            lists(self.listed(), self@),
    {
        assert forall|i: int, j: int| 0 <= i < j < self.listed().len() implies (
        #[trigger] self.listed()[i]).0 != (#[trigger] self.listed()[j]).0 by {
            assert(self.index@[self.entries@[i].0@] == i);
            assert(self.index@[self.entries@[j].0@] == j);
        }
        assert forall|k: Seq<char>| #[trigger] self@.contains_key(k) implies exists|i: int|
            0 <= i < self.listed().len() && (#[trigger] self.listed()[i]).0 == k by {
            let i = self.index@[k] as int;
            assert(self.listed()[i].0 == k);
        }
    }

    /// A list of different names that are all in the directory is no longer than the directory.
    pub proof fn lemma_names_are_few(&self, names: Seq<Seq<char>>)
        requires
            self.wf(),
            names.no_duplicates(),
            forall|i: int| 0 <= i < names.len() ==> self@.contains_key(#[trigger] names[i]),
        ensures
            names.len() <= self.listed().len(),
    {
        broadcast use vstd::seq_lib::seq_to_set_is_finite;

        self.lemma_listed();
        let all = Seq::new(self.listed().len(), |i: int| self.listed()[i].0);
        names.unique_seq_to_set();
        all.lemma_cardinality_of_set();
        assert forall|x: Seq<char>| names.to_set().contains(x) implies all.to_set().contains(
            x,
        ) by {
            let k = choose|k: int| 0 <= k < names.len() && names[k] == x;
            assert(self@.contains_key(names[k]));
            let i = choose|i: int|
                0 <= i < self.listed().len() && (#[trigger] self.listed()[i]).0 == x;
            assert(all[i] == x);
        }
        vstd::set_lib::lemma_len_subset(names.to_set(), all.to_set());
    }

    /// The directory with no entries.
    pub fn new() -> (r: Directory<V>)
        ensures
            r.wf(),
            r@ == Map::<Seq<char>, V::V>::empty(),
            r.listed().len() == 0,
    {
        let r = Directory { entries: Vec::new(), index: StringHashMap::new() };
        assert(r@ =~= Map::<Seq<char>, V::V>::empty());
        r
    }

    /// The number of entries.
    pub fn len(&self) -> (r: usize)
        ensures
            r == self.listed().len(),
    {
        self.entries.len()
    }

    /// The name of the entry at position `i`.
    pub fn name_at(&self, i: usize) -> (r: &String)
        requires
            i < self.listed().len(),
        ensures
            r@ == self.listed()[i as int].0,
    {
        &self.entries[i].0
    }

    /// The value of the entry at position `i`.
    pub fn value_at(&self, i: usize) -> (r: &V)
        requires
            i < self.listed().len(),
        ensures
            r.deep_view() == self.listed()[i as int].1,
    {
        &self.entries[i].1
    }

    /// The value filed under `name`.
    pub fn get(&self, name: &str) -> (r: Option<&V>)
        requires
            self.wf(),
        ensures
            match r {
                Some(v) => self@.contains_key(name@) && v.deep_view() == self@[name@],
                None => !self@.contains_key(name@),
            },
    {
        match self.index.get(name) {
            Some(i) => {
                let at: usize = *i;
                Some(&self.entries[at].1)
            },
            None => None,
        }
    }

    /// Files `value` under `name`, in place of what was there.
    pub fn insert(&mut self, name: String, value: V)
        requires
            old(self).wf(),
        ensures
            final(self).wf(),
            final(self)@ == old(self)@.insert(name@, value.deep_view()),
    {
        let ghost before = *self;
        let found: Option<usize> = match self.index.get(name.as_str()) {
            Some(i) => Some(*i),
            None => None,
        };
        match found {
            Some(at) => {
                let ghost key = name@;
                self.entries[at] = (name, value);
                proof {
                    assert forall|i: int| 0 <= i < self.entries@.len() implies self.index@.contains_key(
                        #[trigger] self.entries@[i].0@,
                    ) && self.index@[self.entries@[i].0@] == i by {
                        assert(self.entries@[i].0@ == before.entries@[i].0@);
                    }
                    assert(self@ =~= before@.insert(key, value.deep_view()));
                }
            },
            None => {
                let at: usize = self.entries.len();
                let ghost key = name@;
                self.index.insert(name.clone(), at);
                self.entries.push((name, value));
                proof {
                    assert forall|i: int| 0 <= i < self.entries@.len() implies self.index@.contains_key(
                        #[trigger] self.entries@[i].0@,
                    ) && self.index@[self.entries@[i].0@] == i by {
                        if i < at {
                            assert(self.entries@[i] == before.entries@[i]);
                        }
                    }
                    assert(self@ =~= before@.insert(key, value.deep_view()));
                }
            },
        }
    }

    /// Takes out what is filed under `name`.
    pub fn remove(&mut self, name: &str) -> (r: Option<V>)
        requires
            old(self).wf(),
        ensures
            final(self).wf(),
            final(self)@ == old(self)@.remove(name@),
            match r {
                Some(v) => old(self)@.contains_key(name@) && v.deep_view() == old(self)@[name@],
                None => !old(self)@.contains_key(name@),
            },
    {
        let ghost before = *self;
        let found: Option<usize> = match self.index.get(name) {
            Some(i) => Some(*i),
            None => None,
        };
        match found {
            Some(at) => {
                let last: usize = self.entries.len() - 1;
                let taken = self.entries.swap_remove(at);
                self.index.remove(name);
                if at < last {
                    let moved: String = self.entries[at].0.clone();
                    self.index.insert(moved, at);
                }
                proof {
                    assert forall|i: int| 0 <= i < self.entries@.len() implies self.index@.contains_key(
                        #[trigger] self.entries@[i].0@,
                    ) && self.index@[self.entries@[i].0@] == i by {
                        if i == at {
                            assert(self.entries@[i] == before.entries@[last as int]);
                        } else {
                            assert(self.entries@[i] == before.entries@[i]);
                            assert(before.index@[before.entries@[i].0@] == i);
                            assert(before.index@[before.entries@[last as int].0@] == last);
                        }
                    }
                    assert forall|k: Seq<char>| #[trigger]
                        self.index@.contains_key(k) implies self.index@[k] < self.entries@.len()
                        && self.entries@[self.index@[k] as int].0@ == k by {
                        if at < last && k == before.entries@[last as int].0@ {
                        } else {
                            assert(before.index@.contains_key(k));
                            assert(before.index@[k] != at);
                            assert(before.index@[k] != last || at == last);
                        }
                    }
                    assert(self@ =~= before@.remove(name@));
                }
                Some(taken.1)
            },
            None => {
                assert(self@ =~= before@.remove(name@));
                None
            },
        }
    }

    /// Lets the value filed under `name` be changed.
    pub fn get_mut(&mut self, name: &str) -> (r: Option<&mut V>)
        requires
            old(self).wf(),
        ensures
            match r {
                Some(v) => {
                    &&& old(self)@.contains_key(name@)
                    &&& v.deep_view() == old(self)@[name@]
                    &&& final(self).wf()
                    &&& final(self)@ == old(self)@.insert(name@, final(v).deep_view())
                },
                None => !old(self)@.contains_key(name@) && *final(self) == *old(self),
            },
    {
        let found: Option<usize> = match self.index.get(name) {
            Some(i) => Some(*i),
            None => None,
        };
        match found {
            Some(at) => Some(&mut self.entries[at].1),
            None => None,
        }
    }
}

/// Whether `s` lists the directory `m`: each name once, with its value.
pub open spec fn lists<T>(s: Seq<(Seq<char>, T)>, m: Map<Seq<char>, T>) -> bool {
    &&& forall|i: int|
        0 <= i < s.len() ==> m.contains_key((#[trigger] s[i]).0) && m[s[i].0] == s[i].1
    &&& forall|i: int, j: int|
        0 <= i < j < s.len() ==> (#[trigger] s[i]).0 != (#[trigger] s[j]).0
    &&& forall|k: Seq<char>| #[trigger]
        m.contains_key(k) ==> exists|i: int| 0 <= i < s.len() && (#[trigger] s[i]).0 == k
}

/// The directory that filing the entries of `s` one by one gives: the last one of a name counts.
pub open spec fn map_of<T>(s: Seq<(Seq<char>, T)>) -> Map<Seq<char>, T>
    decreases s.len(),
{
    if s.len() == 0 {
        Map::empty()
    } else {
        map_of(s.drop_last()).insert(s.last().0, s.last().1)
    }
}

proof fn lemma_map_of_dom<T>(s: Seq<(Seq<char>, T)>, k: Seq<char>)
    ensures
        map_of(s).contains_key(k) <==> exists|i: int|
            0 <= i < s.len() && (#[trigger] s[i]).0 == k,
    decreases s.len(),
{
    if s.len() > 0 {
        lemma_map_of_dom(s.drop_last(), k);
        if k == s.last().0 {
            assert(s[s.len() - 1].0 == k);
        } else if map_of(s).contains_key(k) {
            let i = choose|i: int|
                0 <= i < s.drop_last().len() && (#[trigger] s.drop_last()[i]).0 == k;
            assert(s[i].0 == k);
        } else if exists|i: int| 0 <= i < s.len() && (#[trigger] s[i]).0 == k {
            let i = choose|i: int| 0 <= i < s.len() && (#[trigger] s[i]).0 == k;
            assert(s.drop_last()[i].0 == k);
        }
    }
}

proof fn lemma_map_of_value<T>(s: Seq<(Seq<char>, T)>, i: int)
    requires
        0 <= i < s.len(),
        forall|a: int, b: int|
            0 <= a < b < s.len() ==> (#[trigger] s[a]).0 != (#[trigger] s[b]).0,
    ensures
        map_of(s)[s[i].0] == s[i].1,
    decreases s.len(),
{
    if i < s.len() - 1 {
        let t = s.drop_last();
        assert(s[i].0 != s[s.len() - 1].0);
        assert forall|a: int, b: int| 0 <= a < b < t.len() implies (#[trigger] t[a]).0 != (
        #[trigger] t[b]).0 by {
            assert(s[a].0 != s[b].0);
        }
        lemma_map_of_value(t, i);
    }
}

/// A list of a directory gives the directory back.
pub proof fn lemma_map_of_list<T>(s: Seq<(Seq<char>, T)>, m: Map<Seq<char>, T>)
    requires
        lists(s, m),
    ensures
        map_of(s) == m,
{
    assert forall|k: Seq<char>| map_of(s).contains_key(k) == m.contains_key(k) by {
        lemma_map_of_dom(s, k);
    }
    assert forall|k: Seq<char>| map_of(s).contains_key(k) implies map_of(s)[k] == m[k] by {
        lemma_map_of_dom(s, k);
        let i = choose|i: int| 0 <= i < s.len() && (#[trigger] s[i]).0 == k;
        lemma_map_of_value(s, i);
    }
    assert(map_of(s) =~= m);
}

impl<T: DeepView> Directory<Vec<T>> {
    /// A list that is filed has no more items than this machine can count.
    pub proof fn lemma_lists_are_countable(&self, name: Seq<char>)
        requires
            self.wf(),
            self@.contains_key(name),
        ensures
            self@[name].len() <= usize::MAX,
    {
        let list = self.entries@[self.index@[name] as int].1;
        assert(list.len() == list@.len());
    }
}

impl<V: Wire> Directory<V> {
    /// Appends the bytes of the entries, as a list of names with their values.
    pub fn put_all(&self, out: &mut Vec<u8>)
        requires
            self.wf(),
        ensures
            final(out)@ == old(out)@ + <Vec<(String, V)>>::wire(self.listed()),
            <Vec<(String, V)>>::fits(self.listed()),
            lists(self.listed(), self@),
    {
        proof {
            self.lemma_listed();
        }
        let ghost start = out@;
        let ghost all = self.listed();
        let n: usize = self.entries.len();
        n.put(out);
        let mut i: usize = 0;
        assert(all.skip(0) =~= all);
        while i < n
            invariant
                i <= n,
                n == self.entries@.len(),
                all == self.listed(),
                out@ + crate::wire::items_bytes::<(String, V)>(all.skip(i as int)) == start
                    + <Vec<(String, V)>>::wire(all),
                forall|k: int| 0 <= k < i ==> #[trigger] <(String, V)>::fits(all[k]),
            decreases n - i,
        {
            let ghost before = out@;
            self.entries[i].0.put(out);
            self.entries[i].1.put(out);
            proof {
                let left = all.skip(i as int);
                assert(left[0] == all[i as int]);
                assert(left.skip(1) =~= all.skip(i + 1));
                let rest = crate::wire::items_bytes::<(String, V)>(all.skip(i + 1));
                assert(before + (<(String, V)>::wire(all[i as int]) + rest) =~= out@ + rest);
                assert(<(String, V)>::fits(all[i as int]));
            }
            i += 1;
        }
        assert(out@ + crate::wire::items_bytes::<(String, V)>(all.skip(n as int)) =~= out@);
    }
}

impl<V: DeepView> Directory<V> {
    /// Takes the directory apart into its entries.
    pub fn into_entries(self) -> (r: Vec<(String, V)>)
        requires
            self.wf(),
        ensures
            r.deep_view() == self.listed(),
            lists(r.deep_view(), self@),
    {
        proof {
            self.lemma_listed();
        }
        let entries = self.entries;
        assert(entries.deep_view() =~= self.listed());
        entries
    }

    /// Files the entries one by one; the last one of a name counts.
    pub fn from_entries(entries: Vec<(String, V)>) -> (r: Directory<V>)
        ensures
            r.wf(),
            r@ == map_of(entries.deep_view()),
    {
        let ghost all = entries.deep_view();
        let mut left = entries;
        let mut out: Directory<V> = Directory::new();
        assert(map_of(all).union_prefer_right(out@) =~= map_of(all));
        while left.len() > 0
            invariant
                out.wf(),
                map_of(left.deep_view()).union_prefer_right(out@) == map_of(all),
            decreases left@.len(),
        {
            let ghost before = left.deep_view();
            let ghost filed = out@;
            match left.pop() {
                Some((name, value)) => {
                    proof {
                        assert(left.deep_view() =~= before.drop_last());
                    }
                    let known: bool = match out.get(name.as_str()) {
                        Some(_) => true,
                        None => false,
                    };
                    if !known {
                        out.insert(name, value);
                        assert(map_of(left.deep_view()).union_prefer_right(out@) =~= map_of(
                            before,
                        ).union_prefer_right(filed));
                    } else {
                        assert(map_of(left.deep_view()).union_prefer_right(out@) =~= map_of(
                            before,
                        ).union_prefer_right(filed));
                    }
                },
                None => {},
            }
        }
        assert(map_of(left.deep_view()).union_prefer_right(out@) =~= out@);
        out
    }
}

} // verus!

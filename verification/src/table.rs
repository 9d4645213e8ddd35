//! A map from names to values that keeps its entries in insertion order.

use vstd::prelude::*;
use crate::text::str_eq;

verus! {

/// The names of a list of entries, in order.
pub open spec fn names_of<V>(entries: Seq<(String, V)>) -> Seq<Seq<char>> {
    Seq::new(entries.len(), |i: int| entries[i].0@)
}

/// The map that a list of entries with distinct names stands for.
pub open spec fn map_of<V>(entries: Seq<(String, V)>) -> Map<Seq<char>, V> {
    Map::new(
        |name: Seq<char>| names_of(entries).contains(name),
        |name: Seq<char>| entries[names_of(entries).index_of(name)].1,
    )
}

/// Each entry of a list with distinct names is found under its own name.
pub proof fn lemma_entry_found<V>(entries: Seq<(String, V)>, i: int)
    requires
        names_of(entries).no_duplicates(),
        0 <= i < entries.len(),
    ensures
        map_of(entries).contains_key(entries[i].0@),
        map_of(entries)[entries[i].0@] == entries[i].1,
{
    let names = names_of(entries);
    assert(names[i] == entries[i].0@);
    assert(names.contains(names[i]));
    let j = names.index_of(names[i]);
    assert(0 <= j < names.len() && names[j] == names[i]);
}

/// Replacing the value of entry `i` replaces it in the map and leaves the
/// names as they were.
pub proof fn lemma_entry_replaced<V>(prior: Seq<(String, V)>, now: Seq<(String, V)>, i: int)
    requires
        names_of(prior).no_duplicates(),
        0 <= i < prior.len(),
        now.len() == prior.len(),
        forall|j: int| 0 <= j < prior.len() && j != i ==> now[j] == prior[j],
        now[i].0@ == prior[i].0@,
    ensures
        names_of(now) == names_of(prior),
        map_of(now) == map_of(prior).insert(prior[i].0@, now[i].1),
{
    let name = prior[i].0@;
    assert(names_of(now) =~= names_of(prior));
    assert forall|k: Seq<char>| #[trigger] map_of(now).contains_key(k) implies map_of(now)[k]
        == map_of(prior).insert(name, now[i].1)[k] by {
        let j = names_of(now).index_of(k);
        assert(0 <= j < now.len() && names_of(now)[j] == k);
        lemma_entry_found(now, j);
        lemma_entry_found(prior, j);
        assert(names_of(prior)[i] == name);
        if j != i {
            assert(names_of(prior)[j] != names_of(prior)[i]);
            assert(now[j] == prior[j]);
        }
    }
    assert(names_of(prior)[i] == name);
    assert(map_of(now) =~= map_of(prior).insert(name, now[i].1));
}

/// Appending an entry under a new name inserts it into the map and appends
/// its name to the names.
pub proof fn lemma_entry_added<V>(prior: Seq<(String, V)>, now: Seq<(String, V)>)
    requires
        names_of(prior).no_duplicates(),
        now.len() == prior.len() + 1,
        now.drop_last() == prior,
        !names_of(prior).contains(now.last().0@),
    ensures
        names_of(now).no_duplicates(),
        names_of(now) == names_of(prior).push(now.last().0@),
        map_of(now) == map_of(prior).insert(now.last().0@, now.last().1),
{
    let name = now.last().0@;
    let n = prior.len() as int;
    assert(names_of(now) =~= names_of(prior).push(name));
    assert forall|a: int, b: int|
        0 <= a < names_of(now).len() && 0 <= b < names_of(now).len() && a != b implies names_of(
        now,
    )[a] != names_of(now)[b] by {
        if a < n {
            assert(names_of(prior)[a] == names_of(now)[a]);
        }
        if b < n {
            assert(names_of(prior)[b] == names_of(now)[b]);
        }
    }
    assert forall|k: Seq<char>| #[trigger]
        map_of(now).contains_key(k) == map_of(prior).insert(name, now.last().1).contains_key(
            k,
        ) by {
        if names_of(now).contains(k) {
            let j = names_of(now).index_of(k);
            assert(0 <= j < now.len() && names_of(now)[j] == k);
            if j < n {
                assert(names_of(prior)[j] == k);
            }
        }
        if names_of(prior).contains(k) {
            let j = names_of(prior).index_of(k);
            assert(0 <= j < n && names_of(prior)[j] == k);
            assert(names_of(now)[j] == k);
        }
        if k == name {
            assert(names_of(now)[n] == k);
        }
    }
    assert forall|k: Seq<char>| #[trigger] map_of(now).contains_key(k) implies map_of(now)[k]
        == map_of(prior).insert(name, now.last().1)[k] by {
        let j = names_of(now).index_of(k);
        assert(0 <= j < now.len() && names_of(now)[j] == k);
        lemma_entry_found(now, j);
        if j < n {
            assert(names_of(prior)[j] == k);
            lemma_entry_found(prior, j);
        }
    }
    assert(map_of(now) =~= map_of(prior).insert(name, now.last().1));
}

/// Taking entry `i` out removes its name from the map and from the names.
pub proof fn lemma_entry_removed<V>(prior: Seq<(String, V)>, i: int)
    requires
        names_of(prior).no_duplicates(),
        0 <= i < prior.len(),
    ensures
        names_of(prior.remove(i)).no_duplicates(),
        names_of(prior.remove(i)) == names_of(prior).remove(i),
        map_of(prior.remove(i)) == map_of(prior).remove(prior[i].0@),
{
    let now = prior.remove(i);
    let name = prior[i].0@;
    assert(names_of(now) =~= names_of(prior).remove(i));
    assert forall|a: int, b: int|
        0 <= a < names_of(now).len() && 0 <= b < names_of(now).len() && a != b implies names_of(
        now,
    )[a] != names_of(now)[b] by {
        let pa = if a < i { a } else { a + 1 };
        let pb = if b < i { b } else { b + 1 };
        assert(names_of(now)[a] == names_of(prior)[pa]);
        assert(names_of(now)[b] == names_of(prior)[pb]);
    }
    assert(names_of(prior)[i] == name);
    assert forall|k: Seq<char>| #[trigger]
        map_of(now).contains_key(k) == map_of(prior).remove(name).contains_key(k) by {
        if names_of(now).contains(k) {
            let a = names_of(now).index_of(k);
            assert(0 <= a < now.len() && names_of(now)[a] == k);
            let pa = if a < i { a } else { a + 1 };
            assert(names_of(prior)[pa] == k);
            assert(pa != i);
        }
        if names_of(prior).contains(k) && k != name {
            let pa = names_of(prior).index_of(k);
            assert(0 <= pa < prior.len() && names_of(prior)[pa] == k);
            let a = if pa < i { pa } else { pa - 1 };
            assert(names_of(now)[a] == k);
        }
    }
    assert forall|k: Seq<char>| #[trigger] map_of(now).contains_key(k) implies map_of(now)[k]
        == map_of(prior).remove(name)[k] by {
        let a = names_of(now).index_of(k);
        assert(0 <= a < now.len() && names_of(now)[a] == k);
        lemma_entry_found(now, a);
        let pa = if a < i { a } else { a + 1 };
        assert(names_of(prior)[pa] == k);
        lemma_entry_found(prior, pa);
    }
    assert(map_of(now) =~= map_of(prior).remove(name));
}

/// A map from names to values, each name held once.
///
/// The view is the mathematical map; [`Table::names`] gives the names in the
/// order in which they were first inserted.
#[derive(Debug)]
pub struct Table<V> {
    entries: Vec<(String, V)>,
}

impl<V> View for Table<V> {
    type V = Map<Seq<char>, V>;

    closed spec fn view(&self) -> Map<Seq<char>, V> {
        map_of(self.entries@)
    }
}

impl<V> Table<V> {
    #[verifier::type_invariant]
    spec fn distinct(self) -> bool {
        names_of(self.entries@).no_duplicates()
    }

    /// The names, in the order of their first insertion.
    pub closed spec fn names(&self) -> Seq<Seq<char>> {
        names_of(self.entries@)
    }

    /// An empty table.
    pub fn new() -> (t: Self)
        ensures
            t@ == Map::<Seq<char>, V>::empty(),
            t.names() == Seq::<Seq<char>>::empty(),
    {
        let t = Table { entries: Vec::new() };
        assert(t@ =~= Map::<Seq<char>, V>::empty());
        assert(t.names() =~= Seq::<Seq<char>>::empty());
        t
    }

    /// The number of entries. The names are distinct, and they are the
    /// domain of the view.
    pub fn len(&self) -> (n: usize)
        ensures
            n == self.names().len(),
            n == self@.dom().len(),
            self@.dom().finite(),
            self.names().no_duplicates(),
            forall|name: Seq<char>| self@.contains_key(name) <==> self.names().contains(name),
    {
        proof {
            use_type_invariant(self);
            let names = self.names();
            assert(self@.dom() =~= names.to_set());
            names.unique_seq_to_set();
        }
        self.entries.len()
    }

    /// Whether the table has no entry.
    pub fn is_empty(&self) -> (empty: bool)
        ensures
            empty == (self.names().len() == 0),
            empty == (self@ == Map::<Seq<char>, V>::empty()),
    {
        proof {
            use_type_invariant(self);
            if self.entries@.len() == 0 {
                assert(self@ =~= Map::<Seq<char>, V>::empty());
            } else {
                lemma_entry_found(self.entries@, 0);
            }
        }
        self.entries.len() == 0
    }

    /// The position of `name` among the entries.
    fn find(&self, name: &str) -> (at: Option<usize>)
        ensures
            at matches Some(i) ==> i < self.entries@.len() && self.entries@[i as int].0@ == name@,
            at is None ==> !names_of(self.entries@).contains(name@),
    {
        let mut i: usize = 0;
        while i < self.entries.len()
            invariant
                i <= self.entries@.len(),
                forall|j: int| 0 <= j < i ==> self.entries@[j].0@ != name@,
            decreases self.entries@.len() - i,
        {
            if str_eq(self.entries[i].0.as_str(), name) {
                return Some(i);
            }
            i += 1;
        }
        None
    }

    /// Whether `name` has an entry.
    pub fn contains_key(&self, name: &str) -> (found: bool)
        ensures
            found == self@.contains_key(name@),
    {
        proof {
            use_type_invariant(self);
        }
        match self.find(name) {
            Some(i) => {
                proof {
                    lemma_entry_found(self.entries@, i as int);
                }
                true
            },
            None => false,
        }
    }

    /// The value under `name`, if there is one.
    pub fn get(&self, name: &str) -> (found: Option<&V>)
        ensures
            found is Some <==> self@.contains_key(name@),
            found matches Some(v) ==> *v == self@[name@],
    {
        proof {
            use_type_invariant(self);
        }
        match self.find(name) {
            Some(i) => {
                proof {
                    lemma_entry_found(self.entries@, i as int);
                }
                Some(&self.entries[i].1)
            },
            None => None,
        }
    }

    /// Puts `value` under `name` and hands back the value it replaces, if any.
    /// A new name goes to the end of the names; a known one keeps its place.
    pub fn insert(&mut self, name: &str, value: V) -> (before: Option<V>)
        ensures
            final(self)@ == old(self)@.insert(name@, value),
            before is Some <==> old(self)@.contains_key(name@),
            before matches Some(v) ==> v == old(self)@[name@],
            final(self).names() == if old(self)@.contains_key(name@) {
                old(self).names()
            } else {
                old(self).names().push(name@)
            },
    {
        proof {
            use_type_invariant(&*self);
        }
        let at = self.find(name);
        let mut entries: Vec<(String, V)> = Vec::new();
        std::mem::swap(&mut entries, &mut self.entries);
        let ghost prior = entries@;
        let before = match at {
            Some(i) => {
                let replaced = entries.remove(i);
                entries.insert(i, (name.to_owned(), value));
                proof {
                    lemma_entry_found(prior, i as int);
                    lemma_entry_replaced(prior, entries@, i as int);
                }
                Some(replaced.1)
            },
            None => {
                entries.push((name.to_owned(), value));
                proof {
                    assert(entries@.drop_last() =~= prior);
                    lemma_entry_added(prior, entries@);
                }
                None
            },
        };
        self.entries = entries;
        before
    }

    /// Takes the entry under `name` out of the table, if there is one.
    pub fn remove(&mut self, name: &str) -> (taken: Option<V>)
        ensures
            taken is Some <==> old(self)@.contains_key(name@),
            taken matches Some(v) ==> v == old(self)@[name@],
            final(self)@ == old(self)@.remove(name@),
            taken is Some ==> final(self).names() == old(self).names().remove(
                old(self).names().index_of(name@),
            ),
            taken is None ==> final(self).names() == old(self).names(),
    {
        proof {
            use_type_invariant(&*self);
        }
        match self.find(name) {
            Some(i) => {
                let mut entries: Vec<(String, V)> = Vec::new();
                std::mem::swap(&mut entries, &mut self.entries);
                proof {
                    lemma_entry_found(entries@, i as int);
                    lemma_entry_removed(entries@, i as int);
                    let names = names_of(entries@);
                    assert(names[i as int] == name@);
                    let at = names.index_of(name@);
                    assert(0 <= at < names.len() && names[at] == name@);
                }
                let entry = entries.remove(i);
                self.entries = entries;
                Some(entry.1)
            },
            None => {
                assert(self@.remove(name@) =~= self@);
                None
            },
        }
    }

    /// Takes the last entry out of the table, if there is one.
    pub fn pop(&mut self) -> (last: Option<(String, V)>)
        ensures
            last is None <==> old(self).names().len() == 0,
            last is None ==> final(self)@ == old(self)@,
            last is None ==> final(self).names() == old(self).names(),
            last matches Some(entry) ==> entry.0@ == old(self).names().last(),
            last matches Some(entry) ==> old(self)@.contains_key(entry.0@),
            last matches Some(entry) ==> old(self)@[entry.0@] == entry.1,
            last matches Some(entry) ==> final(self)@ == old(self)@.remove(entry.0@),
            last is Some ==> final(self).names() == old(self).names().drop_last(),
    {
        proof {
            use_type_invariant(&*self);
        }
        let mut entries: Vec<(String, V)> = Vec::new();
        std::mem::swap(&mut entries, &mut self.entries);
        let ghost prior = entries@;
        let last = entries.pop();
        proof {
            let now = entries@;
            if last is Some {
                let entry = last->0;
                let n = prior.len() - 1;
                assert(now =~= prior.drop_last());
                assert(names_of(now) =~= names_of(prior).drop_last());
                lemma_entry_found(prior, n);
                assert(names_of(prior)[n] == entry.0@);
                assert forall|k: Seq<char>| #[trigger]
                    map_of(now).contains_key(k) == map_of(prior).remove(entry.0@).contains_key(
                        k,
                    ) by {
                    if names_of(now).contains(k) {
                        let j = names_of(now).index_of(k);
                        assert(names_of(prior)[j] == k);
                    }
                    if names_of(prior).contains(k) && k != entry.0@ {
                        let j = names_of(prior).index_of(k);
                        assert(0 <= j < prior.len() && names_of(prior)[j] == k);
                        assert(j != n);
                        assert(names_of(now)[j] == k);
                    }
                }
                assert forall|k: Seq<char>| #[trigger] map_of(now).contains_key(k) implies map_of(
                    now,
                )[k] == map_of(prior).remove(entry.0@)[k] by {
                    let j = names_of(now).index_of(k);
                    assert(0 <= j < now.len() && names_of(now)[j] == k);
                    lemma_entry_found(now, j);
                    assert(names_of(prior)[j] == k);
                    lemma_entry_found(prior, j);
                }
                assert(map_of(now) =~= map_of(prior).remove(entry.0@));
            } else {
                assert(now =~= prior);
            }
        }
        self.entries = entries;
        last
    }

    /// The name of entry `i`.
    pub fn name_at(&self, i: usize) -> (name: &str)
        requires
            i < self.names().len(),
        ensures
            name@ == self.names()[i as int],
            self@.contains_key(name@),
    {
        proof {
            use_type_invariant(self);
            lemma_entry_found(self.entries@, i as int);
        }
        self.entries[i].0.as_str()
    }

    /// The value of entry `i`.
    pub fn value_at(&self, i: usize) -> (value: &V)
        requires
            i < self.names().len(),
        ensures
            self@.contains_key(self.names()[i as int]),
            *value == self@[self.names()[i as int]],
    {
        proof {
            use_type_invariant(self);
            lemma_entry_found(self.entries@, i as int);
        }
        &self.entries[i].1
    }
}

} // verus!

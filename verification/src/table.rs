//! A small table of values by name, and a small set of names.
//!
//! Both keep their entries in a vector, in the order in which the names came. They are
//! meant for the handfuls of entries that environments and registries hold.

use vstd::prelude::*;

use crate::text::text_eq;

verus! {

/// Values by name.
#[derive(Debug)]
pub struct Table<T> {
    entries: Vec<(String, T)>,
}

/// Entries as a map.
pub open spec fn as_map<T>(e: Seq<(String, T)>) -> Map<Seq<char>, T>
    decreases e.len(),
{
    if e.len() == 0 {
        Map::empty()
    } else {
        as_map(e.drop_last()).insert(e.last().0@, e.last().1)
    }
}

/// No two entries have one name.
pub open spec fn distinct<T>(e: Seq<(String, T)>) -> bool {
    forall|i: int, j: int| 0 <= i < j < e.len() ==> (#[trigger] e[i]).0@ != (#[trigger] e[j]).0@
}

impl<T> View for Table<T> {
    type V = Map<Seq<char>, T>;

    closed spec fn view(&self) -> Map<Seq<char>, T> {
        as_map(self.entries@)
    }
}

/// The map has the names of the entries, and no others.
pub proof fn lemma_names<T>(e: Seq<(String, T)>, name: Seq<char>)
    ensures
        as_map(e).contains_key(name) <==> exists|i: int|
            0 <= i < e.len() && (#[trigger] e[i]).0@ == name,
    decreases e.len(),
{
    if e.len() > 0 {
        let init = e.drop_last();
        lemma_names(init, name);
        if as_map(init).contains_key(name) {
            let i = choose|i: int| 0 <= i < init.len() && (#[trigger] init[i]).0@ == name;
            assert(e[i].0@ == name);
        }
        if exists|i: int| 0 <= i < e.len() && (#[trigger] e[i]).0@ == name {
            let i = choose|i: int| 0 <= i < e.len() && (#[trigger] e[i]).0@ == name;
            if i < init.len() {
                assert(init[i] == e[i]);
            }
        }
        assert(e[e.len() - 1] == e.last());
    }
}

/// Each name has the value of its entry.
pub proof fn lemma_lookup<T>(e: Seq<(String, T)>, i: int)
    requires
        distinct(e),
        0 <= i < e.len(),
    ensures
        as_map(e).contains_key(e[i].0@),
        as_map(e)[e[i].0@] == e[i].1,
    decreases e.len(),
{
    if i < e.len() - 1 {
        let init = e.drop_last();
        assert(init[i] == e[i]);
        lemma_lookup(init, i);
        assert(e[e.len() - 1].0@ != e[i].0@);
    }
}

proof fn lemma_remove<T>(e: Seq<(String, T)>, k: int)
    requires
        distinct(e),
        0 <= k < e.len(),
    ensures
        distinct(e.remove(k)),
        as_map(e.remove(k)) == as_map(e).remove(e[k].0@),
    decreases e.len(),
{
    if k == e.len() - 1 {
        assert(e.remove(k) =~= e.drop_last());
        let init = e.drop_last();
        lemma_names(init, e[k].0@);
        assert forall|i: int| 0 <= i < init.len() implies (#[trigger] init[i]).0@ != e[k].0@ by {
            assert(init[i] == e[i]);
        }
        assert(as_map(init) =~= as_map(e).remove(e[k].0@));
    } else {
        let init = e.drop_last();
        assert(init[k] == e[k]);
        lemma_remove(init, k);
        assert(e.remove(k).drop_last() =~= init.remove(k));
        assert(e.remove(k).last() == e.last());
        assert(e[e.len() - 1].0@ != e[k].0@);
        assert(as_map(e.remove(k)) =~= as_map(e).remove(e[k].0@));
        let r = e.remove(k);
        assert forall|i: int, j: int| 0 <= i < j < r.len() implies (#[trigger] r[i]).0@ != (
        #[trigger] r[j]).0@ by {
            let i2 = if i < k {
                i
            } else {
                i + 1
            };
            let j2 = if j < k {
                j
            } else {
                j + 1
            };
            assert(r[i] == e[i2] && r[j] == e[j2]);
        }
    }
}

impl<T> Table<T> {
    #[verifier::type_invariant]
    spec fn one_each(self) -> bool {
        distinct(self.entries@)
    }

    /// An empty table.
    pub fn new() -> (res: Self)
        ensures
            res@ == Map::<Seq<char>, T>::empty(),
            res.entries_view().len() == 0,
    {
        Table { entries: Vec::new() }
    }

    /// Place of a name.
    fn place(&self, name: &str) -> (res: Option<usize>)
        ensures
            match res {
                Some(k) => k < self.entries@.len() && self.entries@[k as int].0@ == name@,
                None => forall|i: int|
                    0 <= i < self.entries@.len() ==> (#[trigger] self.entries@[i]).0@ != name@,
            },
    {
        let mut k: usize = 0;
        while k < self.entries.len()
            invariant
                k <= self.entries@.len(),
                forall|i: int| 0 <= i < k ==> (#[trigger] self.entries@[i]).0@ != name@,
            decreases self.entries.len() - k,
        {
            if text_eq(self.entries[k].0.as_str(), name) {
                return Some(k);
            }
            k += 1;
        }
        None
    }

    /// The value of a name.
    pub fn get(&self, name: &str) -> (res: Option<&T>)
        ensures
            match res {
                Some(v) => self@.contains_key(name@) && self@[name@] == *v,
                None => !self@.contains_key(name@),
            },
    {
        proof {
            use_type_invariant(self);
            lemma_names(self.entries@, name@);
        }
        match self.place(name) {
            Some(k) => {
                proof {
                    lemma_lookup(self.entries@, k as int);
                }
                Some(&self.entries[k].1)
            },
            None => None,
        }
    }

    /// Takes a name out.
    pub fn remove(&mut self, name: &str)
        ensures
            final(self)@ == old(self)@.remove(name@),
    {
        proof {
            use_type_invariant(&*self);
            lemma_names(self.entries@, name@);
        }
        if let Some(k) = self.place(name) {
            proof {
                lemma_remove(self.entries@, k as int);
            }
            let mut entries: Vec<(String, T)> = Vec::new();
            core::mem::swap(&mut entries, &mut self.entries);
            entries.remove(k);
            self.entries = entries;
        } else {
            proof {
                assert(self@ =~= self@.remove(name@));
            }
        }
    }

    /// Gives a name a value, in place of the one it had.
    pub fn set(&mut self, name: String, value: T)
        ensures
            final(self)@ == old(self)@.insert(name@, value),
    {
        let ghost before = self@;
        self.remove(name.as_str());
        proof {
            use_type_invariant(&*self);
            lemma_names(self.entries@, name@);
        }
        let ghost e = self.entries@;
        let mut entries: Vec<(String, T)> = Vec::new();
        core::mem::swap(&mut entries, &mut self.entries);
        entries.push((name, value));
        proof {
            assert(entries@.drop_last() =~= e);
            assert(as_map(entries@) =~= before.insert(name@, value));
            assert forall|i: int, j: int| 0 <= i < j < entries@.len() implies (
            #[trigger] entries@[i]).0@ != (#[trigger] entries@[j]).0@ by {
                assert(entries@[i] == e[i]);
                if j < e.len() {
                    assert(entries@[j] == e[j]);
                } else {
                    assert(!as_map(e).contains_key(name@));
                    assert(e[i].0@ != name@);
                }
            }
        }
        self.entries = entries;
    }

    /// How many entries there are to walk over; no name comes twice.
    pub fn len(&self) -> (n: usize)
        ensures
            n == self.entries_view().len(),
            distinct(self.entries_view()),
    {
        proof {
            use_type_invariant(self);
        }
        self.entries.len()
    }

    /// The entries in the order in which they are walked over.
    pub closed spec fn entries_view(&self) -> Seq<(String, T)> {
        self.entries@
    }

    /// The map is that of the entries.
    pub proof fn lemma_entries(&self)
        ensures
            self@ == as_map(self.entries_view()),
    {
    }

    /// The entry at a place.
    pub fn entry(&self, i: usize) -> (res: (&String, &T))
        requires
            i < self.entries_view().len(),
        ensures
            *res.0 == self.entries_view()[i as int].0,
            *res.1 == self.entries_view()[i as int].1,
    {
        (&self.entries[i].0, &self.entries[i].1)
    }
}

/// A set of names.
#[derive(Debug)]
pub struct Names {
    table: Table<()>,
}

impl View for Names {
    type V = Set<Seq<char>>;

    closed spec fn view(&self) -> Set<Seq<char>> {
        self.table@.dom()
    }
}

impl Names {
    /// The empty set.
    pub fn new() -> (res: Self)
        ensures
            res@ == Set::<Seq<char>>::empty(),
    {
        let res = Names { table: Table::new() };
        proof {
            assert(res@ =~= Set::<Seq<char>>::empty());
        }
        res
    }

    /// Whether a name is in the set.
    pub fn contains(&self, name: &str) -> (res: bool)
        ensures
            res == self@.contains(name@),
    {
        self.table.get(name).is_some()
    }

    /// Puts a name in.
    pub fn insert(&mut self, name: String)
        ensures
            final(self)@ == old(self)@.insert(name@),
    {
        self.table.set(name, ());
        proof {
            assert(self@ =~= old(self)@.insert(name@));
        }
    }

    /// Takes a name out.
    pub fn remove(&mut self, name: &str)
        ensures
            final(self)@ == old(self)@.remove(name@),
    {
        self.table.remove(name);
        proof {
            assert(self@ =~= old(self)@.remove(name@));
        }
    }

    /// A copy of the set.
    pub fn copy(&self) -> (res: Self)
        ensures
            res@ == self@,
    {
        proof {
            use_type_invariant(&self.table);
        }
        let mut entries: Vec<(String, ())> = Vec::new();
        let mut i: usize = 0;
        while i < self.table.entries.len()
            invariant
                i <= self.table.entries@.len(),
                entries@ =~= self.table.entries@.take(i as int),
            decreases self.table.entries.len() - i,
        {
            entries.push((self.table.entries[i].0.clone(), self.table.entries[i].1));
            i += 1;
        }
        proof {
            assert(self.table.entries@.take(i as int) =~= self.table.entries@);
        }
        Names { table: Table { entries } }
    }
}

/// A copy of a table of texts.
pub fn copy_texts(t: &Table<String>) -> (res: Table<String>)
    ensures
        res@ == t@,
{
    proof {
        use_type_invariant(t);
    }
    let mut entries: Vec<(String, String)> = Vec::new();
    let mut i: usize = 0;
    while i < t.entries.len()
        invariant
            i <= t.entries@.len(),
            entries@ =~= t.entries@.take(i as int),
        decreases t.entries.len() - i,
    {
        entries.push((t.entries[i].0.clone(), t.entries[i].1.clone()));
        i += 1;
    }
    proof {
        assert(t.entries@.take(i as int) =~= t.entries@);
    }
    Table { entries }
}

} // verus!

//! Tables from names to values that remember the order of their entries.

use vstd::prelude::*;

use crate::text::{same_text, texts};

verus! {

/// What a [`Table`] holds, entry by entry: each name with its value.
pub type Entries<V> = Seq<(Seq<char>, V)>;

/// No name occurs twice.
pub open spec fn unique<V>(s: Entries<V>) -> bool {
    forall|i: int, j: int|
        0 <= i < s.len() && 0 <= j < s.len() && #[trigger] s[i].0 == #[trigger] s[j].0 ==> i == j
}

/// The names, in order.
pub open spec fn names<V>(s: Entries<V>) -> Seq<Seq<char>> {
    s.map_values(|e: (Seq<char>, V)| e.0)
}

/// Some entry bears this name.
pub open spec fn holds<V>(s: Entries<V>, name: Seq<char>) -> bool {
    exists|i: int| 0 <= i < s.len() && #[trigger] s[i].0 == name
}

/// Where the entry with this name stands.
pub open spec fn place<V>(s: Entries<V>, name: Seq<char>) -> Option<int>
    decreases s.len(),
{
    if s.len() == 0 {
        None
    } else {
        match place(s.drop_last(), name) {
            Some(i) => Some(i),
            None => if s.last().0 == name {
                Some(s.len() - 1)
            } else {
                None
            },
        }
    }
}

/// The value under this name.
pub open spec fn lookup<V>(s: Entries<V>, name: Seq<char>) -> Option<V> {
    match place(s, name) {
        Some(i) => Some(s[i].1),
        None => None,
    }
}

/// The entries with `value` under `name`: in the place of the old value, or at
/// the end.
pub open spec fn put<V>(s: Entries<V>, name: Seq<char>, value: V) -> Entries<V> {
    match place(s, name) {
        Some(i) => s.update(i, (name, value)),
        None => s.push((name, value)),
    }
}

/// The entries without the one under `name`.
pub open spec fn without<V>(s: Entries<V>, name: Seq<char>) -> Entries<V> {
    match place(s, name) {
        Some(i) => s.remove(i),
        None => s,
    }
}

/// `place` finds the first entry with the name, if there is one.
pub proof fn lemma_place<V>(s: Entries<V>, name: Seq<char>)
    ensures
        holds(s, name) == (place(s, name) is Some),
        place(s, name) matches Some(i) ==> 0 <= i < s.len() && s[i].0 == name,
        place(s, name) matches Some(i) ==> forall|j: int|
            0 <= j < i ==> #[trigger] s[j].0 != name,
    decreases s.len(),
{
    if s.len() > 0 {
        let rest = s.drop_last();
        lemma_place(rest, name);
        assert(forall|j: int| 0 <= j < rest.len() ==> #[trigger] s[j] == rest[j]);
        if place(rest, name) is Some {
            assert(s[place(rest, name)->0].0 == name);
        } else if s.last().0 == name {
            assert(s[s.len() - 1].0 == name);
        } else {
            assert forall|i: int| 0 <= i < s.len() implies #[trigger] s[i].0 != name by {
                if i < rest.len() {
                    assert(rest[i].0 != name);
                }
            }
        }
    }
}

/// In a table where no name occurs twice, an entry stands at the place of its
/// name.
pub proof fn lemma_place_unique<V>(s: Entries<V>, i: int)
    requires
        unique(s),
        0 <= i < s.len(),
    ensures
        place(s, s[i].0) == Some(i),
        holds(s, s[i].0),
{
    lemma_place(s, s[i].0);
    assert(s[i].0 == s[i].0);
    assert(holds(s, s[i].0));
}

/// After a value is put under a name, that name holds it and every other name
/// holds what it held; names stay unique.
pub proof fn law_put<V>(s: Entries<V>, name: Seq<char>, value: V, other: Seq<char>)
    ensures
        lookup(put(s, name, value), name) == Some(value),
        other != name ==> lookup(put(s, name, value), other) == lookup(s, other),
        holds(put(s, name, value), other) == (other == name || holds(s, other)),
        unique(s) ==> unique(put(s, name, value)),
        put(s, name, value).len() == s.len() + if holds(s, name) { 0int } else { 1 },
{
    let t = put(s, name, value);
    lemma_place(s, name);
    lemma_place(s, other);
    lemma_place(t, name);
    lemma_place(t, other);
    match place(s, name) {
        Some(i) => {
            assert(t[i].0 == name);
            assert forall|j: int| 0 <= j < t.len() implies #[trigger] t[j].0 == s[j].0 by {}
            lemma_same_names(s, t, other);
            lemma_same_names(s, t, name);
        },
        None => {
            assert(t.drop_last() =~= s);
            assert(t[s.len() as int].0 == name);
            if holds(s, other) {
                let k = place(s, other)->0;
                assert(t[k].0 == other);
            }
            if holds(t, other) {
                let k = place(t, other)->0;
                if k < s.len() {
                    assert(s[k].0 == other);
                }
            }
            assert forall|i: int, j: int|
                unique(s) && 0 <= i < t.len() && 0 <= j < t.len() && #[trigger] t[i].0
                    == #[trigger] t[j].0 implies i == j by {
                if i < s.len() {
                    assert(s[i].0 == t[i].0);
                }
                if j < s.len() {
                    assert(s[j].0 == t[j].0);
                }
            }
        },
    }
}

/// Two tables with the same names in the same order agree on where a name stands.
pub proof fn lemma_same_names<V, W>(s: Entries<V>, t: Entries<W>, name: Seq<char>)
    requires
        s.len() == t.len(),
        forall|j: int| 0 <= j < t.len() ==> #[trigger] t[j].0 == s[j].0,
    ensures
        place(t, name) == place(s, name),
        holds(t, name) == holds(s, name),
        unique(s) == unique(t),
{
    lemma_place(s, name);
    lemma_place(t, name);
    if place(s, name) is Some {
        let i = place(s, name)->0;
        assert(t[i].0 == name);
    }
    if place(t, name) is Some {
        let i = place(t, name)->0;
        assert(s[i].0 == name);
    }
    if unique(s) {
        assert forall|i: int, j: int|
            0 <= i < t.len() && 0 <= j < t.len() && #[trigger] t[i].0
                == #[trigger] t[j].0 implies i == j by {
            assert(s[i].0 == s[j].0);
        }
    }
    if unique(t) {
        assert forall|i: int, j: int|
            0 <= i < s.len() && 0 <= j < s.len() && #[trigger] s[i].0
                == #[trigger] s[j].0 implies i == j by {
            assert(t[i].0 == t[j].0);
        }
    }
}

/// After a name is taken out of a table without repetitions, the name is gone and
/// every other name holds what it held.
pub proof fn law_without<V>(s: Entries<V>, name: Seq<char>, other: Seq<char>)
    requires
        unique(s),
    ensures
        !holds(without(s, name), name),
        other != name ==> lookup(without(s, name), other) == lookup(s, other),
        holds(without(s, name), other) == (other != name && holds(s, other)),
        unique(without(s, name)),
{
    let t = without(s, name);
    lemma_place(s, name);
    lemma_place(s, other);
    lemma_place(t, name);
    lemma_place(t, other);
    match place(s, name) {
        Some(i) => {
            assert forall|j: int| 0 <= j < t.len() implies #[trigger] t[j] == s[if j < i {
                j
            } else {
                j + 1
            }] by {}
            assert forall|j: int| 0 <= j < t.len() implies #[trigger] t[j].0 != name by {
                let k = if j < i {
                    j
                } else {
                    j + 1
                };
                assert(s[k].0 != name) by {
                    if s[k].0 == name {
                        assert(s[i].0 == s[k].0);
                    }
                }
            }
            if other != name {
                if holds(s, other) {
                    let k = place(s, other)->0;
                    let m = if k < i {
                        k
                    } else {
                        k - 1
                    };
                    assert(t[m].0 == other);
                    let q = place(t, other)->0;
                    let qs = if q < i {
                        q
                    } else {
                        q + 1
                    };
                    assert(s[qs].0 == other);
                    assert(s[k].0 == s[qs].0);
                }
                if holds(t, other) {
                    let q = place(t, other)->0;
                    let qs = if q < i {
                        q
                    } else {
                        q + 1
                    };
                    assert(s[qs].0 == other);
                }
            }
            assert forall|a: int, b: int|
                0 <= a < t.len() && 0 <= b < t.len() && #[trigger] t[a].0
                    == #[trigger] t[b].0 implies a == b by {
                let sa = if a < i {
                    a
                } else {
                    a + 1
                };
                let sb = if b < i {
                    b
                } else {
                    b + 1
                };
                assert(s[sa].0 == s[sb].0);
            }
        },
        None => {},
    }
}

/// A table from names to values.
pub struct Table<V> {
    entries: Vec<(String, V)>,
}

impl<V: View> View for Table<V> {
    type V = Seq<(Seq<char>, V::V)>;

    closed spec fn view(&self) -> Seq<(Seq<char>, V::V)> {
        Seq::new(self.entries@.len(), |i: int| (self.entries@[i].0@, self.entries@[i].1@))
    }
}

impl<V: View> Table<V> {
    /// A table without entries.
    pub fn new() -> (r: Self)
        ensures
            r@ == Seq::<(Seq<char>, V::V)>::empty(),
            unique(r@),
    {
        Table { entries: Vec::new() }
    }

    /// How many entries there are.
    pub fn len(&self) -> (r: usize)
        ensures
            r == self@.len(),
    {
        self.entries.len()
    }

    /// Whether there is no entry.
    pub fn is_empty(&self) -> (r: bool)
        ensures
            r == (self@.len() == 0),
    {
        self.entries.len() == 0
    }

    /// The name of an entry.
    pub fn name(&self, i: usize) -> (r: &String)
        requires
            i < self@.len(),
        ensures
            r@ == self@[i as int].0,
    {
        &self.entries[i].0
    }

    /// The value of an entry.
    pub fn value(&self, i: usize) -> (r: &V)
        requires
            i < self@.len(),
        ensures
            r@ == self@[i as int].1,
    {
        &self.entries[i].1
    }

    /// The value of an entry, to be changed.
    pub fn value_mut(&mut self, i: usize) -> (r: &mut V)
        requires
            i < old(self)@.len(),
        ensures
            r@ == old(self)@[i as int].1,
            final(self)@ == old(self)@.update(i as int, (old(self)@[i as int].0, final(r)@)),
            unique(old(self)@) ==> unique(final(self)@),
    {
        proof {
            let was = self@;
            assert forall|v: V::V| unique(was) implies unique(
                #[trigger] was.update(i as int, (was[i as int].0, v)),
            ) by {
                let now = was.update(i as int, (was[i as int].0, v));
                lemma_same_names(was, now, was[i as int].0);
            }
        }
        &mut self.entries[i].1
    }

    /// Where the entry with this name stands.
    pub fn position(&self, name: &str) -> (r: Option<usize>)
        ensures
            r is Some == holds(self@, name@),
            r matches Some(i) ==> i < self@.len() && place(self@, name@) == Some(i as int)
                && self@[i as int].0 == name@,
            r is None ==> place(self@, name@) is None,
    {
        proof {
            lemma_place(self@, name@);
        }
        for i in 0..self.entries.len()
            invariant
                forall|j: int| 0 <= j < i ==> #[trigger] self@[j].0 != name@,
        {
            if same_text(self.entries[i].0.as_str(), name) {
                assert(self@[i as int].0 == name@);
                proof {
                    lemma_place(self@, name@);
                }
                return Some(i);
            }
        }
        None
    }

    /// Whether some entry bears this name.
    pub fn contains(&self, name: &str) -> (r: bool)
        ensures
            r == holds(self@, name@),
    {
        self.position(name).is_some()
    }

    /// The value under this name.
    pub fn get(&self, name: &str) -> (r: Option<&V>)
        ensures
            r is Some == lookup(self@, name@) is Some,
            r matches Some(v) ==> lookup(self@, name@) == Some(v@),
    {
        match self.position(name) {
            Some(i) => Some(self.value(i)),
            None => None,
        }
    }

    /// Puts a value under a name.
    pub fn insert(&mut self, name: String, value: V)
        ensures
            final(self)@ == put(old(self)@, name@, value@),
            unique(old(self)@) ==> unique(final(self)@),
    {
        proof {
            law_put(self@, name@, value@, name@);
        }
        match self.position(name.as_str()) {
            Some(i) => {
                self.entries[i].1 = value;
                assert(self@ =~= old(self)@.update(i as int, (name@, value@)));
            },
            None => {
                self.entries.push((name, value));
                assert(self@ =~= old(self)@.push((name@, value@)));
            },
        }
    }

    /// Takes the entry under a name out.
    pub fn remove(&mut self, name: &str) -> (r: bool)
        ensures
            r == holds(old(self)@, name@),
            final(self)@ == without(old(self)@, name@),
            unique(old(self)@) ==> unique(final(self)@),
    {
        proof {
            if unique(self@) {
                law_without(self@, name@, name@);
            }
        }
        match self.position(name) {
            Some(i) => {
                let _gone = self.entries.remove(i);
                assert(self@ =~= old(self)@.remove(i as int));
                true
            },
            None => false,
        }
    }

    /// Takes an entry out.
    pub fn remove_at(&mut self, i: usize)
        requires
            i < old(self)@.len(),
        ensures
            final(self)@ == old(self)@.remove(i as int),
            unique(old(self)@) ==> unique(final(self)@),
    {
        proof {
            if unique(self@) {
                lemma_place_unique(self@, i as int);
                law_without(self@, self@[i as int].0, self@[i as int].0);
            }
        }
        let _gone = self.entries.remove(i);
        assert(self@ =~= old(self)@.remove(i as int));
    }

    /// The names, in order.
    pub fn all_names(&self) -> (r: Vec<String>)
        ensures
            texts(r@) == names(self@),
    {
        let mut r: Vec<String> = Vec::new();
        for i in 0..self.entries.len()
            invariant
                texts(r@) == names(self@).take(i as int),
        {
            let ghost was = r@;
            r.push(self.entries[i].0.clone());
            assert(texts(r@) =~= texts(was).push(self@[i as int].0));
            assert(names(self@).take(i + 1) =~= names(self@).take(i as int).push(self@[i as int].0));
        }
        assert(names(self@).take(self@.len() as int) =~= names(self@));
        r
    }
}

/// A value that is put under a name which is there takes the place of what was there; one
/// under a new name comes last. All other entries stay where they are.
pub proof fn law_put_in_place<V>(s: Entries<V>, name: Seq<char>, value: V, k: int)
    requires
        0 <= k < s.len(),
    ensures
        ({
            let t = put(s, name, value);
            &&& t[k].0 == s[k].0
            &&& s[k].0 != name ==> t[k] == s[k]
            &&& unique(s) && s[k].0 == name ==> t[k].1 == value
            &&& !holds(s, name) ==> t == s.push((name, value))
        }),
{
    lemma_place(s, name);
    if let Some(i) = place(s, name) {
        assert(s[i].0 == name);
    }
}

/// A name that is taken out leaves all other entries in their order.
pub proof fn law_without_in_order<V>(s: Entries<V>, name: Seq<char>, k: int)
    requires
        0 <= k < s.len(),
        s[k].0 == name,
        unique(s),
    ensures
        without(s, name) == s.take(k) + s.skip(k + 1),
{
    lemma_place(s, name);
    let i = place(s, name)->0;
    assert(s[i].0 == s[k].0);
    assert(s.remove(k) =~= s.take(k) + s.skip(k + 1));
}

/// What a name holds: the value of the first entry under it, and nothing where there is
/// none.
pub proof fn law_lookup<V>(s: Entries<V>, name: Seq<char>, k: int)
    ensures
        0 <= k < s.len() && s[k].0 == name && (forall|j: int|
            0 <= j < k ==> (#[trigger] s[j]).0 != name) ==> lookup(s, name) == Some(s[k].1)
            && place(s, name) == Some(k),
        (forall|j: int| 0 <= j < s.len() ==> (#[trigger] s[j]).0 != name) ==> lookup(s, name)
            is None && place(s, name) is None && !holds(s, name),
        0 <= k < s.len() ==> holds(s, s[k].0) && lookup(s, s[k].0) is Some,
        names(s).len() == s.len(),
        0 <= k < s.len() ==> names(s)[k] == s[k].0,
{
    lemma_place(s, name);
    if 0 <= k < s.len() {
        lemma_place(s, s[k].0);
        assert(s[k].0 == s[k].0);
    }
}

} // verus!

//! One lexical scope of the running program: a finite map from names to
//! values.

use vstd::prelude::*;

verus! {

/// A name bound to a value.
pub struct Binding<V> {
    pub name: String,
    pub value: V,
}

/// The map that a list of bindings stands for: a later binding of a name
/// hides an earlier one.
pub open spec fn bindings_map<V: View>(s: Seq<Binding<V>>) -> Map<Seq<char>, V::V>
    decreases s.len(),
{
    if s.len() == 0 {
        Map::empty()
    } else {
        bindings_map(s.drop_last()).insert(s.last().name@, s.last().value@)
    }
}

/// A name that no binding in `s` carries is not in the map.
pub proof fn lemma_bindings_absent<V: View>(s: Seq<Binding<V>>, name: Seq<char>)
    requires
        forall|j: int| 0 <= j < s.len() ==> s[j].name@ != name,
    ensures
        !bindings_map(s).contains_key(name),
    decreases s.len(),
{
    if s.len() > 0 {
        lemma_bindings_absent(s.drop_last(), name);
    }
}

/// The map gives a name the value of its last binding.
pub proof fn lemma_bindings_last<V: View>(s: Seq<Binding<V>>, k: int)
    requires
        0 <= k < s.len(),
        forall|j: int| k < j < s.len() ==> s[j].name@ != s[k].name@,
    ensures
        bindings_map(s).contains_key(s[k].name@),
        bindings_map(s)[s[k].name@] == s[k].value@,
    decreases s.len(),
{
    if k < s.len() - 1 {
        lemma_bindings_last(s.drop_last(), k);
    }
}

/// Replacing the last binding of a name rebinds the name in the map.
pub proof fn lemma_bindings_update<V: View>(s: Seq<Binding<V>>, k: int, b: Binding<V>)
    requires
        0 <= k < s.len(),
        b.name@ == s[k].name@,
        forall|j: int| k < j < s.len() ==> s[j].name@ != s[k].name@,
    ensures
        bindings_map(s.update(k, b)) == bindings_map(s).insert(b.name@, b.value@),
    decreases s.len(),
{
    let t = s.update(k, b);
    if k == s.len() - 1 {
        assert(t.drop_last() == s.drop_last());
        assert(bindings_map(t) == bindings_map(s).insert(b.name@, b.value@));
    } else {
        lemma_bindings_update(s.drop_last(), k, b);
        assert(t.drop_last() == s.drop_last().update(k, b));
        assert(t.last() == s.last());
        assert(bindings_map(t) == bindings_map(s).insert(b.name@, b.value@));
    }
}

/// A scope: the variables that one block has bound so far.
pub struct Scope<V> {
    entries: Vec<Binding<V>>,
}

impl<V: View> View for Scope<V> {
    type V = Map<Seq<char>, V::V>;

    closed spec fn view(&self) -> Map<Seq<char>, V::V> {
        bindings_map(self.entries@)
    }
}

impl<V: View> Scope<V> {
    /// A scope that binds nothing.
    pub fn new() -> (s: Self)
        ensures
            s@ == Map::<Seq<char>, V::V>::empty(),
    {
        Scope { entries: Vec::new() }
    }

    /// Index of the last binding of `name`, if there is one.
    fn position(&self, name: &String) -> (r: Option<usize>)
        ensures
            match r {
                Some(k) => k < self.entries@.len() && self.entries@[k as int].name@ == name@
                    && forall|j: int| k < j < self.entries@.len() ==> self.entries@[j].name@ != name@,
                None => forall|j: int| 0 <= j < self.entries@.len() ==> self.entries@[j].name@ != name@,
            },
    {
        let mut i: usize = self.entries.len();
        while i > 0
            invariant
                i <= self.entries@.len(),
                forall|j: int| i <= j < self.entries@.len() ==> self.entries@[j].name@ != name@,
            decreases i,
        {
            i = i - 1;
            if self.entries[i].name == *name {
                return Some(i);
            }
        }
        None
    }

    /// The value bound to `name`, if the scope binds it.
    pub fn get(&self, name: &String) -> (r: Option<&V>)
        ensures
            match r {
                Some(v) => self@.contains_key(name@) && self@[name@] == v@,
                None => !self@.contains_key(name@),
            },
    {
        match self.position(name) {
            Some(k) => {
                proof {
                    lemma_bindings_last(self.entries@, k as int);
                }
                Some(&self.entries[k].value)
            },
            None => {
                proof {
                    lemma_bindings_absent(self.entries@, name@);
                }
                None
            },
        }
    }

    /// Binds `name` to `value`, replacing what it was bound to.
    pub fn insert(&mut self, name: String, value: V)
        ensures
            final(self)@ == old(self)@.insert(name@, value@),
    {
        match self.position(&name) {
            Some(k) => {
                let b = Binding { name, value };
                proof {
                    lemma_bindings_update(self.entries@, k as int, b);
                }
                self.entries.set(k, b);
            },
            None => {
                let b = Binding { name, value };
                assert(self.entries@.push(b).drop_last() == self.entries@);
                self.entries.push(b);
            },
        }
    }
}

/// The models of a stack of scopes, element by element.
pub open spec fn scopes_view<V: View>(s: Seq<Scope<V>>) -> Seq<Map<Seq<char>, V::V>> {
    Seq::new(s.len(), |i: int| s[i]@)
}

} // verus!

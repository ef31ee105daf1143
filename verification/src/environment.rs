//! The session's definitions: a finite map from names to terms.

use vstd::prelude::*;
use crate::lambda::{Lambda, Term};
use crate::text::same_text;

verus! {

/// The definitions of a session.  Each name is bound to at most one term; a
/// name that is bound again takes the new term.
pub struct Environment {
    entries: Vec<(String, Lambda)>,
}

/// Whether the entry at `i` binds `name`.
spec fn binds(entries: Seq<(String, Lambda)>, i: int, name: Seq<char>) -> bool {
    0 <= i < entries.len() && entries[i].0@ == name
}

/// No name occurs twice among the entries.
spec fn distinct(entries: Seq<(String, Lambda)>) -> bool {
    forall|i: int, j: int|
        0 <= i < j < entries.len() ==> (#[trigger] entries[i]).0@ != (#[trigger] entries[j]).0@
}

/// The map from each name among the entries to the term beside it.
spec fn bindings(entries: Seq<(String, Lambda)>) -> Map<Seq<char>, Term> {
    Map::new(
        |name: Seq<char>| exists|i: int| binds(entries, i, name),
        |name: Seq<char>| entries[choose|i: int| binds(entries, i, name)].1@,
    )
}

/// The names bound by the first `n` entries.
spec fn bound_below(entries: Seq<(String, Lambda)>, n: int) -> Set<Seq<char>> {
    Set::new(|name: Seq<char>| exists|i: int| 0 <= i < n && binds(entries, i, name))
}

/// The first `n` entries bind `n` names.
proof fn lemma_bound_below_len(entries: Seq<(String, Lambda)>, n: int)
    requires
        distinct(entries),
        0 <= n <= entries.len(),
    ensures
        bound_below(entries, n).finite(),
        bound_below(entries, n).len() == n,
    decreases n,
{
    if n == 0 {
        assert(bound_below(entries, n) =~= Set::<Seq<char>>::empty());
    } else {
        lemma_bound_below_len(entries, n - 1);
        let name = entries[n - 1].0@;
        assert(binds(entries, n - 1, name));
        assert(bound_below(entries, n) =~= bound_below(entries, n - 1).insert(name));
    }
}

/// The entry that binds a name determines the term the name is bound to.
proof fn lemma_bindings_at(entries: Seq<(String, Lambda)>, i: int)
    requires
        distinct(entries),
        0 <= i < entries.len(),
    ensures
        bindings(entries).contains_key(entries[i].0@),
        bindings(entries)[entries[i].0@] == entries[i].1@,
{
    assert(binds(entries, i, entries[i].0@));
}

/// Writing a new term beside a name that is bound rebinds that name alone.
proof fn lemma_bindings_update(entries: Seq<(String, Lambda)>, i: int, entry: (String, Lambda))
    requires
        distinct(entries),
        binds(entries, i, entry.0@),
    ensures
        distinct(entries.update(i, entry)),
        bindings(entries.update(i, entry)) == bindings(entries).insert(entry.0@, entry.1@),
{
    let after = entries.update(i, entry);
    assert(distinct(after));
    let expected = bindings(entries).insert(entry.0@, entry.1@);
    assert forall|k: Seq<char>| bindings(after).contains_key(k) <==> expected.contains_key(k) by {
        if bindings(after).contains_key(k) {
            let j = choose|j: int| binds(after, j, k);
            assert(binds(entries, j, k));
        }
        if bindings(entries).contains_key(k) {
            let j = choose|j: int| binds(entries, j, k);
            assert(binds(after, j, k));
        }
    }
    assert forall|k: Seq<char>| bindings(after).contains_key(k) implies bindings(after)[k]
        == expected[k] by {
        let j = choose|j: int| binds(after, j, k);
        lemma_bindings_at(after, j);
        if j != i {
            lemma_bindings_at(entries, j);
        }
    }
}

/// Adding an entry for a name that is not bound binds that name alone.
proof fn lemma_bindings_push(entries: Seq<(String, Lambda)>, entry: (String, Lambda))
    requires
        distinct(entries),
        forall|j: int| !binds(entries, j, entry.0@),
    ensures
        distinct(entries.push(entry)),
        bindings(entries.push(entry)) == bindings(entries).insert(entry.0@, entry.1@),
{
    let after = entries.push(entry);
    assert(distinct(after)) by {
        assert forall|a: int, b: int| 0 <= a < b < after.len() implies (#[trigger] after[a]).0@ != (
        #[trigger] after[b]).0@ by {
            if b == entries.len() {
                assert(!binds(entries, a, entry.0@));
            }
        }
    }
    let expected = bindings(entries).insert(entry.0@, entry.1@);
    let last = entries.len() as int;
    assert forall|k: Seq<char>| bindings(after).contains_key(k) <==> expected.contains_key(k) by {
        if bindings(after).contains_key(k) {
            let j = choose|j: int| binds(after, j, k);
            if j < last {
                assert(binds(entries, j, k));
            }
        }
        if bindings(entries).contains_key(k) {
            let j = choose|j: int| binds(entries, j, k);
            assert(binds(after, j, k));
        }
        assert(binds(after, last, entry.0@));
    }
    assert forall|k: Seq<char>| bindings(after).contains_key(k) implies bindings(after)[k]
        == expected[k] by {
        let j = choose|j: int| binds(after, j, k);
        lemma_bindings_at(after, j);
        if j != last {
            lemma_bindings_at(entries, j);
        }
    }
}

impl View for Environment {
    type V = Map<Seq<char>, Term>;

    /// The map from each bound name to its term.
    closed spec fn view(&self) -> Map<Seq<char>, Term> {
        bindings(self.entries@)
    }
}

impl Environment {
    #[verifier::type_invariant]
    spec fn well_formed(&self) -> bool {
        distinct(self.entries@)
    }

    /// An environment without definitions.
    pub fn new() -> (env: Self)
        ensures
            env@ == Map::<Seq<char>, Term>::empty(),
    {
        let env = Environment { entries: Vec::new() };
        env
    }

    /// The number of names that are bound.
    pub fn len(&self) -> (n: usize)
        ensures
            self@.dom().finite(),
            n == self@.len(),
    {
        proof {
            use_type_invariant(self);
            lemma_bound_below_len(self.entries@, self.entries.len() as int);
            assert(bound_below(self.entries@, self.entries.len() as int) =~= self@.dom());
        }
        self.entries.len()
    }

    /// The index of the entry that binds `name`, if there is one.
    fn position(&self, name: &str) -> (found: Option<usize>)
        ensures
            match found {
                Some(i) => binds(self.entries@, i as int, name@),
                None => forall|j: int| !binds(self.entries@, j, name@),
            },
    {
        let mut i: usize = 0;
        while i < self.entries.len()
            invariant
                i <= self.entries.len(),
                forall|j: int| 0 <= j < i ==> !binds(self.entries@, j, name@),
            decreases self.entries.len() - i,
        {
            if same_text(self.entries[i].0.as_str(), name) {
                return Some(i);
            }
            i = i + 1;
        }
        None
    }

    /// The term bound to `name`, if there is one.
    pub fn get(&self, name: &str) -> (found: Option<&Lambda>)
        ensures
            match found {
                Some(value) => self@.contains_key(name@) && value@ == self@[name@],
                None => !self@.contains_key(name@),
            },
    {
        match self.position(name) {
            Some(i) => {
                proof {
                    use_type_invariant(self);
                    lemma_bindings_at(self.entries@, i as int);
                }
                Some(&self.entries[i].1)
            },
            None => None,
        }
    }

    /// Whether `name` is bound.
    pub fn contains(&self, name: &str) -> (bound: bool)
        ensures
            bound == self@.contains_key(name@),
    {
        self.position(name).is_some()
    }

    /// Binds `name` to `value`, in place of the term it was bound to, if any.
    pub fn insert(&mut self, name: String, value: Lambda)
        ensures
            final(self)@ == old(self)@.insert(name@, value@),
    {
        proof {
            use_type_invariant(&*self);
        }
        let found = self.position(name.as_str());
        let mut entries: Vec<(String, Lambda)> = Vec::new();
        core::mem::swap(&mut self.entries, &mut entries);
        match found {
            Some(i) => {
                proof {
                    lemma_bindings_update(entries@, i as int, (name, value));
                }
                entries.set(i, (name, value));
            },
            None => {
                proof {
                    lemma_bindings_push(entries@, (name, value));
                }
                entries.push((name, value));
            },
        }
        core::mem::swap(&mut self.entries, &mut entries);
    }
}

} // verus!

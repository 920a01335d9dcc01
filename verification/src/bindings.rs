//! The binding store: which value is bound to which parameter name.

use vstd::prelude::*;

verus! {

/// Entry `i` of `entries` is the one bound to `name`.
pub open spec fn binds_at<B>(entries: Seq<(String, B)>, name: Seq<char>, i: int) -> bool {
    0 <= i < entries.len() && entries[i].0@ == name
}

/// No name is bound by two entries.
pub open spec fn names_distinct<B>(entries: Seq<(String, B)>) -> bool {
    forall|i: int, j: int|
        0 <= i < entries.len() && 0 <= j < entries.len() && #[trigger] entries[i].0@
            == #[trigger] entries[j].0@ ==> i == j
}

/// The mapping from names to values that a list of entries stands for.
pub open spec fn bound<B>(entries: Seq<(String, B)>) -> Map<Seq<char>, B> {
    Map::new(
        |name: Seq<char>| exists|i: int| binds_at(entries, name, i),
        |name: Seq<char>| entries[choose|i: int| binds_at(entries, name, i)].1,
    )
}

/// A store of bound values, keyed by parameter name.
///
/// Each name is bound at most once; binding a name again replaces its value.
/// The order in which names were bound carries no meaning. The store is a
/// plain list, made for the handful of parameters of a query: binding a name
/// takes time linear in the number of names bound.
#[derive(Debug)]
pub struct Bindings<B> {
    entries: Vec<(String, B)>,
}

impl<B> View for Bindings<B> {
    type V = Map<Seq<char>, B>;

    closed spec fn view(&self) -> Map<Seq<char>, B> {
        bound(self.entries@)
    }
}

impl<B> Bindings<B> {
    #[verifier::type_invariant]
    spec fn well_formed(&self) -> bool {
        names_distinct(self.entries@)
    }

    /// A store in which nothing is bound.
    pub fn new() -> (store: Self)
        ensures
            store@ == Map::<Seq<char>, B>::empty(),
    {
        let store = Bindings { entries: Vec::new() };
        assert(store@ =~= Map::<Seq<char>, B>::empty());
        store
    }

    /// Binds `value` to `name`. A value bound to `name` before is dropped;
    /// every other binding stays as it is.
    pub fn bind(&mut self, name: String, value: B)
        ensures
            final(self)@ == old(self)@.insert(name@, value),
    {
        proof {
            use_type_invariant(&*self);
        }
        // The list is taken out of the store for the change and put back
        // once every name in it is bound once again.
        let mut entries: Vec<(String, B)> = Vec::new();
        core::mem::swap(&mut self.entries, &mut entries);
        let n: usize = entries.len();
        let mut i: usize = 0;
        while i < n && !(entries[i].0 == name)
            invariant
                i <= n,
                n == entries.len(),
                entries == old(self).entries,
                forall|j: int| 0 <= j < i ==> entries@[j].0@ != name@,
            decreases n - i,
        {
            i += 1;
        }
        if i < n {
            entries[i].1 = value;
            proof {
                lemma_rebind(old(self).entries@, entries@, i as int, value);
            }
        } else {
            let ghost entry = (name, value);
            entries.push((name, value));
            proof {
                lemma_bind_fresh(old(self).entries@, entries@, entry);
            }
        }
        self.entries = entries;
    }

    /// Hands the bindings out as a list of name and value pairs, each name
    /// once.
    pub fn into_entries(self) -> (entries: Vec<(String, B)>)
        ensures
            names_distinct(entries@),
            bound(entries@) == self@,
    {
        proof {
            use_type_invariant(&self);
        }
        self.entries
    }
}

/// Replacing the value of the entry that binds a name is an insert under
/// that name.
proof fn lemma_rebind<B>(before: Seq<(String, B)>, after: Seq<(String, B)>, at: int, value: B)
    requires
        names_distinct(before),
        0 <= at < before.len(),
        after == before.update(at, (before[at].0, value)),
    ensures
        names_distinct(after),
        bound(after) == bound(before).insert(before[at].0@, value),
{
    let name = before[at].0@;
    let target = bound(before).insert(name, value);
    assert forall|k: Seq<char>| bound(after).dom().contains(k) <==> target.dom().contains(k) by {
        if bound(after).dom().contains(k) {
            let i = choose|i: int| binds_at(after, k, i);
            assert(binds_at(before, k, i));
        }
        if target.dom().contains(k) {
            let i = if k == name {
                at
            } else {
                choose|i: int| binds_at(before, k, i)
            };
            assert(binds_at(after, k, i));
        }
    }
    assert forall|k: Seq<char>| bound(after).dom().contains(k) implies bound(after)[k]
        == target[k] by {
        let i = choose|i: int| binds_at(after, k, i);
        assert(binds_at(before, k, i));
    }
    assert(bound(after) =~= target);
}

/// Adding an entry under a name that no entry binds yet is an insert under
/// that name.
proof fn lemma_bind_fresh<B>(before: Seq<(String, B)>, after: Seq<(String, B)>, entry: (String, B))
    requires
        names_distinct(before),
        forall|j: int| 0 <= j < before.len() ==> before[j].0@ != entry.0@,
        after == before.push(entry),
    ensures
        names_distinct(after),
        bound(after) == bound(before).insert(entry.0@, entry.1),
{
    let last = before.len() as int;
    let target = bound(before).insert(entry.0@, entry.1);
    assert forall|k: Seq<char>| bound(after).dom().contains(k) <==> target.dom().contains(k) by {
        if bound(after).dom().contains(k) {
            let i = choose|i: int| binds_at(after, k, i);
            if i < last {
                assert(binds_at(before, k, i));
            }
        }
        if target.dom().contains(k) {
            let i = if k == entry.0@ {
                last
            } else {
                choose|i: int| binds_at(before, k, i)
            };
            assert(binds_at(after, k, i));
        }
    }
    assert forall|k: Seq<char>| bound(after).dom().contains(k) implies bound(after)[k]
        == target[k] by {
        let i = choose|i: int| binds_at(after, k, i);
        if i < last {
            assert(binds_at(before, k, i));
        }
    }
    assert(bound(after) =~= target);
}

} // verus!

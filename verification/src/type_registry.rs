//! The registry of asset types of an asset manager: asset types by the name
//! they were registered under.
use vstd::prelude::*;
use std::sync::Arc;

use crate::asset_type::AssetType;

verus! {

/// Index of the first entry named `name`.
pub open spec fn first_match<D: ?Sized, C: ?Sized>(entries: Seq<(String, (Arc<dyn AssetType<D, C>>,))>, name: Seq<char>) -> Option<int>
    decreases entries.len(),
{
    if entries.len() == 0 {
        None
    } else {
        match first_match(entries.drop_last(), name) {
            Some(i) => Some(i),
            None => if entries.last().0@ == name {
                Some(entries.len() - 1)
            } else {
                None
            },
        }
    }
}

/// The asset types of `entries` by name; a name that occurs twice maps to
/// its first entry.
pub open spec fn entries_view<D: ?Sized, C: ?Sized>(entries: Seq<(String, (Arc<dyn AssetType<D, C>>,))>) -> Map<Seq<char>, (Arc<dyn AssetType<D, C>>,)> {
    Map::new(
        |k: Seq<char>| first_match(entries, k) is Some,
        |k: Seq<char>| entries[first_match(entries, k)->0].1,
    )
}

/// `first_match` finds the first entry with the name, and only that.
pub proof fn lemma_first_match<D: ?Sized, C: ?Sized>(entries: Seq<(String, (Arc<dyn AssetType<D, C>>,))>, name: Seq<char>)
    ensures
        match first_match(entries, name) {
            Some(i) => 0 <= i < entries.len() && entries[i].0@ == name && forall|j: int|
                0 <= j < i ==> #[trigger] entries[j].0@ != name,
            None => forall|j: int| 0 <= j < entries.len() ==> #[trigger] entries[j].0@ != name,
        },
    decreases entries.len(),
{
    if entries.len() > 0 {
        lemma_first_match(entries.drop_last(), name);
        assert forall|j: int| 0 <= j < entries.len() - 1 implies entries.drop_last()[j]
            == entries[j] by {}
    }
}

/// The first entry with a name is the one that `lemma_first_match` describes.
pub proof fn lemma_first_match_unique<D: ?Sized, C: ?Sized>(entries: Seq<(String, (Arc<dyn AssetType<D, C>>,))>, name: Seq<char>, i: int)
    requires
        0 <= i < entries.len(),
        entries[i].0@ == name,
        forall|j: int| 0 <= j < i ==> #[trigger] entries[j].0@ != name,
    ensures
        first_match(entries, name) == Some(i),
{
    lemma_first_match(entries, name);
    match first_match(entries, name) {
        Some(k) => {
            if k < i {
                assert(entries[k].0@ != name);
            } else if k > i {
                assert(entries[i].0@ != name);
            }
        },
        None => {
            assert(entries[i].0@ != name);
        },
    }
}

/// Replacing or adding the entry for `key` updates the view at `key` only.
pub proof fn lemma_view_insert<D: ?Sized, C: ?Sized>(
    old_entries: Seq<(String, (Arc<dyn AssetType<D, C>>,))>,
    new_entries: Seq<(String, (Arc<dyn AssetType<D, C>>,))>,
    key: Seq<char>,
    held: (Arc<dyn AssetType<D, C>>,),
)
    requires
        first_match(new_entries, key) matches Some(i) && new_entries[i].1 == held,
        forall|k: Seq<char>|
            k != key ==> #[trigger] first_match(new_entries, k) == first_match(old_entries, k),
        forall|k: Seq<char>|
            k != key && (#[trigger] first_match(old_entries, k) is Some) ==> new_entries[first_match(
                old_entries,
                k,
            )->0] == old_entries[first_match(old_entries, k)->0],
    ensures
        entries_view(new_entries) == entries_view(old_entries).insert(key, held),
{
    let a = entries_view(new_entries);
    let b = entries_view(old_entries).insert(key, held);
    assert forall|k: Seq<char>| a.contains_key(k) == b.contains_key(k) by {
        if k != key {
            assert(first_match(new_entries, k) == first_match(old_entries, k));
        }
    }
    assert forall|k: Seq<char>| a.contains_key(k) implies a[k] == b[k] by {
        if k != key {
            assert(first_match(new_entries, k) == first_match(old_entries, k));
        }
    }
    assert(a =~= b);
}

/// The asset types registered with an asset manager, each held in a 1-tuple
/// (which moves without an unsizing coercion) with the name it was
/// registered under.
///
/// The entries are a list searched by name: looking a name up and inserting
/// under a name are proved against the map `view` exactly, which a map keyed
/// by `String` would not let the contracts state.
#[verifier::reject_recursive_types(D)]
#[verifier::reject_recursive_types(C)]
pub struct TypeRegistry<D: ?Sized, C: ?Sized> {
    entries: Vec<(String, (Arc<dyn AssetType<D, C>>,))>,
}

impl<D: ?Sized, C: ?Sized> TypeRegistry<D, C> {
    /// The registered asset types by name.
    pub closed spec fn view(&self) -> Map<Seq<char>, (Arc<dyn AssetType<D, C>>,)> {
        entries_view(self.entries@)
    }

    /// An empty registry.
    pub fn new() -> (r: Self)
        ensures
            r.view() == Map::<Seq<char>, (Arc<dyn AssetType<D, C>>,)>::empty(),
    {
        let r = TypeRegistry { entries: Vec::new() };
        assert(r.view() =~= Map::<Seq<char>, (Arc<dyn AssetType<D, C>>,)>::empty());
        r
    }

    /// Position of the first entry named `name`.
    fn find(&self, name: &str) -> (r: Option<usize>)
        ensures
            match r {
                Some(i) => i < self.entries@.len() && first_match(self.entries@, name@) == Some(
                    i as int,
                ),
                None => first_match(self.entries@, name@) is None,
            },
    {
        let wanted = String::from_str(name);
        let mut i: usize = 0;
        while i < self.entries.len()
            invariant
                i <= self.entries@.len(),
                wanted@ == name@,
                forall|j: int| 0 <= j < i ==> #[trigger] self.entries@[j].0@ != name@,
            decreases self.entries@.len() - i,
        {
            if self.entries[i].0 == wanted {
                proof {
                    lemma_first_match_unique(self.entries@, name@, i as int);
                }
                return Some(i);
            }
            i = i + 1;
        }
        proof {
            lemma_first_match(self.entries@, name@);
            if first_match(self.entries@, name@) is Some {
                let k = first_match(self.entries@, name@)->0;
                assert(self.entries@[k].0@ != name@);
            }
        }
        None
    }

    /// The asset type registered under `name`.
    pub fn get(&self, name: &str) -> (r: Option<Arc<dyn AssetType<D, C>>>)
        ensures
            self.view().contains_key(name@) ==> (r matches Some(t) && t == self.view()[name@].0),
            !self.view().contains_key(name@) ==> r is None,
    {
        match self.find(name) {
            Some(i) => {
                let t = Arc::clone(&self.entries[i].1.0);
                let r = Some(t);
                r
            },
            None => None,
        }
    }

    /// Registers an asset type under `name`, replacing the asset type
    /// registered under that name before.
    pub fn insert(&mut self, name: String, held: (Arc<dyn AssetType<D, C>>,))
        ensures
            final(self).view() == old(self).view().insert(name@, held),
    {
        let ghost key = name@;
        let found = self.find(name.as_str());
        let entry = (name, held);
        let ghost old_entries = self.entries@;
        match found {
            Some(i) => {
                self.entries.set(i, entry);
                proof {
                    let new_entries = self.entries@;
                    lemma_first_match(old_entries, key);
                    lemma_first_match_unique(new_entries, key, i as int);
                    assert forall|k: Seq<char>| k != key implies first_match(new_entries, k)
                        == first_match(old_entries, k) by {
                        lemma_first_match(old_entries, k);
                        match first_match(old_entries, k) {
                            Some(m) => lemma_first_match_unique(new_entries, k, m),
                            None => {
                                lemma_first_match(new_entries, k);
                                if first_match(new_entries, k) is Some {
                                    let m = first_match(new_entries, k)->0;
                                    if m != i as int {
                                        assert(new_entries[m] == old_entries[m]);
                                    }
                                }
                            },
                        }
                    }
                    assert forall|k: Seq<char>|
                        k != key && (#[trigger] first_match(old_entries, k) is Some) implies new_entries[first_match(
                        old_entries,
                        k,
                    )->0] == old_entries[first_match(old_entries, k)->0] by {
                        lemma_first_match(old_entries, k);
                    }
                    lemma_view_insert(old_entries, new_entries, key, held);
                }
            },
            None => {
                self.entries.push(entry);
                proof {
                    let new_entries = self.entries@;
                    let n = old_entries.len() as int;
                    lemma_first_match(old_entries, key);
                    assert forall|j: int| 0 <= j < n implies #[trigger] new_entries[j].0@ != key by {
                        assert(new_entries[j] == old_entries[j]);
                    }
                    lemma_first_match_unique(new_entries, key, n);
                    assert(new_entries.drop_last() =~= old_entries);
                    assert forall|k: Seq<char>| k != key implies first_match(new_entries, k)
                        == first_match(old_entries, k) by {}
                    assert forall|k: Seq<char>|
                        k != key && (#[trigger] first_match(old_entries, k) is Some) implies new_entries[first_match(
                        old_entries,
                        k,
                    )->0] == old_entries[first_match(old_entries, k)->0] by {
                        lemma_first_match(old_entries, k);
                    }
                    lemma_view_insert(old_entries, new_entries, key, held);
                }
            },
        }
    }
}

} // verus!

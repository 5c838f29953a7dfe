//! Sets of event keys.
use vstd::prelude::*;

use crate::text::{list_contains, str_eq, views};

verus! {

/// A set of strings.
pub struct KeySet {
    keys: Vec<String>,
}

impl View for KeySet {
    type V = Set<Seq<char>>;

    closed spec fn view(&self) -> Set<Seq<char>> {
        views(self.keys@).to_set()
    }
}

impl KeySet {
    /// The empty set.
    pub fn new() -> (set: KeySet)
        ensures
            set@ == Set::<Seq<char>>::empty(),
    {
        let set = KeySet { keys: Vec::new() };
        assert(set@ =~= Set::<Seq<char>>::empty());
        set
    }

    /// The set of the strings of a list.
    pub fn from_list(list: Vec<String>) -> (set: KeySet)
        ensures
            set@ == views(list@).to_set(),
    {
        KeySet { keys: list }
    }

    /// Whether a string is in the set.
    pub fn contains(&self, key: &str) -> (found: bool)
        ensures
            found == self@.contains(key@),
    {
        list_contains(&self.keys, key)
    }

    /// Puts a string into the set and says whether it is new there.
    pub fn insert(&mut self, key: String) -> (new: bool)
        ensures
            new == !old(self)@.contains(key@),
            final(self)@ == old(self)@.insert(key@),
    {
        let ghost before = views(self.keys@);
        if self.contains(key.as_str()) {
            assert(self@ =~= old(self)@.insert(key@));
            return false;
        }
        self.keys.push(key);
        proof {
            assert(views(self.keys@) =~= before.push(key@));
            assert forall|k: Seq<char>|
                self@.contains(k) == #[trigger] old(self)@.insert(key@).contains(k) by {
                if before.contains(k) {
                    let i = choose|i: int| 0 <= i < before.len() && before[i] == k;
                    assert(before.push(key@)[i] == k);
                }
                if k == key@ {
                    assert(before.push(key@)[before.len() as int] == k);
                }
            }
            assert(self@ =~= old(self)@.insert(key@));
        }
        true
    }

    /// Takes a string out of the set.
    pub fn remove(&mut self, key: &str)
        ensures
            final(self)@ == old(self)@.remove(key@),
    {
        let ghost all = views(self.keys@);
        let mut kept: Vec<String> = Vec::new();
        let mut i: usize = 0;
        while i < self.keys.len()
            invariant
                i <= self.keys.len(),
                all == views(self.keys@),
                *self == *old(self),
                forall|j: int| 0 <= j < kept.len() ==> (#[trigger] kept@[j])@ != key@ && all.contains(
                    kept@[j]@,
                ),
                forall|j: int|
                    0 <= j < i && #[trigger] all[j] != key@ ==> views(kept@).contains(all[j]),
            decreases self.keys.len() - i,
        {
            assert(all[i as int] == self.keys@[i as int]@);
            let ghost before = views(kept@);
            if !str_eq(self.keys[i].as_str(), key) {
                kept.push(self.keys[i].clone());
                assert(views(kept@) =~= before.push(all[i as int]));
                assert(views(kept@)[before.len() as int] == all[i as int]);
                assert forall|j: int| 0 <= j < i && #[trigger] all[j] != key@ implies views(
                    kept@,
                ).contains(all[j]) by {
                    let k = choose|k: int| 0 <= k < before.len() && before[k] == all[j];
                    assert(views(kept@)[k] == all[j]);
                }
            }
            i += 1;
        }
        self.keys = kept;
        proof {
            assert forall|k: Seq<char>|
                self@.contains(k) == #[trigger] old(self)@.remove(key@).contains(k) by {
                if views(kept@).contains(k) {
                    let j = choose|j: int| 0 <= j < views(kept@).len() && views(kept@)[j] == k;
                    assert(kept@[j]@ == k);
                }
                if all.contains(k) && k != key@ {
                    let j = choose|j: int| 0 <= j < all.len() && all[j] == k;
                    assert(views(kept@).contains(all[j]));
                }
            }
            assert(self@ =~= old(self)@.remove(key@));
        }
    }

    /// Whether the set holds nothing.
    pub fn is_empty(&self) -> (empty: bool)
        ensures
            empty == (self@ == Set::<Seq<char>>::empty()),
    {
        let empty = self.keys.len() == 0;
        proof {
            if empty {
                assert(self@ =~= Set::<Seq<char>>::empty());
            } else {
                assert(views(self.keys@)[0] == self.keys@[0]@);
                assert(self@.contains(self.keys@[0]@));
            }
        }
        empty
    }
}

/// A string that is put into a set is in it then, the others stay, and it is new
/// exactly if it was not there.
pub proof fn law_inserted_key_is_contained(
    set: &mut KeySet,
    key: String,
    new: bool,
    other: &str,
    before: bool,
    after: bool,
)
    requires
        call_ensures(KeySet::contains, (&*old(set), other), before),
        call_ensures(KeySet::insert, (set, key), new),
        call_ensures(KeySet::contains, (&*final(set), other), after),
    ensures
        after <==> before || other@ == key@,
        other@ == key@ ==> new == !before,
{
}

/// A string that is taken out of a set is not in it any more, and the others
/// stay.
pub proof fn law_removed_key_is_gone(
    set: &mut KeySet,
    key: &str,
    other: &str,
    before: bool,
    after: bool,
)
    requires
        call_ensures(KeySet::contains, (&*old(set), other), before),
        call_ensures(KeySet::remove, (set, key), ()),
        call_ensures(KeySet::contains, (&*final(set), other), after),
    ensures
        after <==> before && other@ != key@,
{
}

/// A set that is made of a list holds the strings of the list, and no others.
pub proof fn law_set_of_a_list(list: Vec<String>, set: KeySet, key: &str, found: bool)
    requires
        call_ensures(KeySet::from_list, (list,), set),
        call_ensures(KeySet::contains, (&set, key), found),
    ensures
        found <==> exists|i: int| 0 <= i < list@.len() && (#[trigger] list@[i])@ == key@,
{
    let all = views(list@);
    if found {
        let i = choose|i: int| 0 <= i < all.len() && all[i] == key@;
        assert(list@[i]@ == key@);
    }
    if exists|i: int| 0 <= i < list@.len() && (#[trigger] list@[i])@ == key@ {
        let i = choose|i: int| 0 <= i < list@.len() && (#[trigger] list@[i])@ == key@;
        assert(all[i] == key@);
    }
}

} // verus!

//! Finding, in a list, the first item that goes by a given identifier.

use vstd::prelude::*;

verus! {

/// A value that may go by a textual identifier.
pub trait Keyed {
    /// The identifier of the value, if it has one.
    spec fn key(&self) -> Option<Seq<char>>;

    /// Whether the value goes by the identifier `id`.
    fn has_key(&self, id: &String) -> (hit: bool)
        ensures
            hit == (self.key() == Some(id@)),
    ;
}

/// `i` is the first place of `keys` that holds the identifier `id`.
pub open spec fn is_first_key(keys: Seq<Option<Seq<char>>>, id: Seq<char>, i: int) -> bool {
    &&& 0 <= i < keys.len()
    &&& keys[i] == Some(id)
    &&& forall|j: int| 0 <= j < i ==> #[trigger] keys[j] != Some(id)
}

/// The first place of `keys` that holds the identifier `id`, if there is one.
pub open spec fn position_of_key(keys: Seq<Option<Seq<char>>>, id: Seq<char>) -> Option<int> {
    if exists|i: int| is_first_key(keys, id, i) {
        Some(choose|i: int| is_first_key(keys, id, i))
    } else {
        None
    }
}

/// The identifiers of the items of a list, place by place.
pub open spec fn keys_of<T: Keyed>(items: Seq<T>) -> Seq<Option<Seq<char>>> {
    items.map_values(|item: T| item.key())
}

/// The place of the first item of `items` that goes by `id`, if there is one.
pub open spec fn position_of<T: Keyed>(items: Seq<T>, id: Seq<char>) -> Option<int> {
    position_of_key(keys_of(items), id)
}

/// There is at most one first place: a place that is first is the one that
/// `position_of_key` names.
pub proof fn lemma_position_of_first(keys: Seq<Option<Seq<char>>>, id: Seq<char>, i: int)
    requires
        is_first_key(keys, id, i),
    ensures
        position_of_key(keys, id) == Some(i),
{
    let c = choose|c: int| is_first_key(keys, id, c);
    assert(is_first_key(keys, id, c));
    if c < i {
        assert(keys[c] != Some(id));
    } else if i < c {
        assert(keys[i] != Some(id));
    }
}

/// What `position_of_key` names: the first place that holds `id`, or no
/// place where none holds it.
pub proof fn lemma_position_of_key(keys: Seq<Option<Seq<char>>>, id: Seq<char>)
    ensures
        match position_of_key(keys, id) {
            Some(p) => is_first_key(keys, id, p),
            None => forall|j: int| 0 <= j < keys.len() ==> #[trigger] keys[j] != Some(id),
        },
{
    if position_of_key(keys, id) is None {
        assert forall|j: int| 0 <= j < keys.len() implies #[trigger] keys[j] != Some(id) by {
            if keys[j] == Some(id) {
                lemma_first_exists(keys, id, j);
            }
        }
    } else {
        let c = choose|c: int| is_first_key(keys, id, c);
        assert(is_first_key(keys, id, c));
    }
}

/// At or below any place that holds `id` there is a first one.
pub proof fn lemma_first_exists(keys: Seq<Option<Seq<char>>>, id: Seq<char>, j: int)
    requires
        0 <= j < keys.len(),
        keys[j] == Some(id),
    ensures
        exists|i: int| is_first_key(keys, id, i) && i <= j,
    decreases j,
{
    if exists|k: int| 0 <= k < j && #[trigger] keys[k] == Some(id) {
        let k = choose|k: int| 0 <= k < j && #[trigger] keys[k] == Some(id);
        lemma_first_exists(keys, id, k);
    } else {
        assert(is_first_key(keys, id, j));
    }
}

/// Finds the first item of `items` that goes by `id`.
pub fn find_keyed<T: Keyed>(items: &Vec<T>, id: &String) -> (found: Option<usize>)
    ensures
        match found {
            Some(i) => position_of(items@, id@) == Some(i as int) && i < items@.len() && items@[i as int].key()
                == Some(id@),
            None => position_of(items@, id@) is None,
        },
{
    let mut i: usize = 0;
    while i < items.len()
        invariant
            i <= items.len(),
            forall|j: int| 0 <= j < i ==> #[trigger] keys_of(items@)[j] != Some(id@),
        decreases items.len() - i,
    {
        if items[i].has_key(id) {
            proof {
                lemma_position_of_first(keys_of(items@), id@, i as int);
            }
            return Some(i);
        }
        i += 1;
    }
    proof {
        lemma_position_of_key(keys_of(items@), id@);
        if position_of(items@, id@) is Some {
            let p = position_of(items@, id@).unwrap();
            assert(keys_of(items@)[p] != Some(id@));
        }
    }
    None
}

} // verus!

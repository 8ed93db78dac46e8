//! A map from trigger text to a count, kept in ahash's `AHashMap`.

use vstd::prelude::*;

verus! {

#[verifier::external_type_specification]
#[verifier::external_body]
#[verifier::reject_recursive_types(K)]
#[verifier::reject_recursive_types(V)]
#[verifier::reject_recursive_types(S)]
pub struct ExAHashMap<K, V, S>(ahash::AHashMap<K, V, S>);

#[verifier::external_type_specification]
#[verifier::external_body]
pub struct ExRandomState(ahash::RandomState);

/// The entries of a map, keyed by the text of each key.
pub uninterp spec fn entries_of(m: ahash::AHashMap<String, usize>) -> Map<Seq<char>, usize>;

/// Views of the elements of `v`, as a set.
pub open spec fn text_set(v: Seq<String>) -> Set<Seq<char>> {
    Set::new(|t: Seq<char>| exists|i: int| 0 <= i < v.len() && v[i]@ == t)
}

/// No two elements of `v` have the same text.
pub open spec fn distinct_texts(v: Seq<String>) -> bool {
    forall|i: int, j: int| 0 <= i < v.len() && 0 <= j < v.len() && i != j ==> v[i]@ != v[j]@
}

/// Taking one more element of `v` adds its text to the set of texts.
pub proof fn lemma_text_set_take_step(v: Seq<String>, i: int)
    requires
        0 <= i < v.len(),
    ensures
        text_set(v.take(i + 1)) == text_set(v.take(i)).insert(v[i]@),
{
    let before = text_set(v.take(i));
    let after = text_set(v.take(i + 1));
    assert(v.take(i + 1)[i]@ == v[i]@);
    assert forall|t: Seq<char>| after.contains(t) implies #[trigger] before.insert(v[i]@).contains(t) by {
        let j = choose|j: int| 0 <= j < i + 1 && #[trigger] v.take(i + 1)[j]@ == t;
        if j < i {
            assert(v.take(i)[j]@ == t);
        }
    }
    assert forall|t: Seq<char>| #[trigger] before.contains(t) implies after.contains(t) by {
        let j = choose|j: int| 0 <= j < i && #[trigger] v.take(i)[j]@ == t;
        assert(v.take(i + 1)[j]@ == t);
    }
    assert(after =~= before.insert(v[i]@));
}

/// Relies on `AHashMap::new`: the new map is empty.
#[verifier::external_body]
pub(crate) fn map_new() -> (r: ahash::AHashMap<String, usize>)
    ensures
        entries_of(r).dom().is_empty(),
{
    ahash::AHashMap::new()
}

/// Relies on `AHashMap::insert`: the key is bound to the value, other keys keep theirs.
#[verifier::external_body]
pub(crate) fn map_insert(m: &mut ahash::AHashMap<String, usize>, k: String, v: usize)
    ensures
        entries_of(*final(m)) == entries_of(*old(m)).insert(k@, v),
{
    m.insert(k, v);
}

/// Relies on `AHashMap::get`: the value bound to the key, if any.
#[verifier::external_body]
pub(crate) fn map_get(m: &ahash::AHashMap<String, usize>, k: &str) -> (r: Option<usize>)
    ensures
        entries_of(*m).contains_key(k@) ==> r == Some(entries_of(*m)[k@]),
        !entries_of(*m).contains_key(k@) ==> r is None,
{
    m.get(k).copied()
}

/// Relies on `HashMap::keys` (reached through `AHashMap`'s `Deref`): every key
/// once, in an order that depends on the map's random hasher.
#[verifier::external_body]
pub(crate) fn map_keys(m: &ahash::AHashMap<String, usize>) -> (r: Vec<String>)
    ensures
        distinct_texts(r@),
        text_set(r@) == entries_of(*m).dom(),
{
    m.keys().cloned().collect()
}

} // verus!

use vstd::prelude::*;
use indexmap::IndexMap;

verus! {

/// The first position from `from` on at which `entries` holds `key`, or the
/// length of `entries` where none does.
pub open spec fn position_from<V>(entries: Seq<(Seq<char>, V)>, key: Seq<char>, from: int) -> int
    decreases entries.len() - from,
{
    if from < 0 || from >= entries.len() {
        entries.len() as int
    } else if entries[from].0 == key {
        from
    } else {
        position_from(entries, key, from + 1)
    }
}

/// An ordered list of keyed entries after `key` is set to `value`: an entry
/// with that key keeps its place and takes the value, and where there is none
/// the new entry comes last.
pub open spec fn ordered_insert<V>(entries: Seq<(Seq<char>, V)>, key: Seq<char>, value: V) -> Seq<
    (Seq<char>, V),
> {
    let at = position_from(entries, key, 0);
    if at < entries.len() {
        entries.update(at, (key, value))
    } else {
        entries.push((key, value))
    }
}

/// Where `key` is found, or not found, depends on the keys alone.
pub proof fn lemma_position_by_keys<A, B>(
    left: Seq<(Seq<char>, A)>,
    right: Seq<(Seq<char>, B)>,
    key: Seq<char>,
    from: int,
)
    requires
        left.len() == right.len(),
        forall|i: int| 0 <= i < left.len() ==> left[i].0 == right[i].0,
    ensures
        position_from(left, key, from) == position_from(right, key, from),
        0 <= from <= left.len() ==> from <= position_from(left, key, from) <= left.len(),
    decreases left.len() - from,
{
    if 0 <= from < left.len() && left[from].0 != key {
        lemma_position_by_keys(left, right, key, from + 1);
    }
}

/// `indexmap::IndexMap`, a hash map that keeps its entries in the order in
/// which their keys were first inserted.
#[verifier::external_type_specification]
#[verifier::external_body]
#[verifier::reject_recursive_types(K)]
#[verifier::reject_recursive_types(V)]
#[verifier::reject_recursive_types(S)]
pub struct ExIndexMap<K, V, S>(IndexMap<K, V, S>);

/// The entries of an index from field path to slot number, in the order in
/// which the index holds them.
pub uninterp spec fn slots(index: IndexMap<String, usize>) -> Seq<(Seq<char>, usize)>;

/// `IndexMap::new`: a map without entries.
#[verifier::external_body]
pub(crate) fn slots_new() -> (index: IndexMap<String, usize>)
    ensures
        slots(index) == Seq::<(Seq<char>, usize)>::empty(),
{
    IndexMap::new()
}

/// `IndexMap::insert`: an equal key that the map holds keeps its place in the
/// order and takes the new value; a key that it lacks is put last with the
/// value.
#[verifier::external_body]
pub(crate) fn slots_insert(index: &mut IndexMap<String, usize>, key: String, slot: usize)
    ensures
        slots(*final(index)) == ordered_insert(slots(*old(index)), key@, slot),
{
    index.insert(key, slot);
}

/// `IndexMap::iter`: the entries in the map's order, each key copied.
#[verifier::external_body]
pub(crate) fn slots_list(index: &IndexMap<String, usize>) -> (list: Vec<(String, usize)>)
    ensures
        list@.len() == slots(*index).len(),
        forall|i: int|
            0 <= i < list@.len() ==> (#[trigger] list@[i]).0@ == slots(*index)[i].0 && list@[i].1
                == slots(*index)[i].1,
{
    index.iter().map(|(key, slot)| (key.clone(), *slot)).collect()
}

} // verus!

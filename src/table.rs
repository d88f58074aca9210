use vstd::prelude::*;
use radix_trie::Trie;

verus! {

#[verifier::external_type_specification]
#[verifier::external_body]
#[verifier::reject_recursive_types(K)]
#[verifier::reject_recursive_types(V)]
pub struct ExTrie<K, V>(Trie<K, V>);

/// What a trie of static routes holds: each key's characters mapped to its
/// value.
pub uninterp spec fn trie_entries(t: Trie<String, usize>) -> Map<Seq<char>, usize>;

/// Relies on `radix_trie::Trie::new`: the trie it makes holds no key.
#[verifier::external_body]
pub(crate) fn trie_new() -> (r: Trie<String, usize>)
    ensures
        forall|k: Seq<char>| !#[trigger] trie_entries(r).contains_key(k),
{
    Trie::new()
}

/// Relies on `radix_trie::Trie::insert`: it sets the key's value and
/// returns the value the key had before, if any. A `String` key is stored by
/// its bytes, so distinct strings stay distinct keys.
#[verifier::external_body]
pub(crate) fn trie_insert(t: &mut Trie<String, usize>, key: String, value: usize) -> (r:
    Option<usize>)
    ensures
        trie_entries(*final(t)) == trie_entries(*old(t)).insert(key@, value),
        r == (if trie_entries(*old(t)).contains_key(key@) {
            Some(trie_entries(*old(t))[key@])
        } else {
            None
        }),
{
    t.insert(key, value)
}

/// Relies on `radix_trie::Trie::get`: the value stored under exactly this
/// key, if any.
#[verifier::external_body]
pub(crate) fn trie_get(t: &Trie<String, usize>, key: &str) -> (r: Option<usize>)
    ensures
        r == (if trie_entries(*t).contains_key(key@) {
            Some(trie_entries(*t)[key@])
        } else {
            None
        }),
{
    t.get(key).copied()
}

} // verus!

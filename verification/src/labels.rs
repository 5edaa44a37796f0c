//! Capabilities and labels: maps from texts to texts, read and written by
//! the text of their keys.

use std::collections::HashMap;
use vstd::prelude::*;

verus! {

/// The text stored under the key whose text is `key`, if any.
pub open spec fn label_value(m: Map<String, String>, key: Seq<char>) -> Option<Seq<char>> {
    if exists|k: String| m.dom().contains(k) && k@ == key {
        Some(m[choose|k: String| m.dom().contains(k) && k@ == key]@)
    } else {
        None
    }
}

/// `HashMap::get`: the value stored under the key with the text of `key`.
#[verifier::external_body]
pub(crate) fn label_lookup(m: &HashMap<String, String>, key: &str) -> (r: Option<String>)
    ensures
        match r {
            Some(v) => label_value(m@, key@) == Some(v@),
            None => label_value(m@, key@) is None,
        },
{
    m.get(key).cloned()
}

/// `HashMap::insert`: afterwards the key with the text of `key` holds
/// `value`; what other texts hold is unchanged.
#[verifier::external_body]
pub(crate) fn label_insert(m: &mut HashMap<String, String>, key: String, value: String)
    ensures
        label_value(final(m)@, key@) == Some(value@),
        forall|t: Seq<char>| t != key@ ==> label_value(final(m)@, t) == label_value(old(m)@, t),
{
    m.insert(key, value);
}

/// `HashMap::keys`: the keys, each once, in the map's own order.
#[verifier::external_body]
pub(crate) fn label_keys(m: &HashMap<String, String>) -> (r: Vec<String>)
    ensures
        forall|t: Seq<char>| (exists|i: int| 0 <= i < r@.len() && r@[i]@ == t) <==> #[trigger] label_value(m@, t) is Some,
        forall|i: int, j: int| 0 <= i < j < r@.len() ==> r@[i]@ != r@[j]@,
{
    m.keys().cloned().collect()
}

} // verus!

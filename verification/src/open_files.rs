//! The set of file names that are currently open, held in a
//! `dashmap::DashSet`.

use dashmap::DashSet;
use vstd::prelude::*;

verus! {

#[verifier::external_type_specification]
#[verifier::external_body]
#[verifier::reject_recursive_types(K)]
#[verifier::reject_recursive_types(S)]
pub struct ExDashSet<K, S>(dashmap::DashSet<K, S>);

/// The names that an open-file set holds.
pub uninterp spec fn open_names(set: DashSet<String>) -> Set<Seq<char>>;

/// Calls `DashSet::contains`: whether `name` is in the set.
#[verifier::external_body]
pub(crate) fn open_set_contains(set: &DashSet<String>, name: &String) -> (found: bool)
    ensures
        found == open_names(*set).contains(name@),
{
    set.contains(name)
}

/// Calls `DashSet::insert`: after the call the set holds `name` as well;
/// the result says whether it was absent before.
#[verifier::external_body]
pub(crate) fn open_set_insert(set: &mut DashSet<String>, name: String) -> (fresh: bool)
    ensures
        open_names(*final(set)) == open_names(*old(set)).insert(name@),
        fresh == !open_names(*old(set)).contains(name@),
{
    set.insert(name)
}

/// Calls `DashSet::remove`: after the call the set no longer holds `name`;
/// the result is the removed key, present exactly when `name` was held.
#[verifier::external_body]
pub(crate) fn open_set_remove(set: &mut DashSet<String>, name: &String) -> (removed: Option<String>)
    ensures
        open_names(*final(set)) == open_names(*old(set)).remove(name@),
        removed is Some == open_names(*old(set)).contains(name@),
        removed matches Some(k) ==> k@ == name@,
{
    set.remove(name)
}

} // verus!

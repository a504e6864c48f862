use vstd::prelude::*;

verus! {

#[verifier::external_type_specification]
#[verifier::external_body]
#[verifier::reject_recursive_types(T)]
#[verifier::reject_recursive_types(S)]
pub struct ExIndexSet<T, S>(indexmap::IndexSet<T, S>);

/// The members of an insertion-ordered set, oldest first.
pub uninterp spec fn index_set_items(set: indexmap::IndexSet<u32>) -> Seq<u32>;

/// `indexmap::IndexSet::new`: a set with no members.
#[verifier::external_body]
pub(crate) fn index_set_new() -> (r: indexmap::IndexSet<u32>)
    ensures
        index_set_items(r) == Seq::<u32>::empty(),
{
    indexmap::IndexSet::new()
}

/// `indexmap::IndexSet::insert`: a value not in the set is added last in order and `true`
/// answered; a value already in it leaves the set as it was and `false` is answered.
#[verifier::external_body]
pub(crate) fn index_set_insert(set: &mut indexmap::IndexSet<u32>, value: u32) -> (r: bool)
    ensures
        r == !index_set_items(*old(set)).contains(value),
        index_set_items(*final(set)) == if r {
            index_set_items(*old(set)).push(value)
        } else {
            index_set_items(*old(set))
        },
{
    set.insert(value)
}

/// `indexmap::IndexSet::shift_remove`: the value is taken out, the members after it keep
/// their order; answers whether it was there.
#[verifier::external_body]
pub(crate) fn index_set_shift_remove(set: &mut indexmap::IndexSet<u32>, value: u32) -> (r: bool)
    ensures
        r == index_set_items(*old(set)).contains(value),
        index_set_items(*final(set)) == index_set_items(*old(set)).filter(|x: u32| x != value),
{
    set.shift_remove(&value)
}

/// `indexmap::IndexSet::last`: the newest member, if any.
#[verifier::external_body]
pub(crate) fn index_set_last(set: &indexmap::IndexSet<u32>) -> (r: Option<u32>)
    ensures
        r == if index_set_items(*set).len() > 0 { Some(index_set_items(*set).last()) } else { None },
{
    set.last().copied()
}

} // verus!

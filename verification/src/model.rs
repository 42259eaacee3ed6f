//! Models of values: what two values have in common when one is a copy of the other.
use vstd::prelude::*;

verus! {

/// A value that can be copied without loss: the copy has the same model.
pub trait Duplicate: View + Sized {
    fn duplicate(&self) -> (copy: Self)
        ensures
            copy@ == self@,
    ;
}

/// The models of the items of a sequence, in order.
pub open spec fn models<T: View>(items: Seq<T>) -> Seq<T::V> {
    Seq::new(items.len(), |i: int| items[i]@)
}

/// There is one model for each item, at the same place.
pub proof fn lemma_models<T: View>(items: Seq<T>)
    ensures
        models(items).len() == items.len(),
        forall|i: int| 0 <= i < items.len() ==> #[trigger] models(items)[i] == items[i]@,
{
}

/// The model of an optional item.
pub open spec fn optional_model<T: View>(item: Option<T>) -> Option<T::V> {
    match item {
        Some(value) => Some(value@),
        None => None,
    }
}

/// A copy of each item, in order.
pub fn duplicate_all<T: Duplicate>(items: &Vec<T>) -> (copies: Vec<T>)
    ensures
        models(copies@) == models(items@),
{
    let mut copies: Vec<T> = Vec::new();
    let mut i: usize = 0;
    while i < items.len()
        invariant
            i <= items.len(),
            copies@.len() == i,
            forall|j: int| 0 <= j < i ==> #[trigger] copies@[j]@ == items@[j]@,
        decreases items.len() - i,
    {
        copies.push(items[i].duplicate());
        i += 1;
    }
    assert(models(copies@) =~= models(items@));
    copies
}

/// A copy of an optional item.
pub fn duplicate_optional<T: Duplicate>(item: &Option<T>) -> (copy: Option<T>)
    ensures
        optional_model(copy) == optional_model(*item),
{
    match item {
        Some(value) => Some(value.duplicate()),
        None => None,
    }
}

} // verus!

//! Stable sorting by a strict order on models.
use vstd::prelude::*;

use crate::model;

verus! {

/// A value with a place in a listing. Two values that neither go before the
/// other share their place.
pub trait Ranked: View + Sized {
    /// Whether `left` is listed strictly before `right`.
    spec fn ranks_before(left: Self::V, right: Self::V) -> bool;

    /// Of two values at most one is listed before the other.
    proof fn rank_asymmetric(a: Self::V, b: Self::V)
        requires
            Self::ranks_before(a, b),
        ensures
            !Self::ranks_before(b, a),
    ;

    /// What is not listed after a value stays so when that value is not listed
    /// after a third.
    proof fn rank_transitive(a: Self::V, b: Self::V, c: Self::V)
        requires
            !Self::ranks_before(b, a),
            !Self::ranks_before(c, b),
        ensures
            !Self::ranks_before(c, a),
    ;

    fn is_before(&self, other: &Self) -> (before: bool)
        ensures
            before == Self::ranks_before(self@, other@),
    ;
}

/// `sorted` with `value` put behind the last item that it does not go before.
pub open spec fn inserted<R: Ranked>(sorted: Seq<R::V>, value: R::V) -> Seq<R::V>
    decreases sorted.len(),
{
    if sorted.len() == 0 || !R::ranks_before(value, sorted.last()) {
        sorted.push(value)
    } else {
        inserted::<R>(sorted.drop_last(), value).push(sorted.last())
    }
}

/// `items` in listing order; items that share their place keep their order.
pub open spec fn ranked<R: Ranked>(items: Seq<R::V>) -> Seq<R::V>
    decreases items.len(),
{
    if items.len() == 0 {
        items
    } else {
        inserted::<R>(ranked::<R>(items.drop_last()), items.last())
    }
}

/// Whether no item goes before one that stands to its left.
pub open spec fn in_order<R: Ranked>(items: Seq<R::V>) -> bool {
    forall|i: int, j: int|
        0 <= i < j < items.len() ==> !R::ranks_before(#[trigger] items[j], #[trigger] items[i])
}

/// Whether two values share their place in a listing.
pub open spec fn same_rank<R: Ranked>(left: R::V, right: R::V) -> bool {
    !R::ranks_before(left, right) && !R::ranks_before(right, left)
}

/// The items that share their place with `value`, in order.
pub open spec fn peers<R: Ranked>(items: Seq<R::V>, value: R::V) -> Seq<R::V> {
    items.filter(|item: R::V| same_rank::<R>(item, value))
}

proof fn lemma_inserted<R: Ranked>(sorted: Seq<R::V>, value: R::V)
    requires
        in_order::<R>(sorted),
    ensures
        in_order::<R>(inserted::<R>(sorted, value)),
        inserted::<R>(sorted, value).len() == sorted.len() + 1,
        forall|item: R::V| #[trigger]
            inserted::<R>(sorted, value).contains(item) <==> (sorted.contains(item) || item == value),
    decreases sorted.len(),
{
    let result = inserted::<R>(sorted, value);
    if sorted.len() == 0 || !R::ranks_before(value, sorted.last()) {
        assert forall|i: int, j: int| 0 <= i < j < result.len() implies !R::ranks_before(
            #[trigger] result[j],
            #[trigger] result[i],
        ) by {
            if j == sorted.len() {
                if i == sorted.len() - 1 {
                } else {
                    assert(!R::ranks_before(sorted.last(), sorted[i]));
                    R::rank_transitive(sorted[i], sorted.last(), value);
                }
            }
        }
        assert(result[sorted.len() as int] == value);
        assert forall|item: R::V| #[trigger] result.contains(item) <==> (sorted.contains(item) || item
            == value) by {
            if sorted.contains(item) {
                let i = choose|i: int| 0 <= i < sorted.len() && sorted[i] == item;
                assert(result[i] == item);
            }
        }
    } else {
        let rest = sorted.drop_last();
        let smaller = inserted::<R>(rest, value);
        lemma_inserted::<R>(rest, value);
        assert forall|i: int| 0 <= i < smaller.len() implies !R::ranks_before(
            sorted.last(),
            #[trigger] smaller[i],
        ) by {
            assert(smaller.contains(smaller[i]));
            if smaller[i] == value {
                R::rank_asymmetric(value, sorted.last());
            } else {
                let k = choose|k: int| 0 <= k < rest.len() && rest[k] == smaller[i];
                assert(sorted[k] == smaller[i]);
            }
        }
        assert(result[smaller.len() as int] == sorted.last());
        assert forall|item: R::V| #[trigger] result.contains(item) <==> (sorted.contains(item) || item
            == value) by {
            if result.contains(item) {
                let i = choose|i: int| 0 <= i < result.len() && result[i] == item;
                if i < smaller.len() {
                    assert(smaller.contains(item));
                    if rest.contains(item) {
                        let k = choose|k: int| 0 <= k < rest.len() && rest[k] == item;
                        assert(sorted[k] == item);
                    }
                } else {
                    assert(sorted[sorted.len() - 1] == item);
                }
            }
            if sorted.contains(item) {
                let k = choose|k: int| 0 <= k < sorted.len() && sorted[k] == item;
                if k < rest.len() {
                    assert(rest[k] == item);
                    assert(smaller.contains(item));
                    let i = choose|i: int| 0 <= i < smaller.len() && smaller[i] == item;
                    assert(result[i] == item);
                }
            }
            if item == value {
                assert(smaller.contains(item));
                let i = choose|i: int| 0 <= i < smaller.len() && smaller[i] == item;
                assert(result[i] == item);
            }
        }
    }
}

proof fn lemma_same_rank_transitive<R: Ranked>(a: R::V, b: R::V, c: R::V)
    requires
        same_rank::<R>(a, b),
        same_rank::<R>(b, c),
    ensures
        same_rank::<R>(a, c),
{
    R::rank_transitive(a, b, c);
    R::rank_transitive(c, b, a);
}

/// Inserting a value puts it behind its peers and leaves every group of peers
/// in its order.
proof fn lemma_inserted_peers<R: Ranked>(sorted: Seq<R::V>, value: R::V, probe: R::V)
    ensures
        peers::<R>(inserted::<R>(sorted, value), probe) == peers::<R>(sorted.push(value), probe),
    decreases sorted.len(),
{
    reveal_with_fuel(Seq::filter, 3);
    if sorted.len() == 0 || !R::ranks_before(value, sorted.last()) {
    } else {
        let rest = sorted.drop_last();
        let last = sorted.last();
        let smaller = inserted::<R>(rest, value);
        lemma_inserted_peers::<R>(rest, value, probe);
        assert(smaller.push(last).drop_last() =~= smaller);
        assert(sorted.push(value).drop_last() =~= sorted);
        assert(rest.push(value).drop_last() =~= rest);
        if same_rank::<R>(value, probe) && same_rank::<R>(last, probe) {
            assert(same_rank::<R>(probe, last));
            lemma_same_rank_transitive::<R>(value, probe, last);
        }
    }
}

/// Sorting lists the items in order, drops and adds none, and keeps the order
/// of items that share their place.
pub proof fn lemma_ranked<R: Ranked>(items: Seq<R::V>)
    ensures
        in_order::<R>(ranked::<R>(items)),
        ranked::<R>(items).len() == items.len(),
        forall|item: R::V| #[trigger] ranked::<R>(items).contains(item) <==> items.contains(item),
        forall|probe: R::V|
            #[trigger] peers::<R>(ranked::<R>(items), probe) == peers::<R>(items, probe),
    decreases items.len(),
{
    if items.len() > 0 {
        let rest = items.drop_last();
        let sorted = ranked::<R>(rest);
        lemma_ranked::<R>(rest);
        lemma_inserted::<R>(sorted, items.last());
        assert(rest.push(items.last()) =~= items);
        assert forall|item: R::V| #[trigger] ranked::<R>(items).contains(item) <==> items.contains(
            item,
        ) by {
            if items.contains(item) {
                let i = choose|i: int| 0 <= i < items.len() && items[i] == item;
                if i < rest.len() {
                    assert(rest[i] == item);
                    assert(rest.contains(item));
                }
            }
            if rest.contains(item) {
                let i = choose|i: int| 0 <= i < rest.len() && rest[i] == item;
                assert(items[i] == item);
            }
            assert(items.contains(items.last())) by {
                assert(items[items.len() - 1] == items.last());
            }
            assert(sorted.contains(item) <==> rest.contains(item));
        }
        assert forall|probe: R::V| #[trigger]
            peers::<R>(ranked::<R>(items), probe) == peers::<R>(items, probe) by {
            lemma_inserted_peers::<R>(sorted, items.last(), probe);
            assert(peers::<R>(sorted, probe) == peers::<R>(rest, probe));
            reveal_with_fuel(Seq::filter, 2);
            assert(sorted.push(items.last()).drop_last() =~= sorted);
        }
    }
}

proof fn lemma_inserted_permutes<R: Ranked>(sorted: Seq<R::V>, value: R::V)
    ensures
        inserted::<R>(sorted, value).to_multiset() == sorted.to_multiset().insert(value),
    decreases sorted.len(),
{
    sorted.to_multiset_ensures();
    if sorted.len() == 0 || !R::ranks_before(value, sorted.last()) {
    } else {
        let rest = sorted.drop_last();
        lemma_inserted_permutes::<R>(rest, value);
        rest.to_multiset_ensures();
        inserted::<R>(rest, value).to_multiset_ensures();
        assert(rest.push(sorted.last()) =~= sorted);
        assert(inserted::<R>(sorted, value).to_multiset() =~= sorted.to_multiset().insert(value));
    }
}

/// Sorting lists every item exactly as often as it was there.
pub proof fn lemma_ranked_permutes<R: Ranked>(items: Seq<R::V>)
    ensures
        ranked::<R>(items).to_multiset() == items.to_multiset(),
    decreases items.len(),
{
    if items.len() > 0 {
        let rest = items.drop_last();
        lemma_ranked_permutes::<R>(rest);
        lemma_inserted_permutes::<R>(ranked::<R>(rest), items.last());
        rest.to_multiset_ensures();
        assert(rest.push(items.last()) =~= items);
    }
}

/// The rows that neither go before `probe` nor behind it.
pub open spec fn tied<T>(before: spec_fn(T, T) -> bool, probe: T) -> spec_fn(T) -> bool {
    |row: T| !before(row, probe) && !before(probe, row)
}

/// Whether `listed` holds the first of `rows`, as many as `limit` allows, once these
/// are put in the order of `before`: each row as often as it is there, none before
/// a row that goes before it, and rows of which neither goes before the other in
/// the order that they had.
pub open spec fn lists_first<T>(
    listed: Seq<T>,
    rows: Seq<T>,
    limit: u64,
    before: spec_fn(T, T) -> bool,
) -> bool {
    exists|full: Seq<T>|
        {
            &&& #[trigger] full.to_multiset() == rows.to_multiset()
            &&& forall|i: int, j: int|
                0 <= i < j < full.len() ==> !before(#[trigger] full[j], #[trigger] full[i])
            &&& forall|probe: T| #[trigger]
                full.filter(tied(before, probe)) == rows.filter(tied(before, probe))
            &&& listed.len() == if full.len() <= limit {
                full.len() as int
            } else {
                limit as int
            }
            &&& forall|i: int| 0 <= i < listed.len() ==> #[trigger] listed[i] == full[i]
        }
}

/// Filters that agree on every item keep the same items.
pub proof fn lemma_filters_agree<T>(
    items: Seq<T>,
    left: spec_fn(T) -> bool,
    right: spec_fn(T) -> bool,
)
    requires
        forall|item: T| #[trigger] left(item) == right(item),
    ensures
        items.filter(left) == items.filter(right),
    decreases items.len(),
{
    reveal(Seq::filter);
    if items.len() > 0 {
        lemma_filters_agree(items.drop_last(), left, right);
    }
}

/// Sorting and cutting lists the first rows in the order of any relation that says
/// what the listing order says.
pub proof fn lemma_lists_first<R: Ranked>(
    listed: Seq<R::V>,
    rows: Seq<R::V>,
    limit: u64,
    before: spec_fn(R::V, R::V) -> bool,
)
    requires
        forall|left: R::V, right: R::V| #[trigger]
            before(left, right) == R::ranks_before(left, right),
        ranked::<R>(rows).len() <= limit ==> listed == ranked::<R>(rows),
        ranked::<R>(rows).len() > limit ==> listed == ranked::<R>(rows).take(limit as int),
    ensures
        lists_first(listed, rows, limit, before),
{
    let full = ranked::<R>(rows);
    lemma_ranked::<R>(rows);
    lemma_ranked_permutes::<R>(rows);
    assert forall|i: int, j: int| 0 <= i < j < full.len() implies !before(
        #[trigger] full[j],
        #[trigger] full[i],
    ) by {
        assert(!R::ranks_before(full[j], full[i]));
    }
    assert forall|probe: R::V| #[trigger]
        full.filter(tied(before, probe)) == rows.filter(tied(before, probe)) by {
        let same = tied(before, probe);
        let peer = |row: R::V| same_rank::<R>(row, probe);
        assert forall|row: R::V| #[trigger] same(row) == peer(row) by {
            assert(before(row, probe) == R::ranks_before(row, probe));
            assert(before(probe, row) == R::ranks_before(probe, row));
        }
        lemma_filters_agree(full, same, peer);
        lemma_filters_agree(rows, same, peer);
        assert(peers::<R>(full, probe) == peers::<R>(rows, probe));
    }
    assert(full.to_multiset() == rows.to_multiset());
}

proof fn lemma_last_is_last_peer<R: Ranked>(items: Seq<R::V>)
    requires
        items.len() > 0,
    ensures
        peers::<R>(items, items.last()).len() > 0,
        peers::<R>(items, items.last()).last() == items.last(),
{
    if R::ranks_before(items.last(), items.last()) {
        R::rank_asymmetric(items.last(), items.last());
    }
    reveal_with_fuel(Seq::filter, 2);
}

proof fn lemma_peers_are_items<R: Ranked>(items: Seq<R::V>, probe: R::V)
    ensures
        forall|i: int|
            0 <= i < peers::<R>(items, probe).len() ==> items.contains(
                #[trigger] peers::<R>(items, probe)[i],
            ),
    decreases items.len(),
{
    if items.len() > 0 {
        let rest = items.drop_last();
        lemma_peers_are_items::<R>(rest, probe);
        reveal_with_fuel(Seq::filter, 2);
        let group = peers::<R>(items, probe);
        assert forall|i: int| 0 <= i < group.len() implies items.contains(#[trigger] group[i]) by {
            if i < peers::<R>(rest, probe).len() {
                assert(rest.contains(peers::<R>(rest, probe)[i]));
                let k = choose|k: int| 0 <= k < rest.len() && rest[k] == group[i];
                assert(items[k] == group[i]);
            } else {
                assert(items[items.len() - 1] == group[i]);
            }
        }
    } else {
        reveal_with_fuel(Seq::filter, 1);
    }
}

/// Being in order and keeping every group of peers determines a listing: two
/// listings of the same groups are the same.
pub proof fn lemma_order_unique<R: Ranked>(left: Seq<R::V>, right: Seq<R::V>)
    requires
        in_order::<R>(left),
        in_order::<R>(right),
        forall|probe: R::V| #[trigger] peers::<R>(left, probe) == peers::<R>(right, probe),
    ensures
        left == right,
    decreases left.len(),
{
    if left.len() == 0 {
        if right.len() > 0 {
            lemma_last_is_last_peer::<R>(right);
            assert(peers::<R>(left, right.last()) == peers::<R>(right, right.last()));
            reveal_with_fuel(Seq::filter, 1);
        }
        assert(left =~= right);
    } else {
        let x = left.last();
        lemma_last_is_last_peer::<R>(left);
        let group = peers::<R>(left, x);
        assert(group == peers::<R>(right, x));
        assert(group[group.len() - 1] == x);
        lemma_peers_are_items::<R>(right, x);
        assert(right.contains(x));
        let at = choose|at: int| 0 <= at < right.len() && right[at] == x;
        let y = right.last();
        lemma_last_is_last_peer::<R>(right);
        assert(peers::<R>(left, y) == peers::<R>(right, y));
        let other = peers::<R>(right, y);
        assert(other[other.len() - 1] == y);
        lemma_peers_are_items::<R>(left, y);
        assert(left.contains(y));
        let back = choose|back: int| 0 <= back < left.len() && left[back] == y;
        if R::ranks_before(x, x) {
            R::rank_asymmetric(x, x);
        }
        if R::ranks_before(y, y) {
            R::rank_asymmetric(y, y);
        }
        assert(!R::ranks_before(y, x)) by {
            if at < right.len() - 1 {
                assert(!R::ranks_before(right[right.len() - 1], right[at]));
            }
        }
        assert(!R::ranks_before(x, y)) by {
            if back < left.len() - 1 {
                assert(!R::ranks_before(left[left.len() - 1], left[back]));
            }
        }
        assert(same_rank::<R>(y, x));
        assert(peers::<R>(right, x).last() == y) by {
            reveal_with_fuel(Seq::filter, 2);
        }
        assert(x == y);
        let l = left.drop_last();
        let r = right.drop_last();
        assert forall|probe: R::V| #[trigger] peers::<R>(l, probe) == peers::<R>(r, probe) by {
            assert(peers::<R>(left, probe) == peers::<R>(right, probe));
            reveal_with_fuel(Seq::filter, 2);
            if same_rank::<R>(x, probe) {
                assert(peers::<R>(left, probe).drop_last() =~= peers::<R>(l, probe));
                assert(peers::<R>(right, probe).drop_last() =~= peers::<R>(r, probe));
            }
        }
        lemma_order_unique::<R>(l, r);
        assert(left =~= l.push(x));
        assert(right =~= r.push(x));
    }
}

/// Two listings as one; of items that share their place, those of `left` come
/// first.
pub open spec fn merged<R: Ranked>(left: Seq<R::V>, right: Seq<R::V>) -> Seq<R::V>
    decreases left.len() + right.len(),
{
    if left.len() == 0 {
        right
    } else if right.len() == 0 {
        left
    } else if R::ranks_before(right.last(), left.last()) {
        merged::<R>(left.drop_last(), right).push(left.last())
    } else {
        merged::<R>(left, right.drop_last()).push(right.last())
    }
}

proof fn lemma_no_peers<R: Ranked>(items: Seq<R::V>, probe: R::V)
    requires
        forall|i: int| 0 <= i < items.len() ==> !same_rank::<R>(#[trigger] items[i], probe),
    ensures
        peers::<R>(items, probe) == Seq::<R::V>::empty(),
    decreases items.len(),
{
    reveal_with_fuel(Seq::filter, 2);
    if items.len() > 0 {
        lemma_no_peers::<R>(items.drop_last(), probe);
        assert(!same_rank::<R>(items[items.len() - 1], probe));
    }
    assert(peers::<R>(items, probe) =~= Seq::<R::V>::empty());
}

proof fn lemma_peers_push<R: Ranked>(items: Seq<R::V>, item: R::V, probe: R::V)
    ensures
        peers::<R>(items.push(item), probe) == if same_rank::<R>(item, probe) {
            peers::<R>(items, probe).push(item)
        } else {
            peers::<R>(items, probe)
        },
{
    reveal_with_fuel(Seq::filter, 2);
    assert(items.push(item).drop_last() =~= items);
}

/// Merging two listings gives a listing of the items of both, and keeps the order
/// of items that share their place.
proof fn lemma_merged<R: Ranked>(left: Seq<R::V>, right: Seq<R::V>)
    requires
        in_order::<R>(left),
        in_order::<R>(right),
    ensures
        in_order::<R>(merged::<R>(left, right)),
        forall|item: R::V| #[trigger]
            merged::<R>(left, right).contains(item) ==> left.contains(item) || right.contains(
                item,
            ),
        forall|probe: R::V| #[trigger]
            peers::<R>(merged::<R>(left, right), probe) == peers::<R>(left, probe) + peers::<R>(
                right,
                probe,
            ),
    decreases left.len() + right.len(),
{
    let all = merged::<R>(left, right);
    if left.len() == 0 {
        assert forall|probe: R::V| #[trigger] peers::<R>(all, probe) == peers::<R>(left, probe)
            + peers::<R>(right, probe) by {
            lemma_no_peers::<R>(left, probe);
            assert(peers::<R>(left, probe) + peers::<R>(right, probe) =~= peers::<R>(right, probe));
        }
    } else if right.len() == 0 {
        assert forall|probe: R::V| #[trigger] peers::<R>(all, probe) == peers::<R>(left, probe)
            + peers::<R>(right, probe) by {
            lemma_no_peers::<R>(right, probe);
            assert(peers::<R>(left, probe) + peers::<R>(right, probe) =~= peers::<R>(left, probe));
        }
    } else if R::ranks_before(right.last(), left.last()) {
        let shorter = left.drop_last();
        let last = left.last();
        let rest = merged::<R>(shorter, right);
        lemma_merged::<R>(shorter, right);
        assert(left =~= shorter.push(last));
        R::rank_asymmetric(right.last(), last);
        assert forall|item: R::V| #[trigger] rest.contains(item) implies !R::ranks_before(
            last,
            item,
        ) by {
            if shorter.contains(item) {
                let k = choose|k: int| 0 <= k < shorter.len() && shorter[k] == item;
                assert(left[k] == item && left[left.len() - 1] == last);
            } else {
                let k = choose|k: int| 0 <= k < right.len() && right[k] == item;
                lemma_not_after_last::<R>(right, k);
                R::rank_transitive(item, right.last(), last);
            }
        }
        lemma_order_push::<R>(rest, last);
        assert forall|item: R::V| #[trigger] all.contains(item) implies left.contains(item)
            || right.contains(item) by {
            lemma_push_member::<R::V>(rest, last, item);
            lemma_push_contains::<R::V>(shorter, last, item);
        }
        assert forall|probe: R::V| #[trigger] peers::<R>(all, probe) == peers::<R>(left, probe)
            + peers::<R>(right, probe) by {
            lemma_peers_push::<R>(rest, last, probe);
            lemma_peers_push::<R>(shorter, last, probe);
            if same_rank::<R>(last, probe) {
                assert forall|k: int| 0 <= k < right.len() implies !same_rank::<R>(
                    #[trigger] right[k],
                    probe,
                ) by {
                    if same_rank::<R>(right[k], probe) {
                        lemma_not_after_last::<R>(right, k);
                        R::rank_transitive(last, probe, right[k]);
                        R::rank_transitive(last, right[k], right.last());
                    }
                }
                lemma_no_peers::<R>(right, probe);
                assert(peers::<R>(all, probe) =~= peers::<R>(left, probe) + peers::<R>(
                    right,
                    probe,
                ));
            }
        }
    } else {
        let shorter = right.drop_last();
        let last = right.last();
        let rest = merged::<R>(left, shorter);
        lemma_merged::<R>(left, shorter);
        assert(right =~= shorter.push(last));
        assert forall|item: R::V| #[trigger] rest.contains(item) implies !R::ranks_before(
            last,
            item,
        ) by {
            if shorter.contains(item) {
                let k = choose|k: int| 0 <= k < shorter.len() && shorter[k] == item;
                assert(right[k] == item && right[right.len() - 1] == last);
            } else {
                let k = choose|k: int| 0 <= k < left.len() && left[k] == item;
                lemma_not_after_last::<R>(left, k);
                R::rank_transitive(item, left.last(), last);
            }
        }
        lemma_order_push::<R>(rest, last);
        assert forall|item: R::V| #[trigger] all.contains(item) implies left.contains(item)
            || right.contains(item) by {
            lemma_push_member::<R::V>(rest, last, item);
            lemma_push_contains::<R::V>(shorter, last, item);
        }
        assert forall|probe: R::V| #[trigger] peers::<R>(all, probe) == peers::<R>(left, probe)
            + peers::<R>(right, probe) by {
            lemma_peers_push::<R>(rest, last, probe);
            lemma_peers_push::<R>(shorter, last, probe);
            assert(peers::<R>(all, probe) =~= peers::<R>(left, probe) + peers::<R>(right, probe));
        }
    }
}

proof fn lemma_not_after_last<R: Ranked>(items: Seq<R::V>, k: int)
    requires
        in_order::<R>(items),
        0 <= k < items.len(),
    ensures
        !R::ranks_before(items.last(), items[k]),
{
    if k == items.len() - 1 {
        if R::ranks_before(items[k], items[k]) {
            R::rank_asymmetric(items[k], items[k]);
        }
    } else {
        assert(!R::ranks_before(items[items.len() - 1], items[k]));
    }
}

proof fn lemma_order_push<R: Ranked>(items: Seq<R::V>, last: R::V)
    requires
        in_order::<R>(items),
        forall|item: R::V| #[trigger] items.contains(item) ==> !R::ranks_before(last, item),
    ensures
        in_order::<R>(items.push(last)),
{
    let all = items.push(last);
    assert forall|i: int, j: int| 0 <= i < j < all.len() implies !R::ranks_before(
        #[trigger] all[j],
        #[trigger] all[i],
    ) by {
        assert(items.contains(items[i]));
    }
}

proof fn lemma_push_member<T>(items: Seq<T>, last: T, item: T)
    requires
        items.push(last).contains(item),
    ensures
        items.contains(item) || item == last,
{
    let all = items.push(last);
    let k = choose|k: int| 0 <= k < all.len() && all[k] == item;
    if k < items.len() {
        assert(items[k] == item);
    }
}

proof fn lemma_push_contains<T>(items: Seq<T>, last: T, item: T)
    ensures
        items.contains(item) || item == last ==> items.push(last).contains(item),
{
    let all = items.push(last);
    assert(all[all.len() - 1] == last);
    if items.contains(item) {
        let k = choose|k: int| 0 <= k < items.len() && items[k] == item;
        assert(all[k] == item);
    }
}

/// Merges two listings. The last item is found first, so that the items can be
/// taken from the ends.
fn merge_ranked<R: Ranked>(left: Vec<R>, right: Vec<R>) -> (all: Vec<R>)
    ensures
        model::models(all@) == merged::<R>(model::models(left@), model::models(right@)),
{
    let ghost result = merged::<R>(model::models(left@), model::models(right@));
    let mut left = left;
    let mut right = right;
    let mut backwards: Vec<R> = Vec::new();
    assert(model::models(backwards@).reverse() =~= Seq::<R::V>::empty());
    assert(result =~= merged::<R>(model::models(left@), model::models(right@)) + model::models(
        backwards@,
    ).reverse());
    while left.len() > 0 && right.len() > 0
        invariant
            result == merged::<R>(model::models(left@), model::models(right@)) + model::models(
                backwards@,
            ).reverse(),
        decreases left.len() + right.len(),
    {
        let ghost left_items = model::models(left@);
        let ghost right_items = model::models(right@);
        let ghost taken = model::models(backwards@);
        assert(left_items.last() == left@[left@.len() - 1]@);
        assert(right_items.last() == right@[right@.len() - 1]@);
        if right[right.len() - 1].is_before(&left[left.len() - 1]) {
            if let Some(item) = left.pop() {
                let ghost value = item@;
                backwards.push(item);
                assert(model::models(left@) =~= left_items.drop_last());
                assert(model::models(backwards@) =~= taken.push(value));
                assert(result =~= merged::<R>(model::models(left@), right_items) + taken.push(
                    value,
                ).reverse());
            }
        } else {
            if let Some(item) = right.pop() {
                let ghost value = item@;
                backwards.push(item);
                assert(model::models(right@) =~= right_items.drop_last());
                assert(model::models(backwards@) =~= taken.push(value));
                assert(result =~= merged::<R>(left_items, model::models(right@)) + taken.push(
                    value,
                ).reverse());
            }
        }
    }
    let mut all: Vec<R> = if left.len() == 0 {
        right
    } else {
        left
    };
    while backwards.len() > 0
        invariant
            result == model::models(all@) + model::models(backwards@).reverse(),
        decreases backwards.len(),
    {
        let ghost before = model::models(all@);
        let ghost taken = model::models(backwards@);
        if let Some(item) = backwards.pop() {
            let ghost value = item@;
            all.push(item);
            assert(model::models(backwards@) =~= taken.drop_last());
            assert(model::models(all@) =~= before.push(value));
            assert(taken.last() == value);
            assert(result =~= before.push(value) + taken.drop_last().reverse());
        }
    }
    assert(model::models(all@) =~= result);
    all
}

/// Puts `items` in listing order, keeping the order of items that share their
/// place.
pub fn sort_ranked<R: Ranked>(items: Vec<R>) -> (sorted: Vec<R>)
    ensures
        model::models(sorted@) == ranked::<R>(model::models(items@)),
    decreases items@.len(),
{
    let ghost all = model::models(items@);
    if items.len() < 2 {
        proof {
            reveal_with_fuel(ranked, 3);
            assert(ranked::<R>(all) =~= all);
        }
        return items;
    }
    let mut first = items;
    let middle: usize = first.len() / 2;
    let second = first.split_off(middle);
    let ghost left = model::models(first@);
    let ghost right = model::models(second@);
    assert(all =~= left + right);
    let sorted = merge_ranked(sort_ranked(first), sort_ranked(second));
    proof {
        let merged_items = model::models(sorted@);
        lemma_ranked::<R>(left);
        lemma_ranked::<R>(right);
        lemma_ranked::<R>(all);
        lemma_merged::<R>(ranked::<R>(left), ranked::<R>(right));
        assert forall|probe: R::V| #[trigger] peers::<R>(merged_items, probe) == peers::<R>(
            ranked::<R>(all),
            probe,
        ) by {
            assert(peers::<R>(ranked::<R>(left), probe) == peers::<R>(left, probe));
            assert(peers::<R>(ranked::<R>(right), probe) == peers::<R>(right, probe));
            assert(peers::<R>(ranked::<R>(all), probe) == peers::<R>(all, probe));
            Seq::<R::V>::filter_distributes_over_add(
                left,
                right,
                |item: R::V| same_rank::<R>(item, probe),
            );
        }
        lemma_order_unique::<R>(merged_items, ranked::<R>(all));
    }
    sorted
}

} // verus!

//! Stable ordering of items by composite keys, and ascending order of numbers.

use vstd::prelude::*;
use vstd::relations::sorted_by;
use vstd::relations::total_ordering;

use crate::text::{chars_of, lemma_text_order_chain, lemma_text_order_flip, order_of_texts, text_order};

verus! {

/// One part of a sort key.
pub enum KeyPart {
    Number(i128),
    Text(Vec<char>),
}

/// What a part of a sort key stands for.
pub enum KeyView {
    Number(int),
    Text(Seq<char>),
}

impl View for KeyPart {
    type V = KeyView;

    open spec fn view(&self) -> KeyView {
        match self {
            KeyPart::Number(number) => KeyView::Number(*number as int),
            KeyPart::Text(chars) => KeyView::Text(chars@),
        }
    }
}

impl KeyPart {
    /// A part that orders by a text.
    pub fn text(value: &str) -> (part: KeyPart)
        ensures
            part@ == KeyView::Text(value@),
    {
        KeyPart::Text(chars_of(value))
    }
}

/// A sort key: its parts are compared one after the other.
pub struct SortKey {
    pub parts: Vec<KeyPart>,
}

impl View for SortKey {
    type V = Seq<KeyView>;

    open spec fn view(&self) -> Seq<KeyView> {
        self.parts@.map_values(|part: KeyPart| part@)
    }
}

/// What a list of sort keys stands for.
pub open spec fn key_views(keys: Seq<SortKey>) -> Seq<Seq<KeyView>> {
    keys.map_values(|key: SortKey| key@)
}

/// The order of two parts: numbers by value, texts by code point, numbers before texts.
pub open spec fn part_order(left: KeyView, right: KeyView) -> int {
    match (left, right) {
        (KeyView::Number(a), KeyView::Number(b)) => if a < b {
            -1
        } else if a > b {
            1
        } else {
            0
        },
        (KeyView::Text(a), KeyView::Text(b)) => text_order(a, b),
        (KeyView::Number(_), KeyView::Text(_)) => -1,
        (KeyView::Text(_), KeyView::Number(_)) => 1,
    }
}

/// The order of two keys: the first part that differs decides.
pub open spec fn key_order(left: Seq<KeyView>, right: Seq<KeyView>) -> int
    decreases left.len(),
{
    if left.len() == 0 && right.len() == 0 {
        0
    } else if left.len() == 0 {
        -1
    } else if right.len() == 0 {
        1
    } else if part_order(left[0], right[0]) != 0 {
        part_order(left[0], right[0])
    } else {
        key_order(left.drop_first(), right.drop_first())
    }
}

/// The place in an ordered list of indices where a new key goes: behind the last index
/// whose key does not come after it.
pub open spec fn slot(order: Seq<int>, keys: Seq<Seq<KeyView>>, key: Seq<KeyView>) -> int
    decreases order.len(),
{
    if order.len() == 0 {
        0
    } else if key_order(keys[order.last()], key) <= 0 {
        order.len() as int
    } else {
        slot(order.drop_last(), keys, key)
    }
}

/// The indices of `keys` in ascending order of their keys; equal keys keep their order.
pub open spec fn sorted_order(keys: Seq<Seq<KeyView>>) -> Seq<int>
    decreases keys.len(),
{
    if keys.len() == 0 {
        Seq::empty()
    } else {
        let before = sorted_order(keys.drop_last());
        before.insert(slot(before, keys, keys.last()), keys.len() - 1)
    }
}

/// The items in the order of their keys.
pub open spec fn arranged<T>(items: Seq<T>, keys: Seq<Seq<KeyView>>) -> Seq<T> {
    sorted_order(keys).map_values(|i: int| items[i])
}

proof fn lemma_part_order_flip(left: KeyView, right: KeyView)
    ensures
        part_order(left, right) == -part_order(right, left),
        part_order(left, right) == 0 <==> left == right,
        -1 <= part_order(left, right) <= 1,
{
    if let (KeyView::Text(a), KeyView::Text(b)) = (left, right) {
        lemma_text_order_flip(a, b);
    }
}

proof fn lemma_part_order_chain(a: KeyView, b: KeyView, c: KeyView)
    requires
        part_order(a, b) <= 0,
        part_order(b, c) <= 0,
    ensures
        part_order(a, c) <= 0,
        part_order(a, b) < 0 || part_order(b, c) < 0 ==> part_order(a, c) < 0,
{
    if let (KeyView::Text(x), KeyView::Text(y)) = (a, b) {
        if let KeyView::Text(z) = c {
            lemma_text_order_chain(x, y, z);
        }
    }
}

/// The order of keys is antisymmetric, and zero only between equal keys.
pub proof fn lemma_key_order_flip(left: Seq<KeyView>, right: Seq<KeyView>)
    ensures
        key_order(left, right) == -key_order(right, left),
        key_order(left, right) == 0 <==> left == right,
        -1 <= key_order(left, right) <= 1,
    decreases left.len(),
{
    if left.len() == 0 || right.len() == 0 {
        if left.len() == 0 && right.len() == 0 {
            assert(left =~= right);
        }
    } else {
        lemma_part_order_flip(left[0], right[0]);
        lemma_key_order_flip(left.drop_first(), right.drop_first());
        if left[0] == right[0] && left.drop_first() == right.drop_first() {
            assert(left =~= seq![left[0]] + left.drop_first());
            assert(right =~= seq![right[0]] + right.drop_first());
        }
    }
}

/// The order of keys is transitive.
pub proof fn lemma_key_order_chain(a: Seq<KeyView>, b: Seq<KeyView>, c: Seq<KeyView>)
    requires
        key_order(a, b) <= 0,
        key_order(b, c) <= 0,
    ensures
        key_order(a, c) <= 0,
        key_order(a, b) < 0 || key_order(b, c) < 0 ==> key_order(a, c) < 0,
    decreases a.len(),
{
    if a.len() > 0 && b.len() > 0 && c.len() > 0 {
        lemma_part_order_flip(a[0], b[0]);
        lemma_part_order_flip(b[0], c[0]);
        lemma_part_order_chain(a[0], b[0], c[0]);
        if part_order(a[0], b[0]) == 0 && part_order(b[0], c[0]) == 0 {
            lemma_key_order_chain(a.drop_first(), b.drop_first(), c.drop_first());
        }
    }
}

/// Whether index `i` belongs before index `j`: a smaller key, or an equal key and a smaller index.
pub open spec fn goes_before(keys: Seq<Seq<KeyView>>, i: int, j: int) -> bool {
    key_order(keys[i], keys[j]) < 0 || (key_order(keys[i], keys[j]) == 0 && i < j)
}

proof fn lemma_slot(order: Seq<int>, keys: Seq<Seq<KeyView>>, key: Seq<KeyView>)
    requires
        forall|i: int| 0 <= i < order.len() ==> 0 <= #[trigger] order[i] < keys.len(),
        forall|i: int, j: int|
            0 <= i < j < order.len() ==> goes_before(keys, #[trigger] order[i], #[trigger] order[j]),
    ensures
        0 <= slot(order, keys, key) <= order.len(),
        forall|i: int| 0 <= i < slot(order, keys, key) ==> key_order(keys[#[trigger] order[i]], key) <= 0,
        forall|i: int|
            slot(order, keys, key) <= i < order.len() ==> key_order(keys[#[trigger] order[i]], key) > 0,
    decreases order.len(),
{
    if order.len() > 0 {
        let last = order.last();
        if key_order(keys[last], key) <= 0 {
            assert forall|i: int| 0 <= i < order.len() implies key_order(keys[#[trigger] order[i]], key) <= 0 by {
                if i < order.len() - 1 {
                    assert(goes_before(keys, order[i], order[order.len() - 1]));
                    lemma_key_order_chain(keys[order[i]], keys[last], key);
                }
            }
        } else {
            let rest = order.drop_last();
            assert forall|i: int, j: int| 0 <= i < j < rest.len() implies goes_before(
                keys,
                #[trigger] rest[i],
                #[trigger] rest[j],
            ) by {
                assert(goes_before(keys, order[i], order[j]));
            }
            lemma_slot(rest, keys, key);
            assert forall|i: int| 0 <= i < slot(order, keys, key) implies key_order(
                keys[#[trigger] order[i]],
                key,
            ) <= 0 by {
                assert(rest[i] == order[i]);
            }
            assert forall|i: int| slot(order, keys, key) <= i < order.len() implies key_order(
                keys[#[trigger] order[i]],
                key,
            ) > 0 by {
                if i < rest.len() {
                    assert(rest[i] == order[i]);
                }
            }
        }
    }
}

proof fn lemma_slot_of_prefix(order: Seq<int>, keys: Seq<Seq<KeyView>>, more: Seq<Seq<KeyView>>, key: Seq<KeyView>)
    requires
        keys.len() <= more.len(),
        forall|i: int| 0 <= i < keys.len() ==> keys[i] == #[trigger] more[i],
        forall|i: int| 0 <= i < order.len() ==> 0 <= #[trigger] order[i] < keys.len(),
    ensures
        slot(order, keys, key) == slot(order, more, key),
    decreases order.len(),
{
    if order.len() > 0 {
        assert(0 <= order[order.len() - 1] < keys.len());
        assert(keys[order.last()] == more[order.last()]);
        let rest = order.drop_last();
        assert forall|i: int| 0 <= i < rest.len() implies 0 <= #[trigger] rest[i] < keys.len() by {
            assert(rest[i] == order[i]);
        }
        lemma_slot_of_prefix(rest, keys, more, key);
    }
}

/// Sorting keeps every item exactly once, puts the items in ascending order of their keys,
/// and keeps items with equal keys in the order in which they came.
pub proof fn law_sorted_order_is_stable(keys: Seq<Seq<KeyView>>)
    ensures
        sorted_order(keys).len() == keys.len(),
        forall|i: int| 0 <= i < keys.len() ==> 0 <= #[trigger] sorted_order(keys)[i] < keys.len(),
        forall|i: int| 0 <= i < keys.len() ==> #[trigger] sorted_order(keys).contains(i),
        forall|i: int, j: int|
            0 <= i < j < keys.len() ==> goes_before(
                keys,
                #[trigger] sorted_order(keys)[i],
                #[trigger] sorted_order(keys)[j],
            ),
    decreases keys.len(),
{
    if keys.len() > 0 {
        let fewer = keys.drop_last();
        let before = sorted_order(fewer);
        let n = keys.len() - 1;
        law_sorted_order_is_stable(fewer);
        assert forall|i: int, j: int| 0 <= i < j < before.len() implies goes_before(
            keys,
            #[trigger] before[i],
            #[trigger] before[j],
        ) by {
            assert(goes_before(fewer, before[i], before[j]));
        }
        lemma_slot(before, keys, keys.last());
        let at = slot(before, keys, keys.last());
        let after = sorted_order(keys);
        assert(after == before.insert(at, n));
        assert forall|i: int| 0 <= i < keys.len() implies 0 <= #[trigger] after[i] < keys.len() by {
            if i < at {
                assert(after[i] == before[i]);
            } else if i > at {
                assert(after[i] == before[i - 1]);
            }
        }
        assert forall|i: int| 0 <= i < keys.len() implies #[trigger] after.contains(i) by {
            if i == n {
                assert(after[at] == n);
            } else {
                assert(before.contains(i));
                let k = choose|k: int| 0 <= k < before.len() && before[k] == i;
                if k < at {
                    assert(after[k] == i);
                } else {
                    assert(after[k + 1] == i);
                }
            }
        }
        assert forall|i: int, j: int| 0 <= i < j < keys.len() implies goes_before(
            keys,
            #[trigger] after[i],
            #[trigger] after[j],
        ) by {
            let a = if i < at { i } else { i - 1 };
            let b = if j < at { j } else { j - 1 };
            if i == at {
                assert(after[j] == before[b]);
                lemma_key_order_flip(keys[before[b]], keys[n]);
            } else if j == at {
                assert(after[i] == before[a]);
            } else {
                assert(after[i] == before[a]);
                assert(after[j] == before[b]);
                assert(goes_before(keys, before[a], before[b]));
            }
        }
    }
}

/// Compares two keys: -1, 0 or 1.
pub fn order_of_keys(left: &SortKey, right: &SortKey) -> (order: i8)
    ensures
        order == key_order(left@, right@),
{
    let mut i: usize = 0;
    assert(left@.skip(0) =~= left@);
    assert(right@.skip(0) =~= right@);
    while i < left.parts.len() && i < right.parts.len()
        invariant
            i <= left.parts.len(),
            i <= right.parts.len(),
            key_order(left@, right@) == key_order(left@.skip(i as int), right@.skip(i as int)),
        decreases left.parts.len() - i,
    {
        let order: i8 = order_of_parts(&left.parts[i], &right.parts[i]);
        assert(left@.skip(i as int)[0] == left.parts@[i as int]@);
        assert(right@.skip(i as int)[0] == right.parts@[i as int]@);
        if order != 0 {
            return order;
        }
        assert(left@.skip(i as int).drop_first() =~= left@.skip(i + 1));
        assert(right@.skip(i as int).drop_first() =~= right@.skip(i + 1));
        i += 1;
    }
    if left.parts.len() == right.parts.len() {
        0
    } else if i == left.parts.len() {
        -1
    } else {
        1
    }
}

fn order_of_parts(left: &KeyPart, right: &KeyPart) -> (order: i8)
    ensures
        order == part_order(left@, right@),
{
    match left {
        KeyPart::Number(a) => match right {
            KeyPart::Number(b) => {
                if *a < *b {
                    -1
                } else if *a > *b {
                    1
                } else {
                    0
                }
            },
            KeyPart::Text(_) => -1,
        },
        KeyPart::Text(a) => match right {
            KeyPart::Number(_) => 1,
            KeyPart::Text(b) => order_of_texts(a, b),
        },
    }
}

/// The indices as mathematical integers.
pub open spec fn indices(order: Seq<usize>) -> Seq<int> {
    order.map_values(|i: usize| i as int)
}

/// Computes the stable ascending order of the given keys.
pub fn stable_order(keys: &Vec<SortKey>) -> (order: Vec<usize>)
    ensures
        indices(order@) == sorted_order(key_views(keys@)),
        order.len() == keys.len(),
        forall|i: int| 0 <= i < order.len() ==> #[trigger] order@[i] < keys.len(),
{
    let mut order: Vec<usize> = Vec::new();
    let ghost views = key_views(keys@);
    assert(views.take(0) =~= Seq::empty());
    for n in 0..keys.len()
        invariant
            views == key_views(keys@),
            order.len() == n,
            indices(order@) =~= sorted_order(views.take(n as int)),
    {
        let ghost known = views.take(n as int);
        let ghost more = views.take(n + 1);
        proof {
            law_sorted_order_is_stable(known);
        }
        let mut at: usize = order.len();
        assert(indices(order@).take(at as int) =~= indices(order@));
        assert(keys@[n as int]@ == views[n as int]);
        assert forall|i: int| 0 <= i < order.len() implies #[trigger] order@[i] < n by {
            assert(indices(order@)[i] == order@[i]);
        }
        while at > 0 && order_of_keys(&keys[order[at - 1]], &keys[n]) > 0
            invariant
                views == key_views(keys@),
                n < keys.len(),
                at <= order.len(),
                order.len() == n,
                known == views.take(n as int),
                indices(order@) =~= sorted_order(known),
                forall|i: int| 0 <= i < n ==> 0 <= #[trigger] sorted_order(known)[i] < n,
                forall|i: int| 0 <= i < order.len() ==> #[trigger] order@[i] < n,
                slot(indices(order@), views, views[n as int]) == slot(
                    indices(order@).take(at as int),
                    views,
                    views[n as int],
                ),
            decreases at,
        {
            assert(indices(order@).take(at as int).last() == order@[at - 1]);
            assert(indices(order@).take(at as int).drop_last() =~= indices(order@).take(at - 1));
            assert(views[order@[at - 1] as int] == keys@[order@[at - 1] as int]@);
            at -= 1;
        }
        proof {
            if at > 0 {
                assert(indices(order@).take(at as int).last() == order@[at - 1]);
                assert(views[order@[at - 1] as int] == keys@[order@[at - 1] as int]@);
            }
            assert(slot(indices(order@), views, views[n as int]) == at);
            assert(more.drop_last() =~= known);
            assert(more.last() == views[n as int]);
            lemma_slot_of_prefix(indices(order@), known, views, views[n as int]);
            lemma_slot_of_prefix(indices(order@), known, more, views[n as int]);
        }
        let ghost earlier = order@;
        order.insert(at, n);
        assert(indices(order@) =~= indices(earlier).insert(at as int, n as int));
    }
    assert(views.take(keys.len() as int) =~= views);
    proof {
        law_sorted_order_is_stable(views);
        assert forall|i: int| 0 <= i < order.len() implies #[trigger] order@[i] < keys.len() by {
            assert(indices(order@)[i] == order@[i]);
        }
    }
    order
}

/// Puts a number into an ascending list.
pub open spec fn with_number(sorted: Seq<u64>, value: u64) -> Seq<u64>
    decreases sorted.len(),
{
    if sorted.len() == 0 || sorted.last() <= value {
        sorted.push(value)
    } else {
        with_number(sorted.drop_last(), value).push(sorted.last())
    }
}

/// The numbers in ascending order.
pub open spec fn ascending(values: Seq<u64>) -> Seq<u64>
    decreases values.len(),
{
    if values.len() == 0 {
        values
    } else {
        with_number(ascending(values.drop_last()), values.last())
    }
}

/// The order relation of numbers.
pub open spec fn at_most() -> spec_fn(u64, u64) -> bool {
    |a: u64, b: u64| a <= b
}

proof fn lemma_with_number(sorted: Seq<u64>, value: u64)
    requires
        sorted_by(sorted, at_most()),
    ensures
        sorted_by(with_number(sorted, value), at_most()),
        with_number(sorted, value).to_multiset() == sorted.to_multiset().insert(value),
        with_number(sorted, value).len() == sorted.len() + 1,
        with_number(sorted, value).last() == if sorted.len() == 0 || sorted.last() <= value {
            value
        } else {
            sorted.last()
        },
    decreases sorted.len(),
{
    broadcast use vstd::seq_lib::group_to_multiset_ensures;

    if sorted.len() == 0 || sorted.last() <= value {
        assert forall|i: int, j: int| 0 <= i < j < sorted.len() + 1 implies #[trigger] at_most()(
            sorted.push(value)[i],
            sorted.push(value)[j],
        ) by {
            if j < sorted.len() {
                assert(at_most()(sorted[i], sorted[j]));
            } else if i < sorted.len() - 1 {
                assert(at_most()(sorted[i], sorted[sorted.len() - 1]));
            }
        }
    } else {
        let rest = sorted.drop_last();
        let inner = with_number(rest, value);
        assert forall|i: int, j: int| 0 <= i < j < rest.len() implies #[trigger] at_most()(rest[i], rest[j]) by {
            assert(at_most()(sorted[i], sorted[j]));
        }
        lemma_with_number(rest, value);
        if rest.len() > 0 {
            assert(at_most()(sorted[rest.len() - 1], sorted[rest.len() as int]));
        }
        assert(inner.last() <= sorted.last());
        assert forall|i: int, j: int| 0 <= i < j < inner.len() + 1 implies #[trigger] at_most()(
            inner.push(sorted.last())[i],
            inner.push(sorted.last())[j],
        ) by {
            if j < inner.len() {
                assert(at_most()(inner[i], inner[j]));
            } else if i < inner.len() - 1 {
                assert(at_most()(inner[i], inner[inner.len() - 1]));
            }
        }
        assert(sorted =~= rest.push(sorted.last()));
        assert(inner.push(sorted.last()).to_multiset() =~= sorted.to_multiset().insert(value));
    }
}

/// The ascending list holds the same numbers, each as often, and never falls.
pub proof fn law_ascending_sorts(values: Seq<u64>)
    ensures
        sorted_by(ascending(values), at_most()),
        ascending(values).to_multiset() == values.to_multiset(),
        ascending(values).len() == values.len(),
    decreases values.len(),
{
    broadcast use vstd::seq_lib::group_to_multiset_ensures;

    if values.len() > 0 {
        law_ascending_sorts(values.drop_last());
        lemma_with_number(ascending(values.drop_last()), values.last());
        assert(values =~= values.drop_last().push(values.last()));
    }
}

fn merge(left: &Vec<u64>, right: &Vec<u64>) -> (result: Vec<u64>)
    requires
        sorted_by(left@, at_most()),
        sorted_by(right@, at_most()),
        left.len() + right.len() <= usize::MAX,
    ensures
        sorted_by(result@, at_most()),
        result@.to_multiset() == (left@ + right@).to_multiset(),
{
    broadcast use vstd::seq_lib::group_to_multiset_ensures;

    let mut result: Vec<u64> = Vec::new();
    let mut i: usize = 0;
    let mut j: usize = 0;
    assert(left@.take(0) + right@.take(0) =~= Seq::<u64>::empty());
    while i < left.len() || j < right.len()
        invariant
            i <= left.len(),
            j <= right.len(),
            left.len() + right.len() <= usize::MAX,
            sorted_by(left@, at_most()),
            sorted_by(right@, at_most()),
            sorted_by(result@, at_most()),
            result.len() == i + j,
            result@.to_multiset() == (left@.take(i as int) + right@.take(j as int)).to_multiset(),
            forall|k: int| 0 <= k < result.len() && i < left.len() ==> #[trigger] result@[k] <= left@[i as int],
            forall|k: int| 0 <= k < result.len() && j < right.len() ==> #[trigger] result@[k] <= right@[j as int],
        decreases left.len() - i + right.len() - j,
    {
        let ghost before = result@;
        let take_left: bool = j >= right.len() || (i < left.len() && left[i] <= right[j]);
        if take_left {
            let value: u64 = left[i];
            result.push(value);
            proof {
                assert(left@.take(i + 1) + right@.take(j as int) =~= (left@.take(i as int) + right@.take(
                    j as int,
                )).insert(i as int, value));
                vstd::seq_lib::to_multiset_build(before, value);
                vstd::seq_lib::to_multiset_insert(left@.take(i as int) + right@.take(j as int), i as int, value);
                if i + 1 < left.len() {
                    assert(at_most()(left@[i as int], left@[i + 1]));
                }
            }
            i += 1;
        } else {
            let value: u64 = right[j];
            result.push(value);
            proof {
                assert(left@.take(i as int) + right@.take(j + 1) =~= (left@.take(i as int) + right@.take(
                    j as int,
                )).push(value));
                vstd::seq_lib::to_multiset_build(before, value);
                vstd::seq_lib::to_multiset_build(left@.take(i as int) + right@.take(j as int), value);
                if j + 1 < right.len() {
                    assert(at_most()(right@[j as int], right@[j + 1]));
                }
            }
            j += 1;
        }
        assert forall|a: int, b: int| 0 <= a < b < result.len() implies #[trigger] at_most()(
            result@[a],
            result@[b],
        ) by {
            if b < before.len() {
                assert(at_most()(before[a], before[b]));
            } else {
                assert(before[a] <= result@[b]);
            }
        }
    }
    assert(left@.take(left.len() as int) =~= left@);
    assert(right@.take(right.len() as int) =~= right@);
    result
}

/// Sorts numbers in ascending order.
pub fn sort_numbers(values: Vec<u64>) -> (result: Vec<u64>)
    ensures
        result@ == ascending(values@),
        result.len() == values.len(),
    decreases values.len(),
{
    let ghost given = values@;
    let result: Vec<u64>;
    if values.len() <= 1 {
        result = values;
    } else {
        let mut left = values;
        let middle: usize = left.len() / 2;
        let right = left.split_off(middle);
        assert(given =~= left@ + right@);
        let ghost left_given = left@;
        let ghost right_given = right@;
        let sorted_left = sort_numbers(left);
        let sorted_right = sort_numbers(right);
        proof {
            law_ascending_sorts(left_given);
            law_ascending_sorts(right_given);
            vstd::seq_lib::lemma_multiset_commutative(left_given, right_given);
            vstd::seq_lib::lemma_multiset_commutative(sorted_left@, sorted_right@);
        }
        result = merge(&sorted_left, &sorted_right);
    }
    proof {
        law_ascending_sorts(given);
        assert(total_ordering(at_most()));
        assert(result@.to_multiset() == given.to_multiset());
        vstd::seq_lib::lemma_sorted_unique(result@, ascending(given), at_most());
    }
    result
}

} // verus!

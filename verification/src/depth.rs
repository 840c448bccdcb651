//! The order in which particles are drawn: from the back to the front.

use vstd::prelude::*;

verus! {

/// The key that orders single-precision numbers by the bits that encode them: the sign bit, and
/// below it the magnitude. Both zeros have the same key.
pub open spec fn key_of(bits: u32) -> int {
    if bits < 0x8000_0000 {
        bits as int
    } else {
        0x8000_0000 - bits
    }
}

/// The key that orders a single-precision number among others, from its bits.
pub fn depth_key(bits: u32) -> (r: i32)
    ensures
        r == key_of(bits),
        bits < 0x8000_0000 ==> r == bits,
        bits >= 0x8000_0000 ==> r == 0x8000_0000 - bits,
{
    if bits < 0x8000_0000 {
        bits as i32
    } else {
        -((bits - 0x8000_0000) as i32)
    }
}

/// Item `a` is drawn before item `b`: it lies further back, or as far back and comes first.
pub open spec fn drawn_before(keys: Seq<i32>, a: usize, b: usize) -> bool {
    keys[a as int] < keys[b as int] || (keys[a as int] == keys[b as int] && a < b)
}

/// Each item of `order` is drawn before those that follow it.
pub open spec fn in_draw_order(order: Seq<usize>, keys: Seq<i32>) -> bool {
    forall|i: int, j: int|
        0 <= i < j < order.len() ==> drawn_before(keys, #[trigger] order[i], #[trigger] order[j])
}

/// The items of `order` lie from `lo` up to `hi`, and are as many.
pub open spec fn covers(order: Seq<usize>, lo: int, hi: int) -> bool {
    &&& order.len() == hi - lo
    &&& forall|i: int| 0 <= i < order.len() ==> lo <= #[trigger] order[i] < hi
}

/// The items from `lo` up to `hi` in draw order.
fn order_range(keys: &Vec<i32>, lo: usize, hi: usize) -> (r: Vec<usize>)
    requires
        lo <= hi <= keys@.len(),
    ensures
        covers(r@, lo as int, hi as int),
        in_draw_order(r@, keys@),
    decreases hi - lo,
{
    let mut r: Vec<usize> = Vec::new();
    if hi - lo <= 1 {
        if lo < hi {
            r.push(lo);
        }
        return r;
    }
    let mid: usize = lo + (hi - lo) / 2;
    let left = order_range(keys, lo, mid);
    let right = order_range(keys, mid, hi);
    let mut i: usize = 0;
    let mut j: usize = 0;
    while i < left.len() || j < right.len()
        invariant
            lo <= mid <= hi <= keys@.len(),
            covers(left@, lo as int, mid as int),
            covers(right@, mid as int, hi as int),
            in_draw_order(left@, keys@),
            in_draw_order(right@, keys@),
            i <= left@.len(),
            j <= right@.len(),
            r@.len() == i + j,
            in_draw_order(r@, keys@),
            forall|k: int| 0 <= k < r@.len() ==> lo <= #[trigger] r@[k] < hi,
            forall|k: int, m: int|
                0 <= k < r@.len() && i <= m < left@.len() ==> drawn_before(
                    keys@,
                    #[trigger] r@[k],
                    #[trigger] left@[m],
                ),
            forall|k: int, m: int|
                0 <= k < r@.len() && j <= m < right@.len() ==> drawn_before(
                    keys@,
                    #[trigger] r@[k],
                    #[trigger] right@[m],
                ),
        decreases left@.len() - i + right@.len() - j,
    {
        let from_left: bool = if i == left.len() {
            false
        } else if j == right.len() {
            true
        } else {
            keys[left[i]] <= keys[right[j]]
        };
        let ghost before = r@;
        if from_left {
            let item: usize = left[i];
            proof {
                assert forall|m: int| j <= m < right@.len() implies drawn_before(
                    keys@,
                    item,
                    #[trigger] right@[m],
                ) by {
                    if m > j {
                        assert(drawn_before(keys@, right@[j as int], right@[m]));
                    }
                }
            }
            r.push(item);
            i = i + 1;
        } else {
            let item: usize = right[j];
            proof {
                assert forall|m: int| i <= m < left@.len() implies drawn_before(
                    keys@,
                    item,
                    #[trigger] left@[m],
                ) by {
                    if m > i {
                        assert(drawn_before(keys@, left@[i as int], left@[m]));
                    }
                }
            }
            r.push(item);
            j = j + 1;
        }
        assert(r@ == before.push(r@.last()));
    }
    r
}

/// The order in which to draw items with these depth keys: those with smaller keys first, and
/// among equal keys those that come first.
pub fn draw_order(keys: &Vec<i32>) -> (r: Vec<usize>)
    ensures
        covers(r@, 0, keys@.len() as int),
        in_draw_order(r@, keys@),
        r@.len() == keys@.len(),
        forall|i: int| 0 <= i < r@.len() ==> #[trigger] r@[i] < keys@.len(),
        forall|i: int, j: int|
            0 <= i < j < r@.len() ==> {
                ||| keys@[#[trigger] r@[i] as int] < keys@[#[trigger] r@[j] as int]
                ||| keys@[r@[i] as int] == keys@[r@[j] as int] && r@[i] < r@[j]
            },
{
    order_range(keys, 0, keys.len())
}

/// In a draw order every item is drawn exactly once.
pub proof fn law_every_item_is_drawn_once(order: Seq<usize>, keys: Seq<i32>, item: usize)
    requires
        covers(order, 0, keys.len() as int),
        in_draw_order(order, keys),
        item < keys.len(),
    ensures
        order.no_duplicates(),
        order.contains(item),
{
    let n = keys.len() as int;
    let items = order.map_values(|x: usize| x as int);
    let all = vstd::set_lib::set_int_range(0, n);
    assert(items.no_duplicates());
    items.unique_seq_to_set();
    vstd::set_lib::lemma_int_range(0, n);
    assert(items.to_set().subset_of(all)) by {
        assert forall|x: int| items.to_set().contains(x) implies all.contains(x) by {
            let k = choose|k: int| 0 <= k < items.len() && items[k] == x;
            assert(order[k] == x);
        }
    }
    vstd::seq_lib::seq_to_set_is_finite(items);
    vstd::set_lib::lemma_subset_equality(items.to_set(), all);
    assert(all.contains(item as int));
    assert(items.to_set().contains(item as int));
    let k = choose|k: int| 0 <= k < items.len() && items[k] == item as int;
    assert(order[k] == item);
}

/// The keys order single-precision numbers as the numbers are ordered: those without a sign bit
/// by their bits, those with one the other way round and before the others, and both zeros alike.
pub proof fn law_keys_order_like_the_numbers(a: u32, b: u32)
    ensures
        a < 0x8000_0000 && b < 0x8000_0000 ==> (key_of(a) < key_of(b) <==> a < b),
        a >= 0x8000_0000 && b >= 0x8000_0000 ==> (key_of(a) < key_of(b) <==> a > b),
        a >= 0x8000_0000 && b < 0x8000_0000 ==> key_of(a) <= key_of(b) && (key_of(a) == key_of(b)
            <==> a == 0x8000_0000 && b == 0),
{
}

/// In a draw order an item comes before another just where it has the smaller key, or the same
/// key and the smaller index.
pub proof fn law_draw_order_goes_by_the_keys(order: Seq<usize>, keys: Seq<i32>, i: int, j: int)
    requires
        covers(order, 0, keys.len() as int),
        in_draw_order(order, keys),
        0 <= i < j < order.len(),
    ensures
        order.len() == keys.len(),
        order[i] < keys.len(),
        order[j] < keys.len(),
        keys[order[i] as int] <= keys[order[j] as int],
        keys[order[i] as int] == keys[order[j] as int] ==> order[i] < order[j],
{
    assert(drawn_before(keys, order[i], order[j]));
}

} // verus!

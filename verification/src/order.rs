//! Putting things in order without losing the order they were in.
//!
//! Every list the mixer shows is sorted by a text, and two entries with the
//! same text keep the order they had. What is computed here is which entry
//! goes where; the caller moves its own entries.

use vstd::prelude::*;

use crate::text;

verus! {

/// What an entry is sorted by: the early ones first, each half by text.
#[derive(Debug)]
pub struct Key {
    pub late: bool,
    pub text: String,
}

/// A key as the contracts see it.
pub struct Rank {
    pub late: bool,
    pub text: Seq<char>,
}

impl View for Key {
    type V = Rank;

    open spec fn view(&self) -> Rank {
        Rank { late: self.late, text: self.text@ }
    }
}

/// Whether `a` is sorted strictly before `b`.
pub open spec fn ranks_before(a: Rank, b: Rank) -> bool {
    if a.late == b.late {
        text::before(a.text, b.text)
    } else {
        b.late
    }
}

/// The rank of a text among others that are all early.
pub open spec fn by_text(text: Seq<char>) -> Rank {
    Rank { late: false, text }
}

/// The ranks of a list of keys.
pub open spec fn ranks(keys: Seq<Key>) -> Seq<Rank> {
    keys.map_values(|key: Key| key@)
}

/// `order` with `i` put in behind everything that is not sorted after it.
pub open spec fn placed(order: Seq<int>, ranks: Seq<Rank>, i: int) -> Seq<int>
    decreases order.len(),
{
    if order.len() > 0 && ranks_before(ranks[i], ranks[order.last()]) {
        placed(order.drop_last(), ranks, i).push(order.last())
    } else {
        order.push(i)
    }
}

/// The first `n` entries in order, each by its index.
pub open spec fn order_of(ranks: Seq<Rank>, n: nat) -> Seq<int>
    decreases n,
{
    if n == 0 {
        seq![]
    } else {
        placed(order_of(ranks, (n - 1) as nat), ranks, n - 1)
    }
}

/// `items` sorted by their ranks.
pub open spec fn sorted<T>(items: Seq<T>, ranks: Seq<Rank>) -> Seq<T> {
    order_of(ranks, items.len()).map_values(|i: int| items[i])
}

/// Whether `a` belongs before `b`: by rank, and by index where the ranks
/// are the same.
pub open spec fn belongs_before(ranks: Seq<Rank>, a: int, b: int) -> bool {
    ranks_before(ranks[a], ranks[b]) || (ranks[a] == ranks[b] && a < b)
}

/// The order lists every index once, and each before all that it belongs
/// before.
pub open spec fn is_order(ranks: Seq<Rank>, n: nat, order: Seq<int>) -> bool {
    &&& order.len() == n
    &&& forall|p: int| 0 <= p < n ==> 0 <= #[trigger] order[p] < n
    &&& forall|p: int, q: int|
        0 <= p < q < n ==> belongs_before(ranks, #[trigger] order[p], #[trigger] order[q])
}

proof fn ranks_before_is_strict(a: Rank, b: Rank, c: Rank)
    ensures
        !ranks_before(a, a),
        ranks_before(a, b) && ranks_before(b, c) ==> ranks_before(a, c),
        a == b || ranks_before(a, b) || ranks_before(b, a),
{
    text::before_is_irreflexive(a.text);
    text::before_is_total(a.text, b.text);
    if text::before(a.text, b.text) && text::before(b.text, c.text) {
        text::before_is_transitive(a.text, b.text, c.text);
    }
}

proof fn belongs_before_is_transitive(ranks: Seq<Rank>, a: int, b: int, c: int)
    requires
        belongs_before(ranks, a, b),
        belongs_before(ranks, b, c),
    ensures
        belongs_before(ranks, a, c),
{
    ranks_before_is_strict(ranks[a], ranks[b], ranks[c]);
}

/// What [`placed`] does to an order.
proof fn placed_keeps_order(order: Seq<int>, ranks: Seq<Rank>, n: nat, i: int)
    requires
        forall|p: int| 0 <= p < order.len() ==> 0 <= #[trigger] order[p] < n,
        forall|p: int, q: int|
            0 <= p < q < order.len() ==> belongs_before(
                ranks,
                #[trigger] order[p],
                #[trigger] order[q],
            ),
        i == n,
    ensures
        ({
            let r = placed(order, ranks, i);
            &&& r.len() == order.len() + 1
            &&& forall|p: int| 0 <= p < r.len() ==> 0 <= #[trigger] r[p] <= n
            &&& forall|p: int|
                0 <= p < r.len() ==> #[trigger] r[p] == i || order.contains(r[p])
            &&& forall|p: int, q: int|
                0 <= p < q < r.len() ==> belongs_before(
                    ranks,
                    #[trigger] r[p],
                    #[trigger] r[q],
                )
        }),
    decreases order.len(),
{
    let r = placed(order, ranks, i);
    if order.len() > 0 && ranks_before(ranks[i], ranks[order.last()]) {
        let shorter = order.drop_last();
        placed_keeps_order(shorter, ranks, n, i);
        let s = placed(shorter, ranks, i);
        assert forall|p: int| 0 <= p < r.len() implies #[trigger] r[p] == i || order.contains(
            r[p],
        ) by {
            if p < s.len() {
                assert(r[p] == s[p]);
                if s[p] != i {
                    let k = choose|k: int| 0 <= k < shorter.len() && shorter[k] == s[p];
                    assert(order[k] == s[p]);
                }
            } else {
                assert(order[order.len() - 1] == r[p]);
            }
        }
        assert forall|p: int, q: int| 0 <= p < q < r.len() implies belongs_before(
            ranks,
            #[trigger] r[p],
            #[trigger] r[q],
        ) by {
            if q == s.len() {
                assert(r[p] == s[p]);
                if s[p] != i {
                    let k = choose|k: int| 0 <= k < shorter.len() && shorter[k] == s[p];
                    assert(order[k] == s[p]);
                    assert(order[order.len() - 1] == r[q]);
                }
            } else {
                assert(r[p] == s[p] && r[q] == s[q]);
            }
        }
    } else {
        assert forall|p: int| 0 <= p < r.len() implies #[trigger] r[p] == i || order.contains(
            r[p],
        ) by {
            if p < order.len() {
                assert(order[p] == r[p]);
            }
        }
        assert forall|p: int, q: int| 0 <= p < q < r.len() implies belongs_before(
            ranks,
            #[trigger] r[p],
            #[trigger] r[q],
        ) by {
            if q == order.len() {
                let last = order.last();
                ranks_before_is_strict(ranks[last], ranks[i], ranks[last]);
                assert(belongs_before(ranks, last, i));
                if p < order.len() - 1 {
                    assert(order[order.len() - 1] == last);
                    belongs_before_is_transitive(ranks, order[p], last, i);
                }
            }
        }
    }
}

/// The order that is computed is one.
pub proof fn order_of_is_order(ranks: Seq<Rank>, n: nat)
    ensures
        is_order(ranks, n, order_of(ranks, n)),
    decreases n,
{
    if n > 0 {
        order_of_is_order(ranks, (n - 1) as nat);
        placed_keeps_order(order_of(ranks, (n - 1) as nat), ranks, (n - 1) as nat, n - 1);
    }
}

/// Every index is somewhere in the order.
pub proof fn order_of_is_complete(ranks: Seq<Rank>, n: nat, i: int)
    requires
        0 <= i < n,
    ensures
        order_of(ranks, n).contains(i),
    decreases n,
{
    let shorter = order_of(ranks, (n - 1) as nat);
    placed_has_all(shorter, ranks, n - 1, i);
    if i < n - 1 {
        order_of_is_complete(ranks, (n - 1) as nat, i);
    }
}

proof fn placed_has_all(order: Seq<int>, ranks: Seq<Rank>, i: int, j: int)
    ensures
        j == i || order.contains(j) ==> placed(order, ranks, i).contains(j),
    decreases order.len(),
{
    let r = placed(order, ranks, i);
    if order.len() > 0 && ranks_before(ranks[i], ranks[order.last()]) {
        let shorter = order.drop_last();
        placed_has_all(shorter, ranks, i, j);
        let s = placed(shorter, ranks, i);
        if j == i || order.contains(j) {
            if j == order.last() {
                assert(r[r.len() - 1] == j);
            } else {
                if j != i {
                    let k = choose|k: int| 0 <= k < order.len() && order[k] == j;
                    assert(shorter[k] == j);
                }
                let k = choose|k: int| 0 <= k < s.len() && s[k] == j;
                assert(r[k] == j);
            }
        }
    } else if j == i {
        assert(r[r.len() - 1] == j);
    } else if order.contains(j) {
        let k = choose|k: int| 0 <= k < order.len() && order[k] == j;
        assert(r[k] == j);
    }
}

fn key_before(a: &Key, b: &Key) -> (r: bool)
    ensures
        r == ranks_before(a@, b@),
{
    if a.late == b.late {
        text::comes_before(a.text.as_str(), b.text.as_str())
    } else {
        b.late
    }
}

/// Which entry goes where.
pub fn order(keys: &Vec<Key>) -> (order: Vec<usize>)
    ensures
        order@.map_values(|i: usize| i as int) == order_of(ranks(keys@), keys@.len()),
        order@.len() == keys@.len(),
        forall|p: int| 0 <= p < order@.len() ==> #[trigger] order@[p] < keys@.len(),
{
    let mut order: Vec<usize> = Vec::new();
    let ghost ranks = ranks(keys@);
    proof {
        assert(order@.map_values(|i: usize| i as int) =~= order_of(ranks, 0));
    }
    for i in 0..keys.len()
        invariant
            ranks == crate::order::ranks(keys@),
            order@.map_values(|i: usize| i as int) == order_of(ranks, i as nat),
            order@.len() == i,
            forall|p: int| 0 <= p < order@.len() ==> #[trigger] order@[p] < i,
    {
        let ghost so_far = order@.map_values(|i: usize| i as int);
        let mut at: usize = order.len();
        proof {
            assert(so_far.take(at as int) =~= so_far);
            assert(so_far.skip(at as int) =~= Seq::empty());
            assert(placed(so_far, ranks, i as int) + Seq::<int>::empty() =~= placed(
                so_far,
                ranks,
                i as int,
            ));
        }
        while at > 0 && key_before(&keys[i], &keys[order[at - 1]])
            invariant
                i < keys@.len(),
                order@.len() == i,
                at <= order@.len(),
                ranks == crate::order::ranks(keys@),
                so_far == order@.map_values(|i: usize| i as int),
                forall|p: int| 0 <= p < order@.len() ==> #[trigger] order@[p] < i,
                placed(so_far, ranks, i as int) == placed(so_far.take(at as int), ranks, i as int)
                    + so_far.skip(at as int),
            ensures
                at <= order@.len(),
                at == 0 || !ranks_before(ranks[i as int], ranks[so_far[at - 1]]),
                placed(so_far, ranks, i as int) == placed(so_far.take(at as int), ranks, i as int)
                    + so_far.skip(at as int),
            decreases at,
        {
            proof {
                let head = so_far.take(at as int);
                assert(head.last() == so_far[at - 1]);
                assert(head.drop_last() =~= so_far.take(at - 1));
                assert(placed(head.drop_last(), ranks, i as int).push(head.last()) + so_far.skip(
                    at as int,
                ) =~= placed(so_far.take(at - 1), ranks, i as int) + so_far.skip(at - 1));
            }
            at = at - 1;
        }
        proof {
            let head = so_far.take(at as int);
            if at > 0 {
                assert(head.last() == so_far[at - 1]);
            }
            assert(placed(head, ranks, i as int) == head.push(i as int));
            assert(so_far.insert(at as int, i as int) =~= head.push(i as int) + so_far.skip(
                at as int,
            ));
        }
        order.insert(at, i);
        proof {
            assert(order@.map_values(|i: usize| i as int) =~= so_far.insert(at as int, i as int));
        }
    }
    order
}

/// No entry goes to two places.
pub proof fn order_of_is_injective(ranks: Seq<Rank>, n: nat, p: int, q: int)
    requires
        0 <= p < q < n,
    ensures
        order_of(ranks, n)[p] != order_of(ranks, n)[q],
{
    order_of_is_order(ranks, n);
    let a = order_of(ranks, n)[p];
    let b = order_of(ranks, n)[q];
    assert(belongs_before(ranks, a, b));
    ranks_before_is_strict(ranks[a], ranks[a], ranks[a]);
}

/// Sort entries by their keys. Entries with the same key keep their order.
pub fn sort<T>(items: Vec<T>, keys: &Vec<Key>) -> (list: Vec<T>)
    requires
        items@.len() == keys@.len(),
    ensures
        list@ == sorted(items@, ranks(keys@)),
{
    let places = order(keys);
    let ghost all = items@;
    let ghost ranks = ranks(keys@);
    let n = items.len();
    let mut left: Vec<Option<T>> = Vec::new();
    for item in it: items
        invariant
            it.seq() == all,
            left@.len() == it.index(),
            forall|i: int| 0 <= i < it.index() ==> #[trigger] left@[i] == Some(all[i]),
    {
        left.push(Some(item));
    }
    let mut list: Vec<T> = Vec::new();
    for p in 0..n
        invariant
            n == all.len(),
            left@.len() == n,
            places@.len() == n,
            places@.map_values(|i: usize| i as int) == order_of(ranks, n as nat),
            forall|i: int| 0 <= i < n ==> #[trigger] places@[i] < n,
            list@.len() == p,
            forall|i: int| 0 <= i < p ==> #[trigger] list@[i] == all[places@[i] as int],
            forall|i: int|
                p <= i < n ==> left@[#[trigger] places@[i] as int] == Some(all[places@[i] as int]),
    {
        let at = places[p];
        let ghost before = left@;
        let slot = left[at].take();
        proof {
            assert forall|i: int| p < i < n implies left@[#[trigger] places@[i] as int] == Some(
                all[places@[i] as int],
            ) by {
                order_of_is_injective(ranks, n as nat, p as int, i);
                let order = order_of(ranks, n as nat);
                assert(order[p as int] == places@[p as int] as int);
                assert(order[i] == places@[i] as int);
                assert(before[places@[i] as int] == Some(all[places@[i] as int]));
            }
        }
        match slot {
            Some(item) => {
                list.push(item);
            },
            None => {
                proof {
                    assert(before[places@[p as int] as int] is Some);
                }
            },
        }
    }
    proof {
        let want = sorted(all, ranks);
        assert forall|i: int| 0 <= i < n implies list@[i] == want[i] by {
            assert(order_of(ranks, n as nat)[i] == places@[i] as int);
        }
        assert(list@ =~= want);
    }
    list
}

/// Sorting neither loses an entry nor makes one up.
pub proof fn sorting_keeps_everything<T>(items: Seq<T>, ranks: Seq<Rank>, item: T)
    ensures
        sorted(items, ranks).len() == items.len(),
        sorted(items, ranks).contains(item) == items.contains(item),
{
    let places = order_of(ranks, items.len());
    let all = sorted(items, ranks);
    order_of_is_order(ranks, items.len());
    if items.contains(item) {
        let i = items.index_of(item);
        order_of_is_complete(ranks, items.len(), i);
        let p = places.index_of(i);
        assert(all[p] == item);
    }
    if all.contains(item) {
        let p = all.index_of(item);
        assert(items[places[p]] == item);
    }
}

/// Sorting puts what is late behind what is not, each by its text, and
/// leaves what ranks the same in the order it was in.
pub proof fn the_late_come_last_and_texts_in_order(ranks: Seq<Rank>, i: int, j: int)
    requires
        0 <= i < j < ranks.len(),
    ensures
        ({
            let order = order_of(ranks, ranks.len());
            let a = order[i];
            let b = order[j];
            &&& 0 <= a < ranks.len() && 0 <= b < ranks.len() && a != b
            &&& ranks[a].late ==> ranks[b].late
            &&& ranks[a].late == ranks[b].late ==> !text::before(ranks[b].text, ranks[a].text)
            &&& ranks[a].late == ranks[b].late && ranks[a].text == ranks[b].text ==> a < b
        }),
{
    order_of_is_order(ranks, ranks.len());
    order_of_is_injective(ranks, ranks.len(), i, j);
    let a = order_of(ranks, ranks.len())[i];
    let b = order_of(ranks, ranks.len())[j];
    assert(belongs_before(ranks, a, b));
    text::before_is_irreflexive(ranks[a].text);
    if text::before(ranks[a].text, ranks[b].text) && text::before(ranks[b].text, ranks[a].text) {
        text::before_is_transitive(ranks[a].text, ranks[b].text, ranks[a].text);
    }
}

} // verus!

//! What filtering a list does to it.

use vstd::prelude::*;

verus! {

/// Whether a list holds a number.
pub fn holds(list: &Vec<u32>, n: u32) -> (r: bool)
    ensures
        r == list@.contains(n),
        r == list@.to_set().contains(n),
{
    for i in 0..list.len()
        invariant
            forall|j: int| 0 <= j < i ==> #[trigger] list@[j] != n,
    {
        if list[i] == n {
            return true;
        }
    }
    false
}

/// Put a number into a list that holds nothing twice, or take it out.
/// Returns whether that changed anything.
pub fn set_member(list: &mut Vec<u32>, n: u32, member: bool) -> (changed: bool)
    requires
        old(list)@.no_duplicates(),
    ensures
        final(list)@.no_duplicates(),
        changed == (old(list)@.to_set().contains(n) != member),
        !changed ==> final(list)@ == old(list)@,
        final(list)@.to_set() == (if member {
            old(list)@.to_set().insert(n)
        } else {
            old(list)@.to_set().remove(n)
        }),
{
    let ghost before = list@;
    let mut i: usize = 0;
    while i < list.len()
        invariant
            list@ == before,
            i <= list@.len(),
            forall|j: int| 0 <= j < i ==> #[trigger] list@[j] != n,
        ensures
            i < list@.len() ==> list@[i as int] == n,
        decreases list@.len() - i,
    {
        if list[i] == n {
            break;
        }
        i = i + 1;
    }
    let there = i < list.len();
    proof {
        assert(there == before.contains(n));
    }
    if there == member {
        proof {
            if member {
                assert(before.to_set() =~= before.to_set().insert(n));
            } else {
                assert(before.to_set() =~= before.to_set().remove(n));
            }
        }
        return false;
    }
    if member {
        list.push(n);
        proof {
            assert forall|m: u32| list@.contains(m) == (m == n || before.contains(m)) by {
                if m == n {
                    assert(list@[before.len() as int] == n);
                } else if before.contains(m) {
                    let k = before.index_of(m);
                    assert(list@[k] == m);
                } else if list@.contains(m) {
                    let k = list@.index_of(m);
                    assert(before[k] == m);
                }
            }
            assert(list@.to_set() =~= before.to_set().insert(n));
        }
    } else {
        list.remove(i);
        proof {
            assert forall|m: u32| list@.contains(m) == (m != n && before.contains(m)) by {
                if list@.contains(m) {
                    let k = list@.index_of(m);
                    let kk = if k < i { k } else { k + 1 };
                    assert(before[kk] == m);
                } else if before.contains(m) && m != n {
                    let kk = before.index_of(m);
                    let k = if kk < i { kk } else { kk - 1 };
                    assert(list@[k] == m);
                }
            }
            assert(list@.to_set() =~= before.to_set().remove(n));
        }
    }
    true
}

/// Nothing taken, nothing kept.
pub proof fn filter_none<T>(s: Seq<T>, keep: spec_fn(T) -> bool)
    ensures
        s.take(0).filter(keep) == Seq::<T>::empty(),
{
    reveal(Seq::filter);
    assert(s.take(0).filter(keep) =~= Seq::<T>::empty());
}

/// Filtering one entry more.
pub proof fn filter_step<T>(s: Seq<T>, i: int, keep: spec_fn(T) -> bool)
    requires
        0 <= i < s.len(),
    ensures
        s.take(i + 1).filter(keep) == (if keep(s[i]) {
            s.take(i).filter(keep).push(s[i])
        } else {
            s.take(i).filter(keep)
        }),
{
    reveal(Seq::filter);
    assert(s.take(i + 1).drop_last() =~= s.take(i));
    assert(s.take(i + 1).last() == s[i]);
}

/// A filter that keeps everything changes nothing.
pub proof fn all_kept<T>(s: Seq<T>, keep: spec_fn(T) -> bool)
    requires
        forall|j: int| 0 <= j < s.len() ==> keep(#[trigger] s[j]),
    ensures
        s.filter(keep) == s,
    decreases s.len(),
{
    reveal(Seq::filter);
    if s.len() > 0 {
        let shorter = s.drop_last();
        assert forall|j: int| 0 <= j < shorter.len() implies keep(#[trigger] shorter[j]) by {
            assert(shorter[j] == s[j]);
        }
        all_kept(shorter, keep);
        assert(shorter.push(s.last()) =~= s);
    }
}

/// A filter that leaves out one entry removes it.
pub proof fn all_but_one<T>(s: Seq<T>, at: int, keep: spec_fn(T) -> bool)
    requires
        0 <= at < s.len(),
        !keep(s[at]),
        forall|j: int| 0 <= j < s.len() && j != at ==> keep(#[trigger] s[j]),
    ensures
        s.filter(keep) == s.remove(at),
    decreases s.len(),
{
    reveal(Seq::filter);
    let shorter = s.drop_last();
    if at == s.len() - 1 {
        assert forall|j: int| 0 <= j < shorter.len() implies keep(#[trigger] shorter[j]) by {
            assert(shorter[j] == s[j]);
        }
        all_kept(shorter, keep);
        assert(s.remove(at) =~= shorter);
    } else {
        assert forall|j: int| 0 <= j < shorter.len() && j != at implies keep(
            #[trigger] shorter[j],
        ) by {
            assert(shorter[j] == s[j]);
        }
        all_but_one(shorter, at, keep);
        assert(shorter.remove(at).push(s.last()) =~= s.remove(at));
    }
}

/// What is kept is what was there and passes.
pub proof fn filter_contains<T>(s: Seq<T>, keep: spec_fn(T) -> bool, x: T)
    ensures
        s.filter(keep).contains(x) == (s.contains(x) && keep(x)),
    decreases s.len(),
{
    reveal(Seq::filter);
    if s.len() > 0 {
        let shorter = s.drop_last();
        filter_contains(shorter, keep, x);
        assert(s =~= shorter.push(s.last()));
        let kept = shorter.filter(keep);
        if kept.contains(x) {
            let k = kept.index_of(x);
            assert(kept.push(s.last())[k] == x);
        }
        if shorter.contains(x) {
            let k = shorter.index_of(x);
            assert(s[k] == x);
        }
        if s.contains(x) && x != s.last() {
            let k = s.index_of(x);
            assert(shorter[k] == x);
        }
        if x == s.last() {
            assert(s[s.len() - 1] == x);
            assert(kept.push(x)[kept.len() as int] == x);
        }
        if kept.push(s.last()).contains(x) && x != s.last() {
            let k = kept.push(s.last()).index_of(x);
            assert(kept[k] == x);
        }
    }
}

/// Filtering puts nothing in twice.
pub proof fn filter_no_duplicates<T>(s: Seq<T>, keep: spec_fn(T) -> bool)
    requires
        s.no_duplicates(),
    ensures
        s.filter(keep).no_duplicates(),
    decreases s.len(),
{
    reveal(Seq::filter);
    if s.len() > 0 {
        let shorter = s.drop_last();
        let last = s.last();
        assert forall|i: int, j: int|
            0 <= i < shorter.len() && 0 <= j < shorter.len() && i != j implies shorter[i]
            != shorter[j] by {
            assert(s[i] != s[j]);
        }
        filter_no_duplicates(shorter, keep);
        let kept = shorter.filter(keep);
        filter_contains(shorter, keep, last);
        if shorter.contains(last) {
            let k = shorter.index_of(last);
            assert(s[k] == s[s.len() - 1]);
        }
        assert forall|i: int, j: int|
            0 <= i < kept.len() + 1 && 0 <= j < kept.len() + 1 && i != j implies kept.push(last)[i]
            != kept.push(last)[j] by {
            if i < kept.len() {
                assert(kept.contains(kept[i]));
            }
            if j < kept.len() {
                assert(kept.contains(kept[j]));
            }
        }
    }
}

/// What is told apart by something is still told apart once filtered.
pub proof fn filter_keeps_apart<T, N>(s: Seq<T>, keep: spec_fn(T) -> bool, id: spec_fn(T) -> N)
    requires
        forall|i: int, j: int|
            0 <= i < j < s.len() ==> id(#[trigger] s[i]) != id(#[trigger] s[j]),
    ensures
        forall|i: int, j: int|
            0 <= i < j < s.filter(keep).len() ==> id(#[trigger] s.filter(keep)[i]) != id(
                #[trigger] s.filter(keep)[j],
            ),
    decreases s.len(),
{
    reveal(Seq::filter);
    if s.len() > 0 {
        let shorter = s.drop_last();
        let last = s.last();
        assert forall|i: int, j: int| 0 <= i < j < shorter.len() implies id(
            #[trigger] shorter[i],
        ) != id(#[trigger] shorter[j]) by {
            assert(id(s[i]) != id(s[j]));
        }
        filter_keeps_apart(shorter, keep, id);
        let before = shorter.filter(keep);
        let now = s.filter(keep);
        assert forall|i: int, j: int| 0 <= i < j < now.len() implies id(#[trigger] now[i]) != id(
            #[trigger] now[j],
        ) by {
            assert(now[i] == before[i]);
            if j < before.len() {
                assert(now[j] == before[j]);
            } else {
                assert(before.contains(before[i]));
                filter_contains(shorter, keep, before[i]);
                let k = shorter.index_of(before[i]);
                assert(s[k] == before[i]);
                assert(s[s.len() - 1] == last);
                assert(id(s[k]) != id(s[s.len() - 1]));
            }
        }
    }
}

/// Filtering what can be split at a place: all before it kept and none
/// after, or the other way round.
pub proof fn filter_at<T>(s: Seq<T>, at: int, keep: spec_fn(T) -> bool, before: bool)
    requires
        0 <= at <= s.len(),
        forall|j: int| 0 <= j < at ==> keep(#[trigger] s[j]) == before,
        forall|j: int| at <= j < s.len() ==> keep(#[trigger] s[j]) != before,
    ensures
        s.filter(keep) == (if before {
            s.take(at)
        } else {
            s.skip(at)
        }),
    decreases s.len(),
{
    reveal(Seq::filter);
    if s.len() == 0 {
        assert(s.take(at) =~= s);
        assert(s.skip(at) =~= s);
    } else {
        let shorter = s.drop_last();
        if at == s.len() {
            assert forall|j: int| 0 <= j < at - 1 implies keep(#[trigger] shorter[j]) == before by {
                assert(shorter[j] == s[j]);
            }
            filter_at(shorter, at - 1, keep, before);
            assert(keep(s[at - 1]) == before);
            assert(shorter.take(at - 1).push(s.last()) =~= s.take(at));
            assert(shorter.skip(at - 1) =~= s.skip(at));
        } else {
            assert forall|j: int| 0 <= j < at implies keep(#[trigger] shorter[j]) == before by {
                assert(shorter[j] == s[j]);
            }
            assert forall|j: int| at <= j < shorter.len() implies keep(#[trigger] shorter[j])
                != before by {
                assert(shorter[j] == s[j]);
            }
            filter_at(shorter, at, keep, before);
            assert(keep(s[s.len() - 1]) != before);
            assert(shorter.take(at) =~= s.take(at));
            assert(shorter.skip(at).push(s.last()) =~= s.skip(at));
        }
    }
}

/// A test that only one entry passes leaves that one.
pub proof fn only_one_kept<T>(s: Seq<T>, at: int, keep: spec_fn(T) -> bool)
    requires
        0 <= at < s.len(),
        keep(s[at]),
        forall|j: int| 0 <= j < s.len() && j != at ==> !keep(#[trigger] s[j]),
    ensures
        s.filter(keep) == seq![s[at]],
    decreases s.len(),
{
    reveal(Seq::filter);
    let shorter = s.drop_last();
    assert forall|j: int| 0 <= j < shorter.len() && j != at implies !keep(
        #[trigger] shorter[j],
    ) by {
        assert(shorter[j] == s[j]);
    }
    if at < shorter.len() {
        only_one_kept(shorter, at, keep);
    } else {
        filter_at(shorter, 0, keep, true);
        assert(s.filter(keep) =~= seq![s[at]]);
    }
}

} // verus!

//! Picking some elements of a sequence.

use vstd::prelude::*;

verus! {

/// The elements whose flag is set, in order.
pub open spec fn select<T>(s: Seq<T>, flags: Seq<bool>) -> Seq<T>
    decreases s.len(),
{
    if s.len() == 0 {
        Seq::empty()
    } else if flags[s.len() - 1] {
        select(s.drop_last(), flags).push(s.last())
    } else {
        select(s.drop_last(), flags)
    }
}

/// Whether `item` stands where a flag is set.
pub open spec fn is_flagged<T>(s: Seq<T>, flags: Seq<bool>, item: T) -> bool {
    exists|i: int| 0 <= i < s.len() && flags[i] && #[trigger] s[i] == item
}

/// Exactly the elements whose flag is set are selected.
pub proof fn lemma_select<T>(s: Seq<T>, flags: Seq<bool>)
    requires
        s.len() <= flags.len(),
    ensures
        select(s, flags).len() <= s.len(),
        forall|i: int|
            0 <= i < s.len() && flags[i] ==> select(s, flags).contains(#[trigger] s[i]),
        forall|k: int|
            0 <= k < select(s, flags).len() ==> is_flagged(
                s,
                flags,
                #[trigger] select(s, flags)[k],
            ),
    decreases s.len(),
{
    if s.len() > 0 {
        let before = s.drop_last();
        lemma_select(before, flags);
        let kept_before = select(before, flags);
        let kept = select(s, flags);
        let n = s.len() - 1;
        assert forall|i: int| 0 <= i < s.len() && flags[i] implies kept.contains(#[trigger] s[i]) by {
            if i < n {
                assert(before[i] == s[i]);
                let k = choose|k: int| 0 <= k < kept_before.len() && kept_before[k] == before[i];
                assert(kept[k] == s[i]);
            } else {
                assert(kept[kept.len() - 1] == s[i]);
            }
        }
        assert forall|k: int| 0 <= k < kept.len() implies is_flagged(
            s,
            flags,
            #[trigger] kept[k],
        ) by {
            if k < kept_before.len() {
                assert(kept[k] == kept_before[k]);
                let i = choose|i: int|
                    0 <= i < before.len() && flags[i] && (#[trigger] before[i]) == kept_before[k];
                assert(s[i] == before[i]);
            } else {
                assert(flags[n]);
                assert(kept[k] == s[n]);
            }
        }
    }
}

/// Only the flags of the elements there are matter.
pub proof fn lemma_select_flags<T>(s: Seq<T>, a: Seq<bool>, b: Seq<bool>)
    requires
        forall|i: int| 0 <= i < s.len() ==> #[trigger] a[i] == b[i],
    ensures
        select(s, a) == select(s, b),
    decreases s.len(),
{
    if s.len() > 0 {
        lemma_select_flags(s.drop_last(), a, b);
        assert(a[s.len() - 1] == b[s.len() - 1]);
    }
}

/// With every flag set, everything is selected.
pub proof fn lemma_select_all<T>(s: Seq<T>, flags: Seq<bool>)
    requires
        forall|i: int| 0 <= i < s.len() ==> #[trigger] flags[i],
    ensures
        select(s, flags) == s,
    decreases s.len(),
{
    if s.len() > 0 {
        lemma_select_all(s.drop_last(), flags);
        assert(flags[s.len() - 1]);
        assert(s =~= s.drop_last().push(s.last()));
    }
}

/// A flag of its own for each element, by a rule.
pub open spec fn flags_by<T>(s: Seq<T>, rule: spec_fn(T) -> bool) -> Seq<bool> {
    s.map_values(rule)
}

/// Selecting by a rule twice is selecting once.
pub proof fn lemma_select_again<T>(s: Seq<T>, rule: spec_fn(T) -> bool)
    ensures
        select(select(s, flags_by(s, rule)), flags_by(select(s, flags_by(s, rule)), rule))
            == select(s, flags_by(s, rule)),
{
    let flags = flags_by(s, rule);
    let kept = select(s, flags);
    lemma_select(s, flags);
    assert forall|k: int| 0 <= k < kept.len() implies #[trigger] flags_by(kept, rule)[k] by {
        assert(is_flagged(s, flags, kept[k]));
        let i = choose|i: int| 0 <= i < s.len() && flags[i] && (#[trigger] s[i]) == kept[k];
        assert(flags[i] == rule(s[i]));
    }
    lemma_select_all(kept, flags_by(kept, rule));
}

/// Selecting and mapping can be exchanged.
pub proof fn lemma_select_map<A, B>(s: Seq<A>, f: spec_fn(A) -> B, flags: Seq<bool>)
    ensures
        select(s.map_values(f), flags) == select(s, flags).map_values(f),
    decreases s.len(),
{
    if s.len() > 0 {
        lemma_select_map(s.drop_last(), f, flags);
        assert(s.map_values(f).drop_last() =~= s.drop_last().map_values(f));
    }
    assert(select(s.map_values(f), flags) =~= select(s, flags).map_values(f));
}

/// Keeps the elements whose flag is set.
pub fn keep_flagged<T>(items: &mut Vec<T>, flags: &Vec<bool>)
    requires
        flags@.len() == old(items)@.len(),
    ensures
        final(items)@ == select(old(items)@, flags@),
{
    let ghost all = items@;
    let mut reversed: Vec<T> = Vec::new();
    let mut left: usize = items.len();
    assert(all =~= all.take(left as int));
    assert(select(all, flags@) =~= select(all.take(left as int), flags@) + reversed@.reverse());
    while left > 0
        invariant
            left == items@.len(),
            left <= all.len(),
            flags@.len() == all.len(),
            items@ == all.take(left as int),
            select(all, flags@) == select(all.take(left as int), flags@) + reversed@.reverse(),
        decreases left,
    {
        let ghost later = reversed@.reverse();
        let ghost here = all.take(left as int);
        match items.pop() {
            Some(item) => {
                assert(here.drop_last() =~= all.take(left - 1));
                assert(item == here.last());
                if flags[left - 1] {
                    reversed.push(item);
                    assert(reversed@.reverse() =~= seq![item] + later);
                    assert(select(all, flags@) =~= select(all.take(left - 1), flags@)
                        + reversed@.reverse());
                }
            },
            None => {},
        }
        left = left - 1;
    }
    let ghost kept = reversed@.reverse();
    assert(select(all, flags@) =~= kept);
    assert(kept =~= items@ + reversed@.reverse());
    while reversed.len() > 0
        invariant
            kept == items@ + reversed@.reverse(),
        decreases reversed@.len(),
    {
        let ghost rest = reversed@;
        match reversed.pop() {
            Some(item) => {
                items.push(item);
                assert(rest.reverse() =~= seq![item] + reversed@.reverse());
                assert(kept =~= items@ + reversed@.reverse());
            },
            None => {},
        }
    }
    assert(items@ =~= kept);
}

/// Selecting by a rule is filtering by it: in order, each element for which the rule holds.
pub proof fn selecting_is_filtering<T>(
    s: Seq<T>,
    rule: spec_fn(T) -> bool,
    pred: spec_fn(T) -> bool,
)
    requires
        forall|x: T| #[trigger] rule(x) == pred(x),
    ensures
        select(s, flags_by(s, rule)) == s.filter(pred),
    decreases s.len(),
{
    reveal(Seq::filter);
    if s.len() > 0 {
        let before = s.drop_last();
        selecting_is_filtering(before, rule, pred);
        lemma_select_flags(before, flags_by(s, rule), flags_by(before, rule));
        assert(flags_by(s, rule)[s.len() - 1] == rule(s.last()));
    } else {
        assert(select(s, flags_by(s, rule)) =~= s.filter(pred));
    }
}

} // verus!

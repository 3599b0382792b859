//! The order of texts, character by character.

use vstd::prelude::*;

verus! {

/// Whether `a` and `b` agree up to `k`, where `a` ends or has the smaller character.
pub open spec fn parts_at(a: Seq<char>, b: Seq<char>, k: int) -> bool {
    &&& 0 <= k <= a.len()
    &&& k < b.len()
    &&& forall|i: int| 0 <= i < k ==> #[trigger] a[i] == b[i]
    &&& k == a.len() || (a[k] as int) < (b[k] as int)
}

/// Whether `a` comes before `b`: it is the beginning of `b`, or has the smaller character where
/// they first differ.
pub open spec fn text_before(a: Seq<char>, b: Seq<char>) -> bool {
    exists|k: int| #[trigger] parts_at(a, b, k)
}

/// The texts are in ascending order.
pub open spec fn ascending(list: Seq<Seq<char>>) -> bool {
    forall|i: int, j: int|
        0 <= i < j < list.len() ==> text_before(#[trigger] list[i], #[trigger] list[j])
}

/// No two texts come before each other.
pub proof fn text_order_is_one_way(a: Seq<char>, b: Seq<char>)
    requires
        text_before(a, b),
    ensures
        !text_before(b, a),
        a != b,
{
    let k = choose|k: int| #[trigger] parts_at(a, b, k);
    if a == b {
        assert(a[k] == b[k]);
    }
    assert forall|m: int| !#[trigger] parts_at(b, a, m) by {
        if parts_at(b, a, m) {
            if m < k {
                assert(a[m] == b[m]);
            } else if k < m {
                assert(b[k] == a[k]);
            }
        }
    }
}

/// What comes before a text comes before what follows that text.
pub proof fn text_order_is_transitive(a: Seq<char>, b: Seq<char>, c: Seq<char>)
    requires
        text_before(a, b),
        text_before(b, c),
    ensures
        text_before(a, c),
{
    let k = choose|k: int| #[trigger] parts_at(a, b, k);
    let m = choose|m: int| #[trigger] parts_at(b, c, m);
    if k < m {
        assert(b[k] == c[k]);
        assert forall|i: int| 0 <= i < k implies #[trigger] a[i] == c[i] by {
            assert(b[i] == c[i]);
        }
        assert(parts_at(a, c, k));
    } else {
        assert forall|i: int| 0 <= i < m implies #[trigger] a[i] == c[i] by {
            assert(b[i] == c[i]);
        }
        if m < k {
            assert(a[m] == b[m]);
        }
        assert(parts_at(a, c, m));
    }
}

/// No text occurs twice among texts in ascending order.
pub proof fn ascending_texts_are_distinct(list: Seq<Seq<char>>, i: int, j: int)
    requires
        ascending(list),
        0 <= i < j < list.len(),
    ensures
        list[i] != list[j],
{
    text_order_is_one_way(list[i], list[j]);
}

/// How two texts stand to each other.
#[derive(Debug, Clone, Copy, PartialEq, Eq)]
pub enum TextOrder {
    /// The first comes before the second.
    Before,
    /// They are the same.
    Same,
    /// The second comes before the first.
    After,
}

fn code_point(c: char) -> (r: u32)
    ensures
        r == c as int,
{
    c as u32
}

fn chars_of(text: &str) -> (r: Vec<char>)
    ensures
        r@ == text@,
{
    let mut out: Vec<char> = Vec::new();
    for c in it: text.chars()
        invariant
            it.seq() == text@,
            out@ == text@.take(it.index() as int),
    {
        let ghost i = it.index() as int;
        out.push(c);
        assert(out@ =~= text@.take(i + 1));
    }
    assert(text@.take(text@.len() as int) =~= text@);
    out
}

/// Says which of two texts comes first.
pub fn text_order(a: &str, b: &str) -> (r: TextOrder)
    ensures
        r is Before <==> text_before(a@, b@),
        r is Same <==> a@ == b@,
        r is After <==> text_before(b@, a@),
{
    let left = chars_of(a);
    let right = chars_of(b);
    let mut i: usize = 0;
    while i < left.len() && i < right.len() && left[i] == right[i]
        invariant
            i <= left@.len(),
            i <= right@.len(),
            forall|j: int| 0 <= j < i ==> #[trigger] left@[j] == right@[j],
        decreases left@.len() - i,
    {
        i = i + 1;
    }
    if i == left.len() && i == right.len() {
        assert(a@ =~= b@);
        proof {
            if text_before(a@, b@) {
                text_order_is_one_way(a@, b@);
            }
        }
        TextOrder::Same
    } else if i == left.len() || (i < right.len() && code_point(left[i]) < code_point(
        right[i],
    )) {
        proof {
            assert(parts_at(a@, b@, i as int));
            text_order_is_one_way(a@, b@);
        }
        TextOrder::Before
    } else {
        proof {
            assert(parts_at(b@, a@, i as int));
            text_order_is_one_way(b@, a@);
        }
        TextOrder::After
    }
}

} // verus!

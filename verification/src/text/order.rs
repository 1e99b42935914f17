//! The order of texts, and sorting by an order.

use vstd::prelude::*;

use crate::text::str_to_chars;

verus! {

/// Whether the text `a` stands before the text `b` in a dictionary, or equals
/// it: texts are ordered by their first characters that differ, a text before
/// those that continue it.
pub open spec fn text_le(a: Seq<char>, b: Seq<char>) -> bool
    decreases a.len(),
{
    if a.len() == 0 {
        true
    } else if b.len() == 0 {
        false
    } else if a[0] == b[0] {
        text_le(a.skip(1), b.skip(1))
    } else {
        a[0] < b[0]
    }
}

/// Every text equals itself in the order of texts.
pub proof fn lemma_text_le_reflexive(a: Seq<char>)
    ensures
        text_le(a, a),
    decreases a.len(),
{
    if a.len() > 0 {
        lemma_text_le_reflexive(a.skip(1));
    }
}

/// Of any two texts one stands before the other, or they are equal.
pub proof fn lemma_text_le_total(a: Seq<char>, b: Seq<char>)
    ensures
        text_le(a, b) || text_le(b, a),
    decreases a.len(),
{
    if a.len() > 0 && b.len() > 0 && a[0] == b[0] {
        lemma_text_le_total(a.skip(1), b.skip(1));
    }
}

/// The order of texts is transitive.
pub proof fn lemma_text_le_transitive(a: Seq<char>, b: Seq<char>, c: Seq<char>)
    requires
        text_le(a, b),
        text_le(b, c),
    ensures
        text_le(a, c),
    decreases a.len(),
{
    if a.len() > 0 && b.len() > 0 && c.len() > 0 && a[0] == b[0] && b[0] == c[0] {
        lemma_text_le_transitive(a.skip(1), b.skip(1), c.skip(1));
    }
}

/// Two texts of which each stands before the other or equals it are equal.
pub proof fn lemma_text_le_antisymmetric(a: Seq<char>, b: Seq<char>)
    requires
        text_le(a, b),
        text_le(b, a),
    ensures
        a == b,
    decreases a.len(),
{
    if a.len() > 0 && b.len() > 0 {
        lemma_text_le_antisymmetric(a.skip(1), b.skip(1));
        assert(a =~= seq![a[0]] + a.skip(1));
        assert(b =~= seq![b[0]] + b.skip(1));
    } else {
        assert(a =~= b);
    }
}

/// Tests whether the text of `a` stands before that of `b`, or equals it.
pub fn chars_le(a: &[char], b: &[char]) -> (r: bool)
    ensures
        r == text_le(a@, b@),
{
    let mut i: usize = 0;
    assert(a@.skip(0) =~= a@);
    assert(b@.skip(0) =~= b@);
    while i < a.len() && i < b.len()
        invariant
            i <= a@.len(),
            i <= b@.len(),
            text_le(a@, b@) == text_le(a@.skip(i as int), b@.skip(i as int)),
        decreases a@.len() - i,
    {
        assert(a@.skip(i as int).skip(1) =~= a@.skip(i + 1));
        assert(b@.skip(i as int).skip(1) =~= b@.skip(i + 1));
        if a[i] != b[i] {
            return a[i] < b[i];
        }
        i += 1;
    }
    i == a.len()
}

/// Tests whether the text of `a` stands before that of `b`, or equals it.
pub fn str_le(a: &str, b: &str) -> (r: bool)
    ensures
        r == text_le(a@, b@),
{
    let x = str_to_chars(a);
    let y = str_to_chars(b);
    chars_le(x.as_slice(), y.as_slice())
}

/// The sorted list `sorted` with `x` put in its place: behind the last item
/// that `x` does not have to precede. `le` says of two items whether the
/// first may stand before the second.
pub open spec fn insert_by<T>(sorted: Seq<T>, x: T, le: spec_fn(T, T) -> bool) -> Seq<T>
    decreases sorted.len(),
{
    if sorted.len() == 0 || le(sorted.last(), x) {
        sorted.push(x)
    } else {
        insert_by(sorted.drop_last(), x, le).push(sorted.last())
    }
}

/// The items `all` in the order that `le` gives; items that `le` does not
/// tell apart keep their order.
pub open spec fn sort_by<T>(all: Seq<T>, le: spec_fn(T, T) -> bool) -> Seq<T>
    decreases all.len(),
{
    if all.len() == 0 {
        Seq::empty()
    } else {
        insert_by(sort_by(all.drop_last(), le), all.last(), le)
    }
}

/// Where `x` goes into the sorted list `sorted`: the position that
/// `insert_by` gives it.
pub open spec fn insert_position<T>(sorted: Seq<T>, x: T, le: spec_fn(T, T) -> bool) -> int
    decreases sorted.len(),
{
    if sorted.len() == 0 || le(sorted.last(), x) {
        sorted.len() as int
    } else {
        insert_position(sorted.drop_last(), x, le)
    }
}

/// `insert_by` inserts at `insert_position` and leaves the rest as it was.
pub proof fn lemma_insert_by<T>(sorted: Seq<T>, x: T, le: spec_fn(T, T) -> bool)
    ensures
        0 <= insert_position(sorted, x, le) <= sorted.len(),
        insert_by(sorted, x, le) == sorted.insert(insert_position(sorted, x, le), x),
    decreases sorted.len(),
{
    if sorted.len() == 0 || le(sorted.last(), x) {
        assert(sorted.push(x) =~= sorted.insert(sorted.len() as int, x));
    } else {
        let front = sorted.drop_last();
        lemma_insert_by(front, x, le);
        let p = insert_position(front, x, le);
        assert(front.insert(p, x).push(sorted.last()) =~= sorted.insert(p, x));
    }
}

/// The relation `le` relates any two items one way or the other.
pub open spec fn is_total<T>(le: spec_fn(T, T) -> bool) -> bool {
    forall|a: T, b: T| #[trigger] le(a, b) || le(b, a)
}

/// The relation `le` is transitive.
pub open spec fn is_transitive<T>(le: spec_fn(T, T) -> bool) -> bool {
    forall|a: T, b: T, c: T| #[trigger] le(a, b) && #[trigger] le(b, c) ==> le(a, c)
}

/// The items `s` stand in the order that `le` gives.
pub open spec fn sorted_by<T>(s: Seq<T>, le: spec_fn(T, T) -> bool) -> bool {
    forall|i: int, j: int| 0 <= i < j < s.len() ==> le(#[trigger] s[i], #[trigger] s[j])
}

/// Where `insert_by` puts an item: behind an item that may stand before it,
/// and before items that may not.
pub proof fn lemma_insert_position<T>(sorted: Seq<T>, x: T, le: spec_fn(T, T) -> bool)
    ensures
        0 <= insert_position(sorted, x, le) <= sorted.len(),
        insert_position(sorted, x, le) == 0 || le(
            sorted[insert_position(sorted, x, le) - 1],
            x,
        ),
        forall|j: int|
            insert_position(sorted, x, le) <= j < sorted.len() ==> !le(#[trigger] sorted[j], x),
    decreases sorted.len(),
{
    if !(sorted.len() == 0 || le(sorted.last(), x)) {
        let front = sorted.drop_last();
        lemma_insert_position(front, x, le);
        assert forall|j: int| insert_position(sorted, x, le) <= j < sorted.len() implies !le(
            #[trigger] sorted[j],
            x,
        ) by {
            if j < front.len() {
                assert(sorted[j] == front[j]);
            }
        }
    }
}

/// Sorting with a total and transitive relation gives a sorted list with the
/// same items, each as often as before.
pub proof fn lemma_sort_by<T>(all: Seq<T>, le: spec_fn(T, T) -> bool)
    requires
        is_total(le),
        is_transitive(le),
    ensures
        sorted_by(sort_by(all, le), le),
        sort_by(all, le).to_multiset() == all.to_multiset(),
        sort_by(all, le).len() == all.len(),
    decreases all.len(),
{
    broadcast use vstd::seq_lib::to_multiset_insert, vstd::seq_lib::to_multiset_build;

    if all.len() > 0 {
        let front = all.drop_last();
        let x = all.last();
        lemma_sort_by(front, le);
        let before = sort_by(front, le);
        let p = insert_position(before, x, le);
        lemma_insert_by(before, x, le);
        lemma_insert_position(before, x, le);
        let after = before.insert(p, x);
        assert forall|i: int, j: int| 0 <= i < j < after.len() implies le(
            #[trigger] after[i],
            #[trigger] after[j],
        ) by {
            if j < p {
                assert(after[i] == before[i] && after[j] == before[j]);
            } else if j == p {
                assert(after[i] == before[i]);
                if i < p - 1 {
                    assert(le(before[i], before[p - 1]));
                }
            } else if i < p {
                assert(after[i] == before[i] && after[j] == before[j - 1]);
            } else if i == p {
                assert(after[j] == before[j - 1]);
                assert(!le(before[j - 1], x));
            } else {
                assert(after[i] == before[i - 1] && after[j] == before[j - 1]);
            }
        }
        assert(all =~= front.push(x));
    } else {
        assert(sort_by(all, le) =~= all);
    }
}



} // verus!

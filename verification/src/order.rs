//! Lexicographic order, and a stable sort of items by rank.

use crate::text;
use vstd::multiset::*;
use vstd::prelude::*;
use vstd::seq_lib::*;

verus! {

// ---------------------------------------------------------------------------
// Lexicographic order
// ---------------------------------------------------------------------------

/// Whether `a` comes before `b` in lexicographic order, or equals it.
pub open spec fn lex_at_most(a: Seq<nat>, b: Seq<nat>) -> bool
    decreases a.len(),
{
    if a.len() == 0 {
        true
    } else if b.len() == 0 {
        false
    } else if a[0] != b[0] {
        a[0] < b[0]
    } else {
        lex_at_most(a.drop_first(), b.drop_first())
    }
}

/// Lexicographic order is total.
pub proof fn lemma_lex_total(a: Seq<nat>, b: Seq<nat>)
    ensures
        lex_at_most(a, b) || lex_at_most(b, a),
    decreases a.len(),
{
    if a.len() > 0 && b.len() > 0 && a[0] == b[0] {
        lemma_lex_total(a.drop_first(), b.drop_first());
    }
}

/// Lexicographic order is transitive.
pub proof fn lemma_lex_transitive(a: Seq<nat>, b: Seq<nat>, c: Seq<nat>)
    requires
        lex_at_most(a, b),
        lex_at_most(b, c),
    ensures
        lex_at_most(a, c),
    decreases a.len(),
{
    if a.len() > 0 && a[0] == b[0] && b[0] == c[0] {
        lemma_lex_transitive(a.drop_first(), b.drop_first(), c.drop_first());
    }
}

/// The rank of bytes: their values.
pub open spec fn byte_rank(s: Seq<u8>) -> Seq<nat> {
    s.map_values(|b: u8| b as nat)
}

/// The rank of characters: their scalar values. UTF-8 keeps this order.
pub open spec fn char_rank(s: Seq<char>) -> Seq<nat> {
    s.map_values(|c: char| c as nat)
}

/// Compares bytes in lexicographic order.
pub fn bytes_at_most(a: &[u8], b: &[u8]) -> (r: bool)
    ensures
        r == lex_at_most(byte_rank(a@), byte_rank(b@)),
{
    let mut i: usize = 0;
    assert(byte_rank(a@).skip(0) == byte_rank(a@));
    assert(byte_rank(b@).skip(0) == byte_rank(b@));
    while i < a.len() && i < b.len()
        invariant
            i <= a@.len(),
            i <= b@.len(),
            lex_at_most(byte_rank(a@), byte_rank(b@)) == lex_at_most(
                byte_rank(a@).skip(i as int),
                byte_rank(b@).skip(i as int),
            ),
        decreases a@.len() - i,
    {
        if a[i] != b[i] {
            return a[i] < b[i];
        }
        assert(byte_rank(a@).skip(i as int).drop_first() == byte_rank(a@).skip(i + 1));
        assert(byte_rank(b@).skip(i as int).drop_first() == byte_rank(b@).skip(i + 1));
        i += 1;
    }
    i == a.len()
}

proof fn lemma_char_value(c: char)
    ensures
        0 <= c as int <= 0x10ffff,
        c as u32 == c as int,
        c as nat == c as int,
{
}

/// Compares texts in the order of their characters.
pub fn text_at_most(left: &str, right: &str) -> (r: bool)
    ensures
        r == lex_at_most(char_rank(left@), char_rank(right@)),
{
    let a = text::chars_of(left);
    let b = text::chars_of(right);
    let mut i: usize = 0;
    assert(char_rank(a@).skip(0) == char_rank(a@));
    assert(char_rank(b@).skip(0) == char_rank(b@));
    while i < a.len() && i < b.len()
        invariant
            a@ == left@,
            b@ == right@,
            i <= a@.len(),
            i <= b@.len(),
            lex_at_most(char_rank(a@), char_rank(b@)) == lex_at_most(
                char_rank(a@).skip(i as int),
                char_rank(b@).skip(i as int),
            ),
        decreases a@.len() - i,
    {
        let x: char = a[i];
        let y: char = b[i];
        if x != y {
            proof {
                lemma_char_value(x);
                lemma_char_value(y);
            }
            return (x as u32) < (y as u32);
        }
        assert(char_rank(a@).skip(i as int).drop_first() == char_rank(a@).skip(i + 1));
        assert(char_rank(b@).skip(i as int).drop_first() == char_rank(b@).skip(i + 1));
        i += 1;
    }
    i == a.len()
}

// ---------------------------------------------------------------------------
// Stable sort
// ---------------------------------------------------------------------------

/// Items that a total preorder ranks.
pub trait Ranked: Sized {
    /// Whether `self` may stand before `other`.
    spec fn at_most(&self, other: &Self) -> bool;

    /// Any two items can be ranked.
    proof fn total(a: Self, b: Self)
        ensures
            a.at_most(&b) || b.at_most(&a),
    ;

    /// Ranks chain.
    proof fn transitive(a: Self, b: Self, c: Self)
        requires
            a.at_most(&b),
            b.at_most(&c),
        ensures
            a.at_most(&c),
    ;

    /// Decides `at_most`.
    fn is_at_most(&self, other: &Self) -> (r: bool)
        ensures
            r == self.at_most(other),
    ;
}

/// Whether every item may stand before every later one.
pub open spec fn is_sorted<T: Ranked>(s: Seq<T>) -> bool {
    forall|i: int, j: int| #![trigger s[i], s[j]] 0 <= i < j < s.len() ==> s[i].at_most(&s[j])
}

/// Whether two items have the same rank.
pub open spec fn same_rank<T: Ranked>(a: T, b: T) -> bool {
    a.at_most(&b) && b.at_most(&a)
}

/// The items of `s` with the rank of `pivot`, in their order.
pub open spec fn of_rank<T: Ranked>(s: Seq<T>, pivot: T) -> Seq<T> {
    s.filter(|e: T| same_rank(e, pivot))
}

/// Whether `out` holds the items of `s` in sorted order, those of equal rank in
/// the order that they had.
pub open spec fn is_stable_sort<T: Ranked>(s: Seq<T>, out: Seq<T>) -> bool {
    &&& is_sorted(out)
    &&& out.to_multiset() == s.to_multiset()
    &&& forall|pivot: T| #[trigger] of_rank(out, pivot) == of_rank(s, pivot)
}

proof fn lemma_filter_none<T: Ranked>(s: Seq<T>, pivot: T)
    requires
        forall|i: int| 0 <= i < s.len() ==> !same_rank(#[trigger] s[i], pivot),
    ensures
        of_rank(s, pivot) == Seq::<T>::empty(),
    decreases s.len(),
{
    reveal(Seq::filter);
    if s.len() > 0 {
        assert forall|i: int| 0 <= i < s.drop_last().len() implies !same_rank(
            #[trigger] s.drop_last()[i],
            pivot,
        ) by {
            assert(s.drop_last()[i] == s[i]);
        }
        lemma_filter_none(s.drop_last(), pivot);
        assert(!same_rank(s[s.len() - 1], pivot));
    }
}

proof fn lemma_of_rank_add<T: Ranked>(a: Seq<T>, b: Seq<T>, pivot: T)
    ensures
        of_rank(a + b, pivot) == of_rank(a, pivot) + of_rank(b, pivot),
{
    Seq::filter_distributes_over_add(a, b, |e: T| same_rank(e, pivot));
}

proof fn lemma_insert_ranks<T: Ranked>(rest: Seq<T>, out: Seq<T>, e: T, at: int, pivot: T)
    requires
        0 <= at <= out.len(),
        forall|i: int| 0 <= i < at ==> !e.at_most(&#[trigger] out[i]),
    ensures
        of_rank(rest, pivot) + of_rank(out.insert(at, e), pivot) == of_rank(rest.push(e), pivot)
            + of_rank(out, pivot),
{
    let head = out.take(at);
    let tail = out.skip(at);
    let one = seq![e];
    assert(out == head + tail);
    assert(out.insert(at, e) == head + one + tail);
    assert(rest.push(e) == rest + one);
    lemma_of_rank_add(head, tail, pivot);
    lemma_of_rank_add(head + one, tail, pivot);
    lemma_of_rank_add(head, one, pivot);
    lemma_of_rank_add(rest, one, pivot);
    if same_rank(e, pivot) {
        assert forall|i: int| 0 <= i < head.len() implies !same_rank(
            #[trigger] head[i],
            pivot,
        ) by {
            assert(head[i] == out[i]);
            if same_rank(head[i], pivot) {
                T::transitive(e, pivot, head[i]);
            }
        }
        lemma_filter_none(head, pivot);
    } else {
        assert forall|i: int| 0 <= i < one.len() implies !same_rank(#[trigger] one[i], pivot) by {}
        lemma_filter_none(one, pivot);
    }
    assert(of_rank(rest, pivot) + of_rank(out.insert(at, e), pivot) == of_rank(rest.push(e), pivot)
        + of_rank(out, pivot));
}

proof fn lemma_insert_multiset<T>(s: Seq<T>, at: int, e: T)
    requires
        0 <= at <= s.len(),
    ensures
        s.insert(at, e).to_multiset() == s.to_multiset().insert(e),
{
    let longer = s.insert(at, e);
    longer.to_multiset_ensures();
    assert(longer[at] == e);
    assert(longer.remove(at) == s);
    assert(longer.contains(e));
    assert(longer.to_multiset().count(e) > 0);
    assert(s.to_multiset().insert(e) =~= longer.to_multiset());
}

/// Sorts `items` by rank and keeps the order of items of equal rank.
pub fn sort_by_rank<T: Ranked>(items: Vec<T>) -> (out: Vec<T>)
    ensures
        is_stable_sort(items@, out@),
{
    let ghost all = items@;
    let mut rest = items;
    let mut out: Vec<T> = Vec::new();
    proof {
        all.to_multiset_ensures();
        Seq::<T>::empty().to_multiset_ensures();
        assert(rest@.to_multiset().add(out@.to_multiset()) =~= all.to_multiset());
        assert forall|pivot: T| of_rank(rest@, pivot) + #[trigger] of_rank(out@, pivot) == of_rank(
            all,
            pivot,
        ) by {
            assert forall|i: int| 0 <= i < out@.len() implies !same_rank(
                #[trigger] out@[i],
                pivot,
            ) by {}
            lemma_filter_none(out@, pivot);
            assert(of_rank(rest@, pivot) + of_rank(out@, pivot) == of_rank(all, pivot));
        }
    }
    loop
        invariant
            is_sorted(out@),
            rest@.to_multiset().add(out@.to_multiset()) == all.to_multiset(),
            forall|pivot: T|
                of_rank(rest@, pivot) + #[trigger] of_rank(out@, pivot) == of_rank(all, pivot),
        ensures
            rest@.len() == 0,
        decreases rest@.len(),
    {
        let ghost rest_before = rest@;
        let ghost out_before = out@;
        match rest.pop() {
            None => {
                break;
            },
            Some(e) => {
                let mut at: usize = 0;
                while at < out.len() && !e.is_at_most(&out[at])
                    invariant
                        at <= out@.len(),
                        forall|i: int| 0 <= i < at ==> !e.at_most(&#[trigger] out@[i]),
                    decreases out@.len() - at,
                {
                    at += 1;
                }
                let ghost item = e;
                out.insert(at, e);
                proof {
                    assert(out@ == out_before.insert(at as int, item));
                    assert(rest_before == rest@.push(item));
                    out_before.to_multiset_ensures();
                    rest@.to_multiset_ensures();
                    assert(rest@.push(item).to_multiset() =~= rest@.to_multiset().insert(item));
                    lemma_insert_multiset(out_before, at as int, item);
                    assert(rest@.to_multiset().add(out@.to_multiset()) =~= all.to_multiset());
                    assert forall|pivot: T|
                        of_rank(rest@, pivot) + #[trigger] of_rank(out@, pivot) == of_rank(
                            all,
                            pivot,
                        ) by {
                        lemma_insert_ranks(rest@, out_before, item, at as int, pivot);
                        assert(of_rank(rest_before, pivot) + of_rank(out_before, pivot) == of_rank(
                            all,
                            pivot,
                        ));
                    }
                    assert forall|i: int, j: int|
                        #![trigger out@[i], out@[j]]
                        0 <= i < j < out@.len() implies out@[i].at_most(&out@[j]) by {
                        let a = at as int;
                        if i < a {
                            assert(out@[i] == out_before[i]);
                            T::total(item, out_before[i]);
                            if j > a {
                                assert(out@[j] == out_before[j - 1]);
                            } else if j < a {
                                assert(out@[j] == out_before[j]);
                            }
                        } else if i == a {
                            assert(out@[j] == out_before[j - 1]);
                            if j - 1 > a {
                                T::transitive(item, out_before[a], out_before[j - 1]);
                            }
                        } else {
                            assert(out@[i] == out_before[i - 1]);
                            assert(out@[j] == out_before[j - 1]);
                        }
                    }
                }
            },
        }
    }
    proof {
        rest@.to_multiset_ensures();
        assert(rest@ == Seq::<T>::empty());
        assert(rest@.to_multiset().add(out@.to_multiset()) =~= out@.to_multiset());
        assert forall|pivot: T| #[trigger] of_rank(out@, pivot) == of_rank(all, pivot) by {
            assert forall|i: int| 0 <= i < rest@.len() implies !same_rank(
                #[trigger] rest@[i],
                pivot,
            ) by {}
            lemma_filter_none(rest@, pivot);
            assert(of_rank(rest@, pivot) + of_rank(out@, pivot) == of_rank(out@, pivot));
        }
    }
    out
}

/// Whether `a` comes before `b` letter by letter, or equals it: it is the beginning
/// of `b`, or has the smaller number at the first place where they differ.
pub open spec fn comes_first(a: Seq<int>, b: Seq<int>) -> bool {
    ||| a.len() <= b.len() && forall|i: int| 0 <= i < a.len() ==> #[trigger] a[i] == b[i]
    ||| exists|k: int|
        #![trigger a[k]]
        0 <= k < a.len() && k < b.len() && a[k] < b[k] && forall|i: int|
            0 <= i < k ==> #[trigger] a[i] == b[i]
}

/// The scalar values of the characters of a text.
pub open spec fn scalars(s: Seq<char>) -> Seq<int> {
    Seq::new(s.len(), |i: int| s[i] as int)
}

/// The values of bytes.
pub open spec fn values(s: Seq<u8>) -> Seq<int> {
    Seq::new(s.len(), |i: int| s[i] as int)
}

/// Lexicographic order: the first difference decides, and the beginning of a
/// sequence comes before the sequence.
pub proof fn law_first_difference_decides(a: Seq<nat>, b: Seq<nat>)
    ensures
        lex_at_most(a, b) <==> comes_first(
            Seq::new(a.len(), |i: int| a[i] as int),
            Seq::new(b.len(), |i: int| b[i] as int),
        ),
    decreases a.len(),
{
    let x = Seq::new(a.len(), |i: int| a[i] as int);
    let y = Seq::new(b.len(), |i: int| b[i] as int);
    if a.len() > 0 && b.len() > 0 {
        let ra = a.drop_first();
        let rb = b.drop_first();
        let rx = Seq::new(ra.len(), |i: int| ra[i] as int);
        let ry = Seq::new(rb.len(), |i: int| rb[i] as int);
        assert forall|i: int| 0 <= i < rx.len() implies #[trigger] rx[i] == x[i + 1] by {}
        assert forall|i: int| 0 <= i < ry.len() implies #[trigger] ry[i] == y[i + 1] by {}
        assert(x[0] == a[0] && y[0] == b[0]);
        if a[0] == b[0] {
            law_first_difference_decides(ra, rb);
            if comes_first(rx, ry) {
                if rx.len() <= ry.len() && forall|i: int|
                    0 <= i < rx.len() ==> #[trigger] rx[i] == ry[i] {
                    assert forall|i: int| 0 <= i < x.len() implies #[trigger] x[i] == y[i] by {
                        if i > 0 {
                            assert(rx[i - 1] == ry[i - 1]);
                        }
                    }
                } else {
                    let k = choose|k: int|
                        #![trigger rx[k]]
                        0 <= k < rx.len() && k < ry.len() && rx[k] < ry[k] && forall|i: int|
                            0 <= i < k ==> #[trigger] rx[i] == ry[i];
                    assert(x[k + 1] < y[k + 1]);
                    assert forall|i: int| 0 <= i < k + 1 implies #[trigger] x[i] == y[i] by {
                        if i > 0 {
                            assert(rx[i - 1] == ry[i - 1]);
                        }
                    }
                }
            }
            if comes_first(x, y) {
                if x.len() <= y.len() && forall|i: int|
                    0 <= i < x.len() ==> #[trigger] x[i] == y[i] {
                    assert forall|i: int| 0 <= i < rx.len() implies #[trigger] rx[i] == ry[i] by {
                        assert(x[i + 1] == y[i + 1]);
                    }
                } else {
                    let k = choose|k: int|
                        #![trigger x[k]]
                        0 <= k < x.len() && k < y.len() && x[k] < y[k] && forall|i: int|
                            0 <= i < k ==> #[trigger] x[i] == y[i];
                    assert(rx[k - 1] < ry[k - 1]);
                    assert forall|i: int| 0 <= i < k - 1 implies #[trigger] rx[i] == ry[i] by {
                        assert(x[i + 1] == y[i + 1]);
                    }
                }
            }
        } else if a[0] < b[0] {
            assert(x[0] < y[0]);
        } else {
            if comes_first(x, y) {
                assert(x[0] == y[0] || x[0] < y[0]);
            }
        }
    }
}

/// Texts are ordered by the scalar values of their characters.
pub proof fn law_text_order(a: Seq<char>, b: Seq<char>)
    ensures
        lex_at_most(char_rank(a), char_rank(b)) <==> comes_first(scalars(a), scalars(b)),
{
    law_first_difference_decides(char_rank(a), char_rank(b));
    let x = char_rank(a);
    let y = char_rank(b);
    assert(Seq::new(x.len(), |i: int| x[i] as int) =~= scalars(a)) by {
        assert forall|i: int| 0 <= i < a.len() implies x[i] as int == a[i] as int by {
            lemma_char_value(a[i]);
        }
    }
    assert(Seq::new(y.len(), |i: int| y[i] as int) =~= scalars(b)) by {
        assert forall|i: int| 0 <= i < b.len() implies y[i] as int == b[i] as int by {
            lemma_char_value(b[i]);
        }
    }
}

/// Bytes are ordered by their values.
pub proof fn law_byte_order(a: Seq<u8>, b: Seq<u8>)
    ensures
        lex_at_most(byte_rank(a), byte_rank(b)) <==> comes_first(values(a), values(b)),
{
    law_first_difference_decides(byte_rank(a), byte_rank(b));
    let x = byte_rank(a);
    let y = byte_rank(b);
    assert(Seq::new(x.len(), |i: int| x[i] as int) =~= values(a));
    assert(Seq::new(y.len(), |i: int| y[i] as int) =~= values(b));
}

} // verus!

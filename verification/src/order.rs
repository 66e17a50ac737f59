//! The order of strings, and sorting that keeps the order of equals.

use vstd::prelude::*;

use crate::dup::take_first;
use crate::text;

verus! {

/// Strings are ordered by their first differing character; a string comes
/// before every longer string that begins with it.
pub open spec fn text_le(a: Seq<char>, b: Seq<char>) -> bool
    decreases a.len(),
{
    if a.len() == 0 {
        true
    } else if b.len() == 0 {
        false
    } else if a[0] != b[0] {
        (a[0] as u32) < (b[0] as u32)
    } else {
        text_le(a.drop_first(), b.drop_first())
    }
}

/// `a` comes strictly before `b`.
pub open spec fn text_lt(a: Seq<char>, b: Seq<char>) -> bool {
    !text_le(b, a)
}

pub proof fn lemma_text_total(a: Seq<char>, b: Seq<char>)
    ensures
        text_le(a, a),
        text_le(a, b) || text_le(b, a),
        text_le(a, b) && text_le(b, a) ==> a == b,
    decreases a.len(),
{
    if a.len() > 0 {
        lemma_text_total(a.drop_first(), a.drop_first());
    }
    if a.len() > 0 && b.len() > 0 {
        lemma_text_total(a.drop_first(), b.drop_first());
        vstd::utf8::char_u32_cast(a[0], a[0] as u32);
        vstd::utf8::char_u32_cast(b[0], b[0] as u32);
        if a[0] == b[0] && a.drop_first() == b.drop_first() {
            assert(a =~= seq![a[0]] + a.drop_first());
            assert(b =~= seq![b[0]] + b.drop_first());
        }
    } else if a.len() == 0 && b.len() == 0 {
        assert(a =~= b);
    }
}

pub proof fn lemma_text_transitive(a: Seq<char>, b: Seq<char>, c: Seq<char>)
    requires
        text_le(a, b),
        text_le(b, c),
    ensures
        text_le(a, c),
    decreases a.len(),
{
    if a.len() > 0 && b.len() > 0 && c.len() > 0 && a[0] == b[0] && b[0] == c[0] {
        lemma_text_transitive(a.drop_first(), b.drop_first(), c.drop_first());
    }
}

/// Where texts of equal length differ, what follows them does not matter.
pub proof fn lemma_lt_decided(a: Seq<char>, b: Seq<char>, x: Seq<char>, y: Seq<char>)
    requires
        a.len() == b.len(),
        text_lt(a, b),
    ensures
        text_lt(a + x, b + y),
    decreases a.len(),
{
    if a.len() > 0 {
        assert((a + x).drop_first() =~= a.drop_first() + x);
        assert((b + y).drop_first() =~= b.drop_first() + y);
        if a[0] == b[0] {
            lemma_lt_decided(a.drop_first(), b.drop_first(), x, y);
        }
    }
}

/// Texts that begin alike are ordered by what follows.
pub proof fn lemma_lt_after_prefix(a: Seq<char>, x: Seq<char>, y: Seq<char>)
    requires
        text_lt(x, y),
    ensures
        text_lt(a + x, a + y),
    decreases a.len(),
{
    if a.len() == 0 {
        assert(a + x =~= x);
        assert(a + y =~= y);
    } else {
        assert((a + x).drop_first() =~= a.drop_first() + x);
        assert((a + y).drop_first() =~= a.drop_first() + y);
        lemma_lt_after_prefix(a.drop_first(), x, y);
    }
}

/// Whether `a` comes before `b` or equals it.
pub fn le(a: &str, b: &str) -> (r: bool)
    ensures
        r == text_le(a@, b@),
{
    let x = text::chars_of(a);
    let y = text::chars_of(b);
    let mut i: usize = 0;
    assert(x@.skip(0) =~= x@);
    assert(y@.skip(0) =~= y@);
    while i < x.len() && i < y.len() && x[i] == y[i]
        invariant
            i <= x@.len(),
            i <= y@.len(),
            x@ == a@,
            y@ == b@,
            text_le(a@, b@) == text_le(x@.skip(i as int), y@.skip(i as int)),
        decreases x@.len() - i,
    {
        assert(x@.skip(i as int).drop_first() =~= x@.skip(i + 1));
        assert(y@.skip(i as int).drop_first() =~= y@.skip(i + 1));
        i = i + 1;
    }
    if i == x.len() {
        true
    } else if i == y.len() {
        false
    } else {
        (x[i] as u32) < (y[i] as u32)
    }
}

/// Values that can be sorted: their models are totally preordered.
pub trait Ordered: DeepView {
    /// `a` may stand before `b`.
    spec fn before(a: Self::V, b: Self::V) -> bool;

    proof fn lemma_total(a: Self::V, b: Self::V)
        ensures
            Self::before(a, b) || Self::before(b, a),
    ;

    proof fn lemma_transitive(a: Self::V, b: Self::V, c: Self::V)
        requires
            Self::before(a, b),
            Self::before(b, c),
        ensures
            Self::before(a, c),
    ;

    fn is_before(&self, other: &Self) -> (r: bool)
        ensures
            r == Self::before(self.deep_view(), other.deep_view()),
    ;
}

/// How many of the sorted values stand before a newcomer: those up to the last
/// one that may stand before it.
pub open spec fn insert_at<T: Ordered>(s: Seq<T::V>, x: T::V) -> nat
    decreases s.len(),
{
    if s.len() == 0 || T::before(s.last(), x) {
        s.len()
    } else {
        insert_at::<T>(s.drop_last(), x)
    }
}

/// The values in sorted order, equals in the order in which they came.
pub open spec fn sorted_spec<T: Ordered>(s: Seq<T::V>) -> Seq<T::V>
    decreases s.len(),
{
    if s.len() == 0 {
        s
    } else {
        let front = sorted_spec::<T>(s.drop_last());
        front.insert(insert_at::<T>(front, s.last()) as int, s.last())
    }
}

pub open spec fn is_sorted<T: Ordered>(s: Seq<T::V>) -> bool {
    forall|i: int, j: int| 0 <= i < j < s.len() ==> T::before(#[trigger] s[i], #[trigger] s[j])
}

pub proof fn lemma_insert_at<T: Ordered>(s: Seq<T::V>, x: T::V)
    ensures
        insert_at::<T>(s, x) <= s.len(),
        insert_at::<T>(s, x) > 0 ==> T::before(s[insert_at::<T>(s, x) - 1], x),
        forall|i: int| insert_at::<T>(s, x) <= i < s.len() ==> !T::before(#[trigger] s[i], x),
    decreases s.len(),
{
    if s.len() == 0 || T::before(s.last(), x) {
    } else {
        lemma_insert_at::<T>(s.drop_last(), x);
        assert forall|i: int| insert_at::<T>(s, x) <= i < s.len() implies !T::before(
            #[trigger] s[i],
            x,
        ) by {
            if i < s.len() - 1 {
                assert(s.drop_last()[i] == s[i]);
            }
        }
    }
}

/// Sorting puts the values in order.
pub proof fn law_sorted_in_order<T: Ordered>(s: Seq<T::V>)
    ensures
        is_sorted::<T>(sorted_spec::<T>(s)),
    decreases s.len(),
{
    if s.len() > 0 {
        law_sorted_in_order::<T>(s.drop_last());
        let front = sorted_spec::<T>(s.drop_last());
        let x = s.last();
        let k = insert_at::<T>(front, x) as int;
        lemma_insert_at::<T>(front, x);
        let all = front.insert(k, x);
        assert forall|i: int, j: int| 0 <= i < j < all.len() implies T::before(
            #[trigger] all[i],
            #[trigger] all[j],
        ) by {
            if j < k {
                assert(all[i] == front[i] && all[j] == front[j]);
            } else if i > k {
                assert(all[i] == front[i - 1] && all[j] == front[j - 1]);
            } else if j == k {
                assert(all[i] == front[i]);
                if i < k - 1 {
                    assert(T::before(front[i], front[k - 1]));
                    T::lemma_transitive(front[i], front[k - 1], x);
                }
            } else if i == k {
                assert(all[j] == front[j - 1]);
                T::lemma_total(x, front[j - 1]);
            } else {
                assert(all[i] == front[i] && all[j] == front[j - 1]);
            }
        }
    }
}

/// Sorting neither adds nor drops a value.
pub proof fn law_sorted_same_values<T: Ordered>(s: Seq<T::V>)
    ensures
        sorted_spec::<T>(s).len() == s.len(),
        sorted_spec::<T>(s).to_multiset() == s.to_multiset(),
    decreases s.len(),
{
    if s.len() > 0 {
        law_sorted_same_values::<T>(s.drop_last());
        let front = sorted_spec::<T>(s.drop_last());
        let x = s.last();
        lemma_insert_at::<T>(front, x);
        let k = insert_at::<T>(front, x) as int;
        broadcast use vstd::seq_lib::group_to_multiset_ensures;

        assert(s =~= s.drop_last().push(x));
        assert(front.insert(k, x).to_multiset() =~= front.to_multiset().insert(x));
    }
}

/// Values of which none can be told from `x` by the order.
pub open spec fn equals_of<T: Ordered>(s: Seq<T::V>, x: T::V) -> Seq<T::V> {
    s.filter(|y: T::V| T::before(x, y) && T::before(y, x))
}

/// Sorting keeps the values that the order does not tell apart in the order in
/// which they came.
pub proof fn law_sorted_stable<T: Ordered>(s: Seq<T::V>, x: T::V)
    ensures
        equals_of::<T>(sorted_spec::<T>(s), x) == equals_of::<T>(s, x),
    decreases s.len(),
{
    let p = |y: T::V| T::before(x, y) && T::before(y, x);
    if s.len() > 0 {
        law_sorted_stable::<T>(s.drop_last(), x);
        law_sorted_in_order::<T>(s.drop_last());
        let front = sorted_spec::<T>(s.drop_last());
        let z = s.last();
        lemma_insert_at::<T>(front, z);
        let k = insert_at::<T>(front, z) as int;
        let all = front.insert(k, z);
        let tail = front.skip(k);
        assert(front =~= front.take(k) + tail);
        assert(all =~= front.take(k) + seq![z] + tail);
        assert(s =~= s.drop_last() + seq![z]);
        front.take(k).lemma_filter_len_push(p, z);
        lemma_filter_add(front.take(k), tail, p);
        lemma_filter_add(front.take(k) + seq![z], tail, p);
        lemma_filter_add(front.take(k), seq![z], p);
        lemma_filter_add(s.drop_last(), seq![z], p);
        if p(z) {
            assert forall|i: int| 0 <= i < tail.len() implies !p(#[trigger] tail[i]) by {
                assert(tail[i] == front[k + i]);
                if p(tail[i]) {
                    T::lemma_transitive(tail[i], x, z);
                }
            }
            lemma_filter_none(tail, p);
            assert(tail.filter(p) =~= Seq::empty());
            assert(all.filter(p) =~= front.filter(p) + seq![z].filter(p));
        } else {
            lemma_filter_none(seq![z], p);
            assert(seq![z].filter(p) =~= Seq::empty());
            assert(all.filter(p) =~= front.filter(p));
        }
    }
}

pub proof fn lemma_filter_add<A>(a: Seq<A>, b: Seq<A>, p: spec_fn(A) -> bool)
    ensures
        (a + b).filter(p) == a.filter(p) + b.filter(p),
    decreases b.len(),
{
    reveal(Seq::filter);
    if b.len() == 0 {
        assert(a + b =~= a);
        assert(a.filter(p) + b.filter(p) =~= a.filter(p));
    } else {
        lemma_filter_add(a, b.drop_last(), p);
        assert((a + b).drop_last() =~= a + b.drop_last());
        assert((a + b).last() == b.last());
        assert((a + b).filter(p) =~= a.filter(p) + b.filter(p));
    }
}

pub proof fn lemma_filter_none<A>(a: Seq<A>, p: spec_fn(A) -> bool)
    requires
        forall|i: int| 0 <= i < a.len() ==> !p(#[trigger] a[i]),
    ensures
        a.filter(p).len() == 0,
    decreases a.len(),
{
    reveal(Seq::filter);
    if a.len() > 0 {
        assert forall|i: int| 0 <= i < a.drop_last().len() implies !p(
            #[trigger] a.drop_last()[i],
        ) by {
            assert(a.drop_last()[i] == a[i]);
        }
        lemma_filter_none(a.drop_last(), p);
        assert(!p(a[a.len() - 1]));
    }
}

/// Sorts the values, equals in the order in which they came.
pub fn sort<T: Ordered>(items: Vec<T>) -> (r: Vec<T>)
    ensures
        r.deep_view() == sorted_spec::<T>(items.deep_view()),
{
    let mut rest = items;
    let mut done: Vec<T> = Vec::new();
    let ghost all = rest.deep_view();
    assert(all.take(0) =~= Seq::empty());
    assert(done.deep_view() =~= Seq::empty());
    assert(all.skip(0) =~= all);
    while rest.len() > 0
        invariant
            done@.len() + rest@.len() == all.len(),
            rest.deep_view() == all.skip(done@.len() as int),
            done.deep_view() == sorted_spec::<T>(all.take(done@.len() as int)),
        decreases rest@.len(),
    {
        let ghost n = done@.len() as int;
        assert(rest.deep_view().len() == rest@.len());
        let x = take_first(&mut rest);
        assert(all.skip(n).drop_first() =~= all.skip(n + 1));
        let ghost front = done.deep_view();
        let mut k: usize = done.len();
        assert(front.take(front.len() as int) =~= front);
        while k > 0 && !done[k - 1].is_before(&x)
            invariant
                k <= done@.len(),
                front == done.deep_view(),
                insert_at::<T>(front, x.deep_view()) == insert_at::<T>(
                    front.take(k as int),
                    x.deep_view(),
                ),
            decreases k,
        {
            assert(front.take(k as int).last() == done@[k - 1].deep_view());
            assert(front.take(k as int).drop_last() =~= front.take(k - 1));
            k = k - 1;
        }
        assert(k > 0 ==> front.take(k as int).last() == done@[k - 1].deep_view());
        assert(k == insert_at::<T>(front, x.deep_view()));
        done.insert(k, x);
        assert(done.deep_view() =~= front.insert(k as int, x.deep_view()));
        assert(all.take(n + 1).drop_last() =~= all.take(n));
        assert(all.take(n + 1).last() == x.deep_view());
    }
    assert(all.take(all.len() as int) =~= all);
    done
}

/// Of two texts the one with the smaller character comes first, at the first place where they
/// differ; a text comes before those that go on behind it. Every text may stand before itself,
/// and of two different ones exactly one comes strictly before the other.
pub proof fn law_text_order(
    head: Seq<char>,
    a: char,
    b: char,
    a_tail: Seq<char>,
    b_tail: Seq<char>,
    s: Seq<char>,
    t: Seq<char>,
)
    ensures
        (a as u32) < (b as u32) ==> text_lt(head.push(a) + a_tail, head.push(b) + b_tail),
        text_lt(head, head.push(a) + a_tail),
        text_le(s, s),
        !text_lt(s, s),
        s != t ==> (text_lt(s, t) <==> !text_lt(t, s)),
        text_lt(s, t) ==> text_le(s, t),
    decreases head.len(), s.len(),
{
    lemma_text_total(s, t);
    let x = head.push(a) + a_tail;
    let y = head.push(b) + b_tail;
    if head.len() == 0 {
        assert(x[0] == a && y[0] == b);
    } else {
        let rest = head.drop_first();
        assert(x.drop_first() =~= rest.push(a) + a_tail);
        assert(y.drop_first() =~= rest.push(b) + b_tail);
        assert(x[0] == head[0] && y[0] == head[0]);
        law_text_order(rest, a, b, a_tail, b_tail, s, t);
    }
}

} // verus!

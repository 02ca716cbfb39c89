//! Total orders used to make every output deterministic: a three-way comparison, a
//! trait for types ordered through their view, and sorted insertion into vectors.
use crate::text::chars_of;
use vstd::prelude::*;

verus! {

broadcast use vstd::seq_lib::group_seq_properties, vstd::multiset::group_multiset_axioms;

/// The outcome of a three-way comparison.
#[derive(Clone, Copy, Debug, PartialEq, Eq, Structural)]
pub enum Rank {
    Below,
    Same,
    Above,
}

/// Lexicographic order on character sequences (by code point), the order in which
/// `String`s sort.
pub open spec fn chars_before(a: Seq<char>, b: Seq<char>) -> bool
    decreases a.len(),
{
    if a.len() == 0 {
        b.len() > 0
    } else if b.len() == 0 {
        false
    } else if a[0] != b[0] {
        (a[0] as int) < (b[0] as int)
    } else {
        chars_before(a.drop_first(), b.drop_first())
    }
}

pub proof fn lemma_chars_irreflexive(a: Seq<char>)
    ensures
        !chars_before(a, a),
    decreases a.len(),
{
    if a.len() > 0 {
        lemma_chars_irreflexive(a.drop_first());
    }
}

pub proof fn lemma_chars_transitive(a: Seq<char>, b: Seq<char>, c: Seq<char>)
    requires
        chars_before(a, b),
        chars_before(b, c),
    ensures
        chars_before(a, c),
    decreases a.len(),
{
    if a.len() > 0 && b.len() > 0 && c.len() > 0 && a[0] == b[0] && b[0] == c[0] {
        lemma_chars_transitive(a.drop_first(), b.drop_first(), c.drop_first());
    }
}

pub proof fn lemma_chars_total(a: Seq<char>, b: Seq<char>)
    ensures
        chars_before(a, b) || chars_before(b, a) || a == b,
    decreases a.len(),
{
    if a.len() > 0 && b.len() > 0 && a[0] == b[0] {
        lemma_chars_total(a.drop_first(), b.drop_first());
        if a.drop_first() == b.drop_first() {
            assert(a =~= seq![a[0]] + a.drop_first());
            assert(b =~= seq![b[0]] + b.drop_first());
        }
    } else if a.len() == 0 && b.len() == 0 {
        assert(a =~= b);
    } else if a.len() > 0 && b.len() > 0 {
        let x = a[0] as int;
        let y = b[0] as int;
        assert(x != y);
    }
}

/// Two sequences agreeing on their first `i` elements compare as their suffixes do.
proof fn lemma_chars_skip(a: Seq<char>, b: Seq<char>, i: int)
    requires
        0 <= i <= a.len(),
        i <= b.len(),
        a.take(i) =~= b.take(i),
    ensures
        chars_before(a, b) == chars_before(a.skip(i), b.skip(i)),
    decreases i,
{
    if i > 0 {
        assert(a[0] == a.take(i)[0]);
        assert(b[0] == b.take(i)[0]);
        assert(a.drop_first().take(i - 1) =~= b.drop_first().take(i - 1)) by {
            assert forall|k: int| 0 <= k < i - 1 implies a.drop_first()[k] == b.drop_first()[k] by {
                assert(a.take(i)[k + 1] == b.take(i)[k + 1]);
            }
        }
        lemma_chars_skip(a.drop_first(), b.drop_first(), i - 1);
        assert(a.drop_first().skip(i - 1) =~= a.skip(i));
        assert(b.drop_first().skip(i - 1) =~= b.skip(i));
    } else {
        assert(a.skip(0) =~= a);
        assert(b.skip(0) =~= b);
    }
}

/// Three-way comparison of character sequences held in vectors.
pub fn rank_char_vecs(a: &Vec<char>, b: &Vec<char>) -> (r: Rank)
    ensures
        (r == Rank::Below) == chars_before(a@, b@),
        (r == Rank::Same) == (a@ == b@),
        (r == Rank::Above) == chars_before(b@, a@),
{
    proof {
        lemma_chars_irreflexive(a@);
    }
    let mut i: usize = 0;
    while i < a.len() && i < b.len()
        invariant
            i <= a.len(),
            i <= b.len(),
            a@.take(i as int) =~= b@.take(i as int),
        decreases a.len() - i,
    {
        if a[i] != b[i] {
            proof {
                lemma_chars_skip(a@, b@, i as int);
                lemma_chars_skip(b@, a@, i as int);
                assert(a@.skip(i as int)[0] == a@[i as int]);
                assert(b@.skip(i as int)[0] == b@[i as int]);
            }
            if a[i] < b[i] {
                return Rank::Below;
            } else {
                return Rank::Above;
            }
        }
        assert(a@.take(i + 1) =~= a@.take(i as int).push(a@[i as int]));
        assert(b@.take(i + 1) =~= b@.take(i as int).push(b@[i as int]));
        i = i + 1;
    }
    proof {
        lemma_chars_skip(a@, b@, i as int);
        lemma_chars_skip(b@, a@, i as int);
    }
    if a.len() == b.len() {
        assert(a@ =~= a@.take(i as int));
        assert(b@ =~= b@.take(i as int));
        Rank::Same
    } else if a.len() < b.len() {
        assert(a@ != b@);
        Rank::Below
    } else {
        assert(a@ != b@);
        Rank::Above
    }
}

/// Three-way comparison of two strings in the order `String` sorts by.
pub fn rank_strings(a: &String, b: &String) -> (r: Rank)
    ensures
        (r == Rank::Below) == chars_before(a@, b@),
        (r == Rank::Same) == (a@ == b@),
        (r == Rank::Above) == chars_before(b@, a@),
{
    let va = chars_of(a.as_str());
    let vb = chars_of(b.as_str());
    rank_char_vecs(&va, &vb)
}

/// Three-way comparison of integers.
pub fn rank_i64(a: i64, b: i64) -> (r: Rank)
    ensures
        (r == Rank::Below) == (a < b),
        (r == Rank::Same) == (a == b),
        (r == Rank::Above) == (b < a),
{
    if a < b {
        Rank::Below
    } else if a == b {
        Rank::Same
    } else {
        Rank::Above
    }
}

/// A type totally ordered through its view.
pub trait ViewOrder: Sized + View {
    spec fn before(a: Self::V, b: Self::V) -> bool;

    proof fn lemma_irreflexive(a: Self::V)
        ensures
            !Self::before(a, a),
    ;

    proof fn lemma_transitive(a: Self::V, b: Self::V, c: Self::V)
        requires
            Self::before(a, b),
            Self::before(b, c),
        ensures
            Self::before(a, c),
    ;

    proof fn lemma_total(a: Self::V, b: Self::V)
        ensures
            Self::before(a, b) || Self::before(b, a) || a == b,
    ;

    fn rank(&self, other: &Self) -> (r: Rank)
        ensures
            (r == Rank::Below) == Self::before(self@, other@),
            (r == Rank::Same) == (self@ == other@),
            (r == Rank::Above) == Self::before(other@, self@),
    ;
}

/// The views of a vector's elements.
pub open spec fn views<T: View>(s: Seq<T>) -> Seq<T::V> {
    s.map_values(|x: T| x@)
}

/// No element precedes an earlier one.
pub open spec fn is_sorted<T: ViewOrder>(s: Seq<T::V>) -> bool {
    forall|i: int, j: int| 0 <= i < j < s.len() ==> !T::before(#[trigger] s[j], #[trigger] s[i])
}

/// Each element precedes every later one: sorted and without repeats.
pub open spec fn is_strictly_sorted<T: ViewOrder>(s: Seq<T::V>) -> bool {
    forall|i: int, j: int| 0 <= i < j < s.len() ==> T::before(#[trigger] s[i], #[trigger] s[j])
}

/// Insert `x` into a sorted vector after every element that does not follow it.
pub fn insert_sorted<T: ViewOrder>(v: &mut Vec<T>, x: T)
    requires
        is_sorted::<T>(views(old(v)@)),
    ensures
        is_sorted::<T>(views(final(v)@)),
        views(final(v)@).to_multiset() == views(old(v)@).to_multiset().insert(x@),
{
    let ghost xv = x@;
    let mut pos: usize = v.len();
    let mut done = false;
    while pos > 0 && !done
        invariant
            pos <= v.len(),
            v@ == old(v)@,
            xv == x@,
            done ==> pos > 0 && !T::before(xv, views(v@)[pos - 1]),
            forall|k: int| pos <= k < v.len() ==> T::before(xv, #[trigger] views(v@)[k]),
        decreases pos + if done { 0int } else { 1int },
    {
        assert(views(v@)[pos - 1] == v@[pos - 1]@);
        match v[pos - 1].rank(&x) {
            Rank::Above => {
                pos = pos - 1;
            },
            _ => {
                done = true;
            },
        }
    }
    let ghost old_views = views(v@);
    v.insert(pos, x);
    proof {
        let s = views(v@);
        assert(s =~= old_views.insert(pos as int, xv));
        vstd::seq_lib::to_multiset_insert(old_views, pos as int, xv);
        assert forall|i: int, j: int| 0 <= i < j < s.len() implies !T::before(
            #[trigger] s[j],
            #[trigger] s[i],
        ) by {
            if j < pos {
                assert(s[i] == old_views[i] && s[j] == old_views[j]);
            } else if j == pos {
                assert(s[i] == old_views[i] && s[j] == xv);
                if T::before(xv, old_views[i]) {
                    T::lemma_total(old_views[i], old_views[pos - 1]);
                    if T::before(old_views[i], old_views[pos - 1]) {
                        T::lemma_transitive(xv, old_views[i], old_views[pos - 1]);
                    }
                }
            } else if i < pos {
                assert(s[i] == old_views[i] && s[j] == old_views[j - 1]);
            } else if i == pos {
                assert(s[i] == xv && s[j] == old_views[j - 1]);
                T::lemma_irreflexive(xv);
                if T::before(old_views[j - 1], xv) {
                    T::lemma_transitive(xv, old_views[j - 1], xv);
                }
            } else {
                assert(s[i] == old_views[i - 1] && s[j] == old_views[j - 1]);
            }
        }
    }
}

/// Insert `x` into a strictly sorted vector unless an element with the same view is
/// already present.
pub fn insert_distinct<T: ViewOrder>(v: &mut Vec<T>, x: T)
    requires
        is_strictly_sorted::<T>(views(old(v)@)),
    ensures
        is_strictly_sorted::<T>(views(final(v)@)),
        forall|y: T::V| #[trigger] views(final(v)@).contains(y) <==> (views(old(v)@).contains(y) || y == x@),
{
    let ghost xv = x@;
    let mut pos: usize = v.len();
    let mut done = false;
    while pos > 0 && !done
        invariant
            pos <= v.len(),
            v@ == old(v)@,
            xv == x@,
            done ==> pos > 0 && !T::before(xv, views(v@)[pos - 1]),
            forall|k: int| pos <= k < v.len() ==> T::before(xv, #[trigger] views(v@)[k]),
        decreases pos + if done { 0int } else { 1int },
    {
        assert(views(v@)[pos - 1] == v@[pos - 1]@);
        match v[pos - 1].rank(&x) {
            Rank::Above => {
                pos = pos - 1;
            },
            _ => {
                done = true;
            },
        }
    }
    let ghost old_views = views(v@);
    if pos > 0 {
        assert(views(v@)[pos - 1] == v@[pos - 1]@);
        match v[pos - 1].rank(&x) {
            Rank::Same => {
                assert(old_views.contains(xv));
                return;
            },
            _ => {},
        }
    }
    v.insert(pos, x);
    proof {
        let s = views(v@);
        assert(s =~= old_views.insert(pos as int, xv));
        if pos > 0 {
            T::lemma_total(xv, old_views[pos - 1]);
        }
        assert forall|y: T::V| #[trigger] s.contains(y) <==> (old_views.contains(y) || y == xv) by {
            if s.contains(y) {
                let k = choose|k: int| 0 <= k < s.len() && s[k] == y;
                if k < pos {
                    assert(old_views[k] == y);
                } else if k > pos {
                    assert(old_views[k - 1] == y);
                }
            }
            if old_views.contains(y) {
                let k = choose|k: int| 0 <= k < old_views.len() && old_views[k] == y;
                if k < pos {
                    assert(s[k] == y);
                } else {
                    assert(s[k + 1] == y);
                }
            }
            if y == xv {
                assert(s[pos as int] == y);
            }
        }
        assert forall|i: int, j: int| 0 <= i < j < s.len() implies T::before(
            #[trigger] s[i],
            #[trigger] s[j],
        ) by {
            if j < pos {
                assert(s[i] == old_views[i] && s[j] == old_views[j]);
            } else if j == pos {
                assert(s[i] == old_views[i] && s[j] == xv);
                if i < pos - 1 {
                    T::lemma_transitive(old_views[i], old_views[pos - 1], xv);
                }
            } else if i < pos {
                assert(s[i] == old_views[i] && s[j] == old_views[j - 1]);
            } else if i == pos {
                assert(s[i] == xv && s[j] == old_views[j - 1]);
            } else {
                assert(s[i] == old_views[i - 1] && s[j] == old_views[j - 1]);
            }
        }
    }
}

/// The elements of `v`, rearranged into sorted order.
pub fn sort_by_view<T: ViewOrder>(v: Vec<T>) -> (r: Vec<T>)
    ensures
        is_sorted::<T>(views(r@)),
        views(r@).to_multiset() == views(v@).to_multiset(),
{
    let ghost initial = views(v@);
    let mut rest = v;
    let mut out: Vec<T> = Vec::new();
    while rest.len() > 0
        invariant
            is_sorted::<T>(views(out@)),
            views(out@).to_multiset().add(views(rest@).to_multiset()) == initial.to_multiset(),
        decreases rest.len(),
    {
        let ghost before = views(rest@);
        let x = rest.pop().unwrap();
        proof {
            assert(views(rest@) =~= before.drop_last());
            assert(before =~= before.drop_last().push(x@));
            vstd::seq_lib::to_multiset_build(before.drop_last(), x@);
        }
        insert_sorted(&mut out, x);
    }
    assert(views(rest@).to_multiset() =~= vstd::multiset::Multiset::empty());
    out
}

/// Two sorted sequences holding the same elements, counted with multiplicity, are equal:
/// sorting is deterministic.
pub proof fn lemma_sorted_unique<T: ViewOrder>(a: Seq<T::V>, b: Seq<T::V>)
    requires
        is_sorted::<T>(a),
        is_sorted::<T>(b),
        a.to_multiset() == b.to_multiset(),
    ensures
        a == b,
    decreases a.len(),
{
    broadcast use vstd::seq_lib::group_to_multiset_ensures;

    if a.len() == 0 {
        assert(a.to_multiset().len() == a.len() && b.to_multiset().len() == b.len());
        assert(b.len() == 0);
        assert(a =~= b);
    } else {
        assert(a.to_multiset().len() == a.len() && b.to_multiset().len() == b.len());
        assert(b.len() == a.len());
        assert(a.contains(a[0]));
        assert(a.to_multiset().count(a[0]) > 0);
        assert(b.contains(a[0]));
        let k = choose|k: int| 0 <= k < b.len() && b[k] == a[0];
        assert(b.contains(b[0]));
        assert(b.to_multiset().count(b[0]) > 0);
        assert(a.contains(b[0]));
        let j = choose|j: int| 0 <= j < a.len() && a[j] == b[0];
        if k > 0 {
            assert(!T::before(b[k], b[0]));
        }
        if j > 0 {
            assert(!T::before(a[j], a[0]));
        }
        T::lemma_irreflexive(a[0]);
        T::lemma_irreflexive(b[0]);
        T::lemma_total(a[0], b[0]);
        assert(a[0] == b[0]);
        assert(a.remove(0) =~= a.drop_first());
        assert(b.remove(0) =~= b.drop_first());
        assert(a.drop_first().to_multiset() == a.to_multiset().remove(a[0]));
        assert(b.drop_first().to_multiset() == b.to_multiset().remove(b[0]));
        assert forall|x: int, y: int| 0 <= x < y < a.drop_first().len() implies !T::before(
            #[trigger] a.drop_first()[y],
            #[trigger] a.drop_first()[x],
        ) by {
            assert(a.drop_first()[y] == a[y + 1] && a.drop_first()[x] == a[x + 1]);
        }
        assert forall|x: int, y: int| 0 <= x < y < b.drop_first().len() implies !T::before(
            #[trigger] b.drop_first()[y],
            #[trigger] b.drop_first()[x],
        ) by {
            assert(b.drop_first()[y] == b[y + 1] && b.drop_first()[x] == b[x + 1]);
        }
        lemma_sorted_unique::<T>(a.drop_first(), b.drop_first());
        assert(a =~= b) by {
            assert forall|x: int| 0 <= x < a.len() implies a[x] == b[x] by {
                if x > 0 {
                    assert(a[x] == a.drop_first()[x - 1]);
                    assert(b[x] == b.drop_first()[x - 1]);
                }
            }
        }
    }
}

/// Two strictly sorted sequences holding the same elements are equal.
pub proof fn lemma_strictly_sorted_unique<T: ViewOrder>(a: Seq<T::V>, b: Seq<T::V>)
    requires
        is_strictly_sorted::<T>(a),
        is_strictly_sorted::<T>(b),
        forall|y: T::V| a.contains(y) <==> b.contains(y),
    ensures
        a == b,
    decreases a.len(),
{
    if a.len() == 0 {
        if b.len() > 0 {
            assert(b.contains(b[0]));
        }
        assert(a =~= b);
    } else if b.len() == 0 {
        assert(a.contains(a[0]));
    } else {
        assert(a.contains(a[0]));
        let k = choose|k: int| 0 <= k < b.len() && b[k] == a[0];
        assert(b.contains(b[0]));
        let j = choose|j: int| 0 <= j < a.len() && a[j] == b[0];
        if k > 0 && j > 0 {
            assert(T::before(b[0], b[k]));
            assert(T::before(a[0], a[j]));
            T::lemma_transitive(a[0], b[0], a[0]);
            T::lemma_irreflexive(a[0]);
        }
        assert(a[0] == b[0]);
        let ta = a.drop_first();
        let tb = b.drop_first();
        assert forall|x: int, y: int| 0 <= x < y < ta.len() implies T::before(#[trigger] ta[x], #[trigger] ta[y]) by {
            assert(ta[x] == a[x + 1] && ta[y] == a[y + 1]);
        }
        assert forall|x: int, y: int| 0 <= x < y < tb.len() implies T::before(#[trigger] tb[x], #[trigger] tb[y]) by {
            assert(tb[x] == b[x + 1] && tb[y] == b[y + 1]);
        }
        assert forall|y: T::V| ta.contains(y) implies tb.contains(y) by {
            let x = choose|x: int| 0 <= x < ta.len() && ta[x] == y;
            assert(a[x + 1] == y);
            assert(T::before(a[0], y));
            T::lemma_irreflexive(y);
            assert(a.contains(y));
            assert(b.contains(y));
            let z = choose|z: int| 0 <= z < b.len() && b[z] == y;
            assert(z != 0);
            assert(tb[z - 1] == y);
        }
        assert forall|y: T::V| tb.contains(y) implies ta.contains(y) by {
            let x = choose|x: int| 0 <= x < tb.len() && tb[x] == y;
            assert(b[x + 1] == y);
            assert(T::before(b[0], y));
            T::lemma_irreflexive(y);
            assert(b.contains(y));
            assert(a.contains(y));
            let z = choose|z: int| 0 <= z < a.len() && a[z] == y;
            assert(z != 0);
            assert(ta[z - 1] == y);
        }
        lemma_strictly_sorted_unique::<T>(ta, tb);
        assert(a =~= b) by {
            assert forall|x: int| 0 <= x < a.len() implies a[x] == b[x] by {
                if x > 0 {
                    assert(a[x] == ta[x - 1]);
                    assert(b[x] == tb[x - 1]);
                }
            }
        }
    }
}

impl ViewOrder for String {
    open spec fn before(a: Seq<char>, b: Seq<char>) -> bool {
        chars_before(a, b)
    }

    proof fn lemma_irreflexive(a: Seq<char>) {
        lemma_chars_irreflexive(a);
    }

    proof fn lemma_transitive(a: Seq<char>, b: Seq<char>, c: Seq<char>) {
        lemma_chars_transitive(a, b, c);
    }

    proof fn lemma_total(a: Seq<char>, b: Seq<char>) {
        lemma_chars_total(a, b);
    }

    fn rank(&self, other: &Self) -> (r: Rank) {
        rank_strings(self, other)
    }
}

} // verus!

//! Stable ordering of records by their `sort_order` field.

use vstd::prelude::*;

verus! {

/// Records that carry a sort order and can be copied.
pub trait Ordered: Sized {
    /// The record's sort order.
    spec fn order_of(&self) -> int;

    /// Whether two records hold the same data.
    spec fn same(&self, other: &Self) -> bool;

    /// The record's sort order (exec).
    fn order(&self) -> (r: i32)
        ensures
            r as int == self.order_of(),
    ;

    /// A copy of the record holding the same data.
    fn duplicate(&self) -> (r: Self)
        ensures
            r.same(self),
    ;

    /// Records with the same data have the same order, and `same` is symmetric.
    proof fn lemma_same(a: &Self, b: &Self)
        requires
            a.same(b),
        ensures
            a.order_of() == b.order_of(),
            b.same(a),
    ;
}

/// Whether two sequences hold records with the same data, position by position.
pub open spec fn all_same<T: Ordered>(a: Seq<T>, b: Seq<T>) -> bool {
    a.len() == b.len() && forall|i: int| 0 <= i < a.len() ==> #[trigger] a[i].same(&b[i])
}

/// Copies every record of `v`.
pub fn copy_all<T: Ordered>(v: &Vec<T>) -> (r: Vec<T>)
    ensures
        all_same(r@, v@),
{
    let mut out: Vec<T> = Vec::new();
    let mut i: usize = 0;
    while i < v.len()
        invariant
            i <= v.len(),
            out@.len() == i,
            forall|k: int| 0 <= k < i ==> #[trigger] out@[k].same(&v@[k]),
        decreases v.len() - i,
    {
        out.push(v[i].duplicate());
        i += 1;
    }
    out
}

/// Sorting sequences of records with the same data gives sequences of records with the same data.
pub proof fn lemma_sort_same<T: Ordered>(a: Seq<T>, b: Seq<T>)
    requires
        all_same(a, b),
    ensures
        all_same(sort_by_order(a), sort_by_order(b)),
    decreases a.len(),
{
    if a.len() > 0 {
        assert(all_same(a.drop_last(), b.drop_last())) by {
            assert forall|i: int| 0 <= i < a.len() - 1 implies #[trigger] a.drop_last()[i].same(&b.drop_last()[i]) by {
                assert(a[i].same(&b[i]));
            }
        }
        lemma_sort_same(a.drop_last(), b.drop_last());
        assert(a.last().same(&b.last())) by {
            assert(a[a.len() - 1].same(&b[a.len() - 1]));
        }
        lemma_insert_same(sort_by_order(a.drop_last()), sort_by_order(b.drop_last()), a.last(), b.last());
    }
}

proof fn lemma_insert_same<T: Ordered>(s1: Seq<T>, s2: Seq<T>, x1: T, x2: T)
    requires
        all_same(s1, s2),
        x1.same(&x2),
    ensures
        all_same(insert_by_order(s1, x1), insert_by_order(s2, x2)),
    decreases s1.len(),
{
    T::lemma_same(&x1, &x2);
    if s1.len() > 0 {
        assert(s1.last().same(&s2.last())) by {
            assert(s1[s1.len() - 1].same(&s2[s1.len() - 1]));
        }
        T::lemma_same(&s1.last(), &s2.last());
        if s1.last().order_of() <= x1.order_of() {
            let r1 = s1.push(x1);
            let r2 = s2.push(x2);
            assert forall|i: int| 0 <= i < r1.len() implies #[trigger] r1[i].same(&r2[i]) by {
                if i < s1.len() {
                    assert(s1[i].same(&s2[i]));
                }
            }
        } else {
            assert(all_same(s1.drop_last(), s2.drop_last())) by {
                assert forall|i: int| 0 <= i < s1.len() - 1 implies #[trigger] s1.drop_last()[i].same(&s2.drop_last()[i]) by {
                    assert(s1[i].same(&s2[i]));
                }
            }
            lemma_insert_same(s1.drop_last(), s2.drop_last(), x1, x2);
            let i1 = insert_by_order(s1.drop_last(), x1);
            let i2 = insert_by_order(s2.drop_last(), x2);
            let r1 = i1.push(s1.last());
            let r2 = i2.push(s2.last());
            assert forall|i: int| 0 <= i < r1.len() implies #[trigger] r1[i].same(&r2[i]) by {
                if i < i1.len() {
                    assert(i1[i].same(&i2[i]));
                }
            }
        }
    }
}

/// Inserts `x` into `s` after every element whose order is at most `x`'s.
pub open spec fn insert_by_order<T: Ordered>(s: Seq<T>, x: T) -> Seq<T>
    decreases s.len(),
{
    if s.len() == 0 {
        seq![x]
    } else if s.last().order_of() <= x.order_of() {
        s.push(x)
    } else {
        insert_by_order(s.drop_last(), x).push(s.last())
    }
}

/// The stable sort of `s` by sort order (insertion sort, earliest first).
pub open spec fn sort_by_order<T: Ordered>(s: Seq<T>) -> Seq<T>
    decreases s.len(),
{
    if s.len() == 0 {
        Seq::empty()
    } else {
        insert_by_order(sort_by_order(s.drop_last()), s.last())
    }
}

/// Whether `s` is ordered by sort order.
pub open spec fn is_ordered<T: Ordered>(s: Seq<T>) -> bool {
    forall|i: int, j: int| 0 <= i <= j < s.len() ==> s[i].order_of() <= s[j].order_of()
}

/// The elements of `s` that satisfy `f`, in order.
pub open spec fn keep<T>(s: Seq<T>, f: spec_fn(T) -> bool) -> Seq<T>
    decreases s.len(),
{
    if s.len() == 0 {
        Seq::empty()
    } else if f(s.last()) {
        keep(s.drop_last(), f).push(s.last())
    } else {
        keep(s.drop_last(), f)
    }
}

/// Inserting at the position after the last element not above `x` is `insert_by_order`.
proof fn lemma_insert_at<T: Ordered>(s: Seq<T>, x: T, j: int)
    requires
        0 <= j <= s.len(),
        forall|k: int| j <= k < s.len() ==> s[k].order_of() > x.order_of(),
        j > 0 ==> s[j - 1].order_of() <= x.order_of(),
    ensures
        insert_by_order(s, x) == s.insert(j, x),
    decreases s.len(),
{
    if s.len() == 0 {
        assert(s.insert(j, x) =~= seq![x]);
    } else if j == s.len() {
        assert(s.insert(j, x) =~= s.push(x));
    } else {
        lemma_insert_at(s.drop_last(), x, j);
        assert(s.drop_last().insert(j, x).push(s.last()) =~= s.insert(j, x));
    }
}

/// Inserting into an ordered sequence keeps it ordered.
proof fn lemma_insert_ordered<T: Ordered>(s: Seq<T>, x: T, j: int)
    requires
        is_ordered(s),
        0 <= j <= s.len(),
        forall|k: int| j <= k < s.len() ==> s[k].order_of() > x.order_of(),
        j > 0 ==> s[j - 1].order_of() <= x.order_of(),
    ensures
        is_ordered(s.insert(j, x)),
{
    let r = s.insert(j, x);
    assert forall|a: int, b: int| 0 <= a <= b < r.len() implies r[a].order_of() <= r[b].order_of() by {
        if a < j && b < j {
        } else if a < j && b == j {
            assert(s[a].order_of() <= s[j - 1].order_of());
        } else if a < j {
            assert(r[b] == s[b - 1]);
        } else if a == j && b > j {
            assert(r[b] == s[b - 1]);
        } else if a > j {
            assert(r[a] == s[a - 1]);
            assert(r[b] == s[b - 1]);
        }
    }
}

/// The stable sort of a sequence is ordered.
pub proof fn lemma_sort_is_ordered<T: Ordered>(s: Seq<T>)
    ensures
        is_ordered(sort_by_order(s)),
        sort_by_order(s).len() == s.len(),
    decreases s.len(),
{
    if s.len() > 0 {
        lemma_sort_is_ordered(s.drop_last());
        lemma_insert_keeps_order(sort_by_order(s.drop_last()), s.last());
    }
}

/// `insert_by_order` keeps an ordered sequence ordered and adds one element.
proof fn lemma_insert_keeps_order<T: Ordered>(s: Seq<T>, x: T)
    requires
        is_ordered(s),
    ensures
        is_ordered(insert_by_order(s, x)),
        insert_by_order(s, x).len() == s.len() + 1,
{
    let j = insertion_point(s, x);
    lemma_insertion_point(s, x);
    lemma_insert_at(s, x, j);
    lemma_insert_ordered(s, x, j);
}

/// The position after the last element whose order is not above `x`'s.
spec fn insertion_point<T: Ordered>(s: Seq<T>, x: T) -> int
    decreases s.len(),
{
    if s.len() == 0 {
        0
    } else if s.last().order_of() <= x.order_of() {
        s.len() as int
    } else {
        insertion_point(s.drop_last(), x)
    }
}

proof fn lemma_insertion_point<T: Ordered>(s: Seq<T>, x: T)
    requires
        is_ordered(s),
    ensures
        0 <= insertion_point(s, x) <= s.len(),
        forall|k: int| insertion_point(s, x) <= k < s.len() ==> s[k].order_of() > x.order_of(),
        insertion_point(s, x) > 0 ==> s[insertion_point(s, x) - 1].order_of() <= x.order_of(),
    decreases s.len(),
{
    if s.len() > 0 && s.last().order_of() > x.order_of() {
        let d = s.drop_last();
        assert(is_ordered(d)) by {
            assert forall|i: int, j: int| 0 <= i <= j < d.len() implies d[i].order_of() <= d[j].order_of() by {
                assert(d[i] == s[i] && d[j] == s[j]);
            }
        }
        lemma_insertion_point(d, x);
        assert forall|k: int| insertion_point(s, x) <= k < s.len() implies s[k].order_of() > x.order_of() by {
            if k < s.len() - 1 {
                assert(d[k] == s[k]);
            }
        }
        if insertion_point(s, x) > 0 {
            assert(d[insertion_point(s, x) - 1] == s[insertion_point(s, x) - 1]);
        }
    }
}

/// Sorts `items` stably by sort order.
pub fn stable_sort<T: Ordered>(items: Vec<T>) -> (r: Vec<T>)
    ensures
        r@ == sort_by_order(items@),
{
    let ghost orig = items@;
    let mut rest = items;
    let mut out: Vec<T> = Vec::new();
    let n = rest.len();
    let mut i: usize = 0;
    while i < n
        invariant
            n == orig.len(),
            i <= n,
            rest@ == orig.skip(i as int),
            out@ == sort_by_order(orig.take(i as int)),
        decreases n - i,
    {
        proof {
            lemma_sort_is_ordered(orig.take(i as int));
        }
        let x = rest.remove(0);
        let xo = x.order();
        let mut j: usize = out.len();
        while j > 0 && out[j - 1].order() > xo
            invariant
                j <= out.len(),
                is_ordered(out@),
                xo as int == x.order_of(),
                forall|k: int| j <= k < out.len() ==> out@[k].order_of() > x.order_of(),
            decreases j,
        {
            j -= 1;
        }
        proof {
            lemma_insert_at(out@, x, j as int);
            assert(orig.take(i + 1).drop_last() =~= orig.take(i as int));
            assert(orig.take(i + 1).last() == orig[i as int]);
            assert(orig.skip(i as int)[0] == orig[i as int]);
            assert(orig.skip(i as int).subrange(1, orig.skip(i as int).len() as int) =~= orig.skip(i + 1));
        }
        out.insert(j, x);
        i += 1;
    }
    assert(orig.take(n as int) =~= orig);
    out
}

/// Index of the first element of `s` that satisfies `f`.
pub open spec fn first_where<T>(s: Seq<T>, f: spec_fn(T) -> bool) -> Option<int>
    decreases s.len(),
{
    if s.len() == 0 {
        None
    } else {
        match first_where(s.drop_last(), f) {
            Some(i) => Some(i),
            None => if f(s.last()) { Some(s.len() - 1) } else { None },
        }
    }
}

/// The first match found in a prefix is the first match of the whole
/// sequence; the first index is in bounds and satisfies `f`; nothing before it does.
pub proof fn lemma_first_where<T>(s: Seq<T>, f: spec_fn(T) -> bool, n: int)
    requires
        0 <= n <= s.len(),
    ensures
        first_where(s.take(n), f) matches Some(i) ==> first_where(s, f) == Some(i),
        (first_where(s.take(n), f) is None && n < s.len()) ==> (
            if f(s[n]) { first_where(s.take(n + 1), f) == Some(n) } else { first_where(s.take(n + 1), f) is None }),
        n == s.len() ==> first_where(s.take(n), f) == first_where(s, f),
    decreases s.len() - n,
{
    if n < s.len() {
        assert(s.take(n + 1).drop_last() =~= s.take(n));
        lemma_first_where(s, f, n + 1);
    } else {
        assert(s.take(n) =~= s);
    }
}

/// What the first index satisfies.
pub proof fn lemma_first_where_props<T>(s: Seq<T>, f: spec_fn(T) -> bool)
    ensures
        first_where(s, f) matches Some(i) ==> 0 <= i < s.len() && f(s[i]) && forall|j: int| 0 <= j < i ==> !f(#[trigger] s[j]),
        first_where(s, f) is None ==> forall|j: int| 0 <= j < s.len() ==> !f(#[trigger] s[j]),
    decreases s.len(),
{
    if s.len() > 0 {
        lemma_first_where_props(s.drop_last(), f);
        assert forall|j: int| 0 <= j < s.len() - 1 implies s.drop_last()[j] == s[j] by {}
    }
}

/// Inserting adds only `x`.
pub proof fn lemma_insert_contains<T: Ordered>(s: Seq<T>, x: T, y: T)
    ensures
        insert_by_order(s, x).contains(y) ==> (s.contains(y) || y == x),
    decreases s.len(),
{
    let r = insert_by_order(s, x);
    if s.len() == 0 {
        if r.contains(y) {
            assert(r[0] == x);
        }
    } else if s.last().order_of() <= x.order_of() {
        if r.contains(y) {
            let k = choose|k: int| 0 <= k < r.len() && r[k] == y;
            if k < s.len() {
                assert(s[k] == y);
            }
        }
    } else {
        let d = s.drop_last();
        let rd = insert_by_order(d, x);
        lemma_insert_contains(d, x, y);
        if r.contains(y) {
            let k = choose|k: int| 0 <= k < r.len() && r[k] == y;
            if k == r.len() - 1 {
                assert(s[s.len() - 1] == y);
            } else {
                assert(rd[k] == y);
                assert(rd.contains(y));
                if d.contains(y) {
                    let m = choose|m: int| 0 <= m < d.len() && d[m] == y;
                    assert(s[m] == y);
                }
            }
        }
    }
}

/// Sorting adds no element.
pub proof fn lemma_sort_contains<T: Ordered>(s: Seq<T>, y: T)
    ensures
        sort_by_order(s).contains(y) ==> s.contains(y),
    decreases s.len(),
{
    if s.len() > 0 {
        let d = s.drop_last();
        lemma_sort_contains(d, y);
        lemma_insert_contains(sort_by_order(d), s.last(), y);
        if sort_by_order(s).contains(y) {
            if d.contains(y) {
                let m = choose|m: int| 0 <= m < d.len() && d[m] == y;
                assert(s[m] == y);
            } else {
                assert(s[s.len() - 1] == y);
            }
        }
    }
}

/// `keep` holds exactly the elements of `s` that satisfy `f`.
pub proof fn lemma_keep_props<T>(s: Seq<T>, f: spec_fn(T) -> bool)
    ensures
        keep(s, f).len() <= s.len(),
        forall|x: T| #![trigger keep(s, f).contains(x)] #![trigger s.contains(x)]
            keep(s, f).contains(x) <==> (s.contains(x) && f(x)),
    decreases s.len(),
{
    if s.len() > 0 {
        let d = s.drop_last();
        let kd = keep(d, f);
        lemma_keep_props(d, f);
        assert(keep(s, f) == if f(s.last()) { kd.push(s.last()) } else { kd });
        assert forall|x: T| keep(s, f).contains(x) <==> (s.contains(x) && f(x)) by {
            if keep(s, f).contains(x) {
                let k = choose|k: int| 0 <= k < keep(s, f).len() && keep(s, f)[k] == x;
                if f(s.last()) && k == kd.len() {
                    assert(s[s.len() - 1] == x);
                } else {
                    assert(k < kd.len());
                    assert(kd[k] == x);
                    assert(kd.contains(x));
                    assert(d.contains(x));
                    let m = choose|m: int| 0 <= m < d.len() && d[m] == x;
                    assert(s[m] == x);
                }
            }
            if s.contains(x) && f(x) {
                let k = choose|k: int| 0 <= k < s.len() && s[k] == x;
                if k < s.len() - 1 {
                    assert(d[k] == x);
                    assert(d.contains(x));
                    let m = choose|m: int| 0 <= m < kd.len() && kd[m] == x;
                    if f(s.last()) {
                        assert(keep(s, f)[m] == x);
                    }
                } else {
                    assert(keep(s, f)[kd.len() as int] == x);
                }
            }
        }
    }
}

/// Keeping by two predicates that agree gives the same result.
pub proof fn lemma_keep_ext<T>(s: Seq<T>, f: spec_fn(T) -> bool, g: spec_fn(T) -> bool)
    requires
        forall|x: T| #[trigger] f(x) == g(x),
    ensures
        keep(s, f) == keep(s, g),
    decreases s.len(),
{
    if s.len() > 0 {
        lemma_keep_ext(s.drop_last(), f, g);
    }
}

/// Keeping by a predicate that every element satisfies keeps everything.
pub proof fn lemma_keep_all<T>(s: Seq<T>, f: spec_fn(T) -> bool)
    requires
        forall|i: int| 0 <= i < s.len() ==> #[trigger] f(s[i]),
    ensures
        keep(s, f) == s,
    decreases s.len(),
{
    if s.len() > 0 {
        assert forall|i: int| 0 <= i < s.len() - 1 implies #[trigger] f(s.drop_last()[i]) by {
            assert(s.drop_last()[i] == s[i]);
        }
        lemma_keep_all(s.drop_last(), f);
        assert(f(s[s.len() - 1]));
        assert(s.drop_last().push(s.last()) =~= s);
    }
}

} // verus!

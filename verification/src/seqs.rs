//! Generic sequence operations: first match, filter and stable sort, with their specs.

use vstd::prelude::*;

verus! {

/// The views of a sequence of values.
pub open spec fn vw<T: View>(s: Seq<T>) -> Seq<T::V> {
    s.map_values(|x: T| x@)
}

/// Index of the first element satisfying `p`, or -1.
pub open spec fn first_index<A>(s: Seq<A>, p: spec_fn(A) -> bool) -> int
    decreases s.len(),
{
    if s.len() == 0 {
        -1
    } else if p(s[0]) {
        0
    } else {
        let r = first_index(s.drop_first(), p);
        if r < 0 {
            -1
        } else {
            r + 1
        }
    }
}

pub proof fn lemma_first_index<A>(s: Seq<A>, p: spec_fn(A) -> bool)
    ensures
        -1 <= first_index(s, p) < s.len(),
        first_index(s, p) == -1 <==> forall|i: int| 0 <= i < s.len() ==> !p(#[trigger] s[i]),
        first_index(s, p) >= 0 ==> p(s[first_index(s, p)]) && forall|j: int|
            0 <= j < first_index(s, p) ==> !p(#[trigger] s[j]),
    decreases s.len(),
{
    if s.len() > 0 {
        lemma_first_index(s.drop_first(), p);
        if !p(s[0]) {
            assert forall|i: int| 0 <= i < s.len() && i > 0 implies s[i] == s.drop_first()[i - 1] by {}
            if first_index(s.drop_first(), p) == -1 {
                assert forall|i: int| 0 <= i < s.len() implies !p(#[trigger] s[i]) by {
                    if i > 0 {
                        assert(s[i] == s.drop_first()[i - 1]);
                    }
                }
            }
        }
    }
}

/// The first index satisfying `p` is `i` when `p(s[i])` holds and no earlier element satisfies `p`.
pub proof fn lemma_first_index_is<A>(s: Seq<A>, p: spec_fn(A) -> bool, i: int)
    requires
        0 <= i < s.len(),
        p(s[i]),
        forall|j: int| 0 <= j < i ==> !p(#[trigger] s[j]),
    ensures
        first_index(s, p) == i,
{
    lemma_first_index(s, p);
    let r = first_index(s, p);
    if r == -1 {
        assert(!p(s[i]));
    } else if r < i {
        assert(!p(s[r]));
    } else if r > i {
        assert(!p(s[i]));
    }
}

/// Finds the first element whose view satisfies `p`.
pub fn find_first<T: View, F: Fn(&T) -> bool>(
    v: &Vec<T>,
    f: F,
    Ghost(p): Ghost<spec_fn(T::V) -> bool>,
) -> (r: Option<usize>)
    requires
        forall|x: &T| #[trigger] f.requires((x,)),
        forall|x: &T, b: bool| f.ensures((x,), b) ==> b == p(x@),
    ensures
        match r {
            Some(i) => i < v.len() && first_index(vw(v@), p) == i as int && p(vw(v@)[i as int]),
            None => first_index(vw(v@), p) == -1,
        },
{
    let mut i: usize = 0;
    while i < v.len()
        invariant
            i <= v.len(),
            forall|x: &T| #[trigger] f.requires((x,)),
            forall|x: &T, b: bool| f.ensures((x,), b) ==> b == p(x@),
            forall|j: int| 0 <= j < i ==> !p(#[trigger] vw(v@)[j]),
        decreases v.len() - i,
    {
        let b = f(&v[i]);
        if b {
            proof {
                lemma_first_index_is(vw(v@), p, i as int);
            }
            return Some(i);
        }
        i = i + 1;
    }
    proof {
        lemma_first_index(vw(v@), p);
    }
    None
}

/// The elements satisfying `p`, in order.
pub open spec fn keep<A>(s: Seq<A>, p: spec_fn(A) -> bool) -> Seq<A>
    decreases s.len(),
{
    if s.len() == 0 {
        seq![]
    } else {
        let r = keep(s.drop_last(), p);
        if p(s.last()) {
            r.push(s.last())
        } else {
            r
        }
    }
}

pub proof fn lemma_push_contains<A>(r: Seq<A>, l: A, x: A)
    ensures
        r.push(l).contains(x) <==> r.contains(x) || x == l,
{
    if r.push(l).contains(x) {
        let i = choose|i: int| 0 <= i < r.push(l).len() && r.push(l)[i] == x;
        if i < r.len() {
            assert(r[i] == x);
        }
    }
    if r.contains(x) {
        let i = choose|i: int| 0 <= i < r.len() && r[i] == x;
        assert(r.push(l)[i] == x);
    }
    if x == l {
        assert(r.push(l)[r.len() as int] == x);
    }
}

pub proof fn lemma_last_contains<A>(s: Seq<A>, x: A)
    requires
        s.len() > 0,
    ensures
        s.contains(x) <==> s.drop_last().contains(x) || x == s.last(),
{
    assert(s == s.drop_last().push(s.last()));
    lemma_push_contains(s.drop_last(), s.last(), x);
}

pub proof fn lemma_keep_contains<A>(s: Seq<A>, p: spec_fn(A) -> bool, x: A)
    ensures
        keep(s, p).contains(x) <==> s.contains(x) && p(x),
    decreases s.len(),
{
    if s.len() > 0 {
        lemma_keep_contains(s.drop_last(), p, x);
        lemma_last_contains(s, x);
        let r = keep(s.drop_last(), p);
        if p(s.last()) {
            lemma_push_contains(r, s.last(), x);
        }
    }
}

/// The elements of `s` without repeats, each kept where it first occurs.
pub open spec fn distinct<A>(s: Seq<A>) -> Seq<A>
    decreases s.len(),
{
    if s.len() == 0 {
        seq![]
    } else {
        let r = distinct(s.drop_last());
        if r.contains(s.last()) {
            r
        } else {
            r.push(s.last())
        }
    }
}

/// How many times `x` occurs in `s`.
pub open spec fn occurrences<A>(s: Seq<A>, x: A) -> nat
    decreases s.len(),
{
    if s.len() == 0 {
        0
    } else {
        occurrences(s.drop_last(), x) + if s.last() == x {
            1nat
        } else {
            0nat
        }
    }
}

pub proof fn lemma_distinct_contains<A>(s: Seq<A>, x: A)
    ensures
        distinct(s).contains(x) <==> s.contains(x),
        distinct(s).len() <= s.len(),
    decreases s.len(),
{
    if s.len() > 0 {
        lemma_distinct_contains(s.drop_last(), x);
        lemma_last_contains(s, x);
        let r = distinct(s.drop_last());
        if !r.contains(s.last()) {
            lemma_push_contains(r, s.last(), x);
        }
    }
}

pub proof fn lemma_occurrences<A>(s: Seq<A>, x: A)
    ensures
        occurrences(s, x) <= s.len(),
        !s.contains(x) ==> occurrences(s, x) == 0,
    decreases s.len(),
{
    if s.len() > 0 {
        lemma_occurrences(s.drop_last(), x);
        lemma_last_contains(s, x);
    }
}

pub proof fn lemma_keep_len<A>(s: Seq<A>, p: spec_fn(A) -> bool)
    ensures
        keep(s, p).len() <= s.len(),
    decreases s.len(),
{
    if s.len() > 0 {
        lemma_keep_len(s.drop_last(), p);
    }
}

pub proof fn lemma_keep_all<A>(s: Seq<A>, p: spec_fn(A) -> bool)
    requires
        forall|k: int| 0 <= k < s.len() ==> p(#[trigger] s[k]),
    ensures
        keep(s, p) == s,
    decreases s.len(),
{
    if s.len() > 0 {
        lemma_keep_all(s.drop_last(), p);
        assert(s.drop_last().push(s.last()) == s);
    }
}

pub proof fn lemma_keep_satisfies<A>(s: Seq<A>, p: spec_fn(A) -> bool)
    ensures
        forall|k: int| 0 <= k < keep(s, p).len() ==> p(#[trigger] keep(s, p)[k]),
    decreases s.len(),
{
    if s.len() > 0 {
        lemma_keep_satisfies(s.drop_last(), p);
        let r = keep(s.drop_last(), p);
        if p(s.last()) {
            assert forall|k: int| 0 <= k < keep(s, p).len() implies p(#[trigger] keep(s, p)[k]) by {
                if k < r.len() {
                    assert(keep(s, p)[k] == r[k]);
                }
            }
        }
    }
}

/// The insertion point of `x` in `s`: before the first element that `x` sorts strictly before.
pub open spec fn insert_pos<A>(s: Seq<A>, x: A, lt: spec_fn(A, A) -> bool) -> int {
    let i = first_index(s, |y: A| lt(x, y));
    if i < 0 {
        s.len() as int
    } else {
        i
    }
}

/// Stable insertion sort of `s` by the strict order `lt`.
pub open spec fn isort<A>(s: Seq<A>, lt: spec_fn(A, A) -> bool) -> Seq<A>
    decreases s.len(),
{
    if s.len() == 0 {
        seq![]
    } else {
        let r = isort(s.drop_last(), lt);
        r.insert(insert_pos(r, s.last(), lt), s.last())
    }
}

pub proof fn lemma_isort<A>(s: Seq<A>, lt: spec_fn(A, A) -> bool)
    ensures
        isort(s, lt).len() == s.len(),
        forall|x: A| #[trigger] isort(s, lt).contains(x) <==> s.contains(x),
    decreases s.len(),
{
    if s.len() > 0 {
        lemma_isort(s.drop_last(), lt);
        let r = isort(s.drop_last(), lt);
        let x = s.last();
        lemma_first_index(r, |y: A| lt(x, y));
        let k = insert_pos(r, x, lt);
        let t = r.insert(k, x);
        assert forall|y: A| #[trigger] t.contains(y) <==> s.contains(y) by {
            if t.contains(y) {
                let i = choose|i: int| 0 <= i < t.len() && t[i] == y;
                if i < k {
                    assert(r[i] == y);
                    assert(r.contains(y));
                    let j = choose|j: int| 0 <= j < s.drop_last().len() && s.drop_last()[j] == y;
                    assert(s[j] == y);
                } else if i > k {
                    assert(r[i - 1] == y);
                    assert(r.contains(y));
                    let j = choose|j: int| 0 <= j < s.drop_last().len() && s.drop_last()[j] == y;
                    assert(s[j] == y);
                } else {
                    assert(s[s.len() - 1] == y);
                }
            }
            if s.contains(y) {
                let i = choose|i: int| 0 <= i < s.len() && s[i] == y;
                if i < s.len() - 1 {
                    assert(s.drop_last()[i] == y);
                    assert(r.contains(y));
                    let j = choose|j: int| 0 <= j < r.len() && r[j] == y;
                    if j < k {
                        assert(t[j] == y);
                    } else {
                        assert(t[j + 1] == y);
                    }
                } else {
                    assert(t[k] == y);
                }
            }
        }
    }
}

/// Keeps the elements whose view satisfies `p`, in order.
pub fn filter_vec<T: View, F: Fn(&T) -> bool>(
    v: Vec<T>,
    f: F,
    Ghost(p): Ghost<spec_fn(T::V) -> bool>,
) -> (r: Vec<T>)
    requires
        forall|x: &T| #[trigger] f.requires((x,)),
        forall|x: &T, b: bool| f.ensures((x,), b) ==> b == p(x@),
    ensures
        vw(r@) == keep(vw(v@), p),
{
    let ghost orig = v@;
    let mut v = v;
    let mut out: Vec<T> = Vec::new();
    let mut k: usize = 0;
    let n = v.len();
    while v.len() > 0
        invariant
            forall|x: &T| #[trigger] f.requires((x,)),
            forall|x: &T, b: bool| f.ensures((x,), b) ==> b == p(x@),
            n == orig.len(),
            k + v.len() == n,
            v@ == orig.skip(k as int),
            vw(out@) == keep(vw(orig.take(k as int)), p),
        decreases v.len(),
    {
        let x = v.remove(0);
        let b = f(&x);
        proof {
            assert(orig.take(k + 1).drop_last() == orig.take(k as int));
            assert(vw(orig.take(k + 1)).drop_last() == vw(orig.take(k as int)));
            assert(vw(orig.take(k + 1)).last() == x@);
        }
        if b {
            out.push(x);
            proof {
                assert(vw(out@) =~= keep(vw(orig.take(k as int)), p).push(x@));
            }
        }
        k = k + 1;
        proof {
            assert(v@ =~= orig.skip(k as int));
        }
    }
    proof {
        assert(orig.take(k as int) == orig);
    }
    out
}

/// Sorts stably by the strict order that `lt` computes.
pub fn sort_vec<T: View, F: Fn(&T, &T) -> bool>(
    v: Vec<T>,
    lt: F,
    Ghost(slt): Ghost<spec_fn(T::V, T::V) -> bool>,
) -> (r: Vec<T>)
    requires
        forall|x: &T, y: &T| #[trigger] lt.requires((x, y)),
        forall|x: &T, y: &T, b: bool| lt.ensures((x, y), b) ==> b == slt(x@, y@),
    ensures
        vw(r@) == isort(vw(v@), slt),
{
    let ghost orig = v@;
    let mut v = v;
    let mut out: Vec<T> = Vec::new();
    let mut k: usize = 0;
    let n = v.len();
    while v.len() > 0
        invariant
            forall|x: &T, y: &T| #[trigger] lt.requires((x, y)),
            forall|x: &T, y: &T, b: bool| lt.ensures((x, y), b) ==> b == slt(x@, y@),
            n == orig.len(),
            k + v.len() == n,
            v@ == orig.skip(k as int),
            vw(out@) == isort(vw(orig.take(k as int)), slt),
        decreases v.len(),
    {
        let x = v.remove(0);
        let ghost sp = |y: T::V| slt(x@, y);
        let mut i: usize = 0;
        while i < out.len()
            invariant
                forall|x: &T, y: &T| #[trigger] lt.requires((x, y)),
                forall|x: &T, y: &T, b: bool| lt.ensures((x, y), b) ==> b == slt(x@, y@),
                i <= out.len(),
                forall|y: T::V| #[trigger] sp(y) == slt(x@, y),
                forall|j: int| 0 <= j < i ==> !sp(#[trigger] vw(out@)[j]),
            ensures
                i <= out.len(),
                forall|j: int| 0 <= j < i ==> !sp(#[trigger] vw(out@)[j]),
                i < out.len() ==> sp(vw(out@)[i as int]),
            decreases out.len() - i,
        {
            let b = lt(&x, &out[i]);
            proof {
                assert(vw(out@)[i as int] == out@[i as int]@);
            }
            if b {
                break;
            }
            i = i + 1;
        }
        proof {
            lemma_first_index(vw(out@), sp);
            if i < out.len() {
                lemma_first_index_is(vw(out@), sp, i as int);
            }
            assert(insert_pos(vw(out@), x@, slt) == i as int);
            assert(orig.take(k + 1).drop_last() == orig.take(k as int));
            assert(vw(orig.take(k + 1)).drop_last() == vw(orig.take(k as int)));
            assert(vw(orig.take(k + 1)).last() == x@);
        }
        let ghost before = vw(out@);
        out.insert(i, x);
        proof {
            assert(vw(out@) =~= before.insert(i as int, x@));
        }
        k = k + 1;
        proof {
            assert(v@ =~= orig.skip(k as int));
        }
    }
    proof {
        assert(orig.take(k as int) == orig);
    }
    out
}

} // verus!

verus! {

/// Applies `f` to every element.
pub fn map_vec<T: View, F: Fn(&T) -> T>(v: Vec<T>, f: F, Ghost(sf): Ghost<spec_fn(T::V) -> T::V>) -> (r: Vec<T>)
    requires
        forall|k: int| 0 <= k < v@.len() ==> #[trigger] f.requires((&v@[k],)),
        forall|x: &T, y: T| f.ensures((x,), y) ==> y@ == sf(x@),
    ensures
        vw(r@) == vw(v@).map_values(sf),
{
    let mut out: Vec<T> = Vec::new();
    let mut i: usize = 0;
    while i < v.len()
        invariant
            forall|k: int| 0 <= k < v@.len() ==> #[trigger] f.requires((&v@[k],)),
            forall|x: &T, y: T| f.ensures((x,), y) ==> y@ == sf(x@),
            i <= v.len(),
            out.len() == i,
            forall|j: int| 0 <= j < i ==> out@[j]@ == sf(v@[j]@),
        decreases v.len() - i,
    {
        let y = f(&v[i]);
        out.push(y);
        i = i + 1;
    }
    assert(vw(out@) =~= vw(v@).map_values(sf));
    out
}

/// Whether some element satisfies `p`.
pub fn any_vec<T: View, F: Fn(&T) -> bool>(v: &Vec<T>, f: F, Ghost(p): Ghost<spec_fn(T::V) -> bool>) -> (r: bool)
    requires
        forall|x: &T| #[trigger] f.requires((x,)),
        forall|x: &T, b: bool| f.ensures((x,), b) ==> b == p(x@),
    ensures
        r == exists|k: int| 0 <= k < v@.len() && p(#[trigger] vw(v@)[k]),
{
    let r = find_first(v, f, Ghost(p));
    proof {
        lemma_first_index(vw(v@), p);
        if r is None {
            assert forall|k: int| 0 <= k < v@.len() implies !p(#[trigger] vw(v@)[k]) by {}
        }
    }
    r.is_some()
}

} // verus!

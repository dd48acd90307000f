//! Products of dimensions, row-major strides and flat element addresses.
use vstd::prelude::*;

verus! {

/// Product of the dimensions, folded from the left.
pub open spec fn shape_product(s: Seq<usize>) -> nat
    decreases s.len(),
{
    if s.len() == 0 {
        1
    } else {
        shape_product(s.drop_last()) * (s.last() as nat)
    }
}

/// Whether folding the product from the left leaves `usize` at some step.
pub open spec fn product_overflows(s: Seq<usize>) -> bool
    decreases s.len(),
{
    if s.len() == 0 {
        false
    } else {
        product_overflows(s.drop_last()) || shape_product(s) > usize::MAX
    }
}

/// The product of the dimensions, or `None` where a step of it overflows.
pub fn checked_product(shape: &[usize]) -> (r: Option<usize>)
    ensures
        r is None <==> product_overflows(shape@),
        r matches Some(p) ==> p == shape_product(shape@),
{
    let mut acc: usize = 1;
    let mut i: usize = 0;
    while i < shape.len()
        invariant
            0 <= i <= shape@.len(),
            !product_overflows(shape@.subrange(0, i as int)),
            acc == shape_product(shape@.subrange(0, i as int)),
        decreases shape@.len() - i,
    {
        let ghost next = shape@.subrange(0, i + 1);
        assert(next.drop_last() =~= shape@.subrange(0, i as int));
        match acc.checked_mul(shape[i]) {
            Some(p) => {
                acc = p;
            },
            None => {
                proof {
                    lemma_overflow_extends(shape@, i + 1);
                }
                return None;
            },
        }
        i += 1;
    }
    assert(shape@.subrange(0, shape@.len() as int) =~= shape@);
    Some(acc)
}

/// An overflowing prefix makes the whole fold overflow.
pub proof fn lemma_overflow_extends(s: Seq<usize>, k: int)
    requires
        0 <= k <= s.len(),
        product_overflows(s.subrange(0, k)),
    ensures
        product_overflows(s),
    decreases s.len() - k,
{
    if k < s.len() {
        assert(s.subrange(0, k + 1).drop_last() =~= s.subrange(0, k));
        lemma_overflow_extends(s, k + 1);
    } else {
        assert(s.subrange(0, k) =~= s);
    }
}

/// Splitting a shape splits its product.
pub proof fn lemma_product_split(s: Seq<usize>, k: int)
    requires
        0 <= k <= s.len(),
    ensures
        shape_product(s) == shape_product(s.subrange(0, k)) * shape_product(s.subrange(k, s.len() as int)),
    decreases s.len() - k,
{
    if k == s.len() {
        assert(s.subrange(0, k) =~= s);
        assert(s.subrange(k, s.len() as int) =~= Seq::<usize>::empty());
        assert(shape_product(s.subrange(k, s.len() as int)) == 1);
        assert(shape_product(s.subrange(0, k)) == shape_product(s));
    } else {
        let t = s.subrange(k, s.len() as int);
        let u = s.subrange(k + 1, s.len() as int);
        lemma_product_split(s, k + 1);
        let w = s.subrange(0, k + 1);
        assert(w.drop_last() =~= s.subrange(0, k));
        assert(shape_product(w) == shape_product(w.drop_last()) * (w.last() as nat));
        lemma_product_front(t);
        assert(t.drop_first() =~= u);
        let a = shape_product(s.subrange(0, k));
        let x = s[k] as nat;
        let b = shape_product(u);
        assert(shape_product(t) == x * b);
        let pw = shape_product(w);
        let pu = shape_product(u);
        let pt = shape_product(t);
        let ps = shape_product(s);
        assert(ps == a * pt) by (nonlinear_arith)
            requires
                ps == pw * pu,
                pw == a * x,
                pt == x * pu,
                b == pu,
        ;
    }
}

/// The product, peeled from the front.
pub proof fn lemma_product_front(s: Seq<usize>)
    requires
        s.len() > 0,
    ensures
        shape_product(s) == (s[0] as nat) * shape_product(s.drop_first()),
    decreases s.len(),
{
    assert(shape_product(s) == shape_product(s.drop_last()) * (s.last() as nat));
    if s.len() == 1 {
        assert(s.drop_last() =~= Seq::<usize>::empty());
        assert(s.drop_first() =~= Seq::<usize>::empty());
        assert(shape_product(s.drop_last()) == 1);
        assert(shape_product(s.drop_first()) == 1);
        assert(s.last() == s[0]);
        let ps = shape_product(s);
        let pl = shape_product(s.drop_last());
        let y = s.last() as nat;
        assert(ps == y * 1) by (nonlinear_arith)
            requires
                ps == pl * y,
                pl == 1,
        ;
    } else {
        lemma_product_front(s.drop_last());
        assert(s.drop_last().drop_first() =~= s.drop_first().drop_last());
        let x = s[0] as nat;
        let m = shape_product(s.drop_first().drop_last());
        let y = s.last() as nat;
        assert(shape_product(s.drop_first()) == m * y);
        let ps = shape_product(s);
        let pl = shape_product(s.drop_last());
        let pf = shape_product(s.drop_first());
        assert(pl == x * shape_product(s.drop_last().drop_first()));
        assert(ps == x * pf) by (nonlinear_arith)
            requires
                ps == pl * y,
                pl == x * m,
                pf == m * y,
        ;
    }
}

/// Shrinking each dimension does not grow the product.
pub proof fn lemma_product_le(a: Seq<usize>, b: Seq<usize>)
    requires
        a.len() == b.len(),
        forall|i: int| 0 <= i < a.len() ==> a[i] <= b[i],
    ensures
        shape_product(a) <= shape_product(b),
    decreases a.len(),
{
    if a.len() > 0 {
        lemma_product_le(a.drop_last(), b.drop_last());
        let p = shape_product(a.drop_last());
        let q = shape_product(b.drop_last());
        let x = a.last() as nat;
        let y = b.last() as nat;
        assert(p * x <= q * y) by (nonlinear_arith)
            requires
                p <= q,
                x <= y,
        ;
    }
}

/// With no zero dimension, every suffix's product is at most the whole one.
pub proof fn lemma_suffix_product_le(s: Seq<usize>, k: int)
    requires
        0 <= k <= s.len(),
        forall|i: int| 0 <= i < s.len() ==> s[i] > 0,
    ensures
        shape_product(s.subrange(k, s.len() as int)) <= shape_product(s),
{
    lemma_product_split(s, k);
    lemma_product_positive(s.subrange(0, k));
    let a = shape_product(s.subrange(0, k));
    let b = shape_product(s.subrange(k, s.len() as int));
    assert(b <= a * b) by (nonlinear_arith)
        requires
            a >= 1,
    ;
}

/// With no zero dimension the product is positive.
pub proof fn lemma_product_positive(s: Seq<usize>)
    requires
        forall|i: int| 0 <= i < s.len() ==> s[i] > 0,
    ensures
        shape_product(s) >= 1,
    decreases s.len(),
{
    if s.len() > 0 {
        lemma_product_positive(s.drop_last());
        let p = shape_product(s.drop_last());
        let x = s.last() as nat;
        assert(p * x >= 1) by (nonlinear_arith)
            requires
                p >= 1,
                x >= 1,
        ;
    }
}

/// A zero dimension makes the product zero.
pub proof fn lemma_product_zero(s: Seq<usize>, i: int)
    requires
        0 <= i < s.len(),
        s[i] == 0,
    ensures
        shape_product(s) == 0,
    decreases s.len(),
{
    let ps = shape_product(s);
    let pl = shape_product(s.drop_last());
    let y = s.last() as nat;
    assert(ps == pl * y);
    if i == s.len() - 1 {
        assert(ps == 0) by (nonlinear_arith)
            requires
                ps == pl * y,
                y == 0,
        ;
    } else {
        lemma_product_zero(s.drop_last(), i);
        assert(ps == 0) by (nonlinear_arith)
            requires
                ps == pl * y,
                pl == 0,
        ;
    }
}

/// Row-major stride of dimension `i`: the product of the dimensions after it.
pub open spec fn stride_of(shape: Seq<usize>, i: int) -> nat {
    shape_product(shape.subrange(i + 1, shape.len() as int))
}

/// Flat element index of the coordinates `pos`, summed over dimensions `k..`.
pub open spec fn tail_address(shape: Seq<usize>, pos: Seq<int>, k: int) -> int
    decreases shape.len() - k,
{
    if k < 0 || k >= shape.len() {
        0
    } else {
        pos[k] * stride_of(shape, k) + tail_address(shape, pos, k + 1)
    }
}

/// Flat element index of the coordinates `pos` in a row-major tensor.
pub open spec fn flat_address(shape: Seq<usize>, pos: Seq<int>) -> int {
    tail_address(shape, pos, 0)
}

/// Coordinates within the shape address an element within the tensor.
pub proof fn lemma_tail_address_bound(shape: Seq<usize>, pos: Seq<int>, k: int)
    requires
        0 <= k <= shape.len(),
        pos.len() == shape.len(),
        forall|i: int| k <= i < shape.len() ==> 0 <= #[trigger] pos[i] < shape[i],
    ensures
        0 <= tail_address(shape, pos, k) < shape_product(shape.subrange(k, shape.len() as int)),
    decreases shape.len() - k,
{
    let n = shape.len() as int;
    if k == n {
        assert(shape.subrange(k, n) =~= Seq::<usize>::empty());
    } else {
        lemma_tail_address_bound(shape, pos, k + 1);
        let t = shape.subrange(k, n);
        lemma_product_front(t);
        assert(t.drop_first() =~= shape.subrange(k + 1, n));
        let p = pos[k];
        let st = stride_of(shape, k) as int;
        let rest = tail_address(shape, pos, k + 1);
        let d = shape[k] as int;
        assert(0 <= p * st + rest < d * st) by (nonlinear_arith)
            requires
                0 <= p < d,
                0 <= rest < st,
        ;
    }
}

} // verus!

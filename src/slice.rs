//! Selecting sub-ranges of a tensor and walking the selected elements as
//! byte slices of the tensor's own buffer, without copying.
use crate::dtype::bits_of;
use crate::shape::{
    flat_address, lemma_product_front, lemma_product_le, lemma_product_positive, lemma_product_zero,
    lemma_suffix_product_le, lemma_tail_address_bound, product_overflows, shape_product, stride_of,
    tail_address,
};
use crate::view::{fits, TensorModel, TensorView};
use vstd::prelude::*;

verus! {

/// Why a selection cannot be made.
#[derive(Debug, PartialEq, Eq, Structural)]
pub enum InvalidSlice {
    /// More selections than the tensor has dimensions.
    TooManySlices,
    /// A selection reaches past its dimension.
    SliceOutOfRange {
        /// Which dimension
        dim_index: usize,
        /// The offending bound
        asked: usize,
        /// The size of that dimension
        dim_size: usize,
    },
    /// The elements are narrower than a byte and cannot be handed out one by one.
    MisalignedSlice,
}

/// One end of a selected range.
#[derive(Debug, Clone, Copy, PartialEq, Eq, Structural)]
pub enum SliceBound {
    /// This coordinate is part of the range.
    Included(usize),
    /// This coordinate is just outside the range.
    Excluded(usize),
    /// The range runs to the edge of the dimension.
    Unbounded,
}

/// A selection along one dimension.
#[derive(Debug, Clone, Copy, PartialEq, Eq, Structural)]
pub enum IndexOp {
    /// One coordinate.
    Single(usize),
    /// A contiguous run of coordinates, from a start bound to an end bound.
    Slice(SliceBound, SliceBound),
}

impl From<usize> for IndexOp {
    fn from(index: usize) -> (r: IndexOp) {
        IndexOp::Single(index)
    }
}

impl vstd::std_specs::convert::FromSpecImpl<usize> for IndexOp {
    open spec fn obeys_from_spec() -> bool {
        true
    }

    open spec fn from_spec(index: usize) -> IndexOp {
        IndexOp::Single(index)
    }
}

impl From<core::ops::Range<usize>> for IndexOp {
    fn from(range: core::ops::Range<usize>) -> (r: IndexOp) {
        IndexOp::Slice(SliceBound::Included(range.start), SliceBound::Excluded(range.end))
    }
}

impl vstd::std_specs::convert::FromSpecImpl<core::ops::Range<usize>> for IndexOp {
    open spec fn obeys_from_spec() -> bool {
        true
    }

    open spec fn from_spec(range: core::ops::Range<usize>) -> IndexOp {
        IndexOp::Slice(SliceBound::Included(range.start), SliceBound::Excluded(range.end))
    }
}

/// The selection for one dimension: a list of operations, applied in turn,
/// the last one deciding the range.
#[derive(Debug, Clone)]
pub struct TensorIndexer {
    pub indexer: Vec<IndexOp>,
}

impl TensorIndexer {
    /// A selection of the whole dimension.
    pub fn new() -> (r: Self)
        ensures
            r.indexer@ == Seq::<IndexOp>::empty(),
    {
        TensorIndexer { indexer: Vec::new() }
    }

    /// This selection followed by `op`.
    pub fn mul(self, op: IndexOp) -> (r: Self)
        ensures
            r.indexer@ == self.indexer@.push(op),
    {
        let mut indexer = self.indexer;
        indexer.push(op);
        TensorIndexer { indexer }
    }
}

/// `a`, or the largest `usize` where `a` is larger.
pub open spec fn clip(a: nat) -> nat {
    if a > usize::MAX {
        usize::MAX as nat
    } else {
        a
    }
}

/// The range one operation selects in a dimension of size `dim`, or the
/// offending bound.
pub open spec fn resolve_op(op: IndexOp, dim: nat) -> Result<(nat, nat), nat> {
    match op {
        IndexOp::Single(idx) => if idx >= dim {
            Err(idx as nat)
        } else {
            Ok((idx as nat, (idx + 1) as nat))
        },
        IndexOp::Slice(sb, eb) => {
            let start: nat = match sb {
                SliceBound::Included(n) => n as nat,
                SliceBound::Excluded(n) => (n + 1) as nat,
                SliceBound::Unbounded => 0,
            };
            let end: nat = match eb {
                SliceBound::Included(n) => (n + 1) as nat,
                SliceBound::Excluded(n) => n as nat,
                SliceBound::Unbounded => dim,
            };
            if start >= dim {
                Err(start)
            } else if end > dim || start > end {
                Err(end)
            } else {
                Ok((start, end))
            }
        },
    }
}

/// Applies the operations in turn from range `cur`; the first failure stops.
pub open spec fn resolve_ops(ops: Seq<IndexOp>, dim: nat, cur: (nat, nat)) -> Result<
    (nat, nat),
    nat,
>
    decreases ops.len(),
{
    if ops.len() == 0 {
        Ok(cur)
    } else {
        match resolve_op(ops[0], dim) {
            Err(a) => Err(a),
            Ok(r) => resolve_ops(ops.drop_first(), dim, r),
        }
    }
}

/// The range selected in dimension `i`: the whole of it where no selection is
/// given.
pub open spec fn dim_range(slices: Seq<TensorIndexer>, shape: Seq<usize>, i: int) -> Result<
    (nat, nat),
    nat,
> {
    if i < slices.len() {
        resolve_ops(slices[i].indexer@, shape[i] as nat, (0, shape[i] as nat))
    } else {
        Ok((0, shape[i] as nat))
    }
}

/// The first dimension from `i` on whose selection fails, if any.
pub open spec fn first_bad_dim(slices: Seq<TensorIndexer>, shape: Seq<usize>, i: int) -> Option<int>
    decreases shape.len() - i,
{
    if i < 0 || i >= shape.len() {
        None
    } else if dim_range(slices, shape, i) is Err {
        Some(i)
    } else {
        first_bad_dim(slices, shape, i + 1)
    }
}

/// An iterator over selected elements, as a mathematical value: the buffer,
/// the unsliced shape, the start and length of the range in each dimension,
/// the position counter, how many elements were handed out, how many there
/// are, and the bytes per element.
pub struct SliceModel {
    pub data: Seq<u8>,
    pub shape: Seq<usize>,
    pub starts: Seq<usize>,
    pub lens: Seq<usize>,
    pub counter: Seq<usize>,
    pub index: nat,
    pub total: nat,
    pub elem: nat,
}

/// What selecting `slices` in tensor `t` gives.
pub open spec fn slice_outcome(t: TensorModel, slices: Seq<TensorIndexer>) -> Result<
    SliceModel,
    InvalidSlice,
> {
    let shape = t.shape;
    let n = shape.len();
    if slices.len() > n {
        Err(InvalidSlice::TooManySlices)
    } else if bits_of(t.dtype) % 8 != 0 {
        Err(InvalidSlice::MisalignedSlice)
    } else if first_bad_dim(slices, shape, 0) is Some {
        let i = first_bad_dim(slices, shape, 0)->Some_0;
        Err(
            InvalidSlice::SliceOutOfRange {
                dim_index: i as usize,
                asked: clip(dim_range(slices, shape, i)->Err_0) as usize,
                dim_size: shape[i],
            },
        )
    } else {
        let starts = Seq::new(n, |i: int| dim_range(slices, shape, i)->Ok_0.0 as usize);
        let lens = Seq::new(
            n,
            |i: int| (dim_range(slices, shape, i)->Ok_0.1 - dim_range(slices, shape, i)->Ok_0.0) as usize,
        );
        Ok(
            SliceModel {
                data: t.data,
                shape,
                starts,
                lens,
                counter: Seq::new(n, |i: int| 0usize),
                index: 0,
                total: shape_product(lens),
                elem: bits_of(t.dtype) / 8,
            },
        )
    }
}

/// The coordinates in the whole tensor of the iterator's current position.
pub open spec fn positions(m: SliceModel) -> Seq<int> {
    Seq::new(m.shape.len(), |i: int| m.starts[i] + m.counter[i])
}

/// The flat element index of the iterator's current position.
pub open spec fn current_address(m: SliceModel) -> int {
    flat_address(m.shape, positions(m))
}

/// The position after `c` in row-major order over ranges of lengths `lens`:
/// the last coordinate moves fastest, and a coordinate that reaches its
/// length goes back to zero and carries into the one before it.
pub open spec fn advance(c: Seq<usize>, lens: Seq<usize>) -> Seq<usize>
    decreases c.len(),
{
    if c.len() == 0 || lens.len() != c.len() {
        c
    } else if c.last() + 1 < lens.last() {
        c.drop_last().push((c.last() + 1) as usize)
    } else {
        advance(c.drop_last(), lens.drop_last()).push(0usize)
    }
}

/// The range that one operation selects in a dimension of size `dim`, or the
/// offending bound (the largest `usize` standing for one past it).
fn resolve_one(op: IndexOp, dim: usize) -> (r: Result<(usize, usize), usize>)
    ensures
        match resolve_op(op, dim as nat) {
            Ok((s, e)) => r == Ok::<(usize, usize), usize>((s as usize, e as usize)) && s <= e <= dim,
            Err(a) => r == Err::<(usize, usize), usize>(clip(a) as usize),
        },
{
    match op {
        IndexOp::Single(idx) => {
            if idx >= dim {
                Err(idx)
            } else {
                Ok((idx, idx + 1))
            }
        },
        IndexOp::Slice(sb, eb) => {
            let start: Option<usize> = match sb {
                SliceBound::Included(n) => Some(n),
                SliceBound::Excluded(n) => n.checked_add(1),
                SliceBound::Unbounded => Some(0),
            };
            let end: Option<usize> = match eb {
                SliceBound::Included(n) => n.checked_add(1),
                SliceBound::Excluded(n) => Some(n),
                SliceBound::Unbounded => Some(dim),
            };
            match start {
                None => Err(usize::MAX),
                Some(s) => {
                    if s >= dim {
                        Err(s)
                    } else {
                        match end {
                            None => Err(usize::MAX),
                            Some(e) => {
                                if e > dim || s > e {
                                    Err(e)
                                } else {
                                    Ok((s, e))
                                }
                            },
                        }
                    }
                },
            }
        },
    }
}

/// The range that a list of operations selects in a dimension of size `dim`.
fn resolve_dim(ops: &Vec<IndexOp>, dim: usize) -> (r: Result<(usize, usize), usize>)
    ensures
        match resolve_ops(ops@, dim as nat, (0, dim as nat)) {
            Ok((s, e)) => r == Ok::<(usize, usize), usize>((s as usize, e as usize)) && s <= e <= dim,
            Err(a) => r == Err::<(usize, usize), usize>(clip(a) as usize),
        },
{
    let mut cur: (usize, usize) = (0, dim);
    let mut k: usize = 0;
    assert(ops@.subrange(0, ops@.len() as int) =~= ops@);
    while k < ops.len()
        invariant
            0 <= k <= ops@.len(),
            cur.0 <= cur.1 <= dim,
            resolve_ops(ops@, dim as nat, (0, dim as nat)) == resolve_ops(
                ops@.subrange(k as int, ops@.len() as int),
                dim as nat,
                (cur.0 as nat, cur.1 as nat),
            ),
        decreases ops@.len() - k,
    {
        let ghost rest = ops@.subrange(k as int, ops@.len() as int);
        assert(rest[0] == ops@[k as int]);
        assert(rest.drop_first() =~= ops@.subrange(k + 1, ops@.len() as int));
        match resolve_one(ops[k], dim) {
            Err(a) => {
                return Err(a);
            },
            Ok(r) => {
                cur = r;
            },
        }
        k += 1;
    }
    assert(ops@.subrange(k as int, ops@.len() as int) =~= Seq::<IndexOp>::empty());
    Ok(cur)
}

/// No step of a product overflows when each dimension is at most that of a
/// shape whose product does not overflow.
proof fn lemma_no_overflow_le(a: Seq<usize>, b: Seq<usize>)
    requires
        a.len() == b.len(),
        forall|i: int| 0 <= i < a.len() ==> a[i] <= b[i],
        !product_overflows(b),
    ensures
        !product_overflows(a),
    decreases a.len(),
{
    if a.len() > 0 {
        lemma_no_overflow_le(a.drop_last(), b.drop_last());
        lemma_product_le(a, b);
    }
}

/// Hands out, one by one, the bytes of the elements selected in a tensor, in
/// row-major order over the selected ranges.
#[derive(Debug)]
pub struct SliceIterator<'data> {
    tensor: &'data TensorView<'data>,
    shape: Vec<usize>,
    starts: Vec<usize>,
    lens: Vec<usize>,
    strides: Vec<usize>,
    current: Vec<usize>,
    index: usize,
    n_elements: usize,
    element_size: usize,
}

impl<'data> View for SliceIterator<'data> {
    type V = SliceModel;

    closed spec fn view(&self) -> SliceModel {
        SliceModel {
            data: self.tensor@.data,
            shape: self.shape@,
            starts: self.starts@,
            lens: self.lens@,
            counter: self.current@,
            index: self.index as nat,
            total: self.n_elements as nat,
            elem: self.element_size as nat,
        }
    }
}

impl<'data> SliceIterator<'data> {
    #[verifier::type_invariant]
    spec fn inv(&self) -> bool {
        let n = self.shape@.len();
        &&& self.shape@ == self.tensor@.shape
        &&& fits(self.tensor@.dtype, self.shape@, self.tensor@.data)
        &&& self.element_size > 0
        &&& self.element_size * 8 == bits_of(self.tensor@.dtype)
        &&& self.starts@.len() == n
        &&& self.lens@.len() == n
        &&& self.strides@.len() == n
        &&& self.current@.len() == n
        &&& forall|i: int| 0 <= i < n ==> self.starts@[i] + self.lens@[i] <= self.shape@[i]
        &&& self.n_elements == shape_product(self.lens@)
        &&& self.index <= self.n_elements
        &&& self.n_elements > 0 ==> forall|i: int|
            0 <= i < n ==> self.current@[i] < #[trigger] self.lens@[i] && self.shape@[i] > 0
                && self.strides@[i] == stride_of(self.shape@, i)
    }

    /// Selects `slices`, one per leading dimension, in `tensor`; the
    /// dimensions after them are taken whole.
    pub fn new(tensor: &'data TensorView<'data>, slices: &[TensorIndexer]) -> (r: Result<
        Self,
        InvalidSlice,
    >)
        ensures
            match slice_outcome(tensor@, slices@) {
                Ok(m) => r matches Ok(it) && it@ == m,
                Err(e) => r == Err::<SliceIterator<'data>, InvalidSlice>(e),
            },
    {
        let shape = tensor.shape();
        let n = shape.len();
        if slices.len() > n {
            return Err(InvalidSlice::TooManySlices);
        }
        let bits = tensor.dtype().bitsize();
        if bits % 8 != 0 {
            return Err(InvalidSlice::MisalignedSlice);
        }
        let ghost sl = slices@;
        let mut starts: Vec<usize> = Vec::with_capacity(n);
        let mut lens: Vec<usize> = Vec::with_capacity(n);
        let mut i: usize = 0;
        while i < n
            invariant
                n == shape@.len(),
                shape@ == tensor@.shape,
                sl == slices@,
                sl.len() <= n,
                bits == bits_of(tensor@.dtype),
                bits % 8 == 0,
                fits(tensor@.dtype, tensor@.shape, tensor@.data),
                0 <= i <= n,
                first_bad_dim(sl, shape@, 0) == first_bad_dim(sl, shape@, i as int),
                starts@.len() == i,
                lens@.len() == i,
                forall|j: int|
                    0 <= j < i ==> {
                        &&& #[trigger] dim_range(sl, shape@, j) is Ok
                        &&& starts@[j] == dim_range(sl, shape@, j)->Ok_0.0
                        &&& lens@[j] == dim_range(sl, shape@, j)->Ok_0.1 - dim_range(
                            sl,
                            shape@,
                            j,
                        )->Ok_0.0
                        &&& dim_range(sl, shape@, j)->Ok_0.1 <= shape@[j]
                    },
            decreases n - i,
        {
            let dim_size = shape[i];
            let range = if i < slices.len() {
                resolve_dim(&slices[i].indexer, dim_size)
            } else {
                Ok((0, dim_size))
            };
            match range {
                Err(asked) => {
                    proof {
                        assert(dim_range(sl, shape@, i as int) is Err);
                        assert(first_bad_dim(sl, shape@, i as int) == Some(i as int));
                    }
                    return Err(InvalidSlice::SliceOutOfRange { dim_index: i, asked, dim_size });
                },
                Ok((s, e)) => {
                    assert(dim_range(sl, shape@, i as int) is Ok);
                    starts.push(s);
                    lens.push(e - s);
                },
            }
            i += 1;
        }
        proof {
            assert forall|k: int| 0 <= k < n implies lens@[k] <= shape@[k] by {
                assert(dim_range(sl, shape@, k) is Ok);
            }
            lemma_no_overflow_le(lens@, shape@);
        }
        let n_elements = match crate::shape::checked_product(lens.as_slice()) {
            Some(p) => p,
            None => vstd::pervasive::unreached(),
        };
        let mut strides: Vec<usize> = vec![0usize; n];
        if n_elements > 0 {
            proof {
                assert forall|k: int| 0 <= k < n implies shape@[k] > 0 && lens@[k] > 0 by {
                    if lens@[k] == 0 {
                        lemma_product_zero(lens@, k);
                    }
                    assert(dim_range(sl, shape@, k) is Ok);
                }
                lemma_product_positive(shape@);
                assert(shape@.subrange(n as int, n as int) =~= Seq::<usize>::empty());
            }
            let mut acc: usize = 1;
            let mut k: usize = n;
            while k > 0
                invariant
                    n == shape@.len(),
                    strides@.len() == n,
                    0 <= k <= n,
                    !product_overflows(shape@),
                    forall|j: int| 0 <= j < n ==> shape@[j] > 0,
                    acc == shape_product(shape@.subrange(k as int, n as int)),
                    forall|j: int| k <= j < n ==> strides@[j] == stride_of(shape@, j),
                decreases k,
            {
                k -= 1;
                strides.set(k, acc);
                proof {
                    let t = shape@.subrange(k as int, n as int);
                    lemma_product_front(t);
                    assert(t[0] == shape@[k as int]);
                    assert(t.drop_first() =~= shape@.subrange(k + 1, n as int));
                    lemma_suffix_product_le(shape@, k as int);
                    assert(shape_product(shape@) <= usize::MAX);
                    let pt = shape_product(t);
                    let x = shape@[k as int] as nat;
                    assert(acc * x == pt) by (nonlinear_arith)
                        requires
                            pt == x * acc,
                    ;
                }
                acc = acc * shape[k];
            }
        }
        let ghost m = slice_outcome(tensor@, slices@)->Ok_0;
        assert(bits / 8 > 0);
        assert((bits / 8) * 8 == bits);
        assert(n_elements == shape_product(lens@));
        assert forall|i: int| 0 <= i < n implies starts@[i] + lens@[i] <= shape@[i] by {
            assert(dim_range(sl, shape@, i) is Ok);
        }
        assert(n_elements > 0 ==> forall|i: int| 0 <= i < n ==> lens@[i] > 0 && shape@[i] > 0
                && strides@[i] == stride_of(shape@, i));
        let current: Vec<usize> = vec![0usize; n];
        let it = SliceIterator {
            tensor,
            shape: vstd::slice::slice_to_vec(shape),
            starts,
            lens,
            strides,
            current,
            index: 0,
            n_elements,
            element_size: bits / 8,
        };
        proof {
            assert(it.starts@ =~= m.starts);
            assert(it.lens@ =~= m.lens);
            assert(it.current@ =~= m.counter);
        }
        Ok(it)
    }
}

/// Zeros, `n` of them.
pub open spec fn zeros(n: nat) -> Seq<usize> {
    Seq::new(n, |j: int| 0usize)
}

/// The position after `counter` in row-major order over ranges of
/// lengths `lens`, wrapping round to all zeros after the last one.
fn advanced(counter: &Vec<usize>, lens: &Vec<usize>) -> (r: Vec<usize>)
    requires
        counter@.len() == lens@.len(),
        forall|j: int| 0 <= j < lens@.len() ==> counter@[j] < lens@[j],
    ensures
        r@ == advance(counter@, lens@),
        r@.len() == lens@.len(),
        forall|j: int| 0 <= j < lens@.len() ==> r@[j] < lens@[j],
{
    let mut current = counter.clone();
    assert(current@ =~= counter@);
    let n = current.len();
    let ghost c0 = current@;
    let ghost l = lens@;
    let mut i: usize = n;
    let mut carry = true;
    proof {
        assert(c0.subrange(0, n as int) =~= c0);
        assert(l.subrange(0, n as int) =~= l);
        assert(c0.subrange(0, n as int) + zeros(0) =~= c0);
        assert(advance(c0, l) + zeros(0) =~= advance(c0, l));
    }
    while carry && i > 0
        invariant
            current@.len() == n,
            l == lens@,
            l.len() == n,
            c0.len() == n,
            0 <= i <= n,
            forall|j: int| 0 <= j < n ==> c0[j] < l[j],
            forall|j: int| 0 <= j < n ==> current@[j] < l[j],
            carry ==> current@ == c0.subrange(0, i as int) + zeros((n - i) as nat),
            carry ==> advance(c0, l) == advance(c0.subrange(0, i as int), l.subrange(0, i as int))
                + zeros((n - i) as nat),
            !carry ==> current@ == advance(c0, l),
        decreases i,
    {
        i -= 1;
        let ghost p = c0.subrange(0, i + 1);
        let ghost lp = l.subrange(0, i + 1);
        proof {
            assert(p.drop_last() =~= c0.subrange(0, i as int));
            assert(lp.drop_last() =~= l.subrange(0, i as int));
            assert(current@[i as int] == c0[i as int]);
        }
        let v = current[i];
        if v + 1 < lens[i] {
            current.set(i, v + 1);
            carry = false;
            proof {
                assert(advance(p, lp) == c0.subrange(0, i as int).push((v + 1) as usize));
                assert(current@ =~= c0.subrange(0, i as int).push((v + 1) as usize) + zeros(
                    (n - i - 1) as nat,
                ));
            }
        } else {
            current.set(i, 0);
            proof {
                let a = advance(c0.subrange(0, i as int), l.subrange(0, i as int));
                assert(advance(p, lp) == a.push(0usize));
                assert(a.push(0usize) + zeros((n - i - 1) as nat) =~= a + zeros((n - i) as nat));
                assert(current@ =~= c0.subrange(0, i as int) + zeros((n - i) as nat));
            }
        }
    }
    proof {
        if carry {
            assert(c0.subrange(0, 0) =~= Seq::<usize>::empty());
            assert(l.subrange(0, 0) =~= Seq::<usize>::empty());
            assert(Seq::<usize>::empty() + zeros(n as nat) =~= zeros(n as nat));
        }
    }
    current
}

impl<'data> SliceIterator<'data> {
    /// The bytes of the element at the current position, then a step to the
    /// next position; nothing once every selected element has been handed out.
    pub fn next(&mut self) -> (r: Option<&'data [u8]>)
        ensures
            old(self)@.index >= old(self)@.total ==> r is None && final(self)@ == old(self)@,
            old(self)@.index < old(self)@.total ==> (r matches Some(b) && b@ == old(self)@.data.subrange(
                current_address(old(self)@) * old(self)@.elem,
                (current_address(old(self)@) + 1) * old(self)@.elem,
            ) && final(self)@ == (SliceModel {
                counter: advance(old(self)@.counter, old(self)@.lens),
                index: old(self)@.index + 1,
                ..old(self)@
            })),
    {
        proof {
            use_type_invariant(&*self);
        }
        if self.index >= self.n_elements {
            return None;
        }
        let n = self.current.len();
        let ghost shape = self.shape@;
        let ghost pos = positions(self@);
        let ghost total = shape_product(shape);
        proof {
            assert forall|j: int| 0 <= j < n implies self.strides@[j] == stride_of(shape, j) && shape[j]
                > 0 by {
                assert(self.current@[j] < self.lens@[j]);
            }
            assert forall|j: int| 0 <= j < n implies 0 <= #[trigger] pos[j] < shape[j] by {
                assert(self.current@[j] < self.lens@[j]);
                assert(self.strides@[j] == stride_of(shape, j));
                assert(self.starts@[j] + self.lens@[j] <= self.shape@[j]);
            }
            assert(!product_overflows(shape));
            if n > 0 {
                assert(total <= usize::MAX);
            }
        }
        let mut addr: usize = 0;
        let mut k: usize = n;
        proof {
            assert(shape.subrange(0, n as int) =~= shape);
        }
        while k > 0
            invariant
                n == shape.len(),
                shape == self.shape@,
                pos.len() == n,
                self.starts@.len() == n,
                self.current@.len() == n,
                self.strides@.len() == n,
                0 <= k <= n,
                total == shape_product(shape),
                total <= usize::MAX,
                forall|j: int| 0 <= j < n ==> 0 <= #[trigger] pos[j] < shape[j],
                forall|j: int| 0 <= j < n ==> pos[j] == self.starts@[j] + self.current@[j],
                forall|j: int| 0 <= j < n ==> shape[j] > 0,
                forall|j: int| 0 <= j < n ==> self.strides@[j] == stride_of(shape, j),
                addr == tail_address(shape, pos, k as int),
            decreases k,
        {
            k -= 1;
            proof {
                lemma_tail_address_bound(shape, pos, k as int);
                lemma_suffix_product_le(shape, k as int);
            }
            let p = self.starts[k] + self.current[k];
            addr = addr + p * self.strides[k];
        }
        let es = self.element_size;
        let ghost data = self.tensor@.data;
        proof {
            lemma_tail_address_bound(shape, pos, 0);
            let bits = bits_of(self.tensor@.dtype);
            let a = addr as int;
            let e = es as int;
            assert(data.len() == total * bits / 8);
            assert(total * bits == (total * e) * 8) by (nonlinear_arith)
                requires
                    bits == e * 8,
            ;
            assert(data.len() == total * e);
            assert((a + 1) * e <= total * e) by (nonlinear_arith)
                requires
                    a + 1 <= total,
                    e > 0,
            ;
            assert(a * e + e == (a + 1) * e) by (nonlinear_arith);
        }
        let start = addr * es;
        let end = start + es;
        let bytes = vstd::slice::slice_subrange(self.tensor.data(), start, end);
        proof {
            assert forall|j: int| 0 <= j < n implies self.lens@[j] > 0 by {
                if self.lens@[j] == 0 {
                    lemma_product_zero(self.lens@, j);
                }
            }
        }
        let next_counter = advanced(&self.current, &self.lens);
        self.current = next_counter;
        self.index = self.index + 1;
        Some(bytes)
    }
}

} // verus!

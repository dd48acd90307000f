//! Per-tensor descriptors and the ordered, validated header they form.
use crate::dtype::{bits_of, Dtype};
use crate::error::X8DsubByteError;
use crate::shape::{checked_product, product_overflows, shape_product};
use vstd::prelude::*;

verus! {

/// Largest header length accepted, in bytes.
pub const MAX_HEADER_SIZE: usize = 100_000_000;

/// Number of bits taken by `shape` elements of dtype `d`.
pub open spec fn bit_count(d: Dtype, shape: Seq<usize>) -> nat {
    shape_product(shape) * bits_of(d)
}

/// Whether computing the bit count of a tensor overflows `usize`.
pub open spec fn size_overflows(d: Dtype, shape: Seq<usize>) -> bool {
    product_overflows(shape) || bit_count(d, shape) > usize::MAX
}

/// One tensor's entry in the header.
/// Elements are little-endian and laid out in row-major order.
#[derive(Debug)]
pub struct TensorInfo {
    /// The type of each element
    pub dtype: Dtype,
    /// The dimensions
    pub shape: Vec<usize>,
    /// The byte range of the tensor within the payload
    pub data_offsets: (usize, usize),
}

/// A tensor entry as a mathematical value.
pub struct TensorInfoView {
    pub dtype: Dtype,
    pub shape: Seq<usize>,
    pub start: nat,
    pub end: nat,
}

impl View for TensorInfo {
    type V = TensorInfoView;

    open spec fn view(&self) -> TensorInfoView {
        TensorInfoView {
            dtype: self.dtype,
            shape: self.shape@,
            start: self.data_offsets.0 as nat,
            end: self.data_offsets.1 as nat,
        }
    }
}

impl TensorInfo {
    /// A copy of this entry.
    pub fn duplicate(&self) -> (r: TensorInfo)
        ensures
            r@ == self@,
    {
        TensorInfo { dtype: self.dtype, shape: self.shape.clone(), data_offsets: self.data_offsets }
    }
}

/// Why a sequence of entries does not form a valid layout.
pub enum LayoutFault {
    /// The entry at this position does not start where the previous one ended,
    /// or ends before it starts.
    Offset(int),
    /// Its element or bit count overflows.
    Overflow,
    /// Its bit count is not a whole number of bytes.
    Misaligned,
    /// Its byte range does not match its dtype and shape.
    SizeMismatch,
}

/// Checks the entries from position `i` on, the previous one having ended at
/// `cursor`; gives the end of the last one.
pub open spec fn check_layout(infos: Seq<TensorInfoView>, i: int, cursor: nat) -> Result<
    nat,
    LayoutFault,
>
    decreases infos.len() - i,
{
    if i < 0 || i >= infos.len() {
        Ok(cursor)
    } else {
        let t = infos[i];
        if t.start != cursor || t.end < t.start {
            Err(LayoutFault::Offset(i))
        } else if size_overflows(t.dtype, t.shape) {
            Err(LayoutFault::Overflow)
        } else if bit_count(t.dtype, t.shape) % 8 != 0 {
            Err(LayoutFault::Misaligned)
        } else if t.end - t.start != bit_count(t.dtype, t.shape) / 8 {
            Err(LayoutFault::SizeMismatch)
        } else {
            check_layout(infos, i + 1, t.end)
        }
    }
}

/// The outcome of validating a whole sequence of entries.
pub open spec fn layout_of(infos: Seq<TensorInfoView>) -> Result<nat, LayoutFault> {
    check_layout(infos, 0, 0)
}

/// Whether entry `t` is sound on its own: its sizes do not overflow, it is
/// byte-aligned, and its byte range matches its dtype and shape.
pub open spec fn entry_sound(t: TensorInfoView) -> bool {
    &&& t.start <= t.end
    &&& !size_overflows(t.dtype, t.shape)
    &&& bit_count(t.dtype, t.shape) % 8 == 0
    &&& t.end - t.start == bit_count(t.dtype, t.shape) / 8
}

/// In a valid layout every entry is sound and ends within the payload.
pub proof fn lemma_layout_entries(infos: Seq<TensorInfoView>, k: int, c: nat)
    requires
        0 <= k,
        check_layout(infos, k, c) is Ok,
    ensures
        forall|i: int| k <= i < infos.len() ==> entry_sound(#[trigger] infos[i])
            && infos[i].end <= check_layout(infos, k, c)->Ok_0,
        k >= infos.len() ==> check_layout(infos, k, c)->Ok_0 == c,
        k < infos.len() ==> check_layout(infos, k, c)->Ok_0 == infos.last().end,
        k < infos.len() ==> infos[k].start == c,
    decreases infos.len() - k,
{
    if k < infos.len() {
        lemma_layout_entries(infos, k + 1, infos[k].end);
    }
}

/// Whether `e` is the error that reports fault `f` for entries named `names`.
pub open spec fn reports(e: X8DsubByteError, f: LayoutFault, names: Seq<Seq<char>>) -> bool {
    match f {
        LayoutFault::Offset(i) => e matches X8DsubByteError::InvalidOffset(n) && n@ == names[i],
        LayoutFault::Overflow => e is ValidationOverflow,
        LayoutFault::Misaligned => e is MisalignedSlice,
        LayoutFault::SizeMismatch => e is TensorInvalidInfo,
    }
}

/// Whether no name occurs twice.
pub open spec fn distinct_names(names: Seq<Seq<char>>) -> bool {
    forall|i: int, j: int| 0 <= i < j < names.len() ==> names[i] != names[j]
}

/// The views of a sequence of strings.
pub open spec fn texts(v: Seq<String>) -> Seq<Seq<char>> {
    v.map_values(|s: String| s@)
}

/// The views of a sequence of entries.
pub open spec fn info_views(v: Seq<TensorInfo>) -> Seq<TensorInfoView> {
    v.map_values(|t: TensorInfo| t@)
}

/// Free-form string pairs as mathematical values.
pub open spec fn pair_texts(v: Seq<(String, String)>) -> Seq<(Seq<char>, Seq<char>)> {
    v.map_values(|p: (String, String)| (p.0@, p.1@))
}

/// The header as a mathematical value: the free-form pairs, and the tensors'
/// names and entries in index order.
pub struct MetadataView {
    pub extra: Option<Seq<(Seq<char>, Seq<char>)>>,
    pub names: Seq<Seq<char>>,
    pub infos: Seq<TensorInfoView>,
}

impl MetadataView {
    /// Free-form keys unique, names unique, one per entry, entries laid out
    /// end to end from zero.
    pub open spec fn valid(self) -> bool {
        &&& keys_distinct(self.extra)
        &&& self.names.len() == self.infos.len()
        &&& distinct_names(self.names)
        &&& layout_of(self.infos) is Ok
    }

    /// Length of the payload that the entries cover.
    pub open spec fn payload_len(self) -> nat {
        if self.infos.len() == 0 {
            0
        } else {
            self.infos.last().end
        }
    }
}

/// The header of a container: optional free-form string pairs, and the
/// tensors' entries in payload order with their names.
#[derive(Debug)]
pub struct Metadata {
    metadata: Option<Vec<(String, String)>>,
    tensors: Vec<TensorInfo>,
    names: Vec<String>,
}

impl View for Metadata {
    type V = MetadataView;

    closed spec fn view(&self) -> MetadataView {
        MetadataView {
            extra: match self.metadata {
                Some(v) => Some(pair_texts(v@)),
                None => None,
            },
            names: texts(self.names@),
            infos: info_views(self.tensors@),
        }
    }
}

/// The names of (name, entry) pairs.
pub open spec fn entry_names(v: Seq<(String, TensorInfo)>) -> Seq<Seq<char>> {
    v.map_values(|p: (String, TensorInfo)| p.0@)
}

/// (name, entry) pairs as mathematical values.
pub open spec fn pair_views(v: Seq<(String, TensorInfo)>) -> Seq<(Seq<char>, TensorInfoView)> {
    v.map_values(|p: (String, TensorInfo)| (p.0@, p.1@))
}

/// The entries of (name, entry) pairs.
pub open spec fn entry_infos(v: Seq<(String, TensorInfo)>) -> Seq<TensorInfoView> {
    v.map_values(|p: (String, TensorInfo)| p.1@)
}

/// The view of optional free-form pairs.
pub open spec fn extra_view(metadata: Option<Vec<(String, String)>>) -> Option<
    Seq<(Seq<char>, Seq<char>)>,
> {
    match metadata {
        Some(v) => Some(pair_texts(v@)),
        None => None,
    }
}

/// What building a header from `metadata` and the (name, entry) pairs
/// `tensors`, in that order, gives: an error for a repeated name, else the
/// error for the first entry that breaks the layout, else the header.
pub open spec fn new_outcome(
    metadata: Option<Vec<(String, String)>>,
    tensors: Seq<(String, TensorInfo)>,
    r: Result<Metadata, X8DsubByteError>,
) -> bool {
    build_outcome(extra_view(metadata), entry_names(tensors), entry_infos(tensors), view_result(r))
}

/// What building a header from free-form pairs `extra`, and tensors named
/// `names` with entries `infos` in that order, gives.
pub open spec fn build_outcome(
    extra: Option<Seq<(Seq<char>, Seq<char>)>>,
    names: Seq<Seq<char>>,
    infos: Seq<TensorInfoView>,
    r: Result<MetadataView, X8DsubByteError>,
) -> bool {
    &&& !keys_distinct(extra) ==> (r matches Err(X8DsubByteError::DuplicateName(n))
        && keys_of(extra).contains(n@))
    &&& keys_distinct(extra) && !distinct_names(names) ==> (r matches Err(
        X8DsubByteError::DuplicateName(n),
    ) && names.contains(n@))
    &&& keys_distinct(extra) && distinct_names(names) ==> match layout_of(infos) {
        Ok(_) => r == Ok::<MetadataView, X8DsubByteError>(MetadataView { extra, names, infos }),
        Err(f) => r matches Err(e) && reports(e, f, names),
    }
}

/// The keys of optional free-form pairs.
pub open spec fn keys_of(extra: Option<Seq<(Seq<char>, Seq<char>)>>) -> Seq<Seq<char>> {
    match extra {
        Some(ps) => ps.map_values(|p: (Seq<char>, Seq<char>)| p.0),
        None => Seq::empty(),
    }
}

/// Whether no free-form key occurs twice.
pub open spec fn keys_distinct(extra: Option<Seq<(Seq<char>, Seq<char>)>>) -> bool {
    distinct_names(keys_of(extra))
}

/// The mathematical value of a header or an error.
pub open spec fn view_result(r: Result<Metadata, X8DsubByteError>) -> Result<
    MetadataView,
    X8DsubByteError,
> {
    match r {
        Ok(m) => Ok(m@),
        Err(e) => Err(e),
    }
}

/// Checks that the entries are laid out end to end from zero, each with a byte
/// range that fits its dtype and shape; gives the end of the last one.
fn check_entries(names: &Vec<String>, tensors: &Vec<TensorInfo>) -> (r: Result<
    usize,
    X8DsubByteError,
>)
    requires
        names@.len() == tensors@.len(),
    ensures
        match layout_of(info_views(tensors@)) {
            Ok(total) => r matches Ok(t) && t == total,
            Err(f) => r matches Err(e) && reports(e, f, texts(names@)),
        },
        r is Ok ==> r->Ok_0 == (MetadataView {
            extra: None,
            names: texts(names@),
            infos: info_views(tensors@),
        }).payload_len(),
{
    let ghost infos = info_views(tensors@);
    let mut start: usize = 0;
    let mut i: usize = 0;
    while i < tensors.len()
        invariant
            names@.len() == tensors@.len(),
            infos == info_views(tensors@),
            0 <= i <= tensors@.len(),
            layout_of(infos) == check_layout(infos, i as int, start as nat),
            i == 0 ==> start == 0,
            i > 0 ==> start == infos[i - 1].end,
        decreases tensors@.len() - i,
    {
        let info = &tensors[i];
        let s = info.data_offsets.0;
        let e = info.data_offsets.1;
        assert(infos[i as int] == info@);
        if s != start || e < s {
            return Err(X8DsubByteError::InvalidOffset(names[i].clone()));
        }
        start = e;
        let nelements = match checked_product(info.shape.as_slice()) {
            Some(p) => p,
            None => {
                return Err(X8DsubByteError::ValidationOverflow);
            },
        };
        let nbits = match nelements.checked_mul(info.dtype.bitsize()) {
            Some(b) => b,
            None => {
                return Err(X8DsubByteError::ValidationOverflow);
            },
        };
        if nbits % 8 != 0 {
            return Err(X8DsubByteError::MisalignedSlice);
        }
        let size = nbits / 8;
        if e - s != size {
            return Err(X8DsubByteError::TensorInvalidInfo);
        }
        i += 1;
    }
    Ok(start)
}

/// The position of a name that occurs earlier too, if any.
fn first_duplicate(names: &Vec<String>) -> (r: Option<usize>)
    ensures
        r is None <==> distinct_names(texts(names@)),
        r matches Some(j) ==> j < names@.len(),
{
    let mut j: usize = 0;
    while j < names.len()
        invariant
            0 <= j <= names@.len(),
            distinct_names(texts(names@).subrange(0, j as int)),
        decreases names@.len() - j,
    {
        let mut i: usize = 0;
        while i < j
            invariant
                0 <= i <= j < names@.len(),
                forall|k: int| 0 <= k < i ==> texts(names@)[k] != texts(names@)[j as int],
            decreases j - i,
        {
            if names[i] == names[j] {
                proof {
                    assert(texts(names@)[i as int] == texts(names@)[j as int]);
                }
                return Some(j);
            }
            i += 1;
        }
        proof {
            let t = texts(names@).subrange(0, j + 1);
            assert forall|a: int, b: int| 0 <= a < b < t.len() implies t[a] != t[b] by {
                if b < j {
                    assert(t[a] == texts(names@).subrange(0, j as int)[a]);
                    assert(t[b] == texts(names@).subrange(0, j as int)[b]);
                }
            }
        }
        j += 1;
    }
    assert(texts(names@).subrange(0, j as int) =~= texts(names@));
    None
}

impl Metadata {
    #[verifier::type_invariant]
    spec fn inv(&self) -> bool {
        &&& self@.valid()
        &&& self.names@.len() == self.tensors@.len()
    }

    /// Builds the header from free-form pairs and (name, entry) pairs given in
    /// payload order, and validates it.
    pub fn new(metadata: Option<Vec<(String, String)>>, tensors: Vec<(String, TensorInfo)>) -> (r:
        Result<Self, X8DsubByteError>)
        ensures
            new_outcome(metadata, tensors@, r),
    {
        let mut names: Vec<String> = Vec::with_capacity(tensors.len());
        let mut infos: Vec<TensorInfo> = Vec::with_capacity(tensors.len());
        let mut i: usize = 0;
        while i < tensors.len()
            invariant
                0 <= i <= tensors@.len(),
                names@.len() == i,
                infos@.len() == i,
                forall|j: int| 0 <= j < i ==> #[trigger] names@[j]@ == tensors@[j].0@,
                forall|j: int| 0 <= j < i ==> #[trigger] infos@[j]@ == tensors@[j].1@,
            decreases tensors@.len() - i,
        {
            names.push(tensors[i].0.clone());
            infos.push(tensors[i].1.duplicate());
            i += 1;
        }
        assert(texts(names@) =~= entry_names(tensors@));
        assert(info_views(infos@) =~= entry_infos(tensors@));
        match &metadata {
            Some(pairs) => {
                let mut keys: Vec<String> = Vec::with_capacity(pairs.len());
                let mut k: usize = 0;
                while k < pairs.len()
                    invariant
                        0 <= k <= pairs@.len(),
                        keys@.len() == k,
                        forall|j: int| 0 <= j < k ==> #[trigger] keys@[j]@ == pairs@[j].0@,
                    decreases pairs@.len() - k,
                {
                    keys.push(pairs[k].0.clone());
                    k += 1;
                }
                assert(texts(keys@) =~= keys_of(extra_view(metadata)));
                match first_duplicate(&keys) {
                    Some(j) => {
                        let n = keys[j].clone();
                        assert(keys_of(extra_view(metadata))[j as int] == n@);
                        return Err(X8DsubByteError::DuplicateName(n));
                    },
                    None => {},
                }
            },
            None => {
                assert(keys_of(extra_view(metadata)) =~= Seq::<Seq<char>>::empty());
            },
        }
        match first_duplicate(&names) {
            Some(j) => {
                let n = names[j].clone();
                assert(entry_names(tensors@)[j as int] == n@);
                return Err(X8DsubByteError::DuplicateName(n));
            },
            None => {},
        }
        match check_entries(&names, &infos) {
            Ok(_) => Ok(Metadata { metadata, tensors: infos, names }),
            Err(e) => Err(e),
        }
    }

    /// Checks the layout again and gives the length of the payload it covers.
    pub fn validate(&self) -> (r: Result<usize, X8DsubByteError>)
        ensures
            r matches Ok(n) && n == self@.payload_len(),
    {
        proof {
            use_type_invariant(self);
        }
        check_entries(&self.names, &self.tensors)
    }

    /// Position of the tensor called `name`. (Every header is valid.)
    pub fn position(&self, name: &str) -> (r: Option<usize>)
        ensures
            self@.valid(),
            r is None <==> !self@.names.contains(name@),
            r matches Some(i) ==> i < self@.names.len() && self@.names[i as int] == name@,
    {
        proof {
            use_type_invariant(self);
        }
        let mut i: usize = 0;
        while i < self.names.len()
            invariant
                self@.valid(),
                0 <= i <= self.names@.len(),
                forall|j: int| 0 <= j < i ==> texts(self.names@)[j] != name@,
            decreases self.names@.len() - i,
        {
            if crate::dtype::same_text(self.names[i].as_str(), name) {
                assert(texts(self.names@)[i as int] == name@);
                return Some(i);
            }
            i += 1;
        }
        None
    }

    /// The entry of the tensor called `name`.
    pub fn info(&self, name: &str) -> (r: Option<&TensorInfo>)
        ensures
            r is None <==> !self@.names.contains(name@),
            r matches Some(t) ==> exists|i: int|
                0 <= i < self@.infos.len() && self@.names[i] == name@ && t@ == self@.infos[i],
    {
        proof {
            use_type_invariant(self);
        }
        match self.position(name) {
            Some(i) => Some(&self.tensors[i]),
            None => None,
        }
    }

    /// Number of tensors. (Every header is valid.)
    pub fn len(&self) -> (r: usize)
        ensures
            r == self@.infos.len(),
            self@.valid(),
    {
        proof {
            use_type_invariant(self);
        }
        self.tensors.len()
    }

    /// The entry at position `i` in payload order. (Every header is valid.)
    pub fn entry(&self, i: usize) -> (r: &TensorInfo)
        requires
            i < self@.infos.len(),
        ensures
            r@ == self@.infos[i as int],
            self@.valid(),
    {
        proof {
            use_type_invariant(self);
        }
        &self.tensors[i]
    }

    /// The name at position `i` in payload order.
    pub fn name_at(&self, i: usize) -> (r: &String)
        requires
            i < self@.names.len(),
        ensures
            r@ == self@.names[i as int],
    {
        proof {
            use_type_invariant(self);
        }
        &self.names[i]
    }

    /// Every (name, entry) pair, in payload order.
    pub fn tensors(&self) -> (r: Vec<(String, TensorInfo)>)
        ensures
            entry_names(r@) == self@.names,
            entry_infos(r@) == self@.infos,
    {
        proof {
            use_type_invariant(self);
        }
        let mut out: Vec<(String, TensorInfo)> = Vec::with_capacity(self.tensors.len());
        let mut i: usize = 0;
        while i < self.tensors.len()
            invariant
                0 <= i <= self.tensors@.len(),
                self.names@.len() == self.tensors@.len(),
                out@.len() == i,
                forall|j: int| 0 <= j < i ==> #[trigger] out@[j].0@ == self.names@[j]@,
                forall|j: int| 0 <= j < i ==> #[trigger] out@[j].1@ == self.tensors@[j]@,
            decreases self.tensors@.len() - i,
        {
            out.push((self.names[i].clone(), self.tensors[i].duplicate()));
            i += 1;
        }
        assert(entry_names(out@) =~= self@.names);
        assert(entry_infos(out@) =~= self@.infos);
        out
    }

    /// The tensor names, in payload order.
    pub fn offset_keys(&self) -> (r: Vec<String>)
        ensures
            texts(r@) == self@.names,
    {
        proof {
            use_type_invariant(self);
        }
        let mut out: Vec<String> = Vec::with_capacity(self.names.len());
        let mut i: usize = 0;
        while i < self.names.len()
            invariant
                0 <= i <= self.names@.len(),
                out@.len() == i,
                forall|j: int| 0 <= j < i ==> #[trigger] out@[j]@ == self.names@[j]@,
            decreases self.names@.len() - i,
        {
            out.push(self.names[i].clone());
            i += 1;
        }
        assert(texts(out@) =~= self@.names);
        out
    }

    /// Length of the payload, in bytes: the end of the last tensor, or zero.
    pub fn data_len(&self) -> (r: usize)
        ensures
            r == self@.payload_len(),
    {
        proof {
            use_type_invariant(self);
        }
        let n = self.tensors.len();
        if n == 0 {
            0
        } else {
            self.tensors[n - 1].data_offsets.1
        }
    }

    /// The free-form string pairs.
    pub fn metadata(&self) -> (r: &Option<Vec<(String, String)>>)
        ensures
            match *r {
                Some(v) => self@.extra == Some(pair_texts(v@)),
                None => self@.extra is None,
            },
    {
        &self.metadata
    }
}

/// A broken chain of byte ranges is reported at the tensor that breaks it:
/// where every earlier entry is sound and follows its predecessor, and entry
/// `i` does not start where entry `i - 1` ends (or, for the first, at
/// zero), validation fails with an offset fault at `i`.
pub proof fn lemma_offset_gap_reported(infos: Seq<TensorInfoView>, i: int)
    requires
        0 <= i < infos.len(),
        forall|j: int| 0 <= j < i ==> entry_sound(#[trigger] infos[j]),
        i > 0 ==> infos[0].start == 0,
        forall|j: int| 0 <= j < i - 1 ==> infos[j + 1].start == (#[trigger] infos[j].end),
        i == 0 ==> infos[0].start != 0,
        i > 0 ==> infos[i].start != infos[i - 1].end,
    ensures
        layout_of(infos) == Err::<nat, LayoutFault>(LayoutFault::Offset(i)),
{
    lemma_offset_gap_from(infos, 0, 0, i);
    assert(check_layout(infos, 0, 0) == Err::<nat, LayoutFault>(LayoutFault::Offset(i)));
}

proof fn lemma_offset_gap_from(infos: Seq<TensorInfoView>, k: int, c: nat, i: int)
    requires
        0 <= k <= i < infos.len(),
        forall|j: int| 0 <= j < i ==> entry_sound(#[trigger] infos[j]),
        k < i ==> infos[k].start == c,
        k == i && i > 0 ==> c == infos[i - 1].end,
        k == 0 ==> c == 0,
        forall|j: int| 0 <= j < i - 1 ==> infos[j + 1].start == (#[trigger] infos[j].end),
        i == 0 ==> infos[0].start != 0,
        i > 0 ==> infos[i].start != infos[i - 1].end,
    ensures
        check_layout(infos, k, c) == Err::<nat, LayoutFault>(LayoutFault::Offset(i)),
    decreases i - k,
{
    if k < i {
        let t = infos[k];
        assert(entry_sound(t));
        if k + 1 < i {
            assert(infos[k + 1].start == infos[k].end);
        } else {
            assert(k + 1 == i);
        }
        lemma_offset_gap_from(infos, k + 1, t.end, i);
    }
}

/// An odd number of four-bit elements never fills whole bytes, so such a
/// tensor is refused as misaligned wherever its size does not overflow.
pub proof fn lemma_odd_four_bit_misaligned(shape: Seq<usize>)
    requires
        shape_product(shape) % 2 == 1,
    ensures
        bit_count(Dtype::F4, shape) % 8 == 4,
{
    let p = shape_product(shape);
    assert((p * 4) % 8 == 4) by (nonlinear_arith)
        requires
            p % 2 == 1,
    ;
}

} // verus!

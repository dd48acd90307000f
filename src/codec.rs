//! The container envelope: an eight-byte little-endian header length, the
//! padded JSON header, then the payload. Reading it back yields zero-copy
//! views of the tensors.
use crate::error::X8DsubByteError;
use crate::header::parse_header;
use crate::header::{header_json, header_of, json_of};
use crate::metadata::{
    build_outcome, check_layout, distinct_names, keys_distinct, pair_views, view_result, entry_infos, entry_names, extra_view, layout_of, new_outcome,
    Metadata, MetadataView, TensorInfo, TensorInfoView, MAX_HEADER_SIZE,
};
use crate::order::{offsets_lt, offsets_sorted, plan_sorted, sort_by_offsets, sort_for_layout};
use crate::view::{fits, TensorModel, TensorSource, TensorView};
use vstd::prelude::*;

verus! {

/// Bytes in the length prefix.
pub const N_LEN: usize = 8;

/// `256` to the power `n`.
pub open spec fn pow256(n: nat) -> nat
    decreases n,
{
    if n == 0 {
        1
    } else {
        256 * pow256((n - 1) as nat)
    }
}

/// The little-endian value of a byte string.
pub open spec fn le_value(s: Seq<u8>) -> nat
    decreases s.len(),
{
    if s.len() == 0 {
        0
    } else {
        s[0] as nat + 256 * le_value(s.drop_first())
    }
}

/// The header length that a buffer's first eight bytes declare.
pub open spec fn declared_len(b: Seq<u8>) -> nat {
    le_value(b.subrange(0, N_LEN as int))
}

/// A little-endian value is below `256` to the power of its length.
proof fn lemma_le_value_bound(s: Seq<u8>)
    ensures
        le_value(s) < pow256(s.len()),
    decreases s.len(),
{
    if s.len() > 0 {
        lemma_le_value_bound(s.drop_first());
        let v = le_value(s.drop_first());
        let p = pow256(s.drop_first().len());
        let b = s[0] as nat;
        assert(b + 256 * v < 256 * p) by (nonlinear_arith)
            requires
                b < 256,
                v < p,
        ;
    }
}

/// Reads the declared header length from the first eight bytes.
fn read_len(b: &[u8]) -> (r: u64)
    requires
        b@.len() >= N_LEN,
    ensures
        r == declared_len(b@),
{
    proof {
        reveal_with_fuel(pow256, 9);
        assert(pow256(8) == 0x1_0000_0000_0000_0000);
    }
    let mut acc: u64 = 0;
    let mut k: usize = N_LEN;
    let ghost s = b@.subrange(0, 8);
    assert(s.subrange(8, 8) =~= Seq::<u8>::empty());
    while k > 0
        invariant
            0 <= k <= 8,
            b@.len() >= 8,
            s == b@.subrange(0, 8),
            pow256(8) == 0x1_0000_0000_0000_0000,
            acc == le_value(s.subrange(k as int, 8)),
        decreases k,
    {
        k -= 1;
        let ghost t = s.subrange(k as int, 8);
        assert(t.drop_first() =~= s.subrange(k + 1, 8));
        proof {
            lemma_le_value_bound(t);
            lemma_pow256_mono((8 - k) as nat, 8);
            assert(t[0] == b@[k as int]);
            assert(le_value(t) == b@[k as int] as nat + 256 * acc);
        }
        acc = acc * 256 + b[k] as u64;
    }
    assert(s.subrange(0, 8) =~= s);
    acc
}

/// Powers of `256` grow with the exponent.
proof fn lemma_pow256_mono(m: nat, n: nat)
    requires
        m <= n,
    ensures
        pow256(m) <= pow256(n),
    decreases n,
{
    if m < n {
        lemma_pow256_mono(m, (n - 1) as nat);
    }
}

/// Whether the eight-byte prefix and the header it declares fit the buffer:
/// the conditions that the envelope alone decides.
pub open spec fn frame_fits(b: Seq<u8>) -> bool {
    &&& b.len() >= N_LEN
    &&& declared_len(b) <= MAX_HEADER_SIZE
    &&& N_LEN + declared_len(b) <= b.len()
}

/// The header bytes a buffer declares.
pub open spec fn header_region(b: Seq<u8>) -> Seq<u8> {
    b.subrange(N_LEN as int, N_LEN + declared_len(b))
}

#[verifier::external_type_specification]
#[verifier::external_body]
pub struct ExUtf8Error(core::str::Utf8Error);

/// Relies on core::str::from_utf8: the text of the bytes, or an error exactly
/// when they are not UTF-8.
#[verifier::external_body]
fn utf8_text(b: &[u8]) -> (r: Result<&str, core::str::Utf8Error>)
    ensures
        r is Ok <==> vstd::utf8::valid_utf8(b@),
        r matches Ok(s) ==> vstd::utf8::encode_utf8(s@) == b@,
        r matches Ok(s) ==> s@ == vstd::utf8::decode_utf8(b@),
{
    core::str::from_utf8(b)
}

/// The names of (name, entry) views.
pub open spec fn names_of(q: Seq<(Seq<char>, TensorInfoView)>) -> Seq<Seq<char>> {
    q.map_values(|e: (Seq<char>, TensorInfoView)| e.0)
}

/// The entries of (name, entry) views.
pub open spec fn infos_of(q: Seq<(Seq<char>, TensorInfoView)>) -> Seq<TensorInfoView> {
    q.map_values(|e: (Seq<char>, TensorInfoView)| e.1)
}

/// Whether `q` holds the entries `es` in ascending order of byte range (by
/// start, then end).
pub open spec fn is_offset_order(
    q: Seq<(Seq<char>, TensorInfoView)>,
    es: Seq<(Seq<char>, TensorInfoView)>,
) -> bool {
    &&& q.to_multiset() == es.to_multiset()
    &&& forall|i: int, j: int|
        0 <= i < j < q.len() ==> !(q[j].1.start < q[i].1.start || (q[j].1.start == q[i].1.start
            && q[j].1.end < q[i].1.end))
}

/// What building the header from free-form pairs `extra` and entries `q`, in
/// that order, and checking that it covers a buffer of `len` bytes after a
/// header of `n` bytes, gives.
pub open spec fn covers(
    len: nat,
    n: nat,
    extra: Option<Seq<(Seq<char>, Seq<char>)>>,
    q: Seq<(Seq<char>, TensorInfoView)>,
    r: Result<MetadataView, X8DsubByteError>,
) -> bool {
    match r {
        Ok(m) => build_outcome(extra, names_of(q), infos_of(q), Ok(m)) && N_LEN + n + m.payload_len()
            == len,
        Err(X8DsubByteError::MetadataIncompleteBuffer) => exists|m: MetadataView|
            build_outcome(extra, names_of(q), infos_of(q), Ok(m)) && N_LEN + n + m.payload_len()
                != len,
        Err(e) => build_outcome(extra, names_of(q), infos_of(q), Err(e)),
    }
}

/// What reading the header of a buffer whose frame fits and whose header is
/// UTF-8 gives: an error where the text is not a header in the JSON shape,
/// else the header built from its entries in byte-range order, checked to
/// cover the payload exactly.
pub open spec fn read_outcome(b: Seq<u8>, r: Result<MetadataView, X8DsubByteError>) -> bool {
    match header_of(json_of(vstd::utf8::decode_utf8(header_region(b)))) {
        None => r matches Err(e) && e is InvalidHeaderDeserialization,
        Some(h) => exists|q: Seq<(Seq<char>, TensorInfoView)>|
            is_offset_order(q, h.entries) && covers(b.len(), declared_len(b), h.extra, q, r),
    }
}

/// Sorted entries have their views in byte-range order.
proof fn lemma_sorted_views(sorted: Seq<(String, TensorInfo)>)
    requires
        offsets_sorted(sorted),
    ensures
        forall|i: int, j: int|
            0 <= i < j < pair_views(sorted).len() ==> !(pair_views(sorted)[j].1.start < pair_views(
                sorted,
            )[i].1.start || (pair_views(sorted)[j].1.start == pair_views(sorted)[i].1.start
                && pair_views(sorted)[j].1.end < pair_views(sorted)[i].1.end)),
        names_of(pair_views(sorted)) == entry_names(sorted),
        infos_of(pair_views(sorted)) == entry_infos(sorted),
{
    assert(names_of(pair_views(sorted)) =~= entry_names(sorted));
    assert(infos_of(pair_views(sorted)) =~= entry_infos(sorted));
    assert forall|i: int, j: int| 0 <= i < j < pair_views(sorted).len() implies !(pair_views(
        sorted,
    )[j].1.start < pair_views(sorted)[i].1.start || (pair_views(sorted)[j].1.start == pair_views(
        sorted,
    )[i].1.start && pair_views(sorted)[j].1.end < pair_views(sorted)[i].1.end)) by {
        assert(!offsets_lt(sorted[j].1, sorted[i].1));
    }
}

/// Puts (name, entry) pairs read from a header into ascending byte-range
/// order and builds the header from them.
pub fn metadata_from_entries(
    extra: Option<Vec<(String, String)>>,
    entries: Vec<(String, TensorInfo)>,
) -> (r: Result<Metadata, X8DsubByteError>)
    ensures
        exists|q: Seq<(Seq<char>, TensorInfoView)>|
            is_offset_order(q, pair_views(entries@)) && build_outcome(
                extra_view(extra),
                names_of(q),
                infos_of(q),
                view_result(r),
            ),
{
    let ghost es = pair_views(entries@);
    let sorted = sort_by_offsets(entries);
    proof {
        lemma_sorted_views(sorted@);
    }
    let ghost q = pair_views(sorted@);
    let ghost x = extra_view(extra);
    let r = Metadata::new(extra, sorted);
    assert(is_offset_order(q, es));
    assert(build_outcome(x, names_of(q), infos_of(q), view_result(r)));
    r
}

/// Builds the header of a buffer of `buffer_len` bytes whose header of `n`
/// bytes was read into `extra` and `entries`, and checks that the tensors
/// cover the rest of the buffer exactly.
pub fn check_header(
    buffer_len: usize,
    n: usize,
    extra: Option<Vec<(String, String)>>,
    entries: Vec<(String, TensorInfo)>,
) -> (r: Result<Metadata, X8DsubByteError>)
    ensures
        exists|q: Seq<(Seq<char>, TensorInfoView)>|
            is_offset_order(q, pair_views(entries@)) && covers(
                buffer_len as nat,
                n as nat,
                extra_view(extra),
                q,
                view_result(r),
            ),
{
    let ghost x = extra_view(extra);
    let ghost es = pair_views(entries@);
    let sorted = sort_by_offsets(entries);
    proof {
        lemma_sorted_views(sorted@);
    }
    let ghost q = pair_views(sorted@);
    assert(is_offset_order(q, es));
    let built = Metadata::new(extra, sorted);
    assert(build_outcome(x, names_of(q), infos_of(q), view_result(built)));
    match built {
        Ok(m) => {
            let end = m.data_len();
            let fits = match end.checked_add(N_LEN) {
                Some(t) => match t.checked_add(n) {
                    Some(total) => total == buffer_len,
                    None => false,
                },
                None => false,
            };
            if fits {
                assert(covers(buffer_len as nat, n as nat, x, q, view_result(Ok(m))));
                Ok(m)
            } else {
                let ghost r = Err::<MetadataView, X8DsubByteError>(
                    X8DsubByteError::MetadataIncompleteBuffer,
                );
                assert(build_outcome(x, names_of(q), infos_of(q), Ok(m@)));
                assert(covers(buffer_len as nat, n as nat, x, q, r));
                Err(X8DsubByteError::MetadataIncompleteBuffer)
            }
        },
        Err(e) => {
            assert(!(e is MetadataIncompleteBuffer)) by {
                if keys_distinct(x) && distinct_names(names_of(q)) {
                    match layout_of(infos_of(q)) {
                        Ok(_) => {},
                        Err(f) => {},
                    }
                }
            }
            assert(covers(buffer_len as nat, n as nat, x, q, Err(e)));
            Err(e)
        },
    }
}

/// The header of a read, or the error.
pub open spec fn read_result(r: Result<(usize, Metadata), X8DsubByteError>) -> Result<
    MetadataView,
    X8DsubByteError,
> {
    match r {
        Ok((_, m)) => Ok(m@),
        Err(e) => Err(e),
    }
}

/// Reads the length prefix and the header of a whole container buffer, and
/// checks it; gives the header length and the header.
pub fn read_metadata(buffer: &[u8]) -> (r: Result<(usize, Metadata), X8DsubByteError>)
    ensures
        buffer@.len() < N_LEN ==> r matches Err(X8DsubByteError::HeaderTooSmall),
        buffer@.len() >= N_LEN && declared_len(buffer@) > MAX_HEADER_SIZE ==> r matches Err(
            X8DsubByteError::HeaderTooLarge,
        ),
        buffer@.len() >= N_LEN && declared_len(buffer@) <= MAX_HEADER_SIZE && N_LEN + declared_len(
            buffer@,
        ) > buffer@.len() ==> r matches Err(X8DsubByteError::InvalidHeaderLength),
        frame_fits(buffer@) && !vstd::utf8::valid_utf8(header_region(buffer@)) ==> r matches Err(
            X8DsubByteError::InvalidHeader(_),
        ),
        r matches Ok((n, m)) ==> frame_fits(buffer@) && n == declared_len(buffer@) && N_LEN + n
            + m@.payload_len() == buffer@.len() && m@.valid(),
        frame_fits(buffer@) && vstd::utf8::valid_utf8(header_region(buffer@)) ==> read_outcome(
            buffer@,
            read_result(r),
        ),
{
    if buffer.len() < N_LEN {
        return Err(X8DsubByteError::HeaderTooSmall);
    }
    let n64 = read_len(buffer);
    if n64 > MAX_HEADER_SIZE as u64 {
        return Err(X8DsubByteError::HeaderTooLarge);
    }
    let n = n64 as usize;
    let stop = n + N_LEN;
    if stop > buffer.len() {
        return Err(X8DsubByteError::InvalidHeaderLength);
    }
    let header = vstd::slice::slice_subrange(buffer, N_LEN, stop);
    let text = match utf8_text(header) {
        Ok(t) => t,
        Err(e) => {
            return Err(X8DsubByteError::InvalidHeader(e));
        },
    };
    let ghost b = buffer@;
    assert(header@ == header_region(b));
    let (extra, entries) = match parse_header(text) {
        Ok(h) => h,
        Err(e) => {
            return Err(e);
        },
    };
    let ghost es = pair_views(entries@);
    let ghost x = extra_view(extra);
    match check_header(buffer.len(), n, extra, entries) {
        Ok(m) => {
            assert(exists|q: Seq<(Seq<char>, TensorInfoView)>|
                is_offset_order(q, es) && covers(b.len(), n as nat, x, q, Ok(m@)));
            Ok((n, m))
        },
        Err(e) => {
            assert(exists|q: Seq<(Seq<char>, TensorInfoView)>|
                is_offset_order(q, es) && covers(b.len(), n as nat, x, q, Err(e)));
            Err(e)
        },
    }
}

/// The tensors of a container, as a mathematical value: its header and its
/// payload bytes.
pub struct ContainerModel {
    pub meta: MetadataView,
    pub data: Seq<u8>,
}

/// The view of the tensor at position `i`.
pub open spec fn view_at(c: ContainerModel, i: int) -> TensorModel {
    TensorModel {
        dtype: c.meta.infos[i].dtype,
        shape: c.meta.infos[i].shape,
        data: c.data.subrange(c.meta.infos[i].start as int, c.meta.infos[i].end as int),
    }
}

/// The tensors of a container held in a borrowed buffer: the header, and the
/// payload that its entries cover exactly.
#[derive(Debug)]
pub struct X8DsubByteTensors<'data> {
    metadata: Metadata,
    data: &'data [u8],
}

impl<'data> View for X8DsubByteTensors<'data> {
    type V = ContainerModel;

    closed spec fn view(&self) -> ContainerModel {
        ContainerModel { meta: self.metadata@, data: self.data@ }
    }
}

impl<'data> X8DsubByteTensors<'data> {
    #[verifier::type_invariant]
    spec fn inv(&self) -> bool {
        self.data@.len() == self.metadata@.payload_len()
    }

    /// Parses a whole container buffer; the tensors' bytes stay in it.
    pub fn deserialize(buffer: &'data [u8]) -> (r: Result<Self, X8DsubByteError>)
        ensures
            buffer@.len() < N_LEN ==> r matches Err(X8DsubByteError::HeaderTooSmall),
            buffer@.len() >= N_LEN && declared_len(buffer@) > MAX_HEADER_SIZE ==> r matches Err(
                X8DsubByteError::HeaderTooLarge,
            ),
            buffer@.len() >= N_LEN && declared_len(buffer@) <= MAX_HEADER_SIZE && N_LEN
                + declared_len(buffer@) > buffer@.len() ==> r matches Err(
                X8DsubByteError::InvalidHeaderLength,
            ),
            frame_fits(buffer@) && !vstd::utf8::valid_utf8(header_region(buffer@)) ==> r matches Err(
                X8DsubByteError::InvalidHeader(_),
            ),
            r matches Ok(t) ==> frame_fits(buffer@) && t@.data == buffer@.subrange(
                N_LEN + declared_len(buffer@),
                buffer@.len() as int,
            ) && t@.meta.valid(),
            frame_fits(buffer@) && vstd::utf8::valid_utf8(header_region(buffer@)) ==> read_outcome(
                buffer@,
                match r {
                    Ok(t) => Ok(t@.meta),
                    Err(e) => Err(e),
                },
            ),
    {
        let (n, metadata) = match read_metadata(buffer) {
            Ok(x) => x,
            Err(e) => {
                return Err(e);
            },
        };
        let data = vstd::slice::slice_subrange(buffer, N_LEN + n, buffer.len());
        Ok(X8DsubByteTensors { metadata, data })
    }

    /// The header.
    pub fn metadata(&self) -> (r: &Metadata)
        ensures
            r@ == self@.meta,
    {
        &self.metadata
    }

    /// The view of the tensor at position `i`.
    fn view_of_entry(&self, i: usize) -> (r: TensorView<'data>)
        requires
            i < self@.meta.infos.len(),
        ensures
            r@ == view_at(self@, i as int),
    {
        proof {
            use_type_invariant(self);
        }
        let info = self.metadata.entry(i);
        proof {
            crate::metadata::lemma_layout_entries(self@.meta.infos, 0, 0);
            assert(crate::metadata::entry_sound(self@.meta.infos[i as int]));
        }
        let bytes = vstd::slice::slice_subrange(self.data, info.data_offsets.0, info.data_offsets.1);
        let shape = info.shape.clone();
        assert(shape@ =~= info.shape@);
        match TensorView::new(info.dtype, shape, bytes) {
            Ok(v) => v,
            Err(_) => vstd::pervasive::unreached(),
        }
    }

    /// The view of the tensor called `tensor_name`.
    pub fn tensor(&self, tensor_name: &str) -> (r: Result<TensorView<'data>, X8DsubByteError>)
        ensures
            !self@.meta.names.contains(tensor_name@) ==> (r matches Err(
                X8DsubByteError::TensorNotFound(n),
            ) && n@ == tensor_name@),
            self@.meta.names.contains(tensor_name@) ==> (r matches Ok(v) && exists|i: int|
                0 <= i < self@.meta.infos.len() && self@.meta.names[i] == tensor_name@ && v@
                    == view_at(self@, i)),
    {
        match self.metadata.position(tensor_name) {
            Some(i) => Ok(self.view_of_entry(i)),
            None => Err(X8DsubByteError::TensorNotFound(tensor_name.to_string())),
        }
    }

    /// Every (name, view) pair, in payload order.
    pub fn tensors(&self) -> (r: Vec<(String, TensorView<'data>)>)
        ensures
            r@.len() == self@.meta.infos.len(),
            forall|i: int|
                0 <= i < r@.len() ==> (#[trigger] r@[i]).0@ == self@.meta.names[i] && r@[i].1@
                    == view_at(self@, i),
    {
        let n = self.metadata.len();
        let mut out: Vec<(String, TensorView<'data>)> = Vec::with_capacity(n);
        let mut i: usize = 0;
        while i < n
            invariant
                n == self@.meta.infos.len(),
                n == self@.meta.names.len(),
                0 <= i <= n,
                out@.len() == i,
                forall|j: int|
                    0 <= j < i ==> (#[trigger] out@[j]).0@ == self@.meta.names[j] && out@[j].1@
                        == view_at(self@, j),
            decreases n - i,
        {
            out.push((self.metadata.name_at(i).clone(), self.view_of_entry(i)));
            i += 1;
        }
        out
    }

    /// Every (name, view) pair, in payload order; the same as `tensors`.
    pub fn iter(&self) -> (r: Vec<(String, TensorView<'data>)>)
        ensures
            r@.len() == self@.meta.infos.len(),
            forall|i: int|
                0 <= i < r@.len() ==> (#[trigger] r@[i]).0@ == self@.meta.names[i] && r@[i].1@
                    == view_at(self@, i),
    {
        self.tensors()
    }

    /// The tensor names, in payload order.
    pub fn names(&self) -> (r: Vec<&str>)
        ensures
            r@.len() == self@.meta.names.len(),
            forall|i: int| 0 <= i < r@.len() ==> (#[trigger] r@[i])@ == self@.meta.names[i],
    {
        let n = self.metadata.len();
        let mut out: Vec<&str> = Vec::with_capacity(n);
        let mut i: usize = 0;
        while i < n
            invariant
                n == self@.meta.names.len(),
                0 <= i <= n,
                out@.len() == i,
                forall|j: int| 0 <= j < i ==> (#[trigger] out@[j])@ == self@.meta.names[j],
            decreases n - i,
        {
            out.push(self.metadata.name_at(i).as_str());
            i += 1;
        }
        out
    }

    /// Number of tensors.
    pub fn len(&self) -> (r: usize)
        ensures
            r == self@.meta.infos.len(),
    {
        self.metadata.len()
    }

    /// Whether there are no tensors.
    pub fn is_empty(&self) -> (r: bool)
        ensures
            r == (self@.meta.infos.len() == 0),
    {
        self.metadata.len() == 0
    }
}

/// A little-endian value grows by the last byte's weight when a byte is
/// appended.
proof fn lemma_le_value_push(s: Seq<u8>, b: u8)
    ensures
        le_value(s.push(b)) == le_value(s) + pow256(s.len()) * b,
    decreases s.len(),
{
    if s.len() == 0 {
        assert(s.push(b).drop_first() =~= Seq::<u8>::empty());
        assert(le_value(Seq::<u8>::empty()) == 0);
        assert(le_value(s.push(b)) == b);
        assert(pow256(0) == 1);
    } else {
        lemma_le_value_push(s.drop_first(), b);
        assert(s.push(b).drop_first() =~= s.drop_first().push(b));
        assert(s.push(b)[0] == s[0]);
        let x = le_value(s.drop_first());
        let q = pow256(s.drop_first().len());
        assert(pow256(s.len()) == 256 * q);
        assert(le_value(s.push(b)) == s[0] + 256 * (x + q * b));
        assert(le_value(s) == s[0] + 256 * x);
        assert(256 * (x + q * b) == 256 * x + (256 * q) * b) by (nonlinear_arith);
    }
}

/// Appends `v` as eight little-endian bytes.
fn push_le_u64(out: &mut Vec<u8>, v: u64)
    ensures
        final(out)@.len() == old(out)@.len() + 8,
        final(out)@.subrange(0, old(out)@.len() as int) == old(out)@,
        le_value(final(out)@.subrange(old(out)@.len() as int, old(out)@.len() + 8 as int)) == v,
{
    proof {
        reveal_with_fuel(pow256, 9);
        assert(pow256(8) == 0x1_0000_0000_0000_0000);
    }
    let ghost start = out@.len();
    let ghost before = out@;
    let mut rest: u64 = v;
    let mut k: usize = 0;
    assert(out@.subrange(start as int, start as int) =~= Seq::<u8>::empty());
    assert(le_value(Seq::<u8>::empty()) == 0);
    assert(pow256(0) == 1);
    assert(pow256(0) * rest == rest);
    assert(le_value(out@.subrange(start as int, start + k)) + pow256(k as nat) * rest == v);
    while k < 8
        invariant
            0 <= k <= 8,
            out@.len() == start + k,
            out@.subrange(0, start as int) == before,
            pow256(8) == 0x1_0000_0000_0000_0000,
            le_value(out@.subrange(start as int, start + k)) + pow256(k as nat) * rest == v,
        decreases 8 - k,
    {
        let b = (rest % 256) as u8;
        let ghost pushed = out@.subrange(start as int, start + k);
        out.push(b);
        proof {
            assert(out@.subrange(start as int, start + k + 1) =~= pushed.push(b));
            assert(out@.subrange(0, start as int) =~= before);
            lemma_le_value_push(pushed, b);
            let p = pow256(k as nat);
            let r = rest as int;
            assert(p * r == p * (r % 256) + (256 * p) * (r / 256)) by (nonlinear_arith);
        }
        rest = rest / 256;
        k += 1;
    }
    proof {
        let l = le_value(out@.subrange(start as int, start + 8 as int));
        let r = rest as int;
        assert(r == 0) by (nonlinear_arith)
            requires
                l + 0x1_0000_0000_0000_0000 * r == v,
                v < 0x1_0000_0000_0000_0000,
                l >= 0,
                r >= 0,
        ;
    }
}

/// Total bytes of the tensors.
pub open spec fn payload_total<V: TensorSource>(p: Seq<(String, V)>) -> nat
    decreases p.len(),
{
    if p.len() == 0 {
        0
    } else {
        payload_total(p.drop_last()) + p.last().1.spec_data().len()
    }
}

/// The tensors' bytes, end to end.
pub open spec fn payload_of<V: TensorSource>(p: Seq<(String, V)>) -> Seq<u8>
    decreases p.len(),
{
    if p.len() == 0 {
        Seq::empty()
    } else {
        payload_of(p.drop_last()) + p.last().1.spec_data()
    }
}

/// The entries the planner writes for tensors laid out in the order `p`:
/// each starts where the previous one ends, the first at zero.
pub open spec fn planned_infos<V: TensorSource>(p: Seq<(String, V)>) -> Seq<TensorInfoView>
    decreases p.len(),
{
    if p.len() == 0 {
        Seq::empty()
    } else {
        planned_infos(p.drop_last()).push(
            TensorInfoView {
                dtype: p.last().1.spec_dtype(),
                shape: p.last().1.spec_shape(),
                start: payload_total(p.drop_last()),
                end: payload_total(p),
            },
        )
    }
}

/// The names of tensors laid out in the order `p`.
pub open spec fn plan_names<V: TensorSource>(p: Seq<(String, V)>) -> Seq<Seq<char>> {
    p.map_values(|e: (String, V)| e.0@)
}

/// The header the planner builds for tensors laid out in the order `p`.
pub open spec fn planned_metadata<V: TensorSource>(
    p: Seq<(String, V)>,
    extra: Option<Vec<(String, String)>>,
) -> MetadataView {
    MetadataView { extra: extra_view(extra), names: plan_names(p), infos: planned_infos(p) }
}

/// `h` padded with spaces to a multiple of eight bytes.
pub open spec fn padded(h: Seq<u8>) -> Seq<u8> {
    h + Seq::new(((8 - h.len() % 8) % 8) as nat, |i: int| 32u8)
}

/// Whether `p` is the planner's order of `data`: the same tensors, sorted by
/// descending dtype order and then by name.
pub open spec fn is_plan<V: TensorSource>(p: Seq<(String, V)>, data: Seq<(String, V)>) -> bool {
    p.to_multiset() == data.to_multiset() && plan_sorted(p)
}

/// Why planning the tensors in order `p` failed with `e`: their bytes add up
/// past `usize`, or the header cannot be built from the planned entries.
pub open spec fn plan_failure<V: TensorSource>(
    e: X8DsubByteError,
    p: Seq<(String, V)>,
    extra: Option<Vec<(String, String)>>,
) -> bool {
    if payload_total(p) > usize::MAX {
        e is ValidationOverflow
    } else {
        build_outcome(extra_view(extra), plan_names(p), planned_infos(p), Err(e))
    }
}

/// A planned container: the length of the padded header, the padded header,
/// and the length of the payload.
pub struct PreparedData {
    pub n: u64,
    pub header_bytes: Vec<u8>,
    pub offset: usize,
}

/// Orders the tensors, gives each its byte range, builds and encodes the
/// header, and pads it with spaces to a multiple of eight bytes.
pub fn prepare<V: TensorSource>(
    data: Vec<(String, V)>,
    data_info: Option<Vec<(String, String)>>,
) -> (r: Result<(PreparedData, Vec<(String, V)>), X8DsubByteError>)
    ensures
        match r {
            Ok((prep, tensors)) => {
                &&& is_plan(tensors@, data@)
                &&& distinct_names(plan_names(tensors@))
                &&& layout_of(planned_infos(tensors@)) is Ok
                &&& prep.header_bytes@ == padded(header_json(planned_metadata(tensors@, data_info)))
                &&& prep.n == prep.header_bytes@.len()
                &&& prep.offset == payload_total(tensors@)
            },
            Err(e) => exists|p: Seq<(String, V)>| is_plan(p, data@) && plan_failure(e, p, data_info),
        },
{
    let sorted = sort_for_layout(data);
    let mut entries: Vec<(String, TensorInfo)> = Vec::with_capacity(sorted.len());
    let mut offset: usize = 0;
    let mut i: usize = 0;
    while i < sorted.len()
        invariant
            is_plan(sorted@, data@),
            0 <= i <= sorted@.len(),
            entries@.len() == i,
            entry_names(entries@) == plan_names(sorted@.subrange(0, i as int)),
            entry_infos(entries@) == planned_infos(sorted@.subrange(0, i as int)),
            offset == payload_total(sorted@.subrange(0, i as int)),
        decreases sorted@.len() - i,
    {
        let ghost done = sorted@.subrange(0, i as int);
        let ghost next = sorted@.subrange(0, i + 1);
        assert(next.drop_last() =~= done);
        let tensor = &sorted[i].1;
        let n = tensor.data_len();
        let end = match offset.checked_add(n) {
            Some(e) => e,
            None => {
                proof {
                    lemma_payload_total_prefix(sorted@, i + 1);
                    assert(next.last() == sorted@[i as int]);
                    assert(payload_total(next) == offset + n);
                    assert(is_plan(sorted@, data@));
                    assert(plan_failure(X8DsubByteError::ValidationOverflow, sorted@, data_info));
                }
                return Err(X8DsubByteError::ValidationOverflow);
            },
        };
        let info = TensorInfo {
            dtype: tensor.dtype(),
            shape: vstd::slice::slice_to_vec(tensor.shape()),
            data_offsets: (offset, end),
        };
        let ghost before = entries@;
        entries.push((sorted[i].0.clone(), info));
        proof {
            assert(entry_names(entries@) =~= entry_names(before).push(sorted@[i as int].0@));
            assert(entry_infos(entries@) =~= entry_infos(before).push(info@));
            assert(plan_names(next) =~= plan_names(done).push(sorted@[i as int].0@));
        }
        offset = end;
        i += 1;
    }
    proof {
        assert(sorted@.subrange(0, i as int) =~= sorted@);
    }
    let ghost p = sorted@;
    let ghost ents = entries@;
    assert(is_plan(p, data@));
    let metadata = match Metadata::new(data_info, entries) {
        Ok(m) => m,
        Err(e) => {
            assert(new_outcome(data_info, ents, Err(e)));
            assert(plan_failure(e, p, data_info));
            return Err(e);
        },
    };
    let mut header = crate::header::header_bytes(&metadata);
    let ghost h = header@;
    while header.len() % 8 != 0
        invariant
            header@.len() <= h.len() + 8,
            header@ == h + Seq::new((header@.len() - h.len()) as nat, |j: int| 32u8),
            h.len() <= header@.len(),
            header@.len() - h.len() <= (8 - h.len() % 8) % 8,
        decreases h.len() + 8 - header@.len(),
    {
        let ghost before = header@;
        header.push(32u8);
        assert(header@ =~= h + Seq::new((header@.len() - h.len()) as nat, |j: int| 32u8));
    }
    assert(header@ =~= padded(h));
    let n = header.len() as u64;
    Ok((PreparedData { n, header_bytes: header, offset }, sorted))
}

/// A prefix's total is at most the whole total.
proof fn lemma_payload_total_prefix<V: TensorSource>(p: Seq<(String, V)>, k: int)
    requires
        0 <= k <= p.len(),
    ensures
        payload_total(p.subrange(0, k)) <= payload_total(p),
    decreases p.len() - k,
{
    if k < p.len() {
        lemma_payload_total_prefix(p, k + 1);
        assert(p.subrange(0, k + 1).drop_last() =~= p.subrange(0, k));
    } else {
        assert(p.subrange(0, k) =~= p);
    }
}

/// Whether `bytes` is the container with padded header `h` and payload
/// `payload`: the header length in eight little-endian bytes, the header,
/// then the payload.
pub open spec fn is_container(bytes: Seq<u8>, h: Seq<u8>, payload: Seq<u8>) -> bool {
    &&& bytes.len() == N_LEN + h.len() + payload.len()
    &&& le_value(bytes.subrange(0, N_LEN as int)) == h.len()
    &&& bytes.subrange(N_LEN as int, N_LEN + h.len()) == h
    &&& bytes.subrange(N_LEN + h.len(), bytes.len() as int) == payload
}

/// The padded header the planner writes for tensors in order `p`.
pub open spec fn planned_header<V: TensorSource>(
    p: Seq<(String, V)>,
    extra: Option<Vec<(String, String)>>,
) -> Seq<u8> {
    padded(header_json(planned_metadata(p, extra)))
}

/// Serializes named tensors, and optional free-form string pairs, into one
/// container buffer: the tensors in the planner's order, their bytes
/// unchanged.
pub fn serialize<V: TensorSource>(
    data: Vec<(String, V)>,
    data_info: Option<Vec<(String, String)>>,
) -> (r: Result<Vec<u8>, X8DsubByteError>)
    ensures
        exists|p: Seq<(String, V)>|
            {
                &&& is_plan(p, data@)
                &&& match r {
                    Ok(bytes) => {
                        &&& distinct_names(plan_names(p))
                        &&& layout_of(planned_infos(p)) is Ok
                        &&& planned_header(p, data_info).len() <= MAX_HEADER_SIZE
                        &&& planned_header(p, data_info).len() % 8 == 0
                        &&& is_container(bytes@, planned_header(p, data_info), payload_of(p))
                    },
                    Err(X8DsubByteError::HeaderTooLarge) => {
                        &&& distinct_names(plan_names(p))
                        &&& layout_of(planned_infos(p)) is Ok
                        &&& planned_header(p, data_info).len() > MAX_HEADER_SIZE
                    },
                    Err(e) => plan_failure(e, p, data_info),
                }
            },
{
    let ghost info = data_info;
    let (prep, tensors) = prepare(data, data_info)?;
    let ghost p = tensors@;
    let ghost h = prep.header_bytes@;
    if prep.n > MAX_HEADER_SIZE as u64 {
        return Err(X8DsubByteError::HeaderTooLarge);
    }
    proof {
        assert(h.len() % 8 == 0) by {
            let k = ((8 - header_json(planned_metadata(p, info)).len() % 8) % 8) as nat;
            let l = header_json(planned_metadata(p, info)).len();
            assert(h.len() == l + k);
            assert((l + (8 - l % 8) % 8) % 8 == 0) by (nonlinear_arith);
        }
    }
    let mut buffer: Vec<u8> = Vec::new();
    push_le_u64(&mut buffer, prep.n);
    let ghost prefix = buffer@;
    assert(prefix.subrange(0, 8) =~= prefix);
    buffer.extend_from_slice(prep.header_bytes.as_slice());
    let ghost framed = buffer@;
    assert(framed.subrange(0, 8) =~= prefix);
    assert(framed.subrange(N_LEN as int, N_LEN + h.len()) =~= h);
    let mut i: usize = 0;
    assert(p.subrange(0, 0) =~= Seq::<(String, V)>::empty());
    assert(framed =~= framed + payload_of(p.subrange(0, 0)));
    while i < tensors.len()
        invariant
            p == tensors@,
            0 <= i <= p.len(),
            framed.len() == N_LEN + h.len(),
            buffer@ == framed + payload_of(p.subrange(0, i as int)),
        decreases p.len() - i,
    {
        let ghost next = p.subrange(0, i + 1);
        assert(next.drop_last() =~= p.subrange(0, i as int));
        let bytes = tensors[i].1.data();
        buffer.extend_from_slice(bytes.as_slice());
        assert(buffer@ =~= framed + payload_of(next));
        i += 1;
    }
    assert(p.subrange(0, i as int) =~= p);
    proof {
        assert(buffer@.subrange(0, N_LEN as int) =~= framed.subrange(0, N_LEN as int));
        assert(buffer@.subrange(N_LEN as int, N_LEN + h.len()) =~= h);
        assert(buffer@.subrange(N_LEN + h.len(), buffer@.len() as int) =~= payload_of(p));
        assert(le_value(buffer@.subrange(0, N_LEN as int)) == h.len());
        assert(is_container(buffer@, h, payload_of(p)));
        assert(h == planned_header(p, info));
    }
    Ok(buffer)
}

/// The planner's entry for the tensor at position `i`: its dtype and shape,
/// and the byte range after the tensors before it.
proof fn lemma_planned_entry<V: TensorSource>(p: Seq<(String, V)>, i: int)
    requires
        0 <= i < p.len(),
    ensures
        planned_infos(p).len() == p.len(),
        planned_infos(p)[i] == (TensorInfoView {
            dtype: p[i].1.spec_dtype(),
            shape: p[i].1.spec_shape(),
            start: payload_total(p.subrange(0, i)),
            end: payload_total(p.subrange(0, i + 1)),
        }),
    decreases p.len(),
{
    lemma_planned_len(p);
    if i == p.len() - 1 {
        assert(p.drop_last() =~= p.subrange(0, i));
        assert(p =~= p.subrange(0, i + 1));
    } else {
        lemma_planned_entry(p.drop_last(), i);
        assert(p.drop_last().subrange(0, i) =~= p.subrange(0, i));
        assert(p.drop_last().subrange(0, i + 1) =~= p.subrange(0, i + 1));
    }
}

/// One planned entry per tensor.
proof fn lemma_planned_len<V: TensorSource>(p: Seq<(String, V)>)
    ensures
        planned_infos(p).len() == p.len(),
    decreases p.len(),
{
    if p.len() > 0 {
        lemma_planned_len(p.drop_last());
    }
}

/// The payload holds each tensor's bytes at the range the planner gave it.
proof fn lemma_payload_slice<V: TensorSource>(p: Seq<(String, V)>, i: int)
    requires
        0 <= i < p.len(),
    ensures
        payload_of(p).len() == payload_total(p),
        payload_total(p.subrange(0, i)) <= payload_total(p.subrange(0, i + 1)) <= payload_total(p),
        payload_of(p).subrange(
            payload_total(p.subrange(0, i)) as int,
            payload_total(p.subrange(0, i + 1)) as int,
        ) == p[i].1.spec_data(),
    decreases p.len(),
{
    lemma_payload_len(p);
    lemma_payload_len(p.drop_last());
    if i == p.len() - 1 {
        assert(p.drop_last() =~= p.subrange(0, i));
        assert(p =~= p.subrange(0, i + 1));
        assert(payload_of(p).subrange(
            payload_total(p.drop_last()) as int,
            payload_total(p) as int,
        ) =~= p[i].1.spec_data());
    } else {
        lemma_payload_slice(p.drop_last(), i);
        assert(p.drop_last().subrange(0, i) =~= p.subrange(0, i));
        assert(p.drop_last().subrange(0, i + 1) =~= p.subrange(0, i + 1));
        let a = payload_total(p.subrange(0, i)) as int;
        let b = payload_total(p.subrange(0, i + 1)) as int;
        assert(payload_of(p).subrange(a, b) =~= payload_of(p.drop_last()).subrange(a, b));
    }
}

/// The payload is as long as the tensors' bytes together.
proof fn lemma_payload_len<V: TensorSource>(p: Seq<(String, V)>)
    ensures
        payload_of(p).len() == payload_total(p),
    decreases p.len(),
{
    if p.len() > 0 {
        lemma_payload_len(p.drop_last());
    }
}

/// The envelope and the layout read back what was written: in a container
/// of padded header `h` (within the limit) and of the payload of tensors in
/// order `p`, the length prefix frames `h` exactly, and the entry the planner
/// gave each tensor names its dtype and shape and addresses exactly its bytes
/// in the payload. (That the header text decodes to those entries rests on
/// the JSON encoder and parser.)
pub proof fn lemma_container_round_trip<V: TensorSource>(
    bytes: Seq<u8>,
    p: Seq<(String, V)>,
    h: Seq<u8>,
    i: int,
)
    requires
        is_container(bytes, h, payload_of(p)),
        h.len() <= MAX_HEADER_SIZE,
        0 <= i < p.len(),
    ensures
        frame_fits(bytes),
        declared_len(bytes) == h.len(),
        header_region(bytes) == h,
        planned_infos(p)[i].dtype == p[i].1.spec_dtype(),
        planned_infos(p)[i].shape == p[i].1.spec_shape(),
        planned_infos(p)[i].end <= bytes.len() - (N_LEN + h.len()),
        bytes.subrange(N_LEN + h.len(), bytes.len() as int).subrange(
            planned_infos(p)[i].start as int,
            planned_infos(p)[i].end as int,
        ) == p[i].1.spec_data(),
{
    lemma_planned_entry(p, i);
    lemma_payload_slice(p, i);
}

/// Reading back what was written: where the header read from a container
/// that holds tensors in order `p` lists the planner's entry for tensor `i`
/// among its entries `es`, the header the reader builds from them in
/// byte-range order holds that tensor's name, and the view at that name has
/// the tensor's dtype, shape and bytes unchanged.
pub proof fn lemma_read_back<V: TensorSource>(
    bytes: Seq<u8>,
    p: Seq<(String, V)>,
    h: Seq<u8>,
    i: int,
    es: Seq<(Seq<char>, TensorInfoView)>,
    q: Seq<(Seq<char>, TensorInfoView)>,
    c: ContainerModel,
)
    requires
        is_container(bytes, h, payload_of(p)),
        h.len() <= MAX_HEADER_SIZE,
        0 <= i < p.len(),
        es.contains((p[i].0@, planned_infos(p)[i])),
        is_offset_order(q, es),
        c.meta.names == names_of(q),
        c.meta.infos == infos_of(q),
        c.meta.valid(),
        c.data == bytes.subrange(N_LEN + h.len(), bytes.len() as int),
    ensures
        c.meta.names.contains(p[i].0@),
        forall|j: int|
            0 <= j < c.meta.names.len() && c.meta.names[j] == p[i].0@ ==> view_at(c, j) == (
            TensorModel {
                dtype: p[i].1.spec_dtype(),
                shape: p[i].1.spec_shape(),
                data: p[i].1.spec_data(),
            }),
{
    broadcast use vstd::seq_lib::to_multiset_contains;

    lemma_container_round_trip(bytes, p, h, i);
    let e = (p[i].0@, planned_infos(p)[i]);
    assert(es.to_multiset().count(e) > 0);
    assert(q.contains(e));
    let k = choose|k: int| 0 <= k < q.len() && q[k] == e;
    assert(c.meta.names[k] == p[i].0@);
    assert(c.meta.infos[k] == planned_infos(p)[i]);
    assert forall|j: int|
        0 <= j < c.meta.names.len() && c.meta.names[j] == p[i].0@ implies view_at(c, j) == (
        TensorModel {
            dtype: p[i].1.spec_dtype(),
            shape: p[i].1.spec_shape(),
            data: p[i].1.spec_data(),
        }) by {
        if j != k {
            if j < k {
                assert(c.meta.names[j] != c.meta.names[k]);
            } else {
                assert(c.meta.names[k] != c.meta.names[j]);
            }
        }
    }
}

/// Tensors whose bytes fit their dtypes and shapes are planned into a valid
/// layout: each entry starts where the one before it ends and matches its
/// tensor's size.
pub proof fn lemma_plan_of_valid_tensors<V: TensorSource>(p: Seq<(String, V)>)
    requires
        forall|i: int|
            0 <= i < p.len() ==> fits(
                (#[trigger] p[i]).1.spec_dtype(),
                p[i].1.spec_shape(),
                p[i].1.spec_data(),
            ),
    ensures
        layout_of(planned_infos(p)) is Ok,
{
    lemma_planned_len(p);
    assert(p.subrange(0, 0) =~= Seq::<(String, V)>::empty());
    lemma_plan_layout_from(p, 0);
}

proof fn lemma_plan_layout_from<V: TensorSource>(p: Seq<(String, V)>, k: int)
    requires
        0 <= k <= p.len(),
        forall|i: int|
            0 <= i < p.len() ==> fits(
                (#[trigger] p[i]).1.spec_dtype(),
                p[i].1.spec_shape(),
                p[i].1.spec_data(),
            ),
    ensures
        check_layout(planned_infos(p), k, payload_total(p.subrange(0, k))) is Ok,
    decreases p.len() - k,
{
    lemma_planned_len(p);
    if k < p.len() {
        lemma_planned_entry(p, k);
        let next = p.subrange(0, k + 1);
        assert(next.drop_last() =~= p.subrange(0, k));
        assert(next.last() == p[k]);
        assert(fits(p[k].1.spec_dtype(), p[k].1.spec_shape(), p[k].1.spec_data()));
        lemma_plan_layout_from(p, k + 1);
    }
}

} // verus!

//! The two orders tensors are put in: by byte offset when a header is read,
//! and by dtype order (descending) then name when one is planned.
use crate::dtype::rank_of;
use crate::metadata::{pair_views, TensorInfo};
use crate::view::TensorSource;
use vstd::multiset::Multiset;
use vstd::prelude::*;
use vstd::seq_lib::*;

verus! {

broadcast use {
    to_multiset_build,
    to_multiset_insert,
    to_multiset_len,
    vstd::multiset::lemma_multiset_empty_len,
};

/// Whether the byte range of `a` comes strictly before that of `b`, by start
/// and then by end.
pub open spec fn offsets_lt(a: TensorInfo, b: TensorInfo) -> bool {
    a.data_offsets.0 < b.data_offsets.0 || (a.data_offsets.0 == b.data_offsets.0
        && a.data_offsets.1 < b.data_offsets.1)
}

/// Whether the byte range of `a` comes strictly before that of `b`.
fn offsets_less(a: &TensorInfo, b: &TensorInfo) -> (r: bool)
    ensures
        r == offsets_lt(*a, *b),
{
    a.data_offsets.0 < b.data_offsets.0 || (a.data_offsets.0 == b.data_offsets.0
        && a.data_offsets.1 < b.data_offsets.1)
}

/// Whether the entries are in ascending order of byte range.
pub open spec fn offsets_sorted(s: Seq<(String, TensorInfo)>) -> bool {
    forall|i: int, j: int| 0 <= i < j < s.len() ==> !offsets_lt(s[j].1, s[i].1)
}

/// Sorts (name, entry) pairs by ascending byte range.
pub fn sort_by_offsets(entries: Vec<(String, TensorInfo)>) -> (r: Vec<(String, TensorInfo)>)
    ensures
        r@.to_multiset() == entries@.to_multiset(),
        pair_views(r@).to_multiset() == pair_views(entries@).to_multiset(),
        offsets_sorted(r@),
{
    let mut rest = entries;
    let mut out: Vec<(String, TensorInfo)> = Vec::with_capacity(rest.len());
    proof {
        assert(out@.to_multiset().len() == 0);
        assert(out@.to_multiset() =~= Multiset::empty());
        assert(rest@.to_multiset().add(Multiset::empty()) =~= rest@.to_multiset());
        assert(pair_views(out@).to_multiset().len() == 0);
        assert(pair_views(out@).to_multiset() =~= Multiset::empty());
        assert(pair_views(rest@).to_multiset().add(Multiset::empty()) =~= pair_views(
            rest@,
        ).to_multiset());
    }
    while rest.len() > 0
        invariant
            entries@.to_multiset() == rest@.to_multiset().add(out@.to_multiset()),
            pair_views(entries@).to_multiset() == pair_views(rest@).to_multiset().add(
                pair_views(out@).to_multiset(),
            ),
            offsets_sorted(out@),
        decreases rest@.len(),
    {
        let ghost before = rest@;
        let x = rest.pop().unwrap();
        assert(before == rest@.push(x));
        assert(pair_views(before) =~= pair_views(rest@).push((x.0@, x.1@)));
        let mut p: usize = out.len();
        while p > 0 && offsets_less(&x.1, &out[p - 1].1)
            invariant
                0 <= p <= out@.len(),
                forall|j: int| p <= j < out@.len() ==> offsets_lt(x.1, #[trigger] out@[j].1),
            decreases p,
        {
            p -= 1;
        }
        let ghost old_out = out@;
        out.insert(p, x);
        proof {
            assert(out@ == old_out.insert(p as int, x));
            assert(pair_views(out@) =~= pair_views(old_out).insert(p as int, (x.0@, x.1@)));
            assert forall|i: int, j: int| 0 <= i < j < out@.len() implies !offsets_lt(
                out@[j].1,
                out@[i].1,
            ) by {
                if j < p {
                } else if j == p {
                    assert(!offsets_lt(x.1, old_out[p - 1].1));
                    assert(!offsets_lt(old_out[p - 1].1, old_out[i].1) || i == p - 1);
                } else if i == p {
                    assert(offsets_lt(x.1, old_out[j - 1].1));
                } else if i < p {
                    assert(!offsets_lt(old_out[j - 1].1, old_out[i].1));
                } else {
                    assert(!offsets_lt(old_out[j - 1].1, old_out[i - 1].1));
                }
            }
        }
    }
    proof {
        assert(rest@.to_multiset().len() == 0);
        assert(rest@.to_multiset() =~= Multiset::empty());
        assert(Multiset::empty().add(out@.to_multiset()) =~= out@.to_multiset());
        assert(pair_views(rest@).to_multiset().len() == 0);
        assert(pair_views(rest@).to_multiset() =~= Multiset::empty());
        assert(Multiset::empty().add(pair_views(out@).to_multiset()) =~= pair_views(
            out@,
        ).to_multiset());
    }
    out
}

/// Lexicographic order on byte strings (that of `str` in Rust).
pub open spec fn bytes_lt(a: Seq<u8>, b: Seq<u8>) -> bool
    decreases a.len(),
{
    if a.len() == 0 {
        b.len() > 0
    } else if b.len() == 0 {
        false
    } else if a[0] != b[0] {
        a[0] < b[0]
    } else {
        bytes_lt(a.drop_first(), b.drop_first())
    }
}

/// The byte order is a strict total order.
pub proof fn lemma_bytes_lt_order(a: Seq<u8>, b: Seq<u8>, c: Seq<u8>)
    ensures
        !(bytes_lt(a, b) && bytes_lt(b, a)),
        a != b ==> bytes_lt(a, b) || bytes_lt(b, a),
        bytes_lt(a, b) && bytes_lt(b, c) ==> bytes_lt(a, c),
    decreases a.len(),
{
    if a.len() > 0 && b.len() > 0 && c.len() > 0 {
        lemma_bytes_lt_order(a.drop_first(), b.drop_first(), c.drop_first());
        if a != b && a[0] == b[0] {
            assert(a.drop_first() != b.drop_first()) by {
                if a.drop_first() == b.drop_first() {
                    assert(a =~= seq![a[0]] + a.drop_first());
                    assert(b =~= seq![b[0]] + b.drop_first());
                }
            }
        }
    } else if a.len() > 0 && b.len() > 0 {
        lemma_bytes_lt_order(a.drop_first(), b.drop_first(), c);
        if a != b && a[0] == b[0] {
            assert(a.drop_first() != b.drop_first()) by {
                if a.drop_first() == b.drop_first() {
                    assert(a =~= seq![a[0]] + a.drop_first());
                    assert(b =~= seq![b[0]] + b.drop_first());
                }
            }
        }
    } else if a.len() == 0 && b.len() == 0 {
        assert(a =~= b);
    }
}

/// Whether `a` comes before `b` in byte order.
fn bytes_less(a: &[u8], b: &[u8]) -> (r: bool)
    ensures
        r == bytes_lt(a@, b@),
{
    let mut i: usize = 0;
    assert(a@.subrange(0, a@.len() as int) =~= a@);
    assert(b@.subrange(0, b@.len() as int) =~= b@);
    while i < a.len() && i < b.len()
        invariant
            0 <= i <= a@.len(),
            i <= b@.len(),
            bytes_lt(a@, b@) == bytes_lt(
                a@.subrange(i as int, a@.len() as int),
                b@.subrange(i as int, b@.len() as int),
            ),
        decreases a@.len() - i,
    {
        let ghost sa = a@.subrange(i as int, a@.len() as int);
        let ghost sb = b@.subrange(i as int, b@.len() as int);
        assert(sa[0] == a@[i as int] && sb[0] == b@[i as int]);
        if a[i] != b[i] {
            return a[i] < b[i];
        }
        assert(sa.drop_first() =~= a@.subrange(i + 1, a@.len() as int));
        assert(sb.drop_first() =~= b@.subrange(i + 1, b@.len() as int));
        i += 1;
    }
    i >= a.len() && i < b.len()
}

/// Where a tensor's dtype stands in the declared dtype order.
pub open spec fn class_of<V: TensorSource>(e: (String, V)) -> nat {
    rank_of(e.1.spec_dtype())
}

/// Whether `a` is laid out strictly before `b`: dtypes later in the declared
/// (alignment) order first, then names in byte order.
pub open spec fn plan_lt<V: TensorSource>(a: (String, V), b: (String, V)) -> bool {
    class_of(a) > class_of(b) || (class_of(a) == class_of(b) && bytes_lt(utf8_of(a.0@), utf8_of(b.0@)))
}

/// The UTF-8 bytes of a name.
pub open spec fn utf8_of(s: Seq<char>) -> Seq<u8> {
    vstd::utf8::encode_utf8(s)
}

/// Whether the tensors are in the planner's order.
pub open spec fn plan_sorted<V: TensorSource>(s: Seq<(String, V)>) -> bool {
    forall|i: int, j: int| 0 <= i < j < s.len() ==> !plan_lt(s[j], s[i])
}

/// Whether `a` is laid out strictly before `b`.
fn plan_less<V: TensorSource>(a: &(String, V), b: &(String, V)) -> (r: bool)
    ensures
        r == plan_lt(*a, *b),
{
    let ca = a.1.dtype().rank();
    let cb = b.1.dtype().rank();
    ca > cb || (ca == cb && bytes_less(a.0.as_str().as_bytes(), b.0.as_str().as_bytes()))
}

/// Sorts tensors into the planner's order: descending dtype order, then
/// ascending name.
pub fn sort_for_layout<V: TensorSource>(entries: Vec<(String, V)>) -> (r: Vec<(String, V)>)
    ensures
        r@.to_multiset() == entries@.to_multiset(),
        plan_sorted(r@),
{
    let mut rest = entries;
    let mut out: Vec<(String, V)> = Vec::with_capacity(rest.len());
    proof {
        assert(out@.to_multiset().len() == 0);
        assert(out@.to_multiset() =~= Multiset::empty());
        assert(rest@.to_multiset().add(Multiset::empty()) =~= rest@.to_multiset());
    }
    while rest.len() > 0
        invariant
            entries@.to_multiset() == rest@.to_multiset().add(out@.to_multiset()),
            plan_sorted(out@),
        decreases rest@.len(),
    {
        let ghost before = rest@;
        let x = rest.pop().unwrap();
        assert(before == rest@.push(x));
        let mut p: usize = out.len();
        while p > 0 && plan_less(&x, &out[p - 1])
            invariant
                0 <= p <= out@.len(),
                forall|j: int| p <= j < out@.len() ==> plan_lt(x, #[trigger] out@[j]),
            decreases p,
        {
            p -= 1;
        }
        let ghost old_out = out@;
        out.insert(p, x);
        proof {
            assert(out@ == old_out.insert(p as int, x));
            assert forall|i: int, j: int| 0 <= i < j < out@.len() implies !plan_lt(
                out@[j],
                out@[i],
            ) by {
                if j < p {
                } else if j == p {
                    let y = old_out[p - 1];
                    let z = old_out[i];
                    assert(!plan_lt(x, y));
                    if i < p - 1 {
                        assert(!plan_lt(y, z));
                        lemma_bytes_lt_order(utf8_of(x.0@), utf8_of(y.0@), utf8_of(z.0@));
                        lemma_bytes_lt_order(utf8_of(y.0@), utf8_of(x.0@), utf8_of(z.0@));
                        lemma_bytes_lt_order(utf8_of(z.0@), utf8_of(x.0@), utf8_of(y.0@));
                        lemma_bytes_lt_order(utf8_of(x.0@), utf8_of(z.0@), utf8_of(y.0@));
                    }
                } else if i == p {
                    let y = old_out[j - 1];
                    assert(plan_lt(x, y));
                    lemma_bytes_lt_order(utf8_of(x.0@), utf8_of(y.0@), utf8_of(x.0@));
                } else if i < p {
                    assert(!plan_lt(old_out[j - 1], old_out[i]));
                } else {
                    assert(!plan_lt(old_out[j - 1], old_out[i - 1]));
                }
            }
        }
    }
    proof {
        assert(rest@.to_multiset().len() == 0);
        assert(rest@.to_multiset() =~= Multiset::empty());
        assert(Multiset::empty().add(out@.to_multiset()) =~= out@.to_multiset());
    }
    out
}

} // verus!

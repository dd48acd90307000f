//! The JSON header: its exact text as written, and how a parsed header is
//! read back into entries.
use crate::dtype::{dtype_named, tag_of, Dtype};
use crate::error::X8DsubByteError;
use crate::metadata::{
    extra_view, pair_texts, pair_views, Metadata, MetadataView, TensorInfo, TensorInfoView,
};
use vstd::prelude::*;
use vstd::utf8::encode_utf8;

verus! {

/// A hexadecimal digit, in lower case.
pub open spec fn hex_digit(d: nat) -> char {
    if d < 10 {
        ['0', '1', '2', '3', '4', '5', '6', '7', '8', '9'][d as int]
    } else {
        ['a', 'b', 'c', 'd', 'e', 'f'][(d - 10) as int]
    }
}

/// How serde_json writes one character inside a JSON string: `"` and `\`
/// and the control characters escaped (the usual short forms where JSON
/// has them, else `\u00XX`), every other character as it is.
pub open spec fn escaped(c: char) -> Seq<char> {
    let v = c as u32;
    if c == '"' {
        seq!['\\', '"']
    } else if c == '\\' {
        seq!['\\', '\\']
    } else if v == 8 {
        seq!['\\', 'b']
    } else if v == 9 {
        seq!['\\', 't']
    } else if v == 10 {
        seq!['\\', 'n']
    } else if v == 12 {
        seq!['\\', 'f']
    } else if v == 13 {
        seq!['\\', 'r']
    } else if v < 32 {
        seq!['\\', 'u', '0', '0', hex_digit((v / 16) as nat), hex_digit((v % 16) as nat)]
    } else {
        seq![c]
    }
}

/// The characters of `s`, each escaped.
pub open spec fn escaped_text(s: Seq<char>) -> Seq<char>
    decreases s.len(),
{
    if s.len() == 0 {
        Seq::empty()
    } else {
        escaped_text(s.drop_last()) + escaped(s.last())
    }
}

/// The JSON string literal of `s`, as serde_json writes it.
pub open spec fn json_quoted(s: Seq<char>) -> Seq<char> {
    seq!['"'] + escaped_text(s) + seq!['"']
}

/// Relies on serde_json::to_string on a `str`: the quoted text with the
/// escapes of its escape table; writing into a `Vec` cannot fail.
#[verifier::external_body]
fn json_quote(s: &str) -> (r: Result<String, serde_json::Error>)
    ensures
        r is Ok,
        r matches Ok(q) ==> q@ == json_quoted(s@),
{
    serde_json::to_string(s)
}

/// `,` in ASCII.
pub const COMMA: u8 = 44;

/// `:` in ASCII.
pub const COLON: u8 = 58;

/// `{` in ASCII.
pub const OPEN_BRACE: u8 = 123;

/// `}` in ASCII.
pub const CLOSE_BRACE: u8 = 125;

/// The UTF-8 bytes of a piece of text.
pub open spec fn utf8(s: Seq<char>) -> Seq<u8> {
    encode_utf8(s)
}

/// Decimal digits of `n`, most significant first.
pub open spec fn decimal(n: nat) -> Seq<u8>
    decreases n,
{
    if n < 10 {
        seq![(48 + n) as u8]
    } else {
        decimal(n / 10).push((48 + n % 10) as u8)
    }
}

/// The dimensions, in decimal, separated by commas.
pub open spec fn dims_json(s: Seq<usize>) -> Seq<u8>
    decreases s.len(),
{
    if s.len() == 0 {
        Seq::empty()
    } else if s.len() == 1 {
        decimal(s[0] as nat)
    } else {
        dims_json(s.drop_last()) + seq![COMMA] + decimal(s.last() as nat)
    }
}

/// The header member for one tensor.
pub open spec fn entry_json(name: Seq<char>, t: TensorInfoView) -> Seq<u8> {
    utf8(json_quoted(name)) + utf8(":{\"dtype\":\""@) + utf8(tag_of(t.dtype)) + utf8(
        "\",\"shape\":["@,
    ) + dims_json(t.shape) + utf8("],\"data_offsets\":["@) + decimal(t.start) + seq![COMMA] + decimal(
        t.end,
    ) + utf8("]}"@)
}

/// The members for the tensors, separated by commas.
pub open spec fn entries_json(names: Seq<Seq<char>>, infos: Seq<TensorInfoView>) -> Seq<u8>
    decreases infos.len(),
{
    if infos.len() == 0 || names.len() != infos.len() {
        Seq::empty()
    } else if infos.len() == 1 {
        entry_json(names[0], infos[0])
    } else {
        entries_json(names.drop_last(), infos.drop_last()) + seq![COMMA] + entry_json(
            names.last(),
            infos.last(),
        )
    }
}

/// The free-form pairs as JSON members, separated by commas.
pub open spec fn pairs_json(ps: Seq<(Seq<char>, Seq<char>)>) -> Seq<u8>
    decreases ps.len(),
{
    if ps.len() == 0 {
        Seq::empty()
    } else {
        let last = utf8(json_quoted(ps.last().0)) + seq![COLON] + utf8(json_quoted(ps.last().1));
        if ps.len() == 1 {
            last
        } else {
            pairs_json(ps.drop_last()) + seq![COMMA] + last
        }
    }
}

/// The header text of `m` before padding: one JSON object, the free-form
/// pairs first under `__metadata__` where there are any, then one member
/// per tensor in index order.
pub open spec fn header_json(m: MetadataView) -> Seq<u8> {
    let extra = match m.extra {
        Some(ps) => utf8("\"__metadata__\":{"@) + pairs_json(ps) + seq![CLOSE_BRACE] + if m.infos.len()
            > 0 {
            seq![COMMA]
        } else {
            Seq::empty()
        },
        None => Seq::empty(),
    };
    seq![OPEN_BRACE] + extra + entries_json(m.names, m.infos) + seq![CLOSE_BRACE]
}

/// Appends the UTF-8 bytes of `s`.
fn push_text(out: &mut Vec<u8>, s: &str)
    ensures
        final(out)@ == old(out)@ + utf8(s@),
{
    let b = s.as_bytes();
    let ghost before = out@;
    out.extend_from_slice(b);
    assert(out@ =~= before + utf8(s@));
}

/// Appends `n` in decimal.
fn push_decimal(out: &mut Vec<u8>, n: usize)
    ensures
        final(out)@ == old(out)@ + decimal(n as nat),
    decreases n,
{
    let ghost before = out@;
    if n >= 10 {
        push_decimal(out, n / 10);
    }
    out.push(48 + (n % 10) as u8);
    assert(out@ =~= before + decimal(n as nat));
}

/// Appends the JSON string literal of `s`.
fn push_quoted(out: &mut Vec<u8>, s: &str)
    ensures
        final(out)@ == old(out)@ + utf8(json_quoted(s@)),
{
    match json_quote(s) {
        Ok(q) => push_text(out, q.as_str()),
        Err(_) => vstd::pervasive::unreached(),
    }
}

/// Appends the header member for one tensor.
fn push_entry(out: &mut Vec<u8>, name: &str, info: &TensorInfo)
    ensures
        final(out)@ == old(out)@ + entry_json(name@, info@),
{
    let ghost before = out@;
    push_quoted(out, name);
    push_text(out, ":{\"dtype\":\"");
    push_text(out, info.dtype.name());
    push_text(out, "\",\"shape\":[");
    let ghost mid = out@;
    let mut i: usize = 0;
    while i < info.shape.len()
        invariant
            0 <= i <= info.shape@.len(),
            out@ == mid + dims_json(info.shape@.subrange(0, i as int)),
        decreases info.shape@.len() - i,
    {
        let ghost prefix = info.shape@.subrange(0, i + 1);
        assert(prefix.drop_last() =~= info.shape@.subrange(0, i as int));
        if i > 0 {
            out.push(COMMA);
        }
        push_decimal(out, info.shape[i]);
        proof {
            if i == 0 {
                assert(info.shape@.subrange(0, 0) =~= Seq::<usize>::empty());
            }
            assert(out@ =~= mid + dims_json(prefix));
        }
        i += 1;
    }
    assert(info.shape@.subrange(0, i as int) =~= info.shape@);
    push_text(out, "],\"data_offsets\":[");
    push_decimal(out, info.data_offsets.0);
    out.push(COMMA);
    push_decimal(out, info.data_offsets.1);
    push_text(out, "]}");
    assert(out@ =~= before + entry_json(name@, info@));
}

/// The header text of `m`, before padding.
pub fn header_bytes(m: &Metadata) -> (r: Vec<u8>)
    ensures
        r@ == header_json(m@),
{
    let mut out: Vec<u8> = Vec::new();
    out.push(OPEN_BRACE);
    let n = m.len();
    match m.metadata() {
        Some(pairs) => {
            push_text(&mut out, "\"__metadata__\":{");
            let ghost mid = out@;
            let ghost ps = crate::metadata::pair_texts(pairs@);
            let mut i: usize = 0;
            while i < pairs.len()
                invariant
                    0 <= i <= pairs@.len(),
                    ps == crate::metadata::pair_texts(pairs@),
                    out@ == mid + pairs_json(ps.subrange(0, i as int)),
                decreases pairs@.len() - i,
            {
                let ghost prefix = ps.subrange(0, i + 1);
                assert(prefix.drop_last() =~= ps.subrange(0, i as int));
                if i > 0 {
                    out.push(COMMA);
                }
                push_quoted(&mut out, pairs[i].0.as_str());
                out.push(COLON);
                push_quoted(&mut out, pairs[i].1.as_str());
                proof {
                    if i == 0 {
                        assert(ps.subrange(0, 0) =~= Seq::<(Seq<char>, Seq<char>)>::empty());
                    }
                    assert(out@ =~= mid + pairs_json(prefix));
                }
                i += 1;
            }
            assert(ps.subrange(0, i as int) =~= ps);
            out.push(CLOSE_BRACE);
            if n > 0 {
                out.push(COMMA);
            }
        },
        None => {},
    }
    let ghost mid = out@;
    let mut i: usize = 0;
    while i < n
        invariant
            n == m@.infos.len(),
            n == m@.names.len(),
            0 <= i <= n,
            out@ == mid + entries_json(m@.names.subrange(0, i as int), m@.infos.subrange(0, i as int)),
        decreases n - i,
    {
        let ghost names = m@.names.subrange(0, i + 1);
        let ghost infos = m@.infos.subrange(0, i + 1);
        assert(names.drop_last() =~= m@.names.subrange(0, i as int));
        assert(infos.drop_last() =~= m@.infos.subrange(0, i as int));
        if i > 0 {
            out.push(COMMA);
        }
        push_entry(&mut out, m.name_at(i).as_str(), m.entry(i));
        proof {
            if i == 0 {
                assert(m@.infos.subrange(0, 0) =~= Seq::<TensorInfoView>::empty());
                assert(m@.names.subrange(0, 0) =~= Seq::<Seq<char>>::empty());
            }
            assert(out@ =~= mid + entries_json(names, infos));
        }
        i += 1;
    }
    assert(m@.names.subrange(0, n as int) =~= m@.names);
    assert(m@.infos.subrange(0, n as int) =~= m@.infos);
    out.push(CLOSE_BRACE);
    assert(out@ =~= header_json(m@));
    out
}

/// A JSON value as a mathematical value: numbers as the unsigned integer they
/// are, where they are one; objects as their members in the parser's order.
pub enum JsonView {
    Null,
    Bool(bool),
    Number(Option<u64>),
    Text(Seq<char>),
    Array(Seq<JsonView>),
    Object(Seq<(Seq<char>, JsonView)>),
}

/// What serde_json parses the text `s` into, or `None` where `s` is not JSON.
pub uninterp spec fn json_of(s: Seq<char>) -> Option<JsonView>;

/// A parsed JSON value.
#[derive(Debug)]
pub enum JsonTree {
    Null,
    Bool(bool),
    Number(Option<u64>),
    Text(String),
    Array(Vec<JsonTree>),
    Object(Vec<(String, JsonTree)>),
}

/// The mathematical value of a parsed JSON value.
pub open spec fn tree_view(t: JsonTree) -> JsonView
    decreases t,
{
    match t {
        JsonTree::Null => JsonView::Null,
        JsonTree::Bool(b) => JsonView::Bool(b),
        JsonTree::Number(n) => JsonView::Number(n),
        JsonTree::Text(s) => JsonView::Text(s@),
        JsonTree::Array(v) => JsonView::Array(
            Seq::new(
                v@.len(),
                |i: int|
                    if 0 <= i < v@.len() {
                        tree_view(v@[i])
                    } else {
                        JsonView::Null
                    },
            ),
        ),
        JsonTree::Object(v) => JsonView::Object(
            Seq::new(
                v@.len(),
                |i: int|
                    if 0 <= i < v@.len() {
                        (v@[i].0@, tree_view(v@[i].1))
                    } else {
                        (Seq::empty(), JsonView::Null)
                    },
            ),
        ),
    }
}

#[verifier::external_type_specification]
#[verifier::external_body]
pub struct ExJsonValue(serde_json::Value);

/// Relies on serde_json's `Value` enum: the same value as a tree of the
/// library's type, variant for variant (a number as `Number::as_u64` gives it).
#[verifier::external_body]
fn tree_of(v: serde_json::Value) -> (r: JsonTree) {
    match v {
        serde_json::Value::Null => JsonTree::Null,
        serde_json::Value::Bool(b) => JsonTree::Bool(b),
        serde_json::Value::Number(n) => JsonTree::Number(n.as_u64()),
        serde_json::Value::String(s) => JsonTree::Text(s),
        serde_json::Value::Array(a) => JsonTree::Array(a.into_iter().map(tree_of).collect()),
        serde_json::Value::Object(o) => JsonTree::Object(
            o.into_iter().map(|(k, x)| (k, tree_of(x))).collect(),
        ),
    }
}

/// Relies on serde_json::from_str into a `Value`: the JSON value of the text,
/// or an error exactly where the text is not JSON.
#[verifier::external_body]
fn parse_tree(text: &str) -> (r: Result<JsonTree, serde_json::Error>)
    ensures
        r is Ok <==> json_of(text@) is Some,
        r matches Ok(t) ==> tree_view(t) == json_of(text@)->Some_0,
{
    serde_json::from_str::<serde_json::Value>(text).map(tree_of)
}

/// The members of a parsed object, as mathematical values.
pub open spec fn members_view(v: Vec<(String, JsonTree)>) -> Seq<(Seq<char>, JsonView)> {
    Seq::new(
        v@.len(),
        |i: int|
            if 0 <= i < v@.len() {
                (v@[i].0@, tree_view(v@[i].1))
            } else {
                (Seq::empty(), JsonView::Null)
            },
    )
}

/// The items of a parsed array, as mathematical values.
pub open spec fn items_view(v: Vec<JsonTree>) -> Seq<JsonView> {
    Seq::new(
        v@.len(),
        |i: int|
            if 0 <= i < v@.len() {
                tree_view(v@[i])
            } else {
                JsonView::Null
            },
    )
}

/// A parsed object's value is the object of its members' values.
proof fn lemma_tree_object(v: Vec<(String, JsonTree)>)
    ensures
        tree_view(JsonTree::Object(v)) == JsonView::Object(members_view(v)),
{
    assert(tree_view(JsonTree::Object(v))->Object_0 =~= members_view(v));
}

/// A parsed array's value is the array of its items' values.
proof fn lemma_tree_array(v: Vec<JsonTree>)
    ensures
        tree_view(JsonTree::Array(v)) == JsonView::Array(items_view(v)),
{
    assert(tree_view(JsonTree::Array(v))->Array_0 =~= items_view(v));
}

/// The first member called `k`.
pub open spec fn member_of(ms: Seq<(Seq<char>, JsonView)>, k: Seq<char>) -> Option<JsonView>
    decreases ms.len(),
{
    if ms.len() == 0 {
        None
    } else if ms[0].0 == k {
        Some(ms[0].1)
    } else {
        member_of(ms.drop_first(), k)
    }
}

/// A JSON number as a `usize`, where it is one.
pub open spec fn index_of(j: JsonView) -> Option<usize> {
    match j {
        JsonView::Number(Some(x)) => if x <= usize::MAX {
            Some(x as usize)
        } else {
            None
        },
        _ => None,
    }
}

/// A JSON array of dimensions as a shape, where every item is one.
pub open spec fn dims_of(items: Seq<JsonView>) -> Option<Seq<usize>>
    decreases items.len(),
{
    if items.len() == 0 {
        Some(Seq::empty())
    } else {
        match (dims_of(items.drop_last()), index_of(items.last())) {
            (Some(d), Some(x)) => Some(d.push(x)),
            _ => None,
        }
    }
}

/// One tensor's entry: an object with a known `dtype` tag, a `shape` of
/// unsigned integers, and `data_offsets` of exactly two (other members are
/// ignored).
pub open spec fn entry_of(v: JsonView) -> Option<TensorInfoView> {
    match v {
        JsonView::Object(ms) => match (
            member_of(ms, "dtype"@),
            member_of(ms, "shape"@),
            member_of(ms, "data_offsets"@),
        ) {
            (Some(JsonView::Text(t)), Some(JsonView::Array(dims)), Some(JsonView::Array(offs))) => {
                match (dtype_named(t), dims_of(dims)) {
                    (Some(d), Some(shape)) => if offs.len() == 2 && index_of(offs[0]) is Some
                        && index_of(offs[1]) is Some {
                        Some(
                            TensorInfoView {
                                dtype: d,
                                shape,
                                start: index_of(offs[0])->Some_0 as nat,
                                end: index_of(offs[1])->Some_0 as nat,
                            },
                        )
                    } else {
                        None
                    },
                    _ => None,
                }
            },
            _ => None,
        },
        _ => None,
    }
}

/// Members whose values are all strings, as (key, text) pairs.
pub open spec fn texts_of(ms: Seq<(Seq<char>, JsonView)>) -> Option<Seq<(Seq<char>, Seq<char>)>>
    decreases ms.len(),
{
    if ms.len() == 0 {
        Some(Seq::empty())
    } else {
        match (texts_of(ms.drop_last()), ms.last().1) {
            (Some(p), JsonView::Text(t)) => Some(p.push((ms.last().0, t))),
            _ => None,
        }
    }
}

/// The free-form pairs under `__metadata__`: none for `null`, else an object
/// of strings.
pub open spec fn extra_of(v: JsonView) -> Option<Option<Seq<(Seq<char>, Seq<char>)>>> {
    match v {
        JsonView::Null => Some(None),
        JsonView::Object(ms) => match texts_of(ms) {
            Some(p) => Some(Some(p)),
            None => None,
        },
        _ => None,
    }
}

/// A header as read from JSON: the free-form pairs, and the (name, entry)
/// pairs in the order the object lists them.
pub struct HeaderView {
    pub extra: Option<Seq<(Seq<char>, Seq<char>)>>,
    pub entries: Seq<(Seq<char>, TensorInfoView)>,
}

/// Reads the members of the header object in turn: `__metadata__` gives the
/// free-form pairs, every other member a tensor's entry.
pub open spec fn members_header(ms: Seq<(Seq<char>, JsonView)>) -> Option<HeaderView>
    decreases ms.len(),
{
    if ms.len() == 0 {
        Some(HeaderView { extra: None, entries: Seq::empty() })
    } else {
        match members_header(ms.drop_last()) {
            None => None,
            Some(h) => if ms.last().0 == "__metadata__"@ {
                match extra_of(ms.last().1) {
                    Some(x) => Some(HeaderView { extra: x, entries: h.entries }),
                    None => None,
                }
            } else {
                match entry_of(ms.last().1) {
                    Some(t) => Some(HeaderView { extra: h.extra, entries: h.entries.push((ms.last().0, t)) }),
                    None => None,
                }
            },
        }
    }
}

/// The header a parsed JSON value describes, if it is in the header's shape.
pub open spec fn header_of(j: Option<JsonView>) -> Option<HeaderView> {
    match j {
        Some(JsonView::Object(ms)) => members_header(ms),
        _ => None,
    }
}

/// Relies on serde::de::Error::custom for serde_json::Error: an error that
/// carries `msg`.
#[verifier::external_body]
fn schema_error(msg: &str) -> (r: serde_json::Error) {
    <serde_json::Error as serde::de::Error>::custom(msg)
}

/// The error for a header that is JSON but not in the expected shape.
fn bad_header(msg: &str) -> (r: X8DsubByteError)
    ensures
        r is InvalidHeaderDeserialization,
{
    X8DsubByteError::InvalidHeaderDeserialization(schema_error(msg))
}

/// The first member called `k`.
fn find_member<'a>(ms: &'a Vec<(String, JsonTree)>, k: &str) -> (r: Option<&'a JsonTree>)
    ensures
        match member_of(members_view(*ms), k@) {
            None => r is None,
            Some(v) => r matches Some(t) && tree_view(*t) == v,
        },
{
    let ghost mv = members_view(*ms);
    let mut i: usize = 0;
    assert(mv.subrange(0, mv.len() as int) =~= mv);
    while i < ms.len()
        invariant
            mv == members_view(*ms),
            0 <= i <= ms@.len(),
            member_of(mv, k@) == member_of(mv.subrange(i as int, mv.len() as int), k@),
        decreases ms@.len() - i,
    {
        let ghost rest = mv.subrange(i as int, mv.len() as int);
        assert(rest[0] == mv[i as int]);
        assert(rest.drop_first() =~= mv.subrange(i + 1, mv.len() as int));
        if crate::dtype::same_text(ms[i].0.as_str(), k) {
            return Some(&ms[i].1);
        }
        i += 1;
    }
    assert(mv.subrange(i as int, mv.len() as int) =~= Seq::<(Seq<char>, JsonView)>::empty());
    None
}

/// A JSON number as a `usize`.
fn index_value(t: &JsonTree) -> (r: Option<usize>)
    ensures
        r == index_of(tree_view(*t)),
{
    match t {
        JsonTree::Number(Some(x)) => {
            if *x > usize::MAX as u64 {
                None
            } else {
                Some(*x as usize)
            }
        },
        _ => None,
    }
}

/// A JSON array of dimensions as a shape.
fn dims_value(items: &Vec<JsonTree>) -> (r: Option<Vec<usize>>)
    ensures
        match dims_of(items_view(*items)) {
            None => r is None,
            Some(d) => r matches Some(v) && v@ == d,
        },
{
    let ghost iv = items_view(*items);
    let mut shape: Vec<usize> = Vec::with_capacity(items.len());
    let mut i: usize = 0;
    assert(iv.subrange(0, 0) =~= Seq::<JsonView>::empty());
    while i < items.len()
        invariant
            iv == items_view(*items),
            0 <= i <= items@.len(),
            dims_of(iv.subrange(0, i as int)) == Some(shape@),
        decreases items@.len() - i,
    {
        let ghost next = iv.subrange(0, i + 1);
        assert(next.drop_last() =~= iv.subrange(0, i as int));
        assert(next.last() == tree_view(items@[i as int]));
        match index_value(&items[i]) {
            Some(d) => shape.push(d),
            None => {
                proof {
                    lemma_dims_fail_extends(iv, i + 1);
                }
                return None;
            },
        }
        i += 1;
    }
    assert(iv.subrange(0, i as int) =~= iv);
    Some(shape)
}

/// A failing prefix makes the whole array fail.
proof fn lemma_dims_fail_extends(items: Seq<JsonView>, k: int)
    requires
        0 <= k <= items.len(),
        dims_of(items.subrange(0, k)) is None,
    ensures
        dims_of(items) is None,
    decreases items.len() - k,
{
    if k < items.len() {
        assert(items.subrange(0, k + 1).drop_last() =~= items.subrange(0, k));
        lemma_dims_fail_extends(items, k + 1);
    } else {
        assert(items.subrange(0, k) =~= items);
    }
}

/// One tensor's entry, read from its JSON object.
fn info_from_tree(t: &JsonTree) -> (r: Option<TensorInfo>)
    ensures
        match entry_of(tree_view(*t)) {
            None => r is None,
            Some(e) => r matches Some(x) && x@ == e,
        },
{
    let ms = match t {
        JsonTree::Object(ms) => ms,
        _ => {
            return None;
        },
    };
    proof {
        lemma_tree_object(*ms);
    }
    let dtype = match find_member(ms, "dtype") {
        Some(JsonTree::Text(tag)) => match Dtype::from_name(tag.as_str()) {
            Some(d) => d,
            None => {
                return None;
            },
        },
        _ => {
            return None;
        },
    };
    let dims = match find_member(ms, "shape") {
        Some(JsonTree::Array(items)) => {
            proof {
                lemma_tree_array(*items);
            }
            items
        },
        _ => {
            return None;
        },
    };
    let offs = match find_member(ms, "data_offsets") {
        Some(JsonTree::Array(items)) => {
            proof {
                lemma_tree_array(*items);
            }
            items
        },
        _ => {
            return None;
        },
    };
    let shape = match dims_value(dims) {
        Some(v) => v,
        None => {
            return None;
        },
    };
    if offs.len() != 2 {
        return None;
    }
    assert(items_view(*offs)[0] == tree_view(offs@[0]));
    assert(items_view(*offs)[1] == tree_view(offs@[1]));
    let start = match index_value(&offs[0]) {
        Some(x) => x,
        None => {
            return None;
        },
    };
    let end = match index_value(&offs[1]) {
        Some(x) => x,
        None => {
            return None;
        },
    };
    Some(TensorInfo { dtype, shape, data_offsets: (start, end) })
}

/// The free-form pairs, read from the `__metadata__` member.
fn extra_from_tree(t: &JsonTree) -> (r: Option<Option<Vec<(String, String)>>>)
    ensures
        match extra_of(tree_view(*t)) {
            None => r is None,
            Some(x) => r matches Some(v) && extra_view(v) == x,
        },
{
    let ms = match t {
        JsonTree::Null => {
            return Some(None);
        },
        JsonTree::Object(ms) => ms,
        _ => {
            return None;
        },
    };
    let ghost mv = members_view(*ms);
    proof {
        lemma_tree_object(*ms);
    }
    let mut pairs: Vec<(String, String)> = Vec::with_capacity(ms.len());
    let mut i: usize = 0;
    assert(mv.subrange(0, 0) =~= Seq::<(Seq<char>, JsonView)>::empty());
    assert(pair_texts(pairs@) =~= Seq::<(Seq<char>, Seq<char>)>::empty());
    while i < ms.len()
        invariant
            mv == members_view(*ms),
            tree_view(*t) == JsonView::Object(mv),
            0 <= i <= ms@.len(),
            texts_of(mv.subrange(0, i as int)) == Some(pair_texts(pairs@)),
        decreases ms@.len() - i,
    {
        let ghost next = mv.subrange(0, i + 1);
        assert(next.drop_last() =~= mv.subrange(0, i as int));
        assert(next.last() == mv[i as int]);
        assert(mv[i as int] == (ms@[i as int].0@, tree_view(ms@[i as int].1)));
        match &ms[i].1 {
            JsonTree::Text(v) => {
                let ghost before = pairs@;
                pairs.push((ms[i].0.clone(), v.clone()));
                assert(pair_texts(pairs@) =~= pair_texts(before).push((ms@[i as int].0@, v@)));
            },
            _ => {
                proof {
                    assert(!(tree_view(ms@[i as int].1) is Text));
                    assert(texts_of(next) is None);
                    lemma_texts_fail_extends(mv, i + 1);
                    assert(texts_of(mv) is None);
                    assert(extra_of(tree_view(*t)) is None);
                }
                return None;
            },
        }
        i += 1;
    }
    assert(mv.subrange(0, i as int) =~= mv);
    Some(Some(pairs))
}

/// A failing prefix makes the whole object fail.
proof fn lemma_texts_fail_extends(ms: Seq<(Seq<char>, JsonView)>, k: int)
    requires
        0 <= k <= ms.len(),
        texts_of(ms.subrange(0, k)) is None,
    ensures
        texts_of(ms) is None,
    decreases ms.len() - k,
{
    if k < ms.len() {
        assert(ms.subrange(0, k + 1).drop_last() =~= ms.subrange(0, k));
        lemma_texts_fail_extends(ms, k + 1);
    } else {
        assert(ms.subrange(0, k) =~= ms);
    }
}

/// A failing prefix makes the whole header fail.
proof fn lemma_members_fail_extends(ms: Seq<(Seq<char>, JsonView)>, k: int)
    requires
        0 <= k <= ms.len(),
        members_header(ms.subrange(0, k)) is None,
    ensures
        members_header(ms) is None,
    decreases ms.len() - k,
{
    if k < ms.len() {
        assert(ms.subrange(0, k + 1).drop_last() =~= ms.subrange(0, k));
        lemma_members_fail_extends(ms, k + 1);
    } else {
        assert(ms.subrange(0, k) =~= ms);
    }
}

/// Reads header text into the free-form pairs and the (name, entry) pairs,
/// in the order the JSON object lists them.
pub fn parse_header(text: &str) -> (r: Result<
    (Option<Vec<(String, String)>>, Vec<(String, TensorInfo)>),
    X8DsubByteError,
>)
    ensures
        match header_of(json_of(text@)) {
            None => r matches Err(e) && e is InvalidHeaderDeserialization,
            Some(h) => r matches Ok((x, es)) && extra_view(x) == h.extra && pair_views(es@)
                == h.entries,
        },
{
    let tree = match parse_tree(text) {
        Ok(t) => t,
        Err(e) => {
            return Err(X8DsubByteError::InvalidHeaderDeserialization(e));
        },
    };
    let ms = match &tree {
        JsonTree::Object(ms) => ms,
        _ => {
            return Err(bad_header("the header is not an object"));
        },
    };
    let ghost mv = members_view(*ms);
    proof {
        lemma_tree_object(*ms);
    }
    let mut extra: Option<Vec<(String, String)>> = None;
    let mut entries: Vec<(String, TensorInfo)> = Vec::with_capacity(ms.len());
    let mut i: usize = 0;
    assert(mv.subrange(0, 0) =~= Seq::<(Seq<char>, JsonView)>::empty());
    assert(pair_views(entries@) =~= Seq::<(Seq<char>, TensorInfoView)>::empty());
    while i < ms.len()
        invariant
            mv == members_view(*ms),
            json_of(text@) == Some(JsonView::Object(mv)),
            0 <= i <= ms@.len(),
            members_header(mv.subrange(0, i as int)) == Some(
                HeaderView { extra: extra_view(extra), entries: pair_views(entries@) },
            ),
        decreases ms@.len() - i,
    {
        let ghost next = mv.subrange(0, i + 1);
        assert(next.drop_last() =~= mv.subrange(0, i as int));
        assert(next.last() == mv[i as int]);
        assert(mv[i as int] == (ms@[i as int].0@, tree_view(ms@[i as int].1)));
        let name = &ms[i].0;
        if crate::dtype::same_text(name.as_str(), "__metadata__") {
            match extra_from_tree(&ms[i].1) {
                Some(x) => {
                    extra = x;
                },
                None => {
                    proof {
                        assert(members_header(next) is None);
                        lemma_members_fail_extends(mv, i + 1);
                        assert(header_of(json_of(text@)) is None);
                    }
                    return Err(bad_header("__metadata__ must map strings to strings"));
                },
            }
        } else {
            match info_from_tree(&ms[i].1) {
                Some(info) => {
                    let ghost before = entries@;
                    entries.push((name.clone(), info));
                    assert(pair_views(entries@) =~= pair_views(before).push((name@, info@)));
                },
                None => {
                    proof {
                        lemma_members_fail_extends(mv, i + 1);
                    }
                    return Err(bad_header("a tensor entry is not in the expected shape"));
                },
            }
        }
        i += 1;
    }
    assert(mv.subrange(0, i as int) =~= mv);
    Ok((extra, entries))
}

} // verus!

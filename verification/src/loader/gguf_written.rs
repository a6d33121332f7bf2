//! How a GGUF file is written, and that it is read back as it was written.
use vstd::prelude::*;
use vstd::utf8::{encode_utf8, encode_utf8_decode_utf8, encode_utf8_valid_utf8};
use crate::loader::gguf::{
    alignment, byte_len, data_start, elements, full_room, ggml_dtype, gguf, le, p_dims, p_header,
    p_info, p_infos, p_items, p_metadata, p_string, p_uint, p_value, stored, stored_all, GgufError,
    Meta, StoredTensor, TensorInfo,
};
use crate::text::Text;
use crate::types::WeightDtype;

verus! {

/// A number in `width` bytes, the lowest first.
pub open spec fn put(n: nat, width: nat) -> Seq<u8>
    decreases width,
{
    if width == 0 {
        seq![]
    } else {
        seq![(n % 256) as u8] + put(n / 256, (width - 1) as nat)
    }
}

/// A number fits in `width` bytes.
pub open spec fn fits(n: nat, width: nat) -> bool
    decreases width,
{
    if width == 0 {
        n == 0
    } else {
        fits(n / 256, (width - 1) as nat)
    }
}

/// A text: its length in bytes, then its bytes.
pub open spec fn put_text(t: Text) -> Seq<u8> {
    put(encode_utf8(t).len(), 8) + encode_utf8(t)
}

/// The number of a value's type.
pub open spec fn tag(v: Meta) -> nat {
    match v {
        Meta::U8(_) => 0,
        Meta::I8(_) => 1,
        Meta::U16(_) => 2,
        Meta::I16(_) => 3,
        Meta::U32(_) => 4,
        Meta::I32(_) => 5,
        Meta::F32(_) => 6,
        Meta::Bool(_) => 7,
        Meta::String(_) => 8,
        Meta::Array(_) => 9,
        Meta::U64(_) => 10,
        Meta::I64(_) => 11,
        Meta::F64(_) => 12,
    }
}

/// A value.
pub open spec fn put_value(v: Meta) -> Seq<u8>
    decreases v,
{
    match v {
        Meta::U8(x) => put(x as nat, 1),
        Meta::I8(x) => put(x as u8 as nat, 1),
        Meta::U16(x) => put(x as nat, 2),
        Meta::I16(x) => put(x as u16 as nat, 2),
        Meta::U32(x) => put(x as nat, 4),
        Meta::I32(x) => put(x as u32 as nat, 4),
        Meta::F32(x) => put(x as nat, 4),
        Meta::Bool(x) => put(
            if x {
                1
            } else {
                0
            },
            1,
        ),
        Meta::String(t) => put_text(t),
        Meta::Array(items) => put(
            if items.len() > 0 {
                tag(items[0])
            } else {
                0
            },
            4,
        ) + put(items.len(), 8) + put_items(items),
        Meta::U64(x) => put(x as nat, 8),
        Meta::I64(x) => put(x as u64 as nat, 8),
        Meta::F64(x) => put(x as nat, 8),
    }
}

/// Values, one behind the other.
pub open spec fn put_items(items: Seq<Meta>) -> Seq<u8>
    decreases items,
{
    if items.len() == 0 {
        seq![]
    } else {
        put_items(items.drop_last()) + put_value(items.last())
    }
}

/// A value can be written, with arrays nested at most `room - 1` deep: what an
/// array holds is all of one type and can be written, and is not too long.
pub open spec fn writable(v: Meta, room: nat) -> bool
    decreases room,
{
    room > 0 && match v {
        Meta::String(t) => fits(encode_utf8(t).len(), 8),
        Meta::Array(items) => items.len() <= 10_000_000 && forall|i: int|
            0 <= i < items.len() ==> tag(#[trigger] items[i]) == tag(items[0]) && writable(
                items[i],
                (room - 1) as nat,
            ),
        _ => true,
    }
}

/// A metadata entry: the key, the type of the value, and the value.
pub open spec fn put_entry(key: Text, v: Meta) -> Seq<u8> {
    put_text(key) + put(tag(v), 4) + put_value(v)
}

/// Metadata entries, one behind the other.
pub open spec fn put_entries(entries: Seq<(Text, Meta)>) -> Seq<u8>
    decreases entries.len(),
{
    if entries.len() == 0 {
        seq![]
    } else {
        put_entries(entries.drop_last()) + put_entry(entries.last().0, entries.last().1)
    }
}

/// The number of an element type, where files have one for it.
pub open spec fn type_number(dtype: WeightDtype) -> Option<nat> {
    match dtype {
        WeightDtype::F32 => Some(0),
        WeightDtype::F16 => Some(1),
        WeightDtype::Q4_0 => Some(2),
        WeightDtype::Q8_0 => Some(8),
        _ => None,
    }
}

/// Dimensions, one behind the other.
pub open spec fn put_dims(dims: Seq<usize>) -> Seq<u8>
    decreases dims.len(),
{
    if dims.len() == 0 {
        seq![]
    } else {
        put_dims(dims.drop_last()) + put(dims.last() as nat, 8)
    }
}

/// A tensor as a file describes it.
pub type Described = TensorInfo<Text, Seq<usize>>;

/// The description of a tensor: its name, how many dimensions, the dimensions,
/// the number of the element type, and where its bytes begin.
pub open spec fn put_info(t: Described) -> Seq<u8> {
    put_text(t.name) + put(t.shape.len(), 4) + put_dims(t.shape) + put(
        type_number(t.dtype)->0,
        4,
    ) + put(t.offset as nat, 8)
}

/// A tensor can be described.
pub open spec fn describable(t: Described) -> bool {
    &&& fits(encode_utf8(t.name).len(), 8)
    &&& t.shape.len() <= 10_000_000
    &&& type_number(t.dtype) is Some
}

/// Descriptions, one behind the other.
pub open spec fn put_infos(infos: Seq<Described>) -> Seq<u8>
    decreases infos.len(),
{
    if infos.len() == 0 {
        seq![]
    } else {
        put_infos(infos.drop_last()) + put_info(infos.last())
    }
}

/// The head of a file: the letters GGUF, the version, how many tensors and how
/// many entries, the entries and the descriptions.
pub open spec fn put_head(
    version: nat,
    entries: Seq<(Text, Meta)>,
    infos: Seq<Described>,
) -> Seq<u8> {
    seq!['G' as u8, 'G' as u8, 'U' as u8, 'F' as u8] + put(version, 4) + put(infos.len(), 8) + put(
        entries.len(),
        8,
    ) + put_entries(entries) + put_infos(infos)
}

/// The head can be written.
pub open spec fn head_writable(
    version: nat,
    entries: Seq<(Text, Meta)>,
    infos: Seq<Described>,
) -> bool {
    &&& version == 2 || version == 3
    &&& entries.len() <= 10_000_000
    &&& infos.len() <= 10_000_000
    &&& forall|i: int|
        0 <= i < entries.len() ==> fits(encode_utf8((#[trigger] entries[i]).0).len(), 8)
            && writable(entries[i].1, 33)
    &&& forall|i: int| 0 <= i < infos.len() ==> describable(#[trigger] infos[i])
}

/// No key is written twice.
pub open spec fn keys_differ(entries: Seq<(Text, Meta)>) -> bool {
    forall|i: int, j: int|
        0 <= i < j < entries.len() ==> (#[trigger] entries[i]).0 != (#[trigger] entries[j]).0
}

/// No name is written twice.
pub open spec fn names_differ(infos: Seq<Described>) -> bool {
    forall|i: int, j: int|
        0 <= i < j < infos.len() ==> (#[trigger] infos[i]).name != (#[trigger] infos[j]).name
}

/// The metadata says what the entries say, and nothing else.
pub open spec fn says(m: Map<Text, Meta>, entries: Seq<(Text, Meta)>) -> bool {
    &&& forall|i: int|
        0 <= i < entries.len() ==> m.contains_key((#[trigger] entries[i]).0) && m[entries[i].0]
            == entries[i].1
    &&& forall|k: Text| #[trigger]
        m.contains_key(k) ==> exists|i: int| 0 <= i < entries.len() && (#[trigger] entries[i]).0 == k
}

/// `n` elements take up `len` bytes. Quantized elements come in blocks of 32, with
/// a scale of two bytes and a byte or half a byte for each element.
pub open spec fn takes_up(dtype: WeightDtype, n: nat, len: nat) -> bool {
    match dtype {
        WeightDtype::F32 => len == 4 * n,
        WeightDtype::F16 => len == 2 * n,
        WeightDtype::BF16 => len == 2 * n,
        WeightDtype::I8 => len == n,
        WeightDtype::Q8_0 => len % 34 == 0 && n <= 32 * (len / 34) < n + 32,
        WeightDtype::Q4_0 => len % 18 == 0 && n <= 32 * (len / 18) < n + 32,
        WeightDtype::Q4_K => false,
    }
}

/// The bytes stand at `p`.
pub open spec fn stand_at(d: Seq<u8>, p: int, bytes: Seq<u8>) -> bool {
    0 <= p && p + bytes.len() <= d.len() && d.subrange(p, p + bytes.len()) == bytes
}

proof fn lemma_parts(d: Seq<u8>, p: int, a: Seq<u8>, b: Seq<u8>)
    requires
        stand_at(d, p, a + b),
    ensures
        stand_at(d, p, a),
        stand_at(d, p + a.len(), b),
{
    let whole = d.subrange(p, p + (a + b).len());
    assert(d.subrange(p, p + a.len()) =~= a) by {
        assert forall|k: int| 0 <= k < a.len() implies d[p + k] == a[k] by {
            assert(whole[k] == (a + b)[k]);
        }
    }
    assert(d.subrange(p + a.len(), p + a.len() + b.len()) =~= b) by {
        assert forall|k: int| 0 <= k < b.len() implies d[p + a.len() + k] == b[k] by {
            assert(whole[a.len() + k] == (a + b)[a.len() + k]);
        }
    }
}

/// A number that was put down is read back.
pub proof fn lemma_put(d: Seq<u8>, p: int, n: nat, width: nat)
    requires
        stand_at(d, p, put(n, width)),
        fits(n, width),
    ensures
        put(n, width).len() == width,
        p_uint(d, p, width) == Ok::<(nat, int), GgufError>((n, p + width)),
        le(d, p, width) == n,
    decreases width,
{
    if width > 0 {
        let a = seq![(n % 256) as u8];
        let b = put(n / 256, (width - 1) as nat);
        lemma_parts(d, p, a, b);
        lemma_put(d, p + 1, n / 256, (width - 1) as nat);
        assert(d.subrange(p, p + 1)[0] == a[0]);
    }
}

/// A number takes as many bytes as it is given.
pub proof fn lemma_put_len(n: nat, width: nat)
    ensures
        put(n, width).len() == width,
    decreases width,
{
    if width > 0 {
        lemma_put_len(n / 256, (width - 1) as nat);
    }
}

/// A number below a power of 256 fits in so many bytes.
pub proof fn lemma_fit(n: nat)
    ensures
        n < 0x100 ==> fits(n, 1),
        n < 0x1_0000 ==> fits(n, 2),
        n < 0x1_0000_0000 ==> fits(n, 4),
        n < 0x1_0000_0000_0000_0000 ==> fits(n, 8),
{
    reveal_with_fuel(fits, 9);
}

proof fn lemma_text(d: Seq<u8>, p: int, t: Text)
    requires
        stand_at(d, p, put_text(t)),
        fits(encode_utf8(t).len(), 8),
    ensures
        p_string(d, p) == Ok::<(Text, int), GgufError>((t, p + put_text(t).len())),
{
    let bytes = encode_utf8(t);
    lemma_parts(d, p, put(bytes.len(), 8), bytes);
    lemma_put(d, p, bytes.len(), 8);
    encode_utf8_valid_utf8(t);
    encode_utf8_decode_utf8(t);
}

proof fn lemma_signed()
    ensures
        forall|x: i8| #[trigger] (x as u8) as i8 == x,
        forall|x: i16| #[trigger] (x as u16) as i16 == x,
        forall|x: i32| #[trigger] (x as u32) as i32 == x,
        forall|x: i64| #[trigger] (x as u64) as i64 == x,
{
    assert forall|x: i8| #[trigger] (x as u8) as i8 == x by {
        assert((x as u8) as i8 == x) by (bit_vector);
    }
    assert forall|x: i16| #[trigger] (x as u16) as i16 == x by {
        assert((x as u16) as i16 == x) by (bit_vector);
    }
    assert forall|x: i32| #[trigger] (x as u32) as i32 == x by {
        assert((x as u32) as i32 == x) by (bit_vector);
    }
    assert forall|x: i64| #[trigger] (x as u64) as i64 == x by {
        assert((x as u64) as i64 == x) by (bit_vector);
    }
}

proof fn lemma_value(d: Seq<u8>, p: int, v: Meta, room: nat)
    requires
        stand_at(d, p, put_value(v)),
        writable(v, room),
    ensures
        p_value(d, p, tag(v) as u32, room) == Ok::<(Meta, int), GgufError>(
            (v, p + put_value(v).len()),
        ),
    decreases room, 0nat,
{
    lemma_signed();
    match v {
        Meta::U8(x) => {
            lemma_fit(x as nat);
            lemma_put(d, p, x as nat, 1);
        },
        Meta::I8(x) => {
            lemma_fit(x as u8 as nat);
            lemma_put(d, p, x as u8 as nat, 1);
        },
        Meta::U16(x) => {
            lemma_fit(x as nat);
            lemma_put(d, p, x as nat, 2);
        },
        Meta::I16(x) => {
            lemma_fit(x as u16 as nat);
            lemma_put(d, p, x as u16 as nat, 2);
        },
        Meta::U32(x) => {
            lemma_fit(x as nat);
            lemma_put(d, p, x as nat, 4);
        },
        Meta::I32(x) => {
            lemma_fit(x as u32 as nat);
            lemma_put(d, p, x as u32 as nat, 4);
        },
        Meta::F32(x) => {
            lemma_fit(x as nat);
            lemma_put(d, p, x as nat, 4);
        },
        Meta::Bool(x) => {
            let n: nat = if x {
                1
            } else {
                0
            };
            lemma_fit(n);
            lemma_put(d, p, n, 1);
        },
        Meta::String(t) => {
            lemma_text(d, p, t);
        },
        Meta::Array(items) => {
            let ty: nat = if items.len() > 0 {
                tag(items[0])
            } else {
                0
            };
            let a = put(ty, 4);
            let b = put(items.len(), 8);
            let c = put_items(items);
            lemma_fit(ty);
            lemma_fit(items.len());
            lemma_parts(d, p, a + b, c);
            lemma_parts(d, p, a, b);
            lemma_put(d, p, ty, 4);
            lemma_put(d, p + 4, items.len(), 8);
            lemma_items(d, p + 12, items, ty, (room - 1) as nat);
        },
        Meta::U64(x) => {
            lemma_fit(x as nat);
            lemma_put(d, p, x as nat, 8);
        },
        Meta::I64(x) => {
            lemma_fit(x as u64 as nat);
            lemma_put(d, p, x as u64 as nat, 8);
        },
        Meta::F64(x) => {
            lemma_fit(x as nat);
            lemma_put(d, p, x as nat, 8);
        },
    }
}

proof fn lemma_items(d: Seq<u8>, p: int, items: Seq<Meta>, ty: nat, room: nat)
    requires
        stand_at(d, p, put_items(items)),
        ty < 13,
        forall|i: int|
            0 <= i < items.len() ==> tag(#[trigger] items[i]) == ty && writable(items[i], room),
    ensures
        p_items(d, p, ty as u32, room, items.len()) == Ok::<(Seq<Meta>, int), GgufError>(
            (items, p + put_items(items).len()),
        ),
    decreases room, items.len() + 1,
{
    if items.len() > 0 {
        let front = items.drop_last();
        lemma_parts(d, p, put_items(front), put_value(items.last()));
        assert forall|i: int| 0 <= i < front.len() implies tag(#[trigger] front[i]) == ty
            && writable(front[i], room) by {
            assert(front[i] == items[i]);
        }
        lemma_items(d, p, front, ty, room);
        assert(items[items.len() - 1] == items.last());
        lemma_value(d, p + put_items(front).len(), items.last(), room);
        assert(front.push(items.last()) =~= items);
    } else {
        assert(items =~= seq![]);
    }
}

proof fn lemma_entries(d: Seq<u8>, p: int, entries: Seq<(Text, Meta)>)
    requires
        stand_at(d, p, put_entries(entries)),
        keys_differ(entries),
        forall|i: int|
            0 <= i < entries.len() ==> fits(encode_utf8((#[trigger] entries[i]).0).len(), 8)
                && writable(entries[i].1, 33),
    ensures
        p_metadata(d, p, entries.len()) matches Ok((m, q)) && says(m, entries) && q == p
            + put_entries(entries).len(),
    decreases entries.len(),
{
    if entries.len() > 0 {
        let front = entries.drop_last();
        let (key, v) = entries.last();
        lemma_parts(d, p, put_entries(front), put_entry(key, v));
        assert forall|i: int| 0 <= i < front.len() implies fits(
            encode_utf8((#[trigger] front[i]).0).len(),
            8,
        ) && writable(front[i].1, 33) by {
            assert(front[i] == entries[i]);
        }
        assert(keys_differ(front)) by {
            assert forall|i: int, j: int| 0 <= i < j < front.len() implies (#[trigger] front[i]).0
                != (#[trigger] front[j]).0 by {
                assert(front[i] == entries[i] && front[j] == entries[j]);
            }
        }
        lemma_entries(d, p, front);
        let q = p + put_entries(front).len();
        assert(entries[entries.len() - 1] == (key, v));
        lemma_parts(d, q, put_text(key) + put(tag(v), 4), put_value(v));
        lemma_parts(d, q, put_text(key), put(tag(v), 4));
        lemma_text(d, q, key);
        lemma_fit(tag(v));
        lemma_put(d, q + put_text(key).len(), tag(v), 4);
        lemma_value(d, q + put_text(key).len() + 4, v, 33);
        let before = p_metadata(d, p, front.len())->Ok_0.0;
        let m = before.insert(key, v);
        assert forall|i: int| 0 <= i < entries.len() implies m.contains_key(
            (#[trigger] entries[i]).0,
        ) && m[entries[i].0] == entries[i].1 by {
            if i < front.len() {
                assert(front[i] == entries[i]);
            }
        }
        assert forall|k: Text| #[trigger] m.contains_key(k) implies exists|i: int|
            0 <= i < entries.len() && (#[trigger] entries[i]).0 == k by {
            if k == key {
                assert(entries[entries.len() - 1].0 == k);
            } else {
                let i = choose|i: int| 0 <= i < front.len() && (#[trigger] front[i]).0 == k;
                assert(entries[i].0 == k);
            }
        }
    }
}

proof fn lemma_dims(d: Seq<u8>, p: int, dims: Seq<usize>)
    requires
        stand_at(d, p, put_dims(dims)),
    ensures
        p_dims(d, p, dims.len()) == Ok::<(Seq<usize>, int), GgufError>(
            (dims, p + put_dims(dims).len()),
        ),
    decreases dims.len(),
{
    if dims.len() > 0 {
        let front = dims.drop_last();
        lemma_parts(d, p, put_dims(front), put(dims.last() as nat, 8));
        lemma_dims(d, p, front);
        lemma_fit(dims.last() as nat);
        lemma_put(d, p + put_dims(front).len(), dims.last() as nat, 8);
        assert(front.push(dims.last()) =~= dims);
    } else {
        assert(dims =~= seq![]);
    }
}

/// A tensor's description is read back as it was written, its element type by the
/// number that files have for it.
pub proof fn law_description_reads_back(d: Seq<u8>, p: int, t: Described)
    requires
        stand_at(d, p, put_info(t)),
        describable(t),
    ensures
        p_info(d, p) == Ok::<(Described, int), GgufError>((t, p + put_info(t).len())),
{
    let a = put_text(t.name);
    let b = put(t.shape.len(), 4);
    let c = put_dims(t.shape);
    let e = put(type_number(t.dtype)->0, 4);
    let f = put(t.offset as nat, 8);
    lemma_parts(d, p, a + b + c + e, f);
    lemma_parts(d, p, a + b + c, e);
    lemma_parts(d, p, a + b, c);
    lemma_parts(d, p, a, b);
    lemma_text(d, p, t.name);
    lemma_fit(t.shape.len());
    lemma_put(d, p + a.len(), t.shape.len(), 4);
    lemma_dims(d, p + a.len() + 4, t.shape);
    lemma_fit(type_number(t.dtype)->0);
    lemma_put(d, p + a.len() + 4 + c.len(), type_number(t.dtype)->0, 4);
    lemma_fit(t.offset as nat);
    lemma_put(d, p + a.len() + 4 + c.len() + 4, t.offset as nat, 8);
}

proof fn lemma_infos(d: Seq<u8>, p: int, infos: Seq<Described>)
    requires
        stand_at(d, p, put_infos(infos)),
        forall|i: int| 0 <= i < infos.len() ==> describable(#[trigger] infos[i]),
    ensures
        p_infos(d, p, infos.len()) == Ok::<(Seq<Described>, int), GgufError>(
            (infos, p + put_infos(infos).len()),
        ),
    decreases infos.len(),
{
    if infos.len() > 0 {
        let front = infos.drop_last();
        lemma_parts(d, p, put_infos(front), put_info(infos.last()));
        assert forall|i: int| 0 <= i < front.len() implies describable(#[trigger] front[i]) by {
            assert(front[i] == infos[i]);
        }
        lemma_infos(d, p, front);
        assert(infos[infos.len() - 1] == infos.last());
        law_description_reads_back(d, p + put_infos(front).len(), infos.last());
        assert(front.push(infos.last()) =~= infos);
    } else {
        assert(infos =~= seq![]);
    }
}

/// The head of a file is read back as it was written, whatever follows it.
pub proof fn law_head_reads_back(
    d: Seq<u8>,
    version: nat,
    entries: Seq<(Text, Meta)>,
    infos: Seq<Described>,
)
    requires
        stand_at(d, 0, put_head(version, entries, infos)),
        head_writable(version, entries, infos),
        keys_differ(entries),
    ensures
        p_header(d) matches Ok(((m, read), end)) && says(m, entries) && read == infos && end
            == put_head(version, entries, infos).len(),
{
    let a = seq!['G' as u8, 'G' as u8, 'U' as u8, 'F' as u8];
    let b = put(version, 4);
    let c = put(infos.len(), 8);
    let e = put(entries.len(), 8);
    let f = put_entries(entries);
    let g = put_infos(infos);
    lemma_parts(d, 0, a + b + c + e + f, g);
    lemma_parts(d, 0, a + b + c + e, f);
    lemma_parts(d, 0, a + b + c, e);
    lemma_parts(d, 0, a + b, c);
    lemma_parts(d, 0, a, b);
    lemma_fit(version);
    lemma_fit(infos.len());
    lemma_fit(entries.len());
    lemma_put(d, 4, version, 4);
    lemma_put(d, 8, infos.len(), 8);
    lemma_put(d, 16, entries.len(), 8);
    lemma_entries(d, 24, entries);
    lemma_infos(d, 24 + f.len() as int, infos);
    assert(a =~= seq![0x47u8, 0x47u8, 0x55u8, 0x46u8]);
    assert(d.subrange(0, 4) =~= a);
}

/// The data section begins where a file says: behind the head, at the next
/// multiple of the alignment that the metadata gives, or of 32.
pub open spec fn begins_at(m: Map<Text, Meta>, head: nat, start: int) -> bool {
    let align = if m.contains_key("general.alignment"@) && m["general.alignment"@] is U32 {
        m["general.alignment"@]->U32_0 as int
    } else {
        32
    };
    align > 0 && head <= start < head + align && start % align == 0
}

/// A tensor's bytes are in the file.
pub open spec fn is_there(size: nat, start: int, t: Described, len: nat) -> bool {
    takes_up(t.dtype, elements(t.shape), len) && elements(t.shape) <= usize::MAX && start + t.offset
        + len <= size
}

/// How many bytes elements take up in a file.
pub proof fn law_byte_len(dtype: WeightDtype, n: nat, len: nat)
    ensures
        takes_up(dtype, n, len) <==> byte_len(dtype, n) == Some(len),
{
    let blocks = (n + 31) / 32;
    assert(n <= 32 * blocks < n + 32);
    match dtype {
        WeightDtype::Q8_0 => {
            if takes_up(dtype, n, len) {
                assert(len / 34 == blocks);
            } else if byte_len(dtype, n) == Some(len) {
                assert(len == 34 * blocks);
                assert(len % 34 == 0 && len / 34 == blocks);
            }
        },
        WeightDtype::Q4_0 => {
            if takes_up(dtype, n, len) {
                assert(len / 18 == blocks);
            } else if byte_len(dtype, n) == Some(len) {
                assert(len == 18 * blocks);
                assert(len % 18 == 0 && len / 18 == blocks);
            }
        },
        _ => {},
    }
}

/// A shape has as many elements as the shape without its last dimension, times
/// that dimension, and one where it has no dimensions.
pub proof fn law_elements(shape: Seq<usize>, dim: usize)
    ensures
        elements(Seq::empty()) == 1,
        elements(shape.push(dim)) == elements(shape) * dim as nat,
{
    assert(shape.push(dim).drop_last() =~= shape);
}

/// Tensors are found where their descriptions say.
proof fn lemma_stored(size: nat, start: int, infos: Seq<Described>, lens: Seq<nat>)
    requires
        start >= 0,
        size <= usize::MAX,
        names_differ(infos),
        lens.len() == infos.len(),
        forall|i: int|
            0 <= i < infos.len() ==> describable(#[trigger] infos[i]) && is_there(
                size,
                start,
                infos[i],
                lens[i],
            ),
    ensures
        stored_all(size, start, infos) matches Ok(m) && {
            &&& forall|i: int|
                0 <= i < infos.len() ==> m.contains_key((#[trigger] infos[i]).name)
                    && m[infos[i].name] == (StoredTensor::<Seq<usize>> {
                    offset: (start + infos[i].offset) as usize,
                    len: lens[i] as usize,
                    shape: infos[i].shape,
                    dtype: infos[i].dtype,
                })
            &&& forall|k: Text| #[trigger]
                m.contains_key(k) ==> exists|i: int|
                    0 <= i < infos.len() && (#[trigger] infos[i]).name == k
        },
    decreases infos.len(),
{
    if infos.len() > 0 {
        let front = infos.drop_last();
        let few = lens.drop_last();
        assert(names_differ(front)) by {
            assert forall|i: int, j: int| 0 <= i < j < front.len() implies (#[trigger] front[i]).name
                != (#[trigger] front[j]).name by {
                assert(front[i] == infos[i] && front[j] == infos[j]);
            }
        }
        assert forall|i: int| 0 <= i < front.len() implies describable(#[trigger] front[i])
            && is_there(size, start, front[i], few[i]) by {
            assert(front[i] == infos[i]);
        }
        lemma_stored(size, start, front, few);
        let m = stored_all(size, start, front)->Ok_0;
        let t = infos.last();
        let last = infos.len() - 1;
        assert(infos[last] == t);
        if m.contains_key(t.name) {
            let i = choose|i: int| 0 <= i < front.len() && (#[trigger] front[i]).name == t.name;
            assert(infos[i].name == infos[last].name);
        }
        let n = elements(t.shape);
        assert(is_there(size, start, infos[last], lens[last]));
        law_byte_len(t.dtype, n, lens[last]);
        let after = stored_all(size, start, infos)->Ok_0;
        assert forall|i: int| 0 <= i < infos.len() implies after.contains_key(
            (#[trigger] infos[i]).name,
        ) && after[infos[i].name] == (StoredTensor::<Seq<usize>> {
            offset: (start + infos[i].offset) as usize,
            len: lens[i] as usize,
            shape: infos[i].shape,
            dtype: infos[i].dtype,
        }) by {
            if i < last {
                assert(front[i] == infos[i]);
                assert(infos[i].name != infos[last].name);
            }
        }
        assert forall|k: Text| #[trigger] after.contains_key(k) implies exists|i: int|
            0 <= i < infos.len() && (#[trigger] infos[i]).name == k by {
            if k == t.name {
                assert(infos[last].name == k);
            } else {
                let i = choose|i: int| 0 <= i < front.len() && (#[trigger] front[i]).name == k;
                assert(infos[i].name == k);
            }
        }
    }
}

/// A file is read back as it was written: its metadata says what was written, and
/// every tensor has the shape, the element type and the bytes that were written
/// for it. `lens` tells how many bytes each tensor has, and `pad` stands between
/// the head and the data.
#[verifier::rlimit(60)]
#[verifier::spinoff_prover]
pub proof fn law_file_reads_back(
    version: nat,
    entries: Seq<(Text, Meta)>,
    infos: Seq<Described>,
    lens: Seq<nat>,
    pad: Seq<u8>,
    data: Seq<u8>,
)
    requires
        head_writable(version, entries, infos),
        keys_differ(entries),
        names_differ(infos),
        lens.len() == infos.len(),
        ({
            let head = put_head(version, entries, infos);
            let d = head + pad + data;
            &&& d.len() <= usize::MAX
            &&& forall|m: Map<Text, Meta>| #[trigger]
                says(m, entries) ==> begins_at(m, head.len(), (head + pad).len() as int)
                    && plainly_aligned(m)
            &&& forall|i: int|
                0 <= i < infos.len() ==> is_there(
                    d.len(),
                    (head + pad).len() as int,
                    #[trigger] infos[i],
                    lens[i],
                )
        }),
    ensures
        ({
            let d = put_head(version, entries, infos) + pad + data;
            gguf(d) matches Ok((m, tensors)) && {
                &&& says(m, entries)
                &&& forall|i: int|
                    0 <= i < infos.len() ==> {
                        let name = (#[trigger] infos[i]).name;
                        let t = tensors[name];
                        &&& tensors.contains_key(name)
                        &&& t.shape == infos[i].shape
                        &&& t.dtype == infos[i].dtype
                        &&& d.subrange(t.offset as int, t.offset + t.len) == data.subrange(
                            infos[i].offset as int,
                            infos[i].offset + lens[i] as int,
                        )
                    }
                &&& forall|k: Text| #[trigger]
                    tensors.contains_key(k) ==> exists|i: int|
                        0 <= i < infos.len() && (#[trigger] infos[i]).name == k
            }
        }),
{
    let head = put_head(version, entries, infos);
    let d = head + pad + data;
    let start = (head + pad).len() as int;
    assert(d.subrange(0, head.len() as int) =~= head);
    law_head_reads_back(d, version, entries, infos);
    let m = p_header(d)->Ok_0.0.0;
    assert(says(m, entries));
    lemma_start(m, head.len(), start);
    lemma_stored(d.len(), start, infos, lens);
    let tensors = stored_all(d.len(), start, infos)->Ok_0;
    assert forall|i: int| 0 <= i < infos.len() implies {
        let t = tensors[(#[trigger] infos[i]).name];
        d.subrange(t.offset as int, t.offset + t.len) == data.subrange(
            infos[i].offset as int,
            infos[i].offset + lens[i] as int,
        )
    } by {
        let t = tensors[infos[i].name];
        assert(is_there(d.len(), start, infos[i], lens[i]));
        assert(d.subrange(t.offset as int, t.offset + t.len) =~= data.subrange(
            infos[i].offset as int,
            infos[i].offset + lens[i] as int,
        ));
    }
}

/// The alignment, where the metadata gives one, is a number of four bytes.
pub open spec fn plainly_aligned(m: Map<Text, Meta>) -> bool {
    m.contains_key("general.alignment"@) ==> m["general.alignment"@] is U32
}

proof fn lemma_start(m: Map<Text, Meta>, head: nat, start: int)
    requires
        begins_at(m, head, start),
        plainly_aligned(m),
    ensures
        alignment(m) > 0,
        data_start(head as int, alignment(m) as int) == start,
{
    let align = alignment(m) as int;
    let r = (head as int) % align;
    let pad = (align - r) % align;
    assert(0 <= r < align && start % align == 0);
    vstd::arithmetic::div_mod::lemma_fundamental_div_mod(head as int, align);
    vstd::arithmetic::div_mod::lemma_fundamental_div_mod(start, align);
    let q = (head as int) / align;
    let s = start / align;
    if r == 0 {
        vstd::arithmetic::div_mod::lemma_fundamental_div_mod_converse(align, align, 1, 0);
        assert(pad == 0);
        assert(s == q) by (nonlinear_arith)
            requires
                align > 0,
                align * q <= align * s < align * q + align,
        ;
    } else {
        vstd::arithmetic::div_mod::lemma_small_mod((align - r) as nat, align as nat);
        assert(s == q + 1) by (nonlinear_arith)
            requires
                align > 0,
                align * q < align * s < align * q + align + align,
        ;
        assert(align * (q + 1) == align * q + align) by (nonlinear_arith);
    }
}

/// Types and versions by their numbers: what each stands for, and that no
/// other stands for anything.
pub proof fn law_type_numbers(ty: nat)
    ensures
        ggml_dtype(0) == Some(WeightDtype::F32),
        ggml_dtype(1) == Some(WeightDtype::F16),
        ggml_dtype(2) == Some(WeightDtype::Q4_0),
        ggml_dtype(8) == Some(WeightDtype::Q8_0),
        ty != 0 && ty != 1 && ty != 2 && ty != 8 ==> ggml_dtype(ty) is None,
{
}

/// The file is refused with `e`.
pub open spec fn refused(d: Seq<u8>, e: GgufError) -> bool {
    gguf(d) is Err && gguf(d)->Err_0 == e
}

/// A file that is too short to tell, that does not begin with `GGUF`, or that
/// is of a version other than two and three, is refused as such, whatever else
/// it holds.
pub proof fn law_other_files_are_refused(d: Seq<u8>)
    ensures
        d.len() < 4 ==> refused(d, GgufError::UnexpectedEof),
        d.len() >= 4 && !(d[0] == 0x47 && d[1] == 0x47 && d[2] == 0x55 && d[3] == 0x46) ==> refused(
            d,
            GgufError::BadMagic,
        ),
        d.len() >= 8 && d[0] == 0x47 && d[1] == 0x47 && d[2] == 0x55 && d[3] == 0x46 && le(d, 4, 4)
            != 2 && le(d, 4, 4) != 3 ==> refused(
            d,
            GgufError::UnsupportedVersion(le(d, 4, 4) as u32),
        ),
{
    if d.len() >= 4 {
        let m = seq![0x47u8, 0x47u8, 0x55u8, 0x46u8];
        let s = d.subrange(0, 4);
        assert(s[0] == d[0] && s[1] == d[1] && s[2] == d[2] && s[3] == d[3]);
        assert(m[0] == 0x47 && m[1] == 0x47 && m[2] == 0x55 && m[3] == 0x46);
        if d[0] == 0x47 && d[1] == 0x47 && d[2] == 0x55 && d[3] == 0x46 {
            assert(s =~= m);
        }
    }
}

/// A file that claims more than ten million tensors or entries is refused
/// before anything is read of them.
pub proof fn law_claims_are_bounded(d: Seq<u8>)
    requires
        d.len() >= 24,
        d[0] == 0x47 && d[1] == 0x47 && d[2] == 0x55 && d[3] == 0x46,
        le(d, 4, 4) == 2 || le(d, 4, 4) == 3,
    ensures
        le(d, 8, 8) > 10_000_000 ==> refused(
            d,
            GgufError::TooManyTensors(le(d, 8, 8) as u64),
        ),
        le(d, 8, 8) <= 10_000_000 && le(d, 16, 8) > 10_000_000 ==> refused(
            d,
            GgufError::TooManyMetadata(le(d, 16, 8) as u64),
        ),
{
    assert(d.subrange(0, 4) =~= seq![0x47u8, 0x47u8, 0x55u8, 0x46u8]);
}

/// A description whose type has no known number is refused with that number.
pub proof fn law_unknown_types_are_refused(
    d: Seq<u8>,
    p: int,
    name: Text,
    shape: Seq<usize>,
    ty: u32,
)
    requires
        stand_at(d, p, put_text(name) + put(shape.len(), 4) + put_dims(shape) + put(ty as nat, 4)),
        fits(encode_utf8(name).len(), 8),
        shape.len() <= 10_000_000,
        ty != 0 && ty != 1 && ty != 2 && ty != 8,
    ensures
        p_info(d, p) == Err::<(Described, int), GgufError>(GgufError::UnsupportedTensorType(ty)),
{
    let a = put_text(name);
    let b = put(shape.len(), 4);
    let c = put_dims(shape);
    let e = put(ty as nat, 4);
    lemma_parts(d, p, a + b + c, e);
    lemma_parts(d, p, a + b, c);
    lemma_parts(d, p, a, b);
    lemma_text(d, p, name);
    lemma_fit(shape.len());
    lemma_put(d, p + a.len(), shape.len(), 4);
    lemma_dims(d, p + a.len() + 4, shape);
    lemma_fit(ty as nat);
    lemma_put(d, p + a.len() + 4 + c.len(), ty as nat, 4);
}

/// A value of a type beyond the thirteen known ones is refused with the type's
/// number, and one nested too deep as such; arrays may be nested 32 deep.
pub proof fn law_unknown_values_are_refused(d: Seq<u8>, p: int, ty: u32, room: nat)
    ensures
        ty > 12 && room > 0 ==> p_value(d, p, ty, room) == Err::<(Meta, int), GgufError>(
            GgufError::UnknownValueType(ty),
        ),
        p_value(d, p, ty, 0) == Err::<(Meta, int), GgufError>(GgufError::NestingTooDeep),
        full_room() == 33,
{
}

/// A tensor is placed exactly if all of its bytes are in the file, and then
/// where its description says.
pub proof fn law_placed_within_file(size: nat, start: int, t: Described, len: nat)
    requires
        start >= 0,
        size <= usize::MAX,
    ensures
        is_there(size, start, t, len) ==> stored(size, start, t) == Ok::<_, GgufError>(
            StoredTensor::<Seq<usize>> {
                offset: (start + t.offset) as usize,
                len: len as usize,
                shape: t.shape,
                dtype: t.dtype,
            },
        ),
        stored(size, start, t) matches Ok(s) ==> is_there(size, start, t, s.len as nat) && s.offset
            == start + t.offset && s.shape == t.shape && s.dtype == t.dtype,
        takes_up(t.dtype, elements(t.shape), len) && elements(t.shape) <= usize::MAX && start
            + t.offset <= size && len <= usize::MAX && start + t.offset + len > size ==> stored(
            size,
            start,
            t,
        ) == Err::<StoredTensor<Seq<usize>>, GgufError>(GgufError::TruncatedTensor),
        start + t.offset > size ==> stored(size, start, t) == Err::<
            StoredTensor<Seq<usize>>,
            GgufError,
        >(GgufError::OffsetBeyondEnd),
{
    let n = elements(t.shape);
    law_byte_len(t.dtype, n, len);
    if byte_len(t.dtype, n) is Some {
        law_byte_len(t.dtype, n, byte_len(t.dtype, n)->0);
    }
}

/// A file that describes two tensors under one name is refused.
pub proof fn law_names_stand_once(size: nat, start: int, infos: Seq<Described>)
    ensures
        stored_all(size, start, infos) matches Ok(m) ==> names_differ(infos) && forall|i: int|
            0 <= i < infos.len() ==> m.contains_key((#[trigger] infos[i]).name),
    decreases infos.len(),
{
    if infos.len() > 0 && stored_all(size, start, infos) is Ok {
        let front = infos.drop_last();
        law_names_stand_once(size, start, front);
        let m = stored_all(size, start, front)->Ok_0;
        assert forall|i: int, j: int| 0 <= i < j < infos.len() implies (#[trigger] infos[i]).name
            != (#[trigger] infos[j]).name by {
            assert(front[i] == infos[i]);
            assert(m.contains_key(front[i].name));
            if j < front.len() {
                assert(front[j] == infos[j]);
            }
        }
        assert forall|i: int| 0 <= i < infos.len() implies stored_all(
            size,
            start,
            infos,
        )->Ok_0.contains_key((#[trigger] infos[i]).name) by {
            if i < front.len() {
                assert(front[i] == infos[i]);
            }
        }
    }
}

/// The alignment is the one that the file gives, in any of three integer
/// types, or else 32; the data begin at its first multiple behind the head.
pub proof fn law_alignment(m: Map<Text, Meta>, head: int)
    ensures
        !m.contains_key("general.alignment"@) ==> alignment(m) == 32,
        m.contains_key("general.alignment"@) ==> (m["general.alignment"@] matches Meta::U32(a)
            ==> alignment(m) == a),
        m.contains_key("general.alignment"@) ==> (m["general.alignment"@] matches Meta::U8(a)
            ==> alignment(m) == a),
        m.contains_key("general.alignment"@) ==> (m["general.alignment"@] matches Meta::I32(a)
            ==> (a >= 0 ==> alignment(m) == a)),
{
}

} // verus!

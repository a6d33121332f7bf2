//! GGUF files: a header with metadata and tensor descriptions, then the data.
use vstd::prelude::*;
use vstd::utf8::{decode_utf8, valid_utf8};
use crate::names::NameMap;
use crate::text::Text;
use crate::types::WeightDtype;

verus! {

/// A metadata value. Floating point numbers are held as their bits.
#[derive(Debug)]
pub enum GgufValue {
    U8(u8),
    I8(i8),
    U16(u16),
    I16(i16),
    U32(u32),
    I32(i32),
    F32(u32),
    Bool(bool),
    String(String),
    Array(Vec<GgufValue>),
    U64(u64),
    I64(i64),
    F64(u64),
}

/// A metadata value, as contracts speak of it.
pub ghost enum Meta {
    U8(u8),
    I8(i8),
    U16(u16),
    I16(i16),
    U32(u32),
    I32(i32),
    F32(u32),
    Bool(bool),
    String(Text),
    Array(Seq<Meta>),
    U64(u64),
    I64(i64),
    F64(u64),
}

impl GgufValue {
    /// The value without its representation.
    pub open spec fn meta(self) -> Meta
        decreases self,
    {
        match self {
            GgufValue::U8(v) => Meta::U8(v),
            GgufValue::I8(v) => Meta::I8(v),
            GgufValue::U16(v) => Meta::U16(v),
            GgufValue::I16(v) => Meta::I16(v),
            GgufValue::U32(v) => Meta::U32(v),
            GgufValue::I32(v) => Meta::I32(v),
            GgufValue::F32(v) => Meta::F32(v),
            GgufValue::Bool(v) => Meta::Bool(v),
            GgufValue::String(v) => Meta::String(v@),
            GgufValue::Array(items) => Meta::Array(
                Seq::new(
                    items@.len(),
                    |i: int|
                        if 0 <= i < items@.len() {
                            items@[i].meta()
                        } else {
                            Meta::U8(0)
                        },
                ),
            ),
            GgufValue::U64(v) => Meta::U64(v),
            GgufValue::I64(v) => Meta::I64(v),
            GgufValue::F64(v) => Meta::F64(v),
        }
    }
}

/// Upper bound on any count that a file claims: metadata entries, array
/// elements, tensors, dimensions.
pub const MAX_REASONABLE_COUNT: u64 = 10_000_000;

/// How deep arrays may be nested.
pub const MAX_ARRAY_NESTING_DEPTH: u32 = 32;

/// Why a file cannot be read.
#[derive(Debug, Clone, Copy, PartialEq, Eq, Structural)]
pub enum GgufError {
    /// The file ends inside a field.
    UnexpectedEof,
    /// A string is not UTF-8.
    InvalidUtf8,
    NestingTooDeep,
    ArrayTooLong(u64),
    UnknownValueType(u32),
    BadMagic,
    UnsupportedVersion(u32),
    TooManyTensors(u64),
    TooManyMetadata(u64),
    TooManyDims(u32),
    UnsupportedTensorType(u32),
    ZeroAlignment,
    /// A tensor starts behind the end of the file.
    OffsetBeyondEnd,
    /// A tensor has more bytes than the machine can address.
    TooLarge,
    /// A tensor ends behind the end of the file.
    TruncatedTensor,
    DuplicateTensor,
    /// The byte length of the element type is not known.
    UnknownLength,
}

/// What was read, and the position behind it.
pub type Parsed<T> = Result<(T, int), GgufError>;

/// The number that bytes `p..p + n` write, least significant byte first.
pub open spec fn le(d: Seq<u8>, p: int, n: nat) -> nat
    decreases n,
{
    if n == 0 {
        0
    } else {
        d[p] as nat + 256 * le(d, p + 1, (n - 1) as nat)
    }
}

/// `n` bytes at `p`.
pub open spec fn p_bytes(d: Seq<u8>, p: int, n: int) -> Parsed<Seq<u8>> {
    if p + n <= d.len() {
        Ok((d.subrange(p, p + n), p + n))
    } else {
        Err(GgufError::UnexpectedEof)
    }
}

/// An unsigned number of `n` bytes at `p`.
pub open spec fn p_uint(d: Seq<u8>, p: int, n: nat) -> Parsed<nat> {
    if p + n <= d.len() {
        Ok((le(d, p, n), p + n))
    } else {
        Err(GgufError::UnexpectedEof)
    }
}

/// A string at `p`: its length in bytes, then its bytes.
pub open spec fn p_string(d: Seq<u8>, p: int) -> Parsed<Text> {
    match p_uint(d, p, 8) {
        Err(e) => Err(e),
        Ok((len, q)) => match p_bytes(d, q, len as int) {
            Err(e) => Err(e),
            Ok((bytes, end)) => if valid_utf8(bytes) {
                Ok((decode_utf8(bytes), end))
            } else {
                Err(GgufError::InvalidUtf8)
            },
        },
    }
}

/// A number of `n` bytes at `p`, made into a value by `f`.
pub open spec fn p_number(d: Seq<u8>, p: int, n: nat, f: spec_fn(nat) -> Meta) -> Parsed<Meta> {
    match p_uint(d, p, n) {
        Err(e) => Err(e),
        Ok((v, end)) => Ok((f(v), end)),
    }
}

/// A value of type `ty` at `p`, with arrays nested at most `room - 1` deep.
pub open spec fn p_value(d: Seq<u8>, p: int, ty: u32, room: nat) -> Parsed<Meta>
    decreases room, 0nat,
{
    if room == 0 {
        Err(GgufError::NestingTooDeep)
    } else if ty == 0 {
        p_number(d, p, 1, |v: nat| Meta::U8(v as u8))
    } else if ty == 1 {
        p_number(d, p, 1, |v: nat| Meta::I8(v as u8 as i8))
    } else if ty == 2 {
        p_number(d, p, 2, |v: nat| Meta::U16(v as u16))
    } else if ty == 3 {
        p_number(d, p, 2, |v: nat| Meta::I16(v as u16 as i16))
    } else if ty == 4 {
        p_number(d, p, 4, |v: nat| Meta::U32(v as u32))
    } else if ty == 5 {
        p_number(d, p, 4, |v: nat| Meta::I32(v as u32 as i32))
    } else if ty == 6 {
        p_number(d, p, 4, |v: nat| Meta::F32(v as u32))
    } else if ty == 7 {
        p_number(d, p, 1, |v: nat| Meta::Bool(v != 0))
    } else if ty == 8 {
        match p_string(d, p) {
            Err(e) => Err(e),
            Ok((t, end)) => Ok((Meta::String(t), end)),
        }
    } else if ty == 9 {
        match p_uint(d, p, 4) {
            Err(e) => Err(e),
            Ok((item_ty, q)) => match p_uint(d, q, 8) {
                Err(e) => Err(e),
                Ok((len, start)) => if len > MAX_REASONABLE_COUNT {
                    Err(GgufError::ArrayTooLong(len as u64))
                } else {
                    match p_items(d, start, item_ty as u32, (room - 1) as nat, len) {
                        Err(e) => Err(e),
                        Ok((items, end)) => Ok((Meta::Array(items), end)),
                    }
                },
            },
        }
    } else if ty == 10 {
        p_number(d, p, 8, |v: nat| Meta::U64(v as u64))
    } else if ty == 11 {
        p_number(d, p, 8, |v: nat| Meta::I64(v as u64 as i64))
    } else if ty == 12 {
        p_number(d, p, 8, |v: nat| Meta::F64(v as u64))
    } else {
        Err(GgufError::UnknownValueType(ty))
    }
}

/// `n` values of type `ty`, one behind the other.
pub open spec fn p_items(d: Seq<u8>, p: int, ty: u32, room: nat, n: nat) -> Parsed<Seq<Meta>>
    decreases room, n + 1,
{
    if n == 0 {
        Ok((seq![], p))
    } else {
        match p_items(d, p, ty, room, (n - 1) as nat) {
            Err(e) => Err(e),
            Ok((items, q)) => match p_value(d, q, ty, room) {
                Err(e) => Err(e),
                Ok((v, end)) => Ok((items.push(v), end)),
            },
        }
    }
}

/// Room for arrays at the outermost level.
pub open spec fn full_room() -> nat {
    (MAX_ARRAY_NESTING_DEPTH + 1) as nat
}

/// A metadata entry at `p`: key, type, value.
pub open spec fn p_entry(d: Seq<u8>, p: int) -> Parsed<(Text, Meta)> {
    match p_string(d, p) {
        Err(e) => Err(e),
        Ok((key, q)) => match p_uint(d, q, 4) {
            Err(e) => Err(e),
            Ok((ty, r)) => match p_value(d, r, ty as u32, full_room()) {
                Err(e) => Err(e),
                Ok((v, end)) => Ok(((key, v), end)),
            },
        },
    }
}

/// `n` metadata entries. Of two entries for one key the later one counts.
pub open spec fn p_metadata(d: Seq<u8>, p: int, n: nat) -> Parsed<Map<Text, Meta>>
    decreases n,
{
    if n == 0 {
        Ok((Map::empty(), p))
    } else {
        match p_metadata(d, p, (n - 1) as nat) {
            Err(e) => Err(e),
            Ok((m, q)) => match p_entry(d, q) {
                Err(e) => Err(e),
                Ok(((key, v), end)) => Ok((m.insert(key, v), end)),
            },
        }
    }
}

/// `n` dimensions.
pub open spec fn p_dims(d: Seq<u8>, p: int, n: nat) -> Parsed<Seq<usize>>
    decreases n,
{
    if n == 0 {
        Ok((seq![], p))
    } else {
        match p_dims(d, p, (n - 1) as nat) {
            Err(e) => Err(e),
            Ok((dims, q)) => match p_uint(d, q, 8) {
                Err(e) => Err(e),
                Ok((v, end)) => Ok((dims.push(v as usize), end)),
            },
        }
    }
}

/// The element type behind a GGML type number.
pub open spec fn ggml_dtype(ty: nat) -> Option<WeightDtype> {
    if ty == 0 {
        Some(WeightDtype::F32)
    } else if ty == 1 {
        Some(WeightDtype::F16)
    } else if ty == 2 {
        Some(WeightDtype::Q4_0)
    } else if ty == 8 {
        Some(WeightDtype::Q8_0)
    } else {
        None
    }
}

/// How the header describes a tensor. The offset counts from the start of the
/// data section.
pub struct TensorInfo<S = String, L = Vec<usize>> {
    pub name: S,
    pub shape: L,
    pub dtype: WeightDtype,
    pub offset: u64,
}

impl View for TensorInfo {
    type V = TensorInfo<Text, Seq<usize>>;

    open spec fn view(&self) -> TensorInfo<Text, Seq<usize>> {
        TensorInfo {
            name: self.name@,
            shape: self.shape@,
            dtype: self.dtype,
            offset: self.offset,
        }
    }
}

/// A tensor description at `p`.
pub open spec fn p_info(d: Seq<u8>, p: int) -> Parsed<TensorInfo<Text, Seq<usize>>> {
    match p_string(d, p) {
        Err(e) => Err(e),
        Ok((name, q)) => match p_uint(d, q, 4) {
            Err(e) => Err(e),
            Ok((ndim, r)) => if ndim > MAX_REASONABLE_COUNT {
                Err(GgufError::TooManyDims(ndim as u32))
            } else {
                match p_dims(d, r, ndim) {
                    Err(e) => Err(e),
                    Ok((shape, s)) => match p_uint(d, s, 4) {
                        Err(e) => Err(e),
                        Ok((ty, t)) => match ggml_dtype(ty) {
                            None => Err(GgufError::UnsupportedTensorType(ty as u32)),
                            Some(dtype) => match p_uint(d, t, 8) {
                                Err(e) => Err(e),
                                Ok((offset, end)) => Ok(
                                    (TensorInfo { name, shape, dtype, offset: offset as u64 }, end),
                                ),
                            },
                        },
                    },
                }
            },
        },
    }
}

/// `n` tensor descriptions.
pub open spec fn p_infos(d: Seq<u8>, p: int, n: nat) -> Parsed<Seq<TensorInfo<Text, Seq<usize>>>>
    decreases n,
{
    if n == 0 {
        Ok((seq![], p))
    } else {
        match p_infos(d, p, (n - 1) as nat) {
            Err(e) => Err(e),
            Ok((infos, q)) => match p_info(d, q) {
                Err(e) => Err(e),
                Ok((info, end)) => Ok((infos.push(info), end)),
            },
        }
    }
}

/// The header: metadata and tensor descriptions.
pub open spec fn p_header(d: Seq<u8>) -> Parsed<
    (Map<Text, Meta>, Seq<TensorInfo<Text, Seq<usize>>>),
> {
    if d.len() < 4 {
        Err(GgufError::UnexpectedEof)
    } else if d.subrange(0, 4) != seq![0x47u8, 0x47u8, 0x55u8, 0x46u8] {
        Err(GgufError::BadMagic)
    } else {
        match p_uint(d, 4, 4) {
            Err(e) => Err(e),
            Ok((version, _)) => if version != 2 && version != 3 {
                Err(GgufError::UnsupportedVersion(version as u32))
            } else {
                match p_uint(d, 8, 8) {
                    Err(e) => Err(e),
                    Ok((tensors, _)) => match p_uint(d, 16, 8) {
                        Err(e) => Err(e),
                        Ok((entries, p)) => if tensors > MAX_REASONABLE_COUNT {
                            Err(GgufError::TooManyTensors(tensors as u64))
                        } else if entries > MAX_REASONABLE_COUNT {
                            Err(GgufError::TooManyMetadata(entries as u64))
                        } else {
                            match p_metadata(d, p, entries) {
                                Err(e) => Err(e),
                                Ok((m, q)) => match p_infos(d, q, tensors) {
                                    Err(e) => Err(e),
                                    Ok((infos, end)) => Ok(((m, infos), end)),
                                },
                            }
                        },
                    },
                }
            },
        }
    }
}

/// The alignment of the data section.
pub open spec fn alignment(m: Map<Text, Meta>) -> usize {
    if m.contains_key("general.alignment"@) {
        match m["general.alignment"@] {
            Meta::U32(a) => a as usize,
            Meta::U8(a) => a as usize,
            Meta::I32(a) => a as usize,
            _ => 32,
        }
    } else {
        32
    }
}

/// Where the data section starts behind a header of `header` bytes.
pub open spec fn data_start(header: int, align: int) -> int {
    header + (align - header % align) % align
}

/// The number of elements of a shape.
pub open spec fn elements(shape: Seq<usize>) -> nat
    decreases shape.len(),
{
    if shape.len() == 0 {
        1
    } else {
        elements(shape.drop_last()) * shape.last() as nat
    }
}

/// The bytes that `n` elements take up in a file: quantized types come in
/// blocks of 32 elements with a two byte scale each.
pub open spec fn byte_len(dtype: WeightDtype, n: nat) -> Option<nat> {
    let blocks = (n + 31) / 32;
    match dtype {
        WeightDtype::F32 => Some(4 * n),
        WeightDtype::F16 => Some(2 * n),
        WeightDtype::BF16 => Some(2 * n),
        WeightDtype::I8 => Some(n),
        WeightDtype::Q8_0 => Some(34 * blocks as nat),
        WeightDtype::Q4_0 => Some(18 * blocks as nat),
        WeightDtype::Q4_K => None,
    }
}

/// Where a tensor's bytes lie in the file. `L` is how the shape is held.
pub struct StoredTensor<L = Vec<usize>> {
    pub offset: usize,
    pub len: usize,
    pub shape: L,
    pub dtype: WeightDtype,
}

impl View for StoredTensor {
    type V = StoredTensor<Seq<usize>>;

    open spec fn view(&self) -> StoredTensor<Seq<usize>> {
        StoredTensor {
            offset: self.offset,
            len: self.len,
            shape: self.shape@,
            dtype: self.dtype,
        }
    }
}

/// The place of a described tensor in a file of `size` bytes whose data
/// section starts at `start`.
pub open spec fn stored(
    size: nat,
    start: int,
    info: TensorInfo<Text, Seq<usize>>,
) -> Result<StoredTensor<Seq<usize>>, GgufError> {
    let at = start + info.offset;
    let n = elements(info.shape);
    if at > size {
        Err(GgufError::OffsetBeyondEnd)
    } else if n > usize::MAX {
        Err(GgufError::TooLarge)
    } else {
        match byte_len(info.dtype, n) {
            None => Err(GgufError::UnknownLength),
            Some(len) => if len > usize::MAX {
                Err(GgufError::TooLarge)
            } else if at + len > size {
                Err(GgufError::TruncatedTensor)
            } else {
                Ok(
                    StoredTensor {
                        offset: at as usize,
                        len: len as usize,
                        shape: info.shape,
                        dtype: info.dtype,
                    },
                )
            },
        }
    }
}

/// The places of all described tensors. No name may occur twice.
pub open spec fn stored_all(
    size: nat,
    start: int,
    infos: Seq<TensorInfo<Text, Seq<usize>>>,
) -> Result<Map<Text, StoredTensor<Seq<usize>>>, GgufError>
    decreases infos.len(),
{
    if infos.len() == 0 {
        Ok(Map::empty())
    } else {
        match stored_all(size, start, infos.drop_last()) {
            Err(e) => Err(e),
            Ok(m) => match stored(size, start, infos.last()) {
                Err(e) => Err(e),
                Ok(t) => if m.contains_key(infos.last().name) {
                    Err(GgufError::DuplicateTensor)
                } else {
                    Ok(m.insert(infos.last().name, t))
                },
            },
        }
    }
}

/// What a GGUF file holds: its metadata and the places of its tensors.
pub open spec fn gguf(d: Seq<u8>) -> Result<
    (Map<Text, Meta>, Map<Text, StoredTensor<Seq<usize>>>),
    GgufError,
> {
    match p_header(d) {
        Err(e) => Err(e),
        Ok(((m, infos), end)) => if alignment(m) == 0 {
            Err(GgufError::ZeroAlignment)
        } else {
            match stored_all(d.len(), data_start(end, alignment(m) as int), infos) {
                Err(e) => Err(e),
                Ok(tensors) => Ok((m, tensors)),
            }
        },
    }
}

/// The result of a read that left the reader at `pos`, held against what is
/// there to be read.
pub open spec fn reads<T, V>(r: Result<T, GgufError>, v: spec_fn(T) -> V, pos: usize, p: Parsed<V>)
    -> bool {
    match r {
        Ok(t) => p == Ok::<(V, int), GgufError>((v(t), pos as int)),
        Err(e) => p == Err::<(V, int), GgufError>(e),
    }
}

/// Reads fields one behind the other.
pub struct Reader<'a> {
    pub data: &'a [u8],
    pub pos: usize,
}

/// The text of a UTF-8 byte string.
///
/// Trusted: `String::from_utf8` of std accepts exactly the valid UTF-8 byte
/// strings, and gives the text that they encode.
#[verifier::external_body]
pub(crate) fn utf8_text(bytes: &[u8]) -> (r: Option<String>)
    ensures
        match r {
            Some(s) => valid_utf8(bytes@) && s@ == decode_utf8(bytes@),
            None => !valid_utf8(bytes@),
        },
{
    String::from_utf8(bytes.to_vec()).ok()
}

proof fn lemma_le_fits(d: Seq<u8>, p: int)
    ensures
        le(d, p, 1) == d[p] as nat,
        le(d, p, 2) == d[p] as nat + 0x100 * d[p + 1] as nat,
        le(d, p, 4) == d[p] as nat + 0x100 * d[p + 1] as nat + 0x1_0000 * d[p + 2] as nat
            + 0x100_0000 * d[p + 3] as nat,
        le(d, p, 8) == le(d, p, 4) + 0x1_0000_0000 * le(d, p + 4, 4),
{
    reveal_with_fuel(le, 9);
}

impl<'a> Reader<'a> {
    /// The reader stands within the data.
    pub open spec fn wf(self) -> bool {
        self.pos <= self.data@.len()
    }

    /// A reader at the start of `data`.
    pub fn new(data: &'a [u8]) -> (r: Self)
        ensures
            r.data == data,
            r.pos == 0,
            r.wf(),
    {
        Reader { data, pos: 0 }
    }

    /// Reads a byte.
    pub fn read_u8(&mut self) -> (r: Result<u8, GgufError>)
        requires
            old(self).wf(),
        ensures
            final(self).wf(),
            final(self).data == old(self).data,
            reads(r, |v: u8| v as nat, final(self).pos, p_uint(old(self).data@, old(self).pos as int, 1)),
    {
        if self.data.len() - self.pos < 1 {
            return Err(GgufError::UnexpectedEof);
        }
        let v: u8 = self.data[self.pos];
        proof {
            lemma_le_fits(self.data@, self.pos as int);
        }
        self.pos += 1;
        Ok(v)
    }

    /// Reads a number of two bytes.
    pub fn read_u16(&mut self) -> (r: Result<u16, GgufError>)
        requires
            old(self).wf(),
        ensures
            final(self).wf(),
            final(self).data == old(self).data,
            reads(r, |v: u16| v as nat, final(self).pos, p_uint(old(self).data@, old(self).pos as int, 2)),
    {
        if self.data.len() - self.pos < 2 {
            return Err(GgufError::UnexpectedEof);
        }
        let p: usize = self.pos;
        let v: u16 = self.data[p] as u16 + 0x100 * self.data[p + 1] as u16;
        proof {
            lemma_le_fits(self.data@, p as int);
        }
        self.pos += 2;
        Ok(v)
    }

    /// Reads a number of four bytes.
    pub fn read_u32(&mut self) -> (r: Result<u32, GgufError>)
        requires
            old(self).wf(),
        ensures
            final(self).wf(),
            final(self).data == old(self).data,
            reads(r, |v: u32| v as nat, final(self).pos, p_uint(old(self).data@, old(self).pos as int, 4)),
    {
        if self.data.len() - self.pos < 4 {
            return Err(GgufError::UnexpectedEof);
        }
        let p: usize = self.pos;
        let v: u32 = self.data[p] as u32 + 0x100 * self.data[p + 1] as u32 + 0x1_0000
            * self.data[p + 2] as u32 + 0x100_0000 * self.data[p + 3] as u32;
        proof {
            lemma_le_fits(self.data@, p as int);
        }
        self.pos += 4;
        Ok(v)
    }

    /// Reads a number of eight bytes.
    pub fn read_u64(&mut self) -> (r: Result<u64, GgufError>)
        requires
            old(self).wf(),
        ensures
            final(self).wf(),
            final(self).data == old(self).data,
            reads(r, |v: u64| v as nat, final(self).pos, p_uint(old(self).data@, old(self).pos as int, 8)),
    {
        if self.data.len() - self.pos < 8 {
            return Err(GgufError::UnexpectedEof);
        }
        proof {
            lemma_le_fits(self.data@, self.pos as int);
            lemma_le_fits(self.data@, self.pos + 4);
        }
        let low = self.read_u32();
        let high = self.read_u32();
        match (low, high) {
            (Ok(low), Ok(high)) => Ok(low as u64 + 0x1_0000_0000 * high as u64),
            _ => Err(GgufError::UnexpectedEof),
        }
    }

    /// Reads `len` bytes.
    pub fn read_bytes(&mut self, len: usize) -> (r: Result<&'a [u8], GgufError>)
        requires
            old(self).wf(),
        ensures
            final(self).wf(),
            final(self).data == old(self).data,
            reads(
                r,
                |v: &'a [u8]| v@,
                final(self).pos,
                p_bytes(old(self).data@, old(self).pos as int, len as int),
            ),
    {
        if self.data.len() - self.pos < len {
            return Err(GgufError::UnexpectedEof);
        }
        let v = vstd::slice::slice_subrange(self.data, self.pos, self.pos + len);
        self.pos += len;
        Ok(v)
    }

    /// Reads a string.
    pub fn read_string(&mut self) -> (r: Result<String, GgufError>)
        requires
            old(self).wf(),
        ensures
            final(self).wf(),
            final(self).data == old(self).data,
            reads(r, |v: String| v@, final(self).pos, p_string(old(self).data@, old(self).pos as int)),
    {
        let len: u64 = match self.read_u64() {
            Ok(v) => v,
            Err(e) => return Err(e),
        };
        if len > (self.data.len() - self.pos) as u64 {
            return Err(GgufError::UnexpectedEof);
        }
        match self.read_bytes(len as usize) {
            Ok(bytes) => match utf8_text(bytes) {
                Some(s) => Ok(s),
                None => Err(GgufError::InvalidUtf8),
            },
            Err(e) => Err(e),
        }
    }

    /// Reads a value of type `value_type`.
    pub fn read_value(&mut self, value_type: u32) -> (r: Result<GgufValue, GgufError>)
        requires
            old(self).wf(),
        ensures
            final(self).wf(),
            final(self).data == old(self).data,
            reads(
                r,
                |v: GgufValue| v.meta(),
                final(self).pos,
                p_value(old(self).data@, old(self).pos as int, value_type, full_room()),
            ),
    {
        self.read_value_depth(value_type, 0)
    }

    /// Reads a value of type `value_type` that stands `depth` arrays deep.
    pub fn read_value_depth(&mut self, value_type: u32, depth: u32) -> (r: Result<
        GgufValue,
        GgufError,
    >)
        requires
            old(self).wf(),
            depth <= MAX_ARRAY_NESTING_DEPTH + 1,
        ensures
            final(self).wf(),
            final(self).data == old(self).data,
            reads(
                r,
                |v: GgufValue| v.meta(),
                final(self).pos,
                p_value(
                    old(self).data@,
                    old(self).pos as int,
                    value_type,
                    (full_room() - depth) as nat,
                ),
            ),
        decreases full_room() - depth, 0nat,
    {
        if depth > MAX_ARRAY_NESTING_DEPTH {
            return Err(GgufError::NestingTooDeep);
        }
        if value_type == 0 {
            match self.read_u8() {
                Ok(v) => Ok(GgufValue::U8(v)),
                Err(e) => Err(e),
            }
        } else if value_type == 1 {
            match self.read_u8() {
                Ok(v) => Ok(GgufValue::I8(v as i8)),
                Err(e) => Err(e),
            }
        } else if value_type == 2 {
            match self.read_u16() {
                Ok(v) => Ok(GgufValue::U16(v)),
                Err(e) => Err(e),
            }
        } else if value_type == 3 {
            match self.read_u16() {
                Ok(v) => Ok(GgufValue::I16(v as i16)),
                Err(e) => Err(e),
            }
        } else if value_type == 4 {
            match self.read_u32() {
                Ok(v) => Ok(GgufValue::U32(v)),
                Err(e) => Err(e),
            }
        } else if value_type == 5 {
            match self.read_u32() {
                Ok(v) => Ok(GgufValue::I32(v as i32)),
                Err(e) => Err(e),
            }
        } else if value_type == 6 {
            match self.read_u32() {
                Ok(v) => Ok(GgufValue::F32(v)),
                Err(e) => Err(e),
            }
        } else if value_type == 7 {
            match self.read_u8() {
                Ok(v) => Ok(GgufValue::Bool(v != 0)),
                Err(e) => Err(e),
            }
        } else if value_type == 8 {
            match self.read_string() {
                Ok(v) => Ok(GgufValue::String(v)),
                Err(e) => Err(e),
            }
        } else if value_type == 9 {
            self.read_array(depth)
        } else if value_type == 10 {
            match self.read_u64() {
                Ok(v) => Ok(GgufValue::U64(v)),
                Err(e) => Err(e),
            }
        } else if value_type == 11 {
            match self.read_u64() {
                Ok(v) => Ok(GgufValue::I64(v as i64)),
                Err(e) => Err(e),
            }
        } else if value_type == 12 {
            match self.read_u64() {
                Ok(v) => Ok(GgufValue::F64(v)),
                Err(e) => Err(e),
            }
        } else {
            Err(GgufError::UnknownValueType(value_type))
        }
    }

    fn read_array(&mut self, depth: u32) -> (r: Result<GgufValue, GgufError>)
        requires
            old(self).wf(),
            depth <= MAX_ARRAY_NESTING_DEPTH,
        ensures
            final(self).wf(),
            final(self).data == old(self).data,
            reads(
                r,
                |v: GgufValue| v.meta(),
                final(self).pos,
                p_value(old(self).data@, old(self).pos as int, 9, (full_room() - depth) as nat),
            ),
        decreases full_room() - depth - 1, MAX_REASONABLE_COUNT + 2,
    {
        let item_type: u32 = match self.read_u32() {
            Ok(v) => v,
            Err(e) => return Err(e),
        };
        let len: u64 = match self.read_u64() {
            Ok(v) => v,
            Err(e) => return Err(e),
        };
        if len > MAX_REASONABLE_COUNT {
            return Err(GgufError::ArrayTooLong(len));
        }
        let ghost start = self.pos as int;
        let ghost data = self.data@;
        let ghost room = (full_room() - depth - 1) as nat;
        let ghost whole = p_items(data, start, item_type, room, len as nat);
        let mut items: Vec<GgufValue> = Vec::new();
        let mut i: u64 = 0;
        assert(metas(items@) =~= seq![]);
        while i < len
            invariant
                i <= len,
                len <= MAX_REASONABLE_COUNT,
                self.wf(),
                self.data == old(self).data,
                data == self.data@,
                depth <= MAX_ARRAY_NESTING_DEPTH,
                room == full_room() - depth - 1,
                items.len() == i,
                p_items(data, start, item_type, room, i as nat) == Ok::<(Seq<Meta>, int), GgufError>(
                    (metas(items@), self.pos as int),
                ),
                whole == p_items(data, start, item_type, room, len as nat),
                whole matches Err(e) ==> p_value(
                    data,
                    old(self).pos as int,
                    9,
                    (full_room() - depth) as nat,
                ) == Err::<(Meta, int), GgufError>(e),
            decreases len - i,
        {
            let ghost before = items@;
            match self.read_value_depth(item_type, depth + 1) {
                Ok(v) => {
                    items.push(v);
                    assert(metas(items@) =~= metas(before).push(v.meta()));
                },
                Err(e) => {
                    proof {
                        lemma_items_stop(data, start, item_type, room, (i + 1) as nat, len as nat);
                    }
                    return Err(e);
                },
            }
            i += 1;
        }
        proof {
            assert(GgufValue::Array(items).meta()->Array_0 =~= metas(items@));
        }
        Ok(GgufValue::Array(items))
    }
}

/// Values without their representation.
pub open spec fn metas(items: Seq<GgufValue>) -> Seq<Meta> {
    items.map_values(|v: GgufValue| v.meta())
}

proof fn lemma_items_stop(d: Seq<u8>, p: int, ty: u32, room: nat, k: nat, n: nat)
    requires
        k <= n,
        p_items(d, p, ty, room, k) is Err,
    ensures
        p_items(d, p, ty, room, n) == p_items(d, p, ty, room, k),
    decreases n,
{
    if k < n {
        lemma_items_stop(d, p, ty, room, k, (n - 1) as nat);
    }
}

/// A metadata map without its representation.
pub open spec fn meta_map(m: Map<Text, GgufValue>) -> Map<Text, Meta> {
    m.map_values(|v: GgufValue| v.meta())
}

/// The places of tensors, without their representation.
pub open spec fn stored_map(m: Map<Text, StoredTensor>) -> Map<Text, StoredTensor<Seq<usize>>> {
    m.map_values(|t: StoredTensor| t@)
}

/// Tensor descriptions without their representation.
pub open spec fn infos_view(infos: Seq<TensorInfo>) -> Seq<TensorInfo<Text, Seq<usize>>> {
    infos.map_values(|t: TensorInfo| t@)
}

proof fn lemma_metadata_stop(d: Seq<u8>, p: int, k: nat, n: nat)
    requires
        k <= n,
        p_metadata(d, p, k) is Err,
    ensures
        p_metadata(d, p, n) == p_metadata(d, p, k),
    decreases n,
{
    if k < n {
        lemma_metadata_stop(d, p, k, (n - 1) as nat);
    }
}

proof fn lemma_dims_stop(d: Seq<u8>, p: int, k: nat, n: nat)
    requires
        k <= n,
        p_dims(d, p, k) is Err,
    ensures
        p_dims(d, p, n) == p_dims(d, p, k),
    decreases n,
{
    if k < n {
        lemma_dims_stop(d, p, k, (n - 1) as nat);
    }
}

proof fn lemma_infos_stop(d: Seq<u8>, p: int, k: nat, n: nat)
    requires
        k <= n,
        p_infos(d, p, k) is Err,
    ensures
        p_infos(d, p, n) == p_infos(d, p, k),
    decreases n,
{
    if k < n {
        lemma_infos_stop(d, p, k, (n - 1) as nat);
    }
}

proof fn lemma_stored_stop(
    size: nat,
    start: int,
    infos: Seq<TensorInfo<Text, Seq<usize>>>,
    k: int,
)
    requires
        0 <= k <= infos.len(),
        stored_all(size, start, infos.take(k)) is Err,
    ensures
        stored_all(size, start, infos) == stored_all(size, start, infos.take(k)),
    decreases infos.len(),
{
    if k < infos.len() {
        assert(infos.drop_last().take(k) =~= infos.take(k));
        lemma_stored_stop(size, start, infos.drop_last(), k);
    } else {
        assert(infos.take(k) =~= infos);
    }
}

impl<'a> Reader<'a> {
    fn read_entry(&mut self) -> (r: Result<(String, GgufValue), GgufError>)
        requires
            old(self).wf(),
        ensures
            final(self).wf(),
            final(self).data == old(self).data,
            reads(
                r,
                |e: (String, GgufValue)| (e.0@, e.1.meta()),
                final(self).pos,
                p_entry(old(self).data@, old(self).pos as int),
            ),
    {
        let key = match self.read_string() {
            Ok(v) => v,
            Err(e) => return Err(e),
        };
        let value_type: u32 = match self.read_u32() {
            Ok(v) => v,
            Err(e) => return Err(e),
        };
        match self.read_value(value_type) {
            Ok(v) => Ok((key, v)),
            Err(e) => Err(e),
        }
    }

    fn read_metadata(&mut self, count: u64) -> (r: Result<NameMap<GgufValue>, GgufError>)
        requires
            old(self).wf(),
        ensures
            final(self).wf(),
            final(self).data == old(self).data,
            reads(
                r,
                |m: NameMap<GgufValue>| meta_map(m@),
                final(self).pos,
                p_metadata(old(self).data@, old(self).pos as int, count as nat),
            ),
    {
        let ghost d = self.data@;
        let ghost start = self.pos as int;
        let mut m: NameMap<GgufValue> = NameMap::new();
        assert(meta_map(m@) =~= Map::empty());
        let mut i: u64 = 0;
        while i < count
            invariant
                i <= count,
                self.wf(),
                self.data == old(self).data,
                d == self.data@,
                start == old(self).pos,
                p_metadata(d, start, i as nat) == Ok::<(Map<Text, Meta>, int), GgufError>(
                    (meta_map(m@), self.pos as int),
                ),
            decreases count - i,
        {
            let ghost before = m@;
            match self.read_entry() {
                Ok((key, v)) => {
                    m.insert(key, v);
                    assert(meta_map(m@) =~= meta_map(before).insert(key@, v.meta()));
                },
                Err(e) => {
                    proof {
                        lemma_metadata_stop(d, start, (i + 1) as nat, count as nat);
                    }
                    return Err(e);
                },
            }
            i += 1;
        }
        Ok(m)
    }

    fn read_dims(&mut self, count: u32) -> (r: Result<Vec<usize>, GgufError>)
        requires
            old(self).wf(),
        ensures
            final(self).wf(),
            final(self).data == old(self).data,
            reads(
                r,
                |v: Vec<usize>| v@,
                final(self).pos,
                p_dims(old(self).data@, old(self).pos as int, count as nat),
            ),
    {
        let ghost d = self.data@;
        let ghost start = self.pos as int;
        let mut dims: Vec<usize> = Vec::new();
        assert(dims@ =~= seq![]);
        let mut i: u32 = 0;
        while i < count
            invariant
                i <= count,
                self.wf(),
                self.data == old(self).data,
                d == self.data@,
                start == old(self).pos,
                p_dims(d, start, i as nat) == Ok::<(Seq<usize>, int), GgufError>(
                    (dims@, self.pos as int),
                ),
            decreases count - i,
        {
            match self.read_u64() {
                Ok(v) => {
                    dims.push(v as usize);
                },
                Err(e) => {
                    proof {
                        lemma_dims_stop(d, start, (i + 1) as nat, count as nat);
                    }
                    return Err(e);
                },
            }
            i += 1;
        }
        Ok(dims)
    }

    fn read_info(&mut self) -> (r: Result<TensorInfo, GgufError>)
        requires
            old(self).wf(),
        ensures
            final(self).wf(),
            final(self).data == old(self).data,
            reads(
                r,
                |t: TensorInfo| t@,
                final(self).pos,
                p_info(old(self).data@, old(self).pos as int),
            ),
    {
        let name = match self.read_string() {
            Ok(v) => v,
            Err(e) => return Err(e),
        };
        let ndim: u32 = match self.read_u32() {
            Ok(v) => v,
            Err(e) => return Err(e),
        };
        if ndim as u64 > MAX_REASONABLE_COUNT {
            return Err(GgufError::TooManyDims(ndim));
        }
        let shape = match self.read_dims(ndim) {
            Ok(v) => v,
            Err(e) => return Err(e),
        };
        let ty: u32 = match self.read_u32() {
            Ok(v) => v,
            Err(e) => return Err(e),
        };
        let dtype = if ty == 0 {
            WeightDtype::F32
        } else if ty == 1 {
            WeightDtype::F16
        } else if ty == 2 {
            WeightDtype::Q4_0
        } else if ty == 8 {
            WeightDtype::Q8_0
        } else {
            return Err(GgufError::UnsupportedTensorType(ty));
        };
        match self.read_u64() {
            Ok(offset) => Ok(TensorInfo { name, shape, dtype, offset }),
            Err(e) => Err(e),
        }
    }

    fn read_infos(&mut self, count: u64) -> (r: Result<Vec<TensorInfo>, GgufError>)
        requires
            old(self).wf(),
        ensures
            final(self).wf(),
            final(self).data == old(self).data,
            reads(
                r,
                |v: Vec<TensorInfo>| infos_view(v@),
                final(self).pos,
                p_infos(old(self).data@, old(self).pos as int, count as nat),
            ),
    {
        let ghost d = self.data@;
        let ghost start = self.pos as int;
        let mut infos: Vec<TensorInfo> = Vec::new();
        assert(infos_view(infos@) =~= seq![]);
        let mut i: u64 = 0;
        while i < count
            invariant
                i <= count,
                self.wf(),
                self.data == old(self).data,
                d == self.data@,
                start == old(self).pos,
                p_infos(d, start, i as nat) == Ok::<
                    (Seq<TensorInfo<Text, Seq<usize>>>, int),
                    GgufError,
                >((infos_view(infos@), self.pos as int)),
            decreases count - i,
        {
            let ghost before = infos@;
            match self.read_info() {
                Ok(t) => {
                    infos.push(t);
                    assert(infos_view(infos@) =~= infos_view(before).push(t@));
                },
                Err(e) => {
                    proof {
                        lemma_infos_stop(d, start, (i + 1) as nat, count as nat);
                    }
                    return Err(e);
                },
            }
            i += 1;
        }
        Ok(infos)
    }

    fn read_header(&mut self) -> (r: Result<(NameMap<GgufValue>, Vec<TensorInfo>), GgufError>)
        requires
            old(self).wf(),
            old(self).pos == 0,
        ensures
            final(self).wf(),
            final(self).data == old(self).data,
            reads(
                r,
                |h: (NameMap<GgufValue>, Vec<TensorInfo>)| (meta_map(h.0@), infos_view(h.1@)),
                final(self).pos,
                p_header(old(self).data@),
            ),
    {
        let magic = match self.read_bytes(4) {
            Ok(v) => v,
            Err(e) => return Err(e),
        };
        if !(magic[0] == 0x47 && magic[1] == 0x47 && magic[2] == 0x55 && magic[3] == 0x46) {
            proof {
                let m = seq![0x47u8, 0x47u8, 0x55u8, 0x46u8];
                assert(magic@[0] != m[0] || magic@[1] != m[1] || magic@[2] != m[2] || magic@[3]
                    != m[3]);
            }
            return Err(GgufError::BadMagic);
        }
        assert(magic@ =~= seq![0x47u8, 0x47u8, 0x55u8, 0x46u8]);
        let version: u32 = match self.read_u32() {
            Ok(v) => v,
            Err(e) => return Err(e),
        };
        if version != 2 && version != 3 {
            return Err(GgufError::UnsupportedVersion(version));
        }
        let tensors: u64 = match self.read_u64() {
            Ok(v) => v,
            Err(e) => return Err(e),
        };
        let entries: u64 = match self.read_u64() {
            Ok(v) => v,
            Err(e) => return Err(e),
        };
        if tensors > MAX_REASONABLE_COUNT {
            return Err(GgufError::TooManyTensors(tensors));
        }
        if entries > MAX_REASONABLE_COUNT {
            return Err(GgufError::TooManyMetadata(entries));
        }
        let m = match self.read_metadata(entries) {
            Ok(v) => v,
            Err(e) => return Err(e),
        };
        match self.read_infos(tensors) {
            Ok(infos) => Ok((m, infos)),
            Err(e) => Err(e),
        }
    }
}

/// The bytes that `elem_count` elements of type `dtype` take up in a file.
pub fn dtype_byte_len(dtype: WeightDtype, elem_count: usize) -> (r: Result<usize, GgufError>)
    ensures
        r == (match byte_len(dtype, elem_count as nat) {
            None => Err(GgufError::UnknownLength),
            Some(len) => if len > usize::MAX {
                Err(GgufError::TooLarge)
            } else {
                Ok(len as usize)
            },
        }),
{
    let blocks: usize = elem_count / 32 + if elem_count % 32 == 0 { 0 } else { 1 };
    assert(blocks == (elem_count + 31) / 32);
    let len: Option<usize> = match dtype {
        WeightDtype::F32 => elem_count.checked_mul(4),
        WeightDtype::F16 | WeightDtype::BF16 => elem_count.checked_mul(2),
        WeightDtype::I8 => Some(elem_count),
        WeightDtype::Q8_0 => blocks.checked_mul(34),
        WeightDtype::Q4_0 => blocks.checked_mul(18),
        WeightDtype::Q4_K => return Err(GgufError::UnknownLength),
    };
    match len {
        Some(n) => Ok(n),
        None => Err(GgufError::TooLarge),
    }
}

proof fn lemma_elements_zero(shape: Seq<usize>, i: int)
    requires
        0 <= i < shape.len(),
        shape[i] == 0,
    ensures
        elements(shape) == 0,
    decreases shape.len(),
{
    if i < shape.len() - 1 {
        lemma_elements_zero(shape.drop_last(), i);
    }
    assert(elements(shape.drop_last()) * shape.last() == 0) by (nonlinear_arith)
        requires
            elements(shape.drop_last()) == 0 || shape.last() == 0,
    ;
}

proof fn lemma_elements_prefix(shape: Seq<usize>, k: int)
    requires
        0 <= k <= shape.len(),
        forall|i: int| 0 <= i < shape.len() ==> shape[i] > 0,
    ensures
        elements(shape.take(k)) <= elements(shape),
    decreases shape.len(),
{
    if k < shape.len() {
        let rest = shape.drop_last();
        assert(rest.take(k) =~= shape.take(k));
        lemma_elements_prefix(rest, k);
        let a = elements(rest);
        let b = shape.last() as nat;
        assert(a <= a * b) by (nonlinear_arith)
            requires
                b >= 1,
        ;
    } else {
        assert(shape.take(k) =~= shape);
    }
}

/// The number of elements of a shape, where the machine can count them.
pub fn element_count(shape: &Vec<usize>) -> (r: Option<usize>)
    ensures
        match r {
            Some(n) => elements(shape@) == n,
            None => elements(shape@) > usize::MAX,
        },
{
    let mut i: usize = 0;
    while i < shape.len()
        invariant
            i <= shape.len(),
            forall|k: int| 0 <= k < i ==> shape@[k] > 0,
        decreases shape.len() - i,
    {
        if shape[i] == 0 {
            proof {
                lemma_elements_zero(shape@, i as int);
            }
            return Some(0);
        }
        i += 1;
    }
    let mut n: usize = 1;
    let mut j: usize = 0;
    assert(shape@.take(0) =~= seq![]);
    while j < shape.len()
        invariant
            j <= shape.len(),
            forall|k: int| 0 <= k < shape.len() ==> shape@[k] > 0,
            n == elements(shape@.take(j as int)),
            n >= 1,
        decreases shape.len() - j,
    {
        let dim: usize = shape[j];
        proof {
            assert(shape@.take(j + 1).drop_last() =~= shape@.take(j as int));
            lemma_elements_prefix(shape@, j + 1);
            assert(n as nat * dim as nat >= dim) by (nonlinear_arith)
                requires
                    n >= 1,
            ;
            assert(n as nat * dim as nat >= n) by (nonlinear_arith)
                requires
                    dim >= 1,
            ;
        }
        match n.checked_mul(dim) {
            Some(v) => {
                n = v;
            },
            None => return None,
        }
        j += 1;
    }
    assert(shape@.take(j as int) =~= shape@);
    Some(n)
}

fn place_tensor(size: usize, start: Option<usize>, info: &TensorInfo, Ghost(at): Ghost<int>) -> (r:
    Result<(usize, usize), GgufError>)
    requires
        match start {
            Some(s) => s == at,
            None => at > usize::MAX,
        },
    ensures
        match r {
            Ok((offset, len)) => stored(size as nat, at, info@) == Ok::<
                StoredTensor<Seq<usize>>,
                GgufError,
            >(StoredTensor { offset, len, shape: info@.shape, dtype: info.dtype }),
            Err(e) => stored(size as nat, at, info@) == Err::<StoredTensor<Seq<usize>>, GgufError>(e),
        },
{
    let start: usize = match start {
        Some(s) => s,
        None => return Err(GgufError::OffsetBeyondEnd),
    };
    if start > size || info.offset > (size - start) as u64 {
        return Err(GgufError::OffsetBeyondEnd);
    }
    let offset: usize = start + info.offset as usize;
    let n: usize = match element_count(&info.shape) {
        Some(n) => n,
        None => return Err(GgufError::TooLarge),
    };
    let len: usize = match dtype_byte_len(info.dtype, n) {
        Ok(len) => len,
        Err(e) => return Err(e),
    };
    if len > size - offset {
        return Err(GgufError::TruncatedTensor);
    }
    Ok((offset, len))
}

/// Every tensor lies within a file of `size` bytes.
pub open spec fn within(size: nat, tensors: Map<Text, StoredTensor<Seq<usize>>>) -> bool {
    forall|name: Text| #[trigger]
        tensors.contains_key(name) ==> tensors[name].offset + tensors[name].len <= size
}

/// One tensor's bytes, with its shape and element type.
pub struct TensorView<'a> {
    pub data: &'a [u8],
    pub shape: Vec<usize>,
    pub dtype: WeightDtype,
}

/// A parsed GGUF file over the bytes that it was read from.
pub struct GgufFile<'a> {
    data: &'a [u8],
    metadata: NameMap<GgufValue>,
    tensor_meta: NameMap<StoredTensor>,
}

impl<'a> GgufFile<'a> {
    /// The bytes of the file.
    pub closed spec fn bytes(self) -> Seq<u8> {
        self.data@
    }

    /// The places of the tensors.
    pub closed spec fn tensors(self) -> Map<Text, StoredTensor<Seq<usize>>> {
        stored_map(self.tensor_meta@)
    }

    /// The metadata.
    pub closed spec fn entries(self) -> Map<Text, GgufValue> {
        self.metadata@
    }

    #[verifier::type_invariant]
    spec fn inv(self) -> bool {
        within(self.data@.len(), stored_map(self.tensor_meta@))
    }

    /// The metadata.
    pub fn metadata(&self) -> (m: &NameMap<GgufValue>)
        ensures
            m@ == self.entries(),
    {
        &self.metadata
    }

    /// The bytes, shape and element type of one tensor.
    pub fn tensor(&self, name: &str) -> (r: Option<TensorView<'_>>)
        ensures
            match r {
                Some(v) => {
                    let t = self.tensors()[name@];
                    &&& self.tensors().contains_key(name@)
                    &&& t.offset + t.len <= self.bytes().len()
                    &&& v.data@ == self.bytes().subrange(
                        t.offset as int,
                        t.offset as int + t.len as int,
                    )
                    &&& v.shape@ == t.shape
                    &&& v.dtype == t.dtype
                },
                None => !self.tensors().contains_key(name@),
            },
    {
        proof {
            use_type_invariant(self);
        }
        match self.tensor_meta.get(name) {
            Some(meta) => {
                let ghost t = self.tensors()[name@];
                let size: usize = self.data.len();
                assert(stored_map(self.tensor_meta@).contains_key(name@));
                assert(t.offset + t.len <= size);
                let data = vstd::slice::slice_subrange(
                    self.data,
                    meta.offset,
                    meta.offset + meta.len,
                );
                let shape = copy_dims(&meta.shape);
                Some(TensorView { data, shape, dtype: meta.dtype })
            },
            None => None,
        }
    }

    /// Whether the file has a tensor of that name.
    pub fn contains_tensor(&self, name: &str) -> (b: bool)
        ensures
            b == self.tensors().contains_key(name@),
    {
        self.tensor_meta.contains_key(name)
    }

    /// The names of the tensors.
    pub fn tensor_names(&self) -> (names: Vec<String>)
        ensures
            forall|name: Text|
                self.tensors().contains_key(name) <==> crate::text::texts(names@).contains(name),
            crate::text::texts(names@).no_duplicates(),
    {
        let names = self.tensor_meta.all_names();
        assert forall|name: Text|
            self.tensors().contains_key(name) <==> crate::text::texts(names@).contains(name) by {
            assert(self.tensors().contains_key(name) == self.tensor_meta@.contains_key(name));
        }
        names
    }
}

fn copy_dims(dims: &Vec<usize>) -> (out: Vec<usize>)
    ensures
        out@ == dims@,
{
    let mut out: Vec<usize> = Vec::new();
    let mut i: usize = 0;
    while i < dims.len()
        invariant
            i <= dims.len(),
            out@ == dims@.take(i as int),
        decreases dims.len() - i,
    {
        out.push(dims[i]);
        i += 1;
    }
    assert(dims@.take(i as int) =~= dims@);
    out
}

proof fn lemma_stored_within(size: nat, start: int, infos: Seq<TensorInfo<Text, Seq<usize>>>)
    requires
        start >= 0,
    ensures
        stored_all(size, start, infos) matches Ok(m) ==> within(size, m),
    decreases infos.len(),
{
    if infos.len() > 0 {
        lemma_stored_within(size, start, infos.drop_last());
    }
}

fn read_alignment(m: &NameMap<GgufValue>) -> (a: usize)
    ensures
        a == alignment(meta_map(m@)),
{
    match m.get("general.alignment") {
        Some(GgufValue::U32(a)) => *a as usize,
        Some(GgufValue::U8(a)) => *a as usize,
        Some(GgufValue::I32(a)) => *a as usize,
        _ => 32,
    }
}

fn place_tensors(
    size: usize,
    start: Option<usize>,
    infos: Vec<TensorInfo>,
    Ghost(at): Ghost<int>,
) -> (r: Result<NameMap<StoredTensor>, GgufError>)
    requires
        match start {
            Some(s) => s == at,
            None => at > usize::MAX,
        },
    ensures
        match r {
            Ok(m) => stored_all(size as nat, at, infos_view(infos@)) == Ok::<
                Map<Text, StoredTensor<Seq<usize>>>,
                GgufError,
            >(stored_map(m@)),
            Err(e) => stored_all(size as nat, at, infos_view(infos@)) == Err::<
                Map<Text, StoredTensor<Seq<usize>>>,
                GgufError,
            >(e),
        },
{
    let ghost all = infos_view(infos@);
    let mut m: NameMap<StoredTensor> = NameMap::new();
    assert(stored_map(m@) =~= Map::empty());
    assert(all.take(0) =~= seq![]);
    let mut i: usize = 0;
    while i < infos.len()
        invariant
            i <= infos.len(),
            all == infos_view(infos@),
            match start {
                Some(s) => s == at,
                None => at > usize::MAX,
            },
            stored_all(size as nat, at, all.take(i as int)) == Ok::<
                Map<Text, StoredTensor<Seq<usize>>>,
                GgufError,
            >(stored_map(m@)),
        decreases infos.len() - i,
    {
        let ghost before = m@;
        let info = &infos[i];
        proof {
            assert(all.take(i + 1).drop_last() =~= all.take(i as int));
            assert(all.take(i + 1).last() == info@);
        }
        match place_tensor(size, start, info, Ghost(at)) {
            Ok((offset, len)) => {
                if m.contains_key(&info.name) {
                    proof {
                        lemma_stored_stop(size as nat, at, all, i + 1);
                    }
                    return Err(GgufError::DuplicateTensor);
                }
                let t = StoredTensor {
                    offset,
                    len,
                    shape: copy_dims(&info.shape),
                    dtype: info.dtype,
                };
                m.insert(info.name.clone(), t);
                assert(stored_map(m@) =~= stored_map(before).insert(info@.name, t@));
            },
            Err(e) => {
                proof {
                    lemma_stored_stop(size as nat, at, all, i + 1);
                }
                return Err(e);
            },
        }
        i += 1;
    }
    assert(all.take(i as int) =~= all);
    Ok(m)
}

/// Parses a GGUF file. Every tensor of the result lies within the file.
pub fn load_gguf<'a>(data: &'a [u8]) -> (r: Result<GgufFile<'a>, GgufError>)
    ensures
        match r {
            Ok(f) => {
                &&& gguf(data@) == Ok::<
                    (Map<Text, Meta>, Map<Text, StoredTensor<Seq<usize>>>),
                    GgufError,
                >((meta_map(f.entries()), f.tensors()))
                &&& f.bytes() == data@
                &&& within(data@.len(), f.tensors())
            },
            Err(e) => gguf(data@) == Err::<
                (Map<Text, Meta>, Map<Text, StoredTensor<Seq<usize>>>),
                GgufError,
            >(e),
        },
{
    let mut reader = Reader::new(data);
    let (metadata, infos) = match reader.read_header() {
        Ok(h) => h,
        Err(e) => return Err(e),
    };
    let align: usize = read_alignment(&metadata);
    if align == 0 {
        return Err(GgufError::ZeroAlignment);
    }
    let header: usize = reader.pos;
    let padding: usize = (align - header % align) % align;
    let start: Option<usize> = header.checked_add(padding);
    let ghost at = data_start(header as int, align as int);
    proof {
        lemma_stored_within(data@.len(), at, infos_view(infos@));
    }
    match place_tensors(data.len(), start, infos, Ghost(at)) {
        Ok(tensor_meta) => Ok(GgufFile { data, metadata, tensor_meta }),
        Err(e) => Err(e),
    }
}

} // verus!

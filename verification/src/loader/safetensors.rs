//! Safetensors files.
use vstd::prelude::*;
use vstd::utf8::{
    decode_utf8, encode_utf8, encode_utf8_decode_utf8, encode_utf8_valid_utf8, valid_utf8,
};
use crate::json::{
    array_of, as_array, as_u64, at, field, get, parse_json, parsed_json, u64_of, Json,
};
use crate::loader::gguf::{p_uint, utf8_text, Reader};
use crate::loader::gguf_written::{lemma_fit, lemma_put, lemma_put_len, put};
use crate::names::NameMap;
use crate::text::{same, texts, Text};
use crate::types::WeightDtype;

verus! {

/// A tensor of an archive: its element type's name, its shape and its bytes.
pub ghost struct Archived {
    pub dtype: Seq<char>,
    pub shape: Seq<usize>,
    pub data: Seq<u8>,
}

/// The tensors of an archive by name, if the bytes are a safetensors archive.
pub uninterp spec fn archive(bytes: Seq<u8>) -> Option<Map<Seq<char>, Archived>>;

/// One tensor of an archive as it was found.
pub struct RawTensor<'a> {
    pub name: String,
    pub dtype: String,
    pub shape: Vec<usize>,
    pub data: &'a [u8],
}

impl<'a> RawTensor<'a> {
    /// The tensor without its representation.
    pub open spec fn archived(self) -> Archived {
        Archived { dtype: self.dtype@, shape: self.shape@, data: self.data@ }
    }
}

/// `tensors` lists a map of tensors, each once, in some order.
pub open spec fn lists(tensors: Seq<RawTensor<'_>>, m: Map<Text, Archived>) -> bool {
    &&& forall|i: int, j: int|
        #![trigger tensors[i], tensors[j]]
        0 <= i < j < tensors.len() ==> tensors[i].name@ != tensors[j].name@
    &&& forall|i: int|
        #![trigger tensors[i]]
        0 <= i < tensors.len() ==> m.contains_key(tensors[i].name@) && m[tensors[i].name@]
            == tensors[i].archived()
    &&& forall|name: Text| #[trigger]
        m.contains_key(name) ==> exists|i: int|
            0 <= i < tensors.len() && (#[trigger] tensors[i]).name@ == name
}

/// The text of an archive's header: its length stands in the first eight bytes,
/// and it follows them.
pub open spec fn header(bytes: Seq<u8>) -> Option<Text> {
    match p_uint(bytes, 0, 8) {
        Ok((n, _)) => {
            let text = bytes.subrange(8, 8 + n as int);
            if 8 + n <= bytes.len() && valid_utf8(text) {
                Some(decode_utf8(text))
            } else {
                None
            }
        },
        Err(_) => None,
    }
}

/// The second number of a list.
pub open spec fn second(o: Option<Json>) -> Option<u64> {
    match array_of(o) {
        Some(items) => if items.len() >= 2 {
            u64_of(Some(items[1]))
        } else {
            None
        },
        None => None,
    }
}

/// Where an entry of the header says that its tensor ends. The entry names its
/// fields, or lists them in order.
pub open spec fn declared_end(e: Json) -> Option<u64> {
    match e {
        Json::Object(_) => second(field(e, "data_offsets"@)),
        Json::Array(items) => if items@.len() >= 3 {
            second(Some(items@[2]))
        } else {
            None
        },
        _ => None,
    }
}

/// No entry of a header says that its tensor ends behind `len` bytes.
pub open spec fn ends_within(j: Json, len: nat) -> bool {
    match j {
        Json::Object(entries) => forall|i: int|
            0 <= i < entries@.len() ==> (declared_end((#[trigger] entries@[i]).1) matches Some(end)
                ==> end <= len),
        _ => true,
    }
}

/// The bytes have a header that is JSON, and it claims no more bytes than there
/// are.
pub open spec fn readable(bytes: Seq<u8>) -> bool {
    header(bytes) matches Some(text) && parsed_json(text) matches Some(j) && ends_within(
        j,
        bytes.len(),
    )
}

/// The tensors of a safetensors file by name, if the bytes are one.
pub open spec fn contents(bytes: Seq<u8>) -> Option<Map<Text, Archived>> {
    if readable(bytes) {
        archive(bytes)
    } else {
        None
    }
}

fn read_second(o: Option<&Json>) -> (r: Option<u64>)
    ensures
        r == second(at(o)),
{
    match as_array(o) {
        Some(items) => if items.len() >= 2 {
            as_u64(Some(&items[1]))
        } else {
            None
        },
        None => None,
    }
}

fn read_end(e: &Json) -> (r: Option<u64>)
    ensures
        r == declared_end(*e),
{
    match e {
        Json::Object(_) => read_second(get(e, "data_offsets")),
        Json::Array(items) => if items.len() >= 3 {
            read_second(Some(&items[2]))
        } else {
            None
        },
        _ => None,
    }
}

fn claims_within(j: &Json, len: usize) -> (b: bool)
    ensures
        b == ends_within(*j, len as nat),
{
    match j {
        Json::Object(entries) => {
            let mut i: usize = 0;
            while i < entries.len()
                invariant
                    *j == Json::Object(*entries),
                    i <= entries@.len(),
                    forall|k: int|
                        0 <= k < i ==> (declared_end((#[trigger] entries@[k]).1) matches Some(end)
                            ==> end <= len),
                decreases entries@.len() - i,
            {
                if let Some(end) = read_end(&entries[i].1) {
                    if end > len as u64 {
                        assert(declared_end(entries@[i as int].1) == Some(end));
                        return false;
                    }
                }
                i += 1;
            }
            true
        },
        _ => true,
    }
}

/// Whether a file can be handed to the parser.
fn is_readable(data: &[u8]) -> (b: bool)
    ensures
        b == readable(data@),
{
    let mut reader = Reader::new(data);
    let n: usize = match reader.read_u64() {
        Ok(n) => if n > data.len() as u64 {
            return false;
        } else {
            n as usize
        },
        Err(_) => return false,
    };
    if n > data.len() - 8 {
        return false;
    }
    let text = match utf8_text(vstd::slice::slice_subrange(data, 8, 8 + n)) {
        Some(text) => text,
        None => return false,
    };
    match parse_json(&text) {
        Ok(j) => claims_within(&j, data.len()),
        Err(_) => false,
    }
}

/// Trusted: `safetensors::SafeTensors::deserialize` accepts or refuses the
/// bytes, and `SafeTensors::tensors` lists the tensors of an accepted archive,
/// each once, in an order that is left open. What an archive holds depends on
/// its bytes alone. What the error says is left open. Bytes whose header claims
/// more than there is are left out: the parser adds up what is claimed.
#[verifier::external_body]
fn open_archive<'a>(data: &'a [u8]) -> (r: Result<Vec<RawTensor<'a>>, String>)
    requires
        readable(data@),
    ensures
        match r {
            Ok(tensors) => archive(data@) matches Some(m) && lists(tensors@, m),
            Err(_) => archive(data@) is None,
        },
{
    let opened = safetensors::SafeTensors::deserialize(data).map_err(|e| e.to_string())?;
    let mut tensors: Vec<RawTensor<'a>> = Vec::new();
    for (name, t) in opened.tensors() {
        let (dtype, shape) = (format!("{:?}", t.dtype()), t.shape().to_vec());
        tensors.push(RawTensor { name, dtype, shape, data: t.data() });
    }
    Ok(tensors)
}

/// The element type behind a safetensors type name.
pub open spec fn archive_dtype(name: Text) -> Option<WeightDtype> {
    if name == "F32"@ {
        Some(WeightDtype::F32)
    } else if name == "F16"@ {
        Some(WeightDtype::F16)
    } else if name == "BF16"@ {
        Some(WeightDtype::BF16)
    } else if name == "I8"@ {
        Some(WeightDtype::Q8_0)
    } else {
        None
    }
}

fn read_dtype(name: &str) -> (d: Option<WeightDtype>)
    ensures
        d == archive_dtype(name@),
{
    if same(name, "F32") {
        Some(WeightDtype::F32)
    } else if same(name, "F16") {
        Some(WeightDtype::F16)
    } else if same(name, "BF16") {
        Some(WeightDtype::BF16)
    } else if same(name, "I8") {
        Some(WeightDtype::Q8_0)
    } else {
        None
    }
}

/// One tensor's bytes, with its shape and element type.
pub struct SafeTensorView<'a> {
    pub data: &'a [u8],
    pub shape: Vec<usize>,
    pub dtype: WeightDtype,
}

/// A tensor view says what the archive holds.
pub open spec fn shows(v: SafeTensorView<'_>, a: Archived) -> bool {
    v.data@ == a.data && v.shape@ == a.shape && archive_dtype(a.dtype) == Some(v.dtype)
}

/// A parsed safetensors file over the bytes that it was read from.
pub struct SafeTensorsFile<'a> {
    tensors: NameMap<SafeTensorView<'a>>,
}

/// Why a file cannot be read.
#[derive(Debug)]
pub enum SafeTensorsError {
    /// Not an archive; what the parser says of it.
    Malformed(String),
    /// A tensor has an element type that is not supported.
    UnsupportedDtype(String),
}

impl<'a> SafeTensorsFile<'a> {
    /// The tensors by name.
    pub closed spec fn tensors(self) -> Map<Text, SafeTensorView<'a>> {
        self.tensors@
    }

    /// The bytes, shape and element type of one tensor.
    pub fn tensor(&self, name: &str) -> (r: Option<&SafeTensorView<'a>>)
        ensures
            match r {
                Some(v) => self.tensors().contains_key(name@) && *v == self.tensors()[name@],
                None => !self.tensors().contains_key(name@),
            },
    {
        self.tensors.get(name)
    }

    /// Whether the file has a tensor of that name.
    pub fn contains_tensor(&self, name: &str) -> (b: bool)
        ensures
            b == self.tensors().contains_key(name@),
    {
        self.tensors.contains_key(name)
    }

    /// The names of the tensors.
    pub fn tensor_names(&self) -> (names: Vec<String>)
        ensures
            forall|name: Text|
                self.tensors().contains_key(name) <==> texts(names@).contains(name),
            texts(names@).no_duplicates(),
    {
        self.tensors.all_names()
    }
}

/// The file shows every tensor of the archive.
pub open spec fn shows_all(
    tensors: Map<Text, SafeTensorView<'_>>,
    m: Map<Text, Archived>,
) -> bool {
    &&& forall|name: Text| #[trigger] tensors.contains_key(name) <==> m.contains_key(name)
    &&& forall|name: Text| #[trigger]
        tensors.contains_key(name) ==> shows(tensors[name], m[name])
}

/// Every tensor of the archive has a supported element type.
pub open spec fn supported(m: Map<Text, Archived>) -> bool {
    forall|name: Text| #[trigger]
        m.contains_key(name) ==> archive_dtype(m[name].dtype) is Some
}

/// Some tensor of the archive has this element type.
pub open spec fn has_dtype(m: Map<Text, Archived>, dtype: Text) -> bool {
    exists|name: Text| #[trigger] m.contains_key(name) && m[name].dtype == dtype
}

/// Sorts out the tensors of an archive.
pub fn index_tensors<'a>(tensors: Vec<RawTensor<'a>>) -> (r: Result<
    SafeTensorsFile<'a>,
    SafeTensorsError,
>)
    ensures
        forall|m: Map<Text, Archived>| #[trigger]
            lists(tensors@, m) ==> match r {
                Ok(f) => supported(m) && shows_all(f.tensors(), m),
                Err(SafeTensorsError::UnsupportedDtype(d)) => archive_dtype(d@) is None
                    && has_dtype(m, d@),
                Err(_) => false,
            },
{
    let ghost all = tensors@;
    let mut rest = tensors;
    let mut indexed: NameMap<SafeTensorView<'a>> = NameMap::new();
    while rest.len() > 0
        invariant
            all == tensors@,
            rest@.len() <= all.len(),
            rest@ == all.take(rest@.len() as int),
            forall|name: Text|
                #![trigger indexed@.contains_key(name)]
                indexed@.contains_key(name) ==> exists|i: int|
                    rest@.len() <= i < all.len() && (#[trigger] all[i]).name@ == name && shows(
                        indexed@[name],
                        all[i].archived(),
                    ),
            forall|i: int|
                #![trigger all[i]]
                rest@.len() <= i < all.len() ==> indexed@.contains_key(all[i].name@)
                    && archive_dtype(all[i].dtype@) is Some,
        decreases rest@.len(),
    {
        let ghost n = rest@.len() - 1;
        let ghost before = indexed@;
        let t = rest.pop().unwrap();
        assert(t == all[n]);
        assert(rest@ =~= all.take(n));
        match read_dtype(&t.dtype) {
            None => {
                proof {
                    assert forall|m: Map<Text, Archived>| #[trigger] lists(all, m) implies has_dtype(
                        m,
                        t.dtype@,
                    ) by {
                        assert(m.contains_key(all[n].name@));
                    }
                }
                return Err(SafeTensorsError::UnsupportedDtype(t.dtype));
            },
            Some(dtype) => {
                let ghost key = t.name@;
                let view = SafeTensorView { data: t.data, shape: t.shape, dtype };
                assert(shows(view, all[n].archived()));
                indexed.insert(t.name, view);
                proof {
                    assert forall|name: Text|
                        #![trigger indexed@.contains_key(name)]
                        indexed@.contains_key(name) implies exists|i: int|
                        n <= i < all.len() && (#[trigger] all[i]).name@ == name && shows(
                            indexed@[name],
                            all[i].archived(),
                        ) by {
                        if name == key {
                            assert(all[n].name@ == name);
                        } else {
                            assert(before.contains_key(name));
                            let i = choose|i: int|
                                n + 1 <= i < all.len() && (#[trigger] all[i]).name@ == name
                                    && shows(before[name], all[i].archived());
                            assert(all[i].name@ == name);
                        }
                    }
                }
            },
        }
    }
    proof {
        assert forall|m: Map<Text, Archived>| #[trigger] lists(all, m) implies supported(m)
            && shows_all(indexed@, m) by {
            assert forall|name: Text| #[trigger] m.contains_key(name) implies archive_dtype(
                m[name].dtype,
            ) is Some && indexed@.contains_key(name) by {
                let i = choose|i: int| 0 <= i < all.len() && (#[trigger] all[i]).name@ == name;
                assert(all[i].archived() == m[name]);
            }
            assert forall|name: Text| #[trigger] indexed@.contains_key(name) implies m.contains_key(
                name,
            ) && shows(indexed@[name], m[name]) by {
                let i = choose|i: int|
                    0 <= i < all.len() && (#[trigger] all[i]).name@ == name && shows(
                        indexed@[name],
                        all[i].archived(),
                    );
                assert(all[i].archived() == m[name]);
            }
        }
    }
    Ok(SafeTensorsFile { tensors: indexed })
}

/// Parses a safetensors file.
pub fn load_safetensors<'a>(data: &'a [u8]) -> (r: Result<SafeTensorsFile<'a>, SafeTensorsError>)
    ensures
        match contents(data@) {
            None => r matches Err(SafeTensorsError::Malformed(_)),
            Some(m) => match r {
                Ok(f) => supported(m) && shows_all(f.tensors(), m),
                Err(SafeTensorsError::UnsupportedDtype(d)) => archive_dtype(d@) is None
                    && has_dtype(m, d@),
                Err(_) => false,
            },
        },
{
    if !is_readable(data) {
        return Err(SafeTensorsError::Malformed("the header cannot be read".to_string()));
    }
    match open_archive(data) {
        Ok(tensors) => {
            assert(lists(tensors@, archive(data@)->0));
            index_tensors(tensors)
        },
        Err(e) => Err(SafeTensorsError::Malformed(e)),
    }
}

/// Each type name stands for its own element type, and no other name for any.
pub proof fn law_types_are_told(name: Text)
    ensures
        archive_dtype("F32"@) == Some(WeightDtype::F32),
        archive_dtype("F16"@) == Some(WeightDtype::F16),
        archive_dtype("BF16"@) == Some(WeightDtype::BF16),
        archive_dtype("I8"@) == Some(WeightDtype::Q8_0),
        archive_dtype(name) is Some <==> name == "F32"@ || name == "F16"@ || name == "BF16"@ || name
            == "I8"@,
{
    reveal_strlit("F32");
    reveal_strlit("F16");
    reveal_strlit("BF16");
    reveal_strlit("I8");
    assert("F32"@.len() == 3);
    assert("F16"@.len() == 3);
    assert("BF16"@.len() == 4);
    assert("I8"@.len() == 2);
    assert("F32"@[1] != "F16"@[1]);
}

/// A header that was written behind its length is read back.
pub proof fn law_header_reads_back(text: Text, rest: Seq<u8>)
    requires
        encode_utf8(text).len() < 0x1_0000_0000_0000_0000,
    ensures
        header(put(encode_utf8(text).len(), 8) + encode_utf8(text) + rest) == Some(text),
{
    let bytes = encode_utf8(text);
    let d = put(bytes.len(), 8) + bytes + rest;
    lemma_fit(bytes.len());
    lemma_put_len(bytes.len(), 8);
    assert(d.subrange(0, 8) =~= put(bytes.len(), 8));
    lemma_put(d, 0, bytes.len(), 8);
    assert(d.subrange(8, 8 + bytes.len() as int) =~= bytes);
    encode_utf8_valid_utf8(text);
    encode_utf8_decode_utf8(text);
}

/// An entry that names its fields, or lists them in order, ends where the
/// second of its offsets says.
pub proof fn law_end_is_declared(e: Json, items: Seq<Json>, offsets: Seq<Json>)
    ensures
        e is Object && array_of(field(e, "data_offsets"@)) == Some(offsets) && offsets.len() >= 2
            ==> declared_end(e) == u64_of(Some(offsets[1])),
        e matches Json::Array(list) ==> (list@ == items && items.len() >= 3 && array_of(
            Some(items[2]),
        ) == Some(offsets) && offsets.len() >= 2 ==> declared_end(e) == u64_of(Some(offsets[1]))),
{
}

/// A file whose header is JSON and claims no more bytes than there are holds
/// what the archive holds; any other file is none.
pub proof fn law_readable_files(bytes: Seq<u8>, text: Text, j: Json)
    requires
        header(bytes) == Some(text),
    ensures
        parsed_json(text) is None ==> contents(bytes) is None,
        parsed_json(text) == Some(j) && ends_within(j, bytes.len()) ==> contents(bytes) == archive(
            bytes,
        ),
        parsed_json(text) == Some(j) && !ends_within(j, bytes.len()) ==> contents(bytes) is None,
        j matches Json::Object(entries) ==> (ends_within(j, bytes.len()) <==> forall|i: int|
            0 <= i < entries@.len() ==> (declared_end((#[trigger] entries@[i]).1) is None
                || declared_end(entries@[i].1)->0 <= bytes.len())),
{
}

} // verus!

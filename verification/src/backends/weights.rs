//! Reading model metadata by key, and where a weight comes from.
use vstd::prelude::*;
use crate::loader::gguf::{GgufValue, Meta};
use crate::names::NameMap;
use crate::text::{ends, ends_with, join2, same, texts, Text};
use crate::types::Real;

verus! {

/// A metadata table as it was read: each key once, in the order of the file.
pub type GgufMeta = NameMap<GgufValue>;

/// The value under `key`.
pub open spec fn value_at(m: GgufMeta, key: Text) -> Option<Meta> {
    if m@.contains_key(key) {
        Some(m@[key].meta())
    } else {
        None
    }
}

/// An integer of any width, cut to 32 bits.
pub open spec fn word(v: Meta) -> Option<u32> {
    match v {
        Meta::U8(v) => Some(v as u32),
        Meta::I8(v) => Some(v as u32),
        Meta::U16(v) => Some(v as u32),
        Meta::I16(v) => Some(v as u32),
        Meta::U32(v) => Some(v),
        Meta::I32(v) => Some(v as u32),
        Meta::U64(v) => Some(v as u32),
        Meta::I64(v) => Some(v as u32),
        _ => None,
    }
}

/// An integer that stands for its whole array. Fewer widths are read there.
pub open spec fn first_word(v: Meta) -> Option<u32> {
    match v {
        Meta::U8(v) => Some(v as u32),
        Meta::U16(v) => Some(v as u32),
        Meta::U32(v) => Some(v),
        Meta::I32(v) => Some(v as u32),
        Meta::U64(v) => Some(v as u32),
        _ => None,
    }
}

/// The integer under `key`: the value itself, or the first of an array.
pub open spec fn u32_at(m: GgufMeta, key: Text) -> Option<u32> {
    match value_at(m, key) {
        Some(Meta::Array(items)) => if items.len() > 0 {
            first_word(items[0])
        } else {
            None
        },
        Some(v) => word(v),
        None => None,
    }
}

/// A floating point number of either width.
pub open spec fn number(v: Meta) -> Option<Real> {
    match v {
        Meta::F32(b) => Some(Real::Single(b)),
        Meta::F64(b) => Some(Real::Double(b)),
        _ => None,
    }
}

/// The floating point number under `key`: the value itself, or the first of
/// an array.
pub open spec fn real_at(m: GgufMeta, key: Text) -> Option<Real> {
    match value_at(m, key) {
        Some(Meta::Array(items)) => if items.len() > 0 {
            number(items[0])
        } else {
            None
        },
        Some(v) => number(v),
        None => None,
    }
}

/// The first of the first `n` keys that ends in `tail`.
pub open spec fn first_ending(entries: Seq<(String, GgufValue)>, tail: Text, n: nat) -> Option<Text>
    decreases n,
{
    if n == 0 || n > entries.len() {
        None
    } else {
        match first_ending(entries, tail, (n - 1) as nat) {
            Some(key) => Some(key),
            None => if ends(entries[n - 1].0@, tail) {
                Some(entries[n - 1].0@)
            } else {
                None
            },
        }
    }
}

/// The key that `suffix` stands for: itself, or the first that ends in it
/// after a dot.
pub open spec fn key_for(m: GgufMeta, suffix: Text) -> Option<Text> {
    if m@.contains_key(suffix) {
        Some(suffix)
    } else {
        first_ending(m.items(), "."@ + suffix, m.items().len())
    }
}

/// The integer under the key that `suffix` stands for.
pub open spec fn u32_under(m: GgufMeta, suffix: Text) -> Option<u32> {
    match key_for(m, suffix) {
        Some(key) => u32_at(m, key),
        None => None,
    }
}

/// The floating point number under the key that `suffix` stands for.
pub open spec fn real_under(m: GgufMeta, suffix: Text) -> Option<Real> {
    match key_for(m, suffix) {
        Some(key) => real_at(m, key),
        None => None,
    }
}

fn word_of(v: &GgufValue) -> (r: Option<u32>)
    ensures
        r == word(v.meta()),
{
    match v {
        GgufValue::U8(v) => Some(*v as u32),
        GgufValue::I8(v) => Some(*v as u32),
        GgufValue::U16(v) => Some(*v as u32),
        GgufValue::I16(v) => Some(*v as u32),
        GgufValue::U32(v) => Some(*v),
        GgufValue::I32(v) => Some(*v as u32),
        GgufValue::U64(v) => Some(*v as u32),
        GgufValue::I64(v) => Some(*v as u32),
        _ => None,
    }
}

fn first_word_of(v: &GgufValue) -> (r: Option<u32>)
    ensures
        r == first_word(v.meta()),
{
    match v {
        GgufValue::U8(v) => Some(*v as u32),
        GgufValue::U16(v) => Some(*v as u32),
        GgufValue::U32(v) => Some(*v),
        GgufValue::I32(v) => Some(*v as u32),
        GgufValue::U64(v) => Some(*v as u32),
        _ => None,
    }
}

fn number_of(v: &GgufValue) -> (r: Option<Real>)
    ensures
        r == number(v.meta()),
{
    match v {
        GgufValue::F32(b) => Some(Real::Single(*b)),
        GgufValue::F64(b) => Some(Real::Double(*b)),
        _ => None,
    }
}

/// Reads a 32-bit integer out of any integer-typed value.
pub fn meta_u32(metadata: &GgufMeta, key: &str) -> (r: Option<u32>)
    ensures
        r == u32_at(*metadata, key@),
{
    match metadata.get(key) {
        Some(GgufValue::Array(items)) => if items.len() > 0 {
            first_word_of(&items[0])
        } else {
            None
        },
        Some(v) => word_of(v),
        None => None,
    }
}

/// Reads a number out of any float-typed value.
pub fn meta_f32(metadata: &GgufMeta, key: &str) -> (r: Option<Real>)
    ensures
        r == real_at(*metadata, key@),
{
    match metadata.get(key) {
        Some(GgufValue::Array(items)) => if items.len() > 0 {
            number_of(&items[0])
        } else {
            None
        },
        Some(v) => number_of(v),
        None => None,
    }
}

/// The full key that equals `suffix` or ends in it after a dot. Keys carry the
/// architecture as a prefix (`llama.context_length`), so that a caller can
/// pass the suffix alone.
pub fn find_meta_key(metadata: &GgufMeta, suffix: &str) -> (r: Option<String>)
    ensures
        match r {
            Some(key) => key_for(*metadata, suffix@) == Some(key@),
            None => key_for(*metadata, suffix@) is None,
        },
{
    if metadata.contains_key(suffix) {
        return Some(suffix.to_string());
    }
    let tail = join2(".", suffix);
    let n: usize = metadata.len();
    let mut i: usize = 0;
    while i < n
        invariant
            i <= n,
            n == metadata.items().len(),
            tail@ == "."@ + suffix@,
            !metadata@.contains_key(suffix@),
            first_ending(metadata.items(), tail@, i as nat) is None,
        decreases n - i,
    {
        let key = metadata.name_at(i);
        if ends_with(key, &tail) {
            proof {
                lemma_first_stays(metadata.items(), tail@, (i + 1) as nat, n as nat);
            }
            return Some(key.clone());
        }
        i += 1;
    }
    None
}

proof fn lemma_first_stays(entries: Seq<(String, GgufValue)>, tail: Text, n: nat, m: nat)
    requires
        n <= m <= entries.len(),
        first_ending(entries, tail, n) is Some,
    ensures
        first_ending(entries, tail, m) == first_ending(entries, tail, n),
    decreases m,
{
    if n < m {
        lemma_first_stays(entries, tail, n, (m - 1) as nat);
    }
}

/// `meta_u32` by suffix.
pub fn meta_u32_agnostic(metadata: &GgufMeta, suffix: &str) -> (r: Option<u32>)
    ensures
        r == u32_under(*metadata, suffix@),
{
    match find_meta_key(metadata, suffix) {
        Some(key) => meta_u32(metadata, &key),
        None => None,
    }
}

/// `meta_f32` by suffix.
pub fn meta_f32_agnostic(metadata: &GgufMeta, suffix: &str) -> (r: Option<Real>)
    ensures
        r == real_under(*metadata, suffix@),
{
    match find_meta_key(metadata, suffix) {
        Some(key) => meta_f32(metadata, &key),
        None => None,
    }
}

/// A suffix stands for a key of the table, which is the suffix itself or ends
/// in it; and where any key ends in it, it stands for one.
pub proof fn law_suffix_finds_key(m: GgufMeta, suffix: Text, i: int)
    requires
        0 <= i < m.items().len(),
        ends(m.items()[i].0@, "."@ + suffix),
    ensures
        key_for(m, suffix) matches Some(key) && (key == suffix || ends(key, "."@ + suffix)),
{
    let tail = "."@ + suffix;
    lemma_first_is_ending(m.items(), tail, m.items().len());
    if first_ending(m.items(), tail, (i + 1) as nat) is Some {
        lemma_first_stays(m.items(), tail, (i + 1) as nat, m.items().len());
    }
}

proof fn lemma_first_is_ending(entries: Seq<(String, GgufValue)>, tail: Text, n: nat)
    ensures
        first_ending(entries, tail, n) matches Some(key) ==> ends(key, tail),
    decreases n,
{
    if n > 0 {
        lemma_first_is_ending(entries, tail, (n - 1) as nat);
    }
}

/// Bytes that may still go to the accelerator, out of a limit.
#[derive(Debug, Clone, Copy)]
pub struct CacheBudget {
    limit: u64,
    used: u64,
}

impl CacheBudget {
    #[verifier::type_invariant]
    spec fn inv(self) -> bool {
        self.used <= self.limit
    }

    /// All that may ever be taken.
    pub closed spec fn limit(self) -> u64 {
        self.limit
    }

    /// What was taken.
    pub closed spec fn used(self) -> u64 {
        self.used
    }

    /// Nothing taken yet.
    pub fn new(limit: u64) -> (b: Self)
        ensures
            b.limit() == limit,
            b.used() == 0,
    {
        CacheBudget { limit, used: 0 }
    }

    /// What was taken so far. It never exceeds the limit.
    pub fn taken(&self) -> (n: u64)
        ensures
            n == self.used(),
            n <= self.limit(),
    {
        proof {
            use_type_invariant(self);
        }
        self.used
    }

    /// Whether `bytes` more stay within the limit.
    pub fn fits(&self, bytes: u64) -> (r: bool)
        ensures
            r == (self.used() + bytes <= self.limit()),
    {
        proof {
            use_type_invariant(self);
        }
        bytes <= self.limit - self.used
    }

    /// Takes `bytes` where they fit, and says whether they did.
    pub fn take(&mut self, bytes: u64) -> (r: bool)
        ensures
            r == (old(self).used() + bytes <= old(self).limit()),
            final(self).limit() == old(self).limit(),
            final(self).used() == old(self).used() + (if r {
                bytes as int
            } else {
                0
            }),
    {
        if self.fits(bytes) {
            self.used = self.used + bytes;
            true
        } else {
            false
        }
    }
}

/// What the stores hold of one weight.
#[derive(Debug, Clone, Copy, PartialEq, Eq, Structural)]
pub struct Holdings {
    /// At full precision, on the device.
    pub loaded: bool,
    /// In the cache of the running forward pass.
    pub in_pass: bool,
    /// In the cache of dequantized weights.
    pub dequantized: bool,
    /// Quantized: the number of its elements.
    pub quantized: Option<u64>,
}

/// Where a weight comes from.
#[derive(Debug, Clone, Copy, PartialEq, Eq, Structural)]
pub enum WeightSource {
    /// The full-precision store.
    Loaded,
    /// The cache of the running forward pass.
    Pass,
    /// The cache of dequantized weights; the pass keeps it too.
    Dequantized,
    /// To be dequantized on the device and kept.
    OnDevice,
    /// To be dequantized on the device and kept, within the budget.
    OnDeviceCounted,
    /// To be dequantized in system memory and kept.
    OffDevice,
    /// The token embedding of the full-precision store.
    TiedLoaded,
    /// The token embedding of the cache of dequantized weights.
    TiedDequantized,
}

/// No store holds the weight.
#[derive(Debug, Clone, Copy, PartialEq, Eq, Structural)]
pub enum WeightMissing {
    NotFound,
    /// The token embedding, which could stand in for it, is missing too.
    NoTiedEmbedding,
}

/// The order in which the stores are asked.
pub open spec fn source_of(
    name: Text,
    own: Holdings,
    embed: Holdings,
    explicit_dequantize: bool,
    used: int,
    limit: int,
) -> Result<WeightSource, WeightMissing> {
    if own.loaded {
        Ok(WeightSource::Loaded)
    } else if own.in_pass {
        Ok(WeightSource::Pass)
    } else if own.dequantized {
        Ok(WeightSource::Dequantized)
    } else if own.quantized is Some {
        if !explicit_dequantize {
            Ok(WeightSource::OnDevice)
        } else if used + own.quantized->0 * 4 <= limit {
            Ok(WeightSource::OnDeviceCounted)
        } else {
            Ok(WeightSource::OffDevice)
        }
    } else if name == "lm_head.weight"@ {
        if embed.loaded {
            Ok(WeightSource::TiedLoaded)
        } else if embed.dequantized {
            Ok(WeightSource::TiedDequantized)
        } else {
            Err(WeightMissing::NoTiedEmbedding)
        }
    } else {
        Err(WeightMissing::NotFound)
    }
}

/// Resolves the weight `name`, of which the stores hold `own`; `embed` is what
/// they hold of the token embedding, which the output head may share. Bytes
/// are counted at four per element. The budget is not touched: they are taken
/// from it once the tensor is on the device.
pub fn resolve_weight(
    name: &str,
    own: &Holdings,
    embed: &Holdings,
    explicit_dequantize: bool,
    budget: &CacheBudget,
) -> (r: Result<WeightSource, WeightMissing>)
    requires
        own.quantized matches Some(n) ==> n * 4 <= u64::MAX,
    ensures
        r == source_of(
            name@,
            *own,
            *embed,
            explicit_dequantize,
            budget.used() as int,
            budget.limit() as int,
        ),
{
    if own.loaded {
        return Ok(WeightSource::Loaded);
    }
    if own.in_pass {
        return Ok(WeightSource::Pass);
    }
    if own.dequantized {
        return Ok(WeightSource::Dequantized);
    }
    if let Some(n) = own.quantized {
        if !explicit_dequantize {
            Ok(WeightSource::OnDevice)
        } else if budget.fits(n * 4) {
            Ok(WeightSource::OnDeviceCounted)
        } else {
            Ok(WeightSource::OffDevice)
        }
    } else if same(name, "lm_head.weight") {
        if embed.loaded {
            Ok(WeightSource::TiedLoaded)
        } else if embed.dequantized {
            Ok(WeightSource::TiedDequantized)
        } else {
            Err(WeightMissing::NoTiedEmbedding)
        }
    } else {
        Err(WeightMissing::NotFound)
    }
}

/// The named activations of one forward pass. Operators read what they need
/// here and write back what they make. `T` is how an activation is held.
pub struct ExecContext<T> {
    activations: NameMap<T>,
}

impl<T> View for ExecContext<T> {
    type V = Map<Text, T>;

    closed spec fn view(&self) -> Map<Text, T> {
        self.activations@
    }
}

/// What is reported of an activation that is not there.
pub open spec fn missing_text(name: Text) -> Text {
    "Activation '"@ + name + "' not found in forward-pass context"@
}

impl<T> ExecContext<T> {
    /// A pass that has not begun.
    pub fn new() -> (c: Self)
        ensures
            c@ == Map::<Text, T>::empty(),
    {
        ExecContext { activations: NameMap::new() }
    }

    /// The activation `name`, or a report that it is missing.
    pub fn get(&self, name: &str) -> (r: Result<&T, String>)
        ensures
            match r {
                Ok(t) => self@.contains_key(name@) && *t == self@[name@],
                Err(report) => !self@.contains_key(name@) && report@ == missing_text(name@),
            },
    {
        match self.activations.get(name) {
            Some(t) => Ok(t),
            None => {
                let mut report = join2("Activation '", name);
                report.append("' not found in forward-pass context");
                Err(report)
            },
        }
    }

    /// Writes an activation, in place of an earlier one of the name.
    pub fn insert(&mut self, name: String, activation: T)
        ensures
            final(self)@ == old(self)@.insert(name@, activation),
    {
        self.activations.insert(name, activation);
    }

    /// Drops an activation.
    pub fn remove(&mut self, name: &str)
        ensures
            final(self)@ == old(self)@.remove(name@),
    {
        let _ = self.activations.remove(name);
    }

    /// Drops every activation of the list.
    pub fn evict(&mut self, names: &[String])
        ensures
            final(self)@ == old(self)@.remove_keys(texts(names@).to_set()),
    {
        let ghost before = self@;
        let mut i: usize = 0;
        assert(self@ =~= before.remove_keys(texts(names@).take(0).to_set()));
        while i < names.len()
            invariant
                i <= names@.len(),
                self@ == before.remove_keys(texts(names@).take(i as int).to_set()),
            decreases names@.len() - i,
        {
            let ghost front = texts(names@).take(i + 1);
            self.remove(&names[i]);
            proof {
                assert(front.drop_last() =~= texts(names@).take(i as int));
                assert(front.last() == names@[i as int]@);
                assert forall|n: Text| front.to_set().contains(n) <==> texts(names@).take(
                    i as int,
                ).to_set().contains(n) || n == names@[i as int]@ by {
                    if front.contains(n) {
                        let k = choose|k: int| 0 <= k < front.len() && front[k] == n;
                        if k < i {
                            assert(texts(names@).take(i as int)[k] == n);
                        }
                    }
                    if texts(names@).take(i as int).contains(n) {
                        let k = choose|k: int|
                            0 <= k < i && texts(names@).take(i as int)[k] == n;
                        assert(front[k] == n);
                    }
                    assert(front[i as int] == names@[i as int]@);
                }
            }
            assert(self@ =~= before.remove_keys(front.to_set()));
            i += 1;
        }
        assert(texts(names@).take(i as int) =~= texts(names@));
    }
}

/// The stores are asked in this order: full precision, the running pass, the
/// cache of dequantized weights, the quantized weight itself. Only the output
/// head, and only where no store holds it, is taken from the token embedding.
pub proof fn law_order_of_stores(
    name: Text,
    own: Holdings,
    embed: Holdings,
    explicit: bool,
    used: int,
    limit: int,
)
    ensures
        ({
            let r = source_of(name, own, embed, explicit, used, limit);
            let cached = own.loaded || own.in_pass || own.dequantized;
            let head = name == "lm_head.weight"@ && !cached && own.quantized is None;
            &&& r == Ok::<WeightSource, WeightMissing>(WeightSource::Loaded) <==> own.loaded
            &&& r == Ok::<WeightSource, WeightMissing>(WeightSource::Pass) <==> !own.loaded
                && own.in_pass
            &&& r == Ok::<WeightSource, WeightMissing>(WeightSource::Dequantized) <==> !own.loaded
                && !own.in_pass && own.dequantized
            &&& r == Ok::<WeightSource, WeightMissing>(WeightSource::OnDevice) <==> !cached
                && own.quantized is Some && !explicit
            &&& r == Ok::<WeightSource, WeightMissing>(WeightSource::OnDeviceCounted) <==> (!cached
                && explicit && own.quantized is Some && used + 4 * own.quantized->0 <= limit)
            &&& r == Ok::<WeightSource, WeightMissing>(WeightSource::OffDevice) <==> (!cached
                && explicit && own.quantized is Some && used + 4 * own.quantized->0 > limit)
            &&& r == Ok::<WeightSource, WeightMissing>(WeightSource::TiedLoaded) <==> head
                && embed.loaded
            &&& r == Ok::<WeightSource, WeightMissing>(WeightSource::TiedDequantized) <==> head
                && !embed.loaded && embed.dequantized
            &&& r == Err::<WeightSource, WeightMissing>(WeightMissing::NoTiedEmbedding) <==> head
                && !embed.loaded && !embed.dequantized
            &&& r == Err::<WeightSource, WeightMissing>(WeightMissing::NotFound) <==> !cached
                && own.quantized is None && name != "lm_head.weight"@
        }),
{
}

} // verus!

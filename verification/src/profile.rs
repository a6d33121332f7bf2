//! Which device a model can run on, given what was measured of the machine.
use vstd::prelude::*;
use crate::text::{
    chars_of, cut, cut_at, dec, ends, free_of, law_decimal_reads_back, lemma_cut, lemma_dec_digits,
    lemma_split_behind, lemma_split_whole, parse_upto, split, split_on, strip_suffix, texts, trim,
    trimmed, value_upto, white, without_lead, Text,
};

verus! {

#[derive(Debug, Clone, Copy, PartialEq, Eq, Structural)]
pub enum BackendChoice {
    Cuda,
    Metal,
    Cpu,
}

/// Vector instructions of the processor. They are reported for diagnosis only.
#[derive(Debug, Clone, Copy, PartialEq, Eq, Structural)]
pub struct CpuSimdCaps {
    pub avx2: bool,
    pub avx512f: bool,
    pub neon: bool,
}

/// How a flag is written.
pub open spec fn flag_text(b: bool) -> Text {
    if b {
        "true"@
    } else {
        "false"@
    }
}

/// The line that reports the capabilities.
pub open spec fn caps_line(c: CpuSimdCaps) -> Text {
    "CPU SIMD caps: AVX2="@ + flag_text(c.avx2) + ", AVX-512F="@ + flag_text(c.avx512f)
        + ", NEON="@ + flag_text(c.neon)
}

fn push_flag(out: &mut String, b: bool)
    ensures
        final(out)@ == old(out)@ + flag_text(b),
{
    if b {
        out.append("true");
    } else {
        out.append("false");
    }
}

impl CpuSimdCaps {
    /// The capabilities, from what the processor reports.
    pub fn detect(avx2: bool, avx512f: bool, neon: bool) -> (c: Self)
        ensures
            c == (CpuSimdCaps { avx2, avx512f, neon }),
    {
        CpuSimdCaps { avx2, avx512f, neon }
    }

    /// The line to log, and whether to warn that inference will be slow.
    pub fn log(&self) -> (r: (String, bool))
        ensures
            r.0@ == caps_line(*self),
            r.1 == (!self.avx2 && !self.neon),
    {
        let mut line = String::new();
        line.append("CPU SIMD caps: AVX2=");
        push_flag(&mut line, self.avx2);
        line.append(", AVX-512F=");
        push_flag(&mut line, self.avx512f);
        line.append(", NEON=");
        push_flag(&mut line, self.neon);
        assert(line@ =~= caps_line(*self));
        (line, !self.avx2 && !self.neon)
    }
}

/// Immutable snapshot of the hardware, taken once at startup.
#[derive(Debug, Clone, Copy, PartialEq, Eq, Structural)]
pub struct HardwareProfile {
    pub gpu_vram_total_bytes: Option<u64>,
    pub gpu_vram_free_bytes: Option<u64>,
    pub system_ram_total_bytes: u64,
    pub system_ram_free_bytes: u64,
    pub cpu_cores: usize,
    pub backend: BackendChoice,
    pub simd: CpuSimdCaps,
}

/// What was measured of the graphics card.
#[derive(Debug, Clone, Copy)]
pub struct GpuFacts {
    /// The tensor library was built for CUDA and finds a device.
    pub cuda: bool,
    /// Total and free memory in MiB, as the management tool reports them.
    pub smi: Option<(u64, u64)>,
    /// Total and free memory in bytes, as the driver reports them.
    pub driver: Option<(u64, u64)>,
    /// The user asks for CUDA although nothing could be measured.
    pub force: bool,
}

pub const MIB: u64 = 1_048_576;

/// Total and free memory of the card, where it is to be used: the tool first,
/// then the driver; and 4 GiB with 3 free where the user insists.
pub open spec fn gpu_memory(g: GpuFacts) -> Option<(int, int)> {
    if !g.cuda {
        None
    } else {
        match (g.smi, g.driver) {
            (Some((total, free)), _) => Some((total * MIB, free * MIB)),
            (None, Some((total, free))) => Some((total as int, free as int)),
            (None, None) => if g.force {
                Some((4096 * MIB, 3072 * MIB))
            } else {
                None
            },
        }
    }
}

impl HardwareProfile {
    /// The profile that the measurements give. The memory of a card that could
    /// not be measured is not guessed: such a card is not used.
    pub fn detect(
        ram_total: u64,
        ram_free: u64,
        cpu_cores: usize,
        simd: CpuSimdCaps,
        gpu: GpuFacts,
    ) -> (p: Self)
        requires
            gpu.smi matches Some((total, free)) ==> total * MIB <= u64::MAX && free * MIB
                <= u64::MAX,
        ensures
            p.system_ram_total_bytes == ram_total,
            p.system_ram_free_bytes == ram_free,
            p.cpu_cores == cpu_cores,
            p.simd == simd,
            match gpu_memory(gpu) {
                Some((total, free)) => p.backend == BackendChoice::Cuda
                    && p.gpu_vram_total_bytes == Some(total as u64) && p.gpu_vram_free_bytes
                    == Some(free as u64),
                None => p.backend == BackendChoice::Cpu && p.gpu_vram_total_bytes is None
                    && p.gpu_vram_free_bytes is None,
            },
    {
        let memory: Option<(u64, u64)> = if !gpu.cuda {
            None
        } else {
            match gpu.smi {
                Some((total, free)) => Some((total * MIB, free * MIB)),
                None => match gpu.driver {
                    Some(bytes) => Some(bytes),
                    None => if gpu.force {
                        Some((4096 * MIB, 3072 * MIB))
                    } else {
                        None
                    },
                },
            }
        };
        match memory {
            Some((total, free)) => HardwareProfile {
                gpu_vram_total_bytes: Some(total),
                gpu_vram_free_bytes: Some(free),
                system_ram_total_bytes: ram_total,
                system_ram_free_bytes: ram_free,
                cpu_cores,
                backend: BackendChoice::Cuda,
                simd,
            },
            None => HardwareProfile {
                gpu_vram_total_bytes: None,
                gpu_vram_free_bytes: None,
                system_ram_total_bytes: ram_total,
                system_ram_free_bytes: ram_free,
                cpu_cores,
                backend: BackendChoice::Cpu,
                simd,
            },
        }
    }

    /// Where to run a model of `estimated_bytes`: on the card where it fits
    /// with headroom, else on the processor where it fits with headroom. It is
    /// refused rather than risk running out of memory.
    pub fn choose_device(&self, estimated_bytes: u64) -> (r: Result<BackendChoice, OutOfMemory>)
        ensures
            r == device_for(*self, estimated_bytes),
    {
        let required = with_headroom(estimated_bytes);
        if self.backend == BackendChoice::Cuda {
            if let Some(free) = self.gpu_vram_free_bytes {
                if required < free {
                    return Ok(BackendChoice::Cuda);
                }
            }
        }
        if required >= self.system_ram_free_bytes {
            return Err(OutOfMemory { required, free: self.system_ram_free_bytes });
        }
        Ok(BackendChoice::Cpu)
    }
}

/// The model fits nowhere.
#[derive(Debug, Clone, Copy, PartialEq, Eq, Structural)]
pub struct OutOfMemory {
    /// Bytes that the model needs, headroom included.
    pub required: u64,
    /// Bytes of system memory that are free.
    pub free: u64,
}

/// Where a model of `bytes` runs.
pub open spec fn device_for(p: HardwareProfile, bytes: u64) -> Result<BackendChoice, OutOfMemory> {
    let required = headroom(bytes as nat) as u64;
    if p.backend == BackendChoice::Cuda && p.gpu_vram_free_bytes is Some && required
        < p.gpu_vram_free_bytes->0 {
        Ok(BackendChoice::Cuda)
    } else if required >= p.system_ram_free_bytes {
        Err(OutOfMemory { required, free: p.system_ram_free_bytes })
    } else {
        Ok(BackendChoice::Cpu)
    }
}

/// `2^53`: a double precision number has 53 significant bits.
pub const SIGNIFICAND: u128 = 0x20_0000_0000_0000;

/// `1.15` in double precision, times `2^52`.
pub const HEADROOM_FACTOR: u128 = 0x12_6666_6666_6666;

/// The last significant place of `n` in double precision.
pub open spec fn place_of(n: nat) -> nat
    decreases n,
{
    if n < SIGNIFICAND {
        1
    } else {
        2 * place_of(n / 2)
    }
}

/// The multiple of the last significant place that is nearest to `n`, the even
/// one of two.
pub open spec fn rounded(n: nat) -> nat {
    let u = place_of(n);
    let q = n / u;
    let r = n % u;
    if 2 * r > u || (2 * r == u && q % 2 == 1) {
        (q + 1) * u
    } else {
        q * u
    }
}

/// `n * 1.15` in double precision, cut to 64 bits.
pub open spec fn headroom(n: nat) -> nat {
    let product = rounded(rounded(n) * HEADROOM_FACTOR as nat) / 0x10_0000_0000_0000;
    if product > u64::MAX {
        u64::MAX as nat
    } else {
        product
    }
}

proof fn lemma_place(n: nat)
    ensures
        place_of(n) >= 1,
        place_of(n) == 1 || place_of(n) * 0x10_0000_0000_0000 <= n,
    decreases n,
{
    if n >= SIGNIFICAND {
        lemma_place(n / 2);
    }
}

proof fn lemma_rounded(n: nat)
    ensures
        rounded(n) <= 2 * n,
        n - rounded(n) <= n / 0x10_0000_0000_0000,
        n < SIGNIFICAND ==> rounded(n) == n,
{
    lemma_place(n);
    let u = place_of(n);
    let q = n / u;
    let r = n % u;
    assert(n == q * u + r && 0 <= r < u) by (nonlinear_arith)
        requires
            u >= 1,
            q == n / u,
            r == n % u,
    ;
    assert((q + 1) * u == q * u + u) by (nonlinear_arith);
    if n < SIGNIFICAND {
        assert(q * 1 == q);
        assert((q + 1) * 1 == q + 1);
    } else if place_of(n) == 1 {
        assert(q * 1 == q);
        assert((q + 1) * 1 == q + 1);
    }
}

fn place_for(n: u128) -> (u: u128)
    ensures
        u == place_of(n as nat),
    decreases n,
{
    if n < SIGNIFICAND {
        1
    } else {
        let half = place_for(n / 2);
        proof {
            lemma_place((n / 2) as nat);
        }
        2 * half
    }
}

fn round_significant(n: u128) -> (r: u128)
    requires
        2 * n <= u128::MAX,
    ensures
        r == rounded(n as nat),
{
    let u = place_for(n);
    proof {
        lemma_place(n as nat);
        lemma_rounded(n as nat);
    }
    let q: u128 = n / u;
    let r: u128 = n % u;
    assert(n == q * u + r && 0 <= r < u) by (nonlinear_arith)
        requires
            u >= 1,
            q == n / u,
            r == n % u,
    ;
    assert((q + 1) * u == q * u + u) by (nonlinear_arith);
    if r > u - r || (r == u - r && q % 2 == 1) {
        assert((q + 1) * u == rounded(n as nat));
        assert(q + 1 <= (q + 1) * u) by (nonlinear_arith)
            requires
                u >= 1,
                q >= 0,
        ;
        (q + 1) * u
    } else {
        assert(q * u == rounded(n as nat));
        q * u
    }
}

/// What a model of `bytes` needs with 15% headroom for what grows while it
/// runs.
pub fn with_headroom(bytes: u64) -> (n: u64)
    ensures
        n == headroom(bytes as nat),
{
    proof {
        lemma_rounded(bytes as nat);
    }
    let b = round_significant(bytes as u128);
    assert(b * HEADROOM_FACTOR <= 2 * u64::MAX * HEADROOM_FACTOR) by (nonlinear_arith)
        requires
            b <= 2 * u64::MAX,
    ;
    let product = round_significant(b * HEADROOM_FACTOR);
    let whole: u128 = product / 0x10_0000_0000_0000;
    if whole > u64::MAX as u128 {
        u64::MAX
    } else {
        whole as u64
    }
}

/// With headroom a model never needs less than its size: a device is chosen
/// only where more than the model's size is free.
pub proof fn law_headroom_covers(p: HardwareProfile, bytes: u64)
    ensures
        headroom(bytes as nat) >= bytes,
        device_for(p, bytes) == Ok::<BackendChoice, OutOfMemory>(BackendChoice::Cuda) ==> bytes
            < p.gpu_vram_free_bytes->0,
        device_for(p, bytes) == Ok::<BackendChoice, OutOfMemory>(BackendChoice::Cpu) ==> bytes
            < p.system_ram_free_bytes,
{
    let n = bytes as nat;
    let m = rounded(n);
    let f = HEADROOM_FACTOR as nat;
    let product = m * f;
    lemma_rounded(n);
    lemma_rounded(product);
    let out = rounded(product);
    assert(product * 0x10 >= n * 0x12_0000_0000_0000nat * 0x10) by (nonlinear_arith)
        requires
            product == m * f,
            f == 0x12_6666_6666_6666nat,
            n - m <= n / 0x10_0000_0000_0000nat,
    ;
    assert(out >= n * 0x10_0000_0000_0000nat) by {
        assert(out >= product - product / 0x10_0000_0000_0000nat);
    }
    assert(out / 0x10_0000_0000_0000nat >= n);
}

/// The first line of a text: what stands before the first line feed, without a
/// carriage return at its end. An empty text has none.
pub open spec fn first_line(s: Text) -> Option<Text> {
    if s.len() == 0 {
        None
    } else {
        match cut(s, '\n') {
            Some((line, _)) => if ends(line, "\r"@) {
                Some(line.drop_last())
            } else {
                Some(line)
            },
            None => Some(s),
        }
    }
}

fn line_of(s: &str) -> (r: Option<String>)
    ensures
        match r {
            Some(line) => first_line(s@) == Some(line@),
            None => first_line(s@) is None,
        },
{
    if chars_of(s).len() == 0 {
        return None;
    }
    match cut_at(s, '\n') {
        Some((line, _)) => match strip_suffix(&line, "\r") {
            Some(rest) => {
                proof {
                    reveal_strlit("\r");
                    assert(line@.take(line@.len() - 1) =~= line@.drop_last());
                }
                Some(rest)
            },
            None => Some(line),
        },
        None => Some(s.to_string()),
    }
}

/// Total and free memory in the management tool's answer: two numbers on the
/// first line, with a comma between them.
pub open spec fn smi_memory(answer: Text) -> Option<(nat, nat)> {
    match first_line(answer) {
        Some(line) => {
            let parts = split(line, ',');
            if parts.len() != 2 {
                None
            } else {
                match (
                    value_upto(trimmed(parts[0]), u64::MAX as nat),
                    value_upto(trimmed(parts[1]), u64::MAX as nat),
                ) {
                    (Some(total), Some(free)) => Some((total, free)),
                    _ => None,
                }
            }
        },
        None => None,
    }
}

/// Reads total and free memory, in MiB, out of the management tool's answer.
pub fn read_smi(answer: &str) -> (r: Option<(u64, u64)>)
    ensures
        match r {
            Some((total, free)) => smi_memory(answer@) == Some((total as nat, free as nat)),
            None => smi_memory(answer@) is None,
        },
{
    let line = match line_of(answer) {
        Some(line) => line,
        None => return None,
    };
    let parts = split_on(&line, ',');
    if parts.len() != 2 {
        return None;
    }
    assert(texts(parts@)[0] == parts@[0]@);
    assert(texts(parts@)[1] == parts@[1]@);
    let total = match parse_upto(&trim(&parts[0]), u64::MAX) {
        Some(n) => n,
        None => return None,
    };
    let free = match parse_upto(&trim(&parts[1]), u64::MAX) {
        Some(n) => n,
        None => return None,
    };
    Some((total, free))
}

/// Total and free memory that the driver reports. This build carries no driver
/// bindings, so there is no report.
pub fn query_cuda_driver() -> (r: Option<(u64, u64)>)
    ensures
        r is None,
{
    None
}

/// What a card is taken to have: what the tool reports, in units of 1048576
/// bytes, or else what the driver reports, or, where the user insists, 4 GiB
/// with 3 GiB free; nothing without CUDA.
pub proof fn law_card_memory(g: GpuFacts)
    ensures
        !g.cuda ==> gpu_memory(g) is None,
        g.smi matches Some((total, free)) ==> (g.cuda ==> gpu_memory(g) == Some(
            (total * 1_048_576, free * 1_048_576),
        )),
        g.driver matches Some((total, free)) ==> (g.cuda && g.smi is None ==> gpu_memory(g) == Some(
            (total as int, free as int),
        )),
        g.cuda && g.smi is None && g.driver is None && g.force ==> gpu_memory(g) == Some(
            (4_294_967_296int, 3_221_225_472int),
        ),
        g.cuda && g.smi is None && g.driver is None && !g.force ==> gpu_memory(g) is None,
{
}

proof fn lemma_rounded_up(n: nat)
    ensures
        rounded(n) - n <= n / 0x10_0000_0000_0000,
{
    lemma_place(n);
    let u = place_of(n);
    let q = n / u;
    let r = n % u;
    assert(n == q * u + r && 0 <= r < u) by (nonlinear_arith)
        requires
            u >= 1,
            q == n / u,
            r == n % u,
    ;
    assert((q + 1) * u == q * u + u) by (nonlinear_arith);
    if u == 1 {
        assert(q * 1 == q);
    }
}

/// The headroom is fifteen in a hundred, but for rounding: up to a million
/// thousand million bytes it is exact to two bytes.
pub proof fn law_headroom_is_fifteen_percent(bytes: u64)
    requires
        bytes <= 1_000_000_000_000_000,
    ensures
        115 * bytes - 200 <= 100 * headroom(bytes as nat) <= 115 * bytes + 200,
{
    let n = bytes as nat;
    let f = 0x12_6666_6666_6666nat;
    let product = n * f;
    lemma_rounded(n);
    lemma_rounded(product);
    lemma_rounded_up(product);
    let out = rounded(product);
    let d = 0x10_0000_0000_0000nat;
    assert(100 * product <= 115 * n * d) by (nonlinear_arith)
        requires
            product == n * 0x12_6666_6666_6666nat,
            d == 0x10_0000_0000_0000nat,
    ;
    assert(100 * product + 100 * n >= 115 * n * d) by (nonlinear_arith)
        requires
            product == n * 0x12_6666_6666_6666nat,
            d == 0x10_0000_0000_0000nat,
    ;
    assert(product <= 2_000_000_000_000_000nat * d) by (nonlinear_arith)
        requires
            product == n * 0x12_6666_6666_6666nat,
            d == 0x10_0000_0000_0000nat,
            n <= 1_000_000_000_000_000nat,
    ;
    assert(product - d <= out <= product + d);
    assert(rounded(n) == n);
}

/// A model goes to the card where it fits there with headroom, otherwise to
/// the processor where it fits in memory with headroom, and is refused where
/// it fits in neither.
pub proof fn law_device(p: HardwareProfile, bytes: u64)
    ensures
        ({
            let required = headroom(bytes as nat);
            let card = p.backend == BackendChoice::Cuda && (p.gpu_vram_free_bytes matches Some(free)
                && required < free);
            &&& required <= u64::MAX
            &&& device_for(p, bytes) == Ok::<BackendChoice, OutOfMemory>(BackendChoice::Cuda)
                <==> card
            &&& device_for(p, bytes) == Ok::<BackendChoice, OutOfMemory>(BackendChoice::Cpu)
                <==> !card && required < p.system_ram_free_bytes
            &&& device_for(p, bytes) is Err <==> !card && required >= p.system_ram_free_bytes
            &&& device_for(p, bytes) matches Err(e) ==> e.required == required && e.free
                == p.system_ram_free_bytes
        }),
{
}

/// The report names each capability with its own flag.
pub proof fn law_caps_line(c: CpuSimdCaps)
    ensures
        caps_line(c) == "CPU SIMD caps: AVX2="@ + (if c.avx2 {
            "true"@
        } else {
            "false"@
        }) + ", AVX-512F="@ + (if c.avx512f {
            "true"@
        } else {
            "false"@
        }) + ", NEON="@ + (if c.neon {
            "true"@
        } else {
            "false"@
        }),
{
}

/// A number is written without white space.
proof fn lemma_number_trimmed(n: nat)
    ensures
        trimmed(dec(n)) == dec(n),
        trimmed(seq![' '] + dec(n)) == dec(n),
{
    lemma_dec_digits(n);
    law_decimal_reads_back(n);
    let s = seq![' '] + dec(n);
    assert(s.skip(1) =~= dec(n));
    assert(dec(n)[0] >= '0' && dec(n)[dec(n).len() - 1] >= '0');
    assert(!white(dec(n)[0]) && !white(dec(n).last()));
    assert(without_lead(dec(n)) == dec(n));
    assert(without_lead(s) == without_lead(s.skip(1)));
}

/// An answer that gives the total and the free memory on its first line, with
/// a comma and a space between them, is read as it was given.
pub proof fn law_answer_reads_back(total: u64, free: u64, rest: Text)
    ensures
        smi_memory(
            dec(total as nat) + seq![',', ' '] + dec(free as nat) + seq!['\n'] + rest,
        ) == Some((total as nat, free as nat)),
{
    let (t, f) = (dec(total as nat), dec(free as nat));
    let line = t + seq![',', ' '] + f;
    let answer = t + seq![',', ' '] + f + seq!['\n'] + rest;
    lemma_dec_digits(total as nat);
    lemma_dec_digits(free as nat);
    law_decimal_reads_back(total as nat);
    law_decimal_reads_back(free as nat);
    assert forall|i: int| 0 <= i < line.len() implies #[trigger] line[i] != '\n' by {
        if i < t.len() {
            assert(line[i] == t[i]);
        } else if i >= t.len() + 2 {
            assert(line[i] == f[i - t.len() - 2]);
        }
    }
    assert(answer =~= line.push('\n') + rest);
    lemma_cut(line, '\n', rest);
    reveal_strlit("\r");
    if ends(line, "\r"@) {
        assert(line.subrange(line.len() - 1, line.len() as int)[0] == f[f.len() - 1]);
    }
    let second = seq![' '] + f;
    assert(free_of(t, ','));
    assert forall|i: int| 0 <= i < second.len() implies #[trigger] second[i] != ',' by {
        if i > 0 {
            assert(second[i] == f[i - 1]);
        }
    }
    lemma_split_whole(t, ',');
    lemma_split_behind(t, ',', second);
    assert(line =~= t.push(',') + second);
    assert(split(line, ',') =~= seq![t, second]);
    lemma_number_trimmed(total as nat);
    lemma_number_trimmed(free as nat);
}

} // verus!

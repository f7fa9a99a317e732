//! Hardware capability: the tiers that decide whether LLM features are
//! offered, and the reading of what the system tools report about GPUs
//! (`nvidia-smi` CSV, `wmic /value` blocks, registry memory sizes, DRM
//! sysfs files, adapter lists with their memory counters).

use vstd::prelude::*;
use vstd::string::StringExecFns;

use crate::numbers::{hexadecimal, parse_u64_chars, parsed_u64, push_padded_hexadecimal, zero_padded};
use crate::text::{
    chars_of, copy_range, has_infix, has_prefix, lines, lines_of, starts_with_chars, str_contains,
    str_eq, string_from_chars, trim, trim_chars, unicode_lowercase,
};

verus! {

/// How capable the host machine is for LLM workloads.
#[derive(PartialEq, Eq, Structural, Clone, Copy, Debug)]
pub enum LlmCapability {
    /// Chat and retrieval fully supported.
    Full,
    /// Retrieval indexing works; chat not recommended.
    EmbeddingOnly,
    /// Below minimum: LLM features off by default.
    Insufficient,
}

/// A GPU or display adapter.
pub struct GpuInfo {
    pub name: String,
    /// Total video memory in megabytes, if known.
    pub vram_total_mb: Option<u64>,
    /// Video memory in use in megabytes, if known.
    pub vram_used_mb: Option<u64>,
    /// Whether video memory is the system memory (Apple Silicon).
    pub is_unified_memory: bool,
}

/// The content of a GPU description.
pub struct GpuView {
    pub name: Seq<char>,
    pub vram_total_mb: Option<u64>,
    pub vram_used_mb: Option<u64>,
    pub is_unified_memory: bool,
}

impl View for GpuInfo {
    type V = GpuView;

    open spec fn view(&self) -> GpuView {
        GpuView {
            name: self.name@,
            vram_total_mb: self.vram_total_mb,
            vram_used_mb: self.vram_used_mb,
            is_unified_memory: self.is_unified_memory,
        }
    }
}

/// The views of GPU descriptions.
pub open spec fn gpu_views(v: Seq<GpuInfo>) -> Seq<GpuView> {
    Seq::new(v.len(), |i: int| v[i]@)
}

/// A snapshot of the host's hardware.
pub struct HardwareInfo {
    pub cpu_name: String,
    pub cpu_cores: usize,
    /// Total system memory in megabytes.
    pub ram_total_mb: u64,
    /// System memory in use in megabytes.
    pub ram_used_mb: u64,
    /// Memory used by this application's processes in megabytes.
    pub ram_grimoire_mb: u64,
    pub gpus: Vec<GpuInfo>,
    pub capability: LlmCapability,
}

/// The hardware snapshot with the user's override of the LLM features.
pub struct HardwareReport {
    pub info: HardwareInfo,
    /// Whether the user turned LLM features on despite the hardware.
    pub llm_force_enabled: bool,
}

/// A model loaded in the local model server.
pub struct RunningModel {
    pub name: String,
    /// Video memory the model occupies in megabytes, if reported.
    pub vram_mb: Option<u64>,
    /// Whether the model is kept loaded for good.
    pub pinned: bool,
}

/// Bytes per megabyte.
pub const MIB: u64 = 1048576;

// ---------------------------------------------------------------------------
// Capability tiers
// ---------------------------------------------------------------------------

/// A GPU that can carry chat: 4 GB of its own memory, or 16 GB of unified
/// memory.
pub open spec fn capable_gpu(g: GpuView) -> bool {
    match g.vram_total_mb {
        Some(v) => if g.is_unified_memory {
            v >= 16384
        } else {
            v >= 4096
        },
        None => false,
    }
}

/// The capability tier of a machine with `ram_total_mb` of memory and the
/// given GPUs: under 4 GB insufficient; 8 GB with a capable GPU full;
/// otherwise embedding only.
pub open spec fn capability_of(ram_total_mb: u64, gpus: Seq<GpuView>) -> LlmCapability {
    if ram_total_mb < 4096 {
        LlmCapability::Insufficient
    } else if ram_total_mb >= 8192 && exists|i: int| 0 <= i < gpus.len() && #[trigger] capable_gpu(gpus[i]) {
        LlmCapability::Full
    } else {
        LlmCapability::EmbeddingOnly
    }
}

/// Whether a GPU can carry chat.
fn gpu_is_capable(g: &GpuInfo) -> (b: bool)
    ensures
        b == capable_gpu(g@),
{
    match g.vram_total_mb {
        Some(v) => if g.is_unified_memory {
            v >= 16384
        } else {
            v >= 4096
        },
        None => false,
    }
}

/// Classify the host into a capability tier.
pub fn classify(ram_total_mb: u64, gpus: &[GpuInfo]) -> (tier: LlmCapability)
    ensures
        tier == capability_of(ram_total_mb, gpu_views(gpus@)),
{
    if ram_total_mb < 4096 {
        return LlmCapability::Insufficient;
    }
    let ghost views = gpu_views(gpus@);
    let mut has_capable_gpu = false;
    let mut i: usize = 0;
    while i < gpus.len()
        invariant
            i <= gpus@.len(),
            views == gpu_views(gpus@),
            has_capable_gpu == exists|j: int| 0 <= j < i && #[trigger] capable_gpu(views[j]),
        decreases gpus@.len() - i,
    {
        if gpu_is_capable(&gpus[i]) {
            assert(capable_gpu(views[i as int]));
            has_capable_gpu = true;
        }
        i = i + 1;
    }
    if ram_total_mb >= 8192 && has_capable_gpu {
        LlmCapability::Full
    } else {
        LlmCapability::EmbeddingOnly
    }
}

/// Whether the stored override setting turns LLM features on.
pub fn force_enabled(setting: Option<String>) -> (on: bool)
    ensures
        on == (setting matches Some(v) && v@ == "true"@),
{
    match setting {
        Some(v) => str_eq(v.as_str(), "true"),
        None => false,
    }
}

/// Whether LLM features are active: the hardware is capable, or the user
/// turned them on.
pub fn llm_enabled(capability: LlmCapability, setting: Option<String>) -> (on: bool)
    ensures
        on == (capability == LlmCapability::Full || (setting matches Some(v) && v@ == "true"@)),
{
    if capability == LlmCapability::Full {
        return true;
    }
    force_enabled(setting)
}

/// A loaded model as the model server reports it: its size in video memory
/// in bytes (0 when not reported) and its expiry time, which is the zero
/// time (year 1) for a model kept loaded for good.
pub fn running_model(name: String, size_vram: u64, expires_at: &str) -> (model: RunningModel)
    ensures
        model.name == name,
        model.vram_mb == if size_vram > 0 {
            Some((size_vram / MIB) as u64)
        } else {
            None::<u64>
        },
        model.pinned == has_prefix(expires_at@, "0001-"@),
{
    let vram_mb = if size_vram > 0 {
        Some(size_vram / MIB)
    } else {
        None
    };
    RunningModel { name, vram_mb, pinned: crate::text::str_starts_with(expires_at, "0001-") }
}

// ---------------------------------------------------------------------------
// CPU and memory
// ---------------------------------------------------------------------------

/// The CPU's display name: its brand string trimmed, or `Unknown CPU` when
/// there is no CPU entry.
pub fn cpu_display_name(brand: Option<&str>) -> (name: String)
    ensures
        name@ == match brand {
            Some(b) => trim(b@),
            None => "Unknown CPU"@,
        },
{
    match brand {
        Some(b) => {
            let cs = chars_of(b);
            let t = trim_chars(cs.as_slice());
            string_from_chars(t.as_slice())
        },
        None => String::from_str("Unknown CPU"),
    }
}

/// The sum of a list of byte counts.
pub open spec fn total_bytes(mems: Seq<u64>) -> nat
    decreases mems.len(),
{
    if mems.len() == 0 {
        0
    } else {
        total_bytes(mems.drop_last()) + (mems.last() as nat)
    }
}

/// The memory of a group of processes in megabytes.
pub fn group_memory_mb(mems: &[u64]) -> (mb: u64)
    requires
        total_bytes(mems@) <= u64::MAX,
    ensures
        mb == total_bytes(mems@) / (MIB as nat),
{
    let mut sum: u64 = 0;
    let mut i: usize = 0;
    while i < mems.len()
        invariant
            i <= mems@.len(),
            total_bytes(mems@) <= u64::MAX,
            sum == total_bytes(mems@.take(i as int)),
        decreases mems@.len() - i,
    {
        assert(mems@.take(i + 1).drop_last() =~= mems@.take(i as int));
        proof {
            lemma_total_bytes_prefix(mems@, i + 1);
        }
        sum = sum + mems[i];
        i = i + 1;
    }
    assert(mems@.take(i as int) =~= mems@);
    sum / MIB
}

proof fn lemma_total_bytes_prefix(mems: Seq<u64>, k: int)
    requires
        0 <= k <= mems.len(),
    ensures
        total_bytes(mems.take(k)) <= total_bytes(mems),
    decreases mems.len() - k,
{
    if k < mems.len() {
        lemma_total_bytes_prefix(mems, k + 1);
        assert(mems.take(k + 1).drop_last() =~= mems.take(k));
    } else {
        assert(mems.take(k) =~= mems);
    }
}

// ---------------------------------------------------------------------------
// nvidia-smi
// ---------------------------------------------------------------------------

/// The position of the first `c` in `s`.
pub open spec fn first_index(s: Seq<char>, c: char) -> Option<nat>
    decreases s.len(),
{
    if s.len() == 0 {
        None
    } else if s[0] == c {
        Some(0)
    } else {
        match first_index(s.drop_first(), c) {
            Some(k) => Some(k + 1),
            None => None,
        }
    }
}

/// A line split at its first two commas (`splitn(3, ',')`), if it has two.
pub open spec fn split3(line: Seq<char>) -> Option<(Seq<char>, Seq<char>, Seq<char>)> {
    match first_index(line, ',') {
        None => None,
        Some(i) => {
            let rest = line.skip(i as int + 1);
            match first_index(rest, ',') {
                None => None,
                Some(j) => Some((line.take(i as int), rest.take(j as int), rest.skip(j as int + 1))),
            }
        },
    }
}

/// The GPU a `name, memory.total, memory.used` CSV line describes.
pub open spec fn nvidia_gpu_of(line: Seq<char>) -> Option<GpuView> {
    if trim(line).len() == 0 {
        None
    } else {
        match split3(line) {
            None => None,
            Some(parts) => Some(
                GpuView {
                    name: trim(parts.0),
                    vram_total_mb: parsed_u64(trim(parts.1)),
                    vram_used_mb: parsed_u64(trim(parts.2)),
                    is_unified_memory: false,
                },
            ),
        }
    }
}

/// The GPUs of a list of CSV lines, in order.
pub open spec fn nvidia_gpus_of_lines(ls: Seq<Seq<char>>) -> Seq<GpuView>
    decreases ls.len(),
{
    if ls.len() == 0 {
        Seq::empty()
    } else {
        let prev = nvidia_gpus_of_lines(ls.drop_last());
        match nvidia_gpu_of(ls.last()) {
            Some(g) => prev.push(g),
            None => prev,
        }
    }
}

proof fn lemma_first_index_bound(s: Seq<char>, c: char)
    ensures
        first_index(s, c) matches Some(k) ==> k < s.len() && s[k as int] == c,
    decreases s.len(),
{
    if s.len() > 0 && s[0] != c {
        lemma_first_index_bound(s.drop_first(), c);
    }
}

/// The position of the first `c` in `cs`.
fn first_index_of(cs: &[char], c: char) -> (k: Option<usize>)
    ensures
        match k {
            Some(i) => first_index(cs@, c) == Some(i as nat),
            None => first_index(cs@, c) is None,
        },
{
    let mut i: usize = 0;
    assert(cs@.skip(0) =~= cs@);
    while i < cs.len()
        invariant
            i <= cs@.len(),
            first_index(cs@, c) == match first_index(cs@.skip(i as int), c) {
                Some(k) => Some((k + i) as nat),
                None => None,
            },
        decreases cs@.len() - i,
    {
        assert(cs@.skip(i as int).drop_first() =~= cs@.skip(i + 1));
        if cs[i] == c {
            return Some(i);
        }
        i = i + 1;
    }
    assert(cs@.skip(i as int) =~= Seq::<char>::empty());
    None
}

/// The GPU a CSV line of `nvidia-smi` describes.
fn nvidia_gpu_from_line(line: &[char]) -> (gpu: Option<GpuInfo>)
    ensures
        match gpu {
            Some(g) => nvidia_gpu_of(line@) == Some(g@),
            None => nvidia_gpu_of(line@) is None,
        },
{
    let t = trim_chars(line);
    if t.len() == 0 {
        return None;
    }
    let i = match first_index_of(line, ',') {
        Some(i) => i,
        None => return None,
    };
    proof {
        lemma_first_index_bound(line@, ',');
    }
    assert(i < line.len());
    let rest = copy_range(line, i + 1, line.len());
    assert(rest@ =~= line@.skip(i + 1));
    let j = match first_index_of(rest.as_slice(), ',') {
        Some(j) => j,
        None => return None,
    };
    proof {
        lemma_first_index_bound(rest@, ',');
    }
    let a = copy_range(line, 0, i);
    let b = copy_range(rest.as_slice(), 0, j);
    let c = copy_range(rest.as_slice(), j + 1, rest.len());
    assert(a@ =~= line@.take(i as int));
    assert(b@ =~= rest@.take(j as int));
    assert(c@ =~= rest@.skip(j + 1));
    let name_cs = trim_chars(a.as_slice());
    let total_cs = trim_chars(b.as_slice());
    let used_cs = trim_chars(c.as_slice());
    Some(
        GpuInfo {
            name: string_from_chars(name_cs.as_slice()),
            vram_total_mb: parse_u64_chars(total_cs.as_slice()),
            vram_used_mb: parse_u64_chars(used_cs.as_slice()),
            is_unified_memory: false,
        },
    )
}

/// The GPUs in `nvidia-smi --format=csv,noheader,nounits` output of the
/// query `name,memory.total,memory.used`: one per non-blank line with at
/// least three comma-separated fields, the memory fields parsed when they
/// are numbers.
pub fn parse_nvidia_smi(stdout: &str) -> (gpus: Vec<GpuInfo>)
    ensures
        gpu_views(gpus@) == nvidia_gpus_of_lines(lines(stdout@)),
{
    let cs = chars_of(stdout);
    let ls = lines_of(cs.as_slice());
    let ghost lv = crate::text::seqs_of(ls@);
    let mut gpus: Vec<GpuInfo> = Vec::new();
    let mut k: usize = 0;
    while k < ls.len()
        invariant
            k <= ls@.len(),
            lv == crate::text::seqs_of(ls@),
            lv == lines(stdout@),
            gpu_views(gpus@) == nvidia_gpus_of_lines(lv.take(k as int)),
        decreases ls@.len() - k,
    {
        assert(lv.take(k + 1).drop_last() =~= lv.take(k as int));
        match nvidia_gpu_from_line(ls[k].as_slice()) {
            Some(g) => {
                let ghost prev = gpus@;
                gpus.push(g);
                assert(gpu_views(gpus@) =~= gpu_views(prev).push(g@));
            },
            None => {},
        }
        k = k + 1;
    }
    assert(lv.take(k as int) =~= lv);
    gpus
}

// ---------------------------------------------------------------------------
// WMI (wmic /value)
// ---------------------------------------------------------------------------

/// Video memory in megabytes from the 32-bit `AdapterRAM` byte count: from
/// 4,000,000,000 bytes on the field has overflowed and the adapter has at
/// least 4096 MB.
pub open spec fn adapter_ram_mb(bytes: u64) -> u64 {
    if bytes >= 4_000_000_000 {
        4096
    } else {
        (bytes / MIB) as u64
    }
}

/// Convert an `AdapterRAM` byte count to megabytes.
pub fn wmic_adapter_ram_to_mb(bytes: u64) -> (mb: u64)
    ensures
        mb == adapter_ram_mb(bytes),
{
    if bytes >= 4_000_000_000 {
        4096
    } else {
        bytes / MIB
    }
}

/// Reading `wmic` adapter blocks: the GPUs finished, and the name and
/// memory of the block being read.
pub open spec fn wmic_step(
    st: (Seq<GpuView>, Option<Seq<char>>, Option<u64>),
    raw_line: Seq<char>,
) -> (Seq<GpuView>, Option<Seq<char>>, Option<u64>) {
    let line = trim(raw_line);
    if line.len() == 0 {
        match st.1 {
            Some(n) => (st.0.push(wmic_gpu(n, st.2)), None, None),
            None => (st.0, None, None),
        }
    } else if has_prefix(line, "Name="@) {
        let v = trim(line.skip(5));
        if v.len() > 0 {
            (st.0, Some(v), st.2)
        } else {
            st
        }
    } else if has_prefix(line, "AdapterRAM="@) {
        (st.0, st.1, parsed_u64(trim(line.skip(11))))
    } else {
        st
    }
}

/// A GPU read from a `wmic` block.
pub open spec fn wmic_gpu(name: Seq<char>, ram: Option<u64>) -> GpuView {
    GpuView {
        name,
        vram_total_mb: match ram {
            Some(b) => Some(adapter_ram_mb(b)),
            None => None,
        },
        vram_used_mb: None,
        is_unified_memory: false,
    }
}

/// The state after reading the lines.
pub open spec fn wmic_state(ls: Seq<Seq<char>>) -> (Seq<GpuView>, Option<Seq<char>>, Option<u64>)
    decreases ls.len(),
{
    if ls.len() == 0 {
        (Seq::empty(), None, None)
    } else {
        wmic_step(wmic_state(ls.drop_last()), ls.last())
    }
}

/// The GPUs of `wmic ... get Name,AdapterRAM /value` output: blocks of
/// `Key=value` lines separated by blank lines, the last block kept too.
pub open spec fn wmic_gpus_of(stdout: Seq<char>) -> Seq<GpuView> {
    let st = wmic_state(lines(stdout));
    match st.1 {
        Some(n) => st.0.push(wmic_gpu(n, st.2)),
        None => st.0,
    }
}

/// The value after `key` on a trimmed line that starts with it.
fn value_after(line: &Vec<char>, key: &str) -> (v: Option<Vec<char>>)
    ensures
        match v {
            Some(x) => has_prefix(line@, key@) && x@ == trim(line@.skip(key@.len() as int)),
            None => !has_prefix(line@, key@),
        },
{
    let k = chars_of(key);
    if starts_with_chars(line.as_slice(), k.as_slice()) {
        let rest = copy_range(line.as_slice(), k.len(), line.len());
        assert(rest@ =~= line@.skip(key@.len() as int));
        Some(trim_chars(rest.as_slice()))
    } else {
        None
    }
}

/// A GPU read from a `wmic` block.
fn make_wmic_gpu(name: Vec<char>, ram: Option<u64>) -> (g: GpuInfo)
    ensures
        g@ == wmic_gpu(name@, ram),
{
    GpuInfo {
        name: string_from_chars(name.as_slice()),
        vram_total_mb: match ram {
            Some(b) => Some(wmic_adapter_ram_to_mb(b)),
            None => None,
        },
        vram_used_mb: None,
        is_unified_memory: false,
    }
}

/// The GPUs in `wmic path win32_VideoController get Name,AdapterRAM /value`
/// output.
pub fn parse_wmic_gpus(stdout: &str) -> (gpus: Vec<GpuInfo>)
    ensures
        gpu_views(gpus@) == wmic_gpus_of(stdout@),
{
    let cs = chars_of(stdout);
    let ls = lines_of(cs.as_slice());
    let ghost lv = crate::text::seqs_of(ls@);
    let mut gpus: Vec<GpuInfo> = Vec::new();
    let mut name: Option<Vec<char>> = None;
    let mut ram: Option<u64> = None;
    let mut k: usize = 0;
    while k < ls.len()
        invariant
            k <= ls@.len(),
            lv == crate::text::seqs_of(ls@),
            lv == lines(stdout@),
            wmic_state(lv.take(k as int)) == (gpu_views(gpus@), match name {
                Some(n) => Some(n@),
                None => None::<Seq<char>>,
            }, ram),
        decreases ls@.len() - k,
    {
        assert(lv.take(k + 1).drop_last() =~= lv.take(k as int));
        let line = trim_chars(ls[k].as_slice());
        if line.len() == 0 {
            match name {
                Some(n) => {
                    let ghost prev = gpus@;
                    let g = make_wmic_gpu(n, ram);
                    gpus.push(g);
                    assert(gpu_views(gpus@) =~= gpu_views(prev).push(g@));
                },
                None => {},
            }
            name = None;
            ram = None;
        } else {
            match value_after(&line, "Name=") {
                Some(v) => {
                    proof {
                        reveal_strlit("Name=");
                    }
                    if v.len() > 0 {
                        name = Some(v);
                    }
                },
                None => {
                    match value_after(&line, "AdapterRAM=") {
                        Some(v) => {
                            proof {
                                reveal_strlit("AdapterRAM=");
                            }
                            ram = parse_u64_chars(v.as_slice());
                        },
                        None => {},
                    }
                },
            }
        }
        k = k + 1;
    }
    assert(lv.take(k as int) =~= lv);
    match name {
        Some(n) => {
            let ghost prev = gpus@;
            let g = make_wmic_gpu(n, ram);
            gpus.push(g);
            assert(gpu_views(gpus@) =~= gpu_views(prev).push(g@));
        },
        None => {},
    }
    gpus
}

/// Reading memory-counter blocks: the (instance, megabytes) pairs finished,
/// and the usage and name of the block being read.
pub open spec fn usage_step(
    st: (Seq<(Seq<char>, u64)>, Option<u64>, Option<Seq<char>>),
    raw_line: Seq<char>,
) -> (Seq<(Seq<char>, u64)>, Option<u64>, Option<Seq<char>>) {
    let line = trim(raw_line);
    if line.len() == 0 {
        match (st.2, st.1) {
            (Some(n), Some(u)) => (st.0.push((n, (u / MIB) as u64)), None, None),
            _ => (st.0, None, None),
        }
    } else if has_prefix(line, "DedicatedUsage="@) {
        (st.0, parsed_u64(trim(line.skip(15))), st.2)
    } else if has_prefix(line, "Name="@) {
        (st.0, st.1, Some(trim(line.skip(5))))
    } else {
        st
    }
}

/// The state after reading the lines.
pub open spec fn usage_state(ls: Seq<Seq<char>>) -> (Seq<(Seq<char>, u64)>, Option<u64>, Option<Seq<char>>)
    decreases ls.len(),
{
    if ls.len() == 0 {
        (Seq::empty(), None, None)
    } else {
        usage_step(usage_state(ls.drop_last()), ls.last())
    }
}

/// The (instance name, megabytes in use) pairs of GPU adapter memory
/// counters in `wmic ... get DedicatedUsage,Name /value` output.
pub open spec fn vram_usage_of(stdout: Seq<char>) -> Seq<(Seq<char>, u64)> {
    let st = usage_state(lines(stdout));
    match (st.2, st.1) {
        (Some(n), Some(u)) => st.0.push((n, (u / MIB) as u64)),
        _ => st.0,
    }
}

/// The views of (name, number) pairs.
pub open spec fn pair_views(v: Seq<(String, u64)>) -> Seq<(Seq<char>, u64)> {
    Seq::new(v.len(), |i: int| (v[i].0@, v[i].1))
}

/// Parse the dedicated video memory in use per adapter instance.
pub fn parse_vram_usage(stdout: &str) -> (usage: Vec<(String, u64)>)
    ensures
        pair_views(usage@) == vram_usage_of(stdout@),
{
    let cs = chars_of(stdout);
    let ls = lines_of(cs.as_slice());
    let ghost lv = crate::text::seqs_of(ls@);
    let mut out: Vec<(String, u64)> = Vec::new();
    let mut used: Option<u64> = None;
    let mut name: Option<Vec<char>> = None;
    let mut k: usize = 0;
    while k < ls.len()
        invariant
            k <= ls@.len(),
            lv == crate::text::seqs_of(ls@),
            lv == lines(stdout@),
            usage_state(lv.take(k as int)) == (pair_views(out@), used, match name {
                Some(n) => Some(n@),
                None => None::<Seq<char>>,
            }),
        decreases ls@.len() - k,
    {
        assert(lv.take(k + 1).drop_last() =~= lv.take(k as int));
        let line = trim_chars(ls[k].as_slice());
        if line.len() == 0 {
            match (name, used) {
                (Some(n), Some(u)) => {
                    let ghost prev = out@;
                    let entry = (string_from_chars(n.as_slice()), u / MIB);
                    out.push(entry);
                    assert(pair_views(out@) =~= pair_views(prev).push((n@, (u / MIB) as u64)));
                },
                _ => {},
            }
            name = None;
            used = None;
        } else {
            match value_after(&line, "DedicatedUsage=") {
                Some(v) => {
                    proof {
                        reveal_strlit("DedicatedUsage=");
                    }
                    used = parse_u64_chars(v.as_slice());
                },
                None => {
                    match value_after(&line, "Name=") {
                        Some(v) => {
                            proof {
                                reveal_strlit("Name=");
                            }
                            name = Some(v);
                        },
                        None => {},
                    }
                },
            }
        }
        k = k + 1;
    }
    assert(lv.take(k as int) =~= lv);
    match (name, used) {
        (Some(n), Some(u)) => {
            let ghost prev = out@;
            let entry = (string_from_chars(n.as_slice()), u / MIB);
            out.push(entry);
            assert(pair_views(out@) =~= pair_views(prev).push((n@, (u / MIB) as u64)));
        },
        _ => {},
    }
    out
}

// ---------------------------------------------------------------------------
// macOS
// ---------------------------------------------------------------------------

/// `c` in upper case when it is an ASCII letter.
pub open spec fn ascii_upper(c: char) -> char {
    if 'a' <= c && c <= 'z' {
        ((c as u32) - 32) as char
    } else {
        c
    }
}

/// `c` in lower case when it is an ASCII letter.
pub open spec fn ascii_lower(c: char) -> char {
    if 'A' <= c && c <= 'Z' {
        ((c as u32) + 32) as char
    } else {
        c
    }
}

/// `s` with its ASCII letters in upper case (`str::to_ascii_uppercase`).
pub open spec fn ascii_uppercase(s: Seq<char>) -> Seq<char> {
    s.map_values(|c: char| ascii_upper(c))
}

/// `s` with its ASCII letters in lower case (`str::to_ascii_lowercase`).
pub open spec fn ascii_lowercase(s: Seq<char>) -> Seq<char> {
    s.map_values(|c: char| ascii_lower(c))
}

/// The characters of `cs` with ASCII letters in upper case.
fn to_ascii_upper(cs: &[char]) -> (out: Vec<char>)
    ensures
        out@ == ascii_uppercase(cs@),
{
    let mut out: Vec<char> = Vec::new();
    let mut i: usize = 0;
    while i < cs.len()
        invariant
            i <= cs@.len(),
            out@ == ascii_uppercase(cs@.take(i as int)),
        decreases cs@.len() - i,
    {
        let c = cs[i];
        let u = if 'a' <= c && c <= 'z' {
            match c {
                'a' => 'A', 'b' => 'B', 'c' => 'C', 'd' => 'D', 'e' => 'E', 'f' => 'F',
                'g' => 'G', 'h' => 'H', 'i' => 'I', 'j' => 'J', 'k' => 'K', 'l' => 'L',
                'm' => 'M', 'n' => 'N', 'o' => 'O', 'p' => 'P', 'q' => 'Q', 'r' => 'R',
                's' => 'S', 't' => 'T', 'u' => 'U', 'v' => 'V', 'w' => 'W', 'x' => 'X',
                'y' => 'Y', _ => 'Z',
            }
        } else {
            c
        };
        assert(u == ascii_upper(c));
        out.push(u);
        i = i + 1;
        assert(out@ =~= ascii_uppercase(cs@.take(i as int)));
    }
    assert(cs@.take(i as int) =~= cs@);
    out
}

/// The characters of `cs` with ASCII letters in lower case.
fn to_ascii_lower(cs: &[char]) -> (out: Vec<char>)
    ensures
        out@ == ascii_lowercase(cs@),
{
    let mut out: Vec<char> = Vec::new();
    let mut i: usize = 0;
    while i < cs.len()
        invariant
            i <= cs@.len(),
            out@ == ascii_lowercase(cs@.take(i as int)),
        decreases cs@.len() - i,
    {
        let c = cs[i];
        let u = if 'A' <= c && c <= 'Z' {
            match c {
                'A' => 'a', 'B' => 'b', 'C' => 'c', 'D' => 'd', 'E' => 'e', 'F' => 'f',
                'G' => 'g', 'H' => 'h', 'I' => 'i', 'J' => 'j', 'K' => 'k', 'L' => 'l',
                'M' => 'm', 'N' => 'n', 'O' => 'o', 'P' => 'p', 'Q' => 'q', 'R' => 'r',
                'S' => 's', 'T' => 't', 'U' => 'u', 'V' => 'v', 'W' => 'w', 'X' => 'x',
                'Y' => 'y', _ => 'z',
            }
        } else {
            c
        };
        assert(u == ascii_lower(c));
        out.push(u);
        i = i + 1;
        assert(out@ =~= ascii_lowercase(cs@.take(i as int)));
    }
    assert(cs@.take(i as int) =~= cs@);
    out
}

/// The part of `s` before the suffix `p`, if `s` ends with it.
pub open spec fn before_suffix(s: Seq<char>, p: Seq<char>) -> Option<Seq<char>> {
    if p.len() <= s.len() && s.skip(s.len() - p.len()) == p {
        Some(s.take(s.len() - p.len()))
    } else {
        None
    }
}

/// The megabytes a display's video memory field states (`4096 MB`,
/// `1 GB`; any case, surrounding white space ignored).
pub open spec fn vram_field_mb(raw: Seq<char>) -> Option<u64> {
    let up = ascii_uppercase(trim(raw));
    match before_suffix(up, " MB"@) {
        Some(n) => parsed_u64(trim(n)),
        None => match before_suffix(up, " GB"@) {
            Some(n) => match parsed_u64(trim(n)) {
                Some(gb) => Some((gb * 1024) as u64),
                None => None,
            },
            None => None,
        },
    }
}

/// Whether a video memory field states more gigabytes than fit in 64 bits
/// of megabytes.
pub open spec fn vram_field_overflows(raw: Seq<char>) -> bool {
    let up = ascii_uppercase(trim(raw));
    before_suffix(up, " MB"@) is None && match before_suffix(up, " GB"@) {
        Some(n) => match parsed_u64(trim(n)) {
            Some(gb) => gb * 1024 > u64::MAX,
            None => false,
        },
        None => false,
    }
}

/// The part of `cs` before `suffix`, if `cs` ends with it.
fn strip_suffix_chars(cs: &Vec<char>, suffix: &str) -> (rest: Option<Vec<char>>)
    ensures
        match rest {
            Some(r) => before_suffix(cs@, suffix@) == Some(r@),
            None => before_suffix(cs@, suffix@) is None,
        },
{
    let p = chars_of(suffix);
    if crate::text::ends_with_chars(cs.as_slice(), p.as_slice()) {
        Some(copy_range(cs.as_slice(), 0, cs.len() - p.len()))
    } else {
        None
    }
}

/// Read a display's video memory field in megabytes.
pub fn parse_vram_field(raw: &str) -> (mb: Option<u64>)
    requires
        !vram_field_overflows(raw@),
    ensures
        mb == vram_field_mb(raw@),
{
    let cs = chars_of(raw);
    let t = trim_chars(cs.as_slice());
    let up = to_ascii_upper(t.as_slice());
    match strip_suffix_chars(&up, " MB") {
        Some(n) => {
            let nt = trim_chars(n.as_slice());
            parse_u64_chars(nt.as_slice())
        },
        None => match strip_suffix_chars(&up, " GB") {
            Some(n) => {
                let nt = trim_chars(n.as_slice());
                match parse_u64_chars(nt.as_slice()) {
                    Some(gb) => Some(gb * 1024),
                    None => None,
                }
            },
            None => None,
        },
    }
}

/// Whether a display's video memory field states more gigabytes than fit
/// in 64 bits of megabytes (reading it would overflow).
pub fn vram_field_overflows_text(raw: &str) -> (overflows: bool)
    ensures
        overflows == vram_field_overflows(raw@),
{
    let cs = chars_of(raw);
    let t = trim_chars(cs.as_slice());
    let up = to_ascii_upper(t.as_slice());
    if strip_suffix_chars(&up, " MB").is_some() {
        return false;
    }
    match strip_suffix_chars(&up, " GB") {
        Some(n) => {
            let nt = trim_chars(n.as_slice());
            match parse_u64_chars(nt.as_slice()) {
                Some(gb) => gb > u64::MAX / 1024,
                None => false,
            }
        },
        None => false,
    }
}

/// The megabytes of a byte count printed as text (`sysctl -n hw.memsize`,
/// DRM memory files), if it is a number.
pub open spec fn text_bytes_mb(text: Seq<char>) -> Option<u64> {
    match parsed_u64(trim(text)) {
        Some(b) => Some((b / MIB) as u64),
        None => None,
    }
}

/// Read a byte count printed as text, in megabytes.
pub fn bytes_text_to_mb(text: &str) -> (mb: Option<u64>)
    ensures
        mb == text_bytes_mb(text@),
{
    let cs = chars_of(text);
    let t = trim_chars(cs.as_slice());
    match parse_u64_chars(t.as_slice()) {
        Some(b) => Some(b / MIB),
        None => None,
    }
}

/// Whether a chip or CPU type names an Apple processor.
pub fn is_apple_chip(chip: &str) -> (apple: bool)
    ensures
        apple == has_infix(ascii_lowercase(chip@), "apple"@),
{
    let cs = chars_of(chip);
    let low = to_ascii_lower(cs.as_slice());
    let pat = chars_of("apple");
    crate::text::infix_of(low.as_slice(), pat.as_slice())
}

// ---------------------------------------------------------------------------
// Windows registry
// ---------------------------------------------------------------------------

/// The little-endian value of the first eight bytes.
pub open spec fn le_u64(b: Seq<u8>) -> nat {
    b[0] as nat + b[1] as nat * 0x100 + b[2] as nat * 0x1_0000 + b[3] as nat * 0x100_0000
        + b[4] as nat * 0x1_0000_0000 + b[5] as nat * 0x100_0000_0000 + b[6] as nat
        * 0x1_0000_0000_0000 + b[7] as nat * 0x100_0000_0000_0000
}

/// The little-endian value of the first four bytes.
pub open spec fn le_u32(b: Seq<u8>) -> nat {
    b[0] as nat + b[1] as nat * 0x100 + b[2] as nat * 0x1_0000 + b[3] as nat * 0x100_0000
}

/// The megabytes a registry memory-size value gives: eight or more bytes
/// are a 64-bit count; four bytes a 32-bit count, read as `AdapterRAM` when
/// `correct_overflow`; a zero count or another length gives nothing.
pub open spec fn registry_value_mb(bytes: Seq<u8>, correct_overflow: bool) -> Option<u64> {
    if bytes.len() >= 8 {
        if le_u64(bytes) == 0 {
            None
        } else {
            Some((le_u64(bytes) / MIB as nat) as u64)
        }
    } else if bytes.len() == 4 {
        if le_u32(bytes) == 0 {
            None
        } else if correct_overflow {
            Some(adapter_ram_mb(le_u32(bytes) as u64))
        } else {
            Some((le_u32(bytes) / MIB as nat) as u64)
        }
    } else {
        None
    }
}

/// Read a registry memory-size value in megabytes.
pub fn registry_vram_mb(bytes: &[u8], correct_overflow: bool) -> (mb: Option<u64>)
    ensures
        mb == registry_value_mb(bytes@, correct_overflow),
{
    if bytes.len() >= 8 {
        let raw: u64 = bytes[0] as u64 + bytes[1] as u64 * 0x100 + bytes[2] as u64 * 0x1_0000
            + bytes[3] as u64 * 0x100_0000 + bytes[4] as u64 * 0x1_0000_0000 + bytes[5] as u64
            * 0x100_0000_0000 + bytes[6] as u64 * 0x1_0000_0000_0000 + bytes[7] as u64
            * 0x100_0000_0000_0000;
        if raw == 0 {
            None
        } else {
            Some(raw / MIB)
        }
    } else if bytes.len() == 4 {
        let raw: u64 = bytes[0] as u64 + bytes[1] as u64 * 0x100 + bytes[2] as u64 * 0x1_0000
            + bytes[3] as u64 * 0x100_0000;
        if raw == 0 {
            None
        } else if correct_overflow {
            Some(wmic_adapter_ram_to_mb(raw))
        } else {
            Some(raw / MIB)
        }
    } else {
        None
    }
}

/// The video memory of a display adapter's registry key: the 64-bit
/// `qwMemorySize` value, else the older `MemorySize` value read as
/// `AdapterRAM`. Missing values are `None`.
pub fn registry_adapter_vram(qword: Option<Vec<u8>>, dword: Option<Vec<u8>>) -> (mb: Option<u64>)
    ensures
        mb == match match qword {
            Some(q) => registry_value_mb(q@, false),
            None => None,
        } {
            Some(v) => Some(v),
            None => match dword {
                Some(d) => registry_value_mb(d@, true),
                None => None,
            },
        },
{
    let first = match &qword {
        Some(q) => registry_vram_mb(q.as_slice(), false),
        None => None,
    };
    match first {
        Some(v) => Some(v),
        None => match &dword {
            Some(d) => registry_vram_mb(d.as_slice(), true),
            None => None,
        },
    }
}

/// The GPUs of the display adapters' registry keys, (driver description,
/// video memory) in key order: blank descriptions are skipped, and the list
/// counts only if some adapter has a known video memory.
pub open spec fn registry_gpus_of(adapters: Seq<(Seq<char>, Option<u64>)>) -> Seq<GpuView>
    decreases adapters.len(),
{
    if adapters.len() == 0 {
        Seq::empty()
    } else {
        let prev = registry_gpus_of(adapters.drop_last());
        let a = adapters.last();
        if trim(a.0).len() == 0 {
            prev
        } else {
            prev.push(
                GpuView { name: a.0, vram_total_mb: a.1, vram_used_mb: None, is_unified_memory: false },
            )
        }
    }
}

/// The views of (name, number) pairs with an optional number.
pub open spec fn opt_pair_views(v: Seq<(String, Option<u64>)>) -> Seq<(Seq<char>, Option<u64>)> {
    Seq::new(v.len(), |i: int| (v[i].0@, v[i].1))
}

/// Build the registry GPU list; `None` when no adapter has a known video
/// memory.
pub fn registry_gpus(adapters: Vec<(String, Option<u64>)>) -> (gpus: Option<Vec<GpuInfo>>)
    ensures
        match gpus {
            Some(v) => gpu_views(v@) == registry_gpus_of(opt_pair_views(adapters@)) && exists|i: int|
                0 <= i < v@.len() && (#[trigger] v@[i]).vram_total_mb is Some,
            None => forall|i: int|
                0 <= i < registry_gpus_of(opt_pair_views(adapters@)).len() ==> (
                #[trigger] registry_gpus_of(opt_pair_views(adapters@))[i]).vram_total_mb is None,
        },
{
    let ghost all = opt_pair_views(adapters@);
    let mut out: Vec<GpuInfo> = Vec::new();
    let mut any = false;
    let mut i: usize = 0;
    while i < adapters.len()
        invariant
            i <= adapters@.len(),
            all == opt_pair_views(adapters@),
            gpu_views(out@) == registry_gpus_of(all.take(i as int)),
            any == exists|j: int| 0 <= j < out@.len() && (#[trigger] out@[j]).vram_total_mb is Some,
        decreases adapters@.len() - i,
    {
        assert(all.take(i + 1).drop_last() =~= all.take(i as int));
        let name_cs = chars_of(adapters[i].0.as_str());
        let t = trim_chars(name_cs.as_slice());
        if t.len() > 0 {
            let ghost prev = out@;
            let g = GpuInfo {
                name: adapters[i].0.clone(),
                vram_total_mb: adapters[i].1,
                vram_used_mb: None,
                is_unified_memory: false,
            };
            if g.vram_total_mb.is_some() {
                any = true;
            }
            out.push(g);
            assert(gpu_views(out@) =~= gpu_views(prev).push(g@));
            assert(out@[out@.len() - 1] == g);
            assert(forall|j: int| 0 <= j < prev.len() ==> out@[j] == prev[j]);
        }
        i = i + 1;
    }
    assert(all.take(i as int) =~= all);
    if any {
        Some(out)
    } else {
        assert forall|j: int| 0 <= j < gpu_views(out@).len() implies (
        #[trigger] gpu_views(out@)[j]).vram_total_mb is None by {
            assert(out@[j].vram_total_mb is None);
        }
        None
    }
}

// ---------------------------------------------------------------------------
// Linux DRM
// ---------------------------------------------------------------------------

/// Whether a `/sys/class/drm` entry is a card directory (`cardN`, not a
/// `cardN-...` connector).
pub fn is_drm_card(entry_name: &str) -> (card: bool)
    ensures
        card == (has_prefix(entry_name@, "card"@) && !entry_name@.contains('-')),
{
    let cs = chars_of(entry_name);
    if !crate::text::str_starts_with(entry_name, "card") {
        return false;
    }
    let mut i: usize = 0;
    while i < cs.len()
        invariant
            i <= cs@.len(),
            cs@ == entry_name@,
            forall|j: int| 0 <= j < i ==> cs@[j] != '-',
        decreases cs@.len() - i,
    {
        if cs[i] == '-' {
            assert(entry_name@[i as int] == '-');
            return false;
        }
        i = i + 1;
    }
    true
}

/// The driver named on the first `DRIVER=` line of a `uevent` file.
pub open spec fn uevent_driver(ls: Seq<Seq<char>>) -> Option<Seq<char>>
    decreases ls.len(),
{
    if ls.len() == 0 {
        None
    } else if has_prefix(ls[0], "DRIVER="@) {
        Some(trim(ls[0].skip(7)))
    } else {
        uevent_driver(ls.drop_first())
    }
}

/// The display name of a DRM card: its trimmed `product_name` when not
/// blank, else the driver of its `uevent` file, else nothing.
pub open spec fn drm_name_of(product: Option<Seq<char>>, uevent: Option<Seq<char>>) -> Option<Seq<char>> {
    let named = match product {
        Some(p) => if trim(p).len() > 0 {
            Some(trim(p))
        } else {
            None
        },
        None => None,
    };
    match named {
        Some(n) => Some(n),
        None => match uevent {
            Some(u) => uevent_driver(lines(u)),
            None => None,
        },
    }
}

/// Name a DRM card from its `product_name` and `uevent` files.
pub fn drm_card_name(product: Option<String>, uevent: Option<String>) -> (name: Option<String>)
    ensures
        opt_view(name) == drm_name_of(opt_view(product), opt_view(uevent)),
{
    let named: Option<String> = match &product {
        Some(p) => {
            let cs = chars_of(p.as_str());
            let t = trim_chars(cs.as_slice());
            if t.len() > 0 {
                Some(string_from_chars(t.as_slice()))
            } else {
                None
            }
        },
        None => None,
    };
    if named.is_some() {
        return named;
    }
    match &uevent {
        Some(u) => {
            let cs = chars_of(u.as_str());
            let ls = lines_of(cs.as_slice());
            let ghost lv = crate::text::seqs_of(ls@);
            let mut k: usize = 0;
            assert(lv.skip(0) =~= lv);
            while k < ls.len()
                invariant
                    k <= ls@.len(),
                    lv == crate::text::seqs_of(ls@),
                    lv == lines(u@),
                    opt_view(uevent) == Some(u@),
                    product is Some ==> trim(product->Some_0@).len() == 0,
                    uevent_driver(lv) == uevent_driver(lv.skip(k as int)),
                decreases ls@.len() - k,
            {
                assert(lv.skip(k as int).drop_first() =~= lv.skip(k + 1));
                assert(lv.skip(k as int)[0] == ls@[k as int]@);
                match value_after(&ls[k], "DRIVER=") {
                    Some(v) => {
                        proof {
                            reveal_strlit("DRIVER=");
                        }
                        assert(uevent_driver(lv.skip(k as int)) == Some(v@));
                        return Some(string_from_chars(v.as_slice()));
                    },
                    None => {},
                }
                k = k + 1;
            }
            None
        },
        None => None,
    }
}

/// The view of an optional string.
pub open spec fn opt_view(s: Option<String>) -> Option<Seq<char>> {
    match s {
        Some(t) => Some(t@),
        None => None,
    }
}

// ---------------------------------------------------------------------------
// DXGI adapters
// ---------------------------------------------------------------------------

/// An adapter as the graphics interface lists it: name, dedicated video
/// memory in megabytes and its LUID prefix (`luid_0xHHHHHHHH_0xLLLLLLLL`).
pub struct DxgiAdapter {
    pub name: String,
    pub total_mb: u64,
    pub luid_prefix: String,
}

/// Whether an adapter is a software or virtual one.
pub fn is_software_adapter(name: &str) -> (software: bool)
    ensures
        software == (has_infix(name@, "Microsoft"@) || has_infix(name@, "Basic Render"@)),
{
    str_contains(name, "Microsoft") || str_contains(name, "Basic Render")
}

/// The LUID prefix of an adapter's performance-counter instances.
pub open spec fn luid_prefix_of(high: u32, low: u32) -> Seq<char> {
    "luid_0x"@ + zero_padded(hexadecimal(high as nat), 8) + "_0x"@ + zero_padded(
        hexadecimal(low as nat),
        8,
    )
}

/// Format an adapter LUID (high part as unsigned) as its counter prefix.
pub fn luid_prefix(high: u32, low: u32) -> (prefix: String)
    ensures
        prefix@ == luid_prefix_of(high, low),
{
    let mut out = chars_of("luid_0x");
    push_padded_hexadecimal(&mut out, high as u64, 8);
    let mid = chars_of("_0x");
    crate::text::extend_chars(&mut out, mid.as_slice());
    push_padded_hexadecimal(&mut out, low as u64, 8);
    assert(out@ =~= luid_prefix_of(high, low));
    string_from_chars(out.as_slice())
}

/// The megabytes in use over the counter instances whose lower-cased name
/// starts with `luid`.
pub open spec fn usage_total(usage: Seq<(Seq<char>, u64)>, luid: Seq<char>) -> nat
    decreases usage.len(),
{
    if usage.len() == 0 {
        0
    } else {
        usage_total(usage.drop_last(), luid) + if has_prefix(unicode_lowercase(usage.last().0), luid) {
            usage.last().1 as nat
        } else {
            0nat
        }
    }
}

/// The megabytes in use over the counter instances of `luid` (lower case),
/// `None` when the sum does not fit in 64 bits.
pub fn matched_usage(usage: &Vec<(String, u64)>, luid: &str) -> (total: Option<u64>)
    ensures
        match total {
            Some(t) => t == usage_total(pair_views(usage@), luid@),
            None => usage_total(pair_views(usage@), luid@) > u64::MAX,
        },
{
    let ghost pv = pair_views(usage@);
    let mut sum: u64 = 0;
    let mut i: usize = 0;
    while i < usage.len()
        invariant
            i <= usage@.len(),
            pv == pair_views(usage@),
            sum == usage_total(pv.take(i as int), luid@),
        decreases usage@.len() - i,
    {
        assert(pv.take(i + 1).drop_last() =~= pv.take(i as int));
        let lower = usage[i].0.to_lowercase();
        if crate::text::str_starts_with(lower.as_str(), luid) {
            if sum > u64::MAX - usage[i].1 {
                proof {
                    lemma_usage_total_grows(pv, luid@, i + 1);
                }
                return None;
            }
            sum = sum + usage[i].1;
        }
        i = i + 1;
    }
    assert(pv.take(i as int) =~= pv);
    Some(sum)
}

proof fn lemma_usage_total_grows(usage: Seq<(Seq<char>, u64)>, luid: Seq<char>, k: int)
    requires
        0 <= k <= usage.len(),
    ensures
        usage_total(usage.take(k), luid) <= usage_total(usage, luid),
    decreases usage.len() - k,
{
    if k < usage.len() {
        lemma_usage_total_grows(usage, luid, k + 1);
        assert(usage.take(k + 1).drop_last() =~= usage.take(k));
    } else {
        assert(usage.take(k) =~= usage);
    }
}

/// The GPU an adapter gives, if it is not a small integrated one (under
/// 1 GB of its own memory): memory in use is the counter total of its LUID,
/// unknown when there are no counters.
pub open spec fn dxgi_gpu_of(name: Seq<char>, total_mb: u64, luid: Seq<char>, usage: Seq<(Seq<char>, u64)>) -> Option<GpuView> {
    if total_mb > 0 && total_mb < 1024 {
        None
    } else {
        Some(
            GpuView {
                name,
                vram_total_mb: if total_mb > 0 { Some(total_mb) } else { None },
                vram_used_mb: if usage.len() == 0 {
                    None
                } else {
                    Some(usage_total(usage, unicode_lowercase(luid)) as u64)
                },
                is_unified_memory: false,
            },
        )
    }
}

/// The content of an adapter.
pub open spec fn adapter_view(a: DxgiAdapter) -> (Seq<char>, u64, Seq<char>) {
    (a.name@, a.total_mb, a.luid_prefix@)
}

/// The GPUs of a list of adapters, in order.
pub open spec fn dxgi_gpus_of(adapters: Seq<(Seq<char>, u64, Seq<char>)>, usage: Seq<(Seq<char>, u64)>) -> Seq<GpuView>
    decreases adapters.len(),
{
    if adapters.len() == 0 {
        Seq::empty()
    } else {
        let prev = dxgi_gpus_of(adapters.drop_last(), usage);
        let a = adapters.last();
        match dxgi_gpu_of(a.0, a.1, a.2, usage) {
            Some(g) => prev.push(g),
            None => prev,
        }
    }
}

/// The views of adapters.
pub open spec fn adapter_views(v: Seq<DxgiAdapter>) -> Seq<(Seq<char>, u64, Seq<char>)> {
    Seq::new(v.len(), |i: int| adapter_view(v[i]))
}

/// Whether every adapter's counter total fits in 64 bits.
pub open spec fn usage_fits(adapters: Seq<(Seq<char>, u64, Seq<char>)>, usage: Seq<(Seq<char>, u64)>) -> bool {
    forall|i: int|
        0 <= i < adapters.len() ==> usage_total(usage, unicode_lowercase(#[trigger] adapters[i].2))
            <= u64::MAX
}

/// The GPUs of the listed adapters with the system-wide memory in use
/// from the counter instances.
pub fn dxgi_gpus(adapters: &Vec<DxgiAdapter>, usage: &Vec<(String, u64)>) -> (gpus: Vec<GpuInfo>)
    requires
        usage_fits(adapter_views(adapters@), pair_views(usage@)),
    ensures
        gpu_views(gpus@) == dxgi_gpus_of(adapter_views(adapters@), pair_views(usage@)),
{
    let ghost av = adapter_views(adapters@);
    let ghost pv = pair_views(usage@);
    let mut out: Vec<GpuInfo> = Vec::new();
    let mut i: usize = 0;
    while i < adapters.len()
        invariant
            i <= adapters@.len(),
            av == adapter_views(adapters@),
            pv == pair_views(usage@),
            usage_fits(av, pv),
            gpu_views(out@) == dxgi_gpus_of(av.take(i as int), pv),
        decreases adapters@.len() - i,
    {
        assert(av.take(i + 1).drop_last() =~= av.take(i as int));
        let a = &adapters[i];
        let lower = a.luid_prefix.to_lowercase();
        let used = if usage.len() == 0 {
            None
        } else {
            assert(usage_total(pv, unicode_lowercase(av[i as int].2)) <= u64::MAX);
            matched_usage(usage, lower.as_str())
        };
        if !(a.total_mb > 0 && a.total_mb < 1024) {
            let ghost prev = out@;
            let g = GpuInfo {
                name: a.name.clone(),
                vram_total_mb: if a.total_mb > 0 {
                    Some(a.total_mb)
                } else {
                    None
                },
                vram_used_mb: used,
                is_unified_memory: false,
            };
            out.push(g);
            assert(gpu_views(out@) =~= gpu_views(prev).push(g@));
        }
        i = i + 1;
    }
    assert(av.take(i as int) =~= av);
    out
}

/// The GPUs of the listed adapters, `None` when some adapter's counter
/// total does not fit in 64 bits.
pub fn dxgi_gpus_checked(adapters: &Vec<DxgiAdapter>, usage: &Vec<(String, u64)>) -> (gpus: Option<Vec<GpuInfo>>)
    ensures
        match gpus {
            Some(g) => gpu_views(g@) == dxgi_gpus_of(adapter_views(adapters@), pair_views(usage@)),
            None => !usage_fits(adapter_views(adapters@), pair_views(usage@)),
        },
{
    let ghost av = adapter_views(adapters@);
    let ghost pv = pair_views(usage@);
    let mut i: usize = 0;
    while i < adapters.len()
        invariant
            i <= adapters@.len(),
            av == adapter_views(adapters@),
            pv == pair_views(usage@),
            forall|j: int| 0 <= j < i ==> usage_total(pv, unicode_lowercase(#[trigger] av[j].2)) <= u64::MAX,
        decreases adapters@.len() - i,
    {
        let lower = adapters[i].luid_prefix.to_lowercase();
        if matched_usage(usage, lower.as_str()).is_none() {
            assert(av[i as int].2 == adapters@[i as int].luid_prefix@);
            assert(!(usage_total(pv, unicode_lowercase(av[i as int].2)) <= u64::MAX));
            return None;
        }
        i = i + 1;
    }
    Some(dxgi_gpus(adapters, usage))
}

/// Two entries for one physical GPU merged: memory in use is the larger
/// known value, total memory the larger known value.
pub open spec fn merged_gpu(a: GpuView, b: GpuView) -> GpuView {
    GpuView {
        vram_used_mb: match (a.vram_used_mb, b.vram_used_mb) {
            (Some(x), Some(y)) => Some(if x >= y { x } else { y }),
            (Some(x), None) => Some(x),
            (None, Some(y)) => Some(y),
            _ => None,
        },
        vram_total_mb: match b.vram_total_mb {
            Some(bt) => Some(
                match a.vram_total_mb {
                    Some(at) => if at >= bt {
                        at
                    } else {
                        bt
                    },
                    None => bt,
                },
            ),
            None => a.vram_total_mb,
        },
        ..a
    }
}

/// Consecutive entries with the same name merged into the first of them.
pub open spec fn deduped_gpus(gpus: Seq<GpuView>) -> Seq<GpuView>
    decreases gpus.len(),
{
    if gpus.len() == 0 {
        Seq::empty()
    } else {
        let prev = deduped_gpus(gpus.drop_last());
        let g = gpus.last();
        if prev.len() > 0 && prev.last().name == g.name {
            prev.update(prev.len() - 1, merged_gpu(prev.last(), g))
        } else {
            prev.push(g)
        }
    }
}

/// A run of entries that all name the same GPU merges into one entry with
/// that name and the first entry's unified-memory flag, whose total and
/// used memory are the largest known among them (at least every known
/// value and equal to one of them), and unknown only when no entry knows it.
pub proof fn law_dedup_merges_run_to_max(gpus: Seq<GpuView>)
    requires
        gpus.len() > 0,
        forall|i: int| 0 <= i < gpus.len() ==> #[trigger] gpus[i].name == gpus[0].name,
    ensures
        deduped_gpus(gpus).len() == 1,
        deduped_gpus(gpus)[0].name == gpus[0].name,
        deduped_gpus(gpus)[0].is_unified_memory == gpus[0].is_unified_memory,
        forall|i: int|
            0 <= i < gpus.len() ==> (#[trigger] gpus[i].vram_total_mb matches Some(t) ==> (deduped_gpus(
                gpus,
            )[0].vram_total_mb matches Some(m) && m >= t)),
        deduped_gpus(gpus)[0].vram_total_mb matches Some(m) ==> exists|i: int|
            0 <= i < gpus.len() && #[trigger] gpus[i].vram_total_mb == Some(m),
        forall|i: int|
            0 <= i < gpus.len() ==> (#[trigger] gpus[i].vram_used_mb matches Some(t) ==> (deduped_gpus(
                gpus,
            )[0].vram_used_mb matches Some(m) && m >= t)),
        deduped_gpus(gpus)[0].vram_used_mb matches Some(m) ==> exists|i: int|
            0 <= i < gpus.len() && #[trigger] gpus[i].vram_used_mb == Some(m),
    decreases gpus.len(),
{
    if gpus.len() > 1 {
        let rest = gpus.drop_last();
        assert forall|i: int| 0 <= i < rest.len() implies #[trigger] rest[i].name == rest[0].name by {
            assert(rest[i] == gpus[i]);
        }
        law_dedup_merges_run_to_max(rest);
        let prev = deduped_gpus(rest);
        let g = gpus.last();
        assert(g.name == gpus[0].name);
        assert(deduped_gpus(gpus) == prev.update(0, merged_gpu(prev[0], g)));
        let out = deduped_gpus(gpus)[0];
        assert forall|i: int| 0 <= i < gpus.len() implies (#[trigger] gpus[i].vram_total_mb matches Some(t) ==> (
            out.vram_total_mb matches Some(m) && m >= t)) by {
            if i < gpus.len() - 1 {
                assert(rest[i] == gpus[i]);
            }
        }
        assert forall|i: int| 0 <= i < gpus.len() implies (#[trigger] gpus[i].vram_used_mb matches Some(t) ==> (
            out.vram_used_mb matches Some(m) && m >= t)) by {
            if i < gpus.len() - 1 {
                assert(rest[i] == gpus[i]);
            }
        }
        if out.vram_total_mb is Some {
            let m = out.vram_total_mb->0;
            if prev[0].vram_total_mb == Some(m) {
                let i = choose|i: int| 0 <= i < rest.len() && #[trigger] rest[i].vram_total_mb == Some(m);
                assert(gpus[i] == rest[i]);
            } else {
                assert(gpus[gpus.len() - 1].vram_total_mb == Some(m));
            }
        }
        if out.vram_used_mb is Some {
            let m = out.vram_used_mb->0;
            if prev[0].vram_used_mb == Some(m) {
                let i = choose|i: int| 0 <= i < rest.len() && #[trigger] rest[i].vram_used_mb == Some(m);
                assert(gpus[i] == rest[i]);
            } else {
                assert(gpus[gpus.len() - 1].vram_used_mb == Some(m));
            }
        }
    } else {
        assert(deduped_gpus(gpus.drop_last()) =~= Seq::<GpuView>::empty());
        assert(deduped_gpus(gpus) =~= seq![gpus[0]]);
    }
}

/// After merging, no two neighbouring entries name the same GPU, and there
/// are never more entries than before.
pub proof fn law_dedup_leaves_no_neighbouring_duplicates(gpus: Seq<GpuView>)
    ensures
        deduped_gpus(gpus).len() <= gpus.len(),
        forall|k: int|
            0 <= k < deduped_gpus(gpus).len() - 1 ==> #[trigger] deduped_gpus(gpus)[k].name != deduped_gpus(
                gpus,
            )[k + 1].name,
    decreases gpus.len(),
{
    if gpus.len() > 0 {
        law_dedup_leaves_no_neighbouring_duplicates(gpus.drop_last());
    }
}

/// Merge consecutive entries that name the same GPU (an adapter can be
/// listed twice).
pub fn dedup_gpus(gpus: Vec<GpuInfo>) -> (out: Vec<GpuInfo>)
    ensures
        gpu_views(out@) == deduped_gpus(gpu_views(gpus@)),
{
    let ghost gv = gpu_views(gpus@);
    let mut out: Vec<GpuInfo> = Vec::new();
    let mut i: usize = 0;
    while i < gpus.len()
        invariant
            i <= gpus@.len(),
            gv == gpu_views(gpus@),
            gpu_views(out@) == deduped_gpus(gv.take(i as int)),
        decreases gpus@.len() - i,
    {
        assert(gv.take(i + 1).drop_last() =~= gv.take(i as int));
        let b = &gpus[i];
        let n = out.len();
        let same = n > 0 && str_eq(out[n - 1].name.as_str(), b.name.as_str());
        if same {
            let ghost prev = out@;
            let mut a = out.pop().unwrap();
            a.vram_used_mb = match (a.vram_used_mb, b.vram_used_mb) {
                (Some(x), Some(y)) => Some(if x >= y { x } else { y }),
                (Some(x), None) => Some(x),
                (None, Some(y)) => Some(y),
                _ => None,
            };
            match b.vram_total_mb {
                Some(bt) => {
                    a.vram_total_mb = Some(
                        match a.vram_total_mb {
                            Some(at) => if at >= bt {
                                at
                            } else {
                                bt
                            },
                            None => bt,
                        },
                    );
                },
                None => {},
            }
            let ghost na = a;
            out.push(a);
            assert(gpu_views(out@) =~= gpu_views(prev).update(n - 1, na@));
            assert(na@ == merged_gpu(gpu_views(prev)[n - 1], b@));
        } else {
            let ghost prev = out@;
            let g = GpuInfo {
                name: b.name.clone(),
                vram_total_mb: b.vram_total_mb,
                vram_used_mb: b.vram_used_mb,
                is_unified_memory: b.is_unified_memory,
            };
            out.push(g);
            assert(gpu_views(out@) =~= gpu_views(prev).push(g@));
        }
        i = i + 1;
    }
    assert(gv.take(i as int) =~= gv);
    out
}

/// Whether a detection method's answer is taken: it answered, and gave at
/// least one GPU when `need_some` (methods that can answer with nothing).
pub fn detection_answer(found: Option<Vec<GpuInfo>>, need_some: bool) -> (taken: Option<Vec<GpuInfo>>)
    ensures
        match found {
            Some(v) => if need_some && v@.len() == 0 {
                taken is None
            } else {
                taken == Some(v)
            },
            None => taken is None,
        },
{
    match found {
        Some(v) => if need_some && v.len() == 0 {
            None
        } else {
            Some(v)
        },
        None => None,
    }
}

} // verus!

//! The cross-platform collector: the metrics built from one reading of the
//! machine (host, CPU, memory, disks, network, top processes).

use vstd::prelude::*;

use crate::normalizer::{
    all_values_match_status, healthy_model, value_matches_status, MetricStatus, models, push_metric, string_of, unavailable_model, Category, Metric,
    MetricModel, MetricValue, ValueModel,
};
use crate::collectors::reading_keys::{law_reading_keys, reading_keys_hold};
use crate::text::{decimal, push_decimal};

verus! {

/// What `char::is_alphanumeric` answers for a character outside ASCII
/// (membership in Unicode's Alphabetic or Numeric classes).
pub uninterp spec fn unicode_alphanumeric(c: char) -> bool;

/// ASCII letters and digits.
pub open spec fn ascii_alphanumeric(c: char) -> bool {
    ('a' <= c && c <= 'z') || ('A' <= c && c <= 'Z') || ('0' <= c && c <= '9')
}

/// `char::is_alphanumeric` as a function on characters.
pub open spec fn alphanumeric(c: char) -> bool {
    if (c as u32) < 128 {
        ascii_alphanumeric(c)
    } else {
        unicode_alphanumeric(c)
    }
}

/// Calls `char::is_alphanumeric`. Below 0x80 std's source decides by the
/// ranges `'a'..='z'`, `'A'..='Z'` and `'0'..='9'`; above, by Unicode
/// tables, which the contract names without stating.
#[verifier::external_body]
fn is_alphanumeric(c: char) -> (r: bool)
    ensures
        (c as u32) < 128 ==> r == ascii_alphanumeric(c),
        (c as u32) >= 128 ==> r == unicode_alphanumeric(c),
{
    c.is_alphanumeric()
}

/// A network interface name made usable inside a metric key: every
/// character that is not alphanumeric becomes `_`.
pub open spec fn sanitized(s: Seq<char>) -> Seq<char> {
    s.map_values(|c: char| if alphanumeric(c) { c } else { '_' })
}

/// Replaces every non-alphanumeric character of `s` by `_`.
pub fn sanitize_key(s: &str) -> (r: String)
    ensures
        r@ == sanitized(s@),
{
    let mut out = String::new();
    for c in it: s.chars()
        invariant
            it.seq() == s@,
            out@ == sanitized(it.seq().take(it.index() as int)),
    {
        let ghost before = out@;
        let keep = is_alphanumeric(c);
        assert(keep == alphanumeric(c));
        if keep {
            out.push(c);
        } else {
            out.push('_');
        }
        proof {
            assert(it.seq().take(it.index() + 1) =~= it.seq().take(it.index() as int).push(c));
            assert(out@ =~= sanitized(it.seq().take(it.index() + 1)));
        }
    }
    proof {
        assert(s@.take(s@.len() as int) =~= s@);
    }
    out
}

/// One CPU as read from the machine. Numbers are IEEE-754 bits of
/// doubles.
pub struct CpuReading {
    pub brand: String,
    pub vendor_id: String,
    /// Frequency in MHz.
    pub frequency_mhz: u64,
    /// Usage in percent.
    pub usage_pct: u64,
}

/// Memory as read from the machine. Sizes in MB and percentages are
/// IEEE-754 bits of doubles; `swap_total_bytes` is the raw swap size.
pub struct MemoryReading {
    pub total_mb: u64,
    pub used_mb: u64,
    pub available_mb: u64,
    pub usage_pct: u64,
    pub swap_total_bytes: u64,
    pub swap_total_mb: u64,
    pub swap_used_mb: u64,
}

/// The kind of a disk.
#[derive(Debug, Clone, Copy, PartialEq, Eq, Structural)]
pub enum DiskKindReading {
    Hdd,
    Ssd,
    Unknown,
}

/// One disk. Sizes in GB and the percentage are IEEE-754 bits of doubles.
pub struct DiskReading {
    pub name: String,
    pub kind: DiskKindReading,
    pub total_gb: u64,
    pub available_gb: u64,
    pub usage_pct: u64,
}

/// One network interface. Traffic in MB as IEEE-754 bits of doubles.
pub struct NetworkReading {
    pub name: String,
    pub received_mb: u64,
    pub transmitted_mb: u64,
}

/// One process. CPU percentage and memory in MB as IEEE-754 bits.
pub struct ProcessReading {
    pub name: String,
    pub cpu_pct: u64,
    pub mem_mb: u64,
}

/// One reading of the machine.
pub struct SystemReading {
    pub host_name: Option<String>,
    pub os_name: Option<String>,
    pub os_version: Option<String>,
    pub kernel_version: Option<String>,
    pub arch: String,
    pub uptime_seconds: u64,
    pub physical_cores: Option<usize>,
    pub cpus: Vec<CpuReading>,
    /// Global CPU usage in percent (IEEE-754 bits).
    pub global_cpu_usage_pct: u64,
    pub memory: MemoryReading,
    pub disks: Vec<DiskReading>,
    pub networks: Vec<NetworkReading>,
    /// Processes, in any order; the busiest are reported.
    pub processes: Vec<ProcessReading>,
}

/// How many of the busiest processes are reported.
pub const TOP_PROCESSES: usize = 5;

/// A text metric without unit.
pub open spec fn text_model(c: Category, key: Seq<char>, text: Seq<char>, src: Seq<char>) -> MetricModel {
    healthy_model(c, key, ValueModel::Text(text), None, src)
}

/// A number metric with a unit.
pub open spec fn number_model(
    c: Category,
    key: Seq<char>,
    bits: u64,
    unit: Seq<char>,
    src: Seq<char>,
) -> MetricModel {
    healthy_model(c, key, ValueModel::Number(bits), Some(unit), src)
}

/// An integer metric.
pub open spec fn integer_model(
    c: Category,
    key: Seq<char>,
    i: i64,
    unit: Option<Seq<char>>,
    src: Seq<char>,
) -> MetricModel {
    healthy_model(c, key, ValueModel::Integer(i), unit, src)
}

/// A reading that may be missing, shown as "(desconhecido)" then.
pub open spec fn known_or_unknown(o: Option<String>) -> Seq<char> {
    match o {
        Some(s) => s@,
        None => "(desconhecido)"@,
    }
}

/// `prefix`, the decimal index, `suffix`.
pub open spec fn indexed_key(prefix: Seq<char>, i: nat, suffix: Seq<char>) -> Seq<char> {
    prefix + decimal(i) + suffix
}

pub open spec fn machine_models(src: Seq<char>, r: SystemReading) -> Seq<MetricModel> {
    seq![
        text_model(Category::Machine, "hostname"@, known_or_unknown(r.host_name), src),
        text_model(Category::Machine, "os_name"@, known_or_unknown(r.os_name), src),
        text_model(Category::Machine, "os_version"@, known_or_unknown(r.os_version), src),
        text_model(Category::Machine, "kernel_version"@, known_or_unknown(r.kernel_version), src),
        text_model(Category::Machine, "arch"@, r.arch@, src),
        integer_model(Category::Machine, "uptime_seconds"@, r.uptime_seconds as i64, Some("s"@), src),
    ]
}

pub open spec fn cpu_identity_models(src: Seq<char>, cpus: Seq<CpuReading>) -> Seq<MetricModel> {
    if cpus.len() > 0 {
        seq![
            text_model(Category::Cpu, "brand"@, cpus[0].brand@, src),
            text_model(Category::Cpu, "vendor"@, cpus[0].vendor_id@, src),
            number_model(Category::Cpu, "frequency_mhz"@, cpus[0].frequency_mhz, "MHz"@, src),
        ]
    } else {
        seq![unavailable_model(Category::Cpu, "brand"@, src, "sysinfo não detectou CPU"@, false)]
    }
}

pub open spec fn physical_cores_value(o: Option<usize>) -> i64 {
    match o {
        Some(n) => n as i64,
        None => 0,
    }
}

pub open spec fn cpu_count_models(src: Seq<char>, r: SystemReading) -> Seq<MetricModel> {
    seq![
        integer_model(Category::Cpu, "physical_cores"@, physical_cores_value(r.physical_cores), None, src),
        integer_model(Category::Cpu, "logical_cores"@, r.cpus@.len() as i64, None, src),
        number_model(Category::Cpu, "usage_global_pct"@, r.global_cpu_usage_pct, "%"@, src),
    ]
}

/// One usage metric per core, `core_<i>_usage_pct`.
pub open spec fn core_models(src: Seq<char>, cpus: Seq<CpuReading>) -> Seq<MetricModel>
    decreases cpus.len(),
{
    if cpus.len() == 0 {
        seq![]
    } else {
        core_models(src, cpus.drop_last()).push(
            number_model(
                Category::Cpu,
                indexed_key("core_"@, (cpus.len() - 1) as nat, "_usage_pct"@),
                cpus.last().usage_pct,
                "%"@,
                src,
            ),
        )
    }
}

/// Memory metrics; the swap ones only when the machine has swap.
pub open spec fn memory_models(src: Seq<char>, m: MemoryReading) -> Seq<MetricModel> {
    seq![
        number_model(Category::Memory, "total_mb"@, m.total_mb, "MB"@, src),
        number_model(Category::Memory, "used_mb"@, m.used_mb, "MB"@, src),
        number_model(Category::Memory, "available_mb"@, m.available_mb, "MB"@, src),
        number_model(Category::Memory, "usage_pct"@, m.usage_pct, "%"@, src),
    ] + if m.swap_total_bytes > 0 {
        seq![
            number_model(Category::Memory, "swap_total_mb"@, m.swap_total_mb, "MB"@, src),
            number_model(Category::Memory, "swap_used_mb"@, m.swap_used_mb, "MB"@, src),
        ]
    } else {
        seq![]
    }
}

pub open spec fn disk_kind_text(k: DiskKindReading) -> Seq<char> {
    match k {
        DiskKindReading::Hdd => "HDD"@,
        DiskKindReading::Ssd => "SSD"@,
        DiskKindReading::Unknown => "?"@,
    }
}

/// The five metrics of disk number `i`.
pub open spec fn disk_block(src: Seq<char>, i: nat, d: DiskReading) -> Seq<MetricModel> {
    seq![
        text_model(Category::Storage, indexed_key("disk_"@, i, "_name"@), d.name@, src),
        text_model(Category::Storage, indexed_key("disk_"@, i, "_kind"@), disk_kind_text(d.kind), src),
        number_model(Category::Storage, indexed_key("disk_"@, i, "_total_gb"@), d.total_gb, "GB"@, src),
        number_model(
            Category::Storage,
            indexed_key("disk_"@, i, "_available_gb"@),
            d.available_gb,
            "GB"@,
            src,
        ),
        number_model(Category::Storage, indexed_key("disk_"@, i, "_usage_pct"@), d.usage_pct, "%"@, src),
    ]
}

pub open spec fn disks_models(src: Seq<char>, ds: Seq<DiskReading>) -> Seq<MetricModel>
    decreases ds.len(),
{
    if ds.len() == 0 {
        seq![]
    } else {
        disks_models(src, ds.drop_last()) + disk_block(src, (ds.len() - 1) as nat, ds.last())
    }
}

/// The three metrics of a network interface, keyed by its sanitized name.
pub open spec fn network_block(src: Seq<char>, n: NetworkReading) -> Seq<MetricModel> {
    let key = sanitized(n.name@);
    seq![
        text_model(Category::Network, "iface_"@ + key + "_name"@, n.name@, src),
        number_model(Category::Network, "iface_"@ + key + "_received_mb"@, n.received_mb, "MB"@, src),
        number_model(
            Category::Network,
            "iface_"@ + key + "_transmitted_mb"@,
            n.transmitted_mb,
            "MB"@,
            src,
        ),
    ]
}

pub open spec fn networks_models(src: Seq<char>, ns: Seq<NetworkReading>) -> Seq<MetricModel>
    decreases ns.len(),
{
    if ns.len() == 0 {
        seq![]
    } else {
        networks_models(src, ns.drop_last()) + network_block(src, ns.last())
    }
}

/// The three metrics of the process ranked `i`.
pub open spec fn process_block(src: Seq<char>, i: nat, p: ProcessReading) -> Seq<MetricModel> {
    seq![
        text_model(Category::Os, indexed_key("top_proc_"@, i, "_name"@), p.name@, src),
        number_model(Category::Os, indexed_key("top_proc_"@, i, "_cpu_pct"@), p.cpu_pct, "%"@, src),
        number_model(Category::Os, indexed_key("top_proc_"@, i, "_mem_mb"@), p.mem_mb, "MB"@, src),
    ]
}

pub open spec fn processes_models(src: Seq<char>, ps: Seq<ProcessReading>) -> Seq<MetricModel>
    decreases ps.len(),
{
    if ps.len() == 0 {
        seq![]
    } else {
        processes_models(src, ps.drop_last()) + process_block(src, (ps.len() - 1) as nat, ps.last())
    }
}

/// The numeric order of a double given by its bits: larger values rank
/// higher, `0` and `-0` rank alike, infinities at the ends. A NaN ranks by
/// its bits beyond the infinity of its sign.
pub open spec fn usage_rank(bits: u64) -> int {
    if bits >= 0x8000_0000_0000_0000 {
        -((bits % 0x8000_0000_0000_0000) as int)
    } else {
        bits as int
    }
}

/// Process `i` comes before process `j`: it uses more CPU, or as much and
/// was listed first.
pub open spec fn ranks_before(ps: Seq<ProcessReading>, i: int, j: int) -> bool {
    usage_rank(ps[i].cpu_pct) > usage_rank(ps[j].cpu_pct) || (usage_rank(ps[i].cpu_pct)
        == usage_rank(ps[j].cpu_pct) && i < j)
}

/// Among the processes below `m` that are not `taken`, the one that comes
/// first; -1 when there is none.
pub open spec fn best_below(ps: Seq<ProcessReading>, taken: Seq<int>, m: nat) -> int
    decreases m,
{
    if m == 0 {
        -1
    } else {
        let b = best_below(ps, taken, (m - 1) as nat);
        let j = m - 1;
        if taken.contains(j) {
            b
        } else if b == -1 || ranks_before(ps, j, b) {
            j
        } else {
            b
        }
    }
}

/// The indices of the `k` busiest processes, busiest first (ties in list
/// order): what sorting by decreasing CPU usage, stably, puts first.
pub open spec fn busiest_indices(ps: Seq<ProcessReading>, k: nat) -> Seq<int>
    decreases k,
{
    if k == 0 {
        seq![]
    } else {
        let prev = busiest_indices(ps, (k - 1) as nat);
        prev.push(best_below(ps, prev, ps.len()))
    }
}

/// How many processes are reported.
pub open spec fn top_count(ps: Seq<ProcessReading>) -> nat {
    if ps.len() <= TOP_PROCESSES {
        ps.len()
    } else {
        TOP_PROCESSES as nat
    }
}

/// The busiest processes that are reported, busiest first.
pub open spec fn top_processes(ps: Seq<ProcessReading>) -> Seq<ProcessReading> {
    busiest_indices(ps, top_count(ps)).map_values(|i: int| ps[i])
}

proof fn lemma_ranks_before_order(ps: Seq<ProcessReading>, i: int, j: int, k: int)
    ensures
        !ranks_before(ps, i, i),
        ranks_before(ps, i, j) ==> !ranks_before(ps, j, i),
        i != j ==> ranks_before(ps, i, j) || ranks_before(ps, j, i),
        ranks_before(ps, i, j) && ranks_before(ps, j, k) ==> ranks_before(ps, i, k),
{
}

proof fn lemma_best_below(ps: Seq<ProcessReading>, taken: Seq<int>, m: nat)
    requires
        m <= ps.len(),
    ensures
        best_below(ps, taken, m) == -1 ==> forall|j: int| 0 <= j < m ==> taken.contains(j),
        best_below(ps, taken, m) != -1 ==> {
            let r = best_below(ps, taken, m);
            &&& 0 <= r < m
            &&& !taken.contains(r)
            &&& forall|j: int|
                0 <= j < m && !taken.contains(j) && j != r ==> #[trigger] ranks_before(ps, r, j)
        },
    decreases m,
{
    if m > 0 {
        let b = best_below(ps, taken, (m - 1) as nat);
        let j = m - 1;
        lemma_best_below(ps, taken, (m - 1) as nat);
        if !taken.contains(j) && b != -1 && ranks_before(ps, j, b) {
            assert forall|x: int| 0 <= x < m && !taken.contains(x) && x != j implies #[trigger] ranks_before(ps, j, x) by {
                if x != b {
                    lemma_ranks_before_order(ps, j, b, x);
                }
            }
        } else if !taken.contains(j) && b != -1 {
            lemma_ranks_before_order(ps, j, b, j);
        }
    }
}

/// Some index below `n` is missing from a sequence shorter than `n`.
proof fn lemma_some_index_free(taken: Seq<int>, n: nat)
    requires
        taken.len() < n,
    ensures
        exists|j: int| 0 <= j < n && !taken.contains(j),
{
    broadcast use vstd::seq_lib::seq_to_set_is_finite;

    if forall|j: int| 0 <= j < n ==> taken.contains(j) {
        vstd::set_lib::lemma_int_range(0, n as int);
        assert(vstd::set_lib::set_int_range(0, n as int).subset_of(taken.to_set()));
        vstd::set_lib::lemma_len_subset(vstd::set_lib::set_int_range(0, n as int), taken.to_set());
        taken.lemma_cardinality_of_set();
    }
}

/// The indices of the busiest processes are distinct, in range, busiest
/// first, and come before every index left out.
pub proof fn lemma_busiest_indices(ps: Seq<ProcessReading>, k: nat)
    requires
        k <= ps.len(),
    ensures
        busiest_indices(ps, k).len() == k,
        forall|a: int| 0 <= a < k ==> 0 <= #[trigger] busiest_indices(ps, k)[a] < ps.len(),
        forall|a: int, b: int|
            0 <= a < b < k ==> ranks_before(ps, #[trigger] busiest_indices(ps, k)[a], #[trigger] busiest_indices(ps, k)[b]),
        forall|a: int, j: int|
            #![trigger busiest_indices(ps, k)[a], busiest_indices(ps, k).contains(j)]
            0 <= a < k && 0 <= j < ps.len() && !busiest_indices(ps, k).contains(j) ==> ranks_before(
                ps,
                busiest_indices(ps, k)[a],
                j,
            ),
    decreases k,
{
    if k > 0 {
        let prev = busiest_indices(ps, (k - 1) as nat);
        lemma_busiest_indices(ps, (k - 1) as nat);
        lemma_some_index_free(prev, ps.len());
        lemma_best_below(ps, prev, ps.len());
        let r = best_below(ps, prev, ps.len());
        let sel = busiest_indices(ps, k);
        assert(sel == prev.push(r));
        assert forall|a: int, b: int| 0 <= a < b < k implies ranks_before(ps, #[trigger] sel[a], #[trigger] sel[b]) by {
            if b == k - 1 {
                assert(sel[a] == prev[a]);
                assert(!prev.contains(r));
            } else {
                assert(sel[a] == prev[a] && sel[b] == prev[b]);
            }
        }
        assert forall|a: int, j: int|
            #![trigger sel[a], sel.contains(j)]
            0 <= a < k && 0 <= j < ps.len() && !sel.contains(j) implies ranks_before(ps, sel[a], j) by {
            assert(!prev.contains(j)) by {
                if prev.contains(j) {
                    let t = choose|t: int| 0 <= t < prev.len() && prev[t] == j;
                    assert(sel[t] == j);
                }
            }
            if a < k - 1 {
                assert(sel[a] == prev[a]);
            } else {
                assert(j != r) by {
                    assert(sel[k - 1] == r);
                }
            }
        }
    }
}

/// The reported processes are the busiest: at most five, ordered by
/// decreasing CPU usage, taken from distinct places of the list, and no
/// process left out uses more CPU than any reported one.
pub proof fn law_top_processes_are_busiest(ps: Seq<ProcessReading>)
    ensures
        ({
            let sel = busiest_indices(ps, top_count(ps));
            let top = top_processes(ps);
            &&& top.len() == top_count(ps)
            &&& top_count(ps) == if ps.len() < 5 {
                ps.len()
            } else {
                5
            }
            &&& forall|a: int| 0 <= a < top.len() ==> 0 <= sel[a] < ps.len() && #[trigger] top[a] == ps[sel[a]]
            &&& forall|a: int, b: int| 0 <= a < b < top.len() ==> sel[a] != sel[b] && usage_rank(
                #[trigger] top[a].cpu_pct,
            ) >= usage_rank(#[trigger] top[b].cpu_pct)
            &&& forall|a: int, j: int|
                #![trigger top[a], ps[j]]
                0 <= a < top.len() && 0 <= j < ps.len() && !sel.contains(j) ==> usage_rank(
                    ps[j].cpu_pct,
                ) <= usage_rank(top[a].cpu_pct)
        }),
{
    let k = top_count(ps);
    lemma_busiest_indices(ps, k);
    let sel = busiest_indices(ps, k);
    let top = top_processes(ps);
    assert forall|a: int, b: int| 0 <= a < b < top.len() implies sel[a] != sel[b] && usage_rank(
        #[trigger] top[a].cpu_pct,
    ) >= usage_rank(#[trigger] top[b].cpu_pct) by {
        assert(ranks_before(ps, sel[a], sel[b]));
    }
    assert forall|a: int, j: int|
        #![trigger top[a], ps[j]]
        0 <= a < top.len() && 0 <= j < ps.len() && !sel.contains(j) implies usage_rank(ps[j].cpu_pct)
        <= usage_rank(top[a].cpu_pct) by {
        assert(ranks_before(ps, sel[a], j));
    }
}

/// Every metric built from one reading, in order: machine, CPU, memory,
/// storage, network, top processes.
pub open spec fn system_models(src: Seq<char>, r: SystemReading) -> Seq<MetricModel> {
    machine_models(src, r) + cpu_identity_models(src, r.cpus@) + cpu_count_models(src, r)
        + core_models(src, r.cpus@) + memory_models(src, r.memory) + seq![
        integer_model(Category::Storage, "disk_count"@, r.disks@.len() as i64, None, src),
    ] + disks_models(src, r.disks@) + seq![
        integer_model(Category::Network, "interface_count"@, r.networks@.len() as i64, None, src),
    ] + networks_models(src, r.networks@) + processes_models(src, top_processes(r.processes@))
}

/// `prefix`, the decimal index, `suffix`, as a string.
fn indexed_key_text(prefix: &str, i: usize, suffix: &str) -> (r: String)
    ensures
        r@ == indexed_key(prefix@, i as nat, suffix@),
{
    let mut k = string_of(prefix);
    push_decimal(&mut k, i as u64);
    k.append(suffix);
    k
}

fn text_metric(c: Category, key: String, text: &String, src: &str) -> (m: Metric)
    ensures
        m@ == text_model(c, key@, text@, src@),
{
    Metric::healthy_of(c, key, MetricValue::Text(text.clone()), None, src)
}

fn number_metric(c: Category, key: String, bits: u64, unit: &str, src: &str) -> (m: Metric)
    ensures
        m@ == number_model(c, key@, bits, unit@, src@),
{
    Metric::healthy_of(c, key, MetricValue::Number(bits), Some(unit), src)
}

fn integer_metric(c: Category, key: &str, i: i64, unit: Option<&str>, src: &str) -> (m: Metric)
    ensures
        m@ == integer_model(c, key@, i, crate::normalizer::opt_slice_view(unit), src@),
{
    Metric::healthy_of(c, string_of(key), MetricValue::Integer(i), unit, src)
}

fn known_or_unknown_text(o: &Option<String>) -> (r: String)
    ensures
        r@ == known_or_unknown(*o),
{
    match o {
        Some(s) => s.clone(),
        None => string_of("(desconhecido)"),
    }
}

/// The cross-platform collector.
pub struct SystemInfoCollector {
    name: &'static str,
}

impl SystemInfoCollector {
    /// The source name this collector writes into its metrics.
    pub closed spec fn source_name(&self) -> Seq<char> {
        self.name@
    }

    pub fn new() -> (c: SystemInfoCollector)
        ensures
            c.source_name() == "sysinfo"@,
    {
        SystemInfoCollector { name: "sysinfo" }
    }

    pub fn name(&self) -> (r: &'static str)
        ensures
            r@ == self.source_name(),
    {
        self.name
    }

    /// The primary category; the metrics themselves span several.
    pub fn category(&self) -> (c: Category)
        ensures
            c == Category::Machine,
    {
        Category::Machine
    }

    fn push_machine(&self, out: &mut Vec<Metric>, r: &SystemReading)
        ensures
            models(final(out)@) == models(old(out)@) + machine_models(self.source_name(), *r),
    {
        let src = self.name;
        let ghost start = models(out@);
        push_metric(out, text_metric(Category::Machine, string_of("hostname"), &known_or_unknown_text(&r.host_name), src));
        push_metric(out, text_metric(Category::Machine, string_of("os_name"), &known_or_unknown_text(&r.os_name), src));
        push_metric(out, text_metric(Category::Machine, string_of("os_version"), &known_or_unknown_text(&r.os_version), src));
        push_metric(
            out,
            text_metric(Category::Machine, string_of("kernel_version"), &known_or_unknown_text(&r.kernel_version), src),
        );
        push_metric(out, text_metric(Category::Machine, string_of("arch"), &r.arch, src));
        push_metric(out, integer_metric(Category::Machine, "uptime_seconds", r.uptime_seconds as i64, Some("s"), src));
        proof {
            assert(models(out@) =~= start + machine_models(self.source_name(), *r));
        }
    }

    fn push_cpu(&self, out: &mut Vec<Metric>, r: &SystemReading)
        ensures
            models(final(out)@) == models(old(out)@) + cpu_identity_models(self.source_name(), r.cpus@)
                + cpu_count_models(self.source_name(), *r) + core_models(self.source_name(), r.cpus@),
    {
        let src = self.name;
        let ghost start = models(out@);
        if r.cpus.len() > 0 {
            let cpu = &r.cpus[0];
            push_metric(out, text_metric(Category::Cpu, string_of("brand"), &cpu.brand, src));
            push_metric(out, text_metric(Category::Cpu, string_of("vendor"), &cpu.vendor_id, src));
            push_metric(out, number_metric(Category::Cpu, string_of("frequency_mhz"), cpu.frequency_mhz, "MHz", src));
        } else {
            push_metric(out, Metric::unavailable(Category::Cpu, "brand", src, "sysinfo não detectou CPU", false));
        }
        proof {
            assert(models(out@) =~= start + cpu_identity_models(self.source_name(), r.cpus@));
        }
        let ghost mid = models(out@);
        let physical: i64 = match r.physical_cores {
            Some(n) => n as i64,
            None => 0,
        };
        push_metric(out, integer_metric(Category::Cpu, "physical_cores", physical, None, src));
        push_metric(out, integer_metric(Category::Cpu, "logical_cores", r.cpus.len() as i64, None, src));
        push_metric(out, number_metric(Category::Cpu, string_of("usage_global_pct"), r.global_cpu_usage_pct, "%", src));
        proof {
            assert(models(out@) =~= mid + cpu_count_models(self.source_name(), *r));
        }
        let ghost before_cores = models(out@);
        let n = r.cpus.len();
        let mut i: usize = 0;
        while i < n
            invariant
                n == r.cpus@.len(),
                0 <= i <= n,
                src@ == self.source_name(),
                models(out@) == before_cores + core_models(self.source_name(), r.cpus@.take(i as int)),
            decreases n - i,
        {
            let key = indexed_key_text("core_", i, "_usage_pct");
            push_metric(out, number_metric(Category::Cpu, key, r.cpus[i].usage_pct, "%", src));
            proof {
                let t = r.cpus@.take(i + 1);
                assert(t.drop_last() =~= r.cpus@.take(i as int));
                assert(models(out@) =~= before_cores + core_models(self.source_name(), t));
            }
            i = i + 1;
        }
        proof {
            assert(r.cpus@.take(n as int) =~= r.cpus@);
            assert(models(out@) =~= start + cpu_identity_models(self.source_name(), r.cpus@)
                + cpu_count_models(self.source_name(), *r) + core_models(self.source_name(), r.cpus@));
        }
    }

    fn push_memory(&self, out: &mut Vec<Metric>, m: &MemoryReading)
        ensures
            models(final(out)@) == models(old(out)@) + memory_models(self.source_name(), *m),
    {
        let src = self.name;
        let ghost start = models(out@);
        push_metric(out, number_metric(Category::Memory, string_of("total_mb"), m.total_mb, "MB", src));
        push_metric(out, number_metric(Category::Memory, string_of("used_mb"), m.used_mb, "MB", src));
        push_metric(out, number_metric(Category::Memory, string_of("available_mb"), m.available_mb, "MB", src));
        push_metric(out, number_metric(Category::Memory, string_of("usage_pct"), m.usage_pct, "%", src));
        if m.swap_total_bytes > 0 {
            push_metric(out, number_metric(Category::Memory, string_of("swap_total_mb"), m.swap_total_mb, "MB", src));
            push_metric(out, number_metric(Category::Memory, string_of("swap_used_mb"), m.swap_used_mb, "MB", src));
        }
        proof {
            assert(models(out@) =~= start + memory_models(self.source_name(), *m));
        }
    }

    fn push_storage(&self, out: &mut Vec<Metric>, disks: &Vec<DiskReading>)
        ensures
            models(final(out)@) == models(old(out)@) + seq![
                integer_model(Category::Storage, "disk_count"@, disks@.len() as i64, None, self.source_name()),
            ] + disks_models(self.source_name(), disks@),
    {
        let src = self.name;
        let ghost start = models(out@);
        push_metric(out, integer_metric(Category::Storage, "disk_count", disks.len() as i64, None, src));
        let ghost before = models(out@);
        let n = disks.len();
        let mut i: usize = 0;
        while i < n
            invariant
                n == disks@.len(),
                0 <= i <= n,
                src@ == self.source_name(),
                models(out@) == before + disks_models(self.source_name(), disks@.take(i as int)),
            decreases n - i,
        {
            let d = &disks[i];
            let ghost b0 = models(out@);
            push_metric(out, text_metric(Category::Storage, indexed_key_text("disk_", i, "_name"), &d.name, src));
            let kind = match d.kind {
                DiskKindReading::Hdd => string_of("HDD"),
                DiskKindReading::Ssd => string_of("SSD"),
                DiskKindReading::Unknown => string_of("?"),
            };
            push_metric(out, text_metric(Category::Storage, indexed_key_text("disk_", i, "_kind"), &kind, src));
            push_metric(out, number_metric(Category::Storage, indexed_key_text("disk_", i, "_total_gb"), d.total_gb, "GB", src));
            push_metric(
                out,
                number_metric(Category::Storage, indexed_key_text("disk_", i, "_available_gb"), d.available_gb, "GB", src),
            );
            push_metric(out, number_metric(Category::Storage, indexed_key_text("disk_", i, "_usage_pct"), d.usage_pct, "%", src));
            proof {
                let t = disks@.take(i + 1);
                assert(t.drop_last() =~= disks@.take(i as int));
                assert(models(out@) =~= b0 + disk_block(self.source_name(), i as nat, disks@[i as int]));
                assert(models(out@) =~= before + disks_models(self.source_name(), t));
            }
            i = i + 1;
        }
        proof {
            assert(disks@.take(n as int) =~= disks@);
            assert(models(out@) =~= start + seq![
                integer_model(Category::Storage, "disk_count"@, disks@.len() as i64, None, self.source_name()),
            ] + disks_models(self.source_name(), disks@));
        }
    }

    fn push_network(&self, out: &mut Vec<Metric>, nets: &Vec<NetworkReading>)
        ensures
            models(final(out)@) == models(old(out)@) + seq![
                integer_model(Category::Network, "interface_count"@, nets@.len() as i64, None, self.source_name()),
            ] + networks_models(self.source_name(), nets@),
    {
        let src = self.name;
        let ghost start = models(out@);
        push_metric(out, integer_metric(Category::Network, "interface_count", nets.len() as i64, None, src));
        let ghost before = models(out@);
        let n = nets.len();
        let mut i: usize = 0;
        while i < n
            invariant
                n == nets@.len(),
                0 <= i <= n,
                src@ == self.source_name(),
                models(out@) == before + networks_models(self.source_name(), nets@.take(i as int)),
            decreases n - i,
        {
            let net = &nets[i];
            let ghost b0 = models(out@);
            let key = sanitize_key(net.name.as_str());
            let mut k1 = string_of("iface_");
            k1.append(key.as_str());
            k1.append("_name");
            push_metric(out, text_metric(Category::Network, k1, &net.name, src));
            let mut k2 = string_of("iface_");
            k2.append(key.as_str());
            k2.append("_received_mb");
            push_metric(out, number_metric(Category::Network, k2, net.received_mb, "MB", src));
            let mut k3 = string_of("iface_");
            k3.append(key.as_str());
            k3.append("_transmitted_mb");
            push_metric(out, number_metric(Category::Network, k3, net.transmitted_mb, "MB", src));
            proof {
                let t = nets@.take(i + 1);
                assert(t.drop_last() =~= nets@.take(i as int));
                assert(models(out@) =~= b0 + network_block(self.source_name(), nets@[i as int]));
                assert(models(out@) =~= before + networks_models(self.source_name(), t));
            }
            i = i + 1;
        }
        proof {
            assert(nets@.take(n as int) =~= nets@);
            assert(models(out@) =~= start + seq![
                integer_model(Category::Network, "interface_count"@, nets@.len() as i64, None, self.source_name()),
            ] + networks_models(self.source_name(), nets@));
        }
    }

    fn push_processes(&self, out: &mut Vec<Metric>, procs: &Vec<ProcessReading>)
        ensures
            models(final(out)@) == models(old(out)@) + processes_models(self.source_name(), top_processes(procs@)),
    {
        let src = self.name;
        let ghost before = models(out@);
        let sel = busiest_first(procs);
        let ghost top = top_processes(procs@);
        proof {
            let k = top_count(procs@);
            lemma_busiest_indices(procs@, k);
            assert forall|a: int| 0 <= a < sel@.len() implies #[trigger] sel@[a] < procs@.len() && top[a]
                == procs@[sel@[a] as int] by {
                assert(sel@.map_values(|t: usize| t as int)[a] == sel@[a] as int);
                assert(busiest_indices(procs@, k)[a] == sel@[a] as int);
            }
        }
        let n = sel.len();
        let mut i: usize = 0;
        while i < n
            invariant
                n == sel@.len(),
                n == top.len(),
                top == top_processes(procs@),
                forall|a: int| 0 <= a < n ==> #[trigger] sel@[a] < procs@.len() && top[a] == procs@[sel@[a] as int],
                0 <= i <= n,
                src@ == self.source_name(),
                models(out@) == before + processes_models(self.source_name(), top.take(i as int)),
            decreases n - i,
        {
            let p = &procs[sel[i]];
            let ghost b0 = models(out@);
            push_metric(out, text_metric(Category::Os, indexed_key_text("top_proc_", i, "_name"), &p.name, src));
            push_metric(out, number_metric(Category::Os, indexed_key_text("top_proc_", i, "_cpu_pct"), p.cpu_pct, "%", src));
            push_metric(out, number_metric(Category::Os, indexed_key_text("top_proc_", i, "_mem_mb"), p.mem_mb, "MB", src));
            proof {
                let t = top.take(i + 1);
                assert(t.drop_last() =~= top.take(i as int));
                assert(t.last() == top[i as int]);
                assert(models(out@) =~= b0 + process_block(self.source_name(), i as nat, top[i as int]));
                assert(models(out@) =~= before + processes_models(self.source_name(), t));
            }
            i = i + 1;
        }
        proof {
            assert(top.take(n as int) =~= top);
        }
    }

    /// Builds every metric of one reading of the machine; each key carries
    /// the field of the reading it is named after.
    pub fn collect_from(&self, r: &SystemReading) -> (ms: Vec<Metric>)
        ensures
            models(ms@) == system_models(self.source_name(), *r),
            reading_keys_hold(models(ms@), *r),
    {
        let mut out: Vec<Metric> = Vec::new();
        proof {
            assert(models(out@) =~= Seq::<MetricModel>::empty());
        }
        self.push_machine(&mut out, r);
        self.push_cpu(&mut out, r);
        self.push_memory(&mut out, &r.memory);
        self.push_storage(&mut out, &r.disks);
        self.push_network(&mut out, &r.networks);
        self.push_processes(&mut out, &r.processes);
        proof {
            assert(models(out@) =~= system_models(self.source_name(), *r));
            law_reading_keys(self.source_name(), *r);
        }
        out
    }
}

impl Default for SystemInfoCollector {
    fn default() -> (c: SystemInfoCollector)
        ensures
            c.source_name() == "sysinfo"@,
    {
        SystemInfoCollector::new()
    }
}

/// The form of every metric the collector builds: its source, a status
/// that is `Healthy` or `Unavailable`, and no value and an error message
/// exactly when it is `Unavailable`.
pub open spec fn collected_shape(src: Seq<char>, m: MetricModel) -> bool {
    &&& m.source == src
    &&& (m.status == MetricStatus::Healthy || m.status == MetricStatus::Unavailable)
    &&& ((m.value is Null) <==> (m.status == MetricStatus::Unavailable))
    &&& ((m.error is Some) <==> (m.status == MetricStatus::Unavailable))
}

pub open spec fn all_collected_shape(src: Seq<char>, ms: Seq<MetricModel>) -> bool {
    forall|i: int| 0 <= i < ms.len() ==> collected_shape(src, #[trigger] ms[i])
}

proof fn lemma_shape_concat(src: Seq<char>, a: Seq<MetricModel>, b: Seq<MetricModel>)
    requires
        all_collected_shape(src, a),
        all_collected_shape(src, b),
    ensures
        all_collected_shape(src, a + b),
{
    assert forall|i: int| 0 <= i < (a + b).len() implies collected_shape(src, #[trigger] (a + b)[i]) by {
        if i < a.len() {
            assert((a + b)[i] == a[i]);
        } else {
            assert((a + b)[i] == b[i - a.len()]);
        }
    }
}

proof fn lemma_cores_match(src: Seq<char>, cpus: Seq<CpuReading>)
    ensures
        all_collected_shape(src, core_models(src, cpus)),
    decreases cpus.len(),
{
    if cpus.len() > 0 {
        lemma_cores_match(src, cpus.drop_last());
    }
}

proof fn lemma_disks_match(src: Seq<char>, ds: Seq<DiskReading>)
    ensures
        all_collected_shape(src, disks_models(src, ds)),
    decreases ds.len(),
{
    if ds.len() > 0 {
        lemma_disks_match(src, ds.drop_last());
        lemma_shape_concat(src, disks_models(src, ds.drop_last()), disk_block(src, (ds.len() - 1) as nat, ds.last()));
    }
}

proof fn lemma_networks_match(src: Seq<char>, ns: Seq<NetworkReading>)
    ensures
        all_collected_shape(src, networks_models(src, ns)),
    decreases ns.len(),
{
    if ns.len() > 0 {
        lemma_networks_match(src, ns.drop_last());
        lemma_shape_concat(src, networks_models(src, ns.drop_last()), network_block(src, ns.last()));
    }
}

proof fn lemma_processes_match(src: Seq<char>, ps: Seq<ProcessReading>)
    ensures
        all_collected_shape(src, processes_models(src, ps)),
    decreases ps.len(),
{
    if ps.len() > 0 {
        lemma_processes_match(src, ps.drop_last());
        lemma_shape_concat(src, 
            processes_models(src, ps.drop_last()),
            process_block(src, (ps.len() - 1) as nat, ps.last()),
        );
    }
}

/// Every metric the collector builds from a reading carries the
/// collector's source, is either `Healthy` or `Unavailable`, and has no
/// value and an error message exactly when it is `Unavailable` (the CPU
/// brand when no CPU was seen).
pub proof fn law_collected_values_match_status(src: Seq<char>, r: SystemReading)
    ensures
        all_collected_shape(src, system_models(src, r)),
        all_values_match_status(system_models(src, r)),
{
    let a = machine_models(src, r);
    let b = cpu_identity_models(src, r.cpus@);
    let c = cpu_count_models(src, r);
    let d = core_models(src, r.cpus@);
    let e = memory_models(src, r.memory);
    let f = seq![integer_model(Category::Storage, "disk_count"@, r.disks@.len() as i64, None, src)];
    let g = disks_models(src, r.disks@);
    let h = seq![integer_model(Category::Network, "interface_count"@, r.networks@.len() as i64, None, src)];
    let k = networks_models(src, r.networks@);
    let l = processes_models(src, top_processes(r.processes@));
    lemma_cores_match(src, r.cpus@);
    lemma_disks_match(src, r.disks@);
    lemma_networks_match(src, r.networks@);
    lemma_processes_match(src, top_processes(r.processes@));
    assert(all_collected_shape(src, a));
    assert(all_collected_shape(src, b));
    assert(all_collected_shape(src, c));
    assert(all_collected_shape(src, e));
    assert(all_collected_shape(src, f));
    assert(all_collected_shape(src, h));
    lemma_shape_concat(src, a, b);
    lemma_shape_concat(src, a + b, c);
    lemma_shape_concat(src, a + b + c, d);
    lemma_shape_concat(src, a + b + c + d, e);
    lemma_shape_concat(src, a + b + c + d + e, f);
    lemma_shape_concat(src, a + b + c + d + e + f, g);
    lemma_shape_concat(src, a + b + c + d + e + f + g, h);
    lemma_shape_concat(src, a + b + c + d + e + f + g + h, k);
    lemma_shape_concat(src, a + b + c + d + e + f + g + h + k, l);
    let all = system_models(src, r);
    assert(all =~= a + b + c + d + e + f + g + h + k + l);
    assert forall|i: int| 0 <= i < all.len() implies value_matches_status(#[trigger] all[i]) by {
        assert(collected_shape(src, all[i]));
    }
}

/// A sanitized name holds only alphanumeric characters and `_`, has the
/// length of the name, and sanitizing it again changes nothing.
pub proof fn law_sanitize_idempotent(s: Seq<char>)
    ensures
        sanitized(s).len() == s.len(),
        forall|i: int| 0 <= i < s.len() ==> alphanumeric(#[trigger] sanitized(s)[i]) || sanitized(s)[i] == '_',
        sanitized(sanitized(s)) == sanitized(s),
{
    assert(!alphanumeric('_'));
    assert(sanitized(sanitized(s)) =~= sanitized(s));
}

/// `usage_rank` of a process's CPU usage.
fn usage_rank_of(bits: u64) -> (r: i128)
    ensures
        r as int == usage_rank(bits),
{
    if bits >= 0x8000_0000_0000_0000 {
        -((bits % 0x8000_0000_0000_0000) as i128)
    } else {
        bits as i128
    }
}

fn contains_index(taken: &Vec<usize>, j: usize) -> (b: bool)
    ensures
        b == taken@.map_values(|t: usize| t as int).contains(j as int),
{
    let ghost ts = taken@.map_values(|t: usize| t as int);
    let n = taken.len();
    let mut i: usize = 0;
    while i < n
        invariant
            n == taken@.len(),
            ts == taken@.map_values(|t: usize| t as int),
            0 <= i <= n,
            forall|a: int| 0 <= a < i ==> ts[a] != j as int,
        decreases n - i,
    {
        if taken[i] == j {
            assert(ts[i as int] == j as int);
            return true;
        }
        i = i + 1;
    }
    false
}

/// `best_below` over the whole list: `None` when every process is taken.
fn next_busiest(ps: &Vec<ProcessReading>, taken: &Vec<usize>) -> (r: Option<usize>)
    ensures
        match r {
            Some(i) => i as int == best_below(ps@, taken@.map_values(|t: usize| t as int), ps@.len()),
            None => best_below(ps@, taken@.map_values(|t: usize| t as int), ps@.len()) == -1,
        },
{
    let ghost ts = taken@.map_values(|t: usize| t as int);
    let n = ps.len();
    let mut best: Option<usize> = None;
    let mut best_rank: i128 = 0;
    let mut m: usize = 0;
    while m < n
        invariant
            n == ps@.len(),
            ts == taken@.map_values(|t: usize| t as int),
            0 <= m <= n,
            match best {
                Some(b) => b < m && b as int == best_below(ps@, ts, m as nat)
                    && best_rank as int == usage_rank(ps@[b as int].cpu_pct),
                None => best_below(ps@, ts, m as nat) == -1,
            },
        decreases n - m,
    {
        if !contains_index(taken, m) {
            let rank = usage_rank_of(ps[m].cpu_pct);
            let better = match best {
                None => true,
                Some(_) => rank > best_rank,
            };
            if better {
                best = Some(m);
                best_rank = rank;
            }
        }
        m = m + 1;
    }
    best
}

/// The indices of the busiest processes, busiest first.
fn busiest_first(ps: &Vec<ProcessReading>) -> (sel: Vec<usize>)
    ensures
        sel@.map_values(|t: usize| t as int) == busiest_indices(ps@, top_count(ps@)),
{
    let k = if ps.len() < TOP_PROCESSES {
        ps.len()
    } else {
        TOP_PROCESSES
    };
    let mut sel: Vec<usize> = Vec::new();
    let mut i: usize = 0;
    proof {
        assert(sel@.map_values(|t: usize| t as int) =~= busiest_indices(ps@, 0));
    }
    while i < k
        invariant
            k == top_count(ps@) <= ps@.len(),
            0 <= i <= k,
            sel@.map_values(|t: usize| t as int) == busiest_indices(ps@, i as nat),
        decreases k - i,
    {
        proof {
            lemma_busiest_indices(ps@, i as nat);
            lemma_some_index_free(busiest_indices(ps@, i as nat), ps@.len());
            lemma_best_below(ps@, busiest_indices(ps@, i as nat), ps@.len());
        }
        let r = next_busiest(ps, &sel).unwrap();
        let ghost before = sel@;
        sel.push(r);
        proof {
            assert(sel@.map_values(|t: usize| t as int) =~= before.map_values(|t: usize| t as int).push(r as int));
        }
        i = i + 1;
    }
    sel
}

} // verus!

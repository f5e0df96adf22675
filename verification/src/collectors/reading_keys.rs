//! What each key of a reading's metrics carries: for every key the
//! collector writes, the field of the reading that its value comes from.

use vstd::prelude::*;

use crate::collectors::system_info::{
    busiest_indices, core_models, cpu_count_models, cpu_identity_models, disk_block, disks_models,
    integer_model, machine_models, number_model, memory_models, network_block, networks_models, process_block,
    processes_models, system_models, lemma_busiest_indices, top_count, top_processes, indexed_key, sanitized,
    DiskKindReading, DiskReading, NetworkReading, ProcessReading, SystemReading, CpuReading,
};
use crate::normalizer::{Category, MetricModel, ValueModel};
use crate::text::{decimal, is_digit, lemma_decimal_injective, lemma_decimal_reads_back};

verus! {

/// Some metric of `ms` has key `k`, and every metric of `ms` with key `k`
/// has the value `v`.
pub open spec fn reports(ms: Seq<MetricModel>, k: Seq<char>, v: ValueModel) -> bool {
    &&& exists|j: int| 0 <= j < ms.len() && (#[trigger] ms[j]).key == k
    &&& forall|j: int| 0 <= j < ms.len() && (#[trigger] ms[j]).key == k ==> ms[j].value == v
}

/// No metric of `ms` has key `k`.
pub open spec fn lacks(ms: Seq<MetricModel>, k: Seq<char>) -> bool {
    forall|j: int| 0 <= j < ms.len() ==> (#[trigger] ms[j]).key != k
}

/// `k` is `n` characters long and starts with `c`.
pub open spec fn shape(k: Seq<char>, n: nat, c: char) -> bool {
    k.len() == n && k[0] == c
}

/// `k` is at least `n` characters long and starts with `c`.
pub open spec fn shape_from(k: Seq<char>, n: nat, c: char) -> bool {
    k.len() >= n && k.len() >= 1 && k[0] == c
}

/// The parts of the metrics of a reading, in the order they come.
pub open spec fn part(src: Seq<char>, r: SystemReading, u: int) -> Seq<MetricModel> {
    if u == 0 {
        machine_models(src, r)
    } else if u == 1 {
        cpu_identity_models(src, r.cpus@)
    } else if u == 2 {
        cpu_count_models(src, r)
    } else if u == 3 {
        core_models(src, r.cpus@)
    } else if u == 4 {
        memory_models(src, r.memory)
    } else if u == 5 {
        seq![integer_model(Category::Storage, "disk_count"@, r.disks@.len() as i64, None, src)]
    } else if u == 6 {
        disks_models(src, r.disks@)
    } else if u == 7 {
        seq![integer_model(Category::Network, "interface_count"@, r.networks@.len() as i64, None, src)]
    } else if u == 8 {
        networks_models(src, r.networks@)
    } else {
        processes_models(src, top_processes(r.processes@))
    }
}

/// The parts up to `u`, joined.
pub open spec fn parts_upto(src: Seq<char>, r: SystemReading, u: nat) -> Seq<MetricModel>
    decreases u,
{
    if u == 0 {
        part(src, r, 0)
    } else {
        parts_upto(src, r, (u - 1) as nat) + part(src, r, u as int)
    }
}

/// The shapes of the keys of each part.
pub open spec fn part_key_shape(u: int, k: Seq<char>) -> bool {
    if u == 0 {
        shape(k, 8, 'h') || shape(k, 7, 'o') || shape(k, 10, 'o') || shape(k, 14, 'k') || shape(
            k,
            4,
            'a',
        ) || shape(k, 14, 'u')
    } else if u == 1 {
        shape(k, 5, 'b') || shape(k, 6, 'v') || shape(k, 13, 'f')
    } else if u == 2 {
        shape(k, 14, 'p') || shape(k, 13, 'l') || shape(k, 16, 'u')
    } else if u == 3 {
        shape_from(k, 16, 'c')
    } else if u == 4 {
        shape(k, 8, 't') || shape(k, 7, 'u') || shape(k, 12, 'a') || shape(k, 9, 'u') || shape(
            k,
            13,
            's',
        ) || shape(k, 12, 's')
    } else if u == 5 {
        shape(k, 10, 'd')
    } else if u == 6 {
        shape_from(k, 11, 'd')
    } else if u == 7 {
        shape(k, 15, 'i') && k[1] == 'n'
    } else if u == 8 {
        shape_from(k, 11, 'i') && k[1] == 'f'
    } else {
        shape_from(k, 15, 't')
    }
}

/// Some metric of `ms` has key `k`.
pub open spec fn present(ms: Seq<MetricModel>, k: Seq<char>) -> bool {
    exists|j: int| 0 <= j < ms.len() && (#[trigger] ms[j]).key == k
}

/// Some metric of `ms` has key `k` and a value that `ok` accepts.
pub open spec fn shows(ms: Seq<MetricModel>, k: Seq<char>, ok: spec_fn(ValueModel) -> bool) -> bool {
    exists|j: int| 0 <= j < ms.len() && (#[trigger] ms[j]).key == k && ok(ms[j].value)
}

/// Every metric of `ms` with key `k` has a value that `ok` accepts.
pub open spec fn holds(ms: Seq<MetricModel>, k: Seq<char>, ok: spec_fn(ValueModel) -> bool) -> bool {
    forall|j: int| 0 <= j < ms.len() && (#[trigger] ms[j]).key == k ==> ok(ms[j].value)
}

proof fn lemma_concat(a: Seq<MetricModel>, b: Seq<MetricModel>, k: Seq<char>, ok: spec_fn(ValueModel) -> bool)
    ensures
        holds(a, k, ok) && holds(b, k, ok) ==> holds(a + b, k, ok),
        present(a, k) || present(b, k) ==> present(a + b, k),
        shows(a, k, ok) || shows(b, k, ok) ==> shows(a + b, k, ok),
        lacks(a, k) && lacks(b, k) ==> lacks(a + b, k),
        lacks(a, k) ==> holds(a, k, ok),
{
    let ab = a + b;
    if present(a, k) {
        let j = choose|j: int| 0 <= j < a.len() && (#[trigger] a[j]).key == k;
        assert(ab[j] == a[j]);
    }
    if present(b, k) {
        let j = choose|j: int| 0 <= j < b.len() && (#[trigger] b[j]).key == k;
        assert(ab[j + a.len()] == b[j]);
    }
    if shows(a, k, ok) {
        let j = choose|j: int| 0 <= j < a.len() && (#[trigger] a[j]).key == k && ok(a[j].value);
        assert(ab[j] == a[j]);
    }
    if shows(b, k, ok) {
        let j = choose|j: int| 0 <= j < b.len() && (#[trigger] b[j]).key == k && ok(b[j].value);
        assert(ab[j + a.len()] == b[j]);
    }
    if holds(a, k, ok) && holds(b, k, ok) {
        assert forall|i: int| 0 <= i < ab.len() && (#[trigger] ab[i]).key == k implies ok(ab[i].value) by {
            if i < a.len() {
                assert(ab[i] == a[i]);
            } else {
                assert(ab[i] == b[i - a.len()]);
            }
        }
    }
    if lacks(a, k) && lacks(b, k) {
        assert forall|i: int| 0 <= i < ab.len() implies (#[trigger] ab[i]).key != k by {
            if i < a.len() {
                assert(ab[i] == a[i]);
            } else {
                assert(ab[i] == b[i - a.len()]);
            }
        }
    }
}

proof fn lemma_parts_upto(
    src: Seq<char>,
    r: SystemReading,
    k: Seq<char>,
    ok: spec_fn(ValueModel) -> bool,
    t: int,
    u: nat,
)
    requires
        0 <= t <= 10,
        u < 10,
        t < 10 ==> holds(part(src, r, t), k, ok),
        forall|w: int| 0 <= w < 10 && w != t ==> lacks(#[trigger] part(src, r, w), k),
    ensures
        holds(parts_upto(src, r, u), k, ok),
        t <= u && present(part(src, r, t), k) ==> present(parts_upto(src, r, u), k),
        t <= u && shows(part(src, r, t), k, ok) ==> shows(parts_upto(src, r, u), k, ok),
        t > u ==> lacks(parts_upto(src, r, u), k),
    decreases u,
{
    lemma_concat(part(src, r, 0), seq![], k, ok);
    if u > 0 {
        lemma_parts_upto(src, r, k, ok, t, (u - 1) as nat);
        lemma_concat(part(src, r, u as int), seq![], k, ok);
        lemma_concat(parts_upto(src, r, (u - 1) as nat), part(src, r, u as int), k, ok);
    }
}

/// The metrics of a reading are its parts, joined.
proof fn lemma_system_parts(src: Seq<char>, r: SystemReading)
    ensures
        system_models(src, r) == parts_upto(src, r, 9),
{
    reveal_with_fuel(parts_upto, 10);
}

/// A key that only part `t` can hold, whose metrics there all satisfy
/// `ok`, has only such metrics in the whole reading; and it is there if it
/// is in part `t`.
proof fn lemma_in_system(
    src: Seq<char>,
    r: SystemReading,
    k: Seq<char>,
    ok: spec_fn(ValueModel) -> bool,
    t: int,
)
    requires
        0 <= t < 10,
        holds(part(src, r, t), k, ok),
        forall|w: int| 0 <= w < 10 && w != t ==> !part_key_shape(w, k),
    ensures
        holds(system_models(src, r), k, ok),
        present(part(src, r, t), k) ==> present(system_models(src, r), k),
        shows(part(src, r, t), k, ok) ==> shows(system_models(src, r), k, ok),
{
    lemma_part_shapes(src, r);
    assert forall|w: int| 0 <= w < 10 && w != t implies lacks(#[trigger] part(src, r, w), k) by {
        assert(!part_key_shape(w, k));
    }
    lemma_parts_upto(src, r, k, ok, t, 9);
    lemma_system_parts(src, r);
}

/// A key that only part `t` can hold, and that part reports with `v`, is
/// reported with `v` by the whole reading.
proof fn lemma_reports_in_system(src: Seq<char>, r: SystemReading, k: Seq<char>, v: ValueModel, t: int)
    requires
        0 <= t < 10,
        reports(part(src, r, t), k, v),
        forall|w: int| 0 <= w < 10 && w != t ==> !part_key_shape(w, k),
    ensures
        reports(system_models(src, r), k, v),
{
    let ok = |x: ValueModel| x == v;
    let p = part(src, r, t);
    assert(holds(p, k, ok)) by {
        assert forall|j: int| 0 <= j < p.len() && (#[trigger] p[j]).key == k implies ok(p[j].value) by {
        }
    }
    lemma_in_system(src, r, k, ok, t);
    let sys = system_models(src, r);
    assert forall|j: int| 0 <= j < sys.len() && (#[trigger] sys[j]).key == k implies sys[j].value == v by {
        assert(ok(sys[j].value));
    }
}

/// The length and first character of an indexed key.
proof fn lemma_indexed_key_shape(p: Seq<char>, i: nat, s: Seq<char>)
    ensures
        indexed_key(p, i, s).len() >= p.len() + 1 + s.len(),
        p.len() > 0 ==> indexed_key(p, i, s)[0] == p[0],
{
    lemma_decimal_reads_back(i);
    let k = indexed_key(p, i, s);
    if p.len() > 0 {
        assert(k[0] == (p + decimal(i))[0]);
    }
}

/// Two indexed keys with the same prefix, whose suffixes start with a
/// character that is not a digit, are equal only for the same index and
/// suffix.
proof fn lemma_indexed_key_eq(p: Seq<char>, i: nat, s: Seq<char>, j: nat, t: Seq<char>)
    requires
        s.len() > 0,
        t.len() > 0,
        !is_digit(s[0]),
        !is_digit(t[0]),
        indexed_key(p, i, s) == indexed_key(p, j, t),
    ensures
        i == j,
        s == t,
{
    lemma_decimal_reads_back(i);
    lemma_decimal_reads_back(j);
    let a = decimal(i);
    let b = decimal(j);
    let k = indexed_key(p, i, s);
    let l = indexed_key(p, j, t);
    if a.len() < b.len() {
        assert(k[(p.len() + a.len()) as int] == s[0]);
        assert(l[(p.len() + a.len()) as int] == b[a.len() as int]);
        assert(false);
    }
    if b.len() < a.len() {
        assert(l[(p.len() + b.len()) as int] == t[0]);
        assert(k[(p.len() + b.len()) as int] == a[b.len() as int]);
        assert(false);
    }
    assert(a =~= b) by {
        assert forall|x: int| 0 <= x < a.len() implies a[x] == b[x] by {
            assert(k[p.len() + x] == a[x]);
            assert(l[p.len() + x] == b[x]);
        }
    }
    lemma_decimal_injective(i, j);
    assert(s =~= t) by {
        assert(k.len() == p.len() + a.len() + s.len());
        assert(l.len() == p.len() + b.len() + t.len());
        assert(s.len() == t.len());
        assert forall|x: int| 0 <= x < s.len() implies s[x] == t[x] by {
            assert(k[p.len() + a.len() + x] == s[x]);
            assert(l[p.len() + b.len() + x] == t[x]);
        }
    }
}

/// Where each core's metric stands.
proof fn lemma_core_layout(src: Seq<char>, cpus: Seq<CpuReading>)
    ensures
        core_models(src, cpus).len() == cpus.len(),
        forall|i: int|
            0 <= i < cpus.len() ==> #[trigger] core_models(src, cpus)[i] == number_model(
                Category::Cpu,
                indexed_key("core_"@, i as nat, "_usage_pct"@),
                cpus[i].usage_pct,
                "%"@,
                src,
            ),
    decreases cpus.len(),
{
    if cpus.len() > 0 {
        lemma_core_layout(src, cpus.drop_last());
    }
}

/// Where each disk's metrics stand: five per disk, in order.
proof fn lemma_disks_layout(src: Seq<char>, ds: Seq<DiskReading>)
    ensures
        disks_models(src, ds).len() == 5 * ds.len(),
        forall|i: int, t: int|
            0 <= i < ds.len() && 0 <= t < 5 ==> #[trigger] disks_models(src, ds)[5 * i + t] == #[trigger] disk_block(
                src,
                i as nat,
                ds[i],
            )[t],
    decreases ds.len(),
{
    if ds.len() > 0 {
        let n = ds.len() - 1;
        lemma_disks_layout(src, ds.drop_last());
        let prev = disks_models(src, ds.drop_last());
        let all = disks_models(src, ds);
        assert(all == prev + disk_block(src, n as nat, ds.last()));
        assert forall|i: int, t: int| 0 <= i < ds.len() && 0 <= t < 5 implies #[trigger] all[5 * i + t]
            == #[trigger] disk_block(src, i as nat, ds[i])[t] by {
            if i < n {
                assert(all[5 * i + t] == prev[5 * i + t]);
                assert(ds.drop_last()[i] == ds[i]);
            } else {
                assert(all[5 * i + t] == disk_block(src, n as nat, ds.last())[t]);
            }
        }
    }
}

/// Where each interface's metrics stand: three per interface, in order.
proof fn lemma_networks_layout(src: Seq<char>, ns: Seq<NetworkReading>)
    ensures
        networks_models(src, ns).len() == 3 * ns.len(),
        forall|i: int, t: int|
            0 <= i < ns.len() && 0 <= t < 3 ==> #[trigger] networks_models(src, ns)[3 * i + t] == #[trigger] network_block(
                src,
                ns[i],
            )[t],
    decreases ns.len(),
{
    if ns.len() > 0 {
        let n = ns.len() - 1;
        lemma_networks_layout(src, ns.drop_last());
        let prev = networks_models(src, ns.drop_last());
        let all = networks_models(src, ns);
        assert(all == prev + network_block(src, ns.last()));
        assert forall|i: int, t: int| 0 <= i < ns.len() && 0 <= t < 3 implies #[trigger] all[3 * i + t]
            == #[trigger] network_block(src, ns[i])[t] by {
            if i < n {
                assert(all[3 * i + t] == prev[3 * i + t]);
                assert(ns.drop_last()[i] == ns[i]);
            } else {
                assert(all[3 * i + t] == network_block(src, ns.last())[t]);
            }
        }
    }
}

/// Where each reported process's metrics stand: three per process, in
/// order.
proof fn lemma_processes_layout(src: Seq<char>, ps: Seq<ProcessReading>)
    ensures
        processes_models(src, ps).len() == 3 * ps.len(),
        forall|i: int, t: int|
            0 <= i < ps.len() && 0 <= t < 3 ==> #[trigger] processes_models(src, ps)[3 * i + t] == #[trigger] process_block(
                src,
                i as nat,
                ps[i],
            )[t],
    decreases ps.len(),
{
    if ps.len() > 0 {
        let n = ps.len() - 1;
        lemma_processes_layout(src, ps.drop_last());
        let prev = processes_models(src, ps.drop_last());
        let all = processes_models(src, ps);
        assert(all == prev + process_block(src, n as nat, ps.last()));
        assert forall|i: int, t: int| 0 <= i < ps.len() && 0 <= t < 3 implies #[trigger] all[3 * i + t]
            == #[trigger] process_block(src, i as nat, ps[i])[t] by {
            if i < n {
                assert(all[3 * i + t] == prev[3 * i + t]);
                assert(ps.drop_last()[i] == ps[i]);
            } else {
                assert(all[3 * i + t] == process_block(src, n as nat, ps.last())[t]);
            }
        }
    }
}

proof fn lemma_machine_shapes(src: Seq<char>, r: SystemReading)
    ensures
        forall|j: int|
            0 <= j < machine_models(src, r).len() ==> part_key_shape(0, (#[trigger] machine_models(src, r)[j]).key),
{
    reveal_strlit("hostname");
    reveal_strlit("os_name");
    reveal_strlit("os_version");
    reveal_strlit("kernel_version");
    reveal_strlit("arch");
    reveal_strlit("uptime_seconds");
    let m = machine_models(src, r);
    assert(m[0].key == "hostname"@ && m[1].key == "os_name"@ && m[2].key == "os_version"@);
    assert(m[3].key == "kernel_version"@ && m[4].key == "arch"@ && m[5].key == "uptime_seconds"@);
}

proof fn lemma_cpu_identity_shapes(src: Seq<char>, cpus: Seq<CpuReading>)
    ensures
        forall|j: int|
            0 <= j < cpu_identity_models(src, cpus).len() ==> part_key_shape(
                1,
                (#[trigger] cpu_identity_models(src, cpus)[j]).key,
            ),
{
    reveal_strlit("brand");
    reveal_strlit("vendor");
    reveal_strlit("frequency_mhz");
    let m = cpu_identity_models(src, cpus);
    if cpus.len() > 0 {
        assert(m[0].key == "brand"@ && m[1].key == "vendor"@ && m[2].key == "frequency_mhz"@);
    } else {
        assert(m[0].key == "brand"@);
    }
}

proof fn lemma_cpu_count_shapes(src: Seq<char>, r: SystemReading)
    ensures
        forall|j: int|
            0 <= j < cpu_count_models(src, r).len() ==> part_key_shape(2, (#[trigger] cpu_count_models(src, r)[j]).key),
{
    reveal_strlit("physical_cores");
    reveal_strlit("logical_cores");
    reveal_strlit("usage_global_pct");
    let m = cpu_count_models(src, r);
    assert(m[0].key == "physical_cores"@ && m[1].key == "logical_cores"@ && m[2].key == "usage_global_pct"@);
}

proof fn lemma_core_shapes(src: Seq<char>, cpus: Seq<CpuReading>)
    ensures
        forall|j: int|
            0 <= j < core_models(src, cpus).len() ==> part_key_shape(3, (#[trigger] core_models(src, cpus)[j]).key),
{
    reveal_strlit("core_");
    reveal_strlit("_usage_pct");
    lemma_core_layout(src, cpus);
    assert forall|j: int| 0 <= j < core_models(src, cpus).len() implies part_key_shape(
        3,
        (#[trigger] core_models(src, cpus)[j]).key,
    ) by {
        lemma_indexed_key_shape("core_"@, j as nat, "_usage_pct"@);
    }
}

proof fn lemma_memory_shapes(src: Seq<char>, m: crate::collectors::system_info::MemoryReading)
    ensures
        forall|j: int|
            0 <= j < memory_models(src, m).len() ==> part_key_shape(4, (#[trigger] memory_models(src, m)[j]).key),
{
    reveal_strlit("total_mb");
    reveal_strlit("used_mb");
    reveal_strlit("available_mb");
    reveal_strlit("usage_pct");
    reveal_strlit("swap_total_mb");
    reveal_strlit("swap_used_mb");
    let s = memory_models(src, m);
    assert(s[0].key == "total_mb"@ && s[1].key == "used_mb"@ && s[2].key == "available_mb"@ && s[3].key
        == "usage_pct"@);
    if m.swap_total_bytes > 0 {
        assert(s[4].key == "swap_total_mb"@ && s[5].key == "swap_used_mb"@);
    }
}

proof fn lemma_disks_shapes(src: Seq<char>, ds: Seq<DiskReading>)
    ensures
        forall|j: int|
            0 <= j < disks_models(src, ds).len() ==> part_key_shape(6, (#[trigger] disks_models(src, ds)[j]).key),
{
    reveal_strlit("disk_");
    reveal_strlit("_name");
    reveal_strlit("_kind");
    reveal_strlit("_total_gb");
    reveal_strlit("_available_gb");
    reveal_strlit("_usage_pct");
    lemma_disks_layout(src, ds);
    assert forall|j: int| 0 <= j < disks_models(src, ds).len() implies part_key_shape(
        6,
        (#[trigger] disks_models(src, ds)[j]).key,
    ) by {
        let i = j / 5;
        let t = j % 5;
        assert(j == 5 * i + t);
        let b = disk_block(src, i as nat, ds[i]);
        assert(disks_models(src, ds)[5 * i + t] == b[t]);
        lemma_indexed_key_shape("disk_"@, i as nat, "_name"@);
        lemma_indexed_key_shape("disk_"@, i as nat, "_kind"@);
        lemma_indexed_key_shape("disk_"@, i as nat, "_total_gb"@);
        lemma_indexed_key_shape("disk_"@, i as nat, "_available_gb"@);
        lemma_indexed_key_shape("disk_"@, i as nat, "_usage_pct"@);
    }
}

proof fn lemma_networks_shapes(src: Seq<char>, ns: Seq<NetworkReading>)
    ensures
        forall|j: int|
            0 <= j < networks_models(src, ns).len() ==> part_key_shape(
                8,
                (#[trigger] networks_models(src, ns)[j]).key,
            ),
{
    reveal_strlit("iface_");
    reveal_strlit("_name");
    reveal_strlit("_received_mb");
    reveal_strlit("_transmitted_mb");
    lemma_networks_layout(src, ns);
    assert forall|j: int| 0 <= j < networks_models(src, ns).len() implies part_key_shape(
        8,
        (#[trigger] networks_models(src, ns)[j]).key,
    ) by {
        let i = j / 3;
        let t = j % 3;
        assert(j == 3 * i + t);
        let b = network_block(src, ns[i]);
        assert(networks_models(src, ns)[3 * i + t] == b[t]);
        let key = sanitized(ns[i].name@);
        assert(("iface_"@ + key + "_name"@)[0] == 'i' && ("iface_"@ + key + "_name"@)[1] == 'f');
        assert(("iface_"@ + key + "_received_mb"@)[0] == 'i' && ("iface_"@ + key + "_received_mb"@)[1]
            == 'f');
        assert(("iface_"@ + key + "_transmitted_mb"@)[0] == 'i' && ("iface_"@ + key
            + "_transmitted_mb"@)[1] == 'f');
    }
}

proof fn lemma_processes_shapes(src: Seq<char>, ps: Seq<ProcessReading>)
    ensures
        forall|j: int|
            0 <= j < processes_models(src, ps).len() ==> part_key_shape(
                9,
                (#[trigger] processes_models(src, ps)[j]).key,
            ),
{
    reveal_strlit("top_proc_");
    reveal_strlit("_name");
    reveal_strlit("_cpu_pct");
    reveal_strlit("_mem_mb");
    lemma_processes_layout(src, ps);
    assert forall|j: int| 0 <= j < processes_models(src, ps).len() implies part_key_shape(
        9,
        (#[trigger] processes_models(src, ps)[j]).key,
    ) by {
        let i = j / 3;
        let t = j % 3;
        assert(j == 3 * i + t);
        let b = process_block(src, i as nat, ps[i]);
        assert(processes_models(src, ps)[3 * i + t] == b[t]);
        lemma_indexed_key_shape("top_proc_"@, i as nat, "_name"@);
        lemma_indexed_key_shape("top_proc_"@, i as nat, "_cpu_pct"@);
        lemma_indexed_key_shape("top_proc_"@, i as nat, "_mem_mb"@);
    }
}

proof fn lemma_part_shapes(src: Seq<char>, r: SystemReading)
    ensures
        forall|w: int, j: int|
            0 <= w < 10 && 0 <= j < part(src, r, w).len() ==> part_key_shape(w, (#[trigger] part(src, r, w)[j]).key),
{
    lemma_machine_shapes(src, r);
    lemma_cpu_identity_shapes(src, r.cpus@);
    lemma_cpu_count_shapes(src, r);
    lemma_core_shapes(src, r.cpus@);
    lemma_memory_shapes(src, r.memory);
    lemma_disks_shapes(src, r.disks@);
    lemma_networks_shapes(src, r.networks@);
    lemma_processes_shapes(src, top_processes(r.processes@));
    reveal_strlit("disk_count");
    reveal_strlit("interface_count");
    assert forall|w: int, j: int| 0 <= w < 10 && 0 <= j < part(src, r, w).len() implies part_key_shape(
        w,
        (#[trigger] part(src, r, w)[j]).key,
    ) by {
        if w == 0 {
            assert(part(src, r, w)[j] == machine_models(src, r)[j]);
        } else if w == 1 {
            assert(part(src, r, w)[j] == cpu_identity_models(src, r.cpus@)[j]);
        } else if w == 2 {
            assert(part(src, r, w)[j] == cpu_count_models(src, r)[j]);
        } else if w == 3 {
            assert(part(src, r, w)[j] == core_models(src, r.cpus@)[j]);
        } else if w == 4 {
            assert(part(src, r, w)[j] == memory_models(src, r.memory)[j]);
        } else if w == 6 {
            assert(part(src, r, w)[j] == disks_models(src, r.disks@)[j]);
        } else if w == 8 {
            assert(part(src, r, w)[j] == networks_models(src, r.networks@)[j]);
        } else if w == 9 {
            assert(part(src, r, w)[j] == processes_models(src, top_processes(r.processes@))[j]);
        }
    }
}

/// A key that no part holds is not among the metrics of a reading.
proof fn lemma_lacks_in_system(src: Seq<char>, r: SystemReading, k: Seq<char>)
    requires
        forall|w: int| 0 <= w < 10 ==> lacks(#[trigger] part(src, r, w), k),
    ensures
        lacks(system_models(src, r), k),
{
    lemma_parts_upto(src, r, k, |x: ValueModel| true, 10, 9);
    lemma_system_parts(src, r);
}

/// The memory metrics carry the memory reading's own fields: `total_mb`
/// the total, `used_mb` what is in use, `available_mb` what is free,
/// `usage_pct` the percentage in use; with swap, `swap_total_mb` and
/// `swap_used_mb` its size and use, and without swap no swap metric.
pub open spec fn memory_keys_hold(ms: Seq<MetricModel>, r: SystemReading) -> bool {
    &&& (reports(ms, "total_mb"@, ValueModel::Number(r.memory.total_mb)))
    &&& (reports(ms, "used_mb"@, ValueModel::Number(r.memory.used_mb)))
    &&& (reports(ms, "available_mb"@, ValueModel::Number(r.memory.available_mb)))
    &&& (reports(ms, "usage_pct"@, ValueModel::Number(r.memory.usage_pct)))
    &&& (r.memory.swap_total_bytes > 0 ==> reports(
            ms,
            "swap_total_mb"@,
            ValueModel::Number(r.memory.swap_total_mb),
        ) && reports(ms, "swap_used_mb"@, ValueModel::Number(r.memory.swap_used_mb)))
    &&& (r.memory.swap_total_bytes == 0 ==> lacks(ms, "swap_total_mb"@) && lacks(
            ms,
            "swap_used_mb"@,
        ))
}

/// The metrics built from any reading satisfy `memory_keys_hold`.
pub proof fn law_memory_keys(src: Seq<char>, r: SystemReading)
    ensures
        memory_keys_hold(system_models(src, r), r),
{
    reveal_strlit("total_mb");
    reveal_strlit("used_mb");
    reveal_strlit("available_mb");
    reveal_strlit("usage_pct");
    reveal_strlit("swap_total_mb");
    reveal_strlit("swap_used_mb");
    assert("available_mb"@[0] != "swap_used_mb"@[0]);
    let m = r.memory;
    let s = memory_models(src, m);
    assert(part(src, r, 4) == s);
    assert(s[0].key == "total_mb"@ && s[1].key == "used_mb"@ && s[2].key == "available_mb"@ && s[3].key
        == "usage_pct"@);
    lemma_reports_in_system(src, r, "total_mb"@, ValueModel::Number(m.total_mb), 4);
    lemma_reports_in_system(src, r, "used_mb"@, ValueModel::Number(m.used_mb), 4);
    lemma_reports_in_system(src, r, "available_mb"@, ValueModel::Number(m.available_mb), 4);
    lemma_reports_in_system(src, r, "usage_pct"@, ValueModel::Number(m.usage_pct), 4);
    if m.swap_total_bytes > 0 {
        assert(s[4].key == "swap_total_mb"@ && s[5].key == "swap_used_mb"@);
        lemma_reports_in_system(src, r, "swap_total_mb"@, ValueModel::Number(m.swap_total_mb), 4);
        lemma_reports_in_system(src, r, "swap_used_mb"@, ValueModel::Number(m.swap_used_mb), 4);
    } else {
        lemma_part_shapes(src, r);
        assert(s.len() == 4);
        lemma_lacks_in_system(src, r, "swap_total_mb"@);
        lemma_lacks_in_system(src, r, "swap_used_mb"@);
    }
}

/// The machine metrics carry the reading's own fields: the host name,
/// system name, system version and kernel version (or "(desconhecido)"
/// when the machine did not say), the architecture, and the uptime in
/// seconds.
pub open spec fn machine_keys_hold(ms: Seq<MetricModel>, r: SystemReading) -> bool {
    &&& (reports(
            ms,
            "hostname"@,
            ValueModel::Text(
                match r.host_name {
                    Some(h) => h@,
                    None => "(desconhecido)"@,
                },
            ),
        ))
    &&& (reports(
            ms,
            "os_name"@,
            ValueModel::Text(
                match r.os_name {
                    Some(h) => h@,
                    None => "(desconhecido)"@,
                },
            ),
        ))
    &&& (reports(
            ms,
            "os_version"@,
            ValueModel::Text(
                match r.os_version {
                    Some(h) => h@,
                    None => "(desconhecido)"@,
                },
            ),
        ))
    &&& (reports(
            ms,
            "kernel_version"@,
            ValueModel::Text(
                match r.kernel_version {
                    Some(h) => h@,
                    None => "(desconhecido)"@,
                },
            ),
        ))
    &&& (reports(ms, "arch"@, ValueModel::Text(r.arch@)))
    &&& (reports(ms, "uptime_seconds"@, ValueModel::Integer(r.uptime_seconds as i64)))
}

/// The metrics built from any reading satisfy `machine_keys_hold`.
pub proof fn law_machine_keys(src: Seq<char>, r: SystemReading)
    ensures
        machine_keys_hold(system_models(src, r), r),
{
    reveal_strlit("hostname");
    reveal_strlit("os_name");
    reveal_strlit("os_version");
    reveal_strlit("kernel_version");
    reveal_strlit("arch");
    reveal_strlit("uptime_seconds");
    assert("kernel_version"@[0] != "uptime_seconds"@[0]);
    let s = machine_models(src, r);
    assert(part(src, r, 0) == s);
    assert(s[0].key == "hostname"@ && s[1].key == "os_name"@ && s[2].key == "os_version"@);
    assert(s[3].key == "kernel_version"@ && s[4].key == "arch"@ && s[5].key == "uptime_seconds"@);
    lemma_reports_in_system(src, r, "hostname"@, s[0].value, 0);
    lemma_reports_in_system(src, r, "os_name"@, s[1].value, 0);
    lemma_reports_in_system(src, r, "os_version"@, s[2].value, 0);
    lemma_reports_in_system(src, r, "kernel_version"@, s[3].value, 0);
    lemma_reports_in_system(src, r, "arch"@, s[4].value, 0);
    lemma_reports_in_system(src, r, "uptime_seconds"@, s[5].value, 0);
}

/// The CPU metrics describe the first CPU read: `brand` its brand,
/// `vendor` its vendor id, `frequency_mhz` its frequency. With no CPU read,
/// `brand` is reported without a value and the other two are absent.
pub open spec fn cpu_identity_keys_hold(ms: Seq<MetricModel>, r: SystemReading) -> bool {
    &&& (r.cpus@.len() > 0 ==> {
            &&& reports(ms, "brand"@, ValueModel::Text(r.cpus@[0].brand@))
            &&& reports(ms, "vendor"@, ValueModel::Text(r.cpus@[0].vendor_id@))
            &&& reports(ms, "frequency_mhz"@, ValueModel::Number(r.cpus@[0].frequency_mhz))
        })
    &&& (r.cpus@.len() == 0 ==> {
            &&& reports(ms, "brand"@, ValueModel::Null)
            &&& lacks(ms, "vendor"@)
            &&& lacks(ms, "frequency_mhz"@)
        })
}

/// The metrics built from any reading satisfy `cpu_identity_keys_hold`.
pub proof fn law_cpu_identity_keys(src: Seq<char>, r: SystemReading)
    ensures
        cpu_identity_keys_hold(system_models(src, r), r),
{
    reveal_strlit("brand");
    reveal_strlit("vendor");
    reveal_strlit("frequency_mhz");
    let cpus = r.cpus@;
    let s = cpu_identity_models(src, cpus);
    assert(part(src, r, 1) == s);
    if cpus.len() > 0 {
        assert(s[0].key == "brand"@ && s[1].key == "vendor"@ && s[2].key == "frequency_mhz"@);
        lemma_reports_in_system(src, r, "brand"@, ValueModel::Text(cpus[0].brand@), 1);
        lemma_reports_in_system(src, r, "vendor"@, ValueModel::Text(cpus[0].vendor_id@), 1);
        lemma_reports_in_system(src, r, "frequency_mhz"@, ValueModel::Number(cpus[0].frequency_mhz), 1);
    } else {
        assert(s.len() == 1 && s[0].key == "brand"@);
        lemma_reports_in_system(src, r, "brand"@, ValueModel::Null, 1);
        lemma_part_shapes(src, r);
        lemma_lacks_in_system(src, r, "vendor"@);
        lemma_lacks_in_system(src, r, "frequency_mhz"@);
    }
}

/// The counting metrics: `physical_cores` the physical core count (0 when
/// unknown), `logical_cores` how many CPUs were read, `usage_global_pct`
/// the global usage, `disk_count` how many disks and `interface_count` how
/// many interfaces were read.
pub open spec fn count_keys_hold(ms: Seq<MetricModel>, r: SystemReading) -> bool {
    &&& (reports(
            ms,
            "physical_cores"@,
            ValueModel::Integer(
                match r.physical_cores {
                    Some(n) => n as i64,
                    None => 0,
                },
            ),
        ))
    &&& (reports(ms, "logical_cores"@, ValueModel::Integer(r.cpus@.len() as i64)))
    &&& (reports(ms, "usage_global_pct"@, ValueModel::Number(r.global_cpu_usage_pct)))
    &&& (reports(ms, "disk_count"@, ValueModel::Integer(r.disks@.len() as i64)))
    &&& (reports(ms, "interface_count"@, ValueModel::Integer(r.networks@.len() as i64)))
}

/// The metrics built from any reading satisfy `count_keys_hold`.
pub proof fn law_count_keys(src: Seq<char>, r: SystemReading)
    ensures
        count_keys_hold(system_models(src, r), r),
{
    reveal_strlit("physical_cores");
    reveal_strlit("logical_cores");
    reveal_strlit("usage_global_pct");
    reveal_strlit("disk_count");
    reveal_strlit("interface_count");
    let s = cpu_count_models(src, r);
    assert(part(src, r, 2) == s);
    assert(s[0].key == "physical_cores"@ && s[1].key == "logical_cores"@ && s[2].key == "usage_global_pct"@);
    lemma_reports_in_system(src, r, "physical_cores"@, s[0].value, 2);
    lemma_reports_in_system(src, r, "logical_cores"@, s[1].value, 2);
    lemma_reports_in_system(src, r, "usage_global_pct"@, s[2].value, 2);
    assert(part(src, r, 5)[0].key == "disk_count"@);
    lemma_reports_in_system(src, r, "disk_count"@, ValueModel::Integer(r.disks@.len() as i64), 5);
    assert(part(src, r, 7)[0].key == "interface_count"@);
    lemma_reports_in_system(src, r, "interface_count"@, ValueModel::Integer(r.networks@.len() as i64), 7);
}

/// A key that only part `t` could hold, and that part lacks, is not among
/// the metrics of a reading.
proof fn lemma_lacks_by_shape(src: Seq<char>, r: SystemReading, k: Seq<char>, t: int)
    requires
        0 <= t < 10,
        lacks(part(src, r, t), k),
        forall|w: int| 0 <= w < 10 && w != t ==> !part_key_shape(w, k),
    ensures
        lacks(system_models(src, r), k),
{
    lemma_part_shapes(src, r);
    assert forall|w: int| 0 <= w < 10 implies lacks(#[trigger] part(src, r, w), k) by {
        if w != t {
            assert(!part_key_shape(w, k));
        }
    }
    lemma_lacks_in_system(src, r, k);
}

proof fn lemma_core_key(src: Seq<char>, r: SystemReading, i: nat)
    ensures
        i < r.cpus@.len() ==> reports(
            system_models(src, r),
            indexed_key("core_"@, i, "_usage_pct"@),
            ValueModel::Number(r.cpus@[i as int].usage_pct),
        ),
        i >= r.cpus@.len() ==> lacks(system_models(src, r), indexed_key("core_"@, i, "_usage_pct"@)),
{
    reveal_strlit("core_");
    reveal_strlit("_usage_pct");
    let cpus = r.cpus@;
    let k = indexed_key("core_"@, i, "_usage_pct"@);
    lemma_indexed_key_shape("core_"@, i, "_usage_pct"@);
    let c = core_models(src, cpus);
    assert(part(src, r, 3) == c);
    lemma_core_layout(src, cpus);
    assert forall|j: int| 0 <= j < c.len() && (#[trigger] c[j]).key == k implies j == i by {
        lemma_indexed_key_eq("core_"@, j as nat, "_usage_pct"@, i, "_usage_pct"@);
    }
    if i < cpus.len() {
        assert(c[i as int].key == k);
        lemma_reports_in_system(src, r, k, ValueModel::Number(cpus[i as int].usage_pct), 3);
    } else {
        lemma_lacks_by_shape(src, r, k, 3);
    }
}

/// Each core's usage is reported under `core_<i>_usage_pct`, `i` counting
/// the cores read from 0, and there is no such key past the last core.
pub open spec fn core_keys_hold(ms: Seq<MetricModel>, r: SystemReading) -> bool {
    &&& (forall|i: nat|
            i < r.cpus@.len() ==> reports(
                ms,
                #[trigger] indexed_key("core_"@, i, "_usage_pct"@),
                ValueModel::Number(r.cpus@[i as int].usage_pct),
            ))
    &&& (forall|i: nat|
            i >= r.cpus@.len() ==> lacks(ms, #[trigger] indexed_key("core_"@, i, "_usage_pct"@)))
}

/// The metrics built from any reading satisfy `core_keys_hold`.
pub proof fn law_core_keys(src: Seq<char>, r: SystemReading)
    ensures
        core_keys_hold(system_models(src, r), r),
{
    assert forall|i: nat| i < r.cpus@.len() implies reports(
        system_models(src, r),
        #[trigger] indexed_key("core_"@, i, "_usage_pct"@),
        ValueModel::Number(r.cpus@[i as int].usage_pct),
    ) by {
        lemma_core_key(src, r, i);
    }
    assert forall|i: nat| i >= r.cpus@.len() implies lacks(
        system_models(src, r),
        #[trigger] indexed_key("core_"@, i, "_usage_pct"@),
    ) by {
        lemma_core_key(src, r, i);
    }
}

/// The suffixes of the five keys of a disk, in order.
pub open spec fn disk_suffix(t: int) -> Seq<char> {
    if t == 0 {
        "_name"@
    } else if t == 1 {
        "_kind"@
    } else if t == 2 {
        "_total_gb"@
    } else if t == 3 {
        "_available_gb"@
    } else {
        "_usage_pct"@
    }
}

proof fn lemma_disk_suffixes()
    ensures
        forall|t: int| 0 <= t < 5 ==> (#[trigger] disk_suffix(t)).len() > 0 && !is_digit(disk_suffix(t)[0]),
        forall|t: int, u: int| 0 <= t < 5 && 0 <= u < 5 && t != u ==> #[trigger] disk_suffix(t) != #[trigger] disk_suffix(u),
{
    reveal_strlit("_name");
    reveal_strlit("_kind");
    reveal_strlit("_total_gb");
    reveal_strlit("_available_gb");
    reveal_strlit("_usage_pct");
    assert("_name"@[1] != "_kind"@[1]);
    assert forall|t: int, u: int| 0 <= t < 5 && 0 <= u < 5 && t != u implies #[trigger] disk_suffix(t)
        != #[trigger] disk_suffix(u) by {
        if disk_suffix(t) == disk_suffix(u) {
            assert(disk_suffix(t).len() == disk_suffix(u).len());
            assert(disk_suffix(t)[1] == disk_suffix(u)[1]);
        }
    }
}

proof fn lemma_disk_key(src: Seq<char>, r: SystemReading, i: nat, t: int)
    requires
        0 <= t < 5,
    ensures
        i < r.disks@.len() ==> reports(
            system_models(src, r),
            indexed_key("disk_"@, i, disk_suffix(t)),
            disk_block(src, i, r.disks@[i as int])[t].value,
        ),
        i >= r.disks@.len() ==> lacks(system_models(src, r), indexed_key("disk_"@, i, disk_suffix(t))),
{
    reveal_strlit("disk_");
    reveal_strlit("_name");
    reveal_strlit("_kind");
    reveal_strlit("_total_gb");
    reveal_strlit("_available_gb");
    reveal_strlit("_usage_pct");
    lemma_disk_suffixes();
    let ds = r.disks@;
    let k = indexed_key("disk_"@, i, disk_suffix(t));
    lemma_indexed_key_shape("disk_"@, i, disk_suffix(t));
    let d = disks_models(src, ds);
    assert(part(src, r, 6) == d);
    lemma_disks_layout(src, ds);
    assert forall|j: int| 0 <= j < d.len() && (#[trigger] d[j]).key == k implies j == 5 * i + t by {
        let a = j / 5;
        let b = j % 5;
        assert(j == 5 * a + b);
        assert(d[5 * a + b] == disk_block(src, a as nat, ds[a])[b]);
        assert(disk_block(src, a as nat, ds[a])[b].key == indexed_key("disk_"@, a as nat, disk_suffix(b)));
        lemma_indexed_key_eq("disk_"@, a as nat, disk_suffix(b), i, disk_suffix(t));
    }
    if i < ds.len() {
        let ii = i as int;
        assert(d[5 * ii + t] == disk_block(src, ii as nat, ds[ii])[t]);
        assert(disk_block(src, i, ds[i as int])[t].key == k);
        lemma_reports_in_system(src, r, k, disk_block(src, i, ds[i as int])[t].value, 6);
    } else {
        lemma_lacks_by_shape(src, r, k, 6);
    }
}

/// The metrics of `ms` under the keys of disk number `i` carry the fields
/// of `d`: `disk_<i>_name` its name, `disk_<i>_kind` its kind (`HDD`,
/// `SSD` or `?`), `disk_<i>_total_gb` its size, `disk_<i>_available_gb`
/// its free space, `disk_<i>_usage_pct` its use.
pub open spec fn disk_reported(ms: Seq<MetricModel>, i: nat, d: DiskReading) -> bool {
    &&& reports(ms, indexed_key("disk_"@, i, "_name"@), ValueModel::Text(d.name@))
    &&& reports(
        ms,
        indexed_key("disk_"@, i, "_kind"@),
        ValueModel::Text(
            match d.kind {
                DiskKindReading::Hdd => "HDD"@,
                DiskKindReading::Ssd => "SSD"@,
                DiskKindReading::Unknown => "?"@,
            },
        ),
    )
    &&& reports(ms, indexed_key("disk_"@, i, "_total_gb"@), ValueModel::Number(d.total_gb))
    &&& reports(ms, indexed_key("disk_"@, i, "_available_gb"@), ValueModel::Number(d.available_gb))
    &&& reports(ms, indexed_key("disk_"@, i, "_usage_pct"@), ValueModel::Number(d.usage_pct))
}

/// Each disk read is reported under keys numbered by its place among the
/// disks read, with its own fields; past the last disk there are no such
/// keys.
pub open spec fn disk_keys_hold(ms: Seq<MetricModel>, r: SystemReading) -> bool {
    &&& (forall|i: nat|
            i < r.disks@.len() ==> disk_reported(ms, i, #[trigger] r.disks@[i as int]))
    &&& (forall|i: nat, t: int|
            i >= r.disks@.len() && 0 <= t < 5 ==> lacks(
                ms,
                #[trigger] indexed_key("disk_"@, i, disk_suffix(t)),
            ))
}

/// The metrics built from any reading satisfy `disk_keys_hold`.
pub proof fn law_disk_keys(src: Seq<char>, r: SystemReading)
    ensures
        disk_keys_hold(system_models(src, r), r),
{
    assert forall|i: nat| i < r.disks@.len() implies disk_reported(
        system_models(src, r),
        i,
        #[trigger] r.disks@[i as int],
    ) by {
        let b = disk_block(src, i, r.disks@[i as int]);
        assert(disk_suffix(0) == "_name"@ && disk_suffix(1) == "_kind"@ && disk_suffix(2) == "_total_gb"@);
        assert(disk_suffix(3) == "_available_gb"@ && disk_suffix(4) == "_usage_pct"@);
        assert(b[0].value == ValueModel::Text(r.disks@[i as int].name@));
        assert(b[2].value == ValueModel::Number(r.disks@[i as int].total_gb));
        assert(b[3].value == ValueModel::Number(r.disks@[i as int].available_gb));
        assert(b[4].value == ValueModel::Number(r.disks@[i as int].usage_pct));
        lemma_disk_key(src, r, i, 0);
        lemma_disk_key(src, r, i, 1);
        lemma_disk_key(src, r, i, 2);
        lemma_disk_key(src, r, i, 3);
        lemma_disk_key(src, r, i, 4);
    }
    assert forall|i: nat, t: int| i >= r.disks@.len() && 0 <= t < 5 implies lacks(
        system_models(src, r),
        #[trigger] indexed_key("disk_"@, i, disk_suffix(t)),
    ) by {
        lemma_disk_key(src, r, i, t);
    }
}

/// The suffixes of the three keys of a reported process, in order.
pub open spec fn process_suffix(t: int) -> Seq<char> {
    if t == 0 {
        "_name"@
    } else if t == 1 {
        "_cpu_pct"@
    } else {
        "_mem_mb"@
    }
}

proof fn lemma_process_suffixes()
    ensures
        forall|t: int| 0 <= t < 3 ==> (#[trigger] process_suffix(t)).len() > 0 && !is_digit(process_suffix(t)[0]),
        forall|t: int, u: int|
            0 <= t < 3 && 0 <= u < 3 && t != u ==> #[trigger] process_suffix(t) != #[trigger] process_suffix(u),
{
    reveal_strlit("_name");
    reveal_strlit("_cpu_pct");
    reveal_strlit("_mem_mb");
    assert forall|t: int, u: int| 0 <= t < 3 && 0 <= u < 3 && t != u implies #[trigger] process_suffix(t)
        != #[trigger] process_suffix(u) by {
        if process_suffix(t) == process_suffix(u) {
            assert(process_suffix(t).len() == process_suffix(u).len());
        }
    }
}

proof fn lemma_process_key(src: Seq<char>, r: SystemReading, i: nat, t: int)
    requires
        0 <= t < 3,
    ensures
        i < top_count(r.processes@) ==> reports(
            system_models(src, r),
            indexed_key("top_proc_"@, i, process_suffix(t)),
            process_block(src, i, top_processes(r.processes@)[i as int])[t].value,
        ),
        i >= top_count(r.processes@) ==> lacks(
            system_models(src, r),
            indexed_key("top_proc_"@, i, process_suffix(t)),
        ),
{
    reveal_strlit("top_proc_");
    reveal_strlit("_name");
    reveal_strlit("_cpu_pct");
    reveal_strlit("_mem_mb");
    lemma_process_suffixes();
    let ps = r.processes@;
    let top = top_processes(ps);
    lemma_busiest_indices(ps, top_count(ps));
    assert(top.len() == top_count(ps));
    let k = indexed_key("top_proc_"@, i, process_suffix(t));
    lemma_indexed_key_shape("top_proc_"@, i, process_suffix(t));
    let d = processes_models(src, top);
    assert(part(src, r, 9) == d);
    lemma_processes_layout(src, top);
    assert forall|j: int| 0 <= j < d.len() && (#[trigger] d[j]).key == k implies j == 3 * i + t by {
        let a = j / 3;
        let b = j % 3;
        assert(j == 3 * a + b);
        assert(d[3 * a + b] == process_block(src, a as nat, top[a])[b]);
        assert(process_block(src, a as nat, top[a])[b].key == indexed_key("top_proc_"@, a as nat, process_suffix(b)));
        lemma_indexed_key_eq("top_proc_"@, a as nat, process_suffix(b), i, process_suffix(t));
    }
    if i < top.len() {
        let ii = i as int;
        assert(d[3 * ii + t] == process_block(src, ii as nat, top[ii])[t]);
        assert(process_block(src, i, top[ii])[t].key == k);
        lemma_reports_in_system(src, r, k, process_block(src, i, top[ii])[t].value, 9);
    } else {
        lemma_lacks_by_shape(src, r, k, 9);
    }
}

/// The metrics of `ms` under the keys of rank `i` carry the fields of `p`:
/// `top_proc_<i>_name` its name, `top_proc_<i>_cpu_pct` its CPU usage,
/// `top_proc_<i>_mem_mb` its memory.
pub open spec fn process_reported(ms: Seq<MetricModel>, i: nat, p: ProcessReading) -> bool {
    &&& reports(ms, indexed_key("top_proc_"@, i, "_name"@), ValueModel::Text(p.name@))
    &&& reports(ms, indexed_key("top_proc_"@, i, "_cpu_pct"@), ValueModel::Number(p.cpu_pct))
    &&& reports(ms, indexed_key("top_proc_"@, i, "_mem_mb"@), ValueModel::Number(p.mem_mb))
}

/// The keys of rank `i` carry the name, CPU usage and memory of one and
/// the same process: the one ranked `i` among the busiest. There are no
/// such keys past the last reported rank.
pub open spec fn top_process_keys_hold(ms: Seq<MetricModel>, r: SystemReading) -> bool {
    &&& (forall|i: nat|
            i < top_count(r.processes@) ==> process_reported(
                ms,
                i,
                r.processes@[#[trigger] busiest_indices(r.processes@, top_count(r.processes@))[i as int]],
            ))
    &&& (forall|i: nat, t: int|
            i >= top_count(r.processes@) && 0 <= t < 3 ==> lacks(
                ms,
                #[trigger] indexed_key("top_proc_"@, i, process_suffix(t)),
            ))
}

/// The metrics built from any reading satisfy `top_process_keys_hold`.
pub proof fn law_top_process_keys(src: Seq<char>, r: SystemReading)
    ensures
        top_process_keys_hold(system_models(src, r), r),
{
    let ps = r.processes@;
    let sel = busiest_indices(ps, top_count(ps));
    let top = top_processes(ps);
    lemma_busiest_indices(ps, top_count(ps));
    assert forall|i: nat| i < top_count(ps) implies process_reported(
        system_models(src, r),
        i,
        ps[#[trigger] sel[i as int]],
    ) by {
        let p = ps[sel[i as int]];
        assert(top[i as int] == p);
        let b = process_block(src, i, p);
        assert(process_suffix(0) == "_name"@ && process_suffix(1) == "_cpu_pct"@ && process_suffix(2) == "_mem_mb"@);
        assert(b[0].value == ValueModel::Text(p.name@));
        assert(b[1].value == ValueModel::Number(p.cpu_pct));
        assert(b[2].value == ValueModel::Number(p.mem_mb));
        lemma_process_key(src, r, i, 0);
        lemma_process_key(src, r, i, 1);
        lemma_process_key(src, r, i, 2);
    }
    assert forall|i: nat, t: int| i >= top_count(ps) && 0 <= t < 3 implies lacks(
        system_models(src, r),
        #[trigger] indexed_key("top_proc_"@, i, process_suffix(t)),
    ) by {
        lemma_process_key(src, r, i, t);
    }
}

/// The suffixes of the three keys of a network interface, in order.
pub open spec fn net_suffix(t: int) -> Seq<char> {
    if t == 0 {
        "_name"@
    } else if t == 1 {
        "_received_mb"@
    } else {
        "_transmitted_mb"@
    }
}

/// Key `t` of an interface whose sanitized name is `name`.
pub open spec fn iface_key(name: Seq<char>, t: int) -> Seq<char> {
    "iface_"@ + name + net_suffix(t)
}

/// The field of an interface that key `t` carries: its name, what it
/// received, what it transmitted.
pub open spec fn iface_field(n: NetworkReading, t: int) -> ValueModel {
    if t == 0 {
        ValueModel::Text(n.name@)
    } else if t == 1 {
        ValueModel::Number(n.received_mb)
    } else {
        ValueModel::Number(n.transmitted_mb)
    }
}

/// A metric of part `t` is among the metrics of the parts up to `u`.
proof fn lemma_shows_in_system(
    src: Seq<char>,
    r: SystemReading,
    k: Seq<char>,
    ok: spec_fn(ValueModel) -> bool,
    t: int,
    u: nat,
)
    requires
        0 <= t <= u < 10,
        shows(part(src, r, t), k, ok),
    ensures
        shows(parts_upto(src, r, u), k, ok),
    decreases u,
{
    lemma_concat(part(src, r, 0), seq![], k, ok);
    if u > 0 {
        if t < u {
            lemma_shows_in_system(src, r, k, ok, t, (u - 1) as nat);
        }
        lemma_concat(parts_upto(src, r, (u - 1) as nat), part(src, r, u as int), k, ok);
    } else {
        assert(part(src, r, 0) + seq![] =~= part(src, r, 0));
    }
}

proof fn lemma_iface_key_eq(a: Seq<char>, t: int, b: Seq<char>, u: int)
    requires
        0 <= t < 3,
        0 <= u < 3,
        iface_key(a, t) == iface_key(b, u),
    ensures
        t == u,
        a == b,
{
    reveal_strlit("iface_");
    reveal_strlit("_name");
    reveal_strlit("_received_mb");
    reveal_strlit("_transmitted_mb");
    let x = iface_key(a, t);
    let y = iface_key(b, u);
    let l = x.len();
    assert(l == 6 + a.len() + net_suffix(t).len());
    assert(y.len() == 6 + b.len() + net_suffix(u).len());
    assert(x[l - 1] == net_suffix(t)[net_suffix(t).len() - 1]);
    assert(y[l - 1] == net_suffix(u)[net_suffix(u).len() - 1]);
    if t != u {
        if t != 0 && u != 0 {
            if t == 1 {
                assert(x[l - 12] == net_suffix(t)[0]);
                assert(y[l - 12] == net_suffix(u)[3]);
            } else {
                assert(y[l - 12] == net_suffix(u)[0]);
                assert(x[l - 12] == net_suffix(t)[3]);
            }
        }
        assert(false);
    }
    assert(a =~= b) by {
        assert(a.len() == b.len());
        assert forall|m: int| 0 <= m < a.len() implies a[m] == b[m] by {
            assert(x[6 + m] == a[m]);
            assert(y[6 + m] == b[m]);
        }
    }
}

proof fn lemma_iface_key(src: Seq<char>, r: SystemReading, i: int, t: int)
    requires
        0 <= i < r.networks@.len(),
        0 <= t < 3,
    ensures
        ({
            let ns = r.networks@;
            let k = iface_key(sanitized(ns[i].name@), t);
            &&& shows(system_models(src, r), k, |x: ValueModel| x == iface_field(ns[i], t))
            &&& holds(
                system_models(src, r),
                k,
                |x: ValueModel|
                    exists|i2: int|
                        0 <= i2 < ns.len() && sanitized(ns[i2].name@) == sanitized(ns[i].name@) && x
                            == iface_field(#[trigger] ns[i2], t),
            )
        }),
{
    reveal_strlit("iface_");
    reveal_strlit("_name");
    reveal_strlit("_received_mb");
    reveal_strlit("_transmitted_mb");
    let ns = r.networks@;
    let name = sanitized(ns[i].name@);
    let k = iface_key(name, t);
    let ok = |x: ValueModel|
        exists|i2: int|
            0 <= i2 < ns.len() && sanitized(ns[i2].name@) == name && x == iface_field(#[trigger] ns[i2], t);
    let exact = |x: ValueModel| x == iface_field(ns[i], t);
    let d = networks_models(src, ns);
    assert(part(src, r, 8) == d);
    lemma_networks_layout(src, ns);
    assert(k.len() >= 11 && k[0] == 'i' && k[1] == 'f');
    assert forall|j: int| 0 <= j < d.len() && (#[trigger] d[j]).key == k implies ok(d[j].value) by {
        let a = j / 3;
        let b = j % 3;
        assert(j == 3 * a + b);
        assert(d[3 * a + b] == network_block(src, ns[a])[b]);
        assert(network_block(src, ns[a])[b].key == iface_key(sanitized(ns[a].name@), b));
        lemma_iface_key_eq(sanitized(ns[a].name@), b, name, t);
        assert(network_block(src, ns[a])[b].value == iface_field(ns[a], b));
    }
    assert(d[3 * i + t] == network_block(src, ns[i])[t]);
    assert(network_block(src, ns[i])[t].key == k);
    assert(network_block(src, ns[i])[t].value == iface_field(ns[i], t));
    assert(exact(d[3 * i + t].value));
    lemma_in_system(src, r, k, ok, 8);
    lemma_shows_in_system(src, r, k, exact, 8, 9);
    lemma_system_parts(src, r);
}

/// Some metric of `ms` has key `k` and value `v`.
pub open spec fn shows_value(ms: Seq<MetricModel>, k: Seq<char>, v: ValueModel) -> bool {
    exists|j: int| 0 <= j < ms.len() && (#[trigger] ms[j]).key == k && ms[j].value == v
}

/// Interface `i` of `ns` is reported in `ms`: under `iface_<key>_name`,
/// `iface_<key>_received_mb` and `iface_<key>_transmitted_mb`, `<key>`
/// being its sanitized name, stand its name, what it received and what it
/// transmitted; and every metric under one of these keys carries that
/// field of an interface with the same sanitized name.
pub open spec fn iface_reported(ms: Seq<MetricModel>, ns: Seq<NetworkReading>, i: int) -> bool {
    let n = ns[i];
    let name = sanitized(n.name@);
    &&& shows_value(ms, "iface_"@ + name + "_name"@, ValueModel::Text(n.name@))
    &&& shows_value(ms, "iface_"@ + name + "_received_mb"@, ValueModel::Number(n.received_mb))
    &&& shows_value(ms, "iface_"@ + name + "_transmitted_mb"@, ValueModel::Number(n.transmitted_mb))
    &&& forall|j: int|
        0 <= j < ms.len() && (#[trigger] ms[j]).key == "iface_"@ + name + "_name"@ ==> exists|i2: int|
            0 <= i2 < ns.len() && sanitized(ns[i2].name@) == name && ms[j].value == ValueModel::Text(
                (#[trigger] ns[i2]).name@,
            )
    &&& forall|j: int|
        0 <= j < ms.len() && (#[trigger] ms[j]).key == "iface_"@ + name + "_received_mb"@ ==> exists|i2: int|
            0 <= i2 < ns.len() && sanitized(ns[i2].name@) == name && ms[j].value == ValueModel::Number(
                (#[trigger] ns[i2]).received_mb,
            )
    &&& forall|j: int|
        0 <= j < ms.len() && (#[trigger] ms[j]).key == "iface_"@ + name + "_transmitted_mb"@ ==> exists|i2: int|
            0 <= i2 < ns.len() && sanitized(ns[i2].name@) == name && ms[j].value == ValueModel::Number(
                (#[trigger] ns[i2]).transmitted_mb,
            )
}

/// Interface `i`'s sanitized name is shared by no other interface of `ns`.
pub open spec fn unique_iface(ns: Seq<NetworkReading>, i: int) -> bool {
    forall|i2: int| 0 <= i2 < ns.len() && i2 != i ==> sanitized((#[trigger] ns[i2]).name@) != sanitized(ns[i].name@)
}

proof fn lemma_network_one(src: Seq<char>, r: SystemReading, i: int)
    requires
        0 <= i < r.networks@.len(),
    ensures
        iface_reported(system_models(src, r), r.networks@, i),
        unique_iface(r.networks@, i) ==> {
            let n = r.networks@[i];
            let name = sanitized(n.name@);
            let ms = system_models(src, r);
            &&& reports(ms, "iface_"@ + name + "_name"@, ValueModel::Text(n.name@))
            &&& reports(ms, "iface_"@ + name + "_received_mb"@, ValueModel::Number(n.received_mb))
            &&& reports(ms, "iface_"@ + name + "_transmitted_mb"@, ValueModel::Number(n.transmitted_mb))
        },
{
    let ns = r.networks@;
    let ms = system_models(src, r);
    let name = sanitized(ns[i].name@);
    assert(iface_key(name, 0) == "iface_"@ + name + "_name"@);
    assert(iface_key(name, 1) == "iface_"@ + name + "_received_mb"@);
    assert(iface_key(name, 2) == "iface_"@ + name + "_transmitted_mb"@);
    lemma_iface_key(src, r, i, 0);
    lemma_iface_key(src, r, i, 1);
    lemma_iface_key(src, r, i, 2);
    assert forall|t: int, j: int|
        #![trigger ms[j], iface_key(name, t)]
        0 <= t < 3 && 0 <= j < ms.len() && ms[j].key == iface_key(name, t) implies exists|i2: int|
        0 <= i2 < ns.len() && sanitized(ns[i2].name@) == name && ms[j].value == iface_field(
            #[trigger] ns[i2],
            t,
        ) by {
        lemma_iface_key(src, r, i, t);
    }
    if unique_iface(ns, i) {
        assert forall|t: int, j: int|
            #![trigger ms[j], iface_key(name, t)]
            0 <= t < 3 && 0 <= j < ms.len() && ms[j].key == iface_key(name, t) implies ms[j].value
            == iface_field(ns[i], t) by {
            lemma_iface_key(src, r, i, t);
            let i2 = choose|i2: int|
                0 <= i2 < ns.len() && sanitized(ns[i2].name@) == name && ms[j].value == iface_field(
                    #[trigger] ns[i2],
                    t,
                );
            assert(i2 == i);
        }
    }
}

/// Every interface read is reported with its own name, received and
/// transmitted amounts under keys built from its sanitized name; a metric
/// under such a key carries that field of an interface with that sanitized
/// name, so of this very interface when no other shares its sanitized
/// name.
pub open spec fn network_keys_hold(ms: Seq<MetricModel>, r: SystemReading) -> bool {
    &&& (forall|i: int| 0 <= i < r.networks@.len() ==> iface_reported(ms, r.networks@, i))
    &&& (forall|i: int|
            0 <= i < r.networks@.len() && unique_iface(r.networks@, i) ==> {
                let n = #[trigger] r.networks@[i];
                let name = sanitized(n.name@);
                let ms = ms;
                &&& reports(ms, "iface_"@ + name + "_name"@, ValueModel::Text(n.name@))
                &&& reports(ms, "iface_"@ + name + "_received_mb"@, ValueModel::Number(n.received_mb))
                &&& reports(ms, "iface_"@ + name + "_transmitted_mb"@, ValueModel::Number(n.transmitted_mb))
            })
}

/// The metrics built from any reading satisfy `network_keys_hold`.
pub proof fn law_network_keys(src: Seq<char>, r: SystemReading)
    ensures
        network_keys_hold(system_models(src, r), r),
{
    assert forall|i: int| 0 <= i < r.networks@.len() implies iface_reported(
        system_models(src, r),
        r.networks@,
        i,
    ) by {
        lemma_network_one(src, r, i);
    }
    assert forall|i: int| 0 <= i < r.networks@.len() && unique_iface(r.networks@, i) implies {
        let n = #[trigger] r.networks@[i];
        let name = sanitized(n.name@);
        let ms = system_models(src, r);
        &&& reports(ms, "iface_"@ + name + "_name"@, ValueModel::Text(n.name@))
        &&& reports(ms, "iface_"@ + name + "_received_mb"@, ValueModel::Number(n.received_mb))
        &&& reports(ms, "iface_"@ + name + "_transmitted_mb"@, ValueModel::Number(n.transmitted_mb))
    } by {
        lemma_network_one(src, r, i);
    }
}

/// Every key of the metrics `ms` carries the field of the reading `r` that
/// it is named after: machine, CPU, counts, cores, memory, disks,
/// interfaces and the busiest processes.
pub open spec fn reading_keys_hold(ms: Seq<MetricModel>, r: SystemReading) -> bool {
    &&& machine_keys_hold(ms, r)
    &&& cpu_identity_keys_hold(ms, r)
    &&& count_keys_hold(ms, r)
    &&& core_keys_hold(ms, r)
    &&& memory_keys_hold(ms, r)
    &&& disk_keys_hold(ms, r)
    &&& network_keys_hold(ms, r)
    &&& top_process_keys_hold(ms, r)
}

/// The metrics built from any reading satisfy `reading_keys_hold`.
pub proof fn law_reading_keys(src: Seq<char>, r: SystemReading)
    ensures
        reading_keys_hold(system_models(src, r), r),
{
    law_machine_keys(src, r);
    law_cpu_identity_keys(src, r);
    law_count_keys(src, r);
    law_core_keys(src, r);
    law_memory_keys(src, r);
    law_disk_keys(src, r);
    law_network_keys(src, r);
    law_top_process_keys(src, r);
}

} // verus!

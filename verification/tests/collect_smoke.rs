use pbhealth::collectors::system_info::{
    CpuReading, DiskKindReading, DiskReading, MemoryReading, NetworkReading, ProcessReading,
    SystemReading,
};
use pbhealth::SystemInfoCollector;
use sysinfo::{
    CpuRefreshKind, DiskKind, Disks, MemoryRefreshKind, Networks, ProcessRefreshKind, RefreshKind,
    System,
};

fn mb(bytes: u64) -> u64 {
    (bytes as f64 / 1024.0 / 1024.0).to_bits()
}

/// A reading of this machine, as the application takes it.
fn read_this_machine() -> SystemReading {
    let refresh = RefreshKind::nothing()
        .with_cpu(CpuRefreshKind::everything())
        .with_memory(MemoryRefreshKind::everything());
    let sys = System::new_with_specifics(refresh).ok();
    let cpus = sys
        .as_ref()
        .map(|s| {
            s.cpus()
                .iter()
                .map(|c| CpuReading {
                    brand: c.brand().to_string(),
                    vendor_id: c.vendor_id().to_string(),
                    frequency_mhz: (c.frequency() as f64).to_bits(),
                    usage_pct: (c.usage() as f64).to_bits(),
                })
                .collect()
        })
        .unwrap_or_default();
    let (total, used, avail, swap, swap_used) = sys
        .as_ref()
        .map(|s| (s.total_memory(), s.used_memory(), s.available_memory(), s.total_swap(), s.used_swap()))
        .unwrap_or((0, 0, 0, 0, 0));
    let disks = Disks::new_with_refreshed_list()
        .map(|d| {
            d.iter()
                .map(|disk| DiskReading {
                    name: disk.name().to_string_lossy().to_string(),
                    kind: match disk.kind() {
                        DiskKind::HDD => DiskKindReading::Hdd,
                        DiskKind::SSD => DiskKindReading::Ssd,
                        DiskKind::Unknown(_) => DiskKindReading::Unknown,
                    },
                    total_gb: 0.0f64.to_bits(),
                    available_gb: 0.0f64.to_bits(),
                    usage_pct: 0.0f64.to_bits(),
                })
                .collect()
        })
        .unwrap_or_default();
    let networks = Networks::new_with_refreshed_list()
        .map(|n| {
            n.iter()
                .map(|(name, net)| NetworkReading {
                    name: name.to_string_lossy().to_string(),
                    received_mb: mb(net.received()),
                    transmitted_mb: mb(net.transmitted()),
                })
                .collect()
        })
        .unwrap_or_default();
    let processes = System::new_with_specifics(
        RefreshKind::nothing().with_processes(ProcessRefreshKind::everything()),
    )
    .map(|s| {
        s.processes()
            .values()
            .map(|p| ProcessReading {
                name: p.name().to_string_lossy().to_string(),
                cpu_pct: (p.cpu_usage() as f64).to_bits(),
                mem_mb: mb(p.memory()),
            })
            .collect()
    })
    .unwrap_or_default();
    SystemReading {
        host_name: System::host_name().ok(),
        os_name: System::name().ok(),
        os_version: System::os_version().ok(),
        kernel_version: System::kernel_version().ok(),
        arch: String::from("unknown"),
        uptime_seconds: System::uptime().unwrap_or(0),
        physical_cores: System::physical_core_count().ok(),
        cpus,
        global_cpu_usage_pct: 0.0f64.to_bits(),
        memory: MemoryReading {
            total_mb: mb(total),
            used_mb: mb(used),
            available_mb: mb(avail),
            usage_pct: 0.0f64.to_bits(),
            swap_total_bytes: swap,
            swap_total_mb: mb(swap),
            swap_used_mb: mb(swap_used),
        },
        disks,
        networks,
        processes,
    }
}

#[test]
fn collect_smoke() {
    let c = SystemInfoCollector::new();
    let m = c.collect_from(&read_this_machine());
    assert!(!m.is_empty(), "coletor deve produzir ao menos 1 métrica");

    // Hostname present
    assert!(m.iter().any(|m| m.key == "hostname"));
    // CPU brand present
    assert!(m.iter().any(|m| m.key == "brand"));
    // Total memory present
    assert!(m.iter().any(|m| m.key == "total_mb"));
}

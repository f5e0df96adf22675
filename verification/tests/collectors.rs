use pbhealth::collectors::{collector_kinds_for_host, concat_metrics, sorted_unique_categories, CollectorKind};
use pbhealth::collectors::system_info::{
    sanitize_key, CpuReading, DiskKindReading, DiskReading, MemoryReading, NetworkReading,
    ProcessReading, SystemReading,
};
use pbhealth::normalizer::{Category, MetricStatus, MetricValue};
use pbhealth::{LinuxShellCollector, SystemInfoCollector, WindowsWmiCollector};

#[test]
fn sanitize_key_works() {
    assert_eq!(sanitize_key("eth0"), "eth0");
    assert_eq!(sanitize_key("Wi-Fi"), "Wi_Fi");
    assert_eq!(sanitize_key("Ethernet 2"), "Ethernet_2");
}

#[test]
fn sanitize_key_keeps_unicode_letters() {
    assert_eq!(sanitize_key("Conexão Local*"), "Conexão_Local_");
    assert_eq!(sanitize_key(""), "");
}

fn reading(cpus: usize, swap: u64, procs: usize) -> SystemReading {
    SystemReading {
        host_name: Some(String::from("oficina-01")),
        os_name: None,
        os_version: Some(String::from("24.04")),
        kernel_version: Some(String::from("6.8.0")),
        arch: String::from("x86_64"),
        uptime_seconds: 3600,
        physical_cores: None,
        cpus: (0..cpus)
            .map(|i| CpuReading {
                brand: String::from("Ryzen"),
                vendor_id: String::from("AuthenticAMD"),
                frequency_mhz: 3600.0f64.to_bits(),
                usage_pct: (i as f64).to_bits(),
            })
            .collect(),
        global_cpu_usage_pct: 12.5f64.to_bits(),
        memory: MemoryReading {
            total_mb: 16000.0f64.to_bits(),
            used_mb: 8000.0f64.to_bits(),
            available_mb: 8000.0f64.to_bits(),
            usage_pct: 50.0f64.to_bits(),
            swap_total_bytes: swap,
            swap_total_mb: 2048.0f64.to_bits(),
            swap_used_mb: 1.0f64.to_bits(),
        },
        disks: vec![DiskReading {
            name: String::from("nvme0n1"),
            kind: DiskKindReading::Ssd,
            total_gb: 512.0f64.to_bits(),
            available_gb: 256.0f64.to_bits(),
            usage_pct: 50.0f64.to_bits(),
        }],
        networks: vec![NetworkReading {
            name: String::from("Wi-Fi"),
            received_mb: 1.5f64.to_bits(),
            transmitted_mb: 0.25f64.to_bits(),
        }],
        processes: (0..procs)
            .map(|i| ProcessReading {
                name: format!("p{}", i),
                cpu_pct: 1.0f64.to_bits(),
                mem_mb: 10.0f64.to_bits(),
            })
            .collect(),
    }
}

fn keys(ms: &[pbhealth::Metric]) -> Vec<String> {
    ms.iter().map(|m| m.key.clone()).collect()
}

#[test]
fn collect_from_reading_has_core_keys() {
    let c = SystemInfoCollector::new();
    let m = c.collect_from(&reading(2, 1, 7));
    assert!(!m.is_empty());
    assert!(m.iter().any(|m| m.key == "hostname"));
    assert!(m.iter().any(|m| m.key == "brand"));
    assert!(m.iter().any(|m| m.key == "total_mb"));
    assert!(m.iter().all(|m| m.source == "sysinfo"));
}

#[test]
fn collect_from_reading_exact_order() {
    let c = SystemInfoCollector::new();
    let m = c.collect_from(&reading(2, 1, 7));
    let expected = vec![
        "hostname", "os_name", "os_version", "kernel_version", "arch", "uptime_seconds",
        "brand", "vendor", "frequency_mhz", "physical_cores", "logical_cores",
        "usage_global_pct", "core_0_usage_pct", "core_1_usage_pct", "total_mb", "used_mb",
        "available_mb", "usage_pct", "swap_total_mb", "swap_used_mb", "disk_count",
        "disk_0_name", "disk_0_kind", "disk_0_total_gb", "disk_0_available_gb",
        "disk_0_usage_pct", "interface_count", "iface_Wi_Fi_name", "iface_Wi_Fi_received_mb",
        "iface_Wi_Fi_transmitted_mb", "top_proc_0_name", "top_proc_0_cpu_pct",
        "top_proc_0_mem_mb", "top_proc_1_name", "top_proc_1_cpu_pct", "top_proc_1_mem_mb",
        "top_proc_2_name", "top_proc_2_cpu_pct", "top_proc_2_mem_mb", "top_proc_3_name",
        "top_proc_3_cpu_pct", "top_proc_3_mem_mb", "top_proc_4_name", "top_proc_4_cpu_pct",
        "top_proc_4_mem_mb",
    ];
    assert_eq!(keys(&m), expected);
    assert_eq!(m[1].display_value(), "(desconhecido)");
    assert_eq!(m[0].display_value(), "oficina-01");
    assert_eq!(m[5].display_value(), "3600");
    assert_eq!(m[5].unit.as_deref(), Some("s"));
    assert_eq!(m[8].display_value(), "3.600");
    assert_eq!(m[8].unit.as_deref(), Some("MHz"));
    assert_eq!(m[9].display_value(), "0");
    assert_eq!(m[10].display_value(), "2");
    assert_eq!(m[11].display_value(), "12.5");
    assert_eq!(m[22].display_value(), "SSD");
    assert_eq!(m[27].display_value(), "Wi-Fi");
    assert_eq!(m[29].display_value(), "0.25");
    assert_eq!(m[30].display_value(), "p0");
    assert!(m.iter().all(|m| m.status == MetricStatus::Healthy));
}

#[test]
fn collect_from_reading_without_cpu_or_swap() {
    let c = SystemInfoCollector::new();
    let m = c.collect_from(&reading(0, 0, 2));
    let k = keys(&m);
    assert_eq!(k[6], "brand");
    assert_eq!(m[6].status, MetricStatus::Unavailable);
    assert!(matches!(m[6].value, MetricValue::Null));
    assert_eq!(m[6].error.as_deref(), Some("sysinfo não detectou CPU"));
    assert_eq!(k[7], "physical_cores");
    assert!(!k.iter().any(|k| k == "swap_total_mb"));
    assert!(!k.iter().any(|k| k.starts_with("core_")));
    assert_eq!(k.iter().filter(|k| k.starts_with("top_proc_")).count(), 6);
}

#[test]
fn stub_collectors_report_bios_unavailable() {
    let w = WindowsWmiCollector::new();
    assert_eq!(w.name(), "wmi");
    assert_eq!(w.category(), Category::Machine);
    let m = w.collect();
    assert_eq!(m.len(), 1);
    assert_eq!(m[0].key, "bios_vendor");
    assert_eq!(m[0].category, Category::Bios);
    assert_eq!(m[0].status, MetricStatus::Unavailable);
    assert_eq!(m[0].source, "wmi");
    assert_eq!(m[0].error.as_deref(), Some("Coletor WMI ainda não implementado (Fase 2 do roadmap)"));
    let l = LinuxShellCollector::new();
    assert_eq!(l.name(), "linux-shell");
    let m = l.collect();
    assert_eq!(m[0].source, "linux-shell");
    assert_eq!(m[0].error.as_deref(), Some("Coletor shell Linux ainda não implementado (Fase 3 do roadmap)"));
    assert_eq!(SystemInfoCollector::new().name(), "sysinfo");
}

#[test]
fn categories_sorted_and_unique() {
    let cats = vec![Category::Machine, Category::Cpu, Category::Machine, Category::Bios, Category::Storage];
    let r = sorted_unique_categories(&cats);
    assert_eq!(r, vec![Category::Bios, Category::Cpu, Category::Machine, Category::Storage]);
    let mut by_id = cats.clone();
    by_id.sort_by_key(|c| c.as_str());
    by_id.dedup();
    assert_eq!(r, by_id);
    assert!(sorted_unique_categories(&vec![]).is_empty());
}

#[test]
fn host_collector_kinds() {
    assert_eq!(collector_kinds_for_host(false, true), vec![CollectorKind::SystemInfo, CollectorKind::LinuxShell]);
    assert_eq!(collector_kinds_for_host(true, false), vec![CollectorKind::SystemInfo, CollectorKind::WindowsWmi]);
    assert_eq!(collector_kinds_for_host(false, false), vec![CollectorKind::SystemInfo]);
}

#[test]
fn metrics_joined_in_collector_order() {
    let a = WindowsWmiCollector::new().collect();
    let b = LinuxShellCollector::new().collect();
    let joined = concat_metrics(vec![a, vec![], b]);
    assert_eq!(joined.len(), 2);
    assert_eq!(joined[0].source, "wmi");
    assert_eq!(joined[1].source, "linux-shell");
    assert!(concat_metrics(vec![]).is_empty());
}

#[test]
fn top_processes_are_the_busiest_first() {
    let c = SystemInfoCollector::new();
    let mut r = reading(1, 0, 0);
    let usages = [1.0f64, 5.0, 3.0, 5.0, 0.0, 7.0, 2.0];
    r.processes = usages
        .iter()
        .enumerate()
        .map(|(i, u)| ProcessReading {
            name: format!("p{}", i),
            cpu_pct: u.to_bits(),
            mem_mb: (i as f64).to_bits(),
        })
        .collect();
    let m = c.collect_from(&r);
    let names: Vec<String> = (0..5)
        .map(|i| {
            let key = format!("top_proc_{}_name", i);
            match &m.iter().find(|x| x.key == key).unwrap().value {
                MetricValue::Text(t) => t.clone(),
                _ => panic!("not text"),
            }
        })
        .collect();
    assert_eq!(names, vec!["p5", "p1", "p3", "p2", "p6"]);
    let cpu0 = m.iter().find(|x| x.key == "top_proc_0_cpu_pct").unwrap();
    assert!(matches!(cpu0.value, MetricValue::Number(v) if v == 7.0f64.to_bits()));
    let mem4 = m.iter().find(|x| x.key == "top_proc_4_mem_mb").unwrap();
    assert!(matches!(mem4.value, MetricValue::Number(v) if v == 6.0f64.to_bits()));
    assert!(!m.iter().any(|x| x.key == "top_proc_5_name"));
}

#[test]
fn negative_zero_usage_ties_with_zero() {
    let c = SystemInfoCollector::new();
    let mut r = reading(1, 0, 0);
    r.processes = vec![
        ProcessReading { name: String::from("a"), cpu_pct: (-0.0f64).to_bits(), mem_mb: 0 },
        ProcessReading { name: String::from("b"), cpu_pct: 0.0f64.to_bits(), mem_mb: 0 },
        ProcessReading { name: String::from("c"), cpu_pct: 0.5f64.to_bits(), mem_mb: 0 },
    ];
    let m = c.collect_from(&r);
    let name = |i: usize| {
        let key = format!("top_proc_{}_name", i);
        match &m.iter().find(|x| x.key == key).unwrap().value {
            MetricValue::Text(t) => t.clone(),
            _ => panic!("not text"),
        }
    };
    assert_eq!(name(0), "c");
    assert_eq!(name(1), "a");
    assert_eq!(name(2), "b");
}

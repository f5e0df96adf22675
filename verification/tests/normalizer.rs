use pbhealth::normalizer::{Category, Metric, MetricStatus, MetricValue};
use pbhealth::number_text::format_number;
use pbhealth::format_with_thousands_separator;

#[test]
fn healthy_metric_display() {
    let m = Metric::healthy(Category::Cpu, "cores", 16i64, None, "sysinfo");
    assert_eq!(m.display_value(), "16");
    assert_eq!(m.status, MetricStatus::Healthy);
}

#[test]
fn unavailable_metric_display() {
    let m = Metric::unavailable(
        Category::Cpu,
        "temperature",
        "wmi",
        "Requer privilégio administrativo",
        true,
    );
    assert_eq!(m.display_value(), "indisponível");
    assert_eq!(m.status, MetricStatus::Unavailable);
    assert!(m.requires_admin);
}

#[test]
fn float_formatting() {
    let m = Metric::healthy(
        Category::Cpu,
        "load_pct",
        MetricValue::Number(23.45f64.to_bits()),
        Some("%"),
        "sysinfo",
    );
    // 23.45 is stored as 23.449999..., so one decimal gives "23.4".
    assert_eq!(m.display_value(), "23.4");
}

#[test]
fn category_label_pt() {
    assert_eq!(Category::Cpu.label_pt(), "Processador");
    assert_eq!(Category::Storage.label_pt(), "Armazenamento");
}

#[test]
fn category_ids() {
    assert_eq!(Category::Machine.as_str(), "machine");
    assert_eq!(Category::Os.as_str(), "os");
    assert_eq!(Category::Bios.label_pt(), "BIOS / Placa-mãe");
}

#[test]
fn status_from_optional_is_unavailable() {
    assert_eq!(MetricStatus::from_optional("sem sensor"), MetricStatus::Unavailable);
    assert_eq!(MetricStatus::from_optional(String::from("x")), MetricStatus::Unavailable);
}

#[test]
fn display_of_each_kind() {
    let t = Metric::healthy(Category::Os, "os_name", String::from("Linux"), None, "sysinfo");
    assert_eq!(t.display_value(), "Linux");
    let s = Metric::healthy(Category::Os, "arch", "x86_64", None, "sysinfo");
    assert_eq!(s.display_value(), "x86_64");
    let yes = Metric::healthy(Category::Power, "charging", true, None, "wmi");
    assert_eq!(yes.display_value(), "sim");
    let no = Metric::healthy(Category::Power, "charging", false, None, "wmi");
    assert_eq!(no.display_value(), "não");
    let neg = Metric::healthy(Category::Cpu, "x", -1234567i64, None, "s");
    assert_eq!(neg.display_value(), "-1234567");
    let big = Metric::healthy(Category::Cpu, "x", u64::MAX, None, "s");
    assert_eq!(big.display_value(), "-1");
    let n = Metric::healthy(Category::Cpu, "x", 7u32, None, "s");
    assert_eq!(n.display_value(), "7");
    let z = Metric::healthy(Category::Cpu, "x", 3usize, None, "s");
    assert_eq!(z.display_value(), "3");
}

#[test]
fn constructors_fill_fields() {
    let m = Metric::healthy(Category::Memory, "total_mb", 1i64, Some("MB"), "sysinfo");
    assert_eq!(m.category, Category::Memory);
    assert_eq!(m.key, "total_mb");
    assert_eq!(m.unit.as_deref(), Some("MB"));
    assert_eq!(m.source, "sysinfo");
    assert!(!m.requires_admin);
    assert!(m.error.is_none());
    let u = Metric::unavailable(Category::Sensors, "fan_rpm", "wmi", "sem admin", false);
    assert!(matches!(u.value, MetricValue::Null));
    assert_eq!(u.error.as_deref(), Some("sem admin"));
    assert!(u.unit.is_none());
    let c = m.with_status(MetricStatus::Critical);
    assert_eq!(c.status, MetricStatus::Critical);
    assert_eq!(c.key, "total_mb");
}

#[test]
fn thousands_separator() {
    assert_eq!(format_with_thousands_separator(0), "0");
    assert_eq!(format_with_thousands_separator(999), "999");
    assert_eq!(format_with_thousands_separator(1000), "1.000");
    assert_eq!(format_with_thousands_separator(1234567), "1.234.567");
    assert_eq!(format_with_thousands_separator(-1234), "-1.234");
    assert_eq!(format_with_thousands_separator(-100), "-100");
    assert_eq!(format_with_thousands_separator(i64::MAX), "9.223.372.036.854.775.807");
}

fn reference_grouped(i: i64) -> String {
    let s = i.abs().to_string();
    let bytes = s.as_bytes();
    let mut out = String::new();
    for (idx, c) in bytes.iter().rev().enumerate() {
        if idx > 0 && idx % 3 == 0 {
            out.insert(0, '.');
        }
        out.insert(0, *c as char);
    }
    if i < 0 {
        out.insert(0, '-');
    }
    out
}

/// Puts `.` between the thousands of an optionally signed digit string
/// (`inf` and `-inf` are left alone).
fn group_digits(t: &str) -> String {
    let (sign, digits) = match t.strip_prefix('-') {
        Some(rest) => ("-", rest),
        None => ("", t),
    };
    if !digits.bytes().all(|b| b.is_ascii_digit()) {
        return t.to_string();
    }
    let mut out = String::new();
    for (idx, c) in digits.chars().rev().enumerate() {
        if idx > 0 && idx % 3 == 0 {
            out.insert(0, '.');
        }
        out.insert(0, c);
    }
    format!("{}{}", sign, out)
}

fn reference_number(n: f64) -> String {
    if n.fract() == 0.0 && n.abs() < 1e15 {
        reference_grouped(n as i64)
    } else if n.abs() >= 100.0 {
        group_digits(&format!("{:.0}", n))
    } else if n.abs() >= 10.0 {
        format!("{:.1}", n)
    } else {
        format!("{:.2}", n)
    }
}

fn check(n: f64) {
    assert_eq!(format_number(n.to_bits()), reference_number(n), "value {:e} bits {:#x}", n, n.to_bits());
}

#[test]
fn number_formatting_examples() {
    assert_eq!(format_number(16.0f64.to_bits()), "16");
    assert_eq!(format_number(1234567.0f64.to_bits()), "1.234.567");
    assert_eq!(format_number((-0.0f64).to_bits()), "0");
    assert_eq!(format_number(3.14159f64.to_bits()), "3.14");
    assert_eq!(format_number(42.25f64.to_bits()), "42.2");
    assert_eq!(format_number(123.5f64.to_bits()), "124");
    assert_eq!(format_number(124.5f64.to_bits()), "124");
    assert_eq!(format_number(1e15f64.to_bits()), "1.000.000.000.000.000");
    assert_eq!(format_number(1234.7f64.to_bits()), "1.235");
    assert_eq!(format_number((-98765.4f64).to_bits()), "-98.765");
    assert_eq!(format_number(999.5f64.to_bits()), "1.000");
    assert_eq!(format_number(1e20f64.to_bits()), "100.000.000.000.000.000.000");
    assert_eq!(format_number(f64::NAN.to_bits()), "NaN");
    assert_eq!(format_number(f64::INFINITY.to_bits()), "inf");
    assert_eq!(format_number(f64::NEG_INFINITY.to_bits()), "-inf");
    assert_eq!(format_number((-0.001f64).to_bits()), "-0.00");
}

#[test]
fn number_formatting_matches_std() {
    let specials = [
        0.0, -0.0, 0.5, 1.5, 2.5, 0.125, 0.375, 0.005, 0.015, 9.995, 9.999, 10.0, 10.05, 10.25,
        99.95, 99.96, 100.0, 100.5, 101.5, 1e14, 999999999999999.0, 1e15, 1e15 + 2.0, 4.5e15,
        9007199254740993.0, 1e20, 1e300, f64::MAX, f64::MIN_POSITIVE, 5e-324, 1e-300, 0.1, 0.2,
        0.3, 1.0 / 3.0, 2.0 / 3.0, 23.45, 12345.678, -12345.678, -1e20, 1e22, 123456789.125,
    ];
    for &v in specials.iter() {
        check(v);
        check(-v);
    }
    let mut state: u64 = 0x9E37_79B9_7F4A_7C15;
    for _ in 0..20000 {
        state = state.wrapping_mul(6364136223846793005).wrapping_add(1442695040888963407);
        let bits = state ^ (state >> 29);
        let v = f64::from_bits(bits);
        if v.is_nan() {
            assert_eq!(format_number(bits), "NaN");
        } else {
            check(v);
        }
    }
    for i in -3000i64..3000 {
        check(i as f64 / 8.0);
        check(i as f64 / 100.0);
        check(i as f64 * 1.5);
    }
}

#[test]
fn negation_only_adds_a_sign() {
    for v in [1234567.0f64, 0.001, 23.45, 1e20, 99.5, f64::INFINITY, 5e-324] {
        assert_eq!(format_number((-v).to_bits()), format!("-{}", format_number(v.to_bits())));
    }
    assert_eq!(format_number((-0.0f64).to_bits()), format_number(0.0f64.to_bits()));
}

#[test]
fn grouping_only_inserts_separators() {
    for i in [0i64, 7, 999, 1000, 65536, -98765432, i64::MAX, i64::MIN + 1] {
        let grouped = format_with_thousands_separator(i);
        assert_eq!(grouped.replace('.', ""), i.to_string());
    }
}

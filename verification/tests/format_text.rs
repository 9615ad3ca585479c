use mutop::format::{format_bytes, format_uptime};
use mutop::text::decimal_string;

fn float_reference(bytes: u64) -> String {
    if bytes >= 1_073_741_824 {
        format!("{:.1} GB", bytes as f64 / 1_073_741_824.0)
    } else if bytes >= 1_048_576 {
        format!("{:.1} MB", bytes as f64 / 1_048_576.0)
    } else if bytes >= 1_024 {
        format!("{:.1} KB", bytes as f64 / 1_024.0)
    } else {
        format!("{} B", bytes)
    }
}

#[test]
fn bytes_below_a_kibibyte() {
    assert_eq!(format_bytes(0), "0 B");
    assert_eq!(format_bytes(1), "1 B");
    assert_eq!(format_bytes(1023), "1023 B");
}

#[test]
fn bytes_in_each_unit() {
    assert_eq!(format_bytes(1024), "1.0 KB");
    assert_eq!(format_bytes(1536), "1.5 KB");
    assert_eq!(format_bytes(1_048_576), "1.0 MB");
    assert_eq!(format_bytes(5 * 1_048_576 + 524_288), "5.5 MB");
    assert_eq!(format_bytes(1_073_741_824), "1.0 GB");
    assert_eq!(format_bytes(3 * 1_073_741_824), "3.0 GB");
}

#[test]
fn bytes_rounding_halves_to_even() {
    // 1.25 KB and 1.75 KB are exact halves of a tenth.
    assert_eq!(format_bytes(1280), "1.2 KB");
    assert_eq!(format_bytes(1792), "1.8 KB");
    // Just below the next unit the value rounds up.
    assert_eq!(format_bytes(1_048_575), "1024.0 KB");
}

#[test]
fn bytes_beyond_f64_precision() {
    assert_eq!(format_bytes(u64::MAX), float_reference(u64::MAX));
    assert_eq!(format_bytes(u64::MAX), "17179869184.0 GB");
    assert_eq!(format_bytes((1u64 << 53) + 1), float_reference((1u64 << 53) + 1));
}

#[test]
fn bytes_agree_with_float_formatting() {
    let mut samples: Vec<u64> = Vec::new();
    for b in 0..5000u64 {
        samples.push(b);
    }
    for k in 0..64u32 {
        let p = 1u64 << k;
        for d in 0..40u64 {
            samples.push(p.wrapping_add(d));
            samples.push(p.wrapping_sub(d));
            samples.push(p.wrapping_mul(3).wrapping_add(d * 512));
        }
    }
    let mut x: u64 = 0x9E37_79B9_7F4A_7C15;
    for _ in 0..20000 {
        x ^= x << 13;
        x ^= x >> 7;
        x ^= x << 17;
        samples.push(x >> (x % 64));
        samples.push((x % 1_073_741_824) & !0x3f);
    }
    for n in 0..4000u64 {
        // halves of a tenth in each unit
        samples.push(256 + 512 * n);
        samples.push(1_048_576 + 52_428 * n + 26_214);
        samples.push(1_073_741_824u64.wrapping_mul(n + 1) / 10 * 10 + 53_687_091 * (n % 20));
    }
    for b in samples {
        assert_eq!(format_bytes(b), float_reference(b), "bytes = {}", b);
    }
}

#[test]
fn uptime_fields() {
    assert_eq!(format_uptime(0), "00:00:00");
    assert_eq!(format_uptime(59), "00:00:59");
    assert_eq!(format_uptime(61), "00:01:01");
    assert_eq!(format_uptime(3600), "01:00:00");
    assert_eq!(format_uptime(3661), "01:01:01");
    assert_eq!(format_uptime(86399), "23:59:59");
    assert_eq!(format_uptime(360000), "100:00:00");
}

#[test]
fn uptime_agrees_with_std_formatting() {
    for secs in [0u64, 1, 9, 10, 599, 3599, 3600, 35999, 36000, 123456, u64::MAX] {
        let expected = format!("{:02}:{:02}:{:02}", secs / 3600, (secs % 3600) / 60, secs % 60);
        assert_eq!(format_uptime(secs), expected);
    }
}

#[test]
fn uptime_reads_back() {
    for secs in [0u64, 7, 3599, 3600, 45296, 987654] {
        let text = format_uptime(secs);
        let parts: Vec<u64> = text.split(':').map(|p| p.parse().unwrap()).collect();
        assert_eq!(parts.len(), 3);
        assert!(parts[1] < 60 && parts[2] < 60);
        assert_eq!(parts[0] * 3600 + parts[1] * 60 + parts[2], secs);
    }
}

#[test]
fn decimal_reads_back() {
    for n in [0u64, 5, 10, 99, 100, 4_294_967_295, u64::MAX] {
        let text = decimal_string(n);
        assert_eq!(text, n.to_string());
        assert_eq!(text.parse::<u64>().unwrap(), n);
    }
}

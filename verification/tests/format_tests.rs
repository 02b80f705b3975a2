use hdu::ui::format::{format_bytes, format_size};

fn reference(bytes: u64) -> String {
    if bytes >= 1024 * 1024 * 1024 {
        format!("{:.2} GiB", bytes as f64 / (1024.0 * 1024.0 * 1024.0))
    } else if bytes >= 1024 * 1024 {
        format!("{:.2} MiB", bytes as f64 / (1024.0 * 1024.0))
    } else if bytes >= 1024 {
        format!("{:.2} KiB", bytes as f64 / 1024.0)
    } else {
        format!("{} B", bytes)
    }
}

#[test]
fn format_bytes_exact_values() {
    assert_eq!(format_bytes(0), "0 B");
    assert_eq!(format_bytes(1023), "1023 B");
    assert_eq!(format_bytes(1024), "1.00 KiB");
    assert_eq!(format_bytes(1536), "1.50 KiB");
    assert_eq!(format_bytes(1024 * 1024), "1.00 MiB");
    assert_eq!(format_bytes(5 * 1024 * 1024 * 1024), "5.00 GiB");
    assert_eq!(format_size(2048), "2.00 KiB");
}

#[test]
fn format_bytes_rounds_halfway_to_even() {
    // 1.125 KiB and 1.375 KiB lie exactly halfway between two hundredths
    assert_eq!(format_bytes(1152), reference(1152));
    assert_eq!(format_bytes(1408), reference(1408));
}

#[test]
fn format_bytes_matches_float_formatting() {
    let mut b: u64 = 0;
    while b < 300_000 {
        assert_eq!(format_bytes(b), reference(b), "bytes = {}", b);
        b += 1;
    }
    let mut x: u64 = 1;
    for _ in 0..2_000_000 {
        x = x.wrapping_mul(6364136223846793005).wrapping_add(1442695040888963407);
        for shift in [0u32, 7, 13, 20, 24, 29, 33, 40, 45, 50, 53, 55, 58, 60, 63] {
            let v = x >> shift;
            assert_eq!(format_bytes(v), reference(v), "bytes = {}", v);
        }
        if x % 1000 == 0 {
            break;
        }
    }
    for v in [u64::MAX, u64::MAX - 1, 1 << 53, (1 << 53) + 1, (1 << 54) + 2, (1 << 54) + 6, (1 << 63) + 1024, 1073741824, 1073741823, 1048575] {
        assert_eq!(format_bytes(v), reference(v), "bytes = {}", v);
    }
}

use wisu::format::{format_permissions, size};

#[test]
fn test_format_size() {
    assert_eq!(size(500), "500 B");
    assert_eq!(size(1024), "1.0 KiB");
    assert_eq!(size(1536), "1.5 KiB");
    let mib = 1024 * 1024;
    assert_eq!(size(mib), "1.0 MiB");
    assert_eq!(size(mib + mib / 2), "1.5 MiB");
    let gib = mib * 1024;
    assert_eq!(size(gib), "1.0 GiB");
}

#[test]
fn test_format_permissions() {
    // -rwxr-xr-x
    let mode = 0o755;
    assert_eq!(format_permissions(mode), "rwxr-xr-x");
    // -rw-r--r--
    let mode_read = 0o644;
    assert_eq!(format_permissions(mode_read), "rw-r--r--");
    // -rwx------
    let mode_user_only = 0o700;
    assert_eq!(format_permissions(mode_user_only), "rwx------");
}

fn float_size(bytes: u64) -> String {
    let kib = 1024.0_f64;
    let mib = kib * 1024.0;
    let gib = mib * 1024.0;
    let tib = gib * 1024.0;
    let b = bytes as f64;
    if b < kib {
        format!("{b} B")
    } else if b < mib {
        format!("{:.1} KiB", b / kib)
    } else if b < gib {
        format!("{:.1} MiB", b / mib)
    } else if b < tib {
        format!("{:.1} GiB", b / gib)
    } else {
        format!("{:.1} TiB", b / tib)
    }
}

#[test]
fn size_agrees_with_binary64_formatting() {
    let mut samples: Vec<u64> = vec![0, 1, 9, 10, 999, 1023, 1024, 1025, 1075, 1088, 1280, 1792];
    let mut x: u64 = 1;
    while x < u64::MAX / 3 {
        samples.push(x);
        samples.push(x - 1);
        samples.push(x + 1);
        samples.push(x + x / 2);
        samples.push(x + x / 4);
        samples.push(x + x / 8);
        samples.push(x + x / 20);
        x = x * 2;
    }
    let mut y: u64 = 12345;
    for _ in 0..2000 {
        y = y.wrapping_mul(6364136223846793005).wrapping_add(1442695040888963407);
        samples.push(y);
        samples.push(y >> 20);
        samples.push(y >> 40);
    }
    samples.push(u64::MAX);
    samples.push(u64::MAX - 1);
    samples.push((1 << 53) + 1);
    samples.push((1 << 54) + 2);
    samples.push((1 << 54) + 6);
    for s in samples {
        assert_eq!(size(s), float_size(s), "for {s}");
    }
}

#[test]
fn size_rounds_ties_to_even() {
    assert_eq!(size(1280), "1.2 KiB");
    assert_eq!(size(1792), "1.8 KiB");
    assert_eq!(size(1023), "1023 B");
    assert_eq!(size(1048575), "1024.0 KiB");
}

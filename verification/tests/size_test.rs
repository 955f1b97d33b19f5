use mini_coreutils::ls::size::bytes_to_human_readable;

fn float_rendering(bytes: u64) -> String {
    if bytes < 1024 {
        return bytes.to_string();
    }
    let units = ["K", "M", "G", "T", "P", "E", "Z", "Y"];
    let mut value = bytes as f64;
    let mut unit = 0;
    loop {
        value /= 1024.0;
        if value < 1024.0 || unit == units.len() - 1 {
            break;
        }
        unit += 1;
    }
    format!("{:.1}{}", value, units[unit])
}

#[test]
fn human_readable_matches_the_documented_values() {
    assert_eq!(bytes_to_human_readable(0), "0");
    assert_eq!(bytes_to_human_readable(1023), "1023");
    assert_eq!(bytes_to_human_readable(1024), "1.0K");
    assert_eq!(bytes_to_human_readable(1536), "1.5K");
    assert_eq!(bytes_to_human_readable(1572864), "1.5M");
}

#[test]
fn human_readable_rounds_ties_to_even() {
    assert_eq!(bytes_to_human_readable(1280), "1.2K");
    assert_eq!(bytes_to_human_readable(1792), "1.8K");
    assert_eq!(bytes_to_human_readable(1048575), "1024.0K");
}

#[test]
fn human_readable_agrees_with_floating_point() {
    let mut samples: Vec<u64> = vec![
        1024,
        1025,
        1075,
        1076,
        1077,
        1126,
        1127,
        1128,
        1280,
        1792,
        1048575,
        1048576,
        1073741823,
        1073741824,
        (1 << 53) - 1,
        1 << 53,
        (1 << 53) + 1,
        (1 << 53) + 2,
        (1 << 53) + 3,
        (1 << 54) + 2,
        (1 << 54) + 6,
        (1 << 60) - 1,
        1 << 60,
        (1 << 60) + 128,
        (1 << 60) + 384,
        u64::MAX - 1,
        u64::MAX,
    ];
    let mut x: u64 = 88172645463325252;
    for _ in 0..20000 {
        x ^= x << 13;
        x ^= x >> 7;
        x ^= x << 17;
        samples.push(x);
        samples.push(x >> (x % 54));
    }
    for bytes in samples {
        assert_eq!(bytes_to_human_readable(bytes), float_rendering(bytes), "for {}", bytes);
    }
}

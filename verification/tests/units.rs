use media_convert::text::{
    copy_list, decimal_string, has_head, has_part, has_tail, is_before, join, padded_left,
    parse_i64, parse_u64, to_lower, trimmed, chars_of,
};
use media_convert::units::{
    format_bitrate, format_bytes, format_duration, format_frame_rate, format_size, GIB, KIB, MIB,
    TIB,
};

fn shown_bytes(bytes: u64) -> String {
    if bytes >= TIB {
        format!("{:.2} TiB", bytes as f64 / TIB as f64)
    } else {
        shown_size(bytes)
    }
}

fn shown_size(n: u64) -> String {
    if n >= GIB {
        format!("{:.2} GiB", n as f64 / GIB as f64)
    } else if n >= MIB {
        format!("{:.2} MiB", n as f64 / MIB as f64)
    } else if n >= KIB {
        format!("{:.2} KiB", n as f64 / KIB as f64)
    } else {
        format!("{n} B")
    }
}

fn shown_bitrate(bps: u64) -> String {
    if bps >= 1_000_000 {
        format!("{:.1} Mbps", bps as f64 / 1_000_000.0)
    } else {
        format!("{:.0} kbps", bps as f64 / 1_000.0)
    }
}

/// A spread of numbers over the whole range.
fn numbers() -> Vec<u64> {
    let mut all: Vec<u64> = Vec::new();
    for shift in 0..64 {
        let base = 1u64 << shift;
        for off in 0..40 {
            all.push(base.wrapping_add(off));
            all.push(base.wrapping_sub(off));
            all.push(base.wrapping_add(base / 8 * off));
        }
    }
    let mut x: u64 = 88172645463325252;
    for _ in 0..40_000 {
        x ^= x << 13;
        x ^= x >> 7;
        x ^= x << 17;
        all.push(x);
        all.push(x >> (x % 60));
    }
    all
}

#[test]
fn sizes_are_shown_like_floats() {
    for n in 0..300_000 {
        assert_eq!(format_bytes(n), shown_bytes(n));
    }
    for n in numbers() {
        assert_eq!(format_bytes(n), shown_bytes(n));
        assert_eq!(format_size(n), shown_size(n));
    }
    assert_eq!(format_bytes(0), "0 B");
    assert_eq!(format_bytes(1023), "1023 B");
    assert_eq!(format_bytes(1536), "1.50 KiB");
    assert_eq!(format_bytes(1152), "1.12 KiB");
    assert_eq!(format_bytes(u64::MAX), "16777216.00 TiB");
    assert_eq!(format_size(TIB), "1024.00 GiB");
}

#[test]
fn bit_rates_are_shown_like_floats() {
    for n in 0..300_000 {
        assert_eq!(format_bitrate(n), shown_bitrate(n));
        assert_eq!(format_bitrate(n * 50), shown_bitrate(n * 50));
    }
    for n in numbers() {
        assert_eq!(format_bitrate(n), shown_bitrate(n));
    }
    assert_eq!(format_bitrate(1_150_000), "1.1 Mbps");
    assert_eq!(format_bitrate(500), "0 kbps");
    assert_eq!(format_bitrate(128_000), "128 kbps");
}

#[test]
fn frame_rates_are_shown_like_floats() {
    let parts = [0u64, 1, 2, 3, 7, 24, 25, 30, 50, 60, 1000, 1001, 24000, 30000, 60000, 90000];
    for n in parts {
        for d in parts {
            let s = format!("{n}/{d}");
            let want = if d > 0 {
                format!("{:.3} fps", n as f64 / d as f64)
            } else {
                s.clone()
            };
            assert_eq!(format_frame_rate(&s), Some(want));
        }
    }
    for n in numbers() {
        let a = n % 4_503_599_627_370_496;
        let b = (n >> 11) % 9_007_199_254_740_993;
        if b > 0 {
            assert_eq!(
                format_frame_rate(&format!("{a}/{b}")),
                Some(format!("{:.3} fps", a as f64 / b as f64))
            );
        }
    }
    assert_eq!(format_frame_rate("24000/1001").as_deref(), Some("23.976 fps"));
    assert_eq!(format_frame_rate("25").as_deref(), Some("25"));
    assert_eq!(format_frame_rate("0/0").as_deref(), Some("0/0"));
    assert_eq!(format_frame_rate("23.976/1"), None);
    assert_eq!(format_frame_rate("1/"), None);
    assert_eq!(format_frame_rate("4503599627370496/1"), None);
}

#[test]
fn durations_have_hours_only_where_needed() {
    assert_eq!(format_duration(0), "0:00");
    assert_eq!(format_duration(59), "0:59");
    assert_eq!(format_duration(61), "1:01");
    assert_eq!(format_duration(3599), "59:59");
    assert_eq!(format_duration(3600), "1:00:00");
    assert_eq!(format_duration(36_000 + 62), "10:01:02");
}

#[test]
fn numbers_are_read_as_by_std() {
    for t in [
        "", "0", "7", "007", "+7", "-7", "--7", "+-7", "+", "-", " 7", "7 ", "1_0", "٣",
        "18446744073709551615", "18446744073709551616", "9223372036854775807",
        "9223372036854775808", "-9223372036854775808", "-9223372036854775809",
        "99999999999999999999999999", "000000000000000000000000000012",
    ] {
        assert_eq!(parse_u64(t), t.parse::<u64>().ok(), "{t}");
        assert_eq!(parse_i64(t), t.parse::<i64>().ok(), "{t}");
    }
    for n in numbers() {
        assert_eq!(decimal_string(n as u128), n.to_string());
        assert_eq!(parse_u64(&n.to_string()), Some(n));
    }
}

#[test]
fn texts_are_handled_as_by_std() {
    let words = ["", "a", "b", "ab", "aab", "ba", "é", "éa", "z文", "A.B", " x "];
    for a in words {
        assert_eq!(to_lower(a), a.to_ascii_lowercase());
        assert_eq!(padded_left(a, 3), format!("{a:>3}"));
        for b in words {
            assert_eq!(has_head(a, b), a.starts_with(b));
            assert_eq!(has_tail(a, b), a.ends_with(b));
            assert_eq!(has_part(a, b), a.contains(b));
            assert_eq!(is_before(a, b), a < b);
        }
    }
    let mut spaced: Vec<char> = vec!['x'];
    for n in 0..0x3100u32 {
        if let Some(c) = char::from_u32(n) {
            if c.is_whitespace() {
                spaced.insert(0, c);
                spaced.push(c);
            }
        }
    }
    let text: String = spaced.iter().collect();
    assert_eq!(text.trim(), "x");
    let chars = chars_of(&text);
    assert_eq!(trimmed(&chars, 0, chars.len()), "x");
    for n in 0..0x3100u32 {
        if let Some(c) = char::from_u32(n) {
            if !c.is_whitespace() {
                let one = vec![c];
                assert_eq!(trimmed(&one, 0, 1), c.to_string());
            }
        }
    }
    let list: Vec<String> = vec!["a".into(), "".into(), "c".into()];
    assert_eq!(join(&list, ", "), list.join(", "));
    assert_eq!(copy_list(&list), list);
}

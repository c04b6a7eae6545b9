use mcp_wsl::files::{modified_str, show_modified, unix_perms};
use mcp_wsl::procs::{format_bytes, format_duration};

/// Sizes formatted through a double, one decimal.
fn bytes_via_double(bytes: u64) -> String {
    const KB: u64 = 1024;
    const MB: u64 = KB * 1024;
    const GB: u64 = MB * 1024;
    if bytes >= GB {
        format!("{:.1}G", bytes as f64 / GB as f64)
    } else if bytes >= MB {
        format!("{:.1}M", bytes as f64 / MB as f64)
    } else if bytes >= KB {
        format!("{:.1}K", bytes as f64 / KB as f64)
    } else {
        format!("{bytes}B")
    }
}

#[test]
fn bytes_below_a_kib_are_plain() {
    assert_eq!(format_bytes(0), "0B");
    assert_eq!(format_bytes(512), "512B");
    assert_eq!(format_bytes(1023), "1023B");
}

#[test]
fn bytes_pick_the_largest_unit() {
    assert_eq!(format_bytes(1024), "1.0K");
    assert_eq!(format_bytes(1536), "1.5K");
    assert_eq!(format_bytes(1048576), "1.0M");
    assert_eq!(format_bytes(1073741824), "1.0G");
    assert_eq!(format_bytes(1048575), "1024.0K");
}

#[test]
fn bytes_round_ties_to_even() {
    // 1.25 K and 1.75 K are exact halves in tenths.
    assert_eq!(format_bytes(1280), bytes_via_double(1280));
    assert_eq!(format_bytes(1280), "1.2K");
    assert_eq!(format_bytes(1792), "1.8K");
    assert_eq!(format_bytes(1024 * 1024 * 5 / 4), "1.2M");
}

#[test]
fn bytes_match_double_formatting() {
    let mut b: u64 = 0;
    while b < 3 * 1024 * 1024 {
        assert_eq!(format_bytes(b), bytes_via_double(b), "at {b}");
        b += 97;
    }
    for shift in 30..64u32 {
        for delta in [0u64, 1, 511, 512, 513, 1023, 1024, 1025, 104857, 107374182] {
            let v = (1u64 << shift).wrapping_add(delta);
            assert_eq!(format_bytes(v), bytes_via_double(v), "at {v}");
            let w = (1u64 << shift).wrapping_sub(delta);
            assert_eq!(format_bytes(w), bytes_via_double(w), "at {w}");
        }
    }
    for v in [u64::MAX, u64::MAX - 1, u64::MAX - 1024, (1u64 << 53) + 1, (1u64 << 53) + 3, 9007199254740993] {
        assert_eq!(format_bytes(v), bytes_via_double(v), "at {v}");
    }
}

#[test]
fn bytes_of_the_largest_count() {
    assert_eq!(format_bytes(u64::MAX), "17179869184.0G");
}

#[test]
fn durations_under_an_hour() {
    assert_eq!(format_duration(0), "0:00");
    assert_eq!(format_duration(59), "0:59");
    assert_eq!(format_duration(61), "1:01");
    assert_eq!(format_duration(3599), "59:59");
}

#[test]
fn durations_of_an_hour_or_more() {
    assert_eq!(format_duration(3600), "1:00:00");
    assert_eq!(format_duration(3661), "1:01:01");
    assert_eq!(format_duration(90061), "25:01:01");
    assert_eq!(format_duration(u64::MAX), "5124095576030431:00:15");
}

#[test]
fn permission_strings() {
    assert_eq!(unix_perms(0o755), "rwxr-xr-x");
    assert_eq!(unix_perms(0o644), "rw-r--r--");
    assert_eq!(unix_perms(0), "---------");
    assert_eq!(unix_perms(0o100777), "rwxrwxrwx");
    assert_eq!(unix_perms(0o4750), "rwxr-x---");
}

#[test]
fn modification_times() {
    assert_eq!(modified_str(None), "unknown");
    assert_eq!(modified_str(Some(0)), "1970-01-01 00:00:00 UTC");
    assert_eq!(modified_str(Some(1431648000)), "2015-05-15 00:00:00 UTC");
    assert_eq!(modified_str(Some(86399)), "1970-01-01 23:59:59 UTC");
}

#[test]
fn modification_times_out_of_range_show_seconds() {
    // Past chrono's calendar the seconds are shown as a number; the cast to
    // i64 wraps counts above i64::MAX.
    assert_eq!(modified_str(Some(i64::MAX as u64)), i64::MAX.to_string());
    assert_eq!(modified_str(Some(u64::MAX)), "1969-12-31 23:59:59 UTC");
}

#[test]
fn modification_times_given_the_calendar_text() {
    assert_eq!(show_modified(None, Some("ignored".to_string())), "unknown");
    assert_eq!(show_modified(Some(5), None), "5");
    assert_eq!(show_modified(Some(u64::MAX), None), "-1");
    assert_eq!(show_modified(Some(1), Some("1970-01-01 00:00:01 UTC".to_string())), "1970-01-01 00:00:01 UTC");
}

#[test]
fn durations_read_back() {
    for secs in [0u64, 5, 59, 60, 61, 599, 3599, 3600, 3661, 86399, 360000, 1234567] {
        let text = format_duration(secs);
        let parts: Vec<&str> = text.split(':').collect();
        let n: Vec<u64> = parts.iter().map(|p| p.parse().unwrap()).collect();
        for p in &parts[1..] {
            assert_eq!(p.len(), 2);
        }
        if secs >= 3600 {
            assert_eq!(parts.len(), 3);
            assert!(n[0] >= 1 && n[1] < 60 && n[2] < 60);
            assert_eq!(n[0] * 3600 + n[1] * 60 + n[2], secs);
        } else {
            assert_eq!(parts.len(), 2);
            assert!(n[0] < 60 && n[1] < 60);
            assert_eq!(n[0] * 60 + n[1], secs);
        }
        assert!(parts[0].len() == 1 || !parts[0].starts_with('0'));
    }
}

#[test]
fn each_permission_letter_shows_one_bit() {
    let letters: Vec<char> = "rwxrwxrwx".chars().collect();
    for mode in [0u32, 0o777, 0o755, 0o640, 0o4755, 0o100644, 0o1, 0o400, 0xffff_ffff] {
        let text: Vec<char> = unix_perms(mode).chars().collect();
        assert_eq!(text.len(), 9);
        for i in 0..9 {
            let expected = if mode & (0o400 >> i) != 0 { letters[i] } else { '-' };
            assert_eq!(text[i], expected);
        }
        assert_eq!(unix_perms(mode), unix_perms(mode & 0o777));
    }
    assert_ne!(unix_perms(0o644), unix_perms(0o645));
}

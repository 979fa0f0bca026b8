use tmus::browser::Row;
use tmus::display::{
    accent_rgb, bar_bands, fmt_size, fmt_time_secs, list_window, palette_rgb, preset_stops, ring_bands,
    row_decor, status_mark,
};

/// The size text computed with floating point.
fn size_by_float(n: u64) -> String {
    if n < 1024 {
        return format!("{n} B");
    }
    let units = ["KB", "MB", "GB"];
    let mut v = n as f64 / 1024.0;
    let mut i = 0;
    while v >= 1024.0 && i < units.len() - 1 {
        v /= 1024.0;
        i += 1;
    }
    format!("{:.0} {}", v, units[i])
}

#[test]
fn sizes() {
    assert_eq!(fmt_size(0), "0 B");
    assert_eq!(fmt_size(1023), "1023 B");
    assert_eq!(fmt_size(1024), "1 KB");
    assert_eq!(fmt_size(1536), "2 KB");
    assert_eq!(fmt_size(2560), "2 KB");
    assert_eq!(fmt_size(1048575), "1024 KB");
    assert_eq!(fmt_size(1048576), "1 MB");
    assert_eq!(fmt_size(5 * 1024 * 1024 * 1024), "5 GB");
    assert_eq!(fmt_size(3 << 40), "3072 GB");
}

#[test]
fn sizes_agree_with_floating_point() {
    let mut values: Vec<u64> = vec![u64::MAX, u64::MAX - 1, (1 << 53) + 1, (1 << 54) + 3, 1 << 63];
    for k in 0..64u32 {
        let p = 1u64 << k;
        values.extend_from_slice(&[p, p.wrapping_sub(1), p.wrapping_add(1), p / 2 * 3]);
    }
    let mut x: u64 = 0x9e37_79b9_7f4a_7c15;
    for _ in 0..20000 {
        x ^= x << 13;
        x ^= x >> 7;
        x ^= x << 17;
        values.push(x >> (x % 64));
        values.push((x % 4096) * 512 + 512);
    }
    for v in values {
        assert_eq!(fmt_size(v), size_by_float(v), "size {v}");
    }
}

#[test]
fn times() {
    assert_eq!(fmt_time_secs(0), "0:00");
    assert_eq!(fmt_time_secs(59), "0:59");
    assert_eq!(fmt_time_secs(61), "1:01");
    assert_eq!(fmt_time_secs(600), "10:00");
    assert_eq!(fmt_time_secs(3600), "1:00:00");
    assert_eq!(fmt_time_secs(3725), "1:02:05");
    assert_eq!(fmt_time_secs(360000), "100:00:00");
}

#[test]
fn palettes() {
    let stops = preset_stops(0);
    assert_eq!(stops.len(), 8);
    assert_eq!(palette_rgb(&stops, 8), stops);
    assert_eq!(palette_rgb(&stops, 1), vec![(34, 211, 238)]);
    assert_eq!(palette_rgb(&stops, 0), Vec::<(u8, u8, u8)>::new());
    assert_eq!(palette_rgb(&vec![], 5), vec![(34, 211, 238); 5]);
    let fire = preset_stops(9);
    assert_eq!(fire.len(), 6);
    assert_eq!(fire[0], (194, 65, 12));
    assert_eq!(fire[5], (254, 240, 138));
    let p = palette_rgb(&fire, 12);
    assert_eq!(p.len(), 12);
    assert_eq!(p[0], fire[0]);
    assert_eq!(p[11], fire[5]);
    assert_eq!(p[6], fire[6 * 5 / 11]);
    assert_eq!(accent_rgb(&fire), (254, 240, 138));
    assert_eq!(accent_rgb(&vec![]), (34, 211, 238));
}

#[test]
fn presets_end_with_their_brightest_stop() {
    let sum = |c: (u8, u8, u8)| c.0 as u32 + c.1 as u32 + c.2 as u32;
    for k in 0..6 {
        let stops = preset_stops(k);
        let accent = accent_rgb(&stops);
        assert_eq!(accent, stops[stops.len() - 1]);
        for c in &stops {
            assert!(sum(*c) <= sum(accent));
        }
    }
}

#[test]
fn list_windows() {
    assert_eq!(list_window(0, 50, 10), (0, 10));
    assert_eq!(list_window(9, 50, 10), (0, 10));
    assert_eq!(list_window(10, 50, 10), (1, 11));
    assert_eq!(list_window(49, 50, 10), (40, 50));
    assert_eq!(list_window(70, 50, 10), (40, 50));
    assert_eq!(list_window(3, 5, 10), (0, 5));
    assert_eq!(list_window(3, 5, 0), (4, 4));
}

#[test]
fn status_marks() {
    assert_eq!(status_mark(true, true, true), "解码中…");
    assert_eq!(status_mark(false, false, true), "就绪");
    assert_eq!(status_mark(false, true, true), "▶ 播放中");
    assert_eq!(status_mark(false, true, false), "⏸ 已暂停");
}

#[test]
fn row_marks() {
    let rows = vec![
        Row::Parent,
        Row::Dir { name: "d".into(), path: "/m/d".into() },
        Row::File { name: "a.mp3".into(), path: "/m/a.mp3".into(), size: 2048 },
    ];
    let p = row_decor(&rows, 0, 0, "/m/a.mp3").unwrap();
    assert!(p.selected && !p.is_now);
    assert_eq!((p.marker, p.prefix, p.name.as_str()), ("  ", "↑", ".."));
    assert_eq!(p.detail, None);
    let d = row_decor(&rows, 1, 0, "/m/a.mp3").unwrap();
    assert!(!d.selected);
    assert_eq!((d.prefix, d.name.as_str()), ("D ", "d"));
    let f = row_decor(&rows, 2, 2, "/m/a.mp3").unwrap();
    assert!(f.selected && f.is_now);
    assert_eq!((f.marker, f.prefix), ("● ", "♪ "));
    assert_eq!(f.detail.as_deref(), Some("  2 KB"));
    assert!(row_decor(&rows, 3, 0, "").is_none());
}

#[test]
fn band_counts() {
    assert_eq!(bar_bands(3), 8);
    assert_eq!(bar_bands(40), 40);
    assert_eq!(bar_bands(200), 96);
    assert_eq!(ring_bands(10), 16);
    assert_eq!(ring_bands(50), 50);
    assert_eq!(ring_bands(80), 64);
}

//! The integer arithmetic of the library against the single- and
//! double-precision computations it stands for.
use pifile::fs::entry::format_size;
use pifile::theme::color::{mix, RgbaColor};

fn float_size(bytes: u64) -> String {
    const UNITS: [&str; 5] = ["B", "K", "M", "G", "T"];
    let mut n = bytes as f64;
    let mut unit = 0;
    while n >= 1024.0 && unit < UNITS.len() - 1 {
        n /= 1024.0;
        unit += 1;
    }
    if unit == 0 {
        format!("{bytes} {}", UNITS[unit])
    } else {
        format!("{n:.1} {}", UNITS[unit])
    }
}

fn float_mix(a: u8, b: u8, t: f32) -> u8 {
    let x = a as f32 / 255.0;
    let y = b as f32 / 255.0;
    ((x * (1.0 - t) + y * t) * 255.0).round() as u8
}

fn float_dark(r: u8, g: u8, b: u8) -> bool {
    let (r, g, b) = (r as f32 / 255.0, g as f32 / 255.0, b as f32 / 255.0);
    0.299 * r + 0.587 * g + 0.114 * b < 0.5
}

#[test]
fn size_labels_match_float_formatting() {
    for b in 0..200_000u64 {
        assert_eq!(format_size(b), float_size(b), "{b}");
    }
    let mut x: u64 = 0x9e37_79b9_7f4a_7c15;
    for _ in 0..200_000 {
        x = x.wrapping_mul(6364136223846793005).wrapping_add(1442695040888963407);
        for shift in [0u32, 7, 13, 20, 27, 33, 40, 45, 50, 54, 58, 63] {
            let b = x >> shift;
            assert_eq!(format_size(b), float_size(b), "{b}");
        }
    }
    for k in 0..64u32 {
        let p = 1u64 << k;
        for d in [p.wrapping_sub(1), p, p.wrapping_add(1), p / 2 * 3, p.wrapping_mul(5) / 4] {
            assert_eq!(format_size(d), float_size(d), "{d}");
        }
    }
    for b in [u64::MAX, u64::MAX - 1, u64::MAX - 1024, 1280, 1 << 53, (1 << 53) + 1, (1 << 54) + 2, (1 << 54) + 6] {
        assert_eq!(format_size(b), float_size(b), "{b}");
    }
}

#[test]
fn blends_match_single_precision() {
    for a in 0..=255u8 {
        for b in 0..=255u8 {
            let c = mix(RgbaColor { r: a, g: b, b: a }, RgbaColor { r: b, g: a, b: b }, 12);
            assert_eq!(c.r, float_mix(a, b, 0.12));
            assert_eq!(c.g, float_mix(b, a, 0.12));
            let d = mix(RgbaColor { r: a, g: b, b: a }, RgbaColor { r: b, g: a, b: b }, 40);
            assert_eq!(d.r, float_mix(a, b, 0.4));
            assert_eq!(d.g, float_mix(b, a, 0.4));
        }
    }
}

#[test]
fn darkness_matches_single_precision() {
    for r in 0..=255u8 {
        for g in 0..=255u8 {
            for b in 0..=255u8 {
                let c = RgbaColor { r, g, b };
                assert_eq!(c.is_dark(), float_dark(r, g, b), "{r} {g} {b}");
            }
        }
    }
}

use shadow_analyzer::pitch::{estimate_f0_mpm, lag_range, median, sorted_copy, F0Config};

fn gen_sine(sr: f32, freq: f32, secs: f32) -> Vec<i32> {
    let n = (sr * secs) as usize;
    let mut out = Vec::with_capacity(n);
    let dt = 1.0 / sr;
    let mut t = 0.0f32;
    for _ in 0..n {
        let v = (2.0 * std::f32::consts::PI * freq * t).sin() * 0.5;
        out.push((v * 32768.0).round() as i32);
        t += dt;
    }
    out
}

#[test]
fn test_sine_200hz_ok() {
    let sr = 24000.0;
    let sig = gen_sine(sr, 200.0, 0.5);
    let mut cfg = F0Config::default();
    cfg.sample_rate_hz = sr as u32;
    let res = estimate_f0_mpm(&sig, &cfg);
    let voiced_ratio = res.voiced_count as f32 / res.f0_mhz.len() as f32;
    assert!(voiced_ratio > 0.7, "voiced_ratio={}", voiced_ratio);
    let med = res.median_mhz.expect("median") as f32 / 1000.0;
    assert!((med - 200.0).abs() < 3.0, "median={}", med);
}

#[test]
fn test_silence_unvoiced() {
    let sr = 24000.0;
    let sig = vec![0i32; (sr as usize) / 2];
    let cfg = F0Config::default();
    let res = estimate_f0_mpm(&sig, &cfg);
    assert!(res.median_mhz.is_none());
    let voiced_ratio = res.voiced_count as f32 / res.f0_mhz.len() as f32;
    assert!(voiced_ratio < 0.05);
}

#[test]
fn default_config_values() {
    let cfg = F0Config::default();
    assert_eq!(cfg.sample_rate_hz, 24000);
    assert_eq!(cfg.frame_size, 960);
    assert_eq!(cfg.hop_size, 240);
    assert_eq!(cfg.fmin_hz, 70);
    assert_eq!(cfg.fmax_hz, 350);
    assert_eq!(cfg.threshold_permille, 400);
}

#[test]
fn default_lag_range() {
    let g = lag_range(&F0Config::default());
    assert_eq!(g.tau_min, 68);
    assert_eq!(g.tau_max, 343);
    assert_eq!(g.threshold, 419430);
    assert_eq!(g.rate, 24000);
}

#[test]
fn degenerate_config_lag_range() {
    let cfg = F0Config { sample_rate_hz: 0, frame_size: 10, hop_size: 0, fmin_hz: 0, fmax_hz: 0, threshold_permille: 5000 };
    let g = lag_range(&cfg);
    assert_eq!(g.tau_min, 2);
    assert_eq!(g.tau_max, 3);
    assert_eq!(g.threshold, 1048576);
    assert_eq!(g.rate, 1);
}

#[test]
fn frame_count_follows_hop() {
    let sig = vec![0i32; 12000];
    let res = estimate_f0_mpm(&sig, &F0Config::default());
    assert_eq!(res.f0_mhz.len(), 47);
    assert_eq!(res.voiced_flags.len(), 47);
    assert_eq!(res.voiced_count, 0);
}

#[test]
fn empty_input_gives_empty_result() {
    let res = estimate_f0_mpm(&Vec::new(), &F0Config::default());
    assert!(res.f0_mhz.is_empty());
    assert!(res.voiced_flags.is_empty());
    assert!(res.median_mhz.is_none());
    assert_eq!(res.voiced_count, 0);
}

#[test]
fn tiny_frame_gives_empty_result() {
    let mut cfg = F0Config::default();
    cfg.frame_size = 2;
    let res = estimate_f0_mpm(&vec![1i32; 100], &cfg);
    assert!(res.f0_mhz.is_empty());
}

#[test]
fn voiced_flags_match_frequencies() {
    let sig = gen_sine(24000.0, 150.0, 0.3);
    let res = estimate_f0_mpm(&sig, &F0Config::default());
    for (f, v) in res.f0_mhz.iter().zip(res.voiced_flags.iter()) {
        assert_eq!(*f > 0, *v);
    }
    assert_eq!(res.voiced_count, res.voiced_flags.iter().filter(|v| **v).count());
    let med = res.median_mhz.expect("median") as f32 / 1000.0;
    assert!((med - 150.0).abs() < 3.0, "median={}", med);
}

#[test]
fn median_of_odd_and_even_counts() {
    assert_eq!(median(&vec![5, 1, 3]), Some(3));
    assert_eq!(median(&vec![4, 1, 3, 2]), Some(2));
    assert_eq!(median(&vec![7, 8]), Some(7));
    assert_eq!(median(&vec![u64::MAX, u64::MAX]), Some(u64::MAX));
    assert_eq!(median(&Vec::new()), None);
}

#[test]
fn sorted_copy_orders_values() {
    assert_eq!(sorted_copy(&vec![3, 1, 2, 1]), vec![1, 1, 2, 3]);
}

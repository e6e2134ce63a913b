use shadow_analyzer::cut::{build_ffmpeg_base_args, clip_names, mic_recorder_args, pcm_pipe_args, wav_writer_args, CutWindow, SubtitleLine};
use shadow_analyzer::devices::{device_on_line, parse_dshow_devices, resolve_device, MicDevice};
use shadow_analyzer::mailbox::{Mailbox, Snapshot};
use shadow_analyzer::retention::{retention_plan, ClipFile};
use shadow_analyzer::text::{decimal_string, push_seconds};

fn line(s: u64, e: u64) -> SubtitleLine {
    SubtitleLine { text: Some("t".to_string()), start_ms: s, end_ms: e }
}

fn file(name: &str, t: u64) -> ClipFile {
    ClipFile { name: name.to_string(), modified: Some(t) }
}

#[test]
fn cut_window_pads_and_clamps() {
    let w = line(10000, 12000).cut_window(100000);
    assert_eq!((w.start_ms, w.end_ms), (9900, 12100));
    let w = line(50, 300).cut_window(0);
    assert_eq!((w.start_ms, w.end_ms), (0, 400));
    let w = line(1000, 1950).cut_window(2000);
    assert_eq!((w.start_ms, w.end_ms), (900, 2000));
    let w = line(100, 200).cut_window(250);
    assert_eq!((w.start_ms, w.end_ms), (0, 250));
}

#[test]
fn window_helpers() {
    let w = CutWindow { start_ms: 9900, end_ms: 12100 };
    assert!(w.is_valid());
    assert_eq!(w.length_ms(), 2200);
    assert_eq!(w.watch_threshold_ms(), 12080);
    let bad = CutWindow { start_ms: 5, end_ms: 5 };
    assert!(!bad.is_valid());
    assert_eq!(bad.length_ms(), 0);
    assert_eq!(CutWindow { start_ms: 0, end_ms: 10 }.watch_threshold_ms(), 0);
}

#[test]
fn artifact_names() {
    let n = clip_names("movie", CutWindow { start_ms: 9900, end_ms: 12100 });
    assert_eq!(n.clip, "movie_9900_12100.wav");
    assert_eq!(n.mic_clip, "movie_9900_12100_mic.wav");
    assert_eq!(n.latest, "latest.wav");
    assert_eq!(n.latest_mic, "latest_mic.wav");
}

#[test]
fn decimal_rendering() {
    assert_eq!(decimal_string(0), "0");
    assert_eq!(decimal_string(1234567), "1234567");
    assert_eq!(decimal_string(u64::MAX), "18446744073709551615");
    assert_eq!(push_seconds(String::new(), 9900), "9.900");
    assert_eq!(push_seconds("t=".to_string(), 5), "t=0.005");
    assert_eq!(push_seconds(String::new(), 123456), "123.456");
}

#[test]
fn base_args_with_stream() {
    let a = build_ffmpeg_base_args("in.mkv", CutWindow { start_ms: 9900, end_ms: 12100 }, Some(3));
    assert_eq!(a, vec!["-hide_banner", "-loglevel", "error", "-nostdin", "-ss", "9.900", "-to", "12.100", "-i", "in.mkv", "-map", "0:3"]);
    let b = build_ffmpeg_base_args("in.mkv", CutWindow { start_ms: 0, end_ms: 1 }, None);
    assert_eq!(b, vec!["-hide_banner", "-loglevel", "error", "-nostdin", "-ss", "0.000", "-to", "0.001", "-i", "in.mkv"]);
}

#[test]
fn writer_and_pipe_args() {
    let base = vec!["-i".to_string(), "m".to_string()];
    assert_eq!(wav_writer_args(&base, "o.wav", true), vec!["-y", "-i", "m", "-vn", "-sn", "-c:a", "pcm_s16le", "-ar", "48000", "-ac", "2", "o.wav"]);
    assert_eq!(wav_writer_args(&base, "o.wav", false), vec!["-i", "m", "-vn", "-sn", "-c:a", "pcm_s16le", "-ar", "48000", "-ac", "2", "o.wav"]);
    assert_eq!(pcm_pipe_args(&base), vec!["-i", "m", "-vn", "-sn", "-f", "f32le", "-ar", "48000", "-ac", "2", "pipe:1"]);
}

#[test]
fn recorder_args() {
    let a = mic_recorder_args("audio=Mic", 2200, "latest_mic.wav");
    assert_eq!(a, vec!["-hide_banner", "-loglevel", "error", "-nostdin", "-f", "dshow", "-i", "audio=Mic", "-ss", "0", "-t", "2.200", "-ar", "48000", "-ac", "1", "-c:a", "pcm_s16le", "-y", "latest_mic.wav"]);
}

#[test]
fn retention_keeps_newest_and_spares_protected() {
    let files = vec![
        file("a.wav", 1),
        file("b.wav", 8),
        file("latest.wav", 0),
        file("c.wav", 3),
        file("notes.txt", 0),
        file("d.wav", 5),
        file("e.wav", 2),
        file("fresh.wav", 0),
        file("f.wav", 7),
        file("g.wav", 6),
        ClipFile { name: "h.wav".to_string(), modified: None },
        file("LATEST.WAV", 0),
        file(".wav", 0),
    ];
    let excluded = vec!["fresh.wav".to_string()];
    let plan = retention_plan(&files, 5, &excluded);
    // Eligible: a(1) b(8) c(3) d(5) e(2) f(7) g(6) -> keep b f g d c.
    assert_eq!(plan.kept, vec![1, 8, 9, 5, 3]);
    assert_eq!(plan.removed, vec![6, 0]);
}

#[test]
fn retention_ties_keep_listing_order() {
    let files = vec![file("x.wav", 4), file("y.wav", 4), file("z.wav", 4)];
    let plan = retention_plan(&files, 2, &Vec::new());
    assert_eq!(plan.kept, vec![0, 1]);
    assert_eq!(plan.removed, vec![2]);
}

#[test]
fn retention_under_limit_removes_nothing() {
    let files = vec![file("x.wav", 4), file("latest_mic.wav", 9)];
    let plan = retention_plan(&files, 5, &vec!["latest_mic.wav".to_string()]);
    assert_eq!(plan.kept, vec![0]);
    assert!(plan.removed.is_empty());
}

#[test]
fn mailbox_coalesces_publishes() {
    let mut m: Mailbox<&str> = Mailbox::new();
    assert!(m.publish("A"));
    assert!(!m.publish("B"));
    assert!(m.is_pending());
    assert_eq!(m.take(), Some("B"));
    assert_eq!(m.take(), None);
    assert!(m.publish("C"));
}

#[test]
fn snapshot_fields_are_never_retracted() {
    let w = CutWindow { start_ms: 1, end_ms: 2 };
    let mut s: Snapshot<u32> = Snapshot {
        text: Some("t".to_string()),
        window: w,
        duration_ms: 10,
        stream: Some(1),
        clip_path: "c".to_string(),
        latest_path: "l".to_string(),
        latest_mic_path: None,
        mic_clip_path: None,
        metrics: Some(7),
    };
    let later = Snapshot {
        text: None,
        window: w,
        duration_ms: 10,
        stream: None,
        clip_path: "c".to_string(),
        latest_path: "l".to_string(),
        latest_mic_path: Some("lm".to_string()),
        mic_clip_path: Some("mc".to_string()),
        metrics: None,
    };
    s.absorb(later);
    assert_eq!(s.text.as_deref(), Some("t"));
    assert_eq!(s.stream, Some(1));
    assert_eq!(s.metrics, Some(7));
    assert_eq!(s.latest_mic_path.as_deref(), Some("lm"));
    assert_eq!(s.mic_clip_path.as_deref(), Some("mc"));
}

#[test]
fn dshow_listing_is_parsed() {
    let lines: Vec<String> = vec![
        "[dshow @ 0000] \"Integrated Camera\" (video)",
        "[dshow @ 0000]   Alternative name \"@device_pnp_\\\\?\\usb\"",
        "[dshow @ 0000] \"Microphone (Realtek Audio)\" (audio)",
        "[dshow @ 0000]   Alternative name \"@device_cm_{33D9A762}\\wave_{ABC}\" (audio)",
        "[dshow @ 0000] \"\" (audio)",
        "[dshow @ 0000] \"Headset Mic\" (audio)",
        "dummy: Immediate exit requested",
    ]
    .into_iter()
    .map(|s| s.to_string())
    .collect();
    let devs = parse_dshow_devices(&lines);
    assert_eq!(devs.len(), 2);
    assert_eq!(devs[0].name, "Microphone (Realtek Audio)");
    assert_eq!(devs[0].id, "audio=Microphone (Realtek Audio)");
    assert_eq!(devs[1].name, "Headset Mic");
    assert_eq!(devs[1].id, "audio=Headset Mic");
    assert!(device_on_line("no quotes (audio)").is_none());
}

#[test]
fn device_resolution_order() {
    let devs = vec![MicDevice { id: "audio=A".to_string(), name: "A".to_string() }, MicDevice { id: "audio=B".to_string(), name: "B".to_string() }];
    assert_eq!(resolve_device(Some("audio=X".to_string()), &devs), Some("audio=X".to_string()));
    assert_eq!(resolve_device(None, &devs), Some("audio=A".to_string()));
    assert_eq!(resolve_device(None, &Vec::new()), None);
}

#[test]
fn ui_selection_sentinel() {
    assert_eq!(shadow_analyzer::devices::selection_from_ui("default"), None);
    assert_eq!(shadow_analyzer::devices::selection_from_ui("audio=Mic"), Some("audio=Mic".to_string()));
}

#[test]
fn recording_readiness_needs_more_than_header() {
    assert!(!shadow_analyzer::wav::holds_samples(44));
    assert!(shadow_analyzer::wav::holds_samples(45));
}

#[test]
fn latest_named_files_are_never_removed() {
    let files = vec![file("latest_mic.wav", 1), file("Latest.wav", 2), file("LATEST_MIC.WAV", 3), file("old.wav", 0)];
    let plan = retention_plan(&files, 0, &Vec::new());
    assert!(plan.kept.is_empty());
    assert_eq!(plan.removed, vec![3]);
}

#[test]
fn ten_file_directory_keeps_five_newest_clips() {
    let files = vec![
        file("a.wav", 1),
        file("b.wav", 2),
        file("c.wav", 3),
        file("d.wav", 4),
        file("e.wav", 5),
        file("f.wav", 6),
        file("g.wav", 7),
        file("latest.wav", 0),
        file("x.wav", 0),
        file("y.wav", 0),
    ];
    let plan = retention_plan(&files, 5, &vec!["x.wav".to_string(), "y.wav".to_string()]);
    let removed: Vec<&str> = plan.removed.iter().map(|i| files[*i].name.as_str()).collect();
    let kept: Vec<&str> = plan.kept.iter().map(|i| files[*i].name.as_str()).collect();
    assert_eq!(removed, vec!["b.wav", "a.wav"]);
    assert_eq!(kept, vec!["g.wav", "f.wav", "e.wav", "d.wav", "c.wav"]);
}

//! Cut windows around subtitle lines, artifact names and the argument
//! vectors handed to the external encoder and recorder.
use vstd::prelude::*;
use crate::text::{dec, push_decimal, push_seconds, seconds_text};

verus! {

/// Padding added on each side of a subtitle line, in milliseconds.
pub const PAD_MS: u64 = 100;

/// How long before the window end playback is paused, in milliseconds.
pub const WATCH_LEAD_MS: u64 = 20;

/// Largest time, in milliseconds, that a subtitle line may end at.
pub const MAX_TIME_MS: u64 = 1000000000000000;

/// A subtitle line as reported by the player, in milliseconds.
#[derive(Debug, Clone)]
pub struct SubtitleLine {
    pub text: Option<String>,
    pub start_ms: u64,
    pub end_ms: u64,
}

/// The stretch of media to extract, in milliseconds.
#[derive(Debug, Clone, Copy, PartialEq, Eq, Structural)]
pub struct CutWindow {
    pub start_ms: u64,
    pub end_ms: u64,
}

pub open spec fn padded_start(start: nat) -> nat {
    if start >= PAD_MS {
        (start - PAD_MS) as nat
    } else {
        0
    }
}

pub open spec fn padded_end(end: nat, duration: nat) -> nat {
    if duration > 0 {
        if duration < end + PAD_MS {
            duration
        } else {
            end + PAD_MS as nat
        }
    } else {
        end + PAD_MS as nat
    }
}

impl CutWindow {
    pub open spec fn valid(self) -> bool {
        self.start_ms < self.end_ms
    }

    /// Whether extraction may be attempted.
    pub fn is_valid(&self) -> (r: bool)
        ensures
            r == self.valid(),
    {
        self.start_ms < self.end_ms
    }

    /// Length of the window in milliseconds (zero for an invalid window).
    pub fn length_ms(&self) -> (r: u64)
        ensures
            r == if self.valid() { self.end_ms - self.start_ms } else { 0 },
    {
        if self.start_ms < self.end_ms {
            self.end_ms - self.start_ms
        } else {
            0
        }
    }

    /// Position at which playback of this window is paused again.
    pub fn watch_threshold_ms(&self) -> (r: u64)
        ensures
            r == if self.end_ms >= WATCH_LEAD_MS { self.end_ms - WATCH_LEAD_MS } else { 0 },
    {
        if self.end_ms >= WATCH_LEAD_MS {
            self.end_ms - WATCH_LEAD_MS
        } else {
            0
        }
    }
}

impl SubtitleLine {
    /// The line padded by [`PAD_MS`] on each side, the start clamped at zero
    /// and, where the media duration is known (non-zero), the end clamped
    /// to it.
    pub fn cut_window(&self, duration_ms: u64) -> (w: CutWindow)
        requires
            self.end_ms <= MAX_TIME_MS,
        ensures
            w.start_ms == padded_start(self.start_ms as nat),
            w.end_ms == padded_end(self.end_ms as nat, duration_ms as nat),
    {
        let start_ms = if self.start_ms >= PAD_MS {
            self.start_ms - PAD_MS
        } else {
            0
        };
        let mut end_ms = self.end_ms + PAD_MS;
        if duration_ms > 0 && end_ms > duration_ms {
            end_ms = duration_ms;
        }
        CutWindow { start_ms, end_ms }
    }
}

/// The views of a sequence of strings.
pub open spec fn texts(v: Seq<String>) -> Seq<Seq<char>> {
    v.map_values(|s: String| s@)
}

fn push_text(v: &mut Vec<String>, s: &str)
    ensures
        texts(final(v)@) == texts(old(v)@).push(s@),
{
    v.push(s.to_owned());
    assert(texts(v@) =~= texts(old(v)@).push(s@));
}

fn push_string(v: &mut Vec<String>, s: String)
    ensures
        texts(final(v)@) == texts(old(v)@).push(s@),
{
    let ghost t = s@;
    v.push(s);
    assert(texts(v@) =~= texts(old(v)@).push(t));
}

/// `<base>_<start>_<end><suffix>`, times in milliseconds.
pub open spec fn stamped_name(base: Seq<char>, w: CutWindow, suffix: Seq<char>) -> Seq<char> {
    base + seq!['_'] + dec(w.start_ms as nat) + seq!['_'] + dec(w.end_ms as nat) + suffix
}

/// Names of the four audio artifacts of one cut, inside the output
/// directory.
#[derive(Debug, Clone)]
pub struct ClipNames {
    /// Retained reference clip, `<base>_<start>_<end>.wav`.
    pub clip: String,
    /// Reference clip overwritten on every cut, `latest.wav`.
    pub latest: String,
    /// Retained recording, `<base>_<start>_<end>_mic.wav`.
    pub mic_clip: String,
    /// Recording overwritten on every cut, `latest_mic.wav`.
    pub latest_mic: String,
}

fn stamped(base: &str, w: CutWindow, suffix: &str) -> (r: String)
    ensures
        r@ == stamped_name(base@, w, suffix@),
{
    proof {
        reveal_strlit("_");
    }
    let s = base.to_owned();
    let s = s.concat("_");
    let s = push_decimal(s, w.start_ms);
    let s = s.concat("_");
    let s = push_decimal(s, w.end_ms);
    let r = s.concat(suffix);
    assert(r@ =~= stamped_name(base@, w, suffix@));
    r
}

/// Artifact names for a cut of the media whose file stem is `base`.
pub fn clip_names(base: &str, w: CutWindow) -> (r: ClipNames)
    ensures
        r.clip@ == stamped_name(base@, w, ".wav"@),
        r.mic_clip@ == stamped_name(base@, w, "_mic.wav"@),
        r.latest@ == "latest.wav"@,
        r.latest_mic@ == "latest_mic.wav"@,
{
    ClipNames {
        clip: stamped(base, w, ".wav"),
        latest: "latest.wav".to_owned(),
        mic_clip: stamped(base, w, "_mic.wav"),
        latest_mic: "latest_mic.wav".to_owned(),
    }
}

/// Encoder arguments shared by every extraction of one window: quiet
/// output, the time range, the input and, if known, the audio stream.
pub open spec fn base_args_of(media: Seq<char>, w: CutWindow, stream: Option<u64>) -> Seq<Seq<char>> {
    let head = seq![
        "-hide_banner"@,
        "-loglevel"@,
        "error"@,
        "-nostdin"@,
        "-ss"@,
        seconds_text(w.start_ms as nat),
        "-to"@,
        seconds_text(w.end_ms as nat),
        "-i"@,
        media,
    ];
    match stream {
        Some(i) => head + seq!["-map"@, "0:"@ + dec(i as nat)],
        None => head,
    }
}

/// Builds the shared argument prefix for extracting `w` from `media`.
pub fn build_ffmpeg_base_args(media: &str, w: CutWindow, stream: Option<u64>) -> (r: Vec<String>)
    ensures
        texts(r@) == base_args_of(media@, w, stream),
{
    let mut v: Vec<String> = Vec::new();
    push_text(&mut v, "-hide_banner");
    push_text(&mut v, "-loglevel");
    push_text(&mut v, "error");
    push_text(&mut v, "-nostdin");
    push_text(&mut v, "-ss");
    push_string(&mut v, push_seconds(String::new(), w.start_ms));
    push_text(&mut v, "-to");
    push_string(&mut v, push_seconds(String::new(), w.end_ms));
    push_text(&mut v, "-i");
    push_text(&mut v, media);
    if let Some(i) = stream {
        push_text(&mut v, "-map");
        push_string(&mut v, push_decimal("0:".to_owned(), i));
    }
    assert(texts(v@) =~= base_args_of(media@, w, stream));
    v
}

/// Arguments that write the window as 16-bit PCM WAV, 48 kHz stereo, to
/// `out`; with `overwrite`, an existing file is replaced.
pub open spec fn wav_writer_args_of(base: Seq<Seq<char>>, out: Seq<char>, overwrite: bool) -> Seq<Seq<char>> {
    let front = if overwrite {
        seq!["-y"@] + base
    } else {
        base
    };
    front + seq![
        "-vn"@,
        "-sn"@,
        "-c:a"@,
        "pcm_s16le"@,
        "-ar"@,
        "48000"@,
        "-ac"@,
        "2"@,
        out,
    ]
}

fn copy_texts(v: &mut Vec<String>, src: &Vec<String>)
    ensures
        texts(final(v)@) == texts(old(v)@) + texts(src@),
{
    let mut i: usize = 0;
    while i < src.len()
        invariant
            i <= src@.len(),
            texts(v@) == texts(old(v)@) + texts(src@.subrange(0, i as int)),
        decreases src@.len() - i,
    {
        let s = src[i].clone();
        push_string(v, s);
        assert(texts(src@.subrange(0, i + 1)) =~= texts(src@.subrange(0, i as int)).push(src@[i as int]@));
        i = i + 1;
    }
    assert(src@.subrange(0, src@.len() as int) =~= src@);
}

/// Arguments for the file-writing encoder.
pub fn wav_writer_args(base: &Vec<String>, out: &str, overwrite: bool) -> (r: Vec<String>)
    ensures
        texts(r@) == wav_writer_args_of(texts(base@), out@, overwrite),
{
    let mut v: Vec<String> = Vec::new();
    if overwrite {
        push_text(&mut v, "-y");
    }
    copy_texts(&mut v, base);
    push_text(&mut v, "-vn");
    push_text(&mut v, "-sn");
    push_text(&mut v, "-c:a");
    push_text(&mut v, "pcm_s16le");
    push_text(&mut v, "-ar");
    push_text(&mut v, "48000");
    push_text(&mut v, "-ac");
    push_text(&mut v, "2");
    push_text(&mut v, out);
    assert(texts(v@) =~= wav_writer_args_of(texts(base@), out@, overwrite));
    v
}

/// Arguments that stream the window as raw little-endian 32-bit float
/// samples, 48 kHz stereo, to standard output.
pub open spec fn pcm_pipe_args_of(base: Seq<Seq<char>>) -> Seq<Seq<char>> {
    base + seq![
        "-vn"@,
        "-sn"@,
        "-f"@,
        "f32le"@,
        "-ar"@,
        "48000"@,
        "-ac"@,
        "2"@,
        "pipe:1"@,
    ]
}

/// Arguments for the stream-writing encoder.
pub fn pcm_pipe_args(base: &Vec<String>) -> (r: Vec<String>)
    ensures
        texts(r@) == pcm_pipe_args_of(texts(base@)),
{
    let mut v: Vec<String> = Vec::new();
    copy_texts(&mut v, base);
    push_text(&mut v, "-vn");
    push_text(&mut v, "-sn");
    push_text(&mut v, "-f");
    push_text(&mut v, "f32le");
    push_text(&mut v, "-ar");
    push_text(&mut v, "48000");
    push_text(&mut v, "-ac");
    push_text(&mut v, "2");
    push_text(&mut v, "pipe:1");
    assert(texts(v@) =~= pcm_pipe_args_of(texts(base@)));
    v
}

/// Arguments that record `duration_ms` of 48 kHz mono 16-bit PCM from
/// capture device `device` to `out`, replacing it.
pub open spec fn mic_recorder_args_of(device: Seq<char>, duration_ms: nat, out: Seq<char>) -> Seq<Seq<char>> {
    seq![
        "-hide_banner"@,
        "-loglevel"@,
        "error"@,
        "-nostdin"@,
        "-f"@,
        "dshow"@,
        "-i"@,
        device,
        "-ss"@,
        "0"@,
        "-t"@,
        seconds_text(duration_ms),
        "-ar"@,
        "48000"@,
        "-ac"@,
        "1"@,
        "-c:a"@,
        "pcm_s16le"@,
        "-y"@,
        out,
    ]
}

/// Arguments for the bounded-duration recorder.
pub fn mic_recorder_args(device: &str, duration_ms: u64, out: &str) -> (r: Vec<String>)
    ensures
        texts(r@) == mic_recorder_args_of(device@, duration_ms as nat, out@),
{
    let mut v: Vec<String> = Vec::new();
    push_text(&mut v, "-hide_banner");
    push_text(&mut v, "-loglevel");
    push_text(&mut v, "error");
    push_text(&mut v, "-nostdin");
    push_text(&mut v, "-f");
    push_text(&mut v, "dshow");
    push_text(&mut v, "-i");
    push_text(&mut v, device);
    push_text(&mut v, "-ss");
    push_text(&mut v, "0");
    push_text(&mut v, "-t");
    push_string(&mut v, push_seconds(String::new(), duration_ms));
    push_text(&mut v, "-ar");
    push_text(&mut v, "48000");
    push_text(&mut v, "-ac");
    push_text(&mut v, "1");
    push_text(&mut v, "-c:a");
    push_text(&mut v, "pcm_s16le");
    push_text(&mut v, "-y");
    push_text(&mut v, out);
    assert(texts(v@) =~= mic_recorder_args_of(device@, duration_ms as nat, out@));
    v
}

} // verus!

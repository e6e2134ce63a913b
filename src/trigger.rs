//! The trigger state machine: tracks the visible subtitle line, turns an
//! explicit trigger into playback commands and a cut job, and pauses
//! playback again once the cut has played.
use vstd::prelude::*;
use crate::cut::{
    clip_names, padded_end, padded_start, stamped_name, ClipNames, CutWindow, SubtitleLine,
    MAX_TIME_MS, WATCH_LEAD_MS,
};
use crate::player::{PlayerCommand, Property, Track, TrackKind};
use crate::text::{dec, push_decimal, push_seconds, seconds_text};

verus! {

/// Observation slot of the playback position while a cut plays.
pub const TIME_POS_SLOT: u64 = 101;

/// Observation slot of the subtitle text, kept for the whole session.
pub const SUB_TEXT_SLOT: u64 = 201;

/// How long on-screen confirmations stay visible, in milliseconds.
pub const OSD_MS: u64 = 1200;

/// First argument of the `client-message` event that asks for a cut.
pub const TRIGGER_KEYWORD: &'static str = "cut_current_sub";

/// Commands sent once the control channel is open: trigger messages are
/// delivered, and subtitle text changes are observed.
pub fn startup_commands() -> (r: Vec<PlayerCommand>)
    ensures
        r@ == seq![
            PlayerCommand::SubscribeClientMessages,
            PlayerCommand::Observe { slot: SUB_TEXT_SLOT, property: Property::SubText },
        ],
{
    let mut v: Vec<PlayerCommand> = Vec::new();
    v.push(PlayerCommand::SubscribeClientMessages);
    v.push(PlayerCommand::Observe { slot: SUB_TEXT_SLOT, property: Property::SubText });
    assert(v@ =~= seq![
        PlayerCommand::SubscribeClientMessages,
        PlayerCommand::Observe { slot: SUB_TEXT_SLOT, property: Property::SubText },
    ]);
    v
}

/// Whether the arguments of a `client-message` event ask for a cut.
pub fn is_trigger(args: &Vec<String>) -> (r: bool)
    ensures
        r == (args@.len() > 0 && args@[0]@ == TRIGGER_KEYWORD@),
{
    if args.len() == 0 {
        return false;
    }
    let keyword = TRIGGER_KEYWORD.to_owned();
    args[0] == keyword
}

/// Stream index of the first track that is audio and selected, if any.
pub open spec fn selected_audio(tracks: Seq<Track>) -> Option<u64>
    decreases tracks.len(),
{
    if tracks.len() == 0 {
        None
    } else if tracks[0].kind == TrackKind::Audio && tracks[0].selected {
        tracks[0].ff_index
    } else {
        selected_audio(tracks.drop_first())
    }
}

/// Finds the stream index of the selected audio track.
pub fn select_audio_stream(tracks: &Vec<Track>) -> (r: Option<u64>)
    ensures
        r == selected_audio(tracks@),
{
    let mut i: usize = 0;
    assert(tracks@.subrange(0, tracks@.len() as int) =~= tracks@);
    while i < tracks.len()
        invariant
            i <= tracks@.len(),
            selected_audio(tracks@) == selected_audio(tracks@.subrange(i as int, tracks@.len() as int)),
        decreases tracks@.len() - i,
    {
        let t = tracks[i];
        assert(tracks@.subrange(i as int, tracks@.len() as int).drop_first() =~= tracks@.subrange(
            i + 1,
            tracks@.len() as int,
        ));
        if t.kind == TrackKind::Audio && t.selected {
            return t.ff_index;
        }
        i = i + 1;
    }
    None
}

/// The on-screen text for a stream selection, as `Some(3)` or `None`.
pub open spec fn stream_text(stream: Option<u64>) -> Seq<char> {
    match stream {
        Some(i) => "Some("@ + dec(i as nat) + ")"@,
        None => "None"@,
    }
}

/// The confirmation shown after a trigger.
pub open spec fn confirmation_text(has_text: bool, w: CutWindow, stream: Option<u64>) -> Seq<char> {
    if has_text && w.valid() {
        "cut "@ + seconds_text(w.start_ms as nat) + "\u{2013}"@ + seconds_text(w.end_ms as nat) + " (ff="@
            + stream_text(stream) + ")"@
    } else {
        "no active subtitle"@
    }
}

fn confirmation(has_text: bool, w: CutWindow, stream: Option<u64>) -> (r: String)
    ensures
        r@ == confirmation_text(has_text, w, stream),
{
    if has_text && w.is_valid() {
        let s = push_seconds("cut ".to_owned(), w.start_ms);
        let s = s.concat("\u{2013}");
        let s = push_seconds(s, w.end_ms);
        let s = s.concat(" (ff=");
        let s = match stream {
            Some(i) => {
                let t = push_decimal(s.concat("Some("), i);
                t.concat(")")
            },
            None => s.concat("None"),
        };
        let r = s.concat(")");
        assert(r@ =~= confirmation_text(has_text, w, stream));
        r
    } else {
        "no active subtitle".to_owned()
    }
}

/// Relies on `std::path::Path::file_stem`: the file name of `path` without
/// its extension, when the path has a file name; a stem is never empty.
/// How a path splits into components depends on the platform, so nothing
/// more is claimed of the result.
#[verifier::external_body]
fn path_stem(path: &str) -> (r: Option<String>)
    ensures
        r matches Some(s) ==> s@.len() > 0,
{
    std::path::Path::new(path).file_stem().and_then(|s| s.to_str()).map(|s| s.to_owned())
}

/// The work of one cut, handed to the clip and microphone orchestration.
#[derive(Debug, Clone)]
pub struct CutJob {
    pub window: CutWindow,
    pub media: String,
    /// File stem of the media, or `clip` where it has none.
    pub base: String,
    pub stream: Option<u64>,
    pub text: Option<String>,
    pub duration_ms: u64,
    pub names: ClipNames,
}

/// What a trigger asks for: commands before the cut's work starts, the
/// work, commands once the recorder is started, and a confirmation shown
/// at the end.
#[derive(Debug, Clone)]
pub struct TriggerOutcome {
    pub before: Vec<PlayerCommand>,
    pub job: Option<CutJob>,
    pub after: Vec<PlayerCommand>,
    pub message: Option<PlayerCommand>,
}

/// Whether a watch for the end of a cut is armed, a subtitle line is
/// known, or neither.
#[derive(Debug, Clone, Copy, PartialEq, Eq, Structural)]
pub enum TriggerMode {
    Idle,
    Armed,
    Watching,
}

/// State of the trigger machine.
#[derive(Debug, Clone)]
pub struct Trigger {
    /// The last subtitle line seen with end after start.
    pub line: Option<SubtitleLine>,
    /// Playback position at which to pause, while a cut plays.
    pub watch_until: Option<u64>,
    /// Whether the playback position is being observed.
    pub observing: bool,
}

/// The cut window of a line for a media duration (zero when unknown).
pub open spec fn window_of(l: SubtitleLine, duration_ms: u64) -> CutWindow {
    CutWindow {
        start_ms: padded_start(l.start_ms as nat) as u64,
        end_ms: padded_end(l.end_ms as nat, duration_ms as nat) as u64,
    }
}

pub open spec fn threshold_of(w: CutWindow) -> u64 {
    if w.end_ms >= WATCH_LEAD_MS {
        (w.end_ms - WATCH_LEAD_MS) as u64
    } else {
        0
    }
}

impl Trigger {
    pub open spec fn wf(&self) -> bool {
        self.line matches Some(l) ==> l.end_ms <= MAX_TIME_MS
    }

    pub open spec fn mode_of(&self) -> TriggerMode {
        if self.watch_until is Some {
            TriggerMode::Watching
        } else if self.line is Some {
            TriggerMode::Armed
        } else {
            TriggerMode::Idle
        }
    }

    pub fn new() -> (r: Trigger)
        ensures
            r.wf(),
            r.line is None,
            r.watch_until is None,
            !r.observing,
    {
        Trigger { line: None, watch_until: None, observing: false }
    }

    pub fn mode(&self) -> (r: TriggerMode)
        ensures
            r == self.mode_of(),
    {
        if self.watch_until.is_some() {
            TriggerMode::Watching
        } else if self.line.is_some() {
            TriggerMode::Armed
        } else {
            TriggerMode::Idle
        }
    }

    /// The subtitle text changed to `text`; `start_ms` and `end_ms` are the
    /// line's times as read back from the player (absent when the read
    /// failed, taken as zero). The line replaces the current one when it
    /// ends after it starts and no later than [`MAX_TIME_MS`].
    pub fn on_subtitle(&mut self, text: String, start_ms: Option<u64>, end_ms: Option<u64>)
        requires
            old(self).wf(),
        ensures
            final(self).wf(),
            final(self).watch_until == old(self).watch_until,
            final(self).observing == old(self).observing,
            ({
                let s = match start_ms { Some(v) => v, None => 0u64 };
                let e = match end_ms { Some(v) => v, None => 0u64 };
                final(self).line == if s < e && e <= MAX_TIME_MS {
                    Some(SubtitleLine { text: Some(text), start_ms: s, end_ms: e })
                } else {
                    old(self).line
                }
            }),
    {
        let s = match start_ms {
            Some(v) => v,
            None => 0,
        };
        let e = match end_ms {
            Some(v) => v,
            None => 0,
        };
        if s < e && e <= MAX_TIME_MS {
            self.line = Some(SubtitleLine { text: Some(text), start_ms: s, end_ms: e });
        }
    }

    /// The playback position moved to `pos_ms`. Once it reaches the armed
    /// threshold, playback is paused, the position observation dropped and
    /// the watch cleared.
    pub fn on_position(&mut self, pos_ms: u64) -> (r: Vec<PlayerCommand>)
        requires
            old(self).wf(),
        ensures
            final(self).wf(),
            final(self).line == old(self).line,
            match old(self).watch_until {
                Some(t) if pos_ms >= t => {
                    &&& final(self).watch_until is None
                    &&& !final(self).observing
                    &&& r@ == if old(self).observing {
                        seq![PlayerCommand::SetPause(true), PlayerCommand::Unobserve { slot: TIME_POS_SLOT }]
                    } else {
                        seq![PlayerCommand::SetPause(true)]
                    }
                },
                _ => {
                    &&& final(self).watch_until == old(self).watch_until
                    &&& final(self).observing == old(self).observing
                    &&& r@ == Seq::<PlayerCommand>::empty()
                },
            },
    {
        let mut cmds: Vec<PlayerCommand> = Vec::new();
        if let Some(t) = self.watch_until {
            if pos_ms >= t {
                cmds.push(PlayerCommand::SetPause(true));
                if self.observing {
                    cmds.push(PlayerCommand::Unobserve { slot: TIME_POS_SLOT });
                    self.observing = false;
                }
                self.watch_until = None;
            }
        }
        cmds
    }

    /// The trigger fired, with the media's duration (zero when unknown),
    /// path and track list as read from the player. Without a known line
    /// nothing happens. Otherwise the line's cut window is computed; when
    /// the media is known and the window is valid, playback is paused and
    /// moved to the window's start, the end watch is armed (the position
    /// observation registered only if it is not already), a cut job is
    /// returned and playback resumes once it has started. A confirmation
    /// is shown in every case with a known line.
    pub fn on_trigger(&mut self, duration_ms: u64, media: Option<String>, tracks: &Vec<Track>) -> (r: TriggerOutcome)
        requires
            old(self).wf(),
        ensures
            final(self).wf(),
            final(self).line == old(self).line,
            match old(self).line {
                None => {
                    &&& r.before@ == Seq::<PlayerCommand>::empty()
                    &&& r.job is None
                    &&& r.after@ == Seq::<PlayerCommand>::empty()
                    &&& r.message is None
                    &&& final(self).watch_until == old(self).watch_until
                    &&& final(self).observing == old(self).observing
                },
                Some(l) => {
                    let w = window_of(l, duration_ms);
                    let stream = selected_audio(tracks@);
                    let go = media is Some && w.valid();
                    &&& r.message is Some && r.message->Some_0 is ShowText
                    &&& r.message->Some_0->ShowText_1 == OSD_MS
                    &&& r.message->Some_0->ShowText_0@ == confirmation_text(l.text is Some, w, stream)
                    &&& if go {
                        let job = r.job->Some_0;
                        &&& r.job is Some
                        &&& job.window == w
                        &&& job.media == media->Some_0
                        &&& job.stream == stream
                        &&& job.text == l.text
                        &&& job.duration_ms == duration_ms
                        &&& job.base@.len() > 0
                        &&& job.names.clip@ == stamped_name(job.base@, w, ".wav"@)
                        &&& job.names.mic_clip@ == stamped_name(job.base@, w, "_mic.wav"@)
                        &&& job.names.latest@ == "latest.wav"@
                        &&& job.names.latest_mic@ == "latest_mic.wav"@
                        &&& r.before@ == seq![PlayerCommand::SetPause(true), PlayerCommand::Seek(w.start_ms)] + if old(
                            self,
                        ).observing {
                            Seq::<PlayerCommand>::empty()
                        } else {
                            seq![PlayerCommand::Observe { slot: TIME_POS_SLOT, property: Property::TimePos }]
                        }
                        &&& r.after@ == seq![PlayerCommand::SetPause(false)]
                        &&& final(self).watch_until == Some(threshold_of(w))
                        &&& final(self).observing
                    } else {
                        &&& r.job is None
                        &&& r.before@ == Seq::<PlayerCommand>::empty()
                        &&& r.after@ == Seq::<PlayerCommand>::empty()
                        &&& final(self).watch_until == old(self).watch_until
                        &&& final(self).observing == old(self).observing
                    }
                },
            },
    {
        let mut before: Vec<PlayerCommand> = Vec::new();
        let mut after: Vec<PlayerCommand> = Vec::new();
        let line = match &self.line {
            Some(l) => l,
            None => {
                return TriggerOutcome { before, job: None, after, message: None };
            },
        };
        let w = line.cut_window(duration_ms);
        let stream = select_audio_stream(tracks);
        let has_text = line.text.is_some();
        let text = line.text.clone();
        let message = PlayerCommand::ShowText(confirmation(has_text, w, stream), OSD_MS);
        let mut job: Option<CutJob> = None;
        if let Some(m) = media {
            if w.is_valid() {
                before.push(PlayerCommand::SetPause(true));
                before.push(PlayerCommand::Seek(w.start_ms));
                if !self.observing {
                    before.push(PlayerCommand::Observe { slot: TIME_POS_SLOT, property: Property::TimePos });
                }
                self.watch_until = Some(w.watch_threshold_ms());
                self.observing = true;
                after.push(PlayerCommand::SetPause(false));
                proof {
                    reveal_strlit("clip");
                }
                let base = match path_stem(m.as_str()) {
                    Some(b) => b,
                    None => "clip".to_owned(),
                };
                let names = clip_names(base.as_str(), w);
                job = Some(CutJob { window: w, media: m, base, stream, text, duration_ms, names });
                proof {
                    assert(before@ =~= seq![PlayerCommand::SetPause(true), PlayerCommand::Seek(w.start_ms)] + if old(
                        self,
                    ).observing {
                        Seq::<PlayerCommand>::empty()
                    } else {
                        seq![PlayerCommand::Observe { slot: TIME_POS_SLOT, property: Property::TimePos }]
                    });
                    assert(after@ =~= seq![PlayerCommand::SetPause(false)]);
                }
            }
        }
        TriggerOutcome { before, job, after, message: Some(message) }
    }
}

} // verus!

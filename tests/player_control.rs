use shadow_analyzer::cut::SubtitleLine;
use shadow_analyzer::player::{Inbound, PlayerCommand, PlayerEvent, PlayerValue, Property, ReplyWait, RequestIds, Track, TrackKind};
use shadow_analyzer::trigger::{is_trigger, select_audio_stream, startup_commands, Trigger, TriggerMode, OSD_MS, SUB_TEXT_SLOT, TIME_POS_SLOT};

fn audio(selected: bool, idx: u64) -> Track {
    Track { kind: TrackKind::Audio, selected, ff_index: Some(idx) }
}

fn show_text(c: &Option<PlayerCommand>) -> (String, u64) {
    match c {
        Some(PlayerCommand::ShowText(t, d)) => (t.clone(), *d),
        other => panic!("expected a message, got {:?}", other),
    }
}

#[test]
fn event_between_request_and_reply_is_not_the_reply() {
    let mut ids = RequestIds::new();
    let id = ids.fresh();
    let mut wait = ReplyWait::new(id);
    let ev = Inbound::Event(PlayerEvent::PropertyChange { property: Property::SubText, value: PlayerValue::Text("hi".to_string()) });
    assert!(wait.accept(ev).is_none());
    assert!(wait.accept(Inbound::Malformed).is_none());
    assert!(wait.accept(Inbound::Reply { request_id: id + 7, value: PlayerValue::Millis(1) }).is_none());
    let got = wait.accept(Inbound::Reply { request_id: id, value: PlayerValue::Millis(12345) });
    assert!(matches!(got, Some(PlayerValue::Millis(12345))));
    assert_eq!(wait.deferred.len(), 1);
    assert!(matches!(&wait.deferred[0], PlayerEvent::PropertyChange { property: Property::SubText, .. }));
}

#[test]
fn request_ids_are_sequential() {
    let mut ids = RequestIds::new();
    assert_eq!(ids.fresh(), 1);
    assert_eq!(ids.fresh(), 2);
    assert_eq!(ids.fresh(), 3);
}

#[test]
fn property_names() {
    assert_eq!(Property::SubText.name(), "sub-text");
    assert_eq!(Property::SubStart.name(), "sub-start");
    assert_eq!(Property::SubEnd.name(), "sub-end");
    assert_eq!(Property::Duration.name(), "duration");
    assert_eq!(Property::Path.name(), "path");
    assert_eq!(Property::TrackList.name(), "track-list");
    assert_eq!(Property::TimePos.name(), "time-pos");
    assert_eq!(Property::Pause.name(), "pause");
}

#[test]
fn startup_subscribes_and_observes_subtitles() {
    let c = startup_commands();
    assert_eq!(c.len(), 2);
    assert!(matches!(c[0], PlayerCommand::SubscribeClientMessages));
    assert!(matches!(c[1], PlayerCommand::Observe { slot: SUB_TEXT_SLOT, property: Property::SubText }));
}

#[test]
fn trigger_keyword_detection() {
    assert!(is_trigger(&vec!["cut_current_sub".to_string(), "x".to_string()]));
    assert!(!is_trigger(&vec!["other".to_string()]));
    assert!(!is_trigger(&Vec::new()));
}

#[test]
fn selected_audio_track_wins() {
    let tracks = vec![
        Track { kind: TrackKind::Video, selected: true, ff_index: Some(0) },
        audio(false, 1),
        audio(true, 2),
        audio(true, 3),
    ];
    assert_eq!(select_audio_stream(&tracks), Some(2));
    assert_eq!(select_audio_stream(&vec![audio(false, 1)]), None);
}

#[test]
fn end_to_end_trigger_on_current_line() {
    let mut t = Trigger::new();
    assert_eq!(t.mode(), TriggerMode::Idle);
    t.on_subtitle("hello".to_string(), Some(10000), Some(12000));
    assert_eq!(t.mode(), TriggerMode::Armed);
    let out = t.on_trigger(100000, Some("/videos/movie.mkv".to_string()), &vec![audio(true, 1)]);
    let job = out.job.expect("job");
    assert_eq!(job.window.start_ms, 9900);
    assert_eq!(job.window.end_ms, 12100);
    assert_eq!(job.base, "movie");
    assert_eq!(job.names.clip, "movie_9900_12100.wav");
    assert_eq!(job.names.mic_clip, "movie_9900_12100_mic.wav");
    assert_eq!(job.names.latest, "latest.wav");
    assert_eq!(job.names.latest_mic, "latest_mic.wav");
    assert_eq!(job.stream, Some(1));
    assert_eq!(job.text.as_deref(), Some("hello"));
    assert_eq!(job.duration_ms, 100000);
    assert_eq!(out.before.len(), 3);
    assert!(matches!(out.before[0], PlayerCommand::SetPause(true)));
    assert!(matches!(out.before[1], PlayerCommand::Seek(9900)));
    assert!(matches!(out.before[2], PlayerCommand::Observe { slot: TIME_POS_SLOT, property: Property::TimePos }));
    assert_eq!(out.after.len(), 1);
    assert!(matches!(out.after[0], PlayerCommand::SetPause(false)));
    assert_eq!(show_text(&out.message), ("cut 9.900\u{2013}12.100 (ff=Some(1))".to_string(), OSD_MS));
    assert_eq!(t.mode(), TriggerMode::Watching);
    assert_eq!(t.watch_until, Some(12080));
}

#[test]
fn repeat_trigger_does_not_observe_twice() {
    let mut t = Trigger::new();
    t.on_subtitle("a".to_string(), Some(1000), Some(2000));
    let first = t.on_trigger(0, Some("clip.wav".to_string()), &Vec::new());
    assert_eq!(first.before.len(), 3);
    t.on_subtitle("b".to_string(), Some(3000), Some(4000));
    let second = t.on_trigger(0, Some("clip.wav".to_string()), &Vec::new());
    assert_eq!(second.before.len(), 2);
    assert_eq!(t.watch_until, Some(4080));
    assert_eq!(show_text(&second.message).0, "cut 2.900\u{2013}4.100 (ff=None)");
}

#[test]
fn position_reaching_threshold_pauses_once() {
    let mut t = Trigger::new();
    t.on_subtitle("a".to_string(), Some(1000), Some(2000));
    t.on_trigger(0, Some("x.mkv".to_string()), &Vec::new());
    assert!(t.on_position(2000).is_empty());
    let cmds = t.on_position(2080);
    assert_eq!(cmds.len(), 2);
    assert!(matches!(cmds[0], PlayerCommand::SetPause(true)));
    assert!(matches!(cmds[1], PlayerCommand::Unobserve { slot: TIME_POS_SLOT }));
    assert_eq!(t.mode(), TriggerMode::Armed);
    assert!(!t.observing);
    assert!(t.on_position(5000).is_empty());
}

#[test]
fn trigger_without_line_does_nothing() {
    let mut t = Trigger::new();
    let out = t.on_trigger(1000, Some("x.mkv".to_string()), &Vec::new());
    assert!(out.before.is_empty());
    assert!(out.job.is_none());
    assert!(out.after.is_empty());
    assert!(out.message.is_none());
    assert_eq!(t.mode(), TriggerMode::Idle);
}

#[test]
fn invalid_window_reports_no_active_subtitle() {
    let mut t = Trigger::new();
    t.on_subtitle("late".to_string(), Some(10000), Some(12000));
    let out = t.on_trigger(5000, Some("x.mkv".to_string()), &Vec::new());
    assert!(out.job.is_none());
    assert!(out.before.is_empty());
    assert_eq!(show_text(&out.message).0, "no active subtitle");
    assert_eq!(t.mode(), TriggerMode::Armed);
}

#[test]
fn unknown_media_cuts_nothing() {
    let mut t = Trigger::new();
    t.on_subtitle("x".to_string(), Some(10000), Some(12000));
    let out = t.on_trigger(0, None, &Vec::new());
    assert!(out.job.is_none());
    assert!(out.before.is_empty());
    assert_eq!(show_text(&out.message).0, "cut 9.900\u{2013}12.100 (ff=None)");
}

#[test]
fn subtitle_update_needs_end_after_start() {
    let mut t = Trigger::new();
    t.on_subtitle("x".to_string(), Some(500), Some(500));
    assert!(t.line.is_none());
    t.on_subtitle("x".to_string(), None, Some(800));
    let l: &SubtitleLine = t.line.as_ref().unwrap();
    assert_eq!((l.start_ms, l.end_ms), (0, 800));
    t.on_subtitle("y".to_string(), Some(900), None);
    assert_eq!(t.line.as_ref().unwrap().text.as_deref(), Some("x"));
}

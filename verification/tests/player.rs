//! Tests of the playback scheduler's control logic: the command
//! vocabulary, the pause/resume clock arithmetic, volume clamping, and the
//! exactly-once event delivery.

use kfn_rs::helpers::event::EventType;
use kfn_rs::kfn_ini::eff::TextEntry;
use kfn_rs::kfn_thread::{parse_command, Command, PlayerState, SinkAction};
use kfn_rs::Kfn;

#[test]
fn command_vocabulary() {
    assert_eq!(parse_command("PAUSE"), Command::Pause);
    assert_eq!(parse_command("RESUME"), Command::Resume);
    assert_eq!(parse_command("CH_TRACK"), Command::ChTrack);
    assert_eq!(parse_command("VOL_UP"), Command::VolUp);
    assert_eq!(parse_command("VOL_DOWN"), Command::VolDown);
    assert_eq!(parse_command("FW"), Command::Forward);
    assert_eq!(parse_command("BW"), Command::Backward);
    assert_eq!(parse_command("STOP"), Command::Stop);
    assert_eq!(parse_command("whatever"), Command::Unknown);
}

#[test]
fn pause_resume_accumulates_offset() {
    // pausing after 3.0 s, resuming, pausing again after 2.0 s more
    // accumulates an offset of 5.0 s
    let mut s = PlayerState::new(1000, false, false);
    s.pause(1000 + 3000);
    assert_eq!(s.offset, 3000);
    assert!(s.paused);
    s.resume(20000);
    assert!(!s.paused);
    s.pause(20000 + 2000);
    assert_eq!(s.offset, 5000);
}

#[test]
fn volume_clamps_to_range() {
    let mut s = PlayerState::new(0, false, true);
    let mut actions: Vec<SinkAction> = Vec::new();
    assert!(s.handle_command(Command::VolUp, 0, &mut actions));
    assert_eq!(s.volume_tenths, 10);
    for _ in 0..12 {
        s.handle_command(Command::VolDown, 0, &mut actions);
    }
    assert_eq!(s.volume_tenths, 0);
}

#[test]
fn track_toggle_needs_a_secondary() {
    let mut actions: Vec<SinkAction> = Vec::new();
    let mut with = PlayerState::new(0, true, true);
    with.handle_command(Command::ChTrack, 0, &mut actions);
    assert!(with.on_vocal);
    assert!(actions.contains(&SinkAction::SetMainVolume(0)));
    let mut without = PlayerState::new(0, false, false);
    let mut actions2: Vec<SinkAction> = Vec::new();
    without.handle_command(Command::ChTrack, 0, &mut actions2);
    assert!(!without.on_vocal);
}

#[test]
fn seek_moves_offset() {
    let mut s = PlayerState::new(0, false, false);
    let mut actions: Vec<SinkAction> = Vec::new();
    s.handle_command(Command::Forward, 100, &mut actions);
    assert_eq!(s.offset, 5000);
    s.handle_command(Command::Backward, 100, &mut actions);
    assert_eq!(s.offset, 0);
    assert_eq!(actions.len(), 2);
}

#[test]
fn stop_ends_the_session() {
    let mut s = PlayerState::new(0, false, false);
    let mut actions: Vec<SinkAction> = Vec::new();
    assert!(!s.handle_command(Command::Stop, 0, &mut actions));
}

#[test]
fn events_deliver_exactly_once_and_only_when_due() {
    // events at 10 cs and 25 cs (100 ms and 250 ms)
    let times: Vec<usize> = vec![10, 25];
    let mut s = PlayerState::new(0, false, false);
    let mut delivered: Vec<usize> = Vec::new();
    // poll at 50 ms, 120 ms, 130 ms, 240 ms, 260 ms, 300 ms
    for now in [50u64, 120, 130, 240, 260, 300] {
        while let Some(i) = s.pop_due(&times, now) {
            // only after its timestamp has been reached
            assert!(times[i] as u64 * 10 <= now);
            delivered.push(i);
        }
    }
    // each event exactly once, in order
    assert_eq!(delivered, vec![0, 1]);
}

#[test]
fn paused_scheduler_delivers_nothing() {
    let times: Vec<usize> = vec![1];
    let mut s = PlayerState::new(0, false, false);
    s.pause(0);
    assert_eq!(s.pop_due(&times, 10_000), None);
}

#[test]
fn derived_timelines_ascend() {
    // background rows out of order, and a foreground layer with a later id
    // than the background's: the derived timelines sort ascending, and an
    // id above 51 is still a lyric layer
    let ini = "[General]\nEffectCount=2\n\n[Eff1]\nID=51\nNbAnim=2\nAnim0=100|ChgBgImg:LibImage=b.jpg\nAnim1=50|ChgBgImg:LibImage=a.jpg\n\n[Eff2]\nID=52\nNbAnim=0\nTextCount=1\nSync0=30\nText0=hey\n";
    let mut kfn = Kfn::new();
    kfn.data.entries.push(kfn_rs::helpers::Entry {
        file_type: kfn_rs::helpers::FileType::SongIni,
        filename: "Song.ini".to_string(),
        len1: ini.len(),
        offset: 0,
        len2: ini.len(),
        flags: 0,
        file_bin: ini.as_bytes().to_vec(),
    });
    let bytes = kfn.export();
    let mut back = Kfn::from_bytes(bytes);
    back.parse().unwrap();

    let bg = back.get_bg_events();
    assert_eq!(bg.len(), 2);
    assert_eq!(bg[0].time, 50);
    assert_eq!(bg[1].time, 100);
    match &bg[0].event_type {
        EventType::Background(ae) => {
            assert_eq!(ae.action, kfn_rs::kfn_ini::eff::Action::ChgBgImg("a.jpg".to_string()));
        }
        other => panic!("expected a background event, got {:?}", other),
    }

    // the id-52 layer is a lyric layer, not background
    let texts = back.get_texts_and_syncs();
    assert_eq!(texts.len(), 1);
    assert_eq!(texts[0].time, 30);
}

#[test]
fn derive_twice_yields_identical_events() {
    let ini = "[General]\nEffectCount=2\n\n[Eff1]\nID=51\nNbAnim=1\nAnim0=100|ChgBgImg:LibImage=a.jpg\n\n[Eff2]\nID=1\nNbAnim=0\nTextCount=1\nSync0=10,20\nText0=a b\n";
    let mut kfn = Kfn::new();
    kfn.header.title = "t".to_string();
    kfn.data.entries.push(kfn_rs::helpers::Entry {
        file_type: kfn_rs::helpers::FileType::SongIni,
        filename: "Song.ini".to_string(),
        len1: ini.len(),
        offset: 0,
        len2: ini.len(),
        flags: 0,
        file_bin: ini.as_bytes().to_vec(),
    });
    let bytes = kfn.export();
    let mut back = Kfn::from_bytes(bytes);
    back.parse().unwrap();

    let texts1 = back.get_texts_and_syncs();
    let texts2 = back.get_texts_and_syncs();
    assert_eq!(texts1, texts2);
    let bg1 = back.get_bg_events();
    let bg2 = back.get_bg_events();
    assert_eq!(bg1, bg2);

    // contents are as derived: one background event, two text fragments in
    // one line event
    assert_eq!(bg1.len(), 1);
    assert_eq!(bg1[0].time, 100);
    assert_eq!(texts1.len(), 1);
    assert_eq!(texts1[0].time, 10);
    match &texts1[0].event_type {
        EventType::Text(t) => {
            let expected = TextEntry {
                display: "a b".to_string(),
                fragments: vec![(10, "a".to_string()), (20, "b".to_string())],
            };
            assert_eq!(*t, expected);
        }
        other => panic!("expected a text event, got {:?}", other),
    }
    match &bg1[0].event_type {
        EventType::Background(ae) => {
            assert_eq!(ae.action, kfn_rs::kfn_ini::eff::Action::ChgBgImg("a.jpg".to_string()));
        }
        other => panic!("expected a background event, got {:?}", other),
    }
}

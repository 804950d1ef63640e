//! Tests of the effects mini-language: the trajectory and action grammars,
//! decimal literals, the section decoding with its sync and text
//! aggregation, and the lossy re-encoding.

use kfn_rs::decimal::{parse_decimal, Decimal};
use kfn_rs::ini_doc::IniDoc;
use kfn_rs::kfn_ini::eff::{Action, Effect, TransType};
use kfn_rs::kfn_ini::trajectory::Trajectory;
use kfn_rs::kfn_ini::KfnIni;
use kfn_rs::KfnParseError;

fn dec(neg: bool, mantissa: u64, scale: usize) -> Decimal {
    Decimal { neg, mantissa, scale }
}

#[test]
fn decimal_literals_parse_exactly() {
    assert_eq!(parse_decimal("3.5"), Some(dec(false, 35, 1)));
    assert_eq!(parse_decimal("2"), Some(dec(false, 2, 0)));
    assert_eq!(parse_decimal("-1.25"), Some(dec(true, 125, 2)));
    assert_eq!(parse_decimal("0.05"), Some(dec(false, 5, 2)));
    assert_eq!(parse_decimal(""), None);
    assert_eq!(parse_decimal("1."), None);
    assert_eq!(parse_decimal(".5"), None);
    assert_eq!(parse_decimal("x"), None);
}

#[test]
fn decimal_renders_canonically() {
    assert_eq!(dec(false, 35, 1).to_string(), "3.5");
    assert_eq!(dec(false, 2, 0).to_string(), "2");
    assert_eq!(dec(true, 125, 2).to_string(), "-1.25");
    assert_eq!(dec(false, 5, 2).to_string(), "0.05");
}

#[test]
fn trajectory_with_params() {
    // a named variant with explicit parameters keeps both
    let t = Trajectory::from("PlainBottomToTop*2*3*4*5").unwrap();
    assert_eq!(
        t,
        Trajectory::PlainBottomToTop(dec(false, 2, 0), dec(false, 3, 0), dec(false, 4, 0), dec(false, 5, 0))
    );
}

#[test]
fn trajectory_empty_takes_defaults() {
    let t = Trajectory::from("").unwrap();
    assert_eq!(
        t,
        Trajectory::PlainBottomToTop(dec(false, 15, 1), dec(false, 1, 0), dec(false, 1, 0), dec(false, 1, 0))
    );
}

#[test]
fn trajectory_unknown_name_falls_back() {
    let t = Trajectory::from("Bogus*1*1*1*1").unwrap();
    assert_eq!(
        t,
        Trajectory::PlainBottomToTop(dec(false, 1, 0), dec(false, 1, 0), dec(false, 1, 0), dec(false, 1, 0))
    );
}

#[test]
fn trajectory_short_or_malformed_fails() {
    assert_eq!(Trajectory::from("Still*1*2"), None);
    assert_eq!(Trajectory::from("Still*a*b*c*d"), None);
}

#[test]
fn trajectory_renders_its_grammar_string() {
    let t = Trajectory::Still(dec(false, 15, 1), dec(false, 1, 0), dec(false, 1, 0), dec(false, 1, 0));
    assert_eq!(t.to_string(), "Still*1.5*1*1*1");
}

#[test]
fn action_background_image() {
    let a = Action::from("ChgBgImg:LibImage=bg1.jpg").unwrap();
    assert_eq!(a, Action::ChgBgImg("bg1.jpg".to_string()));
}

#[test]
fn action_float_offset() {
    let a = Action::from("ChgFloatOffsetX:Value=3.5").unwrap();
    assert_eq!(a, Action::ChgFloatOffsetX(dec(false, 35, 1)));
}

#[test]
fn action_unknown_name_is_noop() {
    let a = Action::from("SomethingElse:X=1").unwrap();
    assert_eq!(a, Action::NoAction);
}

#[test]
fn action_known_name_without_payload_fails() {
    assert_eq!(Action::from("ChgBgImg"), None);
}

#[test]
fn action_renders_only_background_exactly() {
    let a = Action::ChgBgImg("pic.png".to_string());
    assert_eq!(a.to_string(), "ChgBgImg:LibImage=pic.png");
    let b = Action::ChgColColor("ff00ff00".to_string());
    assert_eq!(b.to_string(), " ");
}

const EFF_INI: &str = "[General]\nEffectCount=1\n\n[Eff1]\nID=1\nNbAnim=1\nAnim0=250|ChgBgImg:LibImage=a.jpg,Effect=MoveTop,TransitionTime=1.5,TransitionType=Linear\nTextCount=2\nTrajectory=Still*1*2*3*4\nLibImage=bg.jpg\nInactiveColor=ff001122\nSync0=10,20,30\nSync1=40\nText0=He/llo wor\nText1=ld\n";

fn load(text: &str) -> Result<KfnIni, KfnParseError> {
    let doc: IniDoc = kfn_rs::ini_doc::parse_ini_text(text).expect("ini text must parse");
    let mut song = KfnIni::new();
    song.ini = doc;
    song.load_eff()?;
    Ok(song)
}

#[test]
fn effect_section_decodes() {
    let song = load(EFF_INI).unwrap();
    assert_eq!(song.effs.len(), 1);
    let eff = &song.effs[0];
    assert_eq!(eff.id, 1);
    // multi-key syncs concatenate in key order
    assert_eq!(eff.syncs, vec![10, 20, 30, 40]);
    // animation row: time and one entry
    assert_eq!(eff.anims.len(), 1);
    assert_eq!(eff.anims[0].time, 250);
    let entry = &eff.anims[0].anim_entries[0];
    assert_eq!(entry.action, Action::ChgBgImg("a.jpg".to_string()));
    assert_eq!(entry.effect, Some(Effect::MoveTop));
    assert_eq!(entry.trans_time, dec(false, 15, 1));
    assert_eq!(entry.trans_type, TransType::Linear);
    // texts: fragments consume syncs in order; display strips the slashes
    assert_eq!(eff.texts.len(), 2);
    assert_eq!(eff.texts[0].display, "Hello wor");
    assert_eq!(
        eff.texts[0].fragments,
        vec![(10, "He".to_string()), (20, "llo".to_string()), (30, "wor".to_string())]
    );
    assert_eq!(eff.texts[1].display, "ld");
    assert_eq!(eff.texts[1].fragments, vec![(40, "ld".to_string())]);
    // the total fragment count never exceeds the sync count
    let frags: usize = eff.texts.iter().map(|t| t.fragments.len()).sum();
    assert!(frags <= eff.syncs.len());
    // initial state
    assert_eq!(
        eff.initial_trajectory,
        Trajectory::Still(dec(false, 1, 0), dec(false, 2, 0), dec(false, 3, 0), dec(false, 4, 0))
    );
    assert_eq!(eff.initial_lib_image.as_deref(), Some("bg.jpg"));
    assert_eq!(eff.initial_video_file, None);
    assert_eq!(eff.initial_inactive_color.as_deref(), Some("ff001122"));
}

#[test]
fn missing_required_key_is_a_grammar_error() {
    let bad = "[General]\nEffectCount=1\n\n[Eff1]\nNbAnim=0\n";
    match load(bad) {
        Err(KfnParseError::GrammarError { section, key }) => {
            assert_eq!(section, "Eff1");
            assert_eq!(key, "ID");
        }
        other => panic!("expected a grammar error, got {:?}", other),
    }
}

#[test]
fn text_outrunning_syncs_is_a_grammar_error() {
    let bad = "[General]\nEffectCount=1\n\n[Eff1]\nID=1\nNbAnim=0\nTextCount=1\nSync0=10\nText0=a b c\n";
    match load(bad) {
        Err(KfnParseError::GrammarError { .. }) => {}
        other => panic!("expected a grammar error, got {:?}", other),
    }
}

#[test]
fn bad_effect_count_names_its_key() {
    match load("[General]\nEffectCount=x\n") {
        Err(KfnParseError::GrammarError { section, key }) => {
            assert_eq!(section, "General");
            assert_eq!(key, "EffectCount");
        }
        other => panic!("expected a grammar error, got {:?}", other),
    }
}

#[test]
fn effect_count_default_is_zero() {
    let song = load("[General]\nTitle=x\n").unwrap();
    assert_eq!(song.effs.len(), 0);
}

#[test]
fn font_accepts_only_known_extensions() {
    let good = "[General]\nEffectCount=1\n\n[Eff1]\nID=1\nNbAnim=0\nFont=arial.ttf*12\n";
    let song = load(good).unwrap();
    assert_eq!(song.effs[0].initial_font, Some(("arial.ttf".to_string(), 12)));
    let absent = "[General]\nEffectCount=1\n\n[Eff1]\nID=1\nNbAnim=0\nFont=arial.bmp*12\n";
    let song = load(absent).unwrap();
    assert_eq!(song.effs[0].initial_font, None);
}

const STABLE_INI: &str = "[General]\nEffectCount=1\n\n[Eff1]\nID=1\nNbAnim=1\nAnim0=250|ChgBgImg:LibImage=a.jpg,Effect=MoveTop,TransitionTime=1.5,TransitionType=Linear\nTextCount=2\nTrajectory=Still*1*2*3*4\nSync0=10,20,30\nSync1=40\nText0=He llo wor\nText1=ld\n";

#[test]
fn effects_reencode_and_decode_again() {
    // decode, re-encode through the document, render to text with the
    // real ini writer, and decode once more: the background image action
    // and the aggregated syncs survive the round trip; the input's
    // fragments are space-separated, so the display string reproduces them
    let song = load(STABLE_INI).unwrap();
    let mut song2 = song.clone();
    // start from a fresh document, as re-encoding over the old one would
    // keep the original numbered sync keys beside the aggregate
    song2.ini = IniDoc { sections: Vec::new() };
    song2.set_eff();
    let text = kfn_rs::ini_doc::write_ini_text(&song2.ini);
    let reloaded = load(&text).unwrap();
    assert_eq!(reloaded.effs.len(), 1);
    let eff = &reloaded.effs[0];
    assert_eq!(eff.id, 1);
    assert_eq!(eff.syncs, vec![10, 20, 30, 40]);
    assert_eq!(eff.anims[0].anim_entries[0].action, Action::ChgBgImg("a.jpg".to_string()));
    assert_eq!(eff.texts.len(), 2);
    assert_eq!(eff.texts[0].display, "He llo wor");
    assert_eq!(
        eff.texts[0].fragments,
        vec![(10, "He".to_string()), (20, "llo".to_string()), (30, "wor".to_string())]
    );
}

#[test]
fn color_strings_decode_to_channels() {
    assert_eq!(kfn_rs::kfn_ini::eff::parse_color("ff001122"), Some((0xff, 0x00, 0x11, 0x22)));
    assert_eq!(kfn_rs::kfn_ini::eff::parse_color("FF00AbCd"), Some((0xff, 0x00, 0xab, 0xcd)));
    assert_eq!(kfn_rs::kfn_ini::eff::parse_color("xx001122"), None);
    assert_eq!(kfn_rs::kfn_ini::eff::parse_color("ff00112"), None);
}

#[test]
fn sync_keys_skip_insync() {
    let text = "[General]\nEffectCount=1\n\n[Eff1]\nID=1\nNbAnim=0\nSync0=1,2\nInSync0=99\n";
    let song = load(text).unwrap();
    assert_eq!(song.effs[0].syncs, vec![1, 2]);
}

#[test]
fn track_helpers_read_the_mp3music_section() {
    let text = "[General]\nSource=1,I,song.mp3\n\n[MP3Music]\nTrack0=1,I,1,vocal.mp3\n";
    let doc = kfn_rs::ini_doc::parse_ini_text(text).unwrap();
    let mut song = KfnIni::new();
    song.ini = doc;
    assert_eq!(song.get_source_name().as_deref(), Some("song.mp3"));
    assert_eq!(song.get_secondary_source().as_deref(), Some("1,I,1,vocal.mp3"));
    assert!(song.replaces_track());
    let text2 = "[MP3Music]\nTrack0=1,I,0,vocal.mp3\n";
    let doc2 = kfn_rs::ini_doc::parse_ini_text(text2).unwrap();
    let mut song2 = KfnIni::new();
    song2.ini = doc2;
    assert!(!song2.replaces_track());
}

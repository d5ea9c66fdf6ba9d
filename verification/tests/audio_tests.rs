use mkg_starship::audio::{bgm_asset_path, thrust_sound_action, wav_from_samples, ThrustSoundAction};
use mkg_starship::game_flow::AppState;

#[test]
fn wav_header_layout() {
    let w = wav_from_samples(22050, &[0, 1, -1, i16::MIN, i16::MAX]);
    assert_eq!(w.len(), 44 + 10);
    assert_eq!(&w[0..4], b"RIFF");
    assert_eq!(&w[4..8], &(36u32 + 10).to_le_bytes());
    assert_eq!(&w[8..12], b"WAVE");
    assert_eq!(&w[12..16], b"fmt ");
    assert_eq!(&w[16..20], &16u32.to_le_bytes());
    assert_eq!(&w[20..22], &1u16.to_le_bytes());
    assert_eq!(&w[22..24], &1u16.to_le_bytes());
    assert_eq!(&w[24..28], &22050u32.to_le_bytes());
    assert_eq!(&w[28..32], &44100u32.to_le_bytes());
    assert_eq!(&w[32..34], &2u16.to_le_bytes());
    assert_eq!(&w[34..36], &16u16.to_le_bytes());
    assert_eq!(&w[36..40], b"data");
    assert_eq!(&w[40..44], &10u32.to_le_bytes());
    assert_eq!(&w[44..], &[0, 0, 1, 0, 0xff, 0xff, 0x00, 0x80, 0xff, 0x7f]);
}

#[test]
fn wav_without_samples() {
    let w = wav_from_samples(8000, &[]);
    assert_eq!(w.len(), 44);
    assert_eq!(&w[40..44], &[0, 0, 0, 0]);
}

#[test]
fn thrust_sound_decisions() {
    assert_eq!(thrust_sound_action(AppState::GameOver, true, true, true, false, false, false), ThrustSoundAction::Mute);
    assert_eq!(thrust_sound_action(AppState::Playing, false, true, true, true, true, false), ThrustSoundAction::Mute);
    assert_eq!(thrust_sound_action(AppState::Playing, true, false, true, true, true, true), ThrustSoundAction::Idle);
    assert_eq!(thrust_sound_action(AppState::Playing, true, true, false, false, false, true), ThrustSoundAction::Idle);
    assert_eq!(thrust_sound_action(AppState::Playing, true, true, false, true, false, true), ThrustSoundAction::Thrust { resume: true });
    assert_eq!(thrust_sound_action(AppState::Playing, true, true, false, false, true, false), ThrustSoundAction::Thrust { resume: false });
}

#[test]
fn music_file_choice() {
    assert_eq!(bgm_asset_path(true, true), Some("music/bgm.ogg"));
    assert_eq!(bgm_asset_path(false, true), Some("music/bgm.mp3"));
    assert_eq!(bgm_asset_path(false, false), None);
}

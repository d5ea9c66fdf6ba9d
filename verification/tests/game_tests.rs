use mkg_starship::collision::{contact_outcome, ContactCheck, ContactOutcome};
use mkg_starship::game_flow::{
    handle_ground_events, overlay_visibility, restart_run, AppState, EndReason, GameEnd,
};
use mkg_starship::planets::{fuel_display_name, CelestialBody};
use mkg_starship::terrain::{
    clamp_pad_count, pad_index_span, smoothing_passes_for, volcano_index_span,
};
use mkg_starship::ui::{game_over_text, run_score_text, top_scores_text};
use mkg_starship::persistence::HighScoreEntry;

fn start_end() -> GameEnd {
    GameEnd { reason: EndReason::Crashed, score: 0 }
}

#[test]
fn progression_from_mercury_reaches_pluto_visiting_every_body_once() {
    let mut b = CelestialBody::ORDER[0];
    assert_eq!(b, CelestialBody::Mercury);
    let mut seen = vec![b];
    while let Some(n) = b.next() {
        assert!(!seen.contains(&n));
        seen.push(n);
        b = n;
    }
    assert_eq!(b, CelestialBody::Pluto);
    assert_eq!(seen.len(), 16);
    for o in CelestialBody::ORDER {
        assert!(seen.contains(&o));
    }
    assert_eq!(seen[9], CelestialBody::Jupiter);
    assert_eq!(CelestialBody::ORDER[15], CelestialBody::Jupiter);
}

#[test]
fn names() {
    assert_eq!(CelestialBody::Mercury.display_name(), "Mercury");
    assert_eq!(CelestialBody::Enceladus.display_name(), "Enceladus");
    assert_eq!(CelestialBody::Moon.display_name(), "Moon");
    assert_eq!(fuel_display_name(CelestialBody::Jupiter), "Plasma");
    assert_eq!(fuel_display_name(CelestialBody::Io), "Methane");
}

#[test]
fn crash_ends_run_with_current_score() {
    let mut body = CelestialBody::Mars;
    let mut end = GameEnd { reason: EndReason::Victory, score: 99 };
    let r = handle_ground_events(1, &[], &mut body, &mut end, 340);
    assert_eq!(r.next_state, Some(AppState::GameOver));
    assert_eq!(r.finished_runs, vec![340]);
    assert_eq!(end, GameEnd { reason: EndReason::Crashed, score: 340 });
    assert_eq!(body, CelestialBody::Mars);
}

#[test]
fn landing_on_pluto_wins() {
    let mut body = CelestialBody::Pluto;
    let mut end = start_end();
    let r = handle_ground_events(0, &[5120], &mut body, &mut end, 4000);
    assert_eq!(r.next_state, Some(AppState::GameOver));
    assert_eq!(r.finished_runs, vec![5120]);
    assert_eq!(end, GameEnd { reason: EndReason::Victory, score: 5120 });
    assert_eq!(body, CelestialBody::Pluto);
}

#[test]
fn landing_elsewhere_advances_body() {
    let mut body = CelestialBody::Callisto;
    let mut end = start_end();
    let r = handle_ground_events(0, &[800], &mut body, &mut end, 0);
    assert_eq!(r.next_state, Some(AppState::LandingSuccess));
    assert!(r.finished_runs.is_empty());
    assert_eq!(body, CelestialBody::Jupiter);
    assert_eq!(end, start_end());
}

#[test]
fn no_events_change_nothing() {
    let mut body = CelestialBody::Earth;
    let mut end = start_end();
    let r = handle_ground_events(0, &[], &mut body, &mut end, 10);
    assert_eq!(r.next_state, None);
    assert!(r.finished_runs.is_empty());
    assert_eq!(body, CelestialBody::Earth);
}

#[test]
fn crash_then_landing_in_one_frame_last_request_wins() {
    let mut body = CelestialBody::Venus;
    let mut end = start_end();
    let r = handle_ground_events(1, &[70], &mut body, &mut end, 60);
    assert_eq!(r.next_state, Some(AppState::LandingSuccess));
    assert_eq!(r.finished_runs, vec![60]);
    assert_eq!(body, CelestialBody::Earth);
    assert_eq!(end, GameEnd { reason: EndReason::Crashed, score: 60 });
}

#[test]
fn restart_only_from_game_over_with_key() {
    let mut score = 500;
    let mut body = CelestialBody::Titan;
    assert_eq!(restart_run(AppState::Playing, true, &mut score, &mut body), None);
    assert_eq!(restart_run(AppState::GameOver, false, &mut score, &mut body), None);
    assert_eq!((score, body), (500, CelestialBody::Titan));
    assert_eq!(restart_run(AppState::GameOver, true, &mut score, &mut body), Some(AppState::GetReady));
    assert_eq!((score, body), (0, CelestialBody::Mercury));
}

#[test]
fn overlays_per_screen() {
    assert_eq!(AppState::default(), AppState::GetReady);
    let v = overlay_visibility(AppState::Playing);
    assert!(v.hud && !v.get_ready && !v.success && !v.top_scores);
    let v = overlay_visibility(AppState::GetReady);
    assert!(!v.hud && v.get_ready && !v.success && v.top_scores);
    let v = overlay_visibility(AppState::LandingSuccess);
    assert!(!v.hud && !v.get_ready && v.success && !v.top_scores);
    let v = overlay_visibility(AppState::GameOver);
    assert!(!v.hud && !v.get_ready && !v.success && v.top_scores);
}

#[test]
fn game_over_texts() {
    let crash = GameEnd { reason: EndReason::Crashed, score: 42 };
    let win = GameEnd { reason: EndReason::Victory, score: 9001 };
    assert_eq!(game_over_text(AppState::GameOver, &crash).unwrap(), "Game Over\nScore: 42\nPress R to restart");
    assert_eq!(
        game_over_text(AppState::GameOver, &win).unwrap(),
        "Solar system complete!\nFinal score: 9001\nPress R to restart"
    );
    assert_eq!(game_over_text(AppState::Playing, &win), None);
    assert_eq!(run_score_text(-3), "Score: -3");
    assert_eq!(run_score_text(1250), "Score: 1250");
}

#[test]
fn top_scores_texts() {
    assert_eq!(top_scores_text(&[]), "Top scores\n(no runs yet)");
    assert_eq!(top_scores_text(&[HighScoreEntry { score: 0, unix_secs: 5 }]), "Top scores\n(no runs yet)");
    let table: Vec<HighScoreEntry> = [7, 0, 500, 300, 20, 10, 4]
        .iter()
        .map(|&s| HighScoreEntry { score: s, unix_secs: 0 })
        .collect();
    assert_eq!(top_scores_text(&table), "Top scores\n1. 7\n2. 500\n3. 300\n4. 20\n5. 10");
    let dated = top_scores_text(&[HighScoreEntry { score: 88, unix_secs: 1700000000 }]);
    assert!(dated.starts_with("Top scores\n1. 88  2023-11-1"));
}

#[test]
fn terrain_integer_parts() {
    assert_eq!(clamp_pad_count(0), 2);
    assert_eq!(clamp_pad_count(3), 3);
    assert_eq!(clamp_pad_count(9), 3);
    assert_eq!(pad_index_span(10, 20, 140), (10, 20));
    assert_eq!(pad_index_span(10, 11, 140), (10, 12));
    assert_eq!(pad_index_span(500, 600, 140), (138, 139));
    assert_eq!(volcano_index_span(7, 3, 1), (0, 0));
    assert_eq!(volcano_index_span(137, 150, 140), (137, 139));
    assert_eq!(smoothing_passes_for(CelestialBody::Saturn), 3);
    assert_eq!(smoothing_passes_for(CelestialBody::Europa), 3);
    assert_eq!(smoothing_passes_for(CelestialBody::Titan), 1);
    assert_eq!(smoothing_passes_for(CelestialBody::Io), 2);
    assert_eq!(smoothing_passes_for(CelestialBody::Earth), 2);
}

fn check(fell_out: bool, tunneled: bool, crossing: bool, on_pad: bool, level: bool, slow_enough: bool) -> ContactOutcome {
    contact_outcome(&ContactCheck { fell_out, tunneled, crossing, on_pad, level, slow_enough })
}

#[test]
fn landing_rule() {
    assert_eq!(check(false, false, true, true, true, true), ContactOutcome::Landed);
    assert_eq!(check(false, false, false, true, true, true), ContactOutcome::Flying);
    assert_eq!(check(true, false, false, true, true, true), ContactOutcome::Crashed);
    assert_eq!(check(false, true, true, true, true, true), ContactOutcome::Crashed);
    assert_eq!(check(false, false, true, false, true, true), ContactOutcome::Crashed);
    assert_eq!(check(false, false, true, true, false, true), ContactOutcome::Crashed);
    assert_eq!(check(false, false, true, true, true, false), ContactOutcome::Crashed);
}

#[test]
fn full_run_of_landings_wins_on_the_last_body() {
    let mut body = CelestialBody::ORDER[0];
    let mut end = start_end();
    for k in 0..15 {
        let r = handle_ground_events(0, &[100 * (k + 1)], &mut body, &mut end, 0);
        assert_eq!(r.next_state, Some(AppState::LandingSuccess));
        assert!(r.finished_runs.is_empty());
    }
    assert_eq!(body, CelestialBody::Pluto);
    let r = handle_ground_events(0, &[1600], &mut body, &mut end, 0);
    assert_eq!(r.next_state, Some(AppState::GameOver));
    assert_eq!(r.finished_runs, vec![1600]);
    assert_eq!(end, GameEnd { reason: EndReason::Victory, score: 1600 });
}

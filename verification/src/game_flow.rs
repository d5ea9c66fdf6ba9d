//! Run state: what a landing or a crash does to the run, and restarting after it ends.

use vstd::prelude::*;

use crate::planets::{stage, CelestialBody};

verus! {

/// Screens of the game.
#[derive(Clone, Copy, Debug, PartialEq, Eq, Hash, Structural)]
pub enum AppState {
    /// Terrain fade-in, "Get Ready", then gameplay.
    GetReady,
    Playing,
    /// Brief "Success" after a good landing before loading the next body.
    LandingSuccess,
    GameOver,
}

impl Default for AppState {
    fn default() -> (r: AppState)
        ensures
            r == AppState::GetReady,
    {
        AppState::GetReady
    }
}

#[derive(Clone, Copy, PartialEq, Eq, Debug, Structural)]
pub enum EndReason {
    Crashed,
    Victory,
}

/// How the last run ended and with what score.
#[derive(Clone, Copy, PartialEq, Eq, Debug, Structural)]
pub struct GameEnd {
    pub reason: EndReason,
    pub score: i32,
}

/// The part of the run that ground events change: the current body, the recorded end of
/// the run, the screen requested next, and the finished runs' scores to add to the table.
pub struct FlowView {
    pub body: CelestialBody,
    pub end: GameEnd,
    pub next: Option<AppState>,
    pub finished: Seq<i32>,
}

/// A crash ends the run with the current score.
pub open spec fn apply_crash(f: FlowView, score: i32) -> FlowView {
    FlowView {
        body: f.body,
        end: GameEnd { reason: EndReason::Crashed, score },
        next: Some(AppState::GameOver),
        finished: f.finished.push(score),
    }
}

/// A safe landing: on Pluto the run is won with the landing's total; elsewhere the run
/// moves on to the next body and shows the success screen.
pub open spec fn apply_landing(f: FlowView, total_score: i32) -> FlowView {
    if f.body == CelestialBody::Pluto {
        FlowView {
            body: f.body,
            end: GameEnd { reason: EndReason::Victory, score: total_score },
            next: Some(AppState::GameOver),
            finished: f.finished.push(total_score),
        }
    } else {
        FlowView {
            body: match f.body.successor() {
                Some(n) => n,
                None => f.body,
            },
            end: f.end,
            next: Some(AppState::LandingSuccess),
            finished: f.finished,
        }
    }
}

pub open spec fn apply_crashes(f: FlowView, n: nat, score: i32) -> FlowView
    decreases n,
{
    if n == 0 {
        f
    } else {
        apply_crash(apply_crashes(f, (n - 1) as nat, score), score)
    }
}

pub open spec fn apply_landings(f: FlowView, totals: Seq<i32>) -> FlowView
    decreases totals.len(),
{
    if totals.len() == 0 {
        f
    } else {
        apply_landing(apply_landings(f, totals.drop_last()), totals.last())
    }
}

/// The crashes of a frame are handled first, then its landings, in order.
pub open spec fn ground_events_outcome(f: FlowView, crashes: nat, score: i32, totals: Seq<i32>) -> FlowView {
    apply_landings(apply_crashes(f, crashes, score), totals)
}

/// What the frame's ground events ask for beyond the changed body and end record.
pub struct GroundEventsResult {
    /// The screen to switch to, if any event asked for one (the last request wins).
    pub next_state: Option<AppState>,
    /// Scores of finished runs, in order, each to be added to the top-score table.
    pub finished_runs: Vec<i32>,
}

/// Applies a frame's crash events (`crashed` of them, at run score `score`) and its
/// landings (each with the run's new total score).
pub fn handle_ground_events(
    crashed: usize,
    landed: &[i32],
    body: &mut CelestialBody,
    game_end: &mut GameEnd,
    score: i32,
) -> (r: GroundEventsResult)
    ensures
        ground_events_outcome(
            FlowView {
                body: *old(body),
                end: *old(game_end),
                next: None,
                finished: Seq::<i32>::empty(),
            },
            crashed as nat,
            score,
            landed@,
        ) == (FlowView {
            body: *final(body),
            end: *final(game_end),
            next: r.next_state,
            finished: r.finished_runs@,
        }),
{
    let ghost start = FlowView {
        body: *body,
        end: *game_end,
        next: None,
        finished: Seq::<i32>::empty(),
    };
    let mut next_state: Option<AppState> = None;
    let mut finished_runs: Vec<i32> = Vec::new();
    let mut i: usize = 0;
    while i < crashed
        invariant
            i <= crashed,
            apply_crashes(start, i as nat, score) == (FlowView {
                body: *body,
                end: *game_end,
                next: next_state,
                finished: finished_runs@,
            }),
        decreases crashed - i,
    {
        *game_end = GameEnd { reason: EndReason::Crashed, score };
        finished_runs.push(score);
        next_state = Some(AppState::GameOver);
        i = i + 1;
    }
    let ghost after_crashes = apply_crashes(start, crashed as nat, score);
    let mut k: usize = 0;
    assert(landed@.take(0) =~= Seq::<i32>::empty());
    while k < landed.len()
        invariant
            k <= landed@.len(),
            apply_landings(after_crashes, landed@.take(k as int)) == (FlowView {
                body: *body,
                end: *game_end,
                next: next_state,
                finished: finished_runs@,
            }),
        decreases landed@.len() - k,
    {
        assert(landed@.take(k + 1).drop_last() =~= landed@.take(k as int));
        assert(landed@.take(k + 1).last() == landed@[k as int]);
        let total = landed[k];
        if *body == CelestialBody::Pluto {
            *game_end = GameEnd { reason: EndReason::Victory, score: total };
            finished_runs.push(total);
            next_state = Some(AppState::GameOver);
        } else {
            match body.next() {
                Some(n) => {
                    *body = n;
                },
                None => {},
            }
            next_state = Some(AppState::LandingSuccess);
        }
        k = k + 1;
    }
    assert(landed@.take(landed@.len() as int) =~= landed@);
    GroundEventsResult { next_state, finished_runs }
}

/// Restarting after a finished run: only on the game-over screen and when the restart
/// key was just pressed. The run score goes back to zero, the body to the first one, and
/// the intro screen is requested; otherwise nothing changes.
pub fn restart_run(
    state: AppState,
    restart_pressed: bool,
    score: &mut i32,
    body: &mut CelestialBody,
) -> (r: Option<AppState>)
    ensures
        state == AppState::GameOver && restart_pressed ==> {
            &&& r == Some(AppState::GetReady)
            &&& *final(score) == 0
            &&& *final(body) == CelestialBody::ORDER@[0]
        },
        !(state == AppState::GameOver && restart_pressed) ==> {
            &&& r is None
            &&& *final(score) == *old(score)
            &&& *final(body) == *old(body)
        },
{
    if state != AppState::GameOver || !restart_pressed {
        return None;
    }
    *score = 0;
    *body = CelestialBody::ORDER[0];
    Some(AppState::GetReady)
}

/// Which overlays are shown on each screen.
pub struct OverlayVisibility {
    pub hud: bool,
    pub get_ready: bool,
    pub success: bool,
    pub top_scores: bool,
}

pub fn overlay_visibility(state: AppState) -> (r: OverlayVisibility)
    ensures
        r.hud == (state == AppState::Playing),
        r.get_ready == (state == AppState::GetReady),
        r.success == (state == AppState::LandingSuccess),
        r.top_scores == (state == AppState::GetReady || state == AppState::GameOver),
{
    let playing = state == AppState::Playing;
    let get_ready = state == AppState::GetReady;
    let landing_success = state == AppState::LandingSuccess;
    let game_over = state == AppState::GameOver;
    OverlayVisibility {
        hud: playing,
        get_ready,
        success: landing_success,
        top_scores: get_ready || game_over,
    }
}

// ---------------------------------------------------------------------------
// Laws of the run.

proof fn lemma_crashes(f: FlowView, n: nat, score: i32)
    requires
        n >= 1,
    ensures
        apply_crashes(f, n, score).next == Some(AppState::GameOver),
        apply_crashes(f, n, score).end == (GameEnd { reason: EndReason::Crashed, score }),
        apply_crashes(f, n, score).body == f.body,
        apply_crashes(f, n, score).finished.last() == score,
    decreases n,
{
    if n > 1 {
        lemma_crashes(f, (n - 1) as nat, score);
    } else {
        assert(apply_crashes(f, 0, score) == f);
    }
}

/// A crash always ends the run, recording the run score as the end score; the body
/// does not change.
pub proof fn law_crash_ends_run(f: FlowView, crashes: nat, score: i32)
    requires
        crashes >= 1,
    ensures
        ground_events_outcome(f, crashes, score, Seq::<i32>::empty()).next == Some(
            AppState::GameOver,
        ),
        ground_events_outcome(f, crashes, score, Seq::<i32>::empty()).end == (GameEnd {
            reason: EndReason::Crashed,
            score,
        }),
        ground_events_outcome(f, crashes, score, Seq::<i32>::empty()).body == f.body,
        ground_events_outcome(f, crashes, score, Seq::<i32>::empty()).finished.last() == score,
{
    lemma_crashes(f, crashes, score);
    let x = apply_crashes(f, crashes, score);
    assert(apply_landings(x, Seq::<i32>::empty()) == x);
}

/// A safe landing on Pluto wins the run with the landing's total score and records it.
pub proof fn law_landing_on_pluto_wins(f: FlowView, total: i32)
    requires
        f.body == CelestialBody::Pluto,
    ensures
        ground_events_outcome(f, 0, 0, seq![total]).next == Some(AppState::GameOver),
        ground_events_outcome(f, 0, 0, seq![total]).end == (GameEnd {
            reason: EndReason::Victory,
            score: total,
        }),
        ground_events_outcome(f, 0, 0, seq![total]).finished == f.finished.push(total),
{
    assert(seq![total].drop_last() =~= Seq::<i32>::empty());
    assert(apply_crashes(f, 0, 0) == f);
    assert(apply_landings(f, Seq::<i32>::empty()) == f);
    assert(ground_events_outcome(f, 0, 0, seq![total]) == apply_landing(f, total));
}

/// A safe landing anywhere else moves the run to the next body and shows the success
/// screen; the run does not end and nothing is recorded.
pub proof fn law_landing_elsewhere_advances(f: FlowView, total: i32)
    requires
        f.body != CelestialBody::Pluto,
    ensures
        Some(ground_events_outcome(f, 0, 0, seq![total]).body) == f.body.successor(),
        ground_events_outcome(f, 0, 0, seq![total]).next == Some(AppState::LandingSuccess),
        ground_events_outcome(f, 0, 0, seq![total]).end == f.end,
        ground_events_outcome(f, 0, 0, seq![total]).finished == f.finished,
{
    assert(seq![total].drop_last() =~= Seq::<i32>::empty());
    assert(apply_crashes(f, 0, 0) == f);
    assert(apply_landings(f, Seq::<i32>::empty()) == f);
    assert(ground_events_outcome(f, 0, 0, seq![total]) == apply_landing(f, total));
}

/// Landing safely at every stage from Mercury on: the first 15 landings each lead to the
/// next stage's body with the success screen, and the 16th, on Pluto, wins the run.
pub proof fn law_full_run(f: FlowView, k: nat, total: i32)
    requires
        k < 16,
        f.body == stage(k),
    ensures
        k < 15 ==> apply_landing(f, total).body == stage(k + 1) && apply_landing(f, total).next
            == Some(AppState::LandingSuccess),
        k == 15 ==> apply_landing(f, total).next == Some(AppState::GameOver) && apply_landing(
            f,
            total,
        ).end.reason == EndReason::Victory,
{
    crate::planets::law_progression_visits_every_body_once(f.body, k, k);
}

} // verus!

//! Texts shown by the HUD and the overlays.

use vstd::prelude::*;

use crate::game_flow::{AppState, EndReason, GameEnd};
use crate::persistence::{
    format_high_score_timestamp, is_minute_stamp, keep_first, local_four_digit_year, opt_text,
    positive_only, utc_minute_stamp, HighScoreEntry, MAX_SCORES,
};
use crate::text::{int_text, nat_text, push_int, push_nat, push_text};

verus! {

broadcast use vstd::string::group_string_axioms;

/// The runs listed in the top-score bar: the first `MAX_SCORES` with a positive score.
pub open spec fn shown_scores(entries: Seq<HighScoreEntry>) -> Seq<HighScoreEntry> {
    keep_first(positive_only(entries), MAX_SCORES as nat)
}

/// One row of the bar: rank, score and, when known, the date of the run.
pub open spec fn score_row(rank: nat, e: HighScoreEntry, stamp: Option<Seq<char>>) -> Seq<char> {
    nat_text(rank) + ". "@ + int_text(e.score as int) + match stamp {
        Some(t) => "  "@ + t,
        None => Seq::<char>::empty(),
    }
}

/// The first `n` rows, one per line.
pub open spec fn score_rows(
    shown: Seq<HighScoreEntry>,
    stamps: Seq<Option<Seq<char>>>,
    n: nat,
) -> Seq<char>
    decreases n,
{
    if n == 0 {
        Seq::<char>::empty()
    } else if n == 1 {
        score_row(1, shown[0], stamps[0])
    } else {
        score_rows(shown, stamps, (n - 1) as nat) + "\n"@ + score_row(
            n,
            shown[n - 1],
            stamps[n - 1],
        )
    }
}

/// The top-score bar for a table, given the date text of each listed run.
pub open spec fn top_scores_message(
    entries: Seq<HighScoreEntry>,
    stamps: Seq<Option<Seq<char>>>,
) -> Seq<char> {
    let shown = shown_scores(entries);
    if shown.len() == 0 {
        "Top scores\n(no runs yet)"@
    } else {
        "Top scores\n"@ + score_rows(shown, stamps, shown.len())
    }
}

/// Date texts as `format_high_score_timestamp` gives them for the listed runs: none for
/// an unknown time; for a known one, a text exactly when chrono has a date for it, in the
/// shape `DDDD-DD-DD DD:DD` for times before the year 10000.
pub open spec fn stamp_fits(e: HighScoreEntry, stamp: Option<Seq<char>>) -> bool {
    &&& e.unix_secs <= 0 ==> stamp is None
    &&& e.unix_secs > 0 ==> (stamp is Some <==> utc_minute_stamp(e.unix_secs) is Some)
    &&& local_four_digit_year(e.unix_secs) ==> stamp is Some && is_minute_stamp(stamp->0)
}

pub open spec fn stamps_fit(shown: Seq<HighScoreEntry>, stamps: Seq<Option<Seq<char>>>) -> bool {
    &&& stamps.len() == shown.len()
    &&& forall|i: int| 0 <= i < shown.len() ==> stamp_fits(shown[i], #[trigger] stamps[i])
}

proof fn lemma_score_rows_prefix(
    shown: Seq<HighScoreEntry>,
    stamps: Seq<Option<Seq<char>>>,
    x: Option<Seq<char>>,
    n: nat,
)
    requires
        n <= stamps.len(),
    ensures
        score_rows(shown, stamps.push(x), n) == score_rows(shown, stamps, n),
    decreases n,
{
    if n > 1 {
        lemma_score_rows_prefix(shown, stamps, x, (n - 1) as nat);
        assert(stamps.push(x)[n - 1] == stamps[n - 1]);
    } else if n == 1 {
        assert(stamps.push(x)[0] == stamps[0]);
    }
}

proof fn lemma_score_rows_same_before(
    shown: Seq<HighScoreEntry>,
    st: Seq<Option<Seq<char>>>,
    j: int,
    t: Seq<char>,
    n: nat,
)
    requires
        0 <= j < st.len(),
        n <= j,
    ensures
        score_rows(shown, st.update(j, Some(t)), n) == score_rows(shown, st, n),
    decreases n,
{
    if n > 1 {
        lemma_score_rows_same_before(shown, st, j, t, (n - 1) as nat);
    }
}

proof fn lemma_score_rows_insert(
    shown: Seq<HighScoreEntry>,
    st: Seq<Option<Seq<char>>>,
    j: int,
    t: Seq<char>,
    n: nat,
)
    requires
        0 <= j < st.len(),
        st[j] is None,
        j < n <= st.len(),
    ensures
        ({
            let q = score_rows(shown, st, (j + 1) as nat).len();
            let r = score_rows(shown, st, n);
            &&& q <= r.len()
            &&& score_rows(shown, st.update(j, Some(t)), n) == r.take(q as int) + "  "@ + t
                + r.skip(q as int)
        }),
    decreases n,
{
    let st2 = st.update(j, Some(t));
    let q = score_rows(shown, st, (j + 1) as nat).len();
    if n == j + 1 {
        lemma_score_rows_same_before(shown, st, j, t, j as nat);
        let r = score_rows(shown, st, n);
        assert(r.take(q as int) =~= r);
        assert(r.skip(q as int) =~= Seq::<char>::empty());
        assert(score_rows(shown, st2, n) =~= r + "  "@ + t);
    } else {
        lemma_score_rows_insert(shown, st, j, t, (n - 1) as nat);
        let p = score_rows(shown, st, (n - 1) as nat);
        let r = score_rows(shown, st, n);
        let row = score_row(n, shown[n - 1], st[n - 1]);
        assert(st2[n - 1] == st[n - 1]);
        assert(r == p + "\n"@ + row);
        assert(r.take(q as int) =~= p.take(q as int));
        assert(r.skip(q as int) =~= p.skip(q as int) + "\n"@ + row);
        assert(score_rows(shown, st2, n) =~= r.take(q as int) + "  "@ + t + r.skip(q as int));
    }
}

/// Each row of the bar carries the date text of its own run: giving the run listed `j`-th
/// (counting from 0) a date text `t`, where it had none, inserts `"  "` and `t` exactly at
/// the end of row `j + 1`, and changes nothing else.
pub proof fn law_each_row_shows_its_own_date(
    entries: Seq<HighScoreEntry>,
    stamps: Seq<Option<Seq<char>>>,
    j: int,
    t: Seq<char>,
)
    requires
        stamps.len() == shown_scores(entries).len(),
        0 <= j < stamps.len(),
        stamps[j] is None,
    ensures
        ({
            let m = top_scores_message(entries, stamps);
            let p = "Top scores\n"@.len() + score_rows(
                shown_scores(entries),
                stamps,
                (j + 1) as nat,
            ).len();
            &&& p <= m.len()
            &&& top_scores_message(entries, stamps.update(j, Some(t))) == m.take(p as int) + "  "@
                + t + m.skip(p as int)
        }),
{
    let shown = shown_scores(entries);
    lemma_score_rows_insert(shown, stamps, j, t, shown.len());
    let h = "Top scores\n"@;
    let r = score_rows(shown, stamps, shown.len());
    let q = score_rows(shown, stamps, (j + 1) as nat).len();
    let m = h + r;
    assert(m.take((h.len() + q) as int) =~= h + r.take(q as int));
    assert(m.skip((h.len() + q) as int) =~= r.skip(q as int));
    assert(top_scores_message(entries, stamps.update(j, Some(t))) =~= m.take((h.len() + q) as int) + "  "@
        + t + m.skip((h.len() + q) as int));
}

/// The top-score bar text.
pub fn top_scores_text(entries: &[HighScoreEntry]) -> (r: String)
    ensures
        exists|stamps: Seq<Option<Seq<char>>>|
            stamps_fit(shown_scores(entries@), stamps) && r@ == top_scores_message(
                entries@,
                stamps,
            ),
{
    let mut shown: Vec<HighScoreEntry> = Vec::new();
    let mut i: usize = 0;
    assert(entries@.take(0) =~= Seq::<HighScoreEntry>::empty());
    while i < entries.len()
        invariant
            i <= entries@.len(),
            shown@ == positive_only(entries@.take(i as int)),
        decreases entries@.len() - i,
    {
        assert(entries@.take(i + 1).drop_last() =~= entries@.take(i as int));
        assert(entries@.take(i + 1).last() == entries@[i as int]);
        let e = &entries[i];
        if e.score > 0 {
            shown.push(HighScoreEntry { score: e.score, unix_secs: e.unix_secs });
        }
        i = i + 1;
    }
    assert(entries@.take(entries@.len() as int) =~= entries@);
    shown.truncate(MAX_SCORES);
    let ghost listed = shown_scores(entries@);
    assert(shown@ == listed);
    let mut s = String::new();
    if shown.len() == 0 {
        push_text(&mut s, "Top scores\n(no runs yet)");
        assert(s@ =~= top_scores_message(entries@, Seq::<Option<Seq<char>>>::empty()));
        assert(stamps_fit(listed, Seq::<Option<Seq<char>>>::empty()));
        return s;
    }
    push_text(&mut s, "Top scores\n");
    let ghost mut stamps: Seq<Option<Seq<char>>> = Seq::empty();
    let mut k: usize = 0;
    while k < shown.len()
        invariant
            k <= shown@.len() <= MAX_SCORES,
            shown@ == listed,
            stamps.len() == k,
            forall|j: int| 0 <= j < k ==> stamp_fits(listed[j], #[trigger] stamps[j]),
            s@ == "Top scores\n"@ + score_rows(listed, stamps, k as nat),
        decreases shown@.len() - k,
    {
        let ghost before = s@;
        let e = &shown[k];
        let mut row = String::new();
        push_nat(&mut row, (k + 1) as u64);
        push_text(&mut row, ". ");
        push_int(&mut row, e.score as i64);
        let st = format_high_score_timestamp(e.unix_secs);
        match &st {
            Some(t) => {
                push_text(&mut row, "  ");
                push_text(&mut row, t.as_str());
            },
            None => {},
        }
        let ghost x = opt_text(st);
        assert(row@ =~= score_row((k + 1) as nat, listed[k as int], x));
        if k > 0 {
            push_text(&mut s, "\n");
        }
        push_text(&mut s, row.as_str());
        proof {
            lemma_score_rows_prefix(listed, stamps, x, k as nat);
            stamps = stamps.push(x);
            if k == 0 {
                assert(s@ =~= "Top scores\n"@ + score_rows(listed, stamps, (k + 1) as nat));
            } else {
                assert(s@ =~= "Top scores\n"@ + score_rows(listed, stamps, (k + 1) as nat));
            }
        }
        k = k + 1;
    }
    assert(stamps_fit(listed, stamps));
    assert(s@ == top_scores_message(entries@, stamps));
    s
}

/// The game-over overlay for a finished run.
pub open spec fn game_over_message(end: GameEnd) -> Seq<char> {
    match end.reason {
        EndReason::Crashed => "Game Over\nScore: "@ + int_text(end.score as int)
            + "\nPress R to restart"@,
        EndReason::Victory => "Solar system complete!\nFinal score: "@ + int_text(
            end.score as int,
        ) + "\nPress R to restart"@,
    }
}

/// The game-over overlay text: shown (`Some`) only on the game-over screen.
pub fn game_over_text(state: AppState, end: &GameEnd) -> (r: Option<String>)
    ensures
        state == AppState::GameOver ==> (r matches Some(t) && t@ == game_over_message(*end)),
        state != AppState::GameOver ==> r is None,
{
    if state != AppState::GameOver {
        return None;
    }
    let mut s = String::new();
    match end.reason {
        EndReason::Crashed => push_text(&mut s, "Game Over\nScore: "),
        EndReason::Victory => push_text(&mut s, "Solar system complete!\nFinal score: "),
    }
    push_int(&mut s, end.score as i64);
    push_text(&mut s, "\nPress R to restart");
    assert(s@ =~= game_over_message(*end));
    Some(s)
}

/// The HUD line with the run's score so far.
pub fn run_score_text(score: i32) -> (r: String)
    ensures
        r@ == "Score: "@ + int_text(score as int),
{
    let mut s = String::new();
    push_text(&mut s, "Score: ");
    push_int(&mut s, score as i64);
    assert(s@ =~= "Score: "@ + int_text(score as int));
    s
}

} // verus!

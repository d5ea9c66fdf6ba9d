//! Top scores: ordering, the saved text format, loading it back, merging a finished run.

use vstd::prelude::*;

use chrono::TimeZone;

use crate::text::{
    has_no, int_text, is_digit, is_number_char, is_white_space, lemma_int_text,
    lemma_number_char_is_plain, lemma_split_append_plain, lemma_split_nonempty,
    lemma_split_plain, lemma_split_push_sep, lemma_trim_one_trailing, lemma_trim_plain,
    parse_i32_range, parse_i32_text, parse_i64_range, parse_i64_text, push_int, push_text,
    split_on, split_ranges, str_chars, trim, trim_bounds,
};

verus! {

broadcast use vstd::string::group_string_axioms;

/// How many runs the table keeps.
pub const MAX_SCORES: usize = 5;

/// One finished run in the top-score table.
#[derive(Clone, Debug, PartialEq, Eq, Structural)]
pub struct HighScoreEntry {
    pub score: i32,
    /// Unix timestamp (seconds) when the run ended; `0` = unknown (legacy saves).
    pub unix_secs: i64,
}

/// The entries with a positive score, in their order.
pub open spec fn positive_only(s: Seq<HighScoreEntry>) -> Seq<HighScoreEntry>
    decreases s.len(),
{
    if s.len() == 0 {
        s
    } else {
        let p = positive_only(s.drop_last());
        if s.last().score > 0 {
            p.push(s.last())
        } else {
            p
        }
    }
}

/// Inserts `e` into a table ordered by descending score, after every entry whose score
/// is at least `e.score` (so equal scores keep their arrival order).
pub open spec fn insert_by_score(sorted: Seq<HighScoreEntry>, e: HighScoreEntry) -> Seq<
    HighScoreEntry,
>
    decreases sorted.len(),
{
    if sorted.len() == 0 {
        seq![e]
    } else if sorted.last().score >= e.score {
        sorted.push(e)
    } else {
        insert_by_score(sorted.drop_last(), e).push(sorted.last())
    }
}

/// Stable sort by descending score.
pub open spec fn sort_by_score_desc(s: Seq<HighScoreEntry>) -> Seq<HighScoreEntry>
    decreases s.len(),
{
    if s.len() == 0 {
        s
    } else {
        insert_by_score(sort_by_score_desc(s.drop_last()), s.last())
    }
}

/// The first `n` elements, or all of them when there are fewer.
pub open spec fn keep_first(s: Seq<HighScoreEntry>, n: nat) -> Seq<HighScoreEntry> {
    if s.len() <= n {
        s
    } else {
        s.take(n as int)
    }
}

/// The table kept of a list of runs: positive scores only, best first (ties in arrival
/// order), at most `MAX_SCORES` of them.
pub open spec fn normalized(s: Seq<HighScoreEntry>) -> Seq<HighScoreEntry> {
    keep_first(sort_by_score_desc(positive_only(s)), MAX_SCORES as nat)
}

pub open spec fn is_sorted_desc(s: Seq<HighScoreEntry>) -> bool {
    forall|i: int, j: int| 0 <= i < j < s.len() ==> s[i].score >= s[j].score
}

pub open spec fn all_positive(s: Seq<HighScoreEntry>) -> bool {
    forall|i: int| 0 <= i < s.len() ==> s[i].score > 0
}

proof fn lemma_insert_by_score_is_insert(s: Seq<HighScoreEntry>, e: HighScoreEntry, j: int)
    requires
        0 <= j <= s.len(),
        j == 0 || s[j - 1].score >= e.score,
        forall|k: int| j <= k < s.len() ==> s[k].score < e.score,
    ensures
        insert_by_score(s, e) == s.insert(j, e),
    decreases s.len() - j,
{
    if j == s.len() {
        if s.len() == 0 {
            assert(s.insert(j, e) =~= seq![e]);
        } else {
            assert(s.insert(j, e) =~= s.push(e));
        }
    } else {
        let t = s.drop_last();
        lemma_insert_by_score_is_insert(t, e, j);
        assert(s.insert(j, e) =~= t.insert(j, e).push(s.last()));
    }
}

/// Inserts `e` into `sorted` as `insert_by_score` does.
fn insert_sorted(sorted: &mut Vec<HighScoreEntry>, e: HighScoreEntry)
    ensures
        final(sorted)@ == insert_by_score(old(sorted)@, e),
{
    let mut j = sorted.len();
    while j > 0 && sorted[j - 1].score < e.score
        invariant
            j <= sorted@.len(),
            sorted@ == old(sorted)@,
            forall|k: int| j <= k < sorted@.len() ==> sorted@[k].score < e.score,
        decreases j,
    {
        j = j - 1;
    }
    proof {
        lemma_insert_by_score_is_insert(sorted@, e, j as int);
    }
    sorted.insert(j, e);
}

/// The table kept of `v` (see `normalized`).
pub fn normalize(v: Vec<HighScoreEntry>) -> (r: Vec<HighScoreEntry>)
    ensures
        r@ == normalized(v@),
{
    let mut sorted: Vec<HighScoreEntry> = Vec::new();
    let mut i: usize = 0;
    assert(v@.take(0) =~= Seq::<HighScoreEntry>::empty());
    while i < v.len()
        invariant
            i <= v@.len(),
            sorted@ == sort_by_score_desc(positive_only(v@.take(i as int))),
        decreases v@.len() - i,
    {
        let ghost before = v@.take(i as int);
        assert(v@.take(i + 1).drop_last() =~= before);
        assert(v@.take(i + 1).last() == v@[i as int]);
        let e = &v[i];
        if e.score > 0 {
            let ghost p = positive_only(before);
            assert(p.push(v@[i as int]).drop_last() =~= p);
            insert_sorted(&mut sorted, HighScoreEntry { score: e.score, unix_secs: e.unix_secs });
        }
        i = i + 1;
    }
    assert(v@.take(v@.len() as int) =~= v@);
    sorted.truncate(MAX_SCORES);
    sorted
}

// ---------------------------------------------------------------------------
// Properties of the table ordering.

proof fn lemma_positive_only_props(s: Seq<HighScoreEntry>)
    ensures
        all_positive(positive_only(s)),
        positive_only(s).len() <= s.len(),
        all_positive(s) ==> positive_only(s) == s,
        positive_only(s).to_multiset() == s.to_multiset().filter(|e: HighScoreEntry| e.score > 0),
    decreases s.len(),
{
    broadcast use vstd::seq_lib::group_to_multiset_ensures;
    broadcast use vstd::multiset::group_multiset_axioms;

    if s.len() == 0 {
        assert(s.to_multiset().filter(|e: HighScoreEntry| e.score > 0) =~= s.to_multiset());
    } else {
        let t = s.drop_last();
        lemma_positive_only_props(t);
        assert(s =~= t.push(s.last()));
        if all_positive(s) {
            assert(all_positive(t));
        }
        let f = |e: HighScoreEntry| e.score > 0;
        assert(s.to_multiset() =~= t.to_multiset().insert(s.last()));
        if f(s.last()) {
            assert(t.to_multiset().insert(s.last()).filter(f) =~= t.to_multiset().filter(f).insert(
                s.last(),
            ));
        } else {
            assert(t.to_multiset().insert(s.last()).filter(f) =~= t.to_multiset().filter(f));
        }
    }
}

proof fn lemma_insert_props(s: Seq<HighScoreEntry>, e: HighScoreEntry)
    ensures
        insert_by_score(s, e).len() == s.len() + 1,
        insert_by_score(s, e).to_multiset() == s.to_multiset().insert(e),
        is_sorted_desc(s) ==> is_sorted_desc(insert_by_score(s, e)),
        all_positive(s) && e.score > 0 ==> all_positive(insert_by_score(s, e)),
        forall|k: int|
            0 <= k < insert_by_score(s, e).len() ==> (#[trigger] insert_by_score(s, e)[k] == e
                || s.contains(insert_by_score(s, e)[k])),
    decreases s.len(),
{
    broadcast use vstd::seq_lib::group_to_multiset_ensures;
    broadcast use vstd::multiset::group_multiset_axioms;

    if s.len() == 0 {
        assert(seq![e] =~= Seq::<HighScoreEntry>::empty().push(e));
    } else if s.last().score >= e.score {
    } else {
        let t = s.drop_last();
        lemma_insert_props(t, e);
        let it = insert_by_score(t, e);
        assert(s =~= t.push(s.last()));
        assert(it.push(s.last()).to_multiset() =~= s.to_multiset().insert(e));
        if is_sorted_desc(s) {
            assert(is_sorted_desc(t));
            assert forall|i: int, j: int|
                0 <= i < j < it.len() + 1 implies it.push(s.last())[i].score >= it.push(
                s.last(),
            )[j].score by {
                if j == it.len() {
                    let x = it[i];
                    if x == e {
                    } else {
                        assert(t.contains(x));
                        let k = choose|k: int| 0 <= k < t.len() && t[k] == x;
                        assert(s[k] == x);
                    }
                }
            }
        }
        if all_positive(s) && e.score > 0 {
            assert(all_positive(t));
            assert forall|i: int| 0 <= i < it.len() + 1 implies it.push(s.last())[i].score
                > 0 by {
                if i < it.len() {
                    let x = it[i];
                    if x != e {
                        assert(t.contains(x));
                        let k = choose|k: int| 0 <= k < t.len() && t[k] == x;
                        assert(s[k] == x);
                    }
                }
            }
        }
        assert forall|k: int|
            0 <= k < it.len() + 1 implies #[trigger] it.push(s.last())[k] == e || s.contains(
            it.push(s.last())[k],
        ) by {
            if k < it.len() {
                if it[k] != e {
                    assert(t.contains(it[k]));
                    let m = choose|m: int| 0 <= m < t.len() && t[m] == it[k];
                    assert(s[m] == it[k]);
                }
            } else {
                assert(s[s.len() - 1] == s.last());
            }
        }
    }
}

proof fn lemma_sort_props(s: Seq<HighScoreEntry>)
    ensures
        sort_by_score_desc(s).len() == s.len(),
        sort_by_score_desc(s).to_multiset() == s.to_multiset(),
        is_sorted_desc(sort_by_score_desc(s)),
        all_positive(s) ==> all_positive(sort_by_score_desc(s)),
        is_sorted_desc(s) ==> sort_by_score_desc(s) == s,
    decreases s.len(),
{
    broadcast use vstd::seq_lib::group_to_multiset_ensures;

    if s.len() > 0 {
        let t = s.drop_last();
        lemma_sort_props(t);
        lemma_insert_props(sort_by_score_desc(t), s.last());
        assert(s =~= t.push(s.last()));
        if all_positive(s) {
            assert(all_positive(t));
        }
        if is_sorted_desc(s) {
            assert(is_sorted_desc(t));
            if t.len() > 0 {
                assert(t.last() == s[s.len() - 2]);
            }
        }
    }
}

proof fn lemma_keep_first_props(s: Seq<HighScoreEntry>, n: nat)
    ensures
        keep_first(s, n).len() <= n,
        keep_first(s, n).len() <= s.len(),
        is_sorted_desc(s) ==> is_sorted_desc(keep_first(s, n)),
        all_positive(s) ==> all_positive(keep_first(s, n)),
        forall|i: int| 0 <= i < keep_first(s, n).len() ==> keep_first(s, n)[i] == s[i],
        s.len() <= n ==> keep_first(s, n) == s,
{
}

/// The kept table is ordered best first, holds only positive scores and at most
/// `MAX_SCORES` entries, and is the best part of the positive runs: it is a prefix of
/// their stable descending sort, which is a permutation of them.
pub proof fn law_normalized_shape(s: Seq<HighScoreEntry>)
    ensures
        is_sorted_desc(normalized(s)),
        all_positive(normalized(s)),
        normalized(s).len() <= MAX_SCORES,
        normalized(s).len() == if positive_only(s).len() <= MAX_SCORES {
            positive_only(s).len()
        } else {
            MAX_SCORES as nat
        },
        sort_by_score_desc(positive_only(s)).to_multiset() == s.to_multiset().filter(
            |e: HighScoreEntry| e.score > 0,
        ),
        forall|i: int|
            0 <= i < normalized(s).len() ==> normalized(s)[i] == sort_by_score_desc(
                positive_only(s),
            )[i],
        forall|i: int, j: int|
            0 <= i < normalized(s).len() <= j < sort_by_score_desc(positive_only(s)).len()
                ==> normalized(s)[i].score >= sort_by_score_desc(positive_only(s))[j].score,
{
    lemma_positive_only_props(s);
    lemma_sort_props(positive_only(s));
    lemma_keep_first_props(sort_by_score_desc(positive_only(s)), MAX_SCORES as nat);
}

/// Normalizing a kept table changes nothing.
pub proof fn law_normalized_idempotent(s: Seq<HighScoreEntry>)
    ensures
        normalized(normalized(s)) == normalized(s),
{
    law_normalized_shape(s);
    let n = normalized(s);
    lemma_positive_only_props(n);
    lemma_sort_props(n);
}

// ---------------------------------------------------------------------------
// The saved text: a `v2` header line, then one `score,unix_secs` line per run.

/// One saved run: `score,unix_secs`.
pub open spec fn entry_line(e: HighScoreEntry) -> Seq<char> {
    int_text(e.score as int) + seq![','] + int_text(e.unix_secs as int)
}

/// The lines of the runs with a positive score, each ended by a newline.
pub open spec fn entry_lines(s: Seq<HighScoreEntry>) -> Seq<char>
    decreases s.len(),
{
    if s.len() == 0 {
        Seq::<char>::empty()
    } else {
        let p = entry_lines(s.drop_last());
        if s.last().score > 0 {
            p + entry_line(s.last()) + seq!['\n']
        } else {
            p
        }
    }
}

pub open spec fn header_line() -> Seq<char> {
    seq!['v', '2', '\n']
}

/// The text written for a list of runs.
pub open spec fn serialized(s: Seq<HighScoreEntry>) -> Seq<char> {
    header_line() + entry_lines(s)
}

/// A saved line read back: trimmed, split at commas, the first two fields trimmed and
/// read as score and timestamp; only positive scores are taken.
pub open spec fn parse_entry_line(line: Seq<char>) -> Option<HighScoreEntry> {
    let parts = split_on(trim(line), ',');
    if parts.len() < 2 {
        None
    } else {
        match (parse_i32_text(trim(parts[0])), parse_i64_text(trim(parts[1]))) {
            (Some(score), Some(unix_secs)) => if score > 0 {
                Some(HighScoreEntry { score, unix_secs })
            } else {
                None
            },
            _ => None,
        }
    }
}

/// The runs read from a list of lines, in order.
pub open spec fn entries_of_lines(lines: Seq<Seq<char>>) -> Seq<HighScoreEntry>
    decreases lines.len(),
{
    if lines.len() == 0 {
        Seq::<HighScoreEntry>::empty()
    } else {
        let p = entries_of_lines(lines.drop_last());
        match parse_entry_line(lines.last()) {
            Some(e) => p.push(e),
            None => p,
        }
    }
}

/// The runs of the older format: comma-separated positive scores, no timestamps.
pub open spec fn legacy_entries(parts: Seq<Seq<char>>) -> Seq<HighScoreEntry>
    decreases parts.len(),
{
    if parts.len() == 0 {
        Seq::<HighScoreEntry>::empty()
    } else {
        let p = legacy_entries(parts.drop_last());
        match parse_i32_text(trim(parts.last())) {
            Some(n) => if n > 0 {
                p.push(HighScoreEntry { score: n, unix_secs: 0 })
            } else {
                p
            },
            None => p,
        }
    }
}

pub open spec fn starts_with_v2(t: Seq<char>) -> bool {
    t.len() >= 2 && t[0] == 'v' && t[1] == '2'
}

/// The table read from a saved text.
pub open spec fn deserialized(raw: Seq<char>) -> Seq<HighScoreEntry> {
    let t = trim(raw);
    if t.len() == 0 {
        Seq::<HighScoreEntry>::empty()
    } else if starts_with_v2(t) {
        normalized(entries_of_lines(split_on(t, '\n').drop_first()))
    } else {
        normalized(legacy_entries(split_on(t, ',')))
    }
}

/// The text that saving a list of runs writes.
pub open spec fn saved_text(s: Seq<HighScoreEntry>) -> Seq<char> {
    serialized(normalized(s))
}

/// Writes the runs with a positive score in the saved format.
pub fn serialize(entries: &[HighScoreEntry]) -> (r: String)
    ensures
        r@ == serialized(entries@),
{
    proof {
        reveal_strlit("v2\n");
        reveal_strlit(",");
        reveal_strlit("\n");
    }
    let mut s = String::new();
    push_text(&mut s, "v2\n");
    let mut i: usize = 0;
    assert(entries@.take(0) =~= Seq::<HighScoreEntry>::empty());
    assert(s@ =~= serialized(entries@.take(0)));
    while i < entries.len()
        invariant
            i <= entries@.len(),
            s@ == serialized(entries@.take(i as int)),
        decreases entries@.len() - i,
    {
        let ghost before = entries@.take(i as int);
        assert(entries@.take(i + 1).drop_last() =~= before);
        assert(entries@.take(i + 1).last() == entries@[i as int]);
        let e = &entries[i];
        if e.score > 0 {
            let ghost s0 = s@;
            assert(entry_lines(entries@.take(i + 1)) == entry_lines(before) + entry_line(*e)
                + seq!['\n']);
            push_int(&mut s, e.score as i64);
            push_text(&mut s, ",");
            push_int(&mut s, e.unix_secs);
            push_text(&mut s, "\n");
            proof {
                reveal_strlit(",");
                reveal_strlit("\n");
            }
            assert(","@ =~= seq![',']);
            assert("\n"@ =~= seq!['\n']);
            assert(s@ =~= s0 + entry_line(*e) + seq!['\n']);
            assert(s@ =~= serialized(entries@.take(i + 1)));
        }
        i = i + 1;
    }
    assert(entries@.take(entries@.len() as int) =~= entries@);
    s
}

/// Reads one saved line `s[lo..hi]`.
fn parse_entry_range(s: &[char], lo: usize, hi: usize) -> (r: Option<HighScoreEntry>)
    requires
        lo <= hi <= s@.len(),
    ensures
        r == parse_entry_line(s@.subrange(lo as int, hi as int)),
{
    let (a, b) = trim_bounds(s, lo, hi);
    let parts = split_ranges(s, a, b, ',');
    if parts.len() < 2 {
        return None;
    }
    let (a0, b0) = trim_bounds(s, parts[0].0, parts[0].1);
    let (a1, b1) = trim_bounds(s, parts[1].0, parts[1].1);
    let score = parse_i32_range(s, a0, b0);
    let unix_secs = parse_i64_range(s, a1, b1);
    match (score, unix_secs) {
        (Some(score), Some(unix_secs)) => if score > 0 {
            Some(HighScoreEntry { score, unix_secs })
        } else {
            None
        },
        _ => None,
    }
}

/// Reads a saved text back into a table (see `deserialized`).
pub fn deserialize(raw: &str) -> (r: Vec<HighScoreEntry>)
    ensures
        r@ == deserialized(raw@),
{
    let chars = str_chars(raw);
    let (a, b) = trim_bounds(&chars, 0, chars.len());
    assert(chars@.subrange(0, chars@.len() as int) =~= raw@);
    let ghost t = chars@.subrange(a as int, b as int);
    if a == b {
        return Vec::new();
    }
    if b - a >= 2 && chars[a] == 'v' && chars[a + 1] == '2' {
        let lines = split_ranges(&chars, a, b, '\n');
        proof {
            lemma_split_nonempty(t, '\n');
        }
        let ghost all = split_on(t, '\n');
        let ghost rest = all.drop_first();
        let mut out: Vec<HighScoreEntry> = Vec::new();
        let mut k: usize = 1;
        assert(rest.take(0) =~= Seq::<Seq<char>>::empty());
        while k < lines.len()
            invariant
                1 <= k <= lines@.len(),
                lines@.len() == all.len(),
                rest == all.drop_first(),
                forall|j: int|
                    0 <= j < lines@.len() ==> {
                        &&& a <= (#[trigger] lines@[j]).0 <= lines@[j].1 <= b
                        &&& chars@.subrange(lines@[j].0 as int, lines@[j].1 as int) == all[j]
                    },
                b <= chars@.len(),
                out@ == entries_of_lines(rest.take(k - 1)),
            decreases lines@.len() - k,
        {
            let (lo, hi) = lines[k];
            let ghost before = rest.take(k - 1);
            assert(rest.take(k as int).drop_last() =~= before);
            assert(rest.take(k as int).last() == all[k as int]);
            match parse_entry_range(&chars, lo, hi) {
                Some(e) => out.push(e),
                None => {},
            }
            k = k + 1;
        }
        assert(rest.take(lines@.len() - 1) =~= rest);
        return normalize(out);
    }
    let parts = split_ranges(&chars, a, b, ',');
    let ghost all = split_on(t, ',');
    let mut out: Vec<HighScoreEntry> = Vec::new();
    let mut k: usize = 0;
    assert(all.take(0) =~= Seq::<Seq<char>>::empty());
    while k < parts.len()
        invariant
            k <= parts@.len(),
            parts@.len() == all.len(),
            forall|j: int|
                0 <= j < parts@.len() ==> {
                    &&& a <= (#[trigger] parts@[j]).0 <= parts@[j].1 <= b
                    &&& chars@.subrange(parts@[j].0 as int, parts@[j].1 as int) == all[j]
                },
            b <= chars@.len(),
            out@ == legacy_entries(all.take(k as int)),
        decreases parts@.len() - k,
    {
        let (lo, hi) = parts[k];
        assert(all.take(k + 1).drop_last() =~= all.take(k as int));
        assert(all.take(k + 1).last() == all[k as int]);
        let (x, y) = trim_bounds(&chars, lo, hi);
        match parse_i32_range(&chars, x, y) {
            Some(n) => if n > 0 {
                out.push(HighScoreEntry { score: n, unix_secs: 0 });
            },
            None => {},
        }
        k = k + 1;
    }
    assert(all.take(parts@.len() as int) =~= all);
    normalize(out)
}

// ---------------------------------------------------------------------------
// Reading back what was written.

proof fn lemma_int_text_plain(i: int)
    ensures
        int_text(i).len() >= 1,
        has_no(int_text(i), ','),
        has_no(int_text(i), '\n'),
        !is_white_space(int_text(i)[0]),
        !is_white_space(int_text(i).last()),
        is_digit(int_text(i).last()),
        trim(int_text(i)) == int_text(i),
{
    lemma_int_text(i);
    let t = int_text(i);
    assert forall|k: int| 0 <= k < t.len() implies t[k] != ',' && t[k] != '\n' by {
        lemma_number_char_is_plain(t[k]);
    }
    lemma_number_char_is_plain(t[0]);
    lemma_number_char_is_plain(t[t.len() - 1]);
    lemma_trim_plain(t);
}

proof fn lemma_entry_line(e: HighScoreEntry)
    ensures
        entry_line(e).len() >= 1,
        has_no(entry_line(e), '\n'),
        !is_white_space(entry_line(e)[0]),
        is_digit(entry_line(e).last()),
        e.score > 0 ==> parse_entry_line(entry_line(e)) == Some(e),
{
    let a = int_text(e.score as int);
    let b = int_text(e.unix_secs as int);
    lemma_int_text_plain(e.score as int);
    lemma_int_text_plain(e.unix_secs as int);
    let li = entry_line(e);
    assert(li =~= a.push(',') + b);
    assert(li[0] == a[0]);
    assert(li.last() == b.last());
    assert forall|k: int| 0 <= k < li.len() implies li[k] != '\n' by {
        if k < a.len() {
            assert(li[k] == a[k]);
        } else if k > a.len() {
            assert(li[k] == b[k - a.len() - 1]);
        }
    }
    lemma_int_text(e.score as int);
    assert(is_number_char(a[0]));
    lemma_number_char_is_plain(li[0]);
    assert(!is_white_space(li.last()));
    lemma_trim_plain(li);
    lemma_split_plain(a, ',');
    lemma_split_push_sep(a, ',');
    lemma_split_append_plain(a.push(','), b, ',');
    let parts = split_on(li, ',');
    assert(Seq::<char>::empty() + b =~= b);
    assert(parts =~= seq![a, b]);
    lemma_int_text(e.score as int);
    lemma_int_text(e.unix_secs as int);
}

pub open spec fn lines_of(s: Seq<HighScoreEntry>) -> Seq<Seq<char>> {
    s.map_values(|e: HighScoreEntry| entry_line(e))
}

proof fn lemma_split_line_step(x: Seq<char>, li: Seq<char>)
    requires
        split_on(x, '\n').len() >= 1,
        split_on(x, '\n').last() == Seq::<char>::empty(),
        has_no(li, '\n'),
    ensures
        split_on((x + li).push('\n'), '\n') == split_on(x, '\n').update(
            split_on(x, '\n').len() - 1,
            li,
        ).push(Seq::<char>::empty()),
{
    lemma_split_append_plain(x, li, '\n');
    lemma_split_push_sep(x + li, '\n');
    assert(Seq::<char>::empty() + li =~= li);
}

proof fn lemma_serialized_push(t: Seq<HighScoreEntry>, e: HighScoreEntry)
    requires
        e.score > 0,
    ensures
        serialized(t.push(e)) == (serialized(t) + entry_line(e)).push('\n'),
{
    assert(t.push(e).drop_last() =~= t);
    assert(serialized(t.push(e)) =~= (serialized(t) + entry_line(e)).push('\n'));
}

proof fn lemma_split_serialized(s: Seq<HighScoreEntry>)
    requires
        all_positive(s),
    ensures
        split_on(serialized(s), '\n') == seq![seq!['v', '2']] + lines_of(s) + seq![
            Seq::<char>::empty(),
        ],
        serialized(s).len() >= 3,
        serialized(s)[0] == 'v',
        serialized(s)[1] == '2',
        serialized(s).last() == '\n',
        !is_white_space(serialized(s).drop_last().last()),
    decreases s.len(),
{
    let v2 = seq!['v', '2'];
    if s.len() == 0 {
        assert(has_no(v2, '\n'));
        lemma_split_plain(v2, '\n');
        lemma_split_push_sep(v2, '\n');
        assert(serialized(s) =~= v2.push('\n'));
        assert(lines_of(s) =~= Seq::<Seq<char>>::empty());
        assert(split_on(serialized(s), '\n') =~= seq![v2] + lines_of(s) + seq![
            Seq::<char>::empty(),
        ]);
        assert(serialized(s).drop_last() =~= v2);
    } else {
        let t = s.drop_last();
        let e = s.last();
        assert(all_positive(t));
        assert(e.score > 0);
        assert(s =~= t.push(e));
        lemma_split_serialized(t);
        lemma_entry_line(e);
        let x = serialized(t);
        let li = entry_line(e);
        lemma_serialized_push(t, e);
        lemma_split_line_step(x, li);
        let p = split_on(x, '\n');
        assert(lines_of(s) =~= lines_of(t).push(li));
        assert(p.update(p.len() - 1, li) =~= seq![v2] + lines_of(s));
        assert(serialized(s)[0] == x[0]);
        assert(serialized(s)[1] == x[1]);
        assert(serialized(s).drop_last() =~= x + li);
        assert((x + li).last() == li.last());
    }
}

proof fn lemma_entries_of_lines(s: Seq<HighScoreEntry>)
    requires
        all_positive(s),
    ensures
        entries_of_lines(lines_of(s)) == s,
    decreases s.len(),
{
    if s.len() > 0 {
        let t = s.drop_last();
        assert(all_positive(t));
        lemma_entries_of_lines(t);
        lemma_entry_line(s.last());
        assert(lines_of(s).drop_last() =~= lines_of(t));
        assert(lines_of(s).last() == entry_line(s.last()));
        assert(s =~= t.push(s.last()));
    } else {
        assert(lines_of(s) =~= Seq::<Seq<char>>::empty());
    }
}

proof fn lemma_entry_lines_positive_only(s: Seq<HighScoreEntry>)
    ensures
        entry_lines(s) == entry_lines(positive_only(s)),
    decreases s.len(),
{
    if s.len() > 0 {
        let t = s.drop_last();
        let x = s.last();
        lemma_entry_lines_positive_only(t);
        let p = positive_only(t);
        if x.score > 0 {
            assert(p.push(x).drop_last() =~= p);
            assert(p.push(x).last() == x);
        }
    }
}

/// Reading back the text written for any list of runs gives the table kept of them.
pub proof fn law_serialized_reads_back(s: Seq<HighScoreEntry>)
    ensures
        deserialized(serialized(s)) == normalized(s),
{
    let p = positive_only(s);
    lemma_positive_only_props(s);
    lemma_positive_only_props(p);
    lemma_entry_lines_positive_only(s);
    assert(serialized(s) == serialized(p));
    lemma_split_serialized(p);
    let text = serialized(p);
    let t = text.drop_last();
    assert(text =~= t.push('\n'));
    assert(t[0] == 'v');
    lemma_trim_one_trailing(t, '\n');
    lemma_split_push_sep(t, '\n');
    let all = split_on(t, '\n');
    assert(all =~= split_on(text, '\n').drop_last());
    assert(all.drop_first() =~= lines_of(p));
    lemma_entries_of_lines(p);
    assert(normalized(p) == normalized(s));
}

/// Reading back the text that saving a list of runs writes gives the table that was
/// kept of them.
pub proof fn law_saved_text_loads_back(s: Seq<HighScoreEntry>)
    ensures
        deserialized(saved_text(s)) == normalized(s),
{
    law_serialized_reads_back(normalized(s));
    law_normalized_idempotent(s);
}

/// Scores written in the older save format: decimal numbers joined by commas.
pub open spec fn legacy_text(ns: Seq<i32>) -> Seq<char>
    decreases ns.len(),
{
    if ns.len() == 0 {
        Seq::<char>::empty()
    } else if ns.len() == 1 {
        int_text(ns[0] as int)
    } else {
        legacy_text(ns.drop_last()) + seq![','] + int_text(ns.last() as int)
    }
}

/// Runs with the given scores and no known time.
pub open spec fn unstamped(ns: Seq<i32>) -> Seq<HighScoreEntry> {
    ns.map_values(|n: i32| HighScoreEntry { score: n, unix_secs: 0 })
}

pub open spec fn score_texts(ns: Seq<i32>) -> Seq<Seq<char>> {
    ns.map_values(|n: i32| int_text(n as int))
}

proof fn lemma_legacy_text_split(ns: Seq<i32>)
    requires
        ns.len() >= 1,
    ensures
        split_on(legacy_text(ns), ',') == score_texts(ns),
        legacy_text(ns).len() >= 1,
        is_number_char(legacy_text(ns)[0]),
        is_digit(legacy_text(ns).last()),
    decreases ns.len(),
{
    lemma_int_text(ns.last() as int);
    lemma_int_text_plain(ns.last() as int);
    if ns.len() == 1 {
        lemma_split_plain(int_text(ns[0] as int), ',');
        assert(score_texts(ns) =~= seq![int_text(ns[0] as int)]);
        assert(ns.last() == ns[0]);
    } else {
        let t = ns.drop_last();
        lemma_legacy_text_split(t);
        let x = legacy_text(t);
        let z = int_text(ns.last() as int);
        lemma_split_push_sep(x, ',');
        lemma_split_append_plain(x.push(','), z, ',');
        assert(legacy_text(ns) =~= x.push(',') + z);
        assert(Seq::<char>::empty() + z =~= z);
        assert(score_texts(ns) =~= score_texts(t).push(z));
        assert(legacy_text(ns)[0] == x[0]);
        assert(legacy_text(ns).last() == z.last());
    }
}

proof fn lemma_legacy_entries_of_scores(ns: Seq<i32>)
    ensures
        legacy_entries(score_texts(ns)) == positive_only(unstamped(ns)),
    decreases ns.len(),
{
    if ns.len() > 0 {
        let t = ns.drop_last();
        let n = ns.last();
        lemma_legacy_entries_of_scores(t);
        lemma_int_text_plain(n as int);
        lemma_int_text(n as int);
        assert(score_texts(ns).drop_last() =~= score_texts(t));
        assert(score_texts(ns).last() == int_text(n as int));
        assert(unstamped(ns).drop_last() =~= unstamped(t));
        assert(unstamped(ns).last() == HighScoreEntry { score: n, unix_secs: 0 });
    } else {
        assert(score_texts(ns) =~= Seq::<Seq<char>>::empty());
        assert(unstamped(ns) =~= Seq::<HighScoreEntry>::empty());
    }
}

/// A save in the older format, scores joined by commas, loads as the table kept of those
/// scores as runs without a known time, however many scores it holds; in particular a
/// single positive score loads as one run.
pub proof fn law_legacy_text_loads(ns: Seq<i32>, n: i32)
    requires
        ns.len() >= 1,
    ensures
        deserialized(legacy_text(ns)) == normalized(unstamped(ns)),
        n > 0 ==> deserialized(int_text(n as int)) == seq![
            HighScoreEntry { score: n, unix_secs: 0 },
        ],
{
    lemma_legacy_text_split(ns);
    let t = legacy_text(ns);
    lemma_number_char_is_plain(t[0]);
    assert(is_number_char(t.last()));
    lemma_number_char_is_plain(t.last());
    lemma_trim_plain(t);
    lemma_legacy_entries_of_scores(ns);
    let m = unstamped(ns);
    lemma_positive_only_props(m);
    lemma_positive_only_props(positive_only(m));
    if n > 0 {
        let one = seq![n];
        lemma_legacy_text_split(one);
        assert(legacy_text(one) == int_text(n as int));
        let lt = legacy_text(one);
        lemma_number_char_is_plain(lt[0]);
        assert(is_number_char(lt.last()));
        lemma_number_char_is_plain(lt.last());
        lemma_trim_plain(lt);
        lemma_legacy_entries_of_scores(one);
        let e = HighScoreEntry { score: n, unix_secs: 0 };
        let mo = unstamped(one);
        assert(mo =~= seq![e]);
        assert(mo.drop_last() =~= Seq::<HighScoreEntry>::empty());
        assert(positive_only(Seq::<HighScoreEntry>::empty()) =~= Seq::<HighScoreEntry>::empty());
        assert(positive_only(mo) =~= seq![e]);
        lemma_positive_only_props(positive_only(mo));
        assert(seq![e].drop_last() =~= Seq::<HighScoreEntry>::empty());
        assert(sort_by_score_desc(Seq::<HighScoreEntry>::empty()) =~= Seq::<HighScoreEntry>::empty());
        assert(insert_by_score(Seq::<HighScoreEntry>::empty(), e) =~= seq![e]);
        assert(sort_by_score_desc(seq![e]) =~= seq![e]);
        assert(normalized(seq![e]) =~= seq![e]);
    }
}

// ---------------------------------------------------------------------------
// Saving, loading and merging.

/// The text to store for a list of runs: the kept table in the saved format.
pub fn save_high_scores(entries: &[HighScoreEntry]) -> (r: String)
    ensures
        r@ == saved_text(entries@),
{
    let mut v: Vec<HighScoreEntry> = Vec::new();
    let mut i: usize = 0;
    while i < entries.len()
        invariant
            i <= entries@.len(),
            v@ == entries@.take(i as int),
        decreases entries@.len() - i,
    {
        let e = &entries[i];
        v.push(HighScoreEntry { score: e.score, unix_secs: e.unix_secs });
        assert(entries@.take(i + 1) =~= entries@.take(i as int).push(entries@[i as int]));
        i = i + 1;
    }
    assert(entries@.take(entries@.len() as int) =~= entries@);
    let kept = normalize(v);
    serialize(kept.as_slice())
}

/// The table held by a stored text; nothing stored gives an empty table.
pub fn load_high_scores(stored: Option<&str>) -> (r: Vec<HighScoreEntry>)
    ensures
        stored is None ==> r@ == Seq::<HighScoreEntry>::empty(),
        stored matches Some(raw) ==> r@ == deserialized(raw@),
        is_sorted_desc(r@),
        all_positive(r@),
        r@.len() <= MAX_SCORES,
{
    match stored {
        None => Vec::new(),
        Some(raw) => {
            let r = deserialize(raw);
            proof {
                let t = trim(raw@);
                if t.len() > 0 {
                    if starts_with_v2(t) {
                        law_normalized_shape(entries_of_lines(split_on(t, '\n').drop_first()));
                    } else {
                        law_normalized_shape(legacy_entries(split_on(t, ',')));
                    }
                }
            }
            r
        },
    }
}

/// Adds a finished run at time `unix_secs`; non-positive scores are ignored.
pub fn merge_high_score(prev: &mut Vec<HighScoreEntry>, new_score: i32, unix_secs: i64)
    ensures
        new_score <= 0 ==> final(prev)@ == old(prev)@,
        new_score > 0 ==> final(prev)@ == normalized(
            old(prev)@.push(HighScoreEntry { score: new_score, unix_secs }),
        ),
{
    if new_score <= 0 {
        return ;
    }
    prev.push(HighScoreEntry { score: new_score, unix_secs });
    let mut all: Vec<HighScoreEntry> = Vec::new();
    std::mem::swap(&mut all, prev);
    *prev = normalize(all);
}

/// The time stamped on a run: the clock reading in seconds since the Unix epoch, or `0`
/// ("unknown") when no reading could be had.
pub open spec fn run_stamp(clock_unix_secs: Option<i64>) -> i64 {
    match clock_unix_secs {
        Some(t) => t,
        None => 0,
    }
}

/// Adds a finished run stamped with the clock reading `clock_unix_secs` (`None` when the
/// clock could not be read, which stamps `0`); non-positive scores are ignored.
/// Returns the text to store, or `None` when nothing changed.
pub fn merge_and_persist(
    prev: &mut Vec<HighScoreEntry>,
    new_score: i32,
    clock_unix_secs: Option<i64>,
) -> (r: Option<String>)
    ensures
        new_score <= 0 ==> r is None && final(prev)@ == old(prev)@,
        new_score > 0 ==> {
            &&& final(prev)@ == normalized(
                old(prev)@.push(
                    HighScoreEntry { score: new_score, unix_secs: run_stamp(clock_unix_secs) },
                ),
            )
            &&& r matches Some(t) && t@ == saved_text(final(prev)@)
        },
{
    if new_score <= 0 {
        return None;
    }
    let ts = match clock_unix_secs {
        Some(t) => t,
        None => 0,
    };
    merge_high_score(prev, new_score, ts);
    let text = save_high_scores(prev.as_slice());
    Some(text)
}

pub open spec fn opt_text(o: Option<String>) -> Option<Seq<char>> {
    match o {
        Some(t) => Some(t@),
        None => None,
    }
}

/// `DDDD-DD-DD DD:DD`: a date and time to the minute, four-digit year.
pub open spec fn is_minute_stamp(t: Seq<char>) -> bool {
    &&& t.len() == 16
    &&& t[4] == '-'
    &&& t[7] == '-'
    &&& t[10] == ' '
    &&& t[13] == ':'
    &&& forall|i: int|
        0 <= i < 16 && i != 4 && i != 7 && i != 10 && i != 13 ==> is_digit(#[trigger] t[i])
}

/// Seconds after the epoch up to 9999-12-31 23:59:59 UTC: their UTC dates have
/// four-digit years.
pub open spec fn utc_four_digit_year(unix_secs: i64) -> bool {
    0 < unix_secs && unix_secs <= 253402300799
}

/// Seconds after the epoch and before 9999-12-31 00:00:00 UTC: as local offsets are
/// under a day, their local dates have four-digit years too.
pub open spec fn local_four_digit_year(unix_secs: i64) -> bool {
    0 < unix_secs && unix_secs < 253402214400
}

/// What `chrono::DateTime::<Utc>::from_timestamp(unix_secs, 0)` formatted as
/// `%Y-%m-%d %H:%M UTC` gives; `None` when chrono has no date for that second.
pub uninterp spec fn utc_minute_stamp(unix_secs: i64) -> Option<Seq<char>>;

/// `DateTime::<Utc>::from_timestamp(unix_secs, 0)` formatted with `"%Y-%m-%d %H:%M UTC"`.
/// The result is a function of `unix_secs` alone; it is named `utc_minute_stamp`. Every
/// second from the epoch through the end of year 9999 has a date, written with a
/// four-digit year (`%Y`, two-digit `%m %d %H %M`) followed by `" UTC"`.
#[verifier::external_body]
fn utc_minute_text(unix_secs: i64) -> (r: Option<String>)
    ensures
        opt_text(r) == utc_minute_stamp(unix_secs),
        utc_four_digit_year(unix_secs) ==> r is Some && r->0@.len() == 20 && is_minute_stamp(
            r->0@.take(16),
        ) && r->0@.skip(16) == seq![' ', 'U', 'T', 'C'],
{
    match chrono::DateTime::<chrono::Utc>::from_timestamp(unix_secs, 0) {
        Some(dt) => Some(dt.format("%Y-%m-%d %H:%M UTC").to_string()),
        None => None,
    }
}

/// `Local.timestamp_opt(unix_secs, 0).single()` formatted with `"%Y-%m-%d %H:%M"`.
/// `timestamp_opt` gives a single local time exactly when
/// `DateTime::from_timestamp(unix_secs, 0)` has a date, which is when the UTC text
/// exists. Which local time it is depends on the machine's time zone, so the digits are
/// left unstated; for seconds after the epoch and before 9999-12-31 00:00 UTC the text
/// has a four-digit year and the shape `DDDD-DD-DD DD:DD`.
#[verifier::external_body]
fn local_minute_text(unix_secs: i64) -> (r: Option<String>)
    ensures
        r is Some <==> utc_minute_stamp(unix_secs) is Some,
        local_four_digit_year(unix_secs) ==> r is Some && is_minute_stamp(r->0@),
{
    match chrono::Local.timestamp_opt(unix_secs, 0).single() {
        Some(dt) => Some(dt.format("%Y-%m-%d %H:%M").to_string()),
        None => None,
    }
}

/// The date text of a run given its local-time text: none for an unknown time, the local
/// text when there is one, else the UTC text.
pub fn timestamp_text_from(unix_secs: i64, local: Option<String>) -> (r: Option<String>)
    ensures
        unix_secs <= 0 ==> r is None,
        unix_secs > 0 && local is Some ==> r == local,
        unix_secs > 0 && local is None ==> opt_text(r) == utc_minute_stamp(unix_secs),
{
    if unix_secs <= 0 {
        return None;
    }
    match local {
        Some(t) => Some(t),
        None => utc_minute_text(unix_secs),
    }
}

/// Human-readable local date/time for a run; `None` if unknown.
pub fn format_high_score_timestamp(unix_secs: i64) -> (r: Option<String>)
    ensures
        unix_secs <= 0 ==> r is None,
        unix_secs > 0 ==> (r is Some <==> utc_minute_stamp(unix_secs) is Some),
        local_four_digit_year(unix_secs) ==> r is Some && is_minute_stamp(r->0@),
{
    if unix_secs <= 0 {
        return None;
    }
    let local = local_minute_text(unix_secs);
    timestamp_text_from(unix_secs, local)
}

} // verus!

use mkg_starship::persistence::{
    deserialize, format_high_score_timestamp, load_high_scores, merge_and_persist,
    merge_high_score, normalize, save_high_scores, serialize, timestamp_text_from,
    HighScoreEntry, MAX_SCORES,
};

fn e(score: i32, unix_secs: i64) -> HighScoreEntry {
    HighScoreEntry { score, unix_secs }
}

#[test]
fn normalize_drops_non_positive_and_sorts_descending() {
    let v = vec![e(10, 1), e(0, 2), e(30, 3), e(-4, 4), e(20, 5)];
    assert_eq!(normalize(v), vec![e(30, 3), e(20, 5), e(10, 1)]);
}

#[test]
fn normalize_keeps_arrival_order_for_equal_scores() {
    let v = vec![e(50, 1), e(70, 2), e(50, 3), e(50, 4)];
    assert_eq!(normalize(v), vec![e(70, 2), e(50, 1), e(50, 3), e(50, 4)]);
}

#[test]
fn normalize_keeps_only_the_best_five() {
    let v = vec![e(1, 0), e(7, 0), e(3, 0), e(9, 0), e(5, 0), e(8, 0), e(2, 0)];
    let r = normalize(v);
    assert_eq!(r.len(), MAX_SCORES);
    assert_eq!(r, vec![e(9, 0), e(8, 0), e(7, 0), e(5, 0), e(3, 0)]);
}

#[test]
fn normalize_is_idempotent_on_example() {
    let v = vec![e(4, 9), e(12, -3), e(0, 1), e(12, 8), e(6, 2), e(1, 1), e(3, 3)];
    let once = normalize(v);
    let twice = normalize(once.clone());
    assert_eq!(once, twice);
}

#[test]
fn serialize_writes_header_and_positive_runs() {
    let text = serialize(&[e(120, 1700000000), e(0, 5), e(7, -42)]);
    assert_eq!(text, "v2\n120,1700000000\n7,-42\n");
}

#[test]
fn serialize_empty_is_header_only() {
    assert_eq!(serialize(&[]), "v2\n");
}

#[test]
fn deserialize_v2_text() {
    let r = deserialize("  v2\n10,5\n  30 , 7 \n\n20,1,extra\nbad line\n0,3\n");
    assert_eq!(r, vec![e(30, 7), e(20, 1), e(10, 5)]);
}

#[test]
fn deserialize_v2_with_crlf_lines() {
    let r = deserialize("v2\r\n15,100\r\n25,200\r\n");
    assert_eq!(r, vec![e(25, 200), e(15, 100)]);
}

#[test]
fn deserialize_rejects_out_of_range_and_signs() {
    let r = deserialize("v2\n2147483648,1\n+9,2\n-3,4\n5,9223372036854775808\n6,-9223372036854775808\n");
    assert_eq!(r, vec![e(9, 2), e(6, i64::MIN)]);
}

#[test]
fn deserialize_legacy_scores() {
    let r = deserialize("40, 10,x, -5, 0,25 ");
    assert_eq!(r, vec![e(40, 0), e(25, 0), e(10, 0)]);
}

#[test]
fn deserialize_empty_and_blank() {
    assert_eq!(deserialize(""), vec![]);
    assert_eq!(deserialize(" \n\t\u{3000} "), vec![]);
}

#[test]
fn deserialize_header_without_newline() {
    assert_eq!(deserialize("v2"), vec![]);
    assert_eq!(deserialize("v2,5"), vec![]);
}

#[test]
fn saved_text_loads_back_as_kept_table() {
    let runs = vec![e(3, 1), e(900, 1700000000), e(-1, 2), e(45, 0), e(45, 7), e(2, 2), e(1, 1), e(77, 77)];
    let text = save_high_scores(&runs);
    assert_eq!(load_high_scores(Some(&text)), normalize(runs));
}

#[test]
fn load_without_stored_text_is_empty() {
    assert_eq!(load_high_scores(None), vec![]);
}

#[test]
fn load_trims_stored_text() {
    assert_eq!(load_high_scores(Some("\n\nv2\n8,8\n\n")), vec![e(8, 8)]);
}

#[test]
fn merge_ignores_non_positive_score() {
    let mut t = vec![e(5, 1)];
    merge_high_score(&mut t, 0, 9);
    assert_eq!(t, vec![e(5, 1)]);
    merge_high_score(&mut t, -7, 9);
    assert_eq!(t, vec![e(5, 1)]);
}

#[test]
fn merge_inserts_and_keeps_top_five() {
    let mut t = vec![e(90, 1), e(80, 2), e(70, 3), e(60, 4), e(50, 5)];
    merge_high_score(&mut t, 75, 6);
    assert_eq!(t, vec![e(90, 1), e(80, 2), e(75, 6), e(70, 3), e(60, 4)]);
    merge_high_score(&mut t, 10, 7);
    assert_eq!(t, vec![e(90, 1), e(80, 2), e(75, 6), e(70, 3), e(60, 4)]);
}

#[test]
fn merge_and_persist_returns_saved_text() {
    let mut t = vec![e(10, 1)];
    assert_eq!(merge_and_persist(&mut t, 0, Some(5)), None);
    assert_eq!(t, vec![e(10, 1)]);
    let text = merge_and_persist(&mut t, 20, Some(1700000000)).expect("a positive score is saved");
    assert_eq!(t, vec![e(20, 1700000000), e(10, 1)]);
    assert_eq!(text, serialize(&t));
    assert_eq!(load_high_scores(Some(&text)), t);
}

#[test]
fn merge_and_persist_without_clock_stamps_unknown_time() {
    let mut t = vec![e(10, 1)];
    let text = merge_and_persist(&mut t, 5, None).expect("a positive score is saved");
    assert_eq!(t, vec![e(10, 1), e(5, 0)]);
    assert_eq!(text, "v2\n10,1\n5,0\n");
}

#[test]
fn any_written_list_reads_back_as_kept_table() {
    let runs = vec![e(0, 3), e(8, -1), e(-2, 9), e(8, 4), e(30, 0), e(1, 1), e(2, 2), e(9, 9)];
    assert_eq!(deserialize(&serialize(&runs)), normalize(runs));
}

fn is_minute_stamp(t: &str) -> bool {
    let c: Vec<char> = t.chars().collect();
    c.len() == 16
        && c.iter().enumerate().all(|(i, ch)| match i {
            4 | 7 => *ch == '-',
            10 => *ch == ' ',
            13 => *ch == ':',
            _ => ch.is_ascii_digit(),
        })
}

#[test]
fn timestamp_unknown_for_non_positive() {
    assert_eq!(format_high_score_timestamp(0), None);
    assert_eq!(format_high_score_timestamp(-100), None);
    assert_eq!(timestamp_text_from(0, Some("x".to_string())), None);
}

#[test]
fn timestamp_known_for_positive() {
    let t = format_high_score_timestamp(1700000000).expect("a date exists");
    assert!(t.starts_with("2023-11-1"));
    assert!(is_minute_stamp(&t));
    assert!(is_minute_stamp(&format_high_score_timestamp(1).unwrap()));
    assert!(is_minute_stamp(&format_high_score_timestamp(253402214399).unwrap()));
    assert_eq!(format_high_score_timestamp(i64::MAX), None);
}

#[test]
fn timestamp_prefers_local_text_else_utc() {
    assert_eq!(timestamp_text_from(5, Some("local".to_string())), Some("local".to_string()));
    assert_eq!(timestamp_text_from(1700000000, None), Some("2023-11-14 22:13 UTC".to_string()));
    assert_eq!(timestamp_text_from(i64::MAX, None), None);
}

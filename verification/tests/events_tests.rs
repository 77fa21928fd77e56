use md_tui::scroll::compute_dampened_scroll;
use md_tui::selection::word_at_col;

#[test]
fn first_event_emits_one_line() {
    let mut last = None;
    let mut accum = 0;
    let d = compute_dampened_scroll(&mut last, &mut accum, 3, 10_000);
    assert_eq!(d, 1);
}

#[test]
fn slow_scroll_emits_one_line_per_event() {
    let mut last = None;
    let mut accum = 0;
    let t0 = 10_000;
    assert_eq!(compute_dampened_scroll(&mut last, &mut accum, 3, t0), 1);
    let t1 = t0 + 250;
    assert_eq!(compute_dampened_scroll(&mut last, &mut accum, 3, t1), 1);
    let t2 = t1 + 250;
    assert_eq!(compute_dampened_scroll(&mut last, &mut accum, -3, t2), -1);
}

#[test]
fn rapid_burst_is_halved_overall() {
    let mut last = None;
    let mut accum = 0;
    let t0 = 10_000;
    let _ = compute_dampened_scroll(&mut last, &mut accum, 3, t0);
    let mut total = 0;
    for i in 1..=6u64 {
        let t = t0 + 50 * i;
        total += compute_dampened_scroll(&mut last, &mut accum, 3, t);
    }
    assert_eq!(total, 9, "burst of 6 events at 3 lines should yield ~9 dampened");
}

#[test]
fn fractional_accumulator_is_preserved() {
    let mut last = None;
    let mut accum = 0;
    let t0 = 10_000;
    let _ = compute_dampened_scroll(&mut last, &mut accum, 3, t0);
    let t1 = t0 + 50;
    assert_eq!(compute_dampened_scroll(&mut last, &mut accum, 3, t1), 1);
    let t2 = t1 + 50;
    assert_eq!(compute_dampened_scroll(&mut last, &mut accum, 3, t2), 2);
}

#[test]
fn long_pause_resets_accumulator() {
    // Seven tenths of a line.
    let mut accum = 700;
    let now = 10_000;
    let mut last = Some(now - 2_000);
    let _ = compute_dampened_scroll(&mut last, &mut accum, 3, now);
    assert_eq!(accum, 0, "accum should reset on long pause, got {}", accum);
}

#[test]
fn direction_reversal_resets_carry() {
    let mut last = None;
    let mut accum = 0;
    let t0 = 10_000;
    let _ = compute_dampened_scroll(&mut last, &mut accum, 3, t0);
    let t1 = t0 + 50;
    let _ = compute_dampened_scroll(&mut last, &mut accum, 3, t1);
    assert!(accum > 0);
    let t2 = t1 + 50;
    let d = compute_dampened_scroll(&mut last, &mut accum, -3, t2);
    assert!(d <= -1, "reversal should still emit a line in the new direction, got {}", d);
}

#[test]
fn picks_word_in_simple_line() {
    let line = "the quick brown fox";
    assert_eq!(word_at_col(line, 4).as_deref(), Some("quick"));
    assert_eq!(word_at_col(line, 6).as_deref(), Some("quick"));
}

#[test]
fn returns_none_on_whitespace() {
    let line = "alpha   beta";
    assert_eq!(word_at_col(line, 6), None);
}

#[test]
fn strips_trailing_punctuation() {
    let line = "hello, world!";
    assert_eq!(word_at_col(line, 0).as_deref(), Some("hello"));
    assert_eq!(word_at_col(line, 8).as_deref(), Some("world"));
}

#[test]
fn keeps_internal_dashes_underscores_and_paths() {
    let line = "src/foo_bar-baz.rs";
    assert_eq!(word_at_col(line, 0).as_deref(), Some("src/foo_bar-baz.rs"));
}

use zimu::ast::Block;
use zimu::error::Error;
use zimu::normalize::normalize;
use zimu::time::Time;

fn time(h: u32, m: u32, s: u32, ms: u32) -> Time {
    Time::from_hms_milli(h, m, s, ms).unwrap()
}

fn block(start: Time, end: Time, text: &str) -> Block {
    Block { start, end, content: vec![text.to_string()] }
}

#[test]
fn first_start_moves_to_the_reference() {
    let mut track = vec![
        block(time(0, 0, 1, 0), time(0, 0, 2, 0), "a"),
        block(time(0, 0, 3, 500), time(0, 0, 4, 250), "b"),
    ];
    assert_eq!(normalize(time(0, 0, 5, 0), &mut track), Ok(()));
    assert_eq!(track[0].start, time(0, 0, 5, 0));
    assert_eq!(track[0].end, time(0, 0, 6, 0));
    assert_eq!(track[1].start, time(0, 0, 7, 500));
    assert_eq!(track[1].end, time(0, 0, 8, 250));
    assert_eq!(track[0].content, vec!["a".to_string()]);
    assert_eq!(track[1].content, vec!["b".to_string()]);
}

#[test]
fn offset_may_be_negative() {
    let mut track = vec![
        block(time(0, 1, 0, 0), time(0, 1, 1, 0), "a"),
        block(time(0, 2, 0, 250), time(0, 2, 1, 0), "b"),
    ];
    assert_eq!(normalize(time(0, 0, 59, 750), &mut track), Ok(()));
    assert_eq!(track[0].start, time(0, 0, 59, 750));
    assert_eq!(track[0].end, time(0, 1, 0, 750));
    assert_eq!(track[1].start, time(0, 2, 0, 0));
    assert_eq!(track[1].end, time(0, 2, 0, 750));
}

#[test]
fn durations_are_kept() {
    let before = vec![
        block(time(1, 0, 0, 0), time(1, 0, 2, 345), "a"),
        block(time(1, 0, 1, 0), time(1, 0, 0, 500), "ends early"),
    ];
    let mut after = before.clone();
    assert_eq!(normalize(time(0, 30, 0, 1), &mut after), Ok(()));
    for i in 0..before.len() {
        assert_eq!(after[i].end.since(&after[i].start), before[i].end.since(&before[i].start));
    }
    assert_eq!(after[0].end.since(&after[0].start), 2_345_000_000);
    assert_eq!(after[1].end.since(&after[1].start), -500_000_000);
}

#[test]
fn empty_track_is_left_alone() {
    let mut track: Vec<Block> = Vec::new();
    assert_eq!(normalize(time(0, 0, 5, 0), &mut track), Ok(()));
    assert!(track.is_empty());
}

#[test]
fn time_past_midnight_is_an_error_and_changes_nothing() {
    let before = vec![
        block(time(0, 0, 1, 0), time(0, 0, 2, 0), "a"),
        block(time(2, 0, 0, 0), time(2, 0, 1, 0), "b"),
    ];
    let mut track = before.clone();
    assert_eq!(normalize(time(23, 0, 0, 0), &mut track), Err(Error::TimeOutOfRange));
    assert_eq!(track, before);
}

#[test]
fn time_before_midnight_is_an_error_and_changes_nothing() {
    let before = vec![
        block(time(1, 0, 0, 0), time(1, 0, 2, 0), "a"),
        block(time(0, 30, 0, 0), time(2, 0, 1, 0), "starts before the first"),
    ];
    let mut track = before.clone();
    assert_eq!(normalize(time(0, 10, 0, 0), &mut track), Err(Error::TimeOutOfRange));
    assert_eq!(track, before);
}

#[test]
fn last_instant_of_the_day_is_reached() {
    let mut track = vec![block(time(0, 0, 0, 0), time(0, 0, 0, 999), "a")];
    assert_eq!(normalize(time(23, 59, 59, 0), &mut track), Ok(()));
    assert_eq!(track[0].start, time(23, 59, 59, 0));
    assert_eq!(track[0].end, time(23, 59, 59, 999));
}

#[test]
fn leap_second_reference_moves_the_track_past_the_minute() {
    let mut track = vec![block(time(0, 0, 10, 0), time(0, 0, 11, 0), "a")];
    assert_eq!(normalize(time(0, 0, 59, 1_500), &mut track), Ok(()));
    assert_eq!(track[0].start, time(0, 1, 0, 500));
    assert_eq!(track[0].end, time(0, 1, 1, 500));
}

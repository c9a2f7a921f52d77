use live_score::frame::{frame, render_json, score_frame};
use live_score::hub::Hub;
use live_score::producer::Producer;
use live_score::score::{advance, next_score, ScoreData, SCORING_DRAW_BOUND};

#[test]
fn score_frame_has_the_wire_shape() {
    assert_eq!(
        score_frame(&ScoreData::new(1, 1)),
        "data: {\"score\":{\"team1\":1,\"team2\":1}}\n\n"
    );
    assert_eq!(
        score_frame(&ScoreData::new(0, 4294967295)),
        "data: {\"score\":{\"team1\":0,\"team2\":4294967295}}\n\n"
    );
}

#[test]
fn json_numbers_are_decimal() {
    assert_eq!(
        render_json(&ScoreData::new(120, 7)),
        Some("{\"score\":{\"team1\":120,\"team2\":7}}".to_string())
    );
}

#[test]
fn missing_payload_gives_an_empty_object_frame() {
    assert_eq!(frame(None), "data: {}\n\n");
    assert_eq!(frame(Some("{\"a\":1}")), "data: {\"a\":1}\n\n");
}

#[test]
fn draws_below_the_bound_score() {
    let s = ScoreData::new(3, 4);
    assert_eq!(advance(&s, 0, SCORING_DRAW_BOUND), ScoreData::new(4, 4));
    assert_eq!(advance(&s, SCORING_DRAW_BOUND - 1, u32::MAX), ScoreData::new(4, 4));
    assert_eq!(advance(&s, SCORING_DRAW_BOUND, 5), ScoreData::new(3, 5));
    assert_eq!(advance(&s, 0, 0), ScoreData::new(4, 5));
}

#[test]
fn counters_stop_at_the_largest_value() {
    let s = ScoreData::new(u32::MAX, 0);
    assert_eq!(advance(&s, 0, 0), ScoreData::new(u32::MAX, 1));
}

#[test]
fn random_step_moves_each_counter_by_at_most_one() {
    let mut s = ScoreData::initial();
    for _ in 0..100 {
        let n = next_score(&s);
        assert!(n.score.team1 == s.score.team1 || n.score.team1 == s.score.team1 + 1);
        assert!(n.score.team2 == s.score.team2 || n.score.team2 == s.score.team2 + 1);
        s = n;
    }
}

#[test]
fn producer_publishes_each_tick() {
    let mut hub = Hub::new(16);
    let id = hub.subscribe();
    let mut p = Producer::new();
    p.tick_with(&mut hub, 0, u32::MAX);
    p.tick_with(&mut hub, 0, 0);
    assert_eq!(p.current(), ScoreData::new(2, 1));
    assert_eq!(hub.drain(id), vec![ScoreData::new(1, 0), ScoreData::new(2, 1)]);
}

#[test]
fn producer_ticks_without_subscribers() {
    let mut hub = Hub::new(4);
    let mut p = Producer::starting_at(ScoreData::new(5, 5));
    for _ in 0..10 {
        p.tick(&mut hub);
    }
    let c = p.current();
    assert!(c.score.team1 >= 5 && c.score.team1 <= 15);
    assert!(c.score.team2 >= 5 && c.score.team2 <= 15);
    assert_eq!(hub.subscriber_count(), 0);
    let id = hub.subscribe();
    p.tick(&mut hub);
    assert_eq!(hub.drain(id), vec![p.current()]);
}

use live_score::hub::Hub;
use live_score::score::ScoreData;
use live_score::transport::StreamTransport;

fn frame_of(team1: u32, team2: u32) -> String {
    format!("data: {{\"score\":{{\"team1\":{},\"team2\":{}}}}}\n\n", team1, team2)
}

#[test]
fn end_to_end_scenario() {
    let mut hub = Hub::new(16);
    hub.publish(ScoreData::new(1, 0));
    assert_eq!(hub.subscriber_count(), 0);

    let mut a = StreamTransport::connect(&mut hub);
    hub.publish(ScoreData::new(1, 1));
    let frame = a.next_frame(&mut hub).unwrap();
    assert!(frame.contains("{\"score\":{\"team1\":1,\"team2\":1}}"));
    assert_eq!(frame, frame_of(1, 1));
    assert_eq!(a.next_frame(&mut hub), None);

    let mut b = StreamTransport::connect(&mut hub);
    hub.publish(ScoreData::new(2, 1));
    assert_eq!(a.next_frame(&mut hub), Some(frame_of(2, 1)));
    assert_eq!(a.next_frame(&mut hub), None);
    assert_eq!(b.next_frame(&mut hub), Some(frame_of(2, 1)));
    assert_eq!(b.next_frame(&mut hub), None);

    a.close(&mut hub);
    hub.publish(ScoreData::new(2, 2));
    assert_eq!(b.next_frame(&mut hub), Some(frame_of(2, 2)));
    assert_eq!(a.next_frame(&mut hub), None);
    assert!(!hub.is_subscribed(a.id));
    assert_eq!(hub.subscriber_count(), 1);
    b.close(&mut hub);
    assert_eq!(hub.subscriber_count(), 0);
}

#[test]
fn every_subscriber_gets_every_value_in_order() {
    let mut hub = Hub::new(8);
    let ids: Vec<u64> = (0..3).map(|_| hub.subscribe()).collect();
    let values: Vec<ScoreData> = (0..5).map(|k| ScoreData::new(k, 10 - k)).collect();
    for v in &values {
        hub.publish(*v);
    }
    for id in ids {
        assert_eq!(hub.drain(id), values);
    }
}

#[test]
fn late_subscriber_gets_no_backfill() {
    let mut hub = Hub::new(8);
    let early = hub.subscribe();
    hub.publish(ScoreData::new(1, 0));
    hub.publish(ScoreData::new(2, 0));
    let late = hub.subscribe();
    hub.publish(ScoreData::new(3, 0));
    assert_eq!(hub.drain(late), vec![ScoreData::new(3, 0)]);
    assert_eq!(hub.drain(early).len(), 3);
}

#[test]
fn full_queue_keeps_the_latest_values() {
    let mut hub = Hub::new(3);
    let id = hub.subscribe();
    for k in 0..7 {
        hub.publish(ScoreData::new(k, 0));
    }
    assert_eq!(
        hub.drain(id),
        vec![ScoreData::new(4, 0), ScoreData::new(5, 0), ScoreData::new(6, 0)]
    );
    assert_eq!(hub.drain(id), vec![]);
}

#[test]
fn capacity_one_holds_the_newest_value() {
    let mut hub = Hub::new(1);
    let id = hub.subscribe();
    hub.publish(ScoreData::new(1, 1));
    hub.publish(ScoreData::new(2, 2));
    assert_eq!(hub.receive(id), Some(ScoreData::new(2, 2)));
    assert_eq!(hub.receive(id), None);
    assert_eq!(hub.capacity(), 1);
}

#[test]
fn slow_subscriber_does_not_affect_others() {
    let mut hub = Hub::new(2);
    let slow = hub.subscribe();
    let fast = hub.subscribe();
    for k in 0..5 {
        hub.publish(ScoreData::new(k, k));
        assert_eq!(hub.receive(fast), Some(ScoreData::new(k, k)));
    }
    assert_eq!(hub.drain(slow), vec![ScoreData::new(3, 3), ScoreData::new(4, 4)]);
}

#[test]
fn unsubscribe_leaves_no_entry_and_is_idempotent() {
    let mut hub = Hub::new(4);
    let a = hub.subscribe();
    let b = hub.subscribe();
    assert_eq!(hub.subscriber_count(), 2);
    hub.unsubscribe(a);
    hub.unsubscribe(a);
    hub.publish(ScoreData::new(5, 5));
    assert_eq!(hub.subscriber_count(), 1);
    assert!(!hub.is_subscribed(a));
    assert!(hub.is_subscribed(b));
    assert_eq!(hub.drain(a), vec![]);
    assert_eq!(hub.drain(b), vec![ScoreData::new(5, 5)]);
    hub.unsubscribe(999);
    assert_eq!(hub.subscriber_count(), 1);
}

#[test]
fn interleaved_operations_keep_exactly_the_live_subscribers() {
    let mut hub = Hub::new(2);
    let mut live: Vec<u64> = Vec::new();
    for round in 0..20u32 {
        let id = hub.subscribe();
        live.push(id);
        hub.publish(ScoreData::new(round, 0));
        if round % 3 == 0 {
            let gone = live.remove(0);
            hub.unsubscribe(gone);
        }
        if round % 4 == 1 {
            let gone = live.pop().unwrap();
            hub.unsubscribe(gone);
        }
        hub.receive(id);
    }
    assert_eq!(hub.subscriber_count(), live.len());
    for id in 0..25u64 {
        assert_eq!(hub.is_subscribed(id), live.contains(&id));
    }
}

#[test]
fn identities_are_never_reused() {
    let mut hub = Hub::new(1);
    let a = hub.subscribe();
    hub.unsubscribe(a);
    let b = hub.subscribe();
    assert_ne!(a, b);
    assert!(hub.can_subscribe());
}

#[test]
fn failed_write_closes_the_stream() {
    let mut hub = Hub::new(4);
    let mut t = StreamTransport::connect(&mut hub);
    hub.publish(ScoreData::new(0, 1));
    assert_eq!(t.next_frame(&mut hub), Some(frame_of(0, 1)));
    t.after_write(&mut hub, true);
    assert!(t.open);
    assert_eq!(hub.subscriber_count(), 1);
    t.after_write(&mut hub, false);
    assert!(!t.open);
    assert_eq!(hub.subscriber_count(), 0);
    hub.publish(ScoreData::new(0, 2));
    assert_eq!(t.next_frame(&mut hub), None);
    t.close(&mut hub);
    assert_eq!(hub.subscriber_count(), 0);
}

use cls::dispatch_events;
use cls::dispatch_events_finish;
use cls::events::encode_event;
use cls::events::Event;
use cls::events::EventLog;

fn fixed_event(slug: &str) -> Event {
    let mut event = Event::new(slug, "usage", "null".to_string(), "u", "i");
    event.datetime = "d".to_string();
    event
}

#[test]
fn record_appends_exactly_one_line() {
    let mut log = EventLog::new(None);
    log.record_event(&fixed_event("one"));
    let content = log.content.clone().unwrap();
    assert_eq!(content.matches('\n').count(), 1);
    assert_eq!(content, format!("{}\n", encode_event(&fixed_event("one"))));
    log.record_event(&fixed_event("two"));
    let content = log.content.clone().unwrap();
    assert_eq!(content.matches('\n').count(), 2);
    let events = log.get_events();
    assert_eq!(events.len(), 2);
    assert_eq!(events[0].slug, "one");
    assert_eq!(events[1].slug, "two");
}

#[test]
fn replay_skips_corrupt_lines() {
    let good = encode_event(&fixed_event("kept"));
    let content = format!("{}\nthis line is not a record\n{}\n", good, good);
    let log = EventLog::new(Some(content));
    let events = log.get_events();
    assert_eq!(events.len(), 2);
    assert_eq!(events[0].slug, "kept");
    assert_eq!(events[1].slug, "kept");
}

#[test]
fn replay_of_absent_file_is_empty() {
    let log = EventLog::new(None);
    assert_eq!(log.get_events().len(), 0);
    assert_eq!(dispatch_events(&log).len(), 0);
}

#[test]
fn flush_with_no_success_leaves_queue_untouched() {
    let mut log = EventLog::new(None);
    log.record_event(&fixed_event("one"));
    log.record_event(&fixed_event("two"));
    let before = log.content.clone().unwrap();
    let results = vec![false, false];
    dispatch_events_finish(&mut log, &results);
    assert_eq!(log.content.as_ref().unwrap(), &before);
}

#[test]
fn flush_with_one_success_removes_the_file() {
    let mut log = EventLog::new(None);
    log.record_event(&fixed_event("one"));
    log.record_event(&fixed_event("two"));
    let results = vec![true, false];
    dispatch_events_finish(&mut log, &results);
    assert!(log.content.is_none());
}

#[test]
fn dispatch_bodies_match_queued_records() {
    let mut log = EventLog::new(None);
    log.record_event(&fixed_event("a"));
    log.record_event(&fixed_event("b"));
    let bodies = dispatch_events(&log);
    assert_eq!(bodies.len(), 2);
    assert_eq!(bodies[0], encode_event(&fixed_event("a")));
    assert_eq!(bodies[1], encode_event(&fixed_event("b")));
}

use std::cell::RefCell;
use std::rc::Rc;
use thermite_core::input::keyboard::{KeyCode, KeyboardEvent};
use thermite_core::input::mouse::{MouseButton, MouseEvent, ScrollDelta};
use thermite_core::messaging::bus::{BusRequest, EventBus, EventDispatchResult};
use thermite_core::messaging::event::{ThermiteEvent, ThermiteEventType};
use thermite_core::messaging::publish::{Publisher, TestPublisher};
use thermite_core::messaging::rc::Subscribers;
use thermite_core::messaging::subscribe::{Subscriber, SubscriberHandle};

type Log = Rc<RefCell<Vec<String>>>;

struct Recorder {
    name: &'static str,
    answer: BusRequest,
    log: Log,
}

impl Subscriber<ThermiteEventType, ThermiteEvent> for Recorder {
    fn reply(&self, _event: ThermiteEvent) -> BusRequest {
        self.answer
    }

    fn on_event(&self, event: &ThermiteEvent) -> BusRequest {
        self.log.borrow_mut().push(format!("{}:{:?}", self.name, event));
        self.answer
    }
}

fn recorder(name: &'static str, answer: BusRequest, log: &Log) -> Recorder {
    Recorder { name, answer, log: log.clone() }
}

fn names(log: &Log) -> Vec<String> {
    log.borrow().iter().map(|line| line.split(':').next().unwrap().to_string()).collect()
}

fn key_pressed(scancode: u32) -> ThermiteEvent {
    ThermiteEvent::Keyboard(KeyboardEvent::KeyPressed(KeyCode { scancode, mapped: None }))
}

fn three_subscribers(
    replies: [BusRequest; 3],
    log: &Log,
) -> (EventBus<ThermiteEventType, ThermiteEvent>, Subscribers<Recorder>, [SubscriberHandle; 3]) {
    let mut store = Subscribers::new();
    let a = store.add(recorder("A", replies[0], log));
    let b = store.add(recorder("B", replies[1], log));
    let c = store.add(recorder("C", replies[2], log));
    let mut bus = EventBus::new();
    bus.subscribe(a, ThermiteEventType::Input);
    bus.subscribe(b, ThermiteEventType::Input);
    bus.subscribe(c, ThermiteEventType::Input);
    (bus, store, [a, b, c])
}

#[test]
fn key_press_reaches_its_subscriber_once() {
    let log: Log = Rc::new(RefCell::new(Vec::new()));
    let mut store = Subscribers::new();
    let sub1 = store.add(recorder("Sub1", BusRequest::NoActionNeeded, &log));
    let mut bus: EventBus<ThermiteEventType, ThermiteEvent> = EventBus::default();
    bus.subscribe(sub1, ThermiteEventType::Input);
    let event = key_pressed(30);
    let result = TestPublisher {}.publish_event(&event, &mut bus, &store);
    assert_eq!(result, EventDispatchResult::Finished);
    assert_eq!(*log.borrow(), vec![format!("Sub1:{:?}", event)]);
}

#[test]
fn mouse_event_skips_window_subscriber() {
    let log: Log = Rc::new(RefCell::new(Vec::new()));
    let mut store = Subscribers::new();
    let sub_a = store.add(recorder("SubA", BusRequest::NoActionNeeded, &log));
    let sub_b = store.add(recorder("SubB", BusRequest::NoActionNeeded, &log));
    let mut bus = EventBus::new();
    bus.subscribe(sub_a, ThermiteEventType::Input);
    bus.subscribe(sub_b, ThermiteEventType::Window);
    let event = ThermiteEvent::Mouse(MouseEvent::ButtonPressed(MouseButton::Left));
    let result = bus.dispatch_event(&event, &store);
    assert_eq!(result, EventDispatchResult::Finished);
    assert_eq!(names(&log), vec!["SubA".to_string()]);
    assert_eq!(bus.subscribers_of(&ThermiteEventType::Window), Some(vec![sub_b]));
}

#[test]
fn dropped_subscriber_is_skipped_and_cleared() {
    let log: Log = Rc::new(RefCell::new(Vec::new()));
    let (mut bus, mut store, [a, b, c]) = three_subscribers([BusRequest::NoActionNeeded; 3], &log);
    assert!(store.remove(b).is_some());
    assert!(!store.is_live(&b));
    let result = bus.dispatch_event(&key_pressed(1), &store);
    assert_eq!(result, EventDispatchResult::Finished);
    assert_eq!(names(&log), vec!["A".to_string(), "C".to_string()]);
    assert_eq!(bus.subscribers_of(&ThermiteEventType::Input), Some(vec![a, c]));
}

#[test]
fn dropped_subscriber_past_a_stop_stays_listed() {
    let log: Log = Rc::new(RefCell::new(Vec::new()));
    let (mut bus, mut store, [a, b, c]) =
        three_subscribers([BusRequest::DoNotPropagate, BusRequest::NoActionNeeded, BusRequest::NoActionNeeded], &log);
    store.remove(c);
    let result = bus.dispatch_event(&key_pressed(1), &store);
    assert_eq!(result, EventDispatchResult::Stopped);
    assert_eq!(bus.subscribers_of(&ThermiteEventType::Input), Some(vec![a, b, c]));
}

#[test]
fn stop_directive_halts_the_pass() {
    let log: Log = Rc::new(RefCell::new(Vec::new()));
    let (mut bus, store, [a, b, c]) =
        three_subscribers([BusRequest::DoNotPropagate, BusRequest::NoActionNeeded, BusRequest::NoActionNeeded], &log);
    let result = bus.dispatch_event(&key_pressed(2), &store);
    assert_eq!(result, EventDispatchResult::Stopped);
    assert_eq!(names(&log), vec!["A".to_string()]);
    assert_eq!(bus.subscribers_of(&ThermiteEventType::Input), Some(vec![a, b, c]));
}

#[test]
fn unsubscribe_directive_mid_pass_keeps_the_rest() {
    let log: Log = Rc::new(RefCell::new(Vec::new()));
    let (mut bus, store, [_a, b, c]) =
        three_subscribers([BusRequest::Unsubscribe, BusRequest::NoActionNeeded, BusRequest::NoActionNeeded], &log);
    let result = bus.dispatch_event(&key_pressed(3), &store);
    assert_eq!(result, EventDispatchResult::Finished);
    assert_eq!(names(&log), vec!["A".to_string(), "C".to_string(), "B".to_string()]);
    assert_eq!(bus.subscribers_of(&ThermiteEventType::Input), Some(vec![c, b]));
}

#[test]
fn unsubscribe_and_stop_directive() {
    let log: Log = Rc::new(RefCell::new(Vec::new()));
    let (mut bus, store, [_a, b, c]) = three_subscribers(
        [BusRequest::UnsubscribeAndDoNotPropagate, BusRequest::NoActionNeeded, BusRequest::NoActionNeeded],
        &log,
    );
    let result = bus.dispatch_event(&key_pressed(4), &store);
    assert_eq!(result, EventDispatchResult::Stopped);
    assert_eq!(names(&log), vec!["A".to_string()]);
    assert_eq!(bus.subscribers_of(&ThermiteEventType::Input), Some(vec![c, b]));
}

#[test]
fn all_subscribers_visited_in_order() {
    let log: Log = Rc::new(RefCell::new(Vec::new()));
    let (mut bus, store, [a, b, c]) = three_subscribers([BusRequest::NoActionNeeded; 3], &log);
    let result = bus.dispatch_event(&key_pressed(5), &store);
    assert_eq!(result, EventDispatchResult::Finished);
    assert_eq!(names(&log), vec!["A".to_string(), "B".to_string(), "C".to_string()]);
    assert_eq!(bus.subscribers_of(&ThermiteEventType::Input), Some(vec![a, b, c]));
}

#[test]
fn dispatch_without_channel_is_not_needed() {
    let log: Log = Rc::new(RefCell::new(Vec::new()));
    let mut store = Subscribers::new();
    let a = store.add(recorder("A", BusRequest::NoActionNeeded, &log));
    let mut bus = EventBus::new();
    bus.subscribe(a, ThermiteEventType::Window);
    let result = bus.dispatch_event(&key_pressed(6), &store);
    assert_eq!(result, EventDispatchResult::NotNeeded);
    assert!(log.borrow().is_empty());
    assert_eq!(bus.subscribers_of(&ThermiteEventType::Input), None);
}

#[test]
fn dispatch_on_emptied_channel_finishes() {
    let log: Log = Rc::new(RefCell::new(Vec::new()));
    let mut store = Subscribers::new();
    let a = store.add(recorder("A", BusRequest::Unsubscribe, &log));
    let mut bus = EventBus::new();
    bus.subscribe(a, ThermiteEventType::Input);
    assert_eq!(bus.dispatch_event(&key_pressed(7), &store), EventDispatchResult::Finished);
    assert_eq!(bus.subscribers_of(&ThermiteEventType::Input), Some(vec![]));
    assert_eq!(bus.dispatch_event(&key_pressed(7), &store), EventDispatchResult::Finished);
    assert_eq!(names(&log), vec!["A".to_string()]);
}

#[test]
fn unsubscribe_all_silences_category() {
    let log: Log = Rc::new(RefCell::new(Vec::new()));
    let (mut bus, store, [a, _b, _c]) = three_subscribers([BusRequest::NoActionNeeded; 3], &log);
    bus.unsubscribe_all(ThermiteEventType::Input);
    let result = bus.dispatch_event(&key_pressed(8), &store);
    assert_eq!(result, EventDispatchResult::NotNeeded);
    assert!(log.borrow().is_empty());
    assert!(store.is_live(&a));
    bus.unsubscribe_all(ThermiteEventType::Input);
    assert_eq!(bus.subscribers_of(&ThermiteEventType::Input), None);
}

#[test]
fn unsubscribe_removes_by_swapping_last_in() {
    let log: Log = Rc::new(RefCell::new(Vec::new()));
    let (mut bus, store, [a, b, c]) = three_subscribers([BusRequest::NoActionNeeded; 3], &log);
    bus.unsubscribe(&store, a, ThermiteEventType::Input);
    assert_eq!(bus.subscribers_of(&ThermiteEventType::Input), Some(vec![c, b]));
    bus.unsubscribe(&store, a, ThermiteEventType::Input);
    assert_eq!(bus.subscribers_of(&ThermiteEventType::Input), Some(vec![c, b]));
    bus.unsubscribe(&store, b, ThermiteEventType::Window);
    assert_eq!(bus.subscribers_of(&ThermiteEventType::Window), None);
}

#[test]
fn unsubscribe_clears_dropped_entries_met_on_the_way() {
    let log: Log = Rc::new(RefCell::new(Vec::new()));
    let (mut bus, mut store, [a, b, c]) = three_subscribers([BusRequest::NoActionNeeded; 3], &log);
    store.remove(a);
    bus.unsubscribe(&store, c, ThermiteEventType::Input);
    assert_eq!(bus.subscribers_of(&ThermiteEventType::Input), Some(vec![b]));
}

#[test]
fn unsubscribe_keeps_dropped_entries_past_the_match() {
    let log: Log = Rc::new(RefCell::new(Vec::new()));
    let (mut bus, mut store, [a, b, c]) = three_subscribers([BusRequest::NoActionNeeded; 3], &log);
    store.remove(c);
    bus.unsubscribe(&store, a, ThermiteEventType::Input);
    assert_eq!(bus.subscribers_of(&ThermiteEventType::Input), Some(vec![c, b]));
}

#[test]
fn unsubscribing_a_dropped_subscriber_cleans_the_channel() {
    let log: Log = Rc::new(RefCell::new(Vec::new()));
    let (mut bus, mut store, [a, b, c]) = three_subscribers([BusRequest::NoActionNeeded; 3], &log);
    store.remove(b);
    bus.unsubscribe(&store, b, ThermiteEventType::Input);
    assert_eq!(bus.subscribers_of(&ThermiteEventType::Input), Some(vec![a, c]));
}

#[test]
fn double_subscription_hears_twice() {
    let log: Log = Rc::new(RefCell::new(Vec::new()));
    let mut store = Subscribers::new();
    let a = store.add(recorder("A", BusRequest::NoActionNeeded, &log));
    let mut bus = EventBus::new();
    bus.subscribe(a, ThermiteEventType::Input);
    bus.subscribe(a, ThermiteEventType::Input);
    bus.dispatch_event(&ThermiteEvent::Mouse(MouseEvent::Scroll(ScrollDelta::new(0, -2))), &store);
    assert_eq!(names(&log), vec!["A".to_string(), "A".to_string()]);
}

#[test]
fn store_hands_subscribers_back() {
    let log: Log = Rc::new(RefCell::new(Vec::new()));
    let mut store = Subscribers::new();
    let a = store.add(recorder("A", BusRequest::DoNotPropagate, &log));
    let b = store.add(recorder("B", BusRequest::Unsubscribe, &log));
    assert_ne!(a, b);
    assert_eq!(store.get(a).map(|s| s.name), Some("A"));
    let removed = store.remove(a).unwrap();
    assert_eq!(removed.name, "A");
    assert!(store.get(a).is_none());
    assert!(store.remove(a).is_none());
    let c = store.add(recorder("C", BusRequest::NoActionNeeded, &log));
    assert_ne!(a, c);
    assert!(!store.is_live(&a));
    assert_eq!(store.get(b).map(|s| s.answer), Some(BusRequest::Unsubscribe));
}

use std::sync::{Arc, Mutex};
use thermite_core::input::keyboard::{KeyCode, KeyboardEvent};
use thermite_core::input::mouse::{MouseEvent, PixelCoordinates};
use thermite_core::messaging::bus::{BusRequest, EventDispatchResult, TSEventBus};
use thermite_core::messaging::event::{ThermiteEvent, ThermiteEventType};
use thermite_core::messaging::publish::{TSPublisher, TestPublisher};
use thermite_core::messaging::subscribe::TSSubscriber;
use thermite_core::messaging::sync::SharedSubscribers;

type SharedLog = Arc<Mutex<Vec<&'static str>>>;

struct Listener {
    name: &'static str,
    answer: BusRequest,
    log: SharedLog,
}

impl TSSubscriber<ThermiteEventType, ThermiteEvent> for Listener {
    fn on_event(&self, _event: &ThermiteEvent) -> BusRequest {
        self.log.lock().unwrap().push(self.name);
        self.answer
    }
}

fn listener(name: &'static str, answer: BusRequest, log: &SharedLog) -> Listener {
    Listener { name, answer, log: log.clone() }
}

fn key_released() -> ThermiteEvent {
    ThermiteEvent::Keyboard(KeyboardEvent::KeyReleased(KeyCode { scancode: 57, mapped: Some(62) }))
}

#[test]
fn shared_bus_delivers_in_order() {
    let log: SharedLog = Arc::new(Mutex::new(Vec::new()));
    let mut store = SharedSubscribers::new();
    let a = store.add(listener("A", BusRequest::NoActionNeeded, &log));
    let b = store.add(listener("B", BusRequest::NoActionNeeded, &log));
    let mut bus: TSEventBus<ThermiteEventType, ThermiteEvent> = TSEventBus::default();
    bus.subscribe(a, ThermiteEventType::Input);
    bus.subscribe(b, ThermiteEventType::Input);
    let result = TestPublisher {}.publish_event(&key_released(), &mut bus, &store);
    assert_eq!(result, EventDispatchResult::Finished);
    assert_eq!(*log.lock().unwrap(), vec!["A", "B"]);
}

#[test]
fn shared_bus_skips_a_write_locked_subscriber() {
    let log: SharedLog = Arc::new(Mutex::new(Vec::new()));
    let mut store = SharedSubscribers::new();
    let a = store.add(listener("A", BusRequest::DoNotPropagate, &log));
    let b = store.add(listener("B", BusRequest::NoActionNeeded, &log));
    let mut bus = TSEventBus::new();
    bus.subscribe(a, ThermiteEventType::Input);
    bus.subscribe(b, ThermiteEventType::Input);
    let lock = store.get(a).unwrap().clone();
    let guard = lock.write().unwrap();
    let result = bus.dispatch_event(&key_released(), &store);
    drop(guard);
    assert_eq!(result, EventDispatchResult::Finished);
    assert_eq!(*log.lock().unwrap(), vec!["B"]);
    assert_eq!(bus.subscribers_of(&ThermiteEventType::Input), Some(vec![a, b]));
    let result = bus.dispatch_event(&key_released(), &store);
    assert_eq!(result, EventDispatchResult::Stopped);
    assert_eq!(*log.lock().unwrap(), vec!["B", "A"]);
}

#[test]
fn shared_bus_clears_removed_subscribers() {
    let log: SharedLog = Arc::new(Mutex::new(Vec::new()));
    let mut store = SharedSubscribers::new();
    let a = store.add(listener("A", BusRequest::NoActionNeeded, &log));
    let b = store.add(listener("B", BusRequest::Unsubscribe, &log));
    let mut bus = TSEventBus::new();
    bus.subscribe(a, ThermiteEventType::Input);
    bus.subscribe(b, ThermiteEventType::Input);
    assert!(store.remove(a));
    assert!(!store.remove(a));
    assert!(!store.is_live(&a));
    let event = ThermiteEvent::Mouse(MouseEvent::Motion(PixelCoordinates::new(640, 360)));
    assert_eq!(bus.dispatch_event(&event, &store), EventDispatchResult::Finished);
    assert_eq!(*log.lock().unwrap(), vec!["B"]);
    assert_eq!(bus.subscribers_of(&ThermiteEventType::Input), Some(vec![]));
}

#[test]
fn shared_bus_unsubscribe_and_unsubscribe_all() {
    let log: SharedLog = Arc::new(Mutex::new(Vec::new()));
    let mut store = SharedSubscribers::new();
    let a = store.add(listener("A", BusRequest::NoActionNeeded, &log));
    let b = store.add(listener("B", BusRequest::NoActionNeeded, &log));
    let c = store.add(listener("C", BusRequest::NoActionNeeded, &log));
    let mut bus = TSEventBus::new();
    bus.subscribe(a, ThermiteEventType::Input);
    bus.subscribe(b, ThermiteEventType::Input);
    bus.subscribe(c, ThermiteEventType::Input);
    bus.subscribe(c, ThermiteEventType::Window);
    bus.unsubscribe(&store, a, ThermiteEventType::Input);
    assert_eq!(bus.subscribers_of(&ThermiteEventType::Input), Some(vec![c, b]));
    bus.unsubscribe_all(ThermiteEventType::Input);
    assert_eq!(bus.subscribers_of(&ThermiteEventType::Input), None);
    assert_eq!(bus.dispatch_event(&key_released(), &store), EventDispatchResult::NotNeeded);
    assert!(log.lock().unwrap().is_empty());
    assert_eq!(bus.subscribers_of(&ThermiteEventType::Window), Some(vec![c]));
}

use thermite_core::input::keyboard::{KeyCode, KeyboardEvent, KeyboardModifiers, ALT, CTRL, LOGO, SHIFT};
use thermite_core::input::mouse::{MouseButton, MouseEvent, PixelCoordinates, ScrollDelta};
use thermite_core::messaging::event::{Event, TSEvent, ThermiteEvent, ThermiteEventType};

#[test]
fn modifiers_from_key_states() {
    assert_eq!(KeyboardModifiers::from_states(false, false, false, false).bits(), 0);
    assert_eq!(KeyboardModifiers::from_states(true, false, false, false).bits(), 0b0001);
    assert_eq!(KeyboardModifiers::from_states(false, true, true, false).bits(), 0b0110);
    assert_eq!(KeyboardModifiers::from_states(true, true, true, true).bits(), 0b1111);
    assert_eq!(KeyboardModifiers::from_states(false, false, false, true).bits(), LOGO);
    assert_eq!(KeyboardModifiers::empty(), KeyboardModifiers::default());
}

#[test]
fn modifiers_contain_their_keys() {
    let m = KeyboardModifiers::from_states(true, false, true, false);
    assert!(m.contains(SHIFT));
    assert!(m.contains(ALT));
    assert!(m.contains(SHIFT | ALT));
    assert!(!m.contains(CTRL));
    assert!(!m.contains(SHIFT | CTRL));
    assert!(KeyboardModifiers::empty().contains(0));
}

#[test]
fn every_event_is_input() {
    let key = ThermiteEvent::from(KeyboardEvent::KeyPressed(KeyCode { scancode: 30, mapped: None }));
    assert_eq!(key, ThermiteEvent::Keyboard(KeyboardEvent::KeyPressed(KeyCode { scancode: 30, mapped: None })));
    assert_eq!(Event::category(&key), ThermiteEventType::Input);
    assert_eq!(TSEvent::category(&key), ThermiteEventType::Input);
    let modifiers = ThermiteEvent::from(KeyboardEvent::ModifiersChanged(KeyboardModifiers::from_states(
        false, true, false, false,
    )));
    assert_eq!(Event::category(&modifiers), ThermiteEventType::Input);
    let mouse: ThermiteEvent = MouseEvent::ButtonReleased(MouseButton::Other(9)).into();
    assert_eq!(mouse, ThermiteEvent::Mouse(MouseEvent::ButtonReleased(MouseButton::Other(9))));
    assert_eq!(Event::category(&mouse), ThermiteEventType::Input);
    assert_eq!(Event::category(&ThermiteEvent::Mouse(MouseEvent::LeftWindow)), ThermiteEventType::Input);
}

#[test]
fn categories_compare_by_value() {
    assert_eq!(ThermiteEventType::Input, ThermiteEventType::Input);
    assert_ne!(ThermiteEventType::Input, ThermiteEventType::Window);
    assert_eq!(ThermiteEventType::Window, ThermiteEventType::Window);
}

#[test]
fn scroll_and_position_keep_their_axes() {
    let scroll = ScrollDelta::new(-3, 7);
    assert_eq!((scroll.x(), scroll.y()), (-3, 7));
    let position = PixelCoordinates::new(1920, 0);
    assert_eq!((position.x(), position.y()), (1920, 0));
    assert_ne!(MouseEvent::Scroll(scroll), MouseEvent::Scroll(ScrollDelta::new(7, -3)));
}

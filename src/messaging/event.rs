use vstd::prelude::*;
use vstd::laws_eq::obeys_concrete_eq;
use crate::input::keyboard::KeyboardEvent;
use crate::input::mouse::MouseEvent;

verus! {

/// A single-thread event, routed by its category `T`.
pub trait Event<T>: Sized {
    /// The category this event belongs to.
    spec fn category_spec(&self) -> T;

    fn category(&self) -> (c: T)
        ensures
            c == self.category_spec(),
    ;
}

/// An event that can be dispatched through a bus shared between threads.
pub trait TSEvent<T>: Sized + Send + Sync {
    /// The category this event belongs to.
    spec fn category_spec(&self) -> T;

    fn category(&self) -> (c: T)
        ensures
            c == self.category_spec(),
    ;
}

/// The categories of this engine's events.
#[derive(Debug, Clone, Copy, Eq, Hash)]
pub enum ThermiteEventType {
    Input,
    Window,
}

impl PartialEq for ThermiteEventType {
    fn eq(&self, other: &ThermiteEventType) -> (r: bool) {
        match (self, other) {
            (ThermiteEventType::Input, ThermiteEventType::Input) => true,
            (ThermiteEventType::Window, ThermiteEventType::Window) => true,
            _ => false,
        }
    }
}

impl vstd::std_specs::cmp::PartialEqSpecImpl for ThermiteEventType {
    open spec fn obeys_eq_spec() -> bool {
        true
    }

    open spec fn eq_spec(&self, other: &ThermiteEventType) -> bool {
        *self == *other
    }
}

/// This engine's categories compare by value, as a bus needs of its category type.
pub proof fn lemma_thermite_categories_compare_by_value()
    ensures
        obeys_concrete_eq::<ThermiteEventType>(),
{
    reveal(obeys_concrete_eq);
}

/// This engine's events.
#[derive(Debug, Clone, Copy, PartialEq, Eq, Hash, Structural)]
pub enum ThermiteEvent {
    Keyboard(KeyboardEvent),
    Mouse(MouseEvent),
}

/// Keyboard and mouse events are both input.
pub open spec fn thermite_category(e: ThermiteEvent) -> ThermiteEventType {
    match e {
        ThermiteEvent::Keyboard(_) => ThermiteEventType::Input,
        ThermiteEvent::Mouse(_) => ThermiteEventType::Input,
    }
}

impl Event<ThermiteEventType> for ThermiteEvent {
    open spec fn category_spec(&self) -> ThermiteEventType {
        thermite_category(*self)
    }

    fn category(&self) -> (c: ThermiteEventType) {
        match self {
            ThermiteEvent::Keyboard(_) => ThermiteEventType::Input,
            ThermiteEvent::Mouse(_) => ThermiteEventType::Input,
        }
    }
}

impl TSEvent<ThermiteEventType> for ThermiteEvent {
    open spec fn category_spec(&self) -> ThermiteEventType {
        thermite_category(*self)
    }

    fn category(&self) -> (c: ThermiteEventType) {
        match self {
            ThermiteEvent::Keyboard(_) => ThermiteEventType::Input,
            ThermiteEvent::Mouse(_) => ThermiteEventType::Input,
        }
    }
}

impl From<KeyboardEvent> for ThermiteEvent {
    fn from(e: KeyboardEvent) -> (r: ThermiteEvent) {
        ThermiteEvent::Keyboard(e)
    }
}

impl vstd::std_specs::convert::FromSpecImpl<KeyboardEvent> for ThermiteEvent {
    open spec fn obeys_from_spec() -> bool {
        true
    }

    open spec fn from_spec(e: KeyboardEvent) -> ThermiteEvent {
        ThermiteEvent::Keyboard(e)
    }
}

impl From<MouseEvent> for ThermiteEvent {
    fn from(e: MouseEvent) -> (r: ThermiteEvent) {
        ThermiteEvent::Mouse(e)
    }
}

impl vstd::std_specs::convert::FromSpecImpl<MouseEvent> for ThermiteEvent {
    open spec fn obeys_from_spec() -> bool {
        true
    }

    open spec fn from_spec(e: MouseEvent) -> ThermiteEvent {
        ThermiteEvent::Mouse(e)
    }
}

} // verus!

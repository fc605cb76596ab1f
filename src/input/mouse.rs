use vstd::prelude::*;

verus! {

/// A mouse button.
#[derive(Debug, Clone, Copy, PartialEq, Eq, Hash, Structural)]
pub enum MouseButton {
    Left,
    Right,
    Middle,
    Other(u16),
}

/// A scroll, in whole lines or pixels along each axis.
#[derive(Debug, Clone, Copy, PartialEq, Eq, Hash, Structural)]
pub struct ScrollDelta {
    x: i64,
    y: i64,
}

impl ScrollDelta {
    pub closed spec fn spec_x(&self) -> i64 {
        self.x
    }

    pub closed spec fn spec_y(&self) -> i64 {
        self.y
    }

    pub fn new(x: i64, y: i64) -> (r: Self)
        ensures
            r.spec_x() == x,
            r.spec_y() == y,
    {
        ScrollDelta { x, y }
    }

    pub fn x(&self) -> (r: i64)
        ensures
            r == self.spec_x(),
    {
        self.x
    }

    pub fn y(&self) -> (r: i64)
        ensures
            r == self.spec_y(),
    {
        self.y
    }
}

/// A cursor position in physical pixels.
#[derive(Debug, Clone, Copy, PartialEq, Eq, Hash, Structural)]
pub struct PixelCoordinates {
    x: u64,
    y: u64,
}

impl PixelCoordinates {
    pub closed spec fn spec_x(&self) -> u64 {
        self.x
    }

    pub closed spec fn spec_y(&self) -> u64 {
        self.y
    }

    pub fn new(x: u64, y: u64) -> (r: Self)
        ensures
            r.spec_x() == x,
            r.spec_y() == y,
    {
        PixelCoordinates { x, y }
    }

    pub fn x(&self) -> (r: u64)
        ensures
            r == self.spec_x(),
    {
        self.x
    }

    pub fn y(&self) -> (r: u64)
        ensures
            r == self.spec_y(),
    {
        self.y
    }
}

/// A mouse occurrence.
#[derive(Debug, Clone, Copy, PartialEq, Eq, Hash, Structural)]
pub enum MouseEvent {
    ButtonPressed(MouseButton),
    ButtonReleased(MouseButton),
    Scroll(ScrollDelta),
    Motion(PixelCoordinates),
    EnteredWindow,
    LeftWindow,
}

} // verus!

use vstd::prelude::*;

verus! {

/// A position in the plane. Each coordinate is held as the IEEE-754
/// binary32 bit pattern of the reported `f32`, so that positions are stored,
/// compared and relayed bit for bit.
#[derive(Debug, Clone, Copy, PartialEq, Eq, Structural)]
pub struct ClientPosition {
    pub x: u32,
    pub y: u32,
}

/// The directional controls a client reports with its movement.
#[derive(Debug, Clone, Copy, PartialEq, Eq, Structural)]
pub struct ClientControls {
    pub up: bool,
    pub down: bool,
    pub left: bool,
    pub right: bool,
}

/// One movement report decoded from a client frame.
#[derive(Debug, Clone, Copy, PartialEq, Eq, Structural)]
pub struct ClientData {
    pub player_controls: ClientControls,
    pub player_position: ClientPosition,
}

impl ClientPosition {
    /// The origin, `(0.0, 0.0)`: both bit patterns are zero.
    pub open spec fn spec_origin() -> ClientPosition {
        ClientPosition { x: 0, y: 0 }
    }

    pub fn origin() -> (r: ClientPosition)
        ensures
            r == ClientPosition::spec_origin(),
    {
        ClientPosition { x: 0, y: 0 }
    }
}

impl ClientControls {
    /// No direction pressed.
    pub open spec fn spec_released() -> ClientControls {
        ClientControls { up: false, down: false, left: false, right: false }
    }

    pub fn released() -> (r: ClientControls)
        ensures
            r == ClientControls::spec_released(),
    {
        ClientControls { up: false, down: false, left: false, right: false }
    }
}

} // verus!

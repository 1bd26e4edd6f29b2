//! What the type of a frame says about it.

use vstd::prelude::*;
use crate::types::{Frame, FrameType};

verus! {

/// Whether a type serves the protocol itself: every type but `Data`.
pub open spec fn type_is_control(t: FrameType) -> bool {
    !(t is Data)
}

/// Whether frames of a type are acknowledged: `Hello`, `Bye` and `Data`.
pub open spec fn type_requires_ack(t: FrameType) -> bool {
    t is Hello || t is Bye || t is Data
}

/// The priority of a type, higher for what matters more.
pub open spec fn type_priority(t: FrameType) -> u8 {
    match t {
        FrameType::Error => 255,
        FrameType::Ack => 200,
        FrameType::Hello => 150,
        FrameType::Welcome => 150,
        FrameType::Bye => 150,
        FrameType::Ping => 100,
        FrameType::Pong => 100,
        FrameType::Data => 50,
    }
}

/// What a frame type says.
pub trait FrameTypeExt {
    /// The type spoken of.
    spec fn subject(&self) -> FrameType;

    /// Whether frames of this type serve the protocol itself.
    fn is_control(&self) -> (r: bool)
        ensures
            r == type_is_control(self.subject()),
    ;

    /// Whether frames of this type are acknowledged.
    fn requires_ack(&self) -> (r: bool)
        ensures
            r == type_requires_ack(self.subject()),
    ;

    /// The priority of frames of this type, from 0 to 255.
    fn priority(&self) -> (r: u8)
        ensures
            r == type_priority(self.subject()),
    ;
}

impl FrameTypeExt for FrameType {
    open spec fn subject(&self) -> FrameType {
        *self
    }

    fn is_control(&self) -> (r: bool) {
        match self {
            FrameType::Data => false,
            _ => true,
        }
    }

    fn requires_ack(&self) -> (r: bool) {
        match self {
            FrameType::Hello => true,
            FrameType::Bye => true,
            FrameType::Data => true,
            _ => false,
        }
    }

    fn priority(&self) -> (r: u8) {
        match self {
            FrameType::Error => 255,
            FrameType::Ack => 200,
            FrameType::Hello => 150,
            FrameType::Welcome => 150,
            FrameType::Bye => 150,
            FrameType::Ping => 100,
            FrameType::Pong => 100,
            FrameType::Data => 50,
        }
    }
}

/// What a frame's type says about the frame.
pub trait FrameExt {
    /// The type of the frame spoken of.
    spec fn subject_type(&self) -> FrameType;

    /// The priority of the frame's type.
    fn priority(&self) -> (r: u8)
        ensures
            r == type_priority(self.subject_type()),
    ;

    /// Whether the frame serves the protocol itself.
    fn is_control(&self) -> (r: bool)
        ensures
            r == type_is_control(self.subject_type()),
    ;

    /// Whether the frame is acknowledged.
    fn requires_ack(&self) -> (r: bool)
        ensures
            r == type_requires_ack(self.subject_type()),
    ;
}

impl FrameExt for Frame {
    open spec fn subject_type(&self) -> FrameType {
        self.typ
    }

    fn priority(&self) -> (r: u8) {
        self.typ.priority()
    }

    fn is_control(&self) -> (r: bool) {
        self.typ.is_control()
    }

    fn requires_ack(&self) -> (r: bool) {
        self.typ.requires_ack()
    }
}

} // verus!

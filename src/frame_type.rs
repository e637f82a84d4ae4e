//! The four kinds of AV1 frame.
use vstd::prelude::*;

verus! {

/// The kind of a coded frame.
#[derive(Debug, Clone, Copy, PartialEq, Eq, Structural)]
pub enum FrameType {
    Key,
    Inter,
    IntraOnly,
    Switch,
}

impl FrameType {
    /// Key and intra-only frames use no other frame for prediction.
    pub open spec fn spec_is_intra(self) -> bool {
        self == FrameType::Key || self == FrameType::IntraOnly
    }

    /// Whether the frame is coded without reference to other frames.
    pub fn is_intra(self) -> (r: bool)
        ensures
            r == self.spec_is_intra(),
    {
        self == FrameType::Key || self == FrameType::IntraOnly
    }

    /// The frame kind coded by the two-bit `frame_type` field.
    pub fn from_code(code: u64) -> (r: FrameType)
        requires
            code < 4,
        ensures
            r == frame_type_of(code as nat),
    {
        if code == 0 {
            FrameType::Key
        } else if code == 1 {
            FrameType::Inter
        } else if code == 2 {
            FrameType::IntraOnly
        } else {
            FrameType::Switch
        }
    }
}

/// The frame kind coded by `code`.
pub open spec fn frame_type_of(code: nat) -> FrameType {
    if code == 0 {
        FrameType::Key
    } else if code == 1 {
        FrameType::Inter
    } else if code == 2 {
        FrameType::IntraOnly
    } else {
        FrameType::Switch
    }
}

} // verus!

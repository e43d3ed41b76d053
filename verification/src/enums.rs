//! Core enumerations describing a 2x2x2 cube's state: axes, faces, corner
//! slots and corner orientations.

use vstd::prelude::*;

verus! {

/// One of the three coordinate axes.
#[derive(Copy, Clone, PartialEq, Eq, Structural, Debug)]
pub enum CubeDir {
    X,
    Y,
    Z,
}

/// One of the six axis-aligned directions.
#[derive(Copy, Clone, PartialEq, Eq, Structural, Debug)]
pub enum CubeSide {
    PosX,
    NegX,
    PosY,
    NegY,
    PosZ,
    NegZ,
}

/// One of the six physical faces of the cube.
#[derive(Copy, Clone, PartialEq, Eq, Structural, Debug)]
pub enum CubeRealSide {
    R,
    L,
    U,
    D,
    F,
    B,
}

/// One of the eight geometric corners of the cube.
#[derive(Copy, Clone, PartialEq, Eq, Structural, Debug)]
pub enum CubeCorner {
    FUR,
    FUL,
    FDR,
    FDL,
    BUR,
    BUL,
    BDR,
    BDL,
}

/// One of the eight corner slots a cubie can occupy.
#[derive(Copy, Clone, PartialEq, Eq, Structural, Debug)]
pub enum CornerPos {
    FUR,
    FUL,
    FDR,
    FDL,
    BUR,
    BUL,
    BDR,
    BDL,
}

/// A corner orientation: one of the three rotational states of a corner
/// cubie, closed under composition (modulo-3 addition).
#[derive(Copy, Clone, PartialEq, Eq, Structural, Debug)]
pub enum CornerTwist {
    Rot0,
    Rot1,
    Rot2,
}

impl CornerPos {
    /// The canonical index of this slot, in `[0, 8)`.
    pub open spec fn as_int(self) -> int {
        match self {
            CornerPos::FUR => 0,
            CornerPos::FUL => 1,
            CornerPos::FDR => 2,
            CornerPos::FDL => 3,
            CornerPos::BUR => 4,
            CornerPos::BUL => 5,
            CornerPos::BDR => 6,
            CornerPos::BDL => 7,
        }
    }

    /// The slot with the given canonical index.
    pub open spec fn spec_from_int(value: int) -> CornerPos {
        if value == 0 {
            CornerPos::FUR
        } else if value == 1 {
            CornerPos::FUL
        } else if value == 2 {
            CornerPos::FDR
        } else if value == 3 {
            CornerPos::FDL
        } else if value == 4 {
            CornerPos::BUR
        } else if value == 5 {
            CornerPos::BUL
        } else if value == 6 {
            CornerPos::BDR
        } else {
            CornerPos::BDL
        }
    }

    /// The slot index determines the slot and lies in `[0, 8)`; index 7
    /// is exactly the gauge slot BDL.
    pub proof fn lemma_as_int(self)
        ensures
            0 <= self.as_int() < 8,
            CornerPos::spec_from_int(self.as_int()) == self,
            self.as_int() == 7 <==> self == CornerPos::BDL,
    {
    }

    pub fn to_u32(self) -> (r: u32)
        ensures
            r == self.as_int(),
    {
        match self {
            CornerPos::FUR => 0,
            CornerPos::FUL => 1,
            CornerPos::FDR => 2,
            CornerPos::FDL => 3,
            CornerPos::BUR => 4,
            CornerPos::BUL => 5,
            CornerPos::BDR => 6,
            CornerPos::BDL => 7,
        }
    }

    pub fn from_u32(value: u32) -> (r: Self)
        requires
            value < 8,
        ensures
            r == CornerPos::spec_from_int(value as int),
            r.as_int() == value,
    {
        match value {
            0 => CornerPos::FUR,
            1 => CornerPos::FUL,
            2 => CornerPos::FDR,
            3 => CornerPos::FDL,
            4 => CornerPos::BUR,
            5 => CornerPos::BUL,
            6 => CornerPos::BDR,
            _ => CornerPos::BDL,
        }
    }
}

impl CornerTwist {
    /// The orientation as a value in `[0, 3)`.
    pub open spec fn as_int(self) -> int {
        match self {
            CornerTwist::Rot0 => 0,
            CornerTwist::Rot1 => 1,
            CornerTwist::Rot2 => 2,
        }
    }

    /// The orientation with the given value in `[0, 3)`.
    pub open spec fn spec_from_int(value: int) -> CornerTwist {
        if value == 0 {
            CornerTwist::Rot0
        } else if value == 1 {
            CornerTwist::Rot1
        } else {
            CornerTwist::Rot2
        }
    }

    /// Composition of two orientation deltas: modulo-3 addition.
    pub open spec fn spec_permutate(self, rot: CornerTwist) -> CornerTwist {
        CornerTwist::spec_from_int((self.as_int() + rot.as_int()) % 3)
    }

    /// The orientation value determines the orientation and lies in
    /// `[0, 3)`.
    pub proof fn lemma_as_int(self)
        ensures
            0 <= self.as_int() < 3,
            CornerTwist::spec_from_int(self.as_int()) == self,
    {
    }

    pub fn to_u32(self) -> (r: u32)
        ensures
            r == self.as_int(),
    {
        match self {
            CornerTwist::Rot0 => 0,
            CornerTwist::Rot1 => 1,
            CornerTwist::Rot2 => 2,
        }
    }

    pub fn from_u32(value: u32) -> (r: Self)
        requires
            value < 3,
        ensures
            r == CornerTwist::spec_from_int(value as int),
            r.as_int() == value,
    {
        match value {
            0 => CornerTwist::Rot0,
            1 => CornerTwist::Rot1,
            _ => CornerTwist::Rot2,
        }
    }

    /// Composes this orientation with a further twist `rot`; the result is
    /// modulo-3 addition of the two orientation values.
    pub fn permutate(&self, rot: &Self) -> (r: Self)
        ensures
            r == self.spec_permutate(*rot),
            r.as_int() == (self.as_int() + rot.as_int()) % 3,
    {
        match rot {
            Self::Rot0 => *self,
            Self::Rot1 => match self {
                Self::Rot0 => Self::Rot1,
                Self::Rot1 => Self::Rot2,
                Self::Rot2 => Self::Rot0,
            },
            Self::Rot2 => match self {
                Self::Rot0 => Self::Rot2,
                Self::Rot1 => Self::Rot0,
                Self::Rot2 => Self::Rot1,
            },
        }
    }
}

} // verus!

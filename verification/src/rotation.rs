//! Display-time page rotation (the underlying document is never modified).

use vstd::prelude::*;

verus! {

/// Display-time page rotation, in clockwise quarter turns.
#[derive(Debug, Clone, Copy, PartialEq, Eq, Hash, Structural)]
pub enum PdfPageRotation {
    /// No rotation (0°).
    R0,
    /// 90° clockwise.
    R90,
    /// 180°.
    R180,
    /// 270° clockwise (= 90° counter-clockwise).
    R270,
}

/// A single rotation step.
#[derive(Debug, Clone, Copy, PartialEq, Eq, Structural)]
pub enum RotationDelta {
    /// Rotate 90° clockwise.
    Clockwise,
    /// Rotate 90° counter-clockwise.
    CounterClockwise,
}

impl PdfPageRotation {
    /// Number of clockwise quarter turns this rotation stands for (0..=3).
    pub open spec fn quarter_turns(self) -> int {
        match self {
            PdfPageRotation::R0 => 0,
            PdfPageRotation::R90 => 1,
            PdfPageRotation::R180 => 2,
            PdfPageRotation::R270 => 3,
        }
    }

    /// The rotation made of `q` clockwise quarter turns (taken modulo 4).
    pub open spec fn from_quarter_turns(q: int) -> PdfPageRotation {
        let r = q % 4;
        if r == 0 {
            PdfPageRotation::R0
        } else if r == 1 {
            PdfPageRotation::R90
        } else if r == 2 {
            PdfPageRotation::R180
        } else {
            PdfPageRotation::R270
        }
    }

    /// The rotation reached from `self` by one step of `delta`.
    pub open spec fn stepped(self, delta: RotationDelta) -> PdfPageRotation {
        PdfPageRotation::from_quarter_turns(self.quarter_turns() + delta.quarter_turns())
    }

    /// Returns the rotation in degrees (0, 90, 180, 270).
    pub fn as_degrees(self) -> (degrees: u16)
        ensures
            degrees == 90 * self.quarter_turns(),
    {
        match self {
            PdfPageRotation::R0 => 0,
            PdfPageRotation::R90 => 90,
            PdfPageRotation::R180 => 180,
            PdfPageRotation::R270 => 270,
        }
    }

    /// Apply a delta step.
    pub fn apply(self, delta: RotationDelta) -> (rotated: PdfPageRotation)
        ensures
            rotated == self.stepped(delta),
    {
        match delta {
            RotationDelta::Clockwise => match self {
                PdfPageRotation::R0 => PdfPageRotation::R90,
                PdfPageRotation::R90 => PdfPageRotation::R180,
                PdfPageRotation::R180 => PdfPageRotation::R270,
                PdfPageRotation::R270 => PdfPageRotation::R0,
            },
            RotationDelta::CounterClockwise => match self {
                PdfPageRotation::R0 => PdfPageRotation::R270,
                PdfPageRotation::R90 => PdfPageRotation::R0,
                PdfPageRotation::R180 => PdfPageRotation::R90,
                PdfPageRotation::R270 => PdfPageRotation::R180,
            },
        }
    }
}

impl RotationDelta {
    /// Clockwise quarter turns made by this step (a counter-clockwise step is three).
    pub open spec fn quarter_turns(self) -> int {
        match self {
            RotationDelta::Clockwise => 1,
            RotationDelta::CounterClockwise => 3,
        }
    }

    /// The step that undoes this one.
    pub open spec fn inverse(self) -> RotationDelta {
        match self {
            RotationDelta::Clockwise => RotationDelta::CounterClockwise,
            RotationDelta::CounterClockwise => RotationDelta::Clockwise,
        }
    }
}

impl Default for PdfPageRotation {
    fn default() -> (r: PdfPageRotation)
        ensures
            r == PdfPageRotation::R0,
    {
        PdfPageRotation::R0
    }
}

/// A rotation step followed by the opposite step gives back the rotation
/// that was there before.
pub proof fn lemma_apply_then_inverse(r: PdfPageRotation, delta: RotationDelta)
    ensures
        r.stepped(delta).stepped(delta.inverse()) == r,
{
}

/// Four steps in the same direction give back the starting rotation.
pub proof fn lemma_four_steps_identity(r: PdfPageRotation, delta: RotationDelta)
    ensures
        r.stepped(delta).stepped(delta).stepped(delta).stepped(delta) == r,
{
}

/// A clockwise step adds 90 degrees, modulo a full turn; a counter-clockwise
/// step takes 90 away, modulo a full turn.
pub proof fn lemma_step_degrees(r: PdfPageRotation, delta: RotationDelta)
    ensures
        0 <= r.quarter_turns() < 4,
        delta == RotationDelta::Clockwise ==> 90 * r.stepped(delta).quarter_turns() == (90
            * r.quarter_turns() + 90) % 360,
        delta == RotationDelta::CounterClockwise ==> 90 * r.stepped(delta).quarter_turns() == (90
            * r.quarter_turns() + 270) % 360,
{
}

/// Distinct rotations have distinct angles.
pub proof fn lemma_degrees_injective(a: PdfPageRotation, b: PdfPageRotation)
    ensures
        a.quarter_turns() == b.quarter_turns() ==> a == b,
{
}

} // verus!

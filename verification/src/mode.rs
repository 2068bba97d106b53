use vstd::prelude::*;

verus! {

/// The device's control modes that carry unit-conversion behaviour.
/// A session whose mode is not yet determined holds `Option::<LensMode>::None`.
#[derive(Clone, Copy, Debug, PartialEq, Eq, Structural)]
pub enum LensMode {
    Current,
    FocalPower,
}

/// The tag byte under which the device reports each mode.
pub open spec fn mode_tag(m: LensMode) -> u8 {
    match m {
        LensMode::Current => 1,
        LensMode::FocalPower => 5,
    }
}

/// Reading of a device mode report: tags other than the two known modes
/// leave the mode undetermined.
pub open spec fn mode_of_tag(b: u8) -> Option<LensMode> {
    if b == 1 {
        Some(LensMode::Current)
    } else if b == 5 {
        Some(LensMode::FocalPower)
    } else {
        None
    }
}

/// The two readings are faithful to each other: every named mode's tag reads
/// back as that mode.
pub proof fn lemma_mode_tag_roundtrip(m: LensMode)
    ensures
        mode_of_tag(mode_tag(m)) == Some(m),
{
}

/// Decodes the mode byte of a mode-query reply.
pub fn mode_from_u8(b: u8) -> (r: Option<LensMode>)
    ensures
        r == mode_of_tag(b),
{
    if b == 1 {
        Some(LensMode::Current)
    } else if b == 5 {
        Some(LensMode::FocalPower)
    } else {
        None
    }
}

} // verus!

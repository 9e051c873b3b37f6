//! Feedback that the simulation hands to whoever plays sounds and draws
//! effects. It never changes what the simulation does.

use vstd::prelude::*;
use crate::geometry::Vec2;

verus! {

/// What happened.
#[derive(Clone, Copy, Debug, PartialEq, Eq, Structural)]
pub enum SoundType {
    /// A tower shot.
    Shoot,
    /// An enemy died of a hit.
    Death,
    /// A bullet hit an enemy.
    Hit,
}

/// One piece of feedback: what happened, and where.
#[derive(Clone, Copy, Debug, PartialEq, Eq, Structural)]
pub struct SoundEvent {
    pub sound_type: SoundType,
    pub position: Vec2,
}

/// How many times the terminal bell rings for a sound.
pub open spec fn bell_count(sound_type: SoundType) -> nat {
    match sound_type {
        SoundType::Shoot => 1,
        SoundType::Death => 2,
        SoundType::Hit => 1,
    }
}

/// The text that rings the terminal bell for a sound: one bell character for
/// a shot or a hit, two for a death.
pub fn console_beep(sound_type: SoundType) -> (text: &'static str)
    ensures
        text@ == Seq::new(bell_count(sound_type), |i: int| '\x07'),
{
    match sound_type {
        SoundType::Shoot => {
            proof {
                reveal_strlit("\x07");
            }
            assert("\x07"@ =~= Seq::new(1, |i: int| '\x07'));
            "\x07"
        },
        SoundType::Death => {
            proof {
                reveal_strlit("\x07\x07");
            }
            assert("\x07\x07"@ =~= Seq::new(2, |i: int| '\x07'));
            "\x07\x07"
        },
        SoundType::Hit => {
            proof {
                reveal_strlit("\x07");
            }
            assert("\x07"@ =~= Seq::new(1, |i: int| '\x07'));
            "\x07"
        },
    }
}

} // verus!

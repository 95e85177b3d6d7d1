//! The closed set of character animation clips an action can play.

use vstd::prelude::*;

verus! {

/// Which animation clip the rendering layer should play for a piece.
/// The resolution loop only stores and compares these tags; playing the
/// clip itself is the host renderer's job.
#[derive(Debug, Default, Eq, PartialEq, Structural, Hash, Clone, Copy)]
pub enum AnimKey {
    Walk,
    Attack,
    Kick,
    Shoot,
    Strike,
    Sleep,
    Hurt,
    #[default]
    Idle,
    Swing,
    Double,
    Hop,
    Charge,
    Rotate,
    EventSleep,
    Wake,
    Eat,
    Tumble,
    Pose,
    Pull,
    Pain,
    Float,
    DeepBreath,
    Nod,
    Sit,
    LookUp,
    Sink,
    Trip,
    Laying,
    LeapForth,
    Head,
    Cringe,
    LostBalance,
    TumbleBack,
    TailWhip,
    Faint,
    HitGround,
    Dance,
    Shake,
    SpAttack,
    Twirl,
    Withdraw,
    Ricochet,
}

} // verus!

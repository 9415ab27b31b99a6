use vstd::prelude::*;

verus! {

/// Walking speed of the agent: 5 units per second.
pub const WALK_SPEED: i64 = 5000;

/// Turning speed of the agent: 2 radians per second, in milliradians.
pub const TURN_RATE_MRAD: i64 = 2000;

/// Speed at which the camera pitch changes: 2 radians per second.
pub const PITCH_RATE_MRAD: i64 = 2000;

/// The camera pitch stays within 1.5 radians either way.
pub const PITCH_LIMIT_MRAD: i64 = 1500;

/// The keys held this frame that steer the agent.
#[derive(Clone, Copy, Debug, PartialEq, Eq, Structural)]
pub struct DriveKeys {
    pub forward: bool,
    pub back: bool,
    pub turn_left: bool,
    pub turn_right: bool,
    pub turn_left_alt: bool,
    pub turn_right_alt: bool,
    pub sprint: bool,
}

/// What the agent does this frame: its speed along its heading (milli-units
/// per second, negative when backing) and its turning rate (milliradians per
/// second, positive to the left).
#[derive(Clone, Copy, Debug, PartialEq, Eq, Structural)]
pub struct Drive {
    pub speed: i64,
    pub turn_rate: i64,
}

pub open spec fn key_sign(plus: bool, minus: bool) -> int {
    (if plus { 1int } else { 0 }) - (if minus { 1int } else { 0 })
}

/// The drive for a set of keys: forward and back cancel, sprint doubles the
/// speed, and each of the four turn keys adds its turn.
pub open spec fn drive_spec(k: DriveKeys) -> Drive {
    let speed: int = if k.sprint { 2 * WALK_SPEED } else { WALK_SPEED as int };
    Drive {
        speed: (key_sign(k.forward, k.back) * speed) as i64,
        turn_rate: ((key_sign(k.turn_left, k.turn_right) + key_sign(k.turn_left_alt, k.turn_right_alt))
            * TURN_RATE_MRAD) as i64,
    }
}

fn sign_of(plus: bool, minus: bool) -> (r: i64)
    ensures
        r == key_sign(plus, minus),
{
    let a: i64 = if plus { 1 } else { 0 };
    let b: i64 = if minus { 1 } else { 0 };
    a - b
}

/// How the held keys move the agent this frame.
pub fn drive_from_keys(k: DriveKeys) -> (r: Drive)
    ensures
        r == drive_spec(k),
{
    let speed: i64 = if k.sprint { 2 * WALK_SPEED } else { WALK_SPEED };
    let ahead = sign_of(k.forward, k.back);
    let turn = sign_of(k.turn_left, k.turn_right) + sign_of(k.turn_left_alt, k.turn_right_alt);
    Drive { speed: ahead * speed, turn_rate: turn * TURN_RATE_MRAD }
}

/// The camera pitch after a frame in which the pitch keys were held: it
/// moves at the pitch rate (not at all when both or neither are held) and is
/// held within the pitch limit.
pub open spec fn pitch_spec(pitch: int, up: bool, down: bool, dt_ms: int) -> int {
    let step = (PITCH_RATE_MRAD * dt_ms) / 1000;
    let p = if up && !down {
        pitch + step
    } else if down && !up {
        pitch - step
    } else {
        pitch
    };
    if p > PITCH_LIMIT_MRAD {
        PITCH_LIMIT_MRAD as int
    } else if p < -PITCH_LIMIT_MRAD {
        -PITCH_LIMIT_MRAD
    } else {
        p
    }
}

/// Adjusts the camera pitch, in milliradians, for one frame of any length;
/// a pitch that starts out of bounds is brought back within them. The sum is
/// taken on 128 bits, where it always fits.
pub fn adjust_pitch(pitch: i64, up: bool, down: bool, dt_ms: i64) -> (r: i64)
    requires
        0 <= dt_ms,
    ensures
        r == pitch_spec(pitch as int, up, down, dt_ms as int),
        -PITCH_LIMIT_MRAD <= r <= PITCH_LIMIT_MRAD,
{
    let step: i128 = (PITCH_RATE_MRAD as i128) * (dt_ms as i128) / 1000;
    let p: i128 = if up && !down {
        pitch as i128 + step
    } else if down && !up {
        pitch as i128 - step
    } else {
        pitch as i128
    };
    if p > PITCH_LIMIT_MRAD as i128 {
        PITCH_LIMIT_MRAD
    } else if p < -PITCH_LIMIT_MRAD as i128 {
        -PITCH_LIMIT_MRAD
    } else {
        p as i64
    }
}

} // verus!

//! Typed messages exchanged over the serial link, and the bounded
//! actuator command they carry.
//!
//! Axis values travel on the wire as IEEE-754 single-precision floats.  The
//! library holds each axis as its 32-bit pattern, so that the codec can be
//! exact about every byte and the saturation logic can be stated and proved
//! at the bit level.  Callers that work in floating point convert with
//! `f32::to_bits` / `f32::from_bits` at the boundary.

use vstd::prelude::*;
use crate::CommunicationError;

verus! {

/// Bit pattern of +1.0f32; also the largest magnitude inside [-1.0, 1.0].
pub const ONE_BITS: u32 = 0x3F80_0000;
/// Bit pattern of -1.0f32.
pub const NEG_ONE_BITS: u32 = 0xBF80_0000;
/// Magnitude of the infinities; anything above is a NaN.
pub const INF_MAG: u32 = 0x7F80_0000;
/// Mask selecting the magnitude (everything but the sign bit).
pub const MAG_MASK: u32 = 0x7FFF_FFFF;
/// Mask selecting the sign bit.
pub const SIGN_MASK: u32 = 0x8000_0000;

/// Desired speed on each of the four thruster axes, one IEEE-754 single
/// bit pattern per axis.  Semantically each axis lies in [-1.0, 1.0].
#[derive(Clone, Copy, Debug, PartialEq, Eq, Structural)]
pub struct VelocityData {
    pub forwards_left: u32,
    pub forwards_right: u32,
    pub strafing: u32,
    pub vertical: u32,
}

/// Host-to-device traffic: a velocity command, or a payload-free liveness
/// heartbeat.
#[derive(Clone, Copy, Debug, PartialEq, Eq, Structural)]
pub enum DownstreamMessage {
    VelocityDataMessage(VelocityData),
    Msg,
}

/// Device-to-host traffic.
#[derive(Debug)]
pub enum UpstreamMessage {
    /// Sent once at boot, before any command is accepted.
    Init,
    /// A chunk of raw sensor bytes.
    IMUStream(Vec<u8>),
    /// A chunk of log text, as raw bytes.
    Log(Vec<u8>),
    /// The firmware hit an unrecoverable fault.
    Panic,
    /// The last inbound frame decoded and verified.
    Ack,
    /// The receive buffer overran before a terminator arrived.
    BadO,
    /// The last inbound frame failed to decode or verify.
    BadP(CommunicationError),
}

/// Mathematical shape of an `UpstreamMessage`, with byte payloads as
/// sequences.  Contracts about the codec speak of this type.
pub enum UpMsg {
    Init,
    IMUStream(Seq<u8>),
    Log(Seq<u8>),
    Panic,
    Ack,
    BadO,
    BadP(CommunicationError),
}

impl View for UpstreamMessage {
    type V = UpMsg;

    open spec fn view(&self) -> UpMsg {
        match self {
            UpstreamMessage::Init => UpMsg::Init,
            UpstreamMessage::IMUStream(b) => UpMsg::IMUStream(b@),
            UpstreamMessage::Log(b) => UpMsg::Log(b@),
            UpstreamMessage::Panic => UpMsg::Panic,
            UpstreamMessage::Ack => UpMsg::Ack,
            UpstreamMessage::BadO => UpMsg::BadO,
            UpstreamMessage::BadP(e) => UpMsg::BadP(*e),
        }
    }
}

/// Whether a bit pattern is a NaN (magnitude above that of the infinities).
pub open spec fn is_nan_bits(x: u32) -> bool {
    x & MAG_MASK > INF_MAG
}

/// Whether a bit pattern denotes a float in [-1.0, 1.0].
pub open spec fn in_unit_range(x: u32) -> bool {
    x & MAG_MASK <= ONE_BITS
}

/// Saturation of one axis to [-1.0, 1.0], on bit patterns: values already in
/// range and NaNs pass unchanged, anything larger collapses to the unit value
/// of its sign.
pub open spec fn clamp_bits(x: u32) -> u32 {
    if in_unit_range(x) || is_nan_bits(x) {
        x
    } else if x & SIGN_MASK == 0 {
        ONE_BITS
    } else {
        NEG_ONE_BITS
    }
}

/// `clamp` applied to every axis.
pub open spec fn clamp_velocity(v: VelocityData) -> VelocityData {
    VelocityData {
        forwards_left: clamp_bits(v.forwards_left),
        forwards_right: clamp_bits(v.forwards_right),
        strafing: clamp_bits(v.strafing),
        vertical: clamp_bits(v.vertical),
    }
}

/// Saturation of one axis value.
fn clamp_axis(x: u32) -> (r: u32)
    ensures
        r == clamp_bits(x),
{
    let mag = x & MAG_MASK;
    if mag <= ONE_BITS || mag > INF_MAG {
        x
    } else if x & SIGN_MASK == 0 {
        ONE_BITS
    } else {
        NEG_ONE_BITS
    }
}

impl VelocityData {
    /// Saturates every axis independently to [-1.0, 1.0]; no cross-axis
    /// normalization.
    pub fn clamp(&self) -> (r: VelocityData)
        ensures
            r == clamp_velocity(*self),
    {
        VelocityData {
            forwards_left: clamp_axis(self.forwards_left),
            forwards_right: clamp_axis(self.forwards_right),
            strafing: clamp_axis(self.strafing),
            vertical: clamp_axis(self.vertical),
        }
    }
}

impl Default for VelocityData {
    /// The all-zero command: safe idle on every axis.
    fn default() -> (r: VelocityData)
        ensures
            r == (VelocityData { forwards_left: 0u32, forwards_right: 0u32, strafing: 0u32, vertical: 0u32 }),
    {
        VelocityData { forwards_left: 0, forwards_right: 0, strafing: 0, vertical: 0 }
    }
}

/// Saturating one axis never leaves [-1.0, 1.0] unless the input was a NaN,
/// keeps in-range inputs unchanged, and is idempotent.
pub proof fn lemma_clamp_axis(x: u32)
    ensures
        !is_nan_bits(x) ==> in_unit_range(clamp_bits(x)),
        in_unit_range(x) ==> clamp_bits(x) == x,
        clamp_bits(clamp_bits(x)) == clamp_bits(x),
{
    assert(ONE_BITS & MAG_MASK <= ONE_BITS) by (bit_vector);
    assert(NEG_ONE_BITS & MAG_MASK <= ONE_BITS) by (bit_vector);
}

/// Saturating a command is idempotent, keeps commands whose axes are already
/// in range unchanged, and yields axes in [-1.0, 1.0] wherever the input axis
/// was not a NaN.
pub proof fn lemma_clamp_idempotent(v: VelocityData)
    ensures
        clamp_velocity(clamp_velocity(v)) == clamp_velocity(v),
        (in_unit_range(v.forwards_left) && in_unit_range(v.forwards_right)
            && in_unit_range(v.strafing) && in_unit_range(v.vertical))
            ==> clamp_velocity(v) == v,
        !is_nan_bits(v.forwards_left) ==> in_unit_range(clamp_velocity(v).forwards_left),
        !is_nan_bits(v.forwards_right) ==> in_unit_range(clamp_velocity(v).forwards_right),
        !is_nan_bits(v.strafing) ==> in_unit_range(clamp_velocity(v).strafing),
        !is_nan_bits(v.vertical) ==> in_unit_range(clamp_velocity(v).vertical),
{
    lemma_clamp_axis(v.forwards_left);
    lemma_clamp_axis(v.forwards_right);
    lemma_clamp_axis(v.strafing);
    lemma_clamp_axis(v.vertical);
}

} // verus!

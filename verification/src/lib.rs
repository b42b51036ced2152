//! Firmware control core for a remotely piloted multi-thruster vehicle.
//!
//! The library covers the framed, checksummed serial protocol spoken between
//! the host computer and the device, the lock-free byte hand-off between the
//! receive interrupt and the main loop, and the reconciliation of remote
//! commands with the local joystick into one bounded actuator command.

use vstd::prelude::*;

pub mod controller;
pub mod cobs;
pub mod crc;
pub mod queue;
pub mod reassembly;
pub mod session;
pub mod state;
pub mod wire;

use crate::controller::{DownstreamMessage, UpMsg, UpstreamMessage};

verus! {

/// Serial speed of the host link.
pub const BAUD_RATE_CTRL: u32 = 1000000;
/// Serial speed of the forwarding link.
pub const BAUD_RATE_FORWARD: u32 = 1000000;
/// Serial speed of the motor-controller link.
pub const BAUD_RATE_SABERTOOTH: u32 = 38400;
/// Serial speed of the auxiliary board link.
pub const BAUD_RATE_NANO: u32 = 57600;

/// Why a frame failed to encode or decode.
#[derive(Clone, Copy, Debug, PartialEq, Eq, Structural)]
pub enum CommunicationError {
    /// The payload held an invalid discriminant or field encoding.
    BadData,
    /// The checksum computed over the payload differed from the stored one;
    /// carries the computed value, then the received value.
    BadCheckSum(u16, u16),
    /// The frame ended before the payload and checksum were complete.
    EOF,
    /// The output buffer was too small for the stuffed frame.
    BufferFull,
    /// An internal invariant failed.
    InternalError,
}

/// True exactly on the reserved frame terminator byte.
pub fn end_of_frame(byte: &u8) -> (r: bool)
    ensures
        r == (*byte == 0u8),
{
    *byte == 0x00
}

/// The complete frame a host-to-device message travels as: the payload and
/// its checksum, stuffed, then the terminator.
pub open spec fn frame_down(m: DownstreamMessage) -> Seq<u8> {
    cobs::stuff(wire::ser_down(m) + wire::le16(crc::crc16_of(wire::ser_down(m)))) + seq![0u8]
}

/// The complete frame a device-to-host message travels as.
pub open spec fn frame_up(m: UpMsg) -> Seq<u8> {
    cobs::stuff(wire::ser_up(m) + wire::le16(crc::crc16_of(wire::ser_up(m)))) + seq![0u8]
}

/// What decoding a received byte span yields, before the payload is typed:
/// the unstuffed payload when the span is a well-formed frame whose checksum
/// matches, the error otherwise.
pub open spec fn read_raw_spec(s: Seq<u8>) -> Result<Seq<u8>, CommunicationError> {
    match cobs::unstuff(s) {
        Option::None => Err(CommunicationError::BadData),
        Option::Some(dec) => if dec.len() <= 3 {
            Err(CommunicationError::EOF)
        } else {
            let payload = dec.take(dec.len() - 3);
            let stored = wire::rd16(dec[dec.len() - 3], dec[dec.len() - 2]);
            let computed = crc::crc16_of(payload);
            if computed == stored {
                Ok(payload)
            } else {
                Err(CommunicationError::BadCheckSum(computed, stored))
            }
        },
    }
}

/// What decoding a received byte span yields as a host-to-device message.
pub open spec fn read_down_spec(s: Seq<u8>) -> Result<DownstreamMessage, CommunicationError> {
    match read_raw_spec(s) {
        Ok(payload) => wire::parse_down(payload),
        Err(e) => Err(e),
    }
}

/// What decoding a received byte span yields as a device-to-host message.
pub open spec fn read_up_spec(s: Seq<u8>) -> Result<UpMsg, CommunicationError> {
    match read_raw_spec(s) {
        Ok(payload) => wire::parse_up(payload),
        Err(e) => Err(e),
    }
}

/// Builds the frame for an already serialized payload; `BufferFull` when the
/// stuffed frame would not fit in `limit` bytes.
fn write_payload(payload: Vec<u8>, limit: usize) -> (r: Result<Vec<u8>, CommunicationError>)
    ensures
        ({
            let f = cobs::stuff(payload@ + wire::le16(crc::crc16_of(payload@))) + seq![0u8];
            if f.len() <= limit {
                r matches Ok(v) && v@ == f
            } else {
                r == Err::<Vec<u8>, CommunicationError>(CommunicationError::BufferFull)
            }
        }),
{
    let crc_value = crc::checksum(&payload);
    let mut data = payload;
    wire::push_le16(&mut data, crc_value);
    let frame = cobs::encode_frame(&data);
    if frame.len() <= limit {
        Ok(frame)
    } else {
        Err(CommunicationError::BufferFull)
    }
}

/// Encodes a host-to-device message into a fresh frame, refusing with
/// `BufferFull` any frame longer than `limit` bytes (the size of the
/// caller's transmit buffer).  No partial frame is ever produced.
pub fn write(obj: &DownstreamMessage, limit: usize) -> (r: Result<Vec<u8>, CommunicationError>)
    ensures
        frame_down(*obj).len() <= limit ==> (r matches Ok(v) && v@ == frame_down(*obj)),
        frame_down(*obj).len() > limit ==> r == Err::<Vec<u8>, CommunicationError>(
            CommunicationError::BufferFull,
        ),
{
    let payload = wire::serialize_down(obj);
    write_payload(payload, limit)
}

/// Encodes a device-to-host message into a fresh frame.  A message whose
/// byte span exceeds the length prefix, or whose frame exceeds `limit`
/// bytes, is refused with `BufferFull`; no partial frame is ever produced.
pub fn write_up(obj: &UpstreamMessage, limit: usize) -> (r: Result<Vec<u8>, CommunicationError>)
    ensures
        wire::valid_up(obj@) && frame_up(obj@).len() <= limit ==> (r matches Ok(v) && v@
            == frame_up(obj@)),
        !(wire::valid_up(obj@) && frame_up(obj@).len() <= limit) ==> r == Err::<
            Vec<u8>,
            CommunicationError,
        >(CommunicationError::BufferFull),
{
    match wire::serialize_up(obj) {
        Option::Some(payload) => write_payload(payload, limit),
        Option::None => Err(CommunicationError::BufferFull),
    }
}

/// Decodes one received frame (terminator included) into the raw verified
/// payload: unstuffs, checks the length, and verifies the checksum,
/// reporting both checksum values on a mismatch.
fn read_payload(buffer: &Vec<u8>) -> (r: Result<Vec<u8>, CommunicationError>)
    ensures
        match r {
            Ok(v) => read_raw_spec(buffer@) == Ok::<Seq<u8>, CommunicationError>(v@),
            Err(e) => read_raw_spec(buffer@) == Err::<Seq<u8>, CommunicationError>(e),
        },
{
    match cobs::decode_frame(buffer) {
        Option::None => Err(CommunicationError::BadData),
        Option::Some(dec) => {
            if dec.len() <= 3 {
                Err(CommunicationError::EOF)
            } else {
                let n = dec.len() - 3;
                let payload = copy_prefix(&dec, n);
                let stored = (dec[n] as u16) | ((dec[n + 1] as u16) << 8);
                let computed = crc::checksum(&payload);
                if computed == stored {
                    Ok(payload)
                } else {
                    Err(CommunicationError::BadCheckSum(computed, stored))
                }
            }
        },
    }
}

/// Copies the first `n` bytes of a decoded frame.
fn copy_prefix(p: &Vec<u8>, n: usize) -> (out: Vec<u8>)
    requires
        n <= p.len(),
    ensures
        out@ == p@.take(n as int),
{
    let mut out = Vec::new();
    let mut k: usize = 0;
    while k < n
        invariant
            k <= n,
            n <= p.len(),
            out@ == p@.take(k as int),
        decreases n - k,
    {
        out.push(p[k]);
        proof {
            assert(p@.take(k + 1) =~= p@.take(k as int) + seq![p@[k as int]]);
        }
        k = k + 1;
    }
    out
}

/// Decodes one received frame as a host-to-device message: a frame is never
/// interpreted unless its checksum matches.
pub fn read(buffer: &Vec<u8>) -> (r: Result<DownstreamMessage, CommunicationError>)
    ensures
        r == read_down_spec(buffer@),
{
    match read_payload(buffer) {
        Ok(payload) => wire::deserialize_down(&payload),
        Err(e) => Err(e),
    }
}

/// Decodes one received frame as a device-to-host message.
pub fn read_up(buffer: &Vec<u8>) -> (r: Result<UpstreamMessage, CommunicationError>)
    ensures
        match r {
            Ok(m) => read_up_spec(buffer@) == Ok::<UpMsg, CommunicationError>(m@),
            Err(e) => read_up_spec(buffer@) == Err::<UpMsg, CommunicationError>(e),
        },
{
    match read_payload(buffer) {
        Ok(payload) => wire::deserialize_up(&payload),
        Err(e) => Err(e),
    }
}

/// No silent acceptance: two received spans that unstuff to the same
/// length, carry the same stored checksum and terminator, and differ in
/// exactly one payload byte can never both pass the checksum: at most one
/// of them is ever interpreted.  In particular a flipped payload byte under
/// an unchanged checksum is rejected.
pub proof fn lemma_no_silent_acceptance(f1: Seq<u8>, f2: Seq<u8>, i: int)
    requires
        cobs::unstuff(f1) is Some,
        cobs::unstuff(f2) is Some,
        cobs::unstuff(f1)->Some_0.len() == cobs::unstuff(f2)->Some_0.len(),
        cobs::unstuff(f1)->Some_0.len() > 3,
        0 <= i < cobs::unstuff(f1)->Some_0.len() - 3,
        cobs::unstuff(f1)->Some_0[i] != cobs::unstuff(f2)->Some_0[i],
        forall|j: int| 0 <= j < cobs::unstuff(f1)->Some_0.len() && j != i
            ==> cobs::unstuff(f1)->Some_0[j] == cobs::unstuff(f2)->Some_0[j],
    ensures
        !(read_raw_spec(f1) is Ok && read_raw_spec(f2) is Ok),
{
    let d1 = cobs::unstuff(f1)->Some_0;
    let d2 = cobs::unstuff(f2)->Some_0;
    let p1 = d1.take(d1.len() - 3);
    let p2 = d2.take(d2.len() - 3);
    assert(p1[i] != p2[i]);
    assert(forall|j: int| 0 <= j < p1.len() && j != i ==> p1[j] == p2[j]);
    crc::lemma_checksum_sensitivity(p1, p2, i);
    assert(wire::rd16(d1[d1.len() - 3], d1[d1.len() - 2]) == wire::rd16(
        d2[d2.len() - 3],
        d2[d2.len() - 2],
    ));
}

/// Round trip: every host-to-device message decodes from its own frame.
pub proof fn lemma_round_trip_down(m: DownstreamMessage)
    ensures
        read_down_spec(frame_down(m)) == Ok::<DownstreamMessage, CommunicationError>(m),
{
    let payload = wire::ser_down(m);
    let d = payload + wire::le16(crc::crc16_of(payload));
    cobs::lemma_unstuff_stuff(d);
    let dec = d + seq![0u8];
    assert(dec.len() == payload.len() + 3);
    assert(dec.take(dec.len() - 3) =~= payload);
    assert(dec[dec.len() - 3] == wire::le16(crc::crc16_of(payload))[0]);
    assert(dec[dec.len() - 2] == wire::le16(crc::crc16_of(payload))[1]);
    wire::lemma_le16_rd(crc::crc16_of(payload));
    wire::lemma_parse_ser_down(m);
}

/// Round trip: every device-to-host message whose byte spans fit the length
/// prefix decodes from its own frame.
pub proof fn lemma_round_trip_up(m: UpMsg)
    requires
        wire::valid_up(m),
    ensures
        read_up_spec(frame_up(m)) == Ok::<UpMsg, CommunicationError>(m),
{
    let payload = wire::ser_up(m);
    let d = payload + wire::le16(crc::crc16_of(payload));
    cobs::lemma_unstuff_stuff(d);
    let dec = d + seq![0u8];
    assert(dec.len() == payload.len() + 3);
    assert(dec.take(dec.len() - 3) =~= payload);
    assert(dec[dec.len() - 3] == wire::le16(crc::crc16_of(payload))[0]);
    assert(dec[dec.len() - 2] == wire::le16(crc::crc16_of(payload))[1]);
    wire::lemma_le16_rd(crc::crc16_of(payload));
    wire::lemma_parse_ser_up(m);
}

} // verus!

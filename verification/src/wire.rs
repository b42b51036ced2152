//! Binary layout of the typed messages: one discriminant byte, then the
//! fields in declared order; byte spans are length-prefixed with a
//! little-endian 16-bit count; axis values travel as four little-endian
//! 32-bit words.

use vstd::prelude::*;
use crate::CommunicationError;
use crate::controller::{DownstreamMessage, UpMsg, UpstreamMessage, VelocityData};

verus! {

/// The two bytes of `x`, low first.
pub open spec fn le16(x: u16) -> Seq<u8> {
    seq![(x & 0xff) as u8, ((x >> 8) & 0xff) as u8]
}

/// The four bytes of `x`, low first.
pub open spec fn le32(x: u32) -> Seq<u8> {
    seq![
        (x & 0xff) as u8,
        ((x >> 8) & 0xff) as u8,
        ((x >> 16) & 0xff) as u8,
        ((x >> 24) & 0xff) as u8,
    ]
}

/// The value two little-endian bytes hold.
pub open spec fn rd16(b0: u8, b1: u8) -> u16 {
    (b0 as u16) | ((b1 as u16) << 8)
}

/// The value four little-endian bytes hold.
pub open spec fn rd32(b0: u8, b1: u8, b2: u8, b3: u8) -> u32 {
    (b0 as u32) | ((b1 as u32) << 8) | ((b2 as u32) << 16) | ((b3 as u32) << 24)
}

pub proof fn lemma_le16_rd(x: u16)
    ensures
        rd16(le16(x)[0], le16(x)[1]) == x,
{
    assert((((x & 0xff) as u8) as u16) | (((((x >> 8) & 0xff) as u8) as u16) << 8) == x)
        by (bit_vector);
}

pub proof fn lemma_le32_rd(x: u32)
    ensures
        rd32(le32(x)[0], le32(x)[1], le32(x)[2], le32(x)[3]) == x,
{
    assert((((x & 0xff) as u8) as u32) | (((((x >> 8) & 0xff) as u8) as u32) << 8)
        | (((((x >> 16) & 0xff) as u8) as u32) << 16)
        | (((((x >> 24) & 0xff) as u8) as u32) << 24) == x) by (bit_vector);
}

/// Serialized form of a velocity command: the four axes, low byte first.
pub open spec fn ser_velocity(v: VelocityData) -> Seq<u8> {
    le32(v.forwards_left) + le32(v.forwards_right) + le32(v.strafing) + le32(v.vertical)
}

/// Serialized form of a host-to-device message.
pub open spec fn ser_down(m: DownstreamMessage) -> Seq<u8> {
    match m {
        DownstreamMessage::VelocityDataMessage(v) => seq![0u8] + ser_velocity(v),
        DownstreamMessage::Msg => seq![1u8],
    }
}

/// Serialized form of an error report.
pub open spec fn ser_err(e: CommunicationError) -> Seq<u8> {
    match e {
        CommunicationError::BadData => seq![0u8],
        CommunicationError::BadCheckSum(c, x) => seq![1u8] + le16(c) + le16(x),
        CommunicationError::EOF => seq![2u8],
        CommunicationError::BufferFull => seq![3u8],
        CommunicationError::InternalError => seq![4u8],
    }
}

/// Serialized form of a device-to-host message.
pub open spec fn ser_up(m: UpMsg) -> Seq<u8> {
    match m {
        UpMsg::Init => seq![0u8],
        UpMsg::IMUStream(b) => seq![1u8] + le16(b.len() as u16) + b,
        UpMsg::Log(b) => seq![2u8] + le16(b.len() as u16) + b,
        UpMsg::Panic => seq![3u8],
        UpMsg::Ack => seq![4u8],
        UpMsg::BadO => seq![5u8],
        UpMsg::BadP(e) => seq![6u8] + ser_err(e),
    }
}

/// Whether a device-to-host message fits its layout: byte spans must fit the
/// 16-bit length prefix.
pub open spec fn valid_up(m: UpMsg) -> bool {
    match m {
        UpMsg::IMUStream(b) => b.len() <= 0xFFFF,
        UpMsg::Log(b) => b.len() <= 0xFFFF,
        _ => true,
    }
}

/// What a payload deserializes to as a host-to-device message.  Bytes past
/// the encoding are ignored.
pub open spec fn parse_down(p: Seq<u8>) -> Result<DownstreamMessage, CommunicationError> {
    if p.len() == 0 {
        Err(CommunicationError::EOF)
    } else if p[0] == 0 {
        if p.len() >= 17 {
            Ok(DownstreamMessage::VelocityDataMessage(VelocityData {
                forwards_left: rd32(p[1], p[2], p[3], p[4]),
                forwards_right: rd32(p[5], p[6], p[7], p[8]),
                strafing: rd32(p[9], p[10], p[11], p[12]),
                vertical: rd32(p[13], p[14], p[15], p[16]),
            }))
        } else {
            Err(CommunicationError::EOF)
        }
    } else if p[0] == 1 {
        Ok(DownstreamMessage::Msg)
    } else {
        Err(CommunicationError::BadData)
    }
}

/// What a payload deserializes to as a device-to-host message.
pub open spec fn parse_up(p: Seq<u8>) -> Result<UpMsg, CommunicationError> {
    if p.len() == 0 {
        Err(CommunicationError::EOF)
    } else if p[0] == 0 {
        Ok(UpMsg::Init)
    } else if p[0] == 1 || p[0] == 2 {
        if p.len() >= 3 {
            let n = rd16(p[1], p[2]) as int;
            if p.len() >= 3 + n {
                if p[0] == 1 {
                    Ok(UpMsg::IMUStream(p.subrange(3, 3 + n)))
                } else {
                    Ok(UpMsg::Log(p.subrange(3, 3 + n)))
                }
            } else {
                Err(CommunicationError::EOF)
            }
        } else {
            Err(CommunicationError::EOF)
        }
    } else if p[0] == 3 {
        Ok(UpMsg::Panic)
    } else if p[0] == 4 {
        Ok(UpMsg::Ack)
    } else if p[0] == 5 {
        Ok(UpMsg::BadO)
    } else if p[0] == 6 {
        if p.len() < 2 {
            Err(CommunicationError::EOF)
        } else if p[1] == 0 {
            Ok(UpMsg::BadP(CommunicationError::BadData))
        } else if p[1] == 1 {
            if p.len() >= 6 {
                Ok(UpMsg::BadP(CommunicationError::BadCheckSum(
                    rd16(p[2], p[3]),
                    rd16(p[4], p[5]),
                )))
            } else {
                Err(CommunicationError::EOF)
            }
        } else if p[1] == 2 {
            Ok(UpMsg::BadP(CommunicationError::EOF))
        } else if p[1] == 3 {
            Ok(UpMsg::BadP(CommunicationError::BufferFull))
        } else if p[1] == 4 {
            Ok(UpMsg::BadP(CommunicationError::InternalError))
        } else {
            Err(CommunicationError::BadData)
        }
    } else {
        Err(CommunicationError::BadData)
    }
}

/// Deserializing inverts serializing, for host-to-device messages.
pub proof fn lemma_parse_ser_down(m: DownstreamMessage)
    ensures
        parse_down(ser_down(m)) == Ok::<DownstreamMessage, CommunicationError>(m),
{
    match m {
        DownstreamMessage::VelocityDataMessage(v) => {
            let p = ser_down(m);
            assert(p.len() == 17);
            lemma_le32_rd(v.forwards_left);
            lemma_le32_rd(v.forwards_right);
            lemma_le32_rd(v.strafing);
            lemma_le32_rd(v.vertical);
            assert(p[1] == le32(v.forwards_left)[0]);
            assert(p[2] == le32(v.forwards_left)[1]);
            assert(p[3] == le32(v.forwards_left)[2]);
            assert(p[4] == le32(v.forwards_left)[3]);
            assert(p[5] == le32(v.forwards_right)[0]);
            assert(p[6] == le32(v.forwards_right)[1]);
            assert(p[7] == le32(v.forwards_right)[2]);
            assert(p[8] == le32(v.forwards_right)[3]);
            assert(p[9] == le32(v.strafing)[0]);
            assert(p[10] == le32(v.strafing)[1]);
            assert(p[11] == le32(v.strafing)[2]);
            assert(p[12] == le32(v.strafing)[3]);
            assert(p[13] == le32(v.vertical)[0]);
            assert(p[14] == le32(v.vertical)[1]);
            assert(p[15] == le32(v.vertical)[2]);
            assert(p[16] == le32(v.vertical)[3]);
        },
        DownstreamMessage::Msg => {},
    }
}

/// Deserializing inverts serializing, for device-to-host messages whose
/// spans fit the length prefix.
pub proof fn lemma_parse_ser_up(m: UpMsg)
    requires
        valid_up(m),
    ensures
        parse_up(ser_up(m)) == Ok::<UpMsg, CommunicationError>(m),
{
    match m {
        UpMsg::IMUStream(b) => {
            let p = ser_up(m);
            let n = b.len() as u16;
            lemma_le16_rd(n);
            assert(p[1] == le16(n)[0]);
            assert(p[2] == le16(n)[1]);
            assert(p.subrange(3, 3 + b.len() as int) =~= b);
        },
        UpMsg::Log(b) => {
            let p = ser_up(m);
            let n = b.len() as u16;
            lemma_le16_rd(n);
            assert(p[1] == le16(n)[0]);
            assert(p[2] == le16(n)[1]);
            assert(p.subrange(3, 3 + b.len() as int) =~= b);
        },
        UpMsg::BadP(e) => {
            let p = ser_up(m);
            match e {
                CommunicationError::BadCheckSum(c, x) => {
                    lemma_le16_rd(c);
                    lemma_le16_rd(x);
                    assert(p[2] == le16(c)[0]);
                    assert(p[3] == le16(c)[1]);
                    assert(p[4] == le16(x)[0]);
                    assert(p[5] == le16(x)[1]);
                },
                _ => {},
            }
        },
        _ => {},
    }
}

pub(crate) fn push_le16(out: &mut Vec<u8>, x: u16)
    ensures
        final(out)@ == old(out)@ + le16(x),
{
    out.push((x & 0xff) as u8);
    out.push(((x >> 8) & 0xff) as u8);
    proof {
        assert(out@ =~= old(out)@ + le16(x));
    }
}

fn push_le32(out: &mut Vec<u8>, x: u32)
    ensures
        final(out)@ == old(out)@ + le32(x),
{
    out.push((x & 0xff) as u8);
    out.push(((x >> 8) & 0xff) as u8);
    out.push(((x >> 16) & 0xff) as u8);
    out.push(((x >> 24) & 0xff) as u8);
    proof {
        assert(out@ =~= old(out)@ + le32(x));
    }
}

/// Serializes a host-to-device message.
pub fn serialize_down(m: &DownstreamMessage) -> (out: Vec<u8>)
    ensures
        out@ == ser_down(*m),
{
    let mut out = Vec::new();
    match m {
        DownstreamMessage::VelocityDataMessage(v) => {
            out.push(0);
            push_le32(&mut out, v.forwards_left);
            push_le32(&mut out, v.forwards_right);
            push_le32(&mut out, v.strafing);
            push_le32(&mut out, v.vertical);
            proof {
                assert(out@ =~= ser_down(*m));
            }
        },
        DownstreamMessage::Msg => {
            out.push(1);
            proof {
                assert(out@ =~= ser_down(*m));
            }
        },
    }
    out
}

fn push_bytes(out: &mut Vec<u8>, b: &Vec<u8>)
    ensures
        final(out)@ == old(out)@ + b@,
{
    let mut k: usize = 0;
    while k < b.len()
        invariant
            k <= b.len(),
            out@ == old(out)@ + b@.take(k as int),
        decreases b.len() - k,
    {
        out.push(b[k]);
        proof {
            assert(b@.take(k + 1) =~= b@.take(k as int) + seq![b@[k as int]]);
        }
        k = k + 1;
    }
    proof {
        assert(b@.take(b@.len() as int) =~= b@);
    }
}

/// Serializes a device-to-host message; `None` when a byte span exceeds the
/// 16-bit length prefix.
pub fn serialize_up(m: &UpstreamMessage) -> (r: Option<Vec<u8>>)
    ensures
        match r {
            Option::Some(out) => valid_up(m@) && out@ == ser_up(m@),
            Option::None => !valid_up(m@),
        },
{
    let mut out = Vec::new();
    match m {
        UpstreamMessage::Init => {
            out.push(0);
        },
        UpstreamMessage::IMUStream(b) => {
            if b.len() > 0xFFFF {
                return None;
            }
            out.push(1);
            push_le16(&mut out, b.len() as u16);
            push_bytes(&mut out, b);
        },
        UpstreamMessage::Log(b) => {
            if b.len() > 0xFFFF {
                return None;
            }
            out.push(2);
            push_le16(&mut out, b.len() as u16);
            push_bytes(&mut out, b);
        },
        UpstreamMessage::Panic => {
            out.push(3);
        },
        UpstreamMessage::Ack => {
            out.push(4);
        },
        UpstreamMessage::BadO => {
            out.push(5);
        },
        UpstreamMessage::BadP(e) => {
            out.push(6);
            match e {
                CommunicationError::BadData => {
                    out.push(0);
                },
                CommunicationError::BadCheckSum(c, x) => {
                    out.push(1);
                    push_le16(&mut out, *c);
                    push_le16(&mut out, *x);
                },
                CommunicationError::EOF => {
                    out.push(2);
                },
                CommunicationError::BufferFull => {
                    out.push(3);
                },
                CommunicationError::InternalError => {
                    out.push(4);
                },
            }
        },
    }
    proof {
        assert(out@ =~= ser_up(m@));
    }
    Some(out)
}

fn read_u16(p: &Vec<u8>, i: usize) -> (r: u16)
    requires
        i + 2 <= p.len(),
    ensures
        r == rd16(p@[i as int], p@[i + 1]),
{
    (p[i] as u16) | ((p[i + 1] as u16) << 8)
}

fn read_u32(p: &Vec<u8>, i: usize) -> (r: u32)
    requires
        i + 4 <= p.len(),
    ensures
        r == rd32(p@[i as int], p@[i + 1], p@[i + 2], p@[i + 3]),
{
    (p[i] as u32) | ((p[i + 1] as u32) << 8) | ((p[i + 2] as u32) << 16)
        | ((p[i + 3] as u32) << 24)
}

/// Deserializes a payload as a host-to-device message.
pub fn deserialize_down(p: &Vec<u8>) -> (r: Result<DownstreamMessage, CommunicationError>)
    ensures
        r == parse_down(p@),
{
    if p.len() == 0 {
        return Err(CommunicationError::EOF);
    }
    let t = p[0];
    if t == 0 {
        if p.len() >= 17 {
            Ok(DownstreamMessage::VelocityDataMessage(VelocityData {
                forwards_left: read_u32(p, 1),
                forwards_right: read_u32(p, 5),
                strafing: read_u32(p, 9),
                vertical: read_u32(p, 13),
            }))
        } else {
            Err(CommunicationError::EOF)
        }
    } else if t == 1 {
        Ok(DownstreamMessage::Msg)
    } else {
        Err(CommunicationError::BadData)
    }
}

fn copy_range(p: &Vec<u8>, start: usize, end: usize) -> (out: Vec<u8>)
    requires
        start <= end <= p.len(),
    ensures
        out@ == p@.subrange(start as int, end as int),
{
    let mut out = Vec::new();
    let mut k = start;
    while k < end
        invariant
            start <= k <= end,
            end <= p.len(),
            out@ == p@.subrange(start as int, k as int),
        decreases end - k,
    {
        out.push(p[k]);
        proof {
            assert(p@.subrange(start as int, k + 1)
                =~= p@.subrange(start as int, k as int) + seq![p@[k as int]]);
        }
        k = k + 1;
    }
    out
}

/// Deserializes a payload as a device-to-host message.
pub fn deserialize_up(p: &Vec<u8>) -> (r: Result<UpstreamMessage, CommunicationError>)
    ensures
        match r {
            Ok(m) => parse_up(p@) == Ok::<UpMsg, CommunicationError>(m@),
            Err(e) => parse_up(p@) == Err::<UpMsg, CommunicationError>(e),
        },
{
    if p.len() == 0 {
        return Err(CommunicationError::EOF);
    }
    let t = p[0];
    if t == 0 {
        Ok(UpstreamMessage::Init)
    } else if t == 1 || t == 2 {
        if p.len() < 3 {
            return Err(CommunicationError::EOF);
        }
        let n = read_u16(p, 1) as usize;
        if p.len() < 3 + n {
            return Err(CommunicationError::EOF);
        }
        let body = copy_range(p, 3, 3 + n);
        if t == 1 {
            Ok(UpstreamMessage::IMUStream(body))
        } else {
            Ok(UpstreamMessage::Log(body))
        }
    } else if t == 3 {
        Ok(UpstreamMessage::Panic)
    } else if t == 4 {
        Ok(UpstreamMessage::Ack)
    } else if t == 5 {
        Ok(UpstreamMessage::BadO)
    } else if t == 6 {
        if p.len() < 2 {
            return Err(CommunicationError::EOF);
        }
        let v = p[1];
        if v == 0 {
            Ok(UpstreamMessage::BadP(CommunicationError::BadData))
        } else if v == 1 {
            if p.len() < 6 {
                return Err(CommunicationError::EOF);
            }
            Ok(UpstreamMessage::BadP(CommunicationError::BadCheckSum(
                read_u16(p, 2),
                read_u16(p, 4),
            )))
        } else if v == 2 {
            Ok(UpstreamMessage::BadP(CommunicationError::EOF))
        } else if v == 3 {
            Ok(UpstreamMessage::BadP(CommunicationError::BufferFull))
        } else if v == 4 {
            Ok(UpstreamMessage::BadP(CommunicationError::InternalError))
        } else {
            Err(CommunicationError::BadData)
        }
    } else {
        Err(CommunicationError::BadData)
    }
}

} // verus!

//! Frame codec: round trips, checksum behaviour, and error reporting.

use common::controller::{DownstreamMessage, UpstreamMessage, VelocityData};
use common::{cobs, crc, read, read_up, wire, write_up, CommunicationError};

fn velocity(fl: f32, fr: f32, s: f32, v: f32) -> VelocityData {
    VelocityData {
        forwards_left: fl.to_bits(),
        forwards_right: fr.to_bits(),
        strafing: s.to_bits(),
        vertical: v.to_bits(),
    }
}

#[test]
fn test_communication() {
    let command = DownstreamMessage::VelocityDataMessage(velocity(4.0, 3.0, 2.0, 1.0));

    let buffer = common::write(&command, 200).unwrap();
    let received = read(&buffer).unwrap();

    match received {
        DownstreamMessage::VelocityDataMessage(data) => {
            assert_eq!(f32::from_bits(data.forwards_left), 4.0);
            assert_eq!(f32::from_bits(data.forwards_right), 3.0);
            assert_eq!(f32::from_bits(data.strafing), 2.0);
            assert_eq!(f32::from_bits(data.vertical), 1.0);
        }
        _ => {
            panic!()
        }
    }
}

#[test]
fn round_trip_heartbeat() {
    let frame = common::write(&DownstreamMessage::Msg, 200).unwrap();
    assert_eq!(read(&frame).unwrap(), DownstreamMessage::Msg);
}

#[test]
fn concrete_scenario_command_round_trip() {
    let command = DownstreamMessage::VelocityDataMessage(velocity(0.5, -0.5, 0.0, 1.0));
    let frame = common::write(&command, 200).unwrap();
    match read(&frame).unwrap() {
        DownstreamMessage::VelocityDataMessage(data) => {
            assert_eq!(f32::from_bits(data.forwards_left), 0.5);
            assert_eq!(f32::from_bits(data.forwards_right), -0.5);
            assert_eq!(f32::from_bits(data.strafing), 0.0);
            assert_eq!(f32::from_bits(data.vertical), 1.0);
        }
        _ => {
            panic!()
        }
    }
}

#[test]
fn concrete_scenario_corrupt_checksum_low_byte() {
    let command = DownstreamMessage::VelocityDataMessage(velocity(0.5, -0.5, 0.0, 1.0));
    let payload = wire::serialize_down(&command);
    let computed = crc::checksum(&payload);
    let stored = computed ^ 0x01;
    let mut data = payload;
    data.push((stored & 0xff) as u8);
    data.push(((stored >> 8) & 0xff) as u8);
    let frame = cobs::encode_frame(&data);
    match read(&frame) {
        Err(CommunicationError::BadCheckSum(c, e)) => {
            assert_eq!(c, computed);
            assert_eq!(e, stored);
            assert_ne!(c, e);
        }
        other => panic!("{:?}", other),
    }
}

#[test]
fn single_bit_flip_is_never_accepted_silently() {
    let command = DownstreamMessage::VelocityDataMessage(velocity(0.25, -0.75, 0.125, 1.0));
    let frame = common::write(&command, 200).unwrap();
    // flip each bit of each payload byte in turn (everything before the
    // trailing checksum bytes and terminator) and watch the decoder refuse
    for i in 1..frame.len() - 3 {
        for bit in 0..8 {
            let mut tampered = frame.clone();
            tampered[i] ^= 1u8 << bit;
            match read(&tampered) {
                Ok(m) => assert_eq!(m, command),
                Err(_) => {}
            }
        }
    }
}

#[test]
fn checksum_known_value() {
    let digits: Vec<u8> = vec![0x31, 0x32, 0x33, 0x34, 0x35, 0x36, 0x37, 0x38, 0x39];
    assert_eq!(crc::checksum(&digits), 0xBB3D);
}

#[test]
fn cobs_stuffing_known_vectors() {
    let data = vec![0x11u8, 0x22, 0x00, 0x33];
    let frame = cobs::encode_frame(&data);
    assert_eq!(frame, vec![0x03u8, 0x11, 0x22, 0x02, 0x33, 0x00]);
    let decoded = cobs::decode_frame(&frame).unwrap();
    assert_eq!(decoded, vec![0x11u8, 0x22, 0x00, 0x33, 0x00]);

    let empty: Vec<u8> = Vec::new();
    assert_eq!(cobs::encode_frame(&empty), vec![0x01u8, 0x00]);
}

#[test]
fn cobs_long_run_round_trip() {
    let mut data: Vec<u8> = Vec::new();
    for i in 0..300usize {
        data.push((i % 250 + 1) as u8);
    }
    let frame = cobs::encode_frame(&data);
    for &b in frame[..frame.len() - 1].iter() {
        assert_ne!(b, 0);
    }
    let mut expected = data.clone();
    expected.push(0);
    assert_eq!(cobs::decode_frame(&frame).unwrap(), expected);
}

#[test]
fn truncated_frame_reports_eof() {
    // a lone terminator decodes to too few bytes for payload and checksum
    let frame = vec![0u8];
    assert_eq!(read(&frame), Err(CommunicationError::EOF));
}

#[test]
fn malformed_stuffing_reports_bad_data() {
    // the code byte announces more data than the span holds
    let frame = vec![0x05u8, 0x01];
    assert_eq!(read(&frame), Err(CommunicationError::BadData));
}

#[test]
fn unknown_discriminant_reports_bad_data() {
    let payload = vec![0x09u8];
    let c = crc::checksum(&payload);
    let mut data = payload;
    data.push((c & 0xff) as u8);
    data.push(((c >> 8) & 0xff) as u8);
    let frame = cobs::encode_frame(&data);
    assert_eq!(read(&frame), Err(CommunicationError::BadData));
}

#[test]
fn short_velocity_payload_reports_eof() {
    // discriminant promises four axis words that never arrive
    let payload = vec![0x00u8, 0x01, 0x02];
    let c = crc::checksum(&payload);
    let mut data = payload;
    data.push((c & 0xff) as u8);
    data.push(((c >> 8) & 0xff) as u8);
    let frame = cobs::encode_frame(&data);
    assert_eq!(read(&frame), Err(CommunicationError::EOF));
}

#[test]
fn tiny_buffer_reports_buffer_full() {
    let frame = common::write(&DownstreamMessage::Msg, 2);
    assert_eq!(frame, Err(CommunicationError::BufferFull));
}

fn up_round_trip(m: UpstreamMessage) -> UpstreamMessage {
    let frame = write_up(&m, 100000).unwrap();
    read_up(&frame).unwrap()
}

#[test]
fn round_trip_upstream_variants() {
    match up_round_trip(UpstreamMessage::Init) {
        UpstreamMessage::Init => {}
        other => panic!("{:?}", other),
    }
    match up_round_trip(UpstreamMessage::IMUStream(vec![1, 2, 3, 0, 255])) {
        UpstreamMessage::IMUStream(b) => assert_eq!(b, vec![1, 2, 3, 0, 255]),
        other => panic!("{:?}", other),
    }
    match up_round_trip(UpstreamMessage::Log(vec![b'h', b'i'])) {
        UpstreamMessage::Log(b) => assert_eq!(b, vec![b'h', b'i']),
        other => panic!("{:?}", other),
    }
    match up_round_trip(UpstreamMessage::Panic) {
        UpstreamMessage::Panic => {}
        other => panic!("{:?}", other),
    }
    match up_round_trip(UpstreamMessage::Ack) {
        UpstreamMessage::Ack => {}
        other => panic!("{:?}", other),
    }
    match up_round_trip(UpstreamMessage::BadO) {
        UpstreamMessage::BadO => {}
        other => panic!("{:?}", other),
    }
}

#[test]
fn round_trip_upstream_error_reports() {
    let errors = vec![
        CommunicationError::BadData,
        CommunicationError::BadCheckSum(0x1234, 0x5678),
        CommunicationError::EOF,
        CommunicationError::BufferFull,
        CommunicationError::InternalError,
    ];
    for e in errors {
        match up_round_trip(UpstreamMessage::BadP(e)) {
            UpstreamMessage::BadP(got) => assert_eq!(got, e),
            other => panic!("{:?}", other),
        }
    }
}

#[test]
fn oversized_upstream_span_reports_buffer_full() {
    let big = vec![7u8; 70000];
    let r = write_up(&UpstreamMessage::IMUStream(big), 1000000);
    assert_eq!(r, Err(CommunicationError::BufferFull));
}

#[test]
fn end_of_frame_marks_only_the_terminator() {
    assert!(common::end_of_frame(&0x00));
    assert!(!common::end_of_frame(&0x01));
    assert!(!common::end_of_frame(&0xFF));
}

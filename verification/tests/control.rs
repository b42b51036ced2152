//! Byte queue, reassembly, and command reconciliation.

use common::controller::{DownstreamMessage, UpstreamMessage, VelocityData};
use common::queue::ByteQueue;
use common::reassembly::Reassembler;
use common::session::poll_link;
use common::state::{State, REMOTE_TIMEOUT_MS};
use common::CommunicationError;

fn velocity(fl: f32, fr: f32, s: f32, v: f32) -> VelocityData {
    VelocityData {
        forwards_left: fl.to_bits(),
        forwards_right: fr.to_bits(),
        strafing: s.to_bits(),
        vertical: v.to_bits(),
    }
}

#[test]
fn queue_preserves_fifo_order() {
    let mut q = ByteQueue::new();
    for i in 0..100u8 {
        q.enqueue(i).unwrap();
    }
    for i in 0..100u8 {
        assert_eq!(q.dequeue(), Some(i));
    }
    assert_eq!(q.len(), 0);
    assert_eq!(q.dequeue(), None);
}

#[test]
fn queue_reports_full_and_recovers() {
    let mut q = ByteQueue::new();
    for i in 0..255usize {
        q.enqueue((i % 200) as u8).unwrap();
    }
    assert_eq!(q.enqueue(42), Err(CommunicationError::BufferFull));
    assert_eq!(q.dequeue(), Some(0));
    // one slot came free again
    q.enqueue(42).unwrap();
    for i in 1..255usize {
        assert_eq!(q.dequeue(), Some((i % 200) as u8));
    }
    assert_eq!(q.dequeue(), Some(42));
    assert_eq!(q.dequeue(), None);
}

#[test]
fn clamp_saturates_each_axis() {
    let v = velocity(4.0, 3.0, 2.0, 1.0).clamp();
    assert_eq!(f32::from_bits(v.forwards_left), 1.0);
    assert_eq!(f32::from_bits(v.forwards_right), 1.0);
    assert_eq!(f32::from_bits(v.strafing), 1.0);
    assert_eq!(f32::from_bits(v.vertical), 1.0);

    let w = velocity(-1.1, -1.0, -0.5, 0.0).clamp();
    assert_eq!(f32::from_bits(w.forwards_left), -1.0);
    assert_eq!(f32::from_bits(w.forwards_right), -1.0);
    assert_eq!(f32::from_bits(w.strafing), -0.5);
    assert_eq!(f32::from_bits(w.vertical), 0.0);
}

#[test]
fn clamp_is_idempotent_and_keeps_range() {
    let cases = vec![-2.5f32, -1.0, -0.999, 0.0, 0.25, 1.0, 37.0, f32::INFINITY, f32::NEG_INFINITY];
    for x in cases {
        let v = velocity(x, x, x, x);
        let once = v.clamp();
        let twice = once.clamp();
        assert_eq!(once, twice);
        let y = f32::from_bits(once.forwards_left);
        assert!((-1.0..=1.0).contains(&y));
        if (-1.0..=1.0).contains(&x) {
            assert_eq!(y, x);
        }
    }
    // a NaN axis passes through unchanged rather than inventing a value
    let n = velocity(f32::NAN, 0.0, 0.0, 0.0).clamp();
    assert!(f32::from_bits(n.forwards_left).is_nan());
}

#[test]
fn liveness_fallback_hands_control_to_joystick() {
    let mut st = State::default();
    let remote = velocity(0.5, 0.5, 0.0, 0.0);
    let local = velocity(0.0, 0.0, 0.25, 0.0);

    st.update_pc(&DownstreamMessage::VelocityDataMessage(remote), 1000);
    st.update_joystick(local);
    // within the timeout the remote command governs
    assert_eq!(st.compute_velocity(1000 + REMOTE_TIMEOUT_MS), remote);
    // a heartbeat keeps it alive without changing it
    st.update_pc(&DownstreamMessage::Msg, 2000);
    assert_eq!(st.compute_velocity(2500), remote);
    // silence past the timeout falls back to the joystick
    assert_eq!(st.compute_velocity(2000 + REMOTE_TIMEOUT_MS + 1), local);
    // and the stale command stays cleared even when traffic resumes late
    assert_eq!(st.compute_velocity(10000), local);
    // a fresh command restores remote priority
    st.update_pc(&DownstreamMessage::VelocityDataMessage(remote), 20000);
    assert_eq!(st.compute_velocity(20001), remote);
}

#[test]
fn session_acknowledges_frames_in_order() {
    let mut q = ByteQueue::new();
    let mut rx = Reassembler::new();
    let mut st = State::default();

    let remote = velocity(0.5, -0.5, 0.0, 1.0);
    let frame = common::write(&DownstreamMessage::VelocityDataMessage(remote), 200).unwrap();
    for &b in frame.iter() {
        q.enqueue(b).unwrap();
    }
    let heartbeat = common::write(&DownstreamMessage::Msg, 200).unwrap();
    for &b in heartbeat.iter() {
        q.enqueue(b).unwrap();
    }

    let replies = poll_link(&mut q, &mut rx, &mut st, 5);
    assert_eq!(replies.len(), 2);
    assert!(matches!(replies[0], UpstreamMessage::Ack));
    assert!(matches!(replies[1], UpstreamMessage::Ack));
    assert_eq!(st.compute_velocity(5), remote);
    assert_eq!(q.dequeue(), None);
}

#[test]
fn session_rejects_corrupt_frame_with_both_checksums() {
    let mut q = ByteQueue::new();
    let mut rx = Reassembler::new();
    let mut st = State::default();

    let mut frame = common::write(&DownstreamMessage::Msg, 200).unwrap();
    let i = frame.len() - 3;
    frame[i] ^= 0x10;
    for &b in frame.iter() {
        q.enqueue(b).unwrap();
    }
    let replies = poll_link(&mut q, &mut rx, &mut st, 5);
    assert_eq!(replies.len(), 1);
    match &replies[0] {
        UpstreamMessage::BadP(CommunicationError::BadCheckSum(c, e)) => assert_ne!(c, e),
        other => panic!("{:?}", other),
    }
}

#[test]
fn overrun_draws_one_report_and_recovery_succeeds() {
    let mut q = ByteQueue::new();
    let mut rx = Reassembler::new();
    let mut st = State::default();

    // more non-terminator bytes than the reassembly buffer holds
    for _ in 0..40 {
        q.enqueue(0x55).unwrap();
    }
    let replies = poll_link(&mut q, &mut rx, &mut st, 5);
    assert_eq!(replies.len(), 1);
    assert!(matches!(replies[0], UpstreamMessage::BadO));

    // the stray terminator that ends the garbage draws one decode error
    q.enqueue(0x00).unwrap();
    let replies = poll_link(&mut q, &mut rx, &mut st, 6);
    assert_eq!(replies.len(), 1);
    assert!(matches!(replies[0], UpstreamMessage::BadP(_)));

    // the next well-formed frame decodes as if nothing had happened
    let remote = velocity(0.25, 0.25, 0.0, 0.0);
    let frame = common::write(&DownstreamMessage::VelocityDataMessage(remote), 200).unwrap();
    for &b in frame.iter() {
        q.enqueue(b).unwrap();
    }
    let replies = poll_link(&mut q, &mut rx, &mut st, 7);
    assert_eq!(replies.len(), 1);
    assert!(matches!(replies[0], UpstreamMessage::Ack));
    assert_eq!(st.compute_velocity(7), remote);
}

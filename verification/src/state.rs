//! Command state: the last-known remote command, the last-known joystick
//! sample, and their reconciliation into one bounded actuator command, with
//! a liveness fallback when the remote link goes quiet.

use vstd::prelude::*;
use crate::controller::{clamp_velocity, DownstreamMessage, VelocityData};

verus! {

/// How long, in milliseconds, a remote command stays authoritative after
/// the last remote traffic.  A configuration constant.
pub const REMOTE_TIMEOUT_MS: u64 = 1000;

/// The reconciliation state.  Mutated only by the main loop; the receive
/// interrupt never touches it.
pub struct State {
    /// The remote command in force, if any; always already clamped.
    pub active_remote: Option<VelocityData>,
    /// The newest joystick sample; always already clamped.
    pub last_joystick: VelocityData,
    /// Time of the last remote traffic, in milliseconds.
    pub last_remote_ms: u64,
}

/// Whether the remote command channel is live at `now`.
pub open spec fn remote_fresh(s: State, now: u64) -> bool {
    s.active_remote is Some && now - s.last_remote_ms <= REMOTE_TIMEOUT_MS
}

/// The state after one host message: a velocity command replaces the active
/// remote command (clamped) and refreshes the liveness clock; a heartbeat
/// refreshes the clock alone.
pub open spec fn update_pc_spec(s: State, m: DownstreamMessage, now: u64) -> State {
    match m {
        DownstreamMessage::VelocityDataMessage(v) => State {
            active_remote: Some(clamp_velocity(v)),
            last_joystick: s.last_joystick,
            last_remote_ms: now,
        },
        DownstreamMessage::Msg => State {
            active_remote: s.active_remote,
            last_joystick: s.last_joystick,
            last_remote_ms: now,
        },
    }
}

/// The actuator command owed at `now`, and the state afterwards: the remote
/// command while it is live, else the joystick sample, with a stale remote
/// command cleared so only a fresh one resumes remote control.
pub open spec fn compute_spec(s: State, now: u64) -> (State, VelocityData) {
    if remote_fresh(s, now) {
        (s, s.active_remote->Some_0)
    } else {
        (
            State {
                active_remote: None,
                last_joystick: s.last_joystick,
                last_remote_ms: s.last_remote_ms,
            },
            s.last_joystick,
        )
    }
}

impl State {
    /// Every axis the state holds has passed through `clamp`.
    pub open spec fn wf(self) -> bool {
        (self.active_remote matches Some(v) ==> v == clamp_velocity(v))
            && self.last_joystick == clamp_velocity(self.last_joystick)
    }

    /// Takes one decoded host message at time `now`.
    pub fn update_pc(&mut self, message: &DownstreamMessage, now: u64)
        requires
            old(self).wf(),
        ensures
            final(self).wf(),
            *final(self) == update_pc_spec(*old(self), *message, now),
    {
        match message {
            DownstreamMessage::VelocityDataMessage(v) => {
                self.active_remote = Some(v.clamp());
                self.last_remote_ms = now;
                proof {
                    crate::controller::lemma_clamp_idempotent(*v);
                }
            },
            DownstreamMessage::Msg => {
                self.last_remote_ms = now;
            },
        }
    }

    /// Takes one joystick sample; local sampling is always trusted and
    /// always current.
    pub fn update_joystick(&mut self, sample: VelocityData)
        requires
            old(self).wf(),
        ensures
            final(self).wf(),
            final(self).last_joystick == clamp_velocity(sample),
            final(self).active_remote == old(self).active_remote,
            final(self).last_remote_ms == old(self).last_remote_ms,
    {
        self.last_joystick = sample.clamp();
        proof {
            crate::controller::lemma_clamp_idempotent(sample);
        }
    }

    /// Reconciles the two channels into the actuator command for this tick.
    pub fn compute_velocity(&mut self, now: u64) -> (v: VelocityData)
        requires
            old(self).wf(),
            now >= old(self).last_remote_ms,
        ensures
            final(self).wf(),
            (*final(self), v) == compute_spec(*old(self), now),
            v == clamp_velocity(v),
    {
        let live = match &self.active_remote {
            Some(_) => now - self.last_remote_ms <= REMOTE_TIMEOUT_MS,
            None => false,
        };
        if live {
            match &self.active_remote {
                Some(v) => *v,
                None => VelocityData::default(),
            }
        } else {
            self.active_remote = None;
            self.last_joystick
        }
    }
}

impl Default for State {
    /// Boot state: no remote command yet, joystick at safe idle.
    fn default() -> (s: State)
        ensures
            s.wf(),
            s.active_remote is None,
            s.last_joystick == (VelocityData {
                forwards_left: 0u32,
                forwards_right: 0u32,
                strafing: 0u32,
                vertical: 0u32,
            }),
            s.last_remote_ms == 0u64,
    {
        let s = State {
            active_remote: None,
            last_joystick: VelocityData::default(),
            last_remote_ms: 0,
        };
        proof {
            assert(0u32 & 0x7FFF_FFFFu32 == 0u32) by (bit_vector);
            assert(crate::controller::in_unit_range(0u32));
        }
        s
    }
}

/// Liveness fallback: a velocity command taken at `t0` governs the actuator
/// while the link stays live, a silence longer than the timeout hands
/// control back to the joystick and clears the remote command, and a later
/// command restores remote priority.
pub proof fn lemma_liveness_fallback(
    s: State,
    v: VelocityData,
    v2: VelocityData,
    t0: u64,
    t1: u64,
    t2: u64,
)
    requires
        s.wf(),
        t0 <= t1,
        t1 - t0 <= REMOTE_TIMEOUT_MS,
        t1 <= t2,
        t2 - t0 > REMOTE_TIMEOUT_MS,
    ensures
        ({
            let after_cmd = update_pc_spec(s, DownstreamMessage::VelocityDataMessage(v), t0);
            // while the link is live, the remote command drives the actuators
            compute_spec(after_cmd, t1).1 == clamp_velocity(v)
                && compute_spec(after_cmd, t1).0 == after_cmd
                // once it has gone quiet past the timeout, the joystick does,
                // and the stale remote command is cleared
                && compute_spec(after_cmd, t2).1 == after_cmd.last_joystick
                && compute_spec(after_cmd, t2).0.active_remote is None
                // a later command restores remote priority at once
                && compute_spec(
                update_pc_spec(
                    compute_spec(after_cmd, t2).0,
                    DownstreamMessage::VelocityDataMessage(v2),
                    t2,
                ),
                t2,
            ).1 == clamp_velocity(v2)
        }),
{
}

} // verus!

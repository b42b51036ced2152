//! Session driver: the receive half of one main-loop iteration.  It drains
//! the byte queue through the reassembler, decodes every completed frame,
//! updates the command state, and owes exactly one reply per completed frame
//! or overrun.

use vstd::prelude::*;
use crate::controller::{UpMsg, UpstreamMessage};
use crate::queue::ByteQueue;
use crate::read_down_spec;
use crate::reassembly::{PushOutcome, Reassembler, FRAME_CAPACITY};
use crate::state::{update_pc_spec, State};

verus! {

/// Effect of one received byte on the command state, the accumulation
/// buffer, and the reply owed: an overrun clears the buffer and owes
/// `BadO`; a terminator completes the frame, which on a verified decode
/// updates the state and owes `Ack` and otherwise owes the decode error;
/// any other byte accumulates.
pub open spec fn step_spec(st: State, acc: Seq<u8>, b: u8, now: u64) -> (
    State,
    Seq<u8>,
    Option<UpMsg>,
) {
    if acc.len() == FRAME_CAPACITY {
        (st, Seq::<u8>::empty(), Some(UpMsg::BadO))
    } else if b == 0 {
        match read_down_spec(acc + seq![0u8]) {
            Ok(m) => (update_pc_spec(st, m, now), Seq::<u8>::empty(), Some(UpMsg::Ack)),
            Err(e) => (st, Seq::<u8>::empty(), Some(UpMsg::BadP(e))),
        }
    } else {
        (st, acc + seq![b], None)
    }
}

/// `step_spec` folded over a whole byte sequence, collecting the replies in
/// order.
pub open spec fn run_spec(st: State, acc: Seq<u8>, bytes: Seq<u8>, now: u64) -> (
    State,
    Seq<u8>,
    Seq<UpMsg>,
)
    decreases bytes.len(),
{
    if bytes.len() == 0 {
        (st, acc, Seq::<UpMsg>::empty())
    } else {
        let stp = step_spec(st, acc, bytes[0], now);
        let rest = run_spec(stp.0, stp.1, bytes.drop_first(), now);
        (
            rest.0,
            rest.1,
            (match stp.2 {
                Option::Some(m) => seq![m],
                Option::None => Seq::<UpMsg>::empty(),
            }) + rest.2,
        )
    }
}

/// Running a fold over concatenated input is running it over each part in
/// turn, with the replies concatenated.
pub proof fn lemma_run_append(st: State, acc: Seq<u8>, a: Seq<u8>, b: Seq<u8>, now: u64)
    ensures
        ({
            let ra = run_spec(st, acc, a, now);
            let rb = run_spec(ra.0, ra.1, b, now);
            run_spec(st, acc, a + b, now) == (rb.0, rb.1, ra.2 + rb.2)
        }),
    decreases a.len(),
{
    let ra = run_spec(st, acc, a, now);
    let rb = run_spec(ra.0, ra.1, b, now);
    if a.len() == 0 {
        assert(a + b =~= b);
        assert(Seq::<UpMsg>::empty() + rb.2 =~= rb.2);
    } else {
        let stp = step_spec(st, acc, a[0], now);
        assert((a + b).drop_first() =~= a.drop_first() + b);
        lemma_run_append(stp.0, stp.1, a.drop_first(), b, now);
        let ra1 = run_spec(stp.0, stp.1, a.drop_first(), now);
        let rb1 = run_spec(ra1.0, ra1.1, b, now);
        let h = (match stp.2 {
            Option::Some(m) => seq![m],
            Option::None => Seq::<UpMsg>::empty(),
        });
        assert(h + (ra1.2 + rb1.2) =~= (h + ra1.2) + rb1.2);
    }
}

/// Non-terminator bytes that still fit the buffer only accumulate: no reply
/// is owed and the state stands.
pub proof fn lemma_run_accumulate(st: State, acc: Seq<u8>, b: Seq<u8>, now: u64)
    requires
        acc.len() + b.len() <= FRAME_CAPACITY,
        forall|i: int| 0 <= i < b.len() ==> b[i] != 0,
    ensures
        run_spec(st, acc, b, now) == (st, acc + b, Seq::<UpMsg>::empty()),
    decreases b.len(),
{
    if b.len() == 0 {
        assert(acc + b =~= acc);
    } else {
        let stp = step_spec(st, acc, b[0], now);
        assert(stp == (st, acc + seq![b[0]], Option::<UpMsg>::None));
        assert(forall|i: int| 0 <= i < b.drop_first().len() ==> b.drop_first()[i] != 0);
        lemma_run_accumulate(st, acc + seq![b[0]], b.drop_first(), now);
        assert((acc + seq![b[0]]) + b.drop_first() =~= acc + b);
        assert(Seq::<UpMsg>::empty() + Seq::<UpMsg>::empty() =~= Seq::<UpMsg>::empty());
    }
}

/// Overrun recovery: a span of non-terminator bytes one past the buffer
/// capacity draws exactly one `BadO`, and a well-formed frame right after
/// it, small enough for the buffer, still decodes, updates the state, and
/// draws its `Ack`.
pub proof fn lemma_overrun_recovery(st: State, garbage: Seq<u8>, m: crate::controller::DownstreamMessage, now: u64)
    requires
        garbage.len() == FRAME_CAPACITY + 1,
        forall|i: int| 0 <= i < garbage.len() ==> garbage[i] != 0,
        crate::frame_down(m).len() <= FRAME_CAPACITY,
    ensures
        run_spec(st, Seq::<u8>::empty(), garbage + crate::frame_down(m), now) == (
            update_pc_spec(st, m, now),
            Seq::<u8>::empty(),
            seq![UpMsg::BadO, UpMsg::Ack],
        ),
{
    reveal_with_fuel(run_spec, 3);
    let empty = Seq::<u8>::empty();
    let f = crate::frame_down(m);
    let head = garbage.take(FRAME_CAPACITY as int);
    let over = seq![garbage[FRAME_CAPACITY as int]];
    // the first capacity-many bytes only accumulate
    assert(forall|i: int| 0 <= i < head.len() ==> head[i] != 0);
    lemma_run_accumulate(st, empty, head, now);
    // the next byte finds the buffer full: one overrun, buffer cleared
    let r_over = run_spec(st, empty + head, over, now);
    assert(step_spec(st, empty + head, over[0], now) == (
        st,
        empty,
        Option::Some(UpMsg::BadO),
    )) by {
        assert((empty + head).len() == FRAME_CAPACITY);
    }
    assert(over.drop_first() =~= empty);
    assert(seq![UpMsg::BadO] + Seq::<UpMsg>::empty() =~= seq![UpMsg::BadO]);
    assert(r_over == (st, empty, seq![UpMsg::BadO]));
    assert(garbage =~= head + over);
    lemma_run_append(st, empty, head, over, now);
    assert(run_spec(st, empty, garbage, now) == (st, empty, Seq::<UpMsg>::empty() + seq![UpMsg::BadO]));
    // the frame that follows accumulates byte for byte, then decodes
    let d = crate::wire::ser_down(m) + crate::wire::le16(crate::crc::crc16_of(crate::wire::ser_down(m)));
    let body = crate::cobs::stuff(d);
    crate::cobs::lemma_stuff_no_zero(d);
    assert(f =~= body + seq![0u8]);
    lemma_run_accumulate(st, empty, body, now);
    let r_term = run_spec(st, empty + body, seq![0u8], now);
    assert((empty + body) + seq![0u8] =~= f);
    crate::lemma_round_trip_down(m);
    assert(step_spec(st, empty + body, 0u8, now) == (
        update_pc_spec(st, m, now),
        empty,
        Option::Some(UpMsg::Ack),
    ));
    assert(seq![0u8].drop_first() =~= empty);
    assert(seq![UpMsg::Ack] + Seq::<UpMsg>::empty() =~= seq![UpMsg::Ack]);
    assert(r_term == (update_pc_spec(st, m, now), empty, seq![UpMsg::Ack]));
    lemma_run_append(st, empty, body, seq![0u8], now);
    assert(run_spec(st, empty, f, now) == (
        update_pc_spec(st, m, now),
        empty,
        Seq::<UpMsg>::empty() + seq![UpMsg::Ack],
    ));
    lemma_run_append(st, empty, garbage, f, now);
    assert((Seq::<UpMsg>::empty() + seq![UpMsg::BadO]) + (Seq::<UpMsg>::empty() + seq![UpMsg::Ack])
        =~= seq![UpMsg::BadO, UpMsg::Ack]);
}

/// Feeds one byte from the link into the reassembler and, on a completed
/// frame, into the command state.
pub fn process_byte(st: &mut State, rx: &mut Reassembler, byte: u8, now: u64) -> (reply: Option<
    UpstreamMessage,
>)
    requires
        old(st).wf(),
        old(rx).wf(),
    ensures
        final(st).wf(),
        final(rx).wf(),
        ({
            let stp = step_spec(*old(st), old(rx).pending(), byte, now);
            *final(st) == stp.0 && final(rx).pending() == stp.1 && (match reply {
                Option::Some(r) => stp.2 == Some(r@),
                Option::None => stp.2 is None,
            })
        }),
{
    match rx.push_byte(byte) {
        PushOutcome::Overrun => Some(UpstreamMessage::BadO),
        PushOutcome::Complete(frame) => {
            match crate::read(&frame) {
                Ok(m) => {
                    st.update_pc(&m, now);
                    Some(UpstreamMessage::Ack)
                },
                Err(e) => Some(UpstreamMessage::BadP(e)),
            }
        },
        PushOutcome::Pending => None,
    }
}

/// Drains the queue completely, processing every byte in receipt order;
/// never blocks: it stops the moment the queue reports no data.  The
/// replies come back oldest first, one per completed frame or overrun.
pub fn poll_link(q: &mut ByteQueue, rx: &mut Reassembler, st: &mut State, now: u64) -> (replies:
    Vec<UpstreamMessage>)
    requires
        old(q).wf(),
        old(rx).wf(),
        old(st).wf(),
    ensures
        final(q).wf(),
        final(rx).wf(),
        final(st).wf(),
        final(q).contents() == Seq::<u8>::empty(),
        ({
            let r = run_spec(*old(st), old(rx).pending(), old(q).contents(), now);
            *final(st) == r.0 && final(rx).pending() == r.1 && replies@.map_values(
                |m: UpstreamMessage| m@,
            ) == r.2
        }),
{
    let ghost target = run_spec(*old(st), old(rx).pending(), old(q).contents(), now);
    let mut replies: Vec<UpstreamMessage> = Vec::new();
    loop
        invariant
            q.wf(),
            rx.wf(),
            st.wf(),
            ({
                let r = run_spec(*st, rx.pending(), q.contents(), now);
                target.0 == r.0 && target.1 == r.1 && target.2 == replies@.map_values(
                    |m: UpstreamMessage| m@,
                ) + r.2
            }),
        ensures
            q.wf(),
            rx.wf(),
            st.wf(),
            q.contents() == Seq::<u8>::empty(),
            target.0 == *st,
            target.1 == rx.pending(),
            target.2 == replies@.map_values(|m: UpstreamMessage| m@),
        decreases q.contents().len(),
    {
        let ghost qs = q.contents();
        let ghost st0 = *st;
        let ghost acc0 = rx.pending();
        let ghost reps0 = replies@;
        match q.dequeue() {
            Option::None => {
                proof {
                    assert(qs.len() == 0);
                    assert(q.contents() =~= Seq::<u8>::empty());
                    let r = run_spec(*st, rx.pending(), q.contents(), now);
                    assert(replies@.map_values(|m: UpstreamMessage| m@) + r.2 =~= replies@
                        .map_values(|m: UpstreamMessage| m@));
                }
                break;
            },
            Option::Some(b) => {
                let reply = process_byte(st, rx, b, now);
                proof {
                    assert(qs[0] == b);
                    assert(qs.drop_first() == q.contents());
                }
                match reply {
                    Option::Some(r) => {
                        replies.push(r);
                        proof {
                            let stp = step_spec(st0, acc0, b, now);
                            let rest = run_spec(*st, rx.pending(), q.contents(), now);
                            assert(run_spec(st0, acc0, qs, now).2 == seq![stp.2->Some_0] + rest.2);
                            assert(replies@.map_values(|m: UpstreamMessage| m@) =~= reps0
                                .map_values(|m: UpstreamMessage| m@) + seq![r@]);
                            assert(reps0.map_values(|m: UpstreamMessage| m@) + (seq![stp.2->Some_0]
                                + rest.2) =~= (reps0.map_values(|m: UpstreamMessage| m@)
                                + seq![r@]) + rest.2);
                        }
                    },
                    Option::None => {
                        proof {
                            let stp = step_spec(st0, acc0, b, now);
                            let rest = run_spec(*st, rx.pending(), q.contents(), now);
                            assert(run_spec(st0, acc0, qs, now).2 == Seq::<UpMsg>::empty()
                                + rest.2);
                            assert(Seq::<UpMsg>::empty() + rest.2 =~= rest.2);
                        }
                    },
                }
            },
        }
    }
    replies
}

} // verus!

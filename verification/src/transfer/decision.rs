//! The receiver's answer to an offer, the completion and verification
//! frames, and the life cycle of one transfer.

use crate::bytes::append_bytes;
use crate::transport::protocol::{Frame, FrameType};
use vstd::prelude::*;

verus! {

#[derive(Debug, Clone, Copy, PartialEq, Eq, Structural)]
pub enum TransferDecision {
    Accept,
    Reject,
}

/// The frame type that carries each decision.
pub open spec fn decision_frame_type(d: TransferDecision) -> FrameType {
    match d {
        TransferDecision::Accept => FrameType::Accept,
        TransferDecision::Reject => FrameType::Reject,
    }
}

/// What `from_frame` makes of a frame: the transfer ID and decision, or why not.
pub open spec fn decision_from_frame_spec(t: FrameType, payload: Seq<u8>) -> Result<
    (Seq<u8>, TransferDecision),
    &'static str,
> {
    if t != FrameType::Accept && t != FrameType::Reject {
        Err("frame is not an accept/reject decision")
    } else if payload.len() != 16 {
        Err("invalid transfer decision payload length")
    } else {
        Ok(
            (
                payload,
                if t == FrameType::Accept {
                    TransferDecision::Accept
                } else {
                    TransferDecision::Reject
                },
            ),
        )
    }
}

/// Copies a 16-byte payload into a transfer ID.
fn id_from_payload(payload: &Vec<u8>, start: usize) -> (id: [u8; 16])
    requires
        start + 16 <= payload@.len(),
    ensures
        id@ == payload@.subrange(start as int, start + 16),
{
    let mut id = [0u8; 16];
    let mut i: usize = 0;
    while i < 16
        invariant
            i <= 16,
            start + 16 <= payload.len(),
            forall|j: int| 0 <= j < i ==> id@[j] == payload@[start + j],
        decreases 16 - i,
    {
        id[i] = payload[start + i];
        i = i + 1;
    }
    assert(id@ =~= payload@.subrange(start as int, start + 16));
    id
}

/// Copies 32 payload bytes into a hash.
fn hash_from_payload(payload: &Vec<u8>, start: usize) -> (h: [u8; 32])
    requires
        start + 32 <= payload@.len(),
    ensures
        h@ == payload@.subrange(start as int, start + 32),
{
    let mut h = [0u8; 32];
    let mut i: usize = 0;
    while i < 32
        invariant
            i <= 32,
            start + 32 <= payload.len(),
            forall|j: int| 0 <= j < i ==> h@[j] == payload@[start + j],
        decreases 32 - i,
    {
        h[i] = payload[start + i];
        i = i + 1;
    }
    assert(h@ =~= payload@.subrange(start as int, start + 32));
    h
}

impl TransferDecision {
    pub fn as_str(self) -> (s: &'static str)
        ensures
            self == TransferDecision::Accept ==> s@ == "ACCEPT"@,
            self == TransferDecision::Reject ==> s@ == "REJECT"@,
    {
        match self {
            TransferDecision::Accept => "ACCEPT",
            TransferDecision::Reject => "REJECT",
        }
    }

    pub fn frame_type(self) -> (t: FrameType)
        ensures
            t == decision_frame_type(self),
    {
        match self {
            TransferDecision::Accept => FrameType::Accept,
            TransferDecision::Reject => FrameType::Reject,
        }
    }

    /// The decision as a frame whose payload is the transfer ID.
    pub fn to_frame(self, transfer_id: [u8; 16]) -> (r: Result<Frame, &'static str>)
        ensures
            r matches Ok(f) && f.frame_type == decision_frame_type(self) && f.payload@
                == transfer_id@,
    {
        let payload = vstd::slice::slice_to_vec(&transfer_id);
        Frame::new(self.frame_type(), payload)
    }

    /// Reads the transfer ID and decision from an `Accept` or `Reject` frame.
    pub fn from_frame(frame: &Frame) -> (r: Result<([u8; 16], Self), &'static str>)
        ensures
            r matches Ok((id, d)) ==> decision_from_frame_spec(frame.frame_type, frame.payload@)
                == Ok::<(Seq<u8>, TransferDecision), &'static str>((id@, d)),
            r matches Err(e) ==> decision_from_frame_spec(frame.frame_type, frame.payload@)
                == Err::<(Seq<u8>, TransferDecision), &'static str>(e),
    {
        let decision = match frame.frame_type {
            FrameType::Accept => TransferDecision::Accept,
            FrameType::Reject => TransferDecision::Reject,
            _ => return Err("frame is not an accept/reject decision"),
        };
        if frame.payload.len() != 16 {
            return Err("invalid transfer decision payload length");
        }
        let transfer_id = id_from_payload(&frame.payload, 0);
        assert(frame.payload@.subrange(0, 16) =~= frame.payload@);
        Ok((transfer_id, decision))
    }
}

/// Reading a decision frame built for a transfer gives that transfer and decision back.
pub proof fn lemma_decision_frame_roundtrip(d: TransferDecision, id: Seq<u8>)
    requires
        id.len() == 16,
    ensures
        decision_from_frame_spec(decision_frame_type(d), id) == Ok::<
            (Seq<u8>, TransferDecision),
            &'static str,
        >((id, d)),
{
}

/// A `Complete` frame: the transfer ID, then the sender's 32-byte BLAKE3 digest.
pub fn complete_frame(transfer_id: [u8; 16], hash: [u8; 32]) -> (r: Result<Frame, &'static str>)
    ensures
        r matches Ok(f) && f.frame_type == FrameType::Complete && f.payload@ == transfer_id@
            + hash@,
{
    let mut payload: Vec<u8> = Vec::new();
    append_bytes(&mut payload, &transfer_id);
    append_bytes(&mut payload, &hash);
    assert(payload@ =~= transfer_id@ + hash@);
    Frame::new(FrameType::Complete, payload)
}

/// What `parse_complete_frame` makes of a frame.
pub open spec fn parse_complete_spec(t: FrameType, payload: Seq<u8>) -> Result<
    (Seq<u8>, Seq<u8>),
    &'static str,
> {
    if t != FrameType::Complete {
        Err("frame is not a complete frame")
    } else if payload.len() != 48 {
        Err("invalid complete frame payload length")
    } else {
        Ok((payload.subrange(0, 16), payload.subrange(16, 48)))
    }
}

/// Reads the transfer ID and digest from a `Complete` frame.
pub fn parse_complete_frame(frame: &Frame) -> (r: Result<([u8; 16], [u8; 32]), &'static str>)
    ensures
        r matches Ok((id, h)) ==> parse_complete_spec(frame.frame_type, frame.payload@) == Ok::<
            (Seq<u8>, Seq<u8>),
            &'static str,
        >((id@, h@)),
        r matches Err(e) ==> parse_complete_spec(frame.frame_type, frame.payload@) == Err::<
            (Seq<u8>, Seq<u8>),
            &'static str,
        >(e),
{
    if frame.frame_type != FrameType::Complete {
        return Err("frame is not a complete frame");
    }
    if frame.payload.len() != 48 {
        return Err("invalid complete frame payload length");
    }
    let transfer_id = id_from_payload(&frame.payload, 0);
    let hash = hash_from_payload(&frame.payload, 16);
    Ok((transfer_id, hash))
}

/// Reading a `Complete` frame gives back the transfer ID and digest it was built from.
pub proof fn lemma_complete_frame_roundtrip(id: Seq<u8>, hash: Seq<u8>)
    requires
        id.len() == 16,
        hash.len() == 32,
    ensures
        parse_complete_spec(FrameType::Complete, id + hash) == Ok::<
            (Seq<u8>, Seq<u8>),
            &'static str,
        >((id, hash)),
{
    assert((id + hash).subrange(0, 16) =~= id);
    assert((id + hash).subrange(16, 48) =~= hash);
}

/// A `Verified` frame, whose payload is the transfer ID.
pub fn verified_frame(transfer_id: [u8; 16]) -> (r: Result<Frame, &'static str>)
    ensures
        r matches Ok(f) && f.frame_type == FrameType::Verified && f.payload@ == transfer_id@,
{
    let payload = vstd::slice::slice_to_vec(&transfer_id);
    Frame::new(FrameType::Verified, payload)
}

/// What `parse_verified_frame` makes of a frame.
pub open spec fn parse_verified_spec(t: FrameType, payload: Seq<u8>) -> Result<
    Seq<u8>,
    &'static str,
> {
    if t != FrameType::Verified {
        Err("frame is not a verified frame")
    } else if payload.len() != 16 {
        Err("invalid verified frame payload length")
    } else {
        Ok(payload)
    }
}

/// Reads the transfer ID from a `Verified` frame.
pub fn parse_verified_frame(frame: &Frame) -> (r: Result<[u8; 16], &'static str>)
    ensures
        r matches Ok(id) ==> parse_verified_spec(frame.frame_type, frame.payload@) == Ok::<
            Seq<u8>,
            &'static str,
        >(id@),
        r matches Err(e) ==> parse_verified_spec(frame.frame_type, frame.payload@) == Err::<
            Seq<u8>,
            &'static str,
        >(e),
{
    if frame.frame_type != FrameType::Verified {
        return Err("frame is not a verified frame");
    }
    if frame.payload.len() != 16 {
        return Err("invalid verified frame payload length");
    }
    let transfer_id = id_from_payload(&frame.payload, 0);
    assert(frame.payload@.subrange(0, 16) =~= frame.payload@);
    Ok(transfer_id)
}

#[derive(Debug, Clone, Copy, PartialEq, Eq, Structural)]
pub enum TransferState {
    Offered,
    Accepted,
    Rejected,
    Receiving,
    Completed,
    Cancelled,
}

impl TransferState {
    pub open spec fn receives_chunks(self) -> bool {
        self == TransferState::Accepted || self == TransferState::Receiving
    }

    /// Whether file data may arrive in this state: after acceptance, before the end.
    pub fn can_receive_chunks(self) -> (b: bool)
        ensures
            b == self.receives_chunks(),
    {
        match self {
            TransferState::Accepted | TransferState::Receiving => true,
            _ => false,
        }
    }
}

/// The operations that move a transfer through its life cycle.
pub enum SessionEvent {
    Accept,
    Reject,
    BeginReceiving,
    Complete,
    Cancel,
}

/// The state that an operation leads to from `s`, or `None` where the
/// operation is refused in `s`.
pub open spec fn next_state(s: TransferState, e: SessionEvent) -> Option<TransferState> {
    match e {
        SessionEvent::Accept => if s == TransferState::Offered {
            Some(TransferState::Accepted)
        } else {
            None
        },
        SessionEvent::Reject => if s == TransferState::Offered {
            Some(TransferState::Rejected)
        } else {
            None
        },
        SessionEvent::BeginReceiving => if s == TransferState::Accepted {
            Some(TransferState::Receiving)
        } else {
            None
        },
        SessionEvent::Complete => if s == TransferState::Receiving {
            Some(TransferState::Completed)
        } else {
            None
        },
        SessionEvent::Cancel => if s == TransferState::Offered || s == TransferState::Accepted
            || s == TransferState::Receiving {
            Some(TransferState::Cancelled)
        } else {
            None
        },
    }
}

/// The state after a run of operations from `s`; a refused operation
/// leaves the state as it was.
pub open spec fn run_events(s: TransferState, events: Seq<SessionEvent>) -> TransferState
    decreases events.len(),
{
    if events.len() == 0 {
        s
    } else {
        let t = match next_state(s, events[0]) {
            Some(t) => t,
            None => s,
        };
        run_events(t, events.drop_first())
    }
}

/// Whether no operation leads anywhere from `s`.
pub open spec fn is_terminal(s: TransferState) -> bool {
    s == TransferState::Rejected || s == TransferState::Completed || s == TransferState::Cancelled
}

#[derive(Debug, Clone, Copy, PartialEq, Eq, Structural)]
pub struct TransferSession {
    state: TransferState,
}

impl TransferSession {
    pub closed spec fn current(self) -> TransferState {
        self.state
    }

    /// A new transfer starts as offered.
    pub fn new() -> (s: Self)
        ensures
            s.current() == TransferState::Offered,
    {
        Self { state: TransferState::Offered }
    }

    pub fn state(&self) -> (s: TransferState)
        ensures
            s == self.current(),
    {
        self.state
    }

    pub fn accept(&mut self) -> (r: Result<(), &'static str>)
        ensures
            next_state(old(self).current(), SessionEvent::Accept) matches Some(t) ==> r is Ok
                && final(self).current() == t,
            next_state(old(self).current(), SessionEvent::Accept) is None ==> r == Err::<
                (),
                &'static str,
            >("transfer cannot be accepted in current state") && final(self).current() == old(
                self,
            ).current(),
    {
        match self.state {
            TransferState::Offered => {
                self.state = TransferState::Accepted;
                Ok(())
            },
            _ => Err("transfer cannot be accepted in current state"),
        }
    }

    pub fn reject(&mut self) -> (r: Result<(), &'static str>)
        ensures
            next_state(old(self).current(), SessionEvent::Reject) matches Some(t) ==> r is Ok
                && final(self).current() == t,
            next_state(old(self).current(), SessionEvent::Reject) is None ==> r == Err::<
                (),
                &'static str,
            >("transfer cannot be rejected in current state") && final(self).current() == old(
                self,
            ).current(),
    {
        match self.state {
            TransferState::Offered => {
                self.state = TransferState::Rejected;
                Ok(())
            },
            _ => Err("transfer cannot be rejected in current state"),
        }
    }

    pub fn begin_receiving(&mut self) -> (r: Result<(), &'static str>)
        ensures
            next_state(old(self).current(), SessionEvent::BeginReceiving) matches Some(t) ==> r is Ok
                && final(self).current() == t,
            next_state(old(self).current(), SessionEvent::BeginReceiving) is None ==> r == Err::<
                (),
                &'static str,
            >("transfer has not been accepted") && final(self).current() == old(self).current(),
    {
        match self.state {
            TransferState::Accepted => {
                self.state = TransferState::Receiving;
                Ok(())
            },
            _ => Err("transfer has not been accepted"),
        }
    }

    pub fn complete(&mut self) -> (r: Result<(), &'static str>)
        ensures
            next_state(old(self).current(), SessionEvent::Complete) matches Some(t) ==> r is Ok
                && final(self).current() == t,
            next_state(old(self).current(), SessionEvent::Complete) is None ==> r == Err::<
                (),
                &'static str,
            >("transfer cannot be completed") && final(self).current() == old(self).current(),
    {
        match self.state {
            TransferState::Receiving => {
                self.state = TransferState::Completed;
                Ok(())
            },
            _ => Err("transfer cannot be completed"),
        }
    }

    pub fn cancel(&mut self) -> (r: Result<(), &'static str>)
        ensures
            next_state(old(self).current(), SessionEvent::Cancel) matches Some(t) ==> r is Ok
                && final(self).current() == t,
            next_state(old(self).current(), SessionEvent::Cancel) is None ==> r == Err::<
                (),
                &'static str,
            >("transfer cannot be cancelled") && final(self).current() == old(self).current(),
    {
        match self.state {
            TransferState::Offered | TransferState::Accepted | TransferState::Receiving => {
                self.state = TransferState::Cancelled;
                Ok(())
            },
            _ => Err("transfer cannot be cancelled"),
        }
    }
}

impl Default for TransferSession {
    fn default() -> (s: Self)
        ensures
            s.current() == TransferState::Offered,
    {
        Self::new()
    }
}

/// The life cycle of a transfer: an offered transfer is accepted or
/// rejected; an accepted one begins receiving; a receiving one completes;
/// and any transfer that is not yet finished (offered, accepted or
/// receiving) can be cancelled. Every other operation is refused.
pub proof fn lemma_session_life_cycle(s: TransferState)
    ensures
        next_state(TransferState::Offered, SessionEvent::Accept) == Some(TransferState::Accepted),
        next_state(TransferState::Offered, SessionEvent::Reject) == Some(TransferState::Rejected),
        next_state(TransferState::Accepted, SessionEvent::BeginReceiving) == Some(
            TransferState::Receiving,
        ),
        next_state(TransferState::Receiving, SessionEvent::Complete) == Some(
            TransferState::Completed,
        ),
        !is_terminal(s) ==> next_state(s, SessionEvent::Cancel) == Some(TransferState::Cancelled),
        is_terminal(s) ==> next_state(s, SessionEvent::Cancel) is None,
        s != TransferState::Offered ==> next_state(s, SessionEvent::Accept) is None
            && next_state(s, SessionEvent::Reject) is None,
        s != TransferState::Accepted ==> next_state(s, SessionEvent::BeginReceiving) is None,
        s != TransferState::Receiving ==> next_state(s, SessionEvent::Complete) is None,
        !is_terminal(TransferState::Offered) && !is_terminal(TransferState::Accepted)
            && !is_terminal(TransferState::Receiving),
{
}

/// An acceptance travels in an `Accept` frame and a rejection in a `Reject`
/// frame, each carrying the 16-byte transfer ID; reading either frame gives
/// the decision it names, and no other frame type is a decision.
pub proof fn lemma_decision_frames(id: Seq<u8>, t: FrameType)
    requires
        id.len() == 16,
    ensures
        decision_frame_type(TransferDecision::Accept) == FrameType::Accept,
        decision_frame_type(TransferDecision::Reject) == FrameType::Reject,
        decision_from_frame_spec(FrameType::Accept, id) == Ok::<
            (Seq<u8>, TransferDecision),
            &'static str,
        >((id, TransferDecision::Accept)),
        decision_from_frame_spec(FrameType::Reject, id) == Ok::<
            (Seq<u8>, TransferDecision),
            &'static str,
        >((id, TransferDecision::Reject)),
        t != FrameType::Accept && t != FrameType::Reject ==> decision_from_frame_spec(t, id) is Err,
        parse_verified_spec(FrameType::Verified, id) == Ok::<Seq<u8>, &'static str>(id),
{
}

/// File data may arrive exactly in the states after acceptance and before
/// the transfer is finished.
pub proof fn lemma_data_states(s: TransferState)
    ensures
        s.receives_chunks() <==> (s != TransferState::Offered && !is_terminal(s)),
        TransferState::Accepted.receives_chunks(),
        TransferState::Receiving.receives_chunks(),
{
}

/// Rejected, completed and cancelled transfers are final: every operation
/// is refused there.
pub proof fn lemma_terminal_states_are_final(s: TransferState, e: SessionEvent)
    requires
        is_terminal(s),
    ensures
        next_state(s, e) is None,
{
}

/// From a final state no run of operations leads anywhere else.
pub proof fn lemma_terminal_run(s: TransferState, events: Seq<SessionEvent>)
    requires
        is_terminal(s),
    ensures
        run_events(s, events) == s,
    decreases events.len(),
{
    if events.len() > 0 {
        lemma_terminal_run(s, events.drop_first());
    }
}

/// Whether the run holds an accepted `Accept` somewhere: a state that
/// receives file data is reachable from an offer only through acceptance.
pub open spec fn passes_acceptance(s: TransferState, events: Seq<SessionEvent>) -> bool
    decreases events.len(),
{
    if events.len() == 0 {
        false
    } else {
        let t = match next_state(s, events[0]) {
            Some(t) => t,
            None => s,
        };
        (s == TransferState::Offered && t == TransferState::Accepted) || passes_acceptance(
            t,
            events.drop_first(),
        )
    }
}

/// Data is received only after the receiver accepted: every run from
/// `Offered` that ends in a state receiving data, or in `Completed`, went
/// through an accepted `Accept`.
pub proof fn lemma_data_only_after_acceptance(events: Seq<SessionEvent>)
    ensures
        (run_events(TransferState::Offered, events).receives_chunks() || run_events(
            TransferState::Offered,
            events,
        ) == TransferState::Completed) ==> passes_acceptance(TransferState::Offered, events),
    decreases events.len(),
{
    if events.len() > 0 {
        let t = match next_state(TransferState::Offered, events[0]) {
            Some(t) => t,
            None => TransferState::Offered,
        };
        if t == TransferState::Offered {
            lemma_data_only_after_acceptance(events.drop_first());
        } else if t != TransferState::Accepted {
            lemma_terminal_run(t, events.drop_first());
        }
    }
}


/// Reading a `Verified` frame gives back the transfer ID it was built from.
pub proof fn lemma_verified_frame_roundtrip(id: Seq<u8>)
    requires
        id.len() == 16,
    ensures
        parse_verified_spec(FrameType::Verified, id) == Ok::<Seq<u8>, &'static str>(id),
{
}

} // verus!

//! Handing one magic packet to a UDP endpoint, step by step.
//!
//! An attempt opens an endpoint on the wildcard address with a port of the
//! stack's choosing, permits broadcast on it, sends the packet to the
//! discard port and then to the echo port of the destination, and releases
//! the endpoint. The first operation that the transport refuses ends the
//! attempt; nothing is tried twice.
//!
//! [`SendState`] holds the progress of one attempt. Its caller performs the
//! operation that [`SendState::action`] names and passes the result to
//! [`SendState::advance`].

use vstd::prelude::*;
use vstd::string::StringExecFns;
use crate::error::{SendOutcome, WakeError};

verus! {

/// The UDP discard port, the usual target of a magic packet.
pub const DISCARD_PORT: u16 = 9;

/// The UDP echo port, which some listeners watch instead.
pub const ECHO_PORT: u16 = 7;

/// The address that the sending endpoint is bound to: any local address,
/// any free port.
pub const LOCAL_ENDPOINT: &'static str = "0.0.0.0:0";

/// The two ports that every packet is sent to.
#[derive(Debug, Clone, Copy, PartialEq, Eq, Structural)]
pub enum WolPort {
    /// Port 9.
    Discard,
    /// Port 7.
    Echo,
}

impl WolPort {
    /// The port's number.
    pub open spec fn spec_number(self) -> u16 {
        match self {
            WolPort::Discard => 9,
            WolPort::Echo => 7,
        }
    }

    /// The port's number.
    #[verifier::when_used_as_spec(spec_number)]
    pub fn number(self) -> (number: u16)
        ensures
            number == self.spec_number(),
    {
        match self {
            WolPort::Discard => DISCARD_PORT,
            WolPort::Echo => ECHO_PORT,
        }
    }
}

/// The text of the socket address of `port` at `host`: the host, a colon
/// and the port's number in decimal.
pub open spec fn destination_text(host: Seq<char>, port: WolPort) -> Seq<char> {
    match port {
        WolPort::Discard => host + seq![':', '9'],
        WolPort::Echo => host + seq![':', '7'],
    }
}

/// The socket address of `port` at `host`. The host is taken as it is
/// given, be it a single machine or a broadcast address.
pub fn destination(host: &str, port: WolPort) -> (address: String)
    ensures
        address@ == destination_text(host@, port),
{
    proof {
        reveal_strlit(":9");
        reveal_strlit(":7");
    }
    let address = match port {
        WolPort::Discard => String::from_str(host).concat(":9"),
        WolPort::Echo => String::from_str(host).concat(":7"),
    };
    assert(address@ =~= destination_text(host@, port));
    address
}

/// What the transport is asked to do next.
#[derive(Debug, Clone, Copy, PartialEq, Eq, Structural)]
pub enum SendAction {
    /// Open a UDP endpoint bound to [`LOCAL_ENDPOINT`].
    OpenEndpoint,
    /// Permit broadcast datagrams on the endpoint.
    EnableBroadcast,
    /// Send the packet to the destination host at this port.
    SendDatagram(WolPort),
    /// Release the endpoint.
    ReleaseEndpoint,
    /// Nothing: the attempt is over and its outcome is known.
    Finish,
}

/// How far one attempt has come.
#[derive(Debug, PartialEq, Eq)]
pub enum SendState {
    /// No endpoint yet.
    Opening,
    /// The endpoint is open and does not permit broadcast yet.
    Configuring,
    /// The endpoint is ready and the datagram for this port is due.
    Sending(WolPort),
    /// The outcome is decided and the endpoint is still open.
    Releasing(SendOutcome),
    /// The attempt is over.
    Finished(SendOutcome),
}

/// What a transport operation reports: success, or the cause of its
/// failure in words.
pub type StepResult = Result<(), String>;

/// The outcome that `state` has decided on, if it has.
pub open spec fn decided(state: SendState) -> Option<SendOutcome> {
    match state {
        SendState::Releasing(outcome) => Some(outcome),
        SendState::Finished(outcome) => Some(outcome),
        _ => None,
    }
}

/// The operation that is due in `state`.
pub open spec fn action_in(state: SendState) -> SendAction {
    match state {
        SendState::Opening => SendAction::OpenEndpoint,
        SendState::Configuring => SendAction::EnableBroadcast,
        SendState::Sending(port) => SendAction::SendDatagram(port),
        SendState::Releasing(_) => SendAction::ReleaseEndpoint,
        SendState::Finished(_) => SendAction::Finish,
    }
}

/// The outcome of an attempt that the transport refused with `cause`.
pub open spec fn refused(cause: String) -> SendOutcome {
    SendOutcome::Failed(WakeError::TransportError(cause))
}

/// The state that follows `state` when the operation due in it succeeded:
/// the next operation is due, in the order open, permit broadcast, send
/// to the discard port, send to the echo port, release. After the second
/// datagram the packet counts as sent.
pub open spec fn after_success(state: SendState) -> SendState {
    match state {
        SendState::Opening => SendState::Configuring,
        SendState::Configuring => SendState::Sending(WolPort::Discard),
        SendState::Sending(WolPort::Discard) => SendState::Sending(WolPort::Echo),
        SendState::Sending(WolPort::Echo) => SendState::Releasing(SendOutcome::Sent),
        SendState::Releasing(outcome) => SendState::Finished(outcome),
        SendState::Finished(outcome) => SendState::Finished(outcome),
    }
}

/// The state that follows `state` when the operation due in it failed with
/// `cause`: the attempt has failed, and what is left is to release the
/// endpoint, if one was opened. A release that fails leaves nothing to do.
pub open spec fn after_failure(state: SendState, cause: String) -> SendState {
    match state {
        SendState::Opening => SendState::Finished(refused(cause)),
        SendState::Releasing(outcome) => SendState::Finished(outcome),
        SendState::Finished(outcome) => SendState::Finished(outcome),
        _ => SendState::Releasing(refused(cause)),
    }
}

/// The state that follows `state` once the operation due in it has
/// reported `result`.
pub open spec fn after(state: SendState, result: StepResult) -> SendState {
    match result {
        Ok(_) => after_success(state),
        Err(cause) => after_failure(state, cause),
    }
}

/// The state reached from `state` once the operations due one after the
/// other have reported `results`, in this order.
pub open spec fn after_all(state: SendState, results: Seq<StepResult>) -> SendState
    decreases results.len(),
{
    if results.len() == 0 {
        state
    } else {
        after_all(after(state, results[0]), results.drop_first())
    }
}

/// How many operations an attempt in `state` may still ask for.
pub open spec fn steps_left(state: SendState) -> nat {
    match state {
        SendState::Opening => 5,
        SendState::Configuring => 4,
        SendState::Sending(WolPort::Discard) => 3,
        SendState::Sending(WolPort::Echo) => 2,
        SendState::Releasing(_) => 1,
        SendState::Finished(_) => 0,
    }
}

/// Whether `state` can come up in an attempt: an attempt never decides
/// that the hardware address was at fault.
pub open spec fn is_attempt_state(state: SendState) -> bool {
    decided(state) != Some(SendOutcome::Failed(WakeError::InvalidMacAddress))
}

impl SendState {
    /// The state in which every attempt begins.
    pub fn start() -> (state: SendState)
        ensures
            state == SendState::Opening,
    {
        SendState::Opening
    }

    /// The operation to perform next.
    pub fn action(&self) -> (action: SendAction)
        ensures
            action == action_in(*self),
    {
        match self {
            SendState::Opening => SendAction::OpenEndpoint,
            SendState::Configuring => SendAction::EnableBroadcast,
            SendState::Sending(port) => SendAction::SendDatagram(*port),
            SendState::Releasing(_) => SendAction::ReleaseEndpoint,
            SendState::Finished(_) => SendAction::Finish,
        }
    }

    /// Takes the result of the operation that was due and moves on. An
    /// attempt that is over stays as it is.
    pub fn advance(self, result: StepResult) -> (next: SendState)
        ensures
            next == after(self, result),
            self is Finished || steps_left(next) < steps_left(self),
            is_attempt_state(self) ==> is_attempt_state(next),
    {
        match self {
            SendState::Opening => match result {
                Ok(_) => SendState::Configuring,
                Err(cause) => SendState::Finished(
                    SendOutcome::Failed(WakeError::TransportError(cause)),
                ),
            },
            SendState::Configuring => match result {
                Ok(_) => SendState::Sending(WolPort::Discard),
                Err(cause) => SendState::Releasing(
                    SendOutcome::Failed(WakeError::TransportError(cause)),
                ),
            },
            SendState::Sending(WolPort::Discard) => match result {
                Ok(_) => SendState::Sending(WolPort::Echo),
                Err(cause) => SendState::Releasing(
                    SendOutcome::Failed(WakeError::TransportError(cause)),
                ),
            },
            SendState::Sending(WolPort::Echo) => match result {
                Ok(_) => SendState::Releasing(SendOutcome::Sent),
                Err(cause) => SendState::Releasing(
                    SendOutcome::Failed(WakeError::TransportError(cause)),
                ),
            },
            SendState::Releasing(outcome) => SendState::Finished(outcome),
            SendState::Finished(outcome) => SendState::Finished(outcome),
        }
    }

    /// Whether the attempt is over.
    pub fn is_finished(&self) -> (finished: bool)
        ensures
            finished <==> *self is Finished,
    {
        match self {
            SendState::Finished(_) => true,
            _ => false,
        }
    }

    /// The outcome, once the attempt is over.
    pub fn outcome(&self) -> (outcome: Option<&SendOutcome>)
        ensures
            match outcome {
                Some(outcome) => *self == SendState::Finished(*outcome),
                None => !(*self is Finished),
            },
    {
        match self {
            SendState::Finished(outcome) => Some(outcome),
            _ => None,
        }
    }
}

/// An outcome, once decided, is final: whatever the transport reports
/// afterwards leaves it as it is.
pub proof fn lemma_decided_is_kept(state: SendState, results: Seq<StepResult>)
    requires
        decided(state) is Some,
    ensures
        decided(after_all(state, results)) == decided(state),
    decreases results.len(),
{
    if results.len() > 0 {
        lemma_decided_is_kept(after(state, results[0]), results.drop_first());
    }
}

/// An attempt that is over stays over, with the same outcome.
pub proof fn lemma_finished_is_kept(state: SendState, results: Seq<StepResult>)
    requires
        state is Finished,
    ensures
        after_all(state, results) == state,
    decreases results.len(),
{
    if results.len() > 0 {
        lemma_finished_is_kept(after(state, results[0]), results.drop_first());
    }
}

/// The packet counts as sent if and only if the transport accepted all
/// four operations: opening the endpoint, permitting broadcast, and the
/// datagram to each of the two ports.
pub proof fn lemma_sent_iff_all_steps_succeed(results: Seq<StepResult>)
    ensures
        decided(after_all(SendState::Opening, results)) == Some(SendOutcome::Sent) <==> (
        results.len() >= 4 && forall|i: int| 0 <= i < 4 ==> (#[trigger] results[i]) is Ok),
{
    reveal_with_fuel(after_all, 5);
    let tail1 = results.drop_first();
    let tail2 = tail1.drop_first();
    let tail3 = tail2.drop_first();
    let tail4 = tail3.drop_first();
    if results.len() >= 1 {
        assert(tail1.len() >= 1 ==> tail1[0] == results[1]);
        assert(tail1.len() >= 2 ==> tail2[0] == results[2]);
        assert(tail1.len() >= 3 ==> tail3[0] == results[3]);
        let s1 = after(SendState::Opening, results[0]);
        if results[0] is Err {
            lemma_decided_is_kept(s1, tail1);
        } else if tail1.len() >= 1 {
            let s2 = after(s1, tail1[0]);
            if tail1[0] is Err {
                lemma_decided_is_kept(s2, tail2);
            } else if tail2.len() >= 1 {
                let s3 = after(s2, tail2[0]);
                if tail2[0] is Err {
                    lemma_decided_is_kept(s3, tail3);
                } else if tail3.len() >= 1 {
                    let s4 = after(s3, tail3[0]);
                    lemma_decided_is_kept(s4, tail4);
                }
            }
        }
    }
}

/// The first operation that the transport refuses decides the outcome:
/// the attempt fails with the cause that this operation gave, and no
/// later report changes that.
pub proof fn lemma_first_failure_decides(results: Seq<StepResult>, failing: int, cause: String)
    requires
        0 <= failing < 4,
        failing < results.len(),
        results[failing] == Err::<(), String>(cause),
        forall|i: int| 0 <= i < failing ==> (#[trigger] results[i]) is Ok,
    ensures
        decided(after_all(SendState::Opening, results)) == Some(refused(cause)),
{
    reveal_with_fuel(after_all, 5);
    let tail1 = results.drop_first();
    let tail2 = tail1.drop_first();
    let tail3 = tail2.drop_first();
    let tail4 = tail3.drop_first();
    assert(tail1.len() >= 1 ==> tail1[0] == results[1]);
    assert(tail1.len() >= 2 ==> tail2[0] == results[2]);
    assert(tail1.len() >= 3 ==> tail3[0] == results[3]);
    let s1 = after(SendState::Opening, results[0]);
    if failing == 0 {
        lemma_decided_is_kept(s1, tail1);
    } else {
        assert(results[0] is Ok);
        let s2 = after(s1, tail1[0]);
        if failing == 1 {
            lemma_decided_is_kept(s2, tail2);
        } else {
            assert(results[1] is Ok);
            let s3 = after(s2, tail2[0]);
            if failing == 2 {
                lemma_decided_is_kept(s3, tail3);
            } else {
                assert(results[2] is Ok);
                let s4 = after(s3, tail3[0]);
                lemma_decided_is_kept(s4, tail4);
            }
        }
    }
}

/// Every attempt is over after five reports at most, and after the first
/// one if the endpoint could not be opened.
pub proof fn lemma_attempt_ends(results: Seq<StepResult>)
    ensures
        results.len() >= 5 ==> after_all(SendState::Opening, results) is Finished,
        results.len() >= 1 && results[0] is Err ==> after_all(SendState::Opening, results)
            is Finished,
{
    reveal_with_fuel(after_all, 6);
    let tail1 = results.drop_first();
    let tail2 = tail1.drop_first();
    let tail3 = tail2.drop_first();
    let tail4 = tail3.drop_first();
    let tail5 = tail4.drop_first();
    if results.len() >= 1 {
        let s1 = after(SendState::Opening, results[0]);
        if results[0] is Err {
            lemma_finished_is_kept(s1, tail1);
        } else if results.len() >= 5 {
            let s2 = after(s1, tail1[0]);
            let s3 = after(s2, tail2[0]);
            let s4 = after(s3, tail3[0]);
            let s5 = after(s4, tail4[0]);
            assert(steps_left(s2) <= 3);
            assert(steps_left(s3) <= 2);
            assert(steps_left(s4) <= 1);
            assert(s5 is Finished);
            lemma_finished_is_kept(s5, tail5);
        }
    }
}

/// The state after the first `count` of `results`.
pub open spec fn after_first(results: Seq<StepResult>, count: int) -> SendState
    recommends
        0 <= count <= results.len(),
{
    after_all(SendState::Opening, results.subrange(0, count))
}

/// An endpoint that was opened is released before the attempt is over,
/// whatever happened in between: at some point of a finished attempt the
/// operation due was the release.
pub proof fn lemma_opened_endpoint_is_released(results: Seq<StepResult>) -> (at: int)
    requires
        results.len() >= 1,
        results[0] is Ok,
        after_all(SendState::Opening, results) is Finished,
    ensures
        1 <= at < results.len(),
        action_in(after_first(results, at)) == SendAction::ReleaseEndpoint,
{
    let at: int = if results.len() >= 2 && results[1] is Err {
        2
    } else if results.len() >= 3 && results[2] is Err {
        3
    } else {
        4
    };
    reveal_with_fuel(after_all, 6);
    let tail1 = results.drop_first();
    let tail2 = tail1.drop_first();
    let tail3 = tail2.drop_first();
    let tail4 = tail3.drop_first();
    assert(tail1.len() >= 1 ==> tail1[0] == results[1]);
    assert(tail1.len() >= 2 ==> tail2[0] == results[2]);
    assert(tail1.len() >= 3 ==> tail3[0] == results[3]);
    assert(results.len() > at);
    let first = results.subrange(0, at);
    let head1 = first.drop_first();
    let head2 = head1.drop_first();
    let head3 = head2.drop_first();
    let head4 = head3.drop_first();
    assert(first[0] == results[0]);
    assert(head1[0] == results[1]);
    assert(at >= 3 ==> head2[0] == results[2]);
    assert(at >= 4 ==> head3[0] == results[3]);
    assert(at == 2 ==> head2.len() == 0);
    assert(at == 3 ==> head3.len() == 0);
    assert(at == 4 ==> head4.len() == 0);
    at
}

/// Where no endpoint could be opened, the attempt is over at once and asks
/// for nothing more: there is nothing to release.
pub proof fn lemma_unopened_endpoint_is_left_alone(results: Seq<StepResult>, count: int)
    requires
        1 <= count <= results.len(),
        results[0] is Err,
    ensures
        action_in(after_first(results, count)) == SendAction::Finish,
{
    let first = results.subrange(0, count);
    assert(first[0] == results[0]);
    lemma_finished_is_kept(after(SendState::Opening, first[0]), first.drop_first());
}

impl Clone for SendState {
    /// A copy of this state.
    fn clone(&self) -> (copy: SendState)
        ensures
            copy == *self,
    {
        match self {
            SendState::Opening => SendState::Opening,
            SendState::Configuring => SendState::Configuring,
            SendState::Sending(port) => SendState::Sending(*port),
            SendState::Releasing(outcome) => SendState::Releasing(outcome.clone()),
            SendState::Finished(outcome) => SendState::Finished(outcome.clone()),
        }
    }
}

} // verus!

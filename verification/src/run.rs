//! Waking a list of devices, one after the other.
//!
//! A [`WakeRun`] takes the devices in the order given. A device whose
//! hardware address is not valid is recorded as failed at once, with no
//! packet built and nothing asked of the transport. For every other device
//! the run goes through one attempt as [`crate::transmit`] describes it.
//! Whatever happens to one device, the run goes on with the next, and ends
//! with exactly one outcome for each.

use vstd::prelude::*;
use crate::device::{report_of, DeviceReport, DeviceTarget};
use crate::error::{SendOutcome, WakeError};
use crate::mac::{is_mac_text, octets_of_text, MacAddress};
use crate::packet::{magic_packet_bytes, MagicPacket};
use crate::transmit::{
    after, destination, destination_text, is_attempt_state, steps_left, SendState, StepResult,
    WolPort,
};

verus! {

/// What a run is: the devices, the outcomes recorded so far (the `i`-th
/// belongs to the `i`-th device), and the progress of the attempt for the
/// first device without an outcome.
pub struct RunModel {
    pub devices: Seq<DeviceTarget>,
    pub outcomes: Seq<SendOutcome>,
    pub send: SendState,
}

/// The outcome recorded for a device whose hardware address is not valid.
pub open spec fn rejected() -> SendOutcome {
    SendOutcome::Failed(WakeError::InvalidMacAddress)
}

/// `outcomes`, extended by a failure for each device that follows directly
/// and has no valid hardware address.
pub open spec fn skip_rejected(devices: Seq<DeviceTarget>, outcomes: Seq<SendOutcome>) -> Seq<
    SendOutcome,
>
    decreases devices.len() - outcomes.len(),
{
    if outcomes.len() < devices.len() && !is_mac_text(devices[outcomes.len() as int].mac_addr@) {
        skip_rejected(devices, outcomes.push(rejected()))
    } else {
        outcomes
    }
}

impl RunModel {
    /// The run over `devices` before anything was asked of the transport.
    pub open spec fn start(devices: Seq<DeviceTarget>) -> RunModel {
        RunModel {
            devices,
            outcomes: skip_rejected(devices, Seq::empty()),
            send: SendState::Opening,
        }
    }

    /// Whether every device has its outcome.
    pub open spec fn is_finished(self) -> bool {
        self.outcomes.len() >= self.devices.len()
    }

    /// The device that the run is busy with.
    pub open spec fn current(self) -> DeviceTarget
        recommends
            !self.is_finished(),
    {
        self.devices[self.outcomes.len() as int]
    }

    /// What holds of every run: no more outcomes than devices; a recorded
    /// outcome blames the hardware address exactly where the address is
    /// not valid; and the device that the run is busy with has a valid
    /// address and an attempt that is not over.
    pub open spec fn well_formed(self) -> bool {
        &&& self.outcomes.len() <= self.devices.len()
        &&& forall|i: int|
            0 <= i < self.outcomes.len() ==> (#[trigger] self.outcomes[i] == rejected()
                <==> !is_mac_text(self.devices[i].mac_addr@))
        &&& !self.is_finished() ==> {
            &&& is_mac_text(self.current().mac_addr@)
            &&& !(self.send is Finished)
            &&& is_attempt_state(self.send)
        }
    }

    /// The run after the operation that was due has reported `result`. The
    /// report goes to the attempt in progress; when that attempt is over,
    /// its outcome is recorded and the run moves to the next device with a
    /// valid address. A finished run stays as it is.
    pub open spec fn after(self, result: StepResult) -> RunModel {
        if self.is_finished() {
            self
        } else {
            match after(self.send, result) {
                SendState::Finished(outcome) => RunModel {
                    devices: self.devices,
                    outcomes: skip_rejected(self.devices, self.outcomes.push(outcome)),
                    send: SendState::Opening,
                },
                next => RunModel { devices: self.devices, outcomes: self.outcomes, send: next },
            }
        }
    }

    /// The run after the operations due one after the other have reported
    /// `results`, in this order.
    pub open spec fn after_all(self, results: Seq<StepResult>) -> RunModel
        decreases results.len(),
    {
        if results.len() == 0 {
            self
        } else {
            self.after(results[0]).after_all(results.drop_first())
        }
    }

    /// How many operations the run may still ask for: at most five for
    /// each device without an outcome.
    pub open spec fn steps_left(self) -> nat {
        if self.is_finished() {
            0
        } else {
            (steps_left(self.send) + 5 * (self.devices.len() - self.outcomes.len() - 1)) as nat
        }
    }
}

/// What the caller of a run is asked to do next.
#[derive(Debug, PartialEq, Eq)]
pub enum WakeAction {
    /// Open a UDP endpoint bound to [`crate::transmit::LOCAL_ENDPOINT`].
    OpenEndpoint,
    /// Permit broadcast datagrams on the endpoint.
    EnableBroadcast,
    /// Send `packet` to `destination` through the endpoint.
    SendDatagram { packet: MagicPacket, destination: String },
    /// Release the endpoint.
    ReleaseEndpoint,
    /// Nothing: every device has its outcome.
    Finished,
}

/// Whether `action` is what `run` asks for.
pub open spec fn is_due(action: WakeAction, run: RunModel) -> bool {
    if run.is_finished() {
        action is Finished
    } else {
        match run.send {
            SendState::Opening => action is OpenEndpoint,
            SendState::Configuring => action is EnableBroadcast,
            SendState::Sending(port) => {
                &&& action matches WakeAction::SendDatagram { packet, destination }
                &&& packet@ == magic_packet_bytes(octets_of_text(run.current().mac_addr@))
                &&& destination@ == destination_text(run.current().ip_addr@, port)
            },
            SendState::Releasing(_) => action is ReleaseEndpoint,
            SendState::Finished(_) => action is Finished,
        }
    }
}

/// Records a failure for each device from position `outcomes.len()` on
/// whose hardware address is not valid, up to the first device with a
/// valid one, and reads that address.
fn skip_to_valid(devices: &Vec<DeviceTarget>, outcomes: Vec<SendOutcome>) -> (res: (
    Vec<SendOutcome>,
    MacAddress,
))
    requires
        outcomes.len() <= devices.len(),
    ensures
        res.0@ == skip_rejected(devices@, outcomes@),
        outcomes@.len() <= res.0@.len() <= devices@.len(),
        res.0@.subrange(0, outcomes@.len() as int) == outcomes@,
        forall|i: int| outcomes@.len() <= i < res.0@.len() ==> #[trigger] res.0@[i] == rejected(),
        forall|i: int|
            outcomes@.len() <= i < res.0@.len() ==> !is_mac_text(
                (#[trigger] devices@[i]).mac_addr@,
            ),
        res.0@.len() < devices@.len() ==> {
            &&& is_mac_text(devices@[res.0@.len() as int].mac_addr@)
            &&& res.1@ == octets_of_text(devices@[res.0@.len() as int].mac_addr@)
        },
{
    let ghost given = outcomes@;
    let mut outcomes = outcomes;
    let mut mac = MacAddress::new([0u8; 6]);
    let mut found = false;
    while !found && outcomes.len() < devices.len()
        invariant
            given.len() <= outcomes@.len() <= devices@.len(),
            skip_rejected(devices@, outcomes@) == skip_rejected(devices@, given),
            outcomes@.subrange(0, given.len() as int) == given,
            forall|i: int|
                given.len() <= i < outcomes@.len() ==> #[trigger] outcomes@[i] == rejected(),
            forall|i: int|
                given.len() <= i < outcomes@.len() ==> !is_mac_text(
                    (#[trigger] devices@[i]).mac_addr@,
                ),
            found ==> {
                &&& outcomes@.len() < devices@.len()
                &&& is_mac_text(devices@[outcomes@.len() as int].mac_addr@)
                &&& mac@ == octets_of_text(devices@[outcomes@.len() as int].mac_addr@)
            },
        decreases devices@.len() - outcomes@.len() + (if found { 0int } else { 1int }),
    {
        let position = outcomes.len();
        match MacAddress::parse(devices[position].mac_addr.as_str()) {
            Ok(address) => {
                mac = address;
                found = true;
            },
            Err(error) => {
                let ghost before = outcomes@;
                outcomes.push(SendOutcome::Failed(error));
                assert(outcomes@ == before.push(rejected()));
                assert(outcomes@.subrange(0, given.len() as int) =~= before.subrange(
                    0,
                    given.len() as int,
                ));
            },
        }
    }
    (outcomes, mac)
}

/// A run over a list of devices. See the module's description.
#[derive(Debug)]
pub struct WakeRun {
    devices: Vec<DeviceTarget>,
    outcomes: Vec<SendOutcome>,
    mac: MacAddress,
    send: SendState,
}

impl View for WakeRun {
    type V = RunModel;

    closed spec fn view(&self) -> RunModel {
        RunModel { devices: self.devices@, outcomes: self.outcomes@, send: self.send }
    }
}

impl WakeRun {
    #[verifier::type_invariant]
    spec fn holds_together(&self) -> bool {
        &&& self@.well_formed()
        &&& !self@.is_finished() ==> self.mac@ == octets_of_text(self@.current().mac_addr@)
    }

    /// Begins a run over `devices`, in the order given.
    pub fn new(devices: Vec<DeviceTarget>) -> (run: WakeRun)
        ensures
            run@ == RunModel::start(devices@),
            run@.well_formed(),
    {
        let (outcomes, mac) = skip_to_valid(&devices, Vec::new());
        WakeRun { devices, outcomes, mac, send: SendState::Opening }
    }

    /// Whether every device has its outcome.
    pub fn is_finished(&self) -> (finished: bool)
        ensures
            finished == self@.is_finished(),
            finished <==> self@.outcomes.len() == self@.devices.len(),
    {
        proof {
            use_type_invariant(self);
        }
        self.outcomes.len() >= self.devices.len()
    }

    /// The devices of this run.
    pub fn devices(&self) -> (devices: &Vec<DeviceTarget>)
        ensures
            devices@ == self@.devices,
    {
        &self.devices
    }

    /// The outcomes recorded so far, the `i`-th for the `i`-th device.
    pub fn outcomes(&self) -> (outcomes: &Vec<SendOutcome>)
        ensures
            outcomes@ == self@.outcomes,
            self@.well_formed(),
    {
        proof {
            use_type_invariant(self);
        }
        &self.outcomes
    }

    /// The device that the run is busy with, unless it is finished.
    pub fn current(&self) -> (device: Option<&DeviceTarget>)
        ensures
            match device {
                Some(device) => !self@.is_finished() && *device == self@.current(),
                None => self@.is_finished(),
            },
    {
        proof {
            use_type_invariant(self);
        }
        let position = self.outcomes.len();
        if position < self.devices.len() {
            Some(&self.devices[position])
        } else {
            None
        }
    }

    /// The operation to perform next.
    pub fn action(&self) -> (action: WakeAction)
        ensures
            is_due(action, self@),
    {
        proof {
            use_type_invariant(self);
        }
        let position = self.outcomes.len();
        if position >= self.devices.len() {
            return WakeAction::Finished;
        }
        match &self.send {
            SendState::Opening => WakeAction::OpenEndpoint,
            SendState::Configuring => WakeAction::EnableBroadcast,
            SendState::Sending(port) => WakeAction::SendDatagram {
                packet: MagicPacket::build(self.mac),
                destination: destination(self.devices[position].ip_addr.as_str(), *port),
            },
            SendState::Releasing(_) => WakeAction::ReleaseEndpoint,
            SendState::Finished(_) => WakeAction::Finished,
        }
    }

    /// Takes the result of the operation that was due and moves on.
    pub fn advance(self, result: StepResult) -> (next: WakeRun)
        ensures
            next@ == self@.after(result),
            next@.well_formed(),
            self@.is_finished() || next@.steps_left() < self@.steps_left(),
    {
        proof {
            use_type_invariant(&self);
        }
        let WakeRun { devices, outcomes, mac, send } = self;
        if outcomes.len() >= devices.len() {
            return WakeRun { devices, outcomes, mac, send };
        }
        match send.advance(result) {
            SendState::Finished(outcome) => {
                let mut outcomes = outcomes;
                let ghost before = outcomes@;
                outcomes.push(outcome);
                let (outcomes, mac) = skip_to_valid(&devices, outcomes);
                assert forall|i: int| 0 <= i < outcomes@.len() implies (#[trigger] outcomes@[i]
                    == rejected() <==> !is_mac_text(devices@[i].mac_addr@)) by {
                    if i <= before.len() {
                        assert(outcomes@[i] == outcomes@.subrange(0, before.len() as int + 1)[i]);
                    }
                }
                WakeRun { devices, outcomes, mac, send: SendState::Opening }
            },
            next => WakeRun { devices, outcomes, mac, send: next },
        }
    }

    /// The reports of the devices that have their outcome, in the order of
    /// the list.
    pub fn reports(&self) -> (reports: Vec<DeviceReport>)
        ensures
            reports@.len() == self@.outcomes.len(),
            forall|i: int|
                0 <= i < reports@.len() ==> #[trigger] reports@[i] == report_of(
                    self@.devices[i],
                    self@.outcomes[i],
                ),
    {
        proof {
            use_type_invariant(self);
        }
        let mut reports: Vec<DeviceReport> = Vec::new();
        let mut i: usize = 0;
        while i < self.outcomes.len()
            invariant
                i <= self.outcomes@.len() <= self.devices@.len(),
                reports@.len() == i,
                forall|j: int|
                    0 <= j < i ==> #[trigger] reports@[j] == report_of(
                        self.devices@[j],
                        self.outcomes@[j],
                    ),
            decreases self.outcomes@.len() - i,
        {
            reports.push(DeviceReport::new(&self.devices[i], &self.outcomes[i]));
            i += 1;
        }
        reports
    }
}

/// What skipping does: the outcomes given stay in front, every outcome
/// added is a rejection of a device whose address is not valid, and the
/// device that follows the last outcome, if there is one, has a valid
/// address.
pub proof fn lemma_skip_rejected(devices: Seq<DeviceTarget>, outcomes: Seq<SendOutcome>)
    requires
        outcomes.len() <= devices.len(),
    ensures
        outcomes.len() <= skip_rejected(devices, outcomes).len() <= devices.len(),
        skip_rejected(devices, outcomes).subrange(0, outcomes.len() as int) == outcomes,
        forall|i: int|
            outcomes.len() <= i < skip_rejected(devices, outcomes).len() ==> {
                &&& #[trigger] skip_rejected(devices, outcomes)[i] == rejected()
                &&& !is_mac_text(devices[i].mac_addr@)
            },
        skip_rejected(devices, outcomes).len() < devices.len() ==> is_mac_text(
            devices[skip_rejected(devices, outcomes).len() as int].mac_addr@,
        ),
    decreases devices.len() - outcomes.len(),
{
    let skipped = skip_rejected(devices, outcomes);
    if outcomes.len() < devices.len() && !is_mac_text(devices[outcomes.len() as int].mac_addr@) {
        let more = outcomes.push(rejected());
        lemma_skip_rejected(devices, more);
        assert(skipped.subrange(0, outcomes.len() as int) =~= skipped.subrange(
            0,
            more.len() as int,
        ).subrange(0, outcomes.len() as int));
        assert(more.subrange(0, outcomes.len() as int) =~= outcomes);
        assert forall|i: int| outcomes.len() <= i < skipped.len() implies {
            &&& #[trigger] skipped[i] == rejected()
            &&& !is_mac_text(devices[i].mac_addr@)
        } by {
            if i == outcomes.len() {
                assert(skipped.subrange(0, more.len() as int)[i] == more[i]);
            }
        }
    } else {
        assert(skipped.subrange(0, outcomes.len() as int) =~= outcomes);
    }
}

/// A run begins well-formed, and stays so with every report.
pub proof fn lemma_run_stays_well_formed(run: RunModel, result: StepResult)
    requires
        run.well_formed(),
    ensures
        RunModel::start(run.devices).well_formed(),
        run.after(result).well_formed(),
{
    lemma_skip_rejected(run.devices, Seq::empty());
    if !run.is_finished() {
        if let SendState::Finished(outcome) = after(run.send, result) {
            let recorded = run.outcomes.push(outcome);
            lemma_skip_rejected(run.devices, recorded);
            let skipped = skip_rejected(run.devices, recorded);
            assert forall|i: int| 0 <= i < skipped.len() implies (#[trigger] skipped[i]
                == rejected() <==> !is_mac_text(run.devices[i].mac_addr@)) by {
                if i < recorded.len() {
                    assert(skipped[i] == skipped.subrange(0, recorded.len() as int)[i]);
                }
            }
        }
    }
}

/// With every report the run comes closer to its end, the devices stay the
/// same, and no outcome that was recorded is changed or taken back.
pub proof fn lemma_run_moves_on(run: RunModel, result: StepResult)
    requires
        run.well_formed(),
    ensures
        run.after(result).devices == run.devices,
        run.outcomes.len() <= run.after(result).outcomes.len(),
        run.after(result).outcomes.subrange(0, run.outcomes.len() as int) == run.outcomes,
        run.is_finished() ==> run.after(result) == run,
        !run.is_finished() ==> run.after(result).steps_left() < run.steps_left(),
{
    if !run.is_finished() {
        if let SendState::Finished(outcome) = after(run.send, result) {
            let recorded = run.outcomes.push(outcome);
            lemma_skip_rejected(run.devices, recorded);
            let skipped = skip_rejected(run.devices, recorded);
            assert(skipped.subrange(0, run.outcomes.len() as int) =~= skipped.subrange(
                0,
                recorded.len() as int,
            ).subrange(0, run.outcomes.len() as int));
            assert(recorded.subrange(0, run.outcomes.len() as int) =~= run.outcomes);
        } else {
            assert(run.outcomes.subrange(0, run.outcomes.len() as int) =~= run.outcomes);
        }
    } else {
        assert(run.outcomes.subrange(0, run.outcomes.len() as int) =~= run.outcomes);
    }
}

/// Failure of one device never stops the run: whatever the transport
/// reports, a run over `n` devices is finished after `5 * n` reports at
/// most, and a finished run holds exactly one outcome for each device, in
/// the order of the list; the outcome blames the hardware address exactly
/// for the devices whose address is not valid.
pub proof fn lemma_run_ends(run: RunModel, results: Seq<StepResult>)
    requires
        run.well_formed(),
    ensures
        run.after_all(results).well_formed(),
        run.after_all(results).devices == run.devices,
        run.after_all(results).steps_left() + results.len() <= run.steps_left()
            || run.after_all(results).is_finished(),
        run.steps_left() <= 5 * (run.devices.len() - run.outcomes.len()),
        results.len() >= 5 * run.devices.len() ==> run.after_all(results).is_finished(),
        run.after_all(results).is_finished() ==> run.after_all(results).outcomes.len()
            == run.devices.len(),
    decreases results.len(),
{
    if results.len() > 0 {
        let next = run.after(results[0]);
        lemma_run_stays_well_formed(run, results[0]);
        lemma_run_moves_on(run, results[0]);
        lemma_run_ends(next, results.drop_first());
    }
}

/// Each device is dealt with on its own: the outcome recorded for the
/// device that the run is busy with is the outcome of the attempt that the
/// reports for this device make up, whatever happened to the devices
/// before it. Here `results` are the reports up to and including the one
/// with which that attempt is over.
pub proof fn lemma_outcome_is_that_of_the_attempt(
    run: RunModel,
    results: Seq<StepResult>,
    outcome: SendOutcome,
)
    requires
        run.well_formed(),
        !run.is_finished(),
        results.len() >= 1,
        !(crate::transmit::after_all(run.send, results.drop_last()) is Finished),
        crate::transmit::after_all(run.send, results) == SendState::Finished(outcome),
    ensures
        run.after_all(results).outcomes == skip_rejected(run.devices, run.outcomes.push(outcome)),
        run.after_all(results).outcomes[run.outcomes.len() as int] == outcome,
        run.after_all(results).send == SendState::Opening,
    decreases results.len(),
{
    let recorded = run.outcomes.push(outcome);
    lemma_skip_rejected(run.devices, recorded);
    let position = run.outcomes.len() as int;
    assert(skip_rejected(run.devices, recorded).subrange(0, recorded.len() as int)[position]
        == recorded[position]);
    let first = results[0];
    let rest = results.drop_first();
    let next_send = after(run.send, first);
    let next = run.after(first);
    assert(crate::transmit::after_all(run.send, results) == crate::transmit::after_all(
        next_send,
        rest,
    ));
    assert(run.after_all(results) == next.after_all(rest));
    if results.len() == 1 {
        assert(crate::transmit::after_all(next_send, rest) == next_send);
        assert(next.after_all(rest) == next);
    } else {
        let before_last = results.drop_last();
        assert(before_last[0] == first);
        assert(before_last.drop_first() =~= rest.drop_last());
        assert(crate::transmit::after_all(run.send, before_last)
            == crate::transmit::after_all(next_send, rest.drop_last()));
        if next_send is Finished {
            crate::transmit::lemma_finished_is_kept(next_send, rest.drop_last());
        }
        lemma_run_stays_well_formed(run, first);
        lemma_outcome_is_that_of_the_attempt(next, rest, outcome);
    }
}

} // verus!

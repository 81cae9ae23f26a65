use wake_on_lan::device::{DeviceReport, DeviceTarget};
use wake_on_lan::error::{SendOutcome, WakeError};
use wake_on_lan::run::{WakeAction, WakeRun};
use wake_on_lan::transmit::{
    destination, SendAction, SendState, StepResult, WolPort, DISCARD_PORT, ECHO_PORT,
    LOCAL_ENDPOINT,
};

fn refused(cause: &str) -> StepResult {
    Err(cause.to_string())
}

fn transport(cause: &str) -> SendOutcome {
    SendOutcome::Failed(WakeError::TransportError(cause.to_string()))
}

fn device(name: &str, mac: &str, ip: &str) -> DeviceTarget {
    DeviceTarget::new(name.to_string(), mac.to_string(), ip.to_string())
}

fn expected_packet(mac: [u8; 6]) -> Vec<u8> {
    let mut bytes = vec![0xFFu8; 6];
    for _ in 0..16 {
        bytes.extend_from_slice(&mac);
    }
    bytes
}

/// Drives one attempt with the given results and lists the operations asked for.
fn drive(results: Vec<StepResult>) -> (Vec<SendAction>, SendState) {
    let mut state = SendState::start();
    let mut asked = Vec::new();
    for result in results {
        asked.push(state.action());
        state = state.advance(result);
    }
    (asked, state)
}

#[test]
fn ports_and_local_endpoint() {
    assert_eq!(DISCARD_PORT, 9);
    assert_eq!(ECHO_PORT, 7);
    assert_eq!(WolPort::Discard.number(), 9);
    assert_eq!(WolPort::Echo.number(), 7);
    assert_eq!(LOCAL_ENDPOINT, "0.0.0.0:0");
}

#[test]
fn destination_joins_host_and_port() {
    assert_eq!(destination("192.168.1.255", WolPort::Discard), "192.168.1.255:9");
    assert_eq!(destination("192.168.1.255", WolPort::Echo), "192.168.1.255:7");
    assert_eq!(destination("10.0.0.7", WolPort::Discard), "10.0.0.7:9");
    assert_eq!(destination("", WolPort::Echo), ":7");
    assert_eq!(destination("not an address", WolPort::Discard), "not an address:9");
}

#[test]
fn attempt_with_a_willing_transport() {
    let (asked, state) = drive(vec![Ok(()), Ok(()), Ok(()), Ok(()), Ok(())]);
    assert_eq!(
        asked,
        vec![
            SendAction::OpenEndpoint,
            SendAction::EnableBroadcast,
            SendAction::SendDatagram(WolPort::Discard),
            SendAction::SendDatagram(WolPort::Echo),
            SendAction::ReleaseEndpoint,
        ]
    );
    assert_eq!(state, SendState::Finished(SendOutcome::Sent));
    assert_eq!(state.action(), SendAction::Finish);
    assert!(state.is_finished());
    assert_eq!(state.outcome(), Some(&SendOutcome::Sent));
}

#[test]
fn attempt_is_not_over_before_the_release() {
    let (_, state) = drive(vec![Ok(()), Ok(()), Ok(()), Ok(())]);
    assert_eq!(state, SendState::Releasing(SendOutcome::Sent));
    assert!(!state.is_finished());
    assert_eq!(state.outcome(), None);
    assert_eq!(state.action(), SendAction::ReleaseEndpoint);
}

#[test]
fn attempt_states_in_order() {
    let state = SendState::start();
    assert_eq!(state, SendState::Opening);
    let state = state.advance(Ok(()));
    assert_eq!(state, SendState::Configuring);
    let state = state.advance(Ok(()));
    assert_eq!(state, SendState::Sending(WolPort::Discard));
    let state = state.advance(Ok(()));
    assert_eq!(state, SendState::Sending(WolPort::Echo));
    let state = state.advance(Ok(()));
    assert_eq!(state, SendState::Releasing(SendOutcome::Sent));
    let state = state.advance(Ok(()));
    assert_eq!(state, SendState::Finished(SendOutcome::Sent));
}

#[test]
fn no_endpoint_means_nothing_to_release() {
    let (asked, state) = drive(vec![refused("address in use")]);
    assert_eq!(asked, vec![SendAction::OpenEndpoint]);
    assert_eq!(state, SendState::Finished(transport("address in use")));
    assert_eq!(state.action(), SendAction::Finish);
}

#[test]
fn refused_broadcast_ends_the_attempt() {
    let (asked, state) = drive(vec![Ok(()), refused("permission denied"), Ok(())]);
    assert_eq!(
        asked,
        vec![SendAction::OpenEndpoint, SendAction::EnableBroadcast, SendAction::ReleaseEndpoint]
    );
    assert_eq!(state, SendState::Finished(transport("permission denied")));
}

#[test]
fn refused_first_datagram_skips_the_second() {
    let (asked, state) = drive(vec![Ok(()), Ok(()), refused("network is unreachable"), Ok(())]);
    assert_eq!(
        asked,
        vec![
            SendAction::OpenEndpoint,
            SendAction::EnableBroadcast,
            SendAction::SendDatagram(WolPort::Discard),
            SendAction::ReleaseEndpoint,
        ]
    );
    assert_eq!(state, SendState::Finished(transport("network is unreachable")));
}

#[test]
fn refused_second_datagram_fails_the_attempt() {
    let (asked, state) = drive(vec![Ok(()), Ok(()), Ok(()), refused("invalid argument"), Ok(())]);
    assert_eq!(asked.len(), 5);
    assert_eq!(asked[3], SendAction::SendDatagram(WolPort::Echo));
    assert_eq!(asked[4], SendAction::ReleaseEndpoint);
    assert_eq!(state, SendState::Finished(transport("invalid argument")));
    assert!(!state.outcome().unwrap().is_sent());
}

#[test]
fn release_cannot_change_the_outcome() {
    let (_, state) = drive(vec![Ok(()), Ok(()), Ok(()), Ok(()), refused("late")]);
    assert_eq!(state, SendState::Finished(SendOutcome::Sent));
    let (_, state) = drive(vec![Ok(()), refused("early"), refused("late")]);
    assert_eq!(state, SendState::Finished(transport("early")));
}

#[test]
fn finished_attempt_ignores_further_results() {
    let (_, state) = drive(vec![Ok(()), Ok(()), Ok(()), Ok(()), Ok(())]);
    let state = state.advance(refused("too late")).advance(Ok(()));
    assert_eq!(state, SendState::Finished(SendOutcome::Sent));
    let (_, state) = drive(vec![refused("first")]);
    let state = state.advance(refused("second")).advance(Ok(()));
    assert_eq!(state, SendState::Finished(transport("first")));
}

#[test]
fn outcome_and_error_helpers() {
    assert!(SendOutcome::Sent.is_sent());
    assert!(!transport("x").is_sent());
    assert!(!SendOutcome::Failed(WakeError::InvalidMacAddress).is_sent());
    assert_eq!(WakeError::InvalidMacAddress.message(), "Invalid MAC address");
    let error = WakeError::TransportError("no route to host".to_string());
    assert_eq!(error.message(), "no route to host");
    assert_eq!(transport("x").clone(), transport("x"));
    assert_eq!(SendState::Releasing(transport("y")).clone(), SendState::Releasing(transport("y")));
    assert_eq!(WakeError::InvalidMacAddress.clone(), WakeError::InvalidMacAddress);
}

#[test]
fn empty_list_is_finished_at_once() {
    let run = WakeRun::new(Vec::new());
    assert!(run.is_finished());
    assert_eq!(run.action(), WakeAction::Finished);
    assert!(run.outcomes().is_empty());
    assert!(run.reports().is_empty());
    assert_eq!(run.current(), None);
    let run = run.advance(Ok(()));
    assert!(run.is_finished());
    assert!(run.outcomes().is_empty());
}

#[test]
fn invalid_address_is_rejected_without_transport() {
    let run = WakeRun::new(vec![device("printer", "GG:02:03:04:05:06", "192.168.1.255")]);
    assert!(run.is_finished());
    assert_eq!(run.action(), WakeAction::Finished);
    assert_eq!(run.outcomes(), &vec![SendOutcome::Failed(WakeError::InvalidMacAddress)]);
}

#[test]
fn one_device_with_a_willing_transport() {
    let mut run = WakeRun::new(vec![device("nas", "01:02:03:04:05:06", "192.168.1.255")]);
    assert_eq!(run.current(), Some(&device("nas", "01:02:03:04:05:06", "192.168.1.255")));
    assert_eq!(run.action(), WakeAction::OpenEndpoint);
    run = run.advance(Ok(()));
    assert_eq!(run.action(), WakeAction::EnableBroadcast);
    run = run.advance(Ok(()));
    match run.action() {
        WakeAction::SendDatagram { packet, destination } => {
            assert_eq!(packet.as_bytes(), expected_packet([1, 2, 3, 4, 5, 6]).as_slice());
            assert_eq!(destination, "192.168.1.255:9");
        }
        other => panic!("{:?}", other),
    }
    run = run.advance(Ok(()));
    match run.action() {
        WakeAction::SendDatagram { packet, destination } => {
            assert_eq!(packet.as_bytes(), expected_packet([1, 2, 3, 4, 5, 6]).as_slice());
            assert_eq!(destination, "192.168.1.255:7");
        }
        other => panic!("{:?}", other),
    }
    run = run.advance(Ok(()));
    assert_eq!(run.action(), WakeAction::ReleaseEndpoint);
    assert!(!run.is_finished());
    assert!(run.outcomes().is_empty());
    run = run.advance(Ok(()));
    assert!(run.is_finished());
    assert_eq!(run.action(), WakeAction::Finished);
    assert_eq!(run.outcomes(), &vec![SendOutcome::Sent]);
}

#[test]
fn one_valid_and_one_invalid_device() {
    let devices = vec![
        device("nas", "01:02:03:04:05:06", "192.168.1.255"),
        device("printer", "GG:02:03:04:05:06", "192.168.1.255"),
    ];
    let mut run = WakeRun::new(devices.clone());
    let mut steps = 0;
    while !run.is_finished() {
        assert_ne!(run.action(), WakeAction::Finished);
        run = run.advance(Ok(()));
        steps += 1;
    }
    assert_eq!(steps, 5);
    assert_eq!(
        run.outcomes(),
        &vec![SendOutcome::Sent, SendOutcome::Failed(WakeError::InvalidMacAddress)]
    );
    assert_eq!(run.devices(), &devices);

    let mut run = WakeRun::new(devices);
    run = run.advance(Ok(()));
    run = run.advance(Ok(()));
    run = run.advance(refused("network is unreachable"));
    run = run.advance(Ok(()));
    assert!(run.is_finished());
    assert_eq!(
        run.outcomes(),
        &vec![
            transport("network is unreachable"),
            SendOutcome::Failed(WakeError::InvalidMacAddress),
        ]
    );
}

#[test]
fn invalid_device_first_does_not_block_the_next() {
    let mut run = WakeRun::new(vec![
        device("printer", "01:02:03:04:05", "10.0.0.255"),
        device("nas", "0a:0b:0c:0d:0e:0f", "10.0.0.255"),
    ]);
    assert_eq!(run.outcomes(), &vec![SendOutcome::Failed(WakeError::InvalidMacAddress)]);
    assert_eq!(run.current().unwrap().name, "nas");
    assert_eq!(run.action(), WakeAction::OpenEndpoint);
    for _ in 0..5 {
        run = run.advance(Ok(()));
    }
    assert!(run.is_finished());
    assert_eq!(
        run.outcomes(),
        &vec![SendOutcome::Failed(WakeError::InvalidMacAddress), SendOutcome::Sent]
    );
}

#[test]
fn failure_of_one_device_leaves_the_others_alone() {
    let mut run = WakeRun::new(vec![
        device("a", "00:00:00:00:00:01", "not an address"),
        device("b", "zz", "10.0.0.255"),
        device("c", "", "10.0.0.255"),
        device("d", "00:00:00:00:00:04", "10.0.0.255"),
    ]);
    run = run.advance(Ok(()));
    run = run.advance(Ok(()));
    match run.action() {
        WakeAction::SendDatagram { destination, .. } => assert_eq!(destination, "not an address:9"),
        other => panic!("{:?}", other),
    }
    run = run.advance(refused("invalid socket address"));
    assert_eq!(run.action(), WakeAction::ReleaseEndpoint);
    run = run.advance(Ok(()));
    assert_eq!(run.outcomes().len(), 3);
    assert_eq!(run.current().unwrap().name, "d");
    assert_eq!(run.action(), WakeAction::OpenEndpoint);
    run = run.advance(refused("too many open files"));
    assert!(run.is_finished());
    assert_eq!(
        run.outcomes(),
        &vec![
            transport("invalid socket address"),
            SendOutcome::Failed(WakeError::InvalidMacAddress),
            SendOutcome::Failed(WakeError::InvalidMacAddress),
            transport("too many open files"),
        ]
    );
}

#[test]
fn each_device_gets_its_own_packet_and_destination() {
    let mut run = WakeRun::new(vec![
        device("a", "AA:AA:AA:AA:AA:AA", "10.0.0.255"),
        device("b", "bb:bb:bb:bb:bb:bb", "10.0.1.255"),
    ]);
    let mut sent = Vec::new();
    while !run.is_finished() {
        if let WakeAction::SendDatagram { packet, destination } = run.action() {
            sent.push((packet.into_bytes(), destination));
        }
        run = run.advance(Ok(()));
    }
    assert_eq!(
        sent,
        vec![
            (expected_packet([0xaa; 6]), "10.0.0.255:9".to_string()),
            (expected_packet([0xaa; 6]), "10.0.0.255:7".to_string()),
            (expected_packet([0xbb; 6]), "10.0.1.255:9".to_string()),
            (expected_packet([0xbb; 6]), "10.0.1.255:7".to_string()),
        ]
    );
}

#[test]
fn reports_join_devices_and_outcomes() {
    let mut run = WakeRun::new(vec![
        device("printer", "nonsense", "10.0.0.255"),
        device("nas", "0a:0b:0c:0d:0e:0f", "10.0.0.9"),
    ]);
    assert_eq!(
        run.reports(),
        vec![DeviceReport {
            name: "printer".to_string(),
            mac_addr: "nonsense".to_string(),
            ip_addr: "10.0.0.255".to_string(),
            outcome: SendOutcome::Failed(WakeError::InvalidMacAddress),
        }]
    );
    for _ in 0..5 {
        run = run.advance(Ok(()));
    }
    let reports = run.reports();
    assert_eq!(reports.len(), 2);
    assert_eq!(
        reports[1],
        DeviceReport::new(&device("nas", "0a:0b:0c:0d:0e:0f", "10.0.0.9"), &SendOutcome::Sent)
    );
    assert_eq!(reports[1].name, "nas");
    assert_eq!(reports[1].mac_addr, "0a:0b:0c:0d:0e:0f");
    assert_eq!(reports[1].ip_addr, "10.0.0.9");
    assert_eq!(reports[1].outcome, SendOutcome::Sent);
}

#[test]
fn finished_run_ignores_further_results() {
    let mut run = WakeRun::new(vec![device("nas", "0a:0b:0c:0d:0e:0f", "10.0.0.9")]);
    run = run.advance(refused("no endpoint"));
    assert!(run.is_finished());
    run = run.advance(Ok(())).advance(refused("late"));
    assert_eq!(run.outcomes(), &vec![transport("no endpoint")]);
}

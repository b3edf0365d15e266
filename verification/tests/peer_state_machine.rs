use lunamisc::packet::{Action, PacketBody};
use lunamisc::peer::{Event, PeerStateMachine, RecommendedAction};

/// 100 ms, in nanoseconds.
const RETRANSMISSION: u64 = 100_000_000;
/// An arbitrary point of the monotonic clock, in nanoseconds.
const NOW: u64 = 5_000_000_000;

fn machine() -> PeerStateMachine {
    PeerStateMachine::new(RETRANSMISSION, 256, 1400)
}

fn hot_bytes(action: &RecommendedAction) -> Vec<u8> {
    action.get_hot_packet().expect("a packet to send").as_slice().to_vec()
}

#[test]
fn send_unreliable_1() {
    let mut state_machine = machine();
    let reliable_builder = state_machine.get_packet_builder();
    let outgoing_data = reliable_builder
        .new_unreliable(PacketBody::from(vec![217u8]))
        .unwrap();
    let event = Event::Action(outgoing_data.into());
    let action = state_machine.poll(event, NOW);

    assert_eq!(hot_bytes(&action), [217, 0, 0, 0, 0, 0, 0, 0, 0]);
    assert_eq!(state_machine.poll(Event::NoEvent, NOW), RecommendedAction::WaitForData);

    let mut other_state_machine = machine();
    let event = Event::IncomingData(&[217, 0, 0, 0, 0, 0, 0, 0, 0]);
    let action = other_state_machine.poll(event, NOW);

    assert_eq!(action, RecommendedAction::HandleData(&[217]));
}

#[test]
fn send_reliable_1() {
    let mut state_machine = machine();
    let reliable_builder = state_machine.get_packet_builder();
    let outgoing_data = reliable_builder.new_reliable(PacketBody::from(vec![15u8])).unwrap();

    assert_eq!(outgoing_data.get_index().get(), 1);

    let event = Event::Action(outgoing_data.into());
    let action = state_machine.poll(event, NOW);

    assert_eq!(hot_bytes(&action), [15, 0, 0, 0, 0, 0, 0, 0, 1]);
    let action = state_machine.poll(Event::NoEvent, NOW);
    let RecommendedAction::WaitForDuration(duration) = action else {
        panic!("Not WaitForDuration")
    };
    assert!(duration > 98_000_000);

    let mut other_state_machine = machine();
    let event = Event::IncomingData(&[15, 0, 0, 0, 0, 0, 0, 0, 1]);
    let action = other_state_machine.poll(event, NOW);

    let to_send = (1u64 + (1 << 63)).to_be_bytes();
    assert_eq!(action, RecommendedAction::HandleDataAndSend { received: &[15], to_send });

    assert_eq!(other_state_machine.poll(Event::NoEvent, NOW), RecommendedAction::WaitForData);

    let action = state_machine.poll(Event::NoEvent, NOW);
    let RecommendedAction::WaitForDuration(duration) = action else {
        panic!("Not WaitForDuration")
    };
    assert!(duration > 98_000_000);

    let event = Event::IncomingData(&to_send);
    let action = state_machine.poll(event, NOW);

    assert_eq!(action, RecommendedAction::WaitForData);
}

#[test]
fn send_reliable_2() {
    let mut state_machine = machine();
    let reliable_builder = state_machine.get_packet_builder();
    let outgoing_data = reliable_builder.new_reliable(PacketBody::from(vec![15u8])).unwrap();

    assert_eq!(outgoing_data.get_index().get(), 1);

    let event = Event::Action(outgoing_data.into());
    let action = state_machine.poll(event, NOW);

    assert_eq!(hot_bytes(&action), [15, 0, 0, 0, 0, 0, 0, 0, 1]);
    let action = state_machine.poll(Event::NoEvent, NOW);
    let RecommendedAction::WaitForDuration(duration) = action else {
        panic!("Not WaitForDuration")
    };
    assert!(duration > 98_000_000);

    let mut other_state_machine = machine();
    let event = Event::IncomingData(&[15, 0, 0, 0, 0, 0, 0, 0, 1]);
    let action = other_state_machine.poll(event, NOW);

    let to_send = (1u64 + (1 << 63)).to_be_bytes();
    assert_eq!(action, RecommendedAction::HandleDataAndSend { received: &[15], to_send });

    assert_eq!(other_state_machine.poll(Event::NoEvent, NOW), RecommendedAction::WaitForData);

    let action = state_machine.poll(Event::NoEvent, NOW);
    let RecommendedAction::WaitForDuration(duration) = action else {
        panic!("Not WaitForDuration")
    };
    assert!(duration > 98_000_000);

    let action = state_machine.poll(Event::NoEvent, NOW + RETRANSMISSION);
    assert_eq!(hot_bytes(&action), [15, 0, 0, 0, 0, 0, 0, 0, 1]);
    let action = state_machine.poll(Event::NoEvent, NOW);
    let RecommendedAction::WaitForDuration(duration) = action else {
        panic!("Not WaitForDuration")
    };
    assert!(duration > 98_000_000);

    let event = Event::IncomingData(&[15, 0, 0, 0, 0, 0, 0, 0, 1]);
    let action = other_state_machine.poll(event, NOW);

    assert_eq!(hot_bytes(&action), to_send);

    let event = Event::IncomingData(&to_send);
    let action = state_machine.poll(event, NOW);

    assert_eq!(action, RecommendedAction::WaitForData);
}

#[test]
fn reliable_indices_count_up() {
    let state_machine = machine();
    let builder = state_machine.get_packet_builder();
    let first = builder.new_reliable(PacketBody::from(vec![1u8])).unwrap();
    let second = builder.new_reliable(PacketBody::from(vec![2u8])).unwrap();
    assert_eq!(first.get_index().get(), 1);
    assert_eq!(second.get_index().get(), 2);
}

#[test]
fn acknowledged_packet_is_no_longer_retransmitting() {
    let mut state_machine = machine();
    let builder = state_machine.get_packet_builder();
    let packet = builder.new_reliable(PacketBody::from(vec![7u8])).unwrap();
    let index = packet.get_index();
    let _ = state_machine.poll(Event::Action(packet.into()), NOW);
    assert!(state_machine.is_packet_retransmitting(index));
    let ack = (1u64 + (1 << 63)).to_be_bytes();
    assert_eq!(state_machine.poll(Event::IncomingData(&ack), NOW), RecommendedAction::WaitForData);
    assert!(!state_machine.is_packet_retransmitting(index));
}

#[test]
fn cancelled_packet_is_not_retransmitted() {
    let mut state_machine = machine();
    let builder = state_machine.get_packet_builder();
    let packet = builder.new_reliable(PacketBody::from(vec![7u8])).unwrap();
    let index = packet.get_index();
    let _ = state_machine.poll(Event::Action(packet.into()), NOW);
    let _ = state_machine.poll(Event::Action(Action::CancelReliable(index)), NOW);
    assert!(!state_machine.is_packet_retransmitting(index));
    assert_eq!(
        state_machine.poll(Event::NoEvent, NOW + 10 * RETRANSMISSION),
        RecommendedAction::WaitForData
    );
}

#[test]
fn short_packet_is_an_error() {
    let mut state_machine = machine();
    let action = state_machine.poll(Event::IncomingData(&[1, 2, 3]), NOW);
    assert!(matches!(action, RecommendedAction::HandleError(_)));
}

#[test]
fn reconnection_message_is_the_reserved_index() {
    let mut state_machine = machine();
    let (action, index) = state_machine.send_reconnection_msg(NOW);
    let bytes = hot_bytes(&action);
    assert_eq!(bytes, index.get().to_be_bytes());
}

#[test]
fn reconnection_makes_the_peer_forget_received_packets() {
    let mut peer = machine();
    let packet = [15, 0, 0, 0, 0, 0, 0, 0, 1];
    let to_send = (1u64 + (1 << 63)).to_be_bytes();
    assert_eq!(
        peer.poll(Event::IncomingData(&packet), NOW),
        RecommendedAction::HandleDataAndSend { received: &[15], to_send }
    );
    let _ = peer.poll(Event::NoEvent, NOW);
    let reconnect = 0x7fff_ffff_ffff_ffffu64.to_be_bytes();
    let answer = peer.poll(Event::IncomingData(&reconnect), NOW);
    assert_eq!(hot_bytes(&answer), [0xff; 8]);
    let _ = peer.poll(Event::NoEvent, NOW);
    assert_eq!(
        peer.poll(Event::IncomingData(&packet), NOW),
        RecommendedAction::HandleDataAndSend { received: &[15], to_send }
    );
}

use smkb::crypto::SessionKeys;
use smkb::event::InputEvent;
use smkb::frame::Frame;
use smkb::reliable::{
    seq_lt, ReliableReceiver, ReliableSender, SeqCounter, UnreliableReceiver, RETRANSMIT_GIVEUP,
    RETRANSMIT_INTERVAL,
};
use smkb::transport::{Received, Session};
use smkb::wire::{decode, Channel, WireError};

const A: [u8; 32] = [0xa1; 32];
const B: [u8; 32] = [0xb2; 32];

fn pair() -> (Session, Session) {
    (Session::new(SessionKeys { send: A, recv: B }), Session::new(SessionKeys { send: B, recv: A }))
}

fn key(code: u16) -> Frame {
    Frame::Event(InputEvent::Key { code, pressed: true })
}

#[test]
fn sequence_numbers_wrap() {
    assert!(seq_lt(0, 1));
    assert!(!seq_lt(1, 1));
    assert!(!seq_lt(1, 0));
    assert!(seq_lt(u32::MAX, 0));
    assert!(!seq_lt(0, u32::MAX));
    assert!(!seq_lt(0x7fff_ffff, 0));
    assert!(seq_lt(0x8000_0000, 0));
    let mut counter = SeqCounter::default();
    assert_eq!(counter.next_seq(), 0);
    assert_eq!(counter.next_seq(), 1);
    assert_eq!(counter.next_seq(), 2);
}

#[test]
fn unacknowledged_packets_are_resent_and_given_up() {
    let mut tx = ReliableSender::new();
    tx.note_sent(7, vec![7], 1_000);
    tx.note_sent(3, vec![3], 1_000);
    assert_eq!(tx.pending_count(), 2);
    assert_eq!(tx.due_retransmits(1_000 + RETRANSMIT_INTERVAL - 1), Vec::<Vec<u8>>::new());
    assert_eq!(tx.due_retransmits(1_000 + RETRANSMIT_INTERVAL), vec![vec![3], vec![7]]);
    assert_eq!(tx.due_retransmits(1_000 + RETRANSMIT_INTERVAL + 1), Vec::<Vec<u8>>::new());
    tx.on_ack(3);
    tx.on_ack(99);
    assert_eq!(tx.pending_count(), 1);
    assert_eq!(tx.due_retransmits(1_000 + RETRANSMIT_GIVEUP), vec![vec![7]]);
    assert_eq!(tx.pending_count(), 1);
    assert_eq!(tx.due_retransmits(1_001 + RETRANSMIT_GIVEUP), Vec::<Vec<u8>>::new());
    assert_eq!(tx.pending_count(), 0);
}

#[test]
fn a_clock_that_goes_back_resends_nothing() {
    let mut tx = ReliableSender::default();
    tx.note_sent(0, vec![1], RETRANSMIT_GIVEUP * 2);
    assert!(tx.due_retransmits(5).is_empty());
    assert_eq!(tx.pending_count(), 1);
}

#[test]
fn frames_are_handed_on_in_order_and_once() {
    let mut rx = ReliableReceiver::new();
    assert_eq!(rx.on_receive(2, key(2)), vec![]);
    assert_eq!(rx.on_receive(1, key(1)), vec![]);
    assert_eq!(rx.on_receive(2, key(99)), vec![]);
    assert_eq!(rx.on_receive(0, key(0)), vec![key(0), key(1), key(2)]);
    assert_eq!(rx.on_receive(0, key(0)), vec![]);
    assert_eq!(rx.on_receive(1, key(1)), vec![]);
    assert_eq!(rx.on_receive(4, key(4)), vec![]);
    assert_eq!(rx.on_receive(3, key(3)), vec![key(3), key(4)]);
    assert_eq!(rx.on_receive(u32::MAX, key(8)), vec![]);
}

#[test]
fn any_order_of_arrivals_delivers_everything() {
    let n: u32 = 40;
    for step in [7u32, 11, 13, 37] {
        let mut rx = ReliableReceiver::default();
        let mut out = Vec::new();
        let mut i: u32 = 0;
        for _ in 0..(2 * n) {
            out.extend(rx.on_receive(i, key(i as u16)));
            i = (i + step) % n;
        }
        let expected: Vec<Frame> = (0..n).map(|i| key(i as u16)).collect();
        assert_eq!(out, expected);
    }
}

#[test]
fn only_newer_numbers_are_accepted() {
    let mut rx = UnreliableReceiver::new();
    assert!(rx.accept(u32::MAX));
    assert!(!rx.accept(u32::MAX));
    assert!(rx.accept(0));
    assert!(!rx.accept(u32::MAX));
    assert!(rx.accept(5));
    assert!(!rx.accept(4));
    assert!(rx.accept(5 + 0x8000_0000));
    let mut fresh = UnreliableReceiver::default();
    assert!(fresh.accept(123));
}

#[test]
fn reliable_frames_are_acknowledged() {
    let (mut a, mut b) = pair();
    let packet = a.send_reliable(&key(1), 10);
    assert_eq!(a.pending_reliable_count(), 1);
    let got = b.on_datagram(&packet).unwrap();
    assert_eq!(got.ready, vec![key(1)]);
    let reply = got.reply.unwrap();
    assert_eq!(decode(&B, &reply), Ok((Channel::Control, 0, Frame::Ack { acked_seq: 0 })));
    let settled = a.on_datagram(&reply).unwrap();
    assert_eq!(settled.ready, vec![]);
    assert_eq!(settled.reply, None);
    assert_eq!(a.pending_reliable_count(), 0);
    assert!(a.due_retransmits(10 + RETRANSMIT_INTERVAL).is_empty());
}

#[test]
fn lost_packets_come_again_and_repeats_bring_nothing() {
    let (mut a, mut b) = pair();
    let first = a.send_reliable(&key(1), 0);
    let second = a.send_reliable(&key(2), 0);
    assert_eq!(b.on_datagram(&second).unwrap().ready, vec![]);
    let again = a.due_retransmits(RETRANSMIT_INTERVAL);
    assert_eq!(again, vec![first.clone(), second.clone()]);
    assert_eq!(b.on_datagram(&again[0]).unwrap().ready, vec![key(1), key(2)]);
    let repeated = b.on_datagram(&again[1]).unwrap();
    assert_eq!(repeated.ready, vec![]);
    assert_eq!(
        decode(&B, &repeated.reply.unwrap()),
        Ok((Channel::Control, 2, Frame::Ack { acked_seq: 1 }))
    );
}

#[test]
fn late_movements_are_dropped() {
    let (mut a, mut b) = pair();
    let m = |x| Frame::Event(InputEvent::Motion { x, y: 0 });
    let one = a.send_unreliable(&m(1));
    let two = a.send_unreliable(&m(2));
    let got = b.on_datagram(&two).unwrap();
    assert_eq!(got.ready, vec![m(2)]);
    assert_eq!(got.reply, None);
    assert_eq!(b.on_datagram(&one).unwrap().ready, vec![]);
    assert_eq!(b.on_datagram(&two).unwrap().ready, vec![]);
}

#[test]
fn control_frames_are_handed_on_but_acknowledgements() {
    let (mut a, mut b) = pair();
    let ping = a.send_control(&Frame::Ping { nonce: 4 });
    let got = b.on_datagram(&ping).unwrap();
    assert_eq!(got.ready, vec![Frame::Ping { nonce: 4 }]);
    assert_eq!(b.on_datagram(&ping).unwrap().ready, vec![]);
    let ack = a.send_control(&Frame::Ack { acked_seq: 0 });
    assert_eq!(b.on_datagram(&ack).unwrap().ready, vec![]);
}

#[test]
fn a_rejected_datagram_changes_nothing() {
    let (mut a, mut b) = pair();
    let packet = a.send_reliable(&key(1), 0);
    let mut broken = packet.clone();
    broken[10] ^= 1;
    assert_eq!(b.on_datagram(&broken).err(), Some(WireError::Crypto));
    assert_eq!(b.on_datagram(&[]).err(), Some(WireError::TooShort(0)));
    assert_eq!(a.on_datagram(&packet).err(), Some(WireError::Crypto));
    assert_eq!(b.on_datagram(&packet).unwrap().ready, vec![key(1)]);
}

#[test]
fn packets_of_one_session_differ() {
    let (mut a, _) = pair();
    let one = a.send_control(&Frame::Bye);
    let two = a.send_control(&Frame::Bye);
    assert_ne!(one, two);
    let nothing = Received::default();
    assert!(nothing.ready.is_empty() && nothing.reply.is_none());
}

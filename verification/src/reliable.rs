//! Delivery over a network that loses, repeats and reorders packets.
use crate::frame::{frame_models, Frame, FrameModel};
use std::collections::{BTreeMap, HashMap};
use vstd::prelude::*;
use vstd::std_specs::cmp::OrdSpec;
use vstd::std_specs::iter::IteratorSpec;

verus! {

broadcast use {
    vstd::std_specs::btree::group_btree_axioms,
    vstd::std_specs::hash::group_hash_axioms,
};

/// Nanoseconds between two transmissions of an unacknowledged packet.
pub const RETRANSMIT_INTERVAL: u64 = 5_000_000;

/// Nanoseconds after which an unacknowledged packet is given up.
pub const RETRANSMIT_GIVEUP: u64 = 200_000_000;

/// One past the largest sequence number.
pub const SEQ_COUNT: u64 = 0x1_0000_0000;

/// The sequence number of the `index`-th packet of a channel.
#[verifier::opaque]
pub open spec fn seq_of(index: int) -> u32 {
    (index % (SEQ_COUNT as int)) as u32
}

/// Whether `a` stands before `b`, less than half of all numbers behind it.
pub open spec fn seq_before(a: u32, b: u32) -> bool {
    (a - b) % (SEQ_COUNT as int) >= SEQ_COUNT / 2
}

/// Whether sequence number `a` is older than `b`.
pub fn seq_lt(a: u32, b: u32) -> (res: bool)
    ensures
        res == seq_before(a, b),
{
    let d: u32 = a.wrapping_sub(b);
    assert((d as i32) < 0 <==> d >= 0x8000_0000u32) by (bit_vector);
    (d as i32) < 0
}

/// The time from `then` to `now`, zero where `then` is later.
pub open spec fn elapsed(now: u64, then: u64) -> u64 {
    if now > then {
        (now - then) as u64
    } else {
        0
    }
}

/// The sequence numbers of one channel, in order from zero.
#[derive(Debug)]
pub struct SeqCounter(u32);

impl View for SeqCounter {
    type V = u32;

    closed spec fn view(&self) -> u32 {
        self.0
    }
}

impl Default for SeqCounter {
    fn default() -> (counter: Self)
        ensures
            counter@ == 0,
    {
        SeqCounter(0)
    }
}

impl SeqCounter {
    /// The next sequence number. After the last one they start again at zero.
    pub fn next_seq(&mut self) -> (seq: u32)
        ensures
            seq == old(self)@,
            final(self)@ == seq_of(old(self)@ + 1),
    {
        reveal(seq_of);
        let seq: u32 = self.0;
        self.0 = self.0.wrapping_add(1);
        seq
    }
}

/// A packet that no acknowledgement has come for.
#[derive(Debug)]
pub struct Pending {
    packet: Vec<u8>,
    first_sent: u64,
    last_sent: u64,
}

/// The contents of a [`Pending`].
pub struct PendingModel {
    pub packet: Seq<u8>,
    pub first_sent: u64,
    pub last_sent: u64,
}

impl View for Pending {
    type V = PendingModel;

    closed spec fn view(&self) -> PendingModel {
        PendingModel {
            packet: self.packet@,
            first_sent: self.first_sent,
            last_sent: self.last_sent,
        }
    }
}

/// Whether a packet has been tried for so long that it is given up.
pub open spec fn given_up(p: PendingModel, now: u64) -> bool {
    elapsed(now, p.first_sent) > RETRANSMIT_GIVEUP
}

/// Whether a packet is to be sent once more.
pub open spec fn is_due(p: PendingModel, now: u64) -> bool {
    !given_up(p, now) && elapsed(now, p.last_sent) >= RETRANSMIT_INTERVAL
}

/// The numbers, from `from` up and in increasing order, of the packets to be sent once more.
pub open spec fn due_seqs(pending: Map<u32, PendingModel>, now: u64, from: int) -> Seq<u32>
    decreases SEQ_COUNT - from,
{
    if from < 0 || from >= SEQ_COUNT {
        Seq::empty()
    } else if pending.contains_key(from as u32) && is_due(pending[from as u32], now) {
        seq![from as u32] + due_seqs(pending, now, from + 1)
    } else {
        due_seqs(pending, now, from + 1)
    }
}

/// The packets to be sent once more, in the order of their numbers.
pub open spec fn due_packets(pending: Map<u32, PendingModel>, now: u64) -> Seq<Seq<u8>> {
    due_seqs(pending, now, 0).map_values(|s: u32| pending[s].packet)
}

/// A pending packet after what is due has been sent at `now`.
pub open spec fn resent(p: PendingModel, now: u64) -> PendingModel {
    if is_due(p, now) {
        PendingModel { last_sent: now, ..p }
    } else {
        p
    }
}

/// The pending packets after what is due has been sent at `now`.
pub open spec fn still_pending(pending: Map<u32, PendingModel>, now: u64) -> Map<
    u32,
    PendingModel,
> {
    Map::new(
        |s: u32| pending.contains_key(s) && !given_up(pending[s], now),
        |s: u32| resent(pending[s], now),
    )
}

/// The contents of a sequence of packets.
pub open spec fn packets_view(packets: Seq<Vec<u8>>) -> Seq<Seq<u8>> {
    packets.map_values(|p: Vec<u8>| p@)
}

/// The sending side of the reliable channel: it keeps each packet until its acknowledgement comes
/// or it is given up.
#[derive(Debug)]
pub struct ReliableSender {
    pending: BTreeMap<u32, Pending>,
}

impl View for ReliableSender {
    type V = Map<u32, PendingModel>;

    closed spec fn view(&self) -> Map<u32, PendingModel> {
        self.pending@.map_values(|p: Pending| p@)
    }
}

impl Default for ReliableSender {
    fn default() -> (sender: Self)
        ensures
            sender@ == Map::<u32, PendingModel>::empty(),
    {
        let sender = ReliableSender { pending: BTreeMap::new() };
        assert(sender@ =~= Map::<u32, PendingModel>::empty());
        sender
    }
}

proof fn lemma_strictly_increasing(seqs: Seq<u32>)
    requires
        vstd::std_specs::btree::increasing_seq(seqs),
    ensures
        forall|i: int, j: int| 0 <= i < j < seqs.len() ==> seqs[i] < seqs[j],
{
    broadcast use vstd::laws_cmp::group_laws_cmp;

    assert(vstd::laws_cmp::obeys_cmp::<u32>());
    assert forall|i: int, j: int| 0 <= i < j < seqs.len() implies seqs[i] < seqs[j] by {
        assert(seqs[i].cmp_spec(&seqs[j]) is Less);
    }
}

/// Whether two maps have the same entry, or both none, at `s`.
spec fn same_at(a: Map<u32, PendingModel>, b: Map<u32, PendingModel>, s: u32) -> bool {
    &&& a.contains_key(s) == b.contains_key(s)
    &&& a.contains_key(s) ==> a[s] == b[s]
}

/// No number in a gap of `pending` is due.
proof fn lemma_due_skips_gap(pending: Map<u32, PendingModel>, now: u64, from: int, to: int)
    requires
        0 <= from <= to <= SEQ_COUNT,
        forall|s: u32| from <= s < to ==> !pending.contains_key(s),
    ensures
        due_seqs(pending, now, from) == due_seqs(pending, now, to),
    decreases to - from,
{
    if from < to {
        lemma_due_skips_gap(pending, now, from + 1, to);
    }
}

impl ReliableSender {
    pub fn new() -> (sender: Self)
        ensures
            sender@ == Map::<u32, PendingModel>::empty(),
    {
        Self::default()
    }

    /// Remember a packet that was sent at `now`.
    pub fn note_sent(&mut self, seq: u32, packet: Vec<u8>, now: u64)
        ensures
            final(self)@ == old(self)@.insert(
                seq,
                PendingModel { packet: packet@, first_sent: now, last_sent: now },
            ),
    {
        self.pending.insert(seq, Pending { packet, first_sent: now, last_sent: now });
    }

    /// Forget a packet whose acknowledgement came.
    pub fn on_ack(&mut self, seq: u32)
        ensures
            final(self)@ == old(self)@.remove(seq),
    {
        self.pending.remove(&seq);
    }

    /// The numbers of the pending packets, in increasing order.
    fn pending_seqs(&self) -> (seqs: Vec<u32>)
        ensures
            forall|i: int, j: int| 0 <= i < j < seqs@.len() ==> seqs@[i] < seqs@[j],
            forall|s: u32| seqs@.contains(s) <==> self@.contains_key(s),
    {
        let mut seqs: Vec<u32> = Vec::new();
        let entries = self.pending.iter();
        let ghost all = entries.remaining();
        for entry in it: entries
            invariant
                it.seq() == all,
                seqs@ == all.take(it.index()).map_values(|kv: (&u32, &Pending)| *kv.0),
        {
            proof {
                assert(all.take(it.index() + 1) =~= all.take(it.index()).push(all[it.index()]));
            }
            seqs.push(*entry.0);
        }
        proof {
            assert(all.take(seqs@.len() as int) =~= all);
            lemma_strictly_increasing(seqs@);
            assert forall|s: u32| seqs@.contains(s) <==> self@.contains_key(s) by {
                if seqs@.contains(s) {
                    let i = choose|i: int| 0 <= i < seqs@.len() && seqs@[i] == s;
                    assert(self.pending@.contains_key(*all[i].0));
                }
                if self@.contains_key(s) {
                    assert(self.pending@.contains_key(s));
                    assert(all.contains((&s, &self.pending@[s])));
                    let i = choose|i: int| 0 <= i < all.len() && all[i] == (&s, &self.pending@[s]);
                    assert(seqs@[i] == s);
                }
            }
        }
        seqs
    }

    /// Give up the packets that are too old, and return those of the others that are to be sent
    /// once more.
    pub fn due_retransmits(&mut self, now: u64) -> (due: Vec<Vec<u8>>)
        ensures
            packets_view(due@) == due_packets(old(self)@, now),
            final(self)@ == still_pending(old(self)@, now),
    {
        let ghost before = self@;
        let ghost packet_of = |s: u32| before[s].packet;
        let seqs = self.pending_seqs();
        let mut due: Vec<Vec<u8>> = Vec::new();
        let mut i: usize = 0;
        let ghost mut from: int = 0;
        proof {
            assert(packets_view(due@) =~= Seq::empty());
            assert(due_packets(before, now) =~= packets_view(due@) + due_packets(before, now));
        }
        while i < seqs.len()
            invariant
                i <= seqs.len(),
                0 <= from <= SEQ_COUNT,
                forall|j: int, k: int| 0 <= j < k < seqs@.len() ==> seqs@[j] < seqs@[k],
                forall|s: u32| seqs@.contains(s) <==> before.contains_key(s),
                forall|j: int| 0 <= j < i ==> seqs@[j] < from,
                forall|j: int| i <= j < seqs@.len() ==> from <= seqs@[j],
                forall|s: u32| from <= s ==> #[trigger] same_at(self@, before, s),
                forall|s: u32|
                    s < from ==> #[trigger] same_at(self@, still_pending(before, now), s),
                packet_of == (|s: u32| before[s].packet),
                due_packets(before, now) == packets_view(due@) + due_seqs(
                    before,
                    now,
                    from,
                ).map_values(packet_of),
            decreases seqs.len() - i,
        {
            let seq: u32 = seqs[i];
            let ghost held = self@;
            let ghost sent = packets_view(due@);
            proof {
                assert(seqs@.contains(seq));
                assert forall|s: u32| from <= s < seq implies !before.contains_key(s) by {
                    if before.contains_key(s) {
                        let j = choose|j: int| 0 <= j < seqs@.len() && seqs@[j] == s;
                        assert(seqs@[j] == s);
                    }
                }
                lemma_due_skips_gap(before, now, from, seq as int);
            }
            match self.pending.remove(&seq) {
                Some(entry) => {
                    proof {
                        assert(entry@ == held[seq]);
                    }
                    if now.saturating_sub(entry.first_sent) <= RETRANSMIT_GIVEUP {
                        if now.saturating_sub(entry.last_sent) >= RETRANSMIT_INTERVAL {
                            due.push(entry.packet.clone());
                            self.pending.insert(seq, Pending { last_sent: now, ..entry });
                        } else {
                            self.pending.insert(seq, entry);
                        }
                    }
                },
                None => {},
            }
            proof {
                assert(same_at(held, before, seq));
                if given_up(before[seq], now) {
                    assert(self@ =~= held.remove(seq));
                } else {
                    assert(self@ =~= held.insert(seq, resent(before[seq], now)));
                }
                assert forall|s: u32| seq + 1 <= s implies #[trigger] same_at(self@, before, s) by {
                    assert(same_at(held, before, s));
                }
                assert forall|s: u32| s < seq + 1 implies #[trigger] same_at(
                    self@,
                    still_pending(before, now),
                    s,
                ) by {
                    assert(s < from ==> same_at(held, still_pending(before, now), s));
                    assert(from <= s ==> same_at(held, before, s));
                }
                let rest = due_seqs(before, now, seq + 1);
                if is_due(before[seq], now) {
                    assert(packets_view(due@) =~= sent.push(before[seq].packet));
                    assert((seq![seq] + rest).map_values(packet_of) =~= seq![before[seq].packet]
                        + rest.map_values(packet_of));
                    assert(sent + (seq![before[seq].packet] + rest.map_values(packet_of))
                        =~= sent.push(before[seq].packet) + rest.map_values(packet_of));
                }
                from = seq + 1;
            }
            i += 1;
        }
        proof {
            assert forall|s: u32| from <= s implies !before.contains_key(s) by {
                if before.contains_key(s) {
                    let j = choose|j: int| 0 <= j < seqs@.len() && seqs@[j] == s;
                    assert(seqs@[j] == s);
                }
            }
            lemma_due_skips_gap(before, now, from, SEQ_COUNT as int);
            assert(due_packets(before, now) =~= packets_view(due@));
            assert forall|s: u32| #[trigger]
                self@.contains_key(s) == still_pending(before, now).contains_key(s) && (
                self@.contains_key(s) ==> self@[s] == still_pending(before, now)[s]) by {
                assert(from <= s ==> same_at(self@, before, s));
                assert(s < from ==> same_at(self@, still_pending(before, now), s));
            }
            assert(self@ =~= still_pending(before, now));
        }
        due
    }

    /// How many packets wait for their acknowledgement.
    pub fn pending_count(&self) -> (n: usize)
        ensures
            n == self@.len(),
    {
        proof {
            assert(self@.dom() =~= self.pending@.dom());
        }
        self.pending.len()
    }
}

/// The state of the receiving side of the reliable channel: the number that is delivered next, and
/// the frames that came before their turn.
pub struct ReceiverModel {
    pub next: u32,
    pub buffered: Map<u32, FrameModel>,
}

/// How many of the numbers `next + k`, `next + k + 1`, .. are buffered without a gap.
pub open spec fn run_length(buffered: Map<u32, FrameModel>, next: u32, k: int) -> nat
    decreases SEQ_COUNT - k,
{
    if k < SEQ_COUNT && buffered.contains_key(seq_of(next + k)) {
        1 + run_length(buffered, next, k + 1)
    } else {
        0
    }
}

/// The first `n` buffered frames from number `next` on.
pub open spec fn run_frames(buffered: Map<u32, FrameModel>, next: u32, n: nat) -> Seq<FrameModel> {
    Seq::new(n, |i: int| buffered[seq_of(next + i)])
}

/// What stays buffered when `n` frames from number `next` on are taken.
pub open spec fn without_run(buffered: Map<u32, FrameModel>, next: u32, n: nat) -> Map<
    u32,
    FrameModel,
> {
    Map::new(
        |s: u32| buffered.contains_key(s) && (s - next) % (SEQ_COUNT as int) >= n,
        |s: u32| buffered[s],
    )
}

/// The receiver after a frame came, and the frames it hands on. A frame is handed on when all
/// before it have been; a number that was handed on or is buffered already is ignored.
pub open spec fn receive(rx: ReceiverModel, seq: u32, frame: FrameModel) -> (
    ReceiverModel,
    Seq<FrameModel>,
) {
    if seq_before(seq, rx.next) {
        (rx, Seq::empty())
    } else if seq != rx.next {
        if rx.buffered.contains_key(seq) {
            (rx, Seq::empty())
        } else {
            (ReceiverModel { buffered: rx.buffered.insert(seq, frame), ..rx }, Seq::empty())
        }
    } else {
        let next = seq_of(seq + 1);
        let n = run_length(rx.buffered, next, 0);
        (
            ReceiverModel {
                next: seq_of(next + n),
                buffered: without_run(rx.buffered, next, n),
            },
            seq![frame] + run_frames(rx.buffered, next, n),
        )
    }
}

/// The receiving side of the reliable channel.
#[derive(Debug)]
pub struct ReliableReceiver {
    next_apply: u32,
    buffered: HashMap<u32, Frame>,
}

impl View for ReliableReceiver {
    type V = ReceiverModel;

    closed spec fn view(&self) -> ReceiverModel {
        ReceiverModel {
            next: self.next_apply,
            buffered: self.buffered@.map_values(|f: Frame| f@),
        }
    }
}

/// A receiver that nothing has reached.
pub open spec fn fresh_receiver() -> ReceiverModel {
    ReceiverModel { next: 0, buffered: Map::empty() }
}

impl Default for ReliableReceiver {
    fn default() -> (rx: Self)
        ensures
            rx@ == fresh_receiver(),
    {
        let rx = ReliableReceiver { next_apply: 0, buffered: HashMap::new() };
        assert(rx@.buffered =~= Map::empty());
        rx
    }
}

proof fn lemma_run_length(buffered: Map<u32, FrameModel>, next: u32, k: nat, j: int)
    requires
        0 <= j <= k <= SEQ_COUNT,
        forall|i: int| 0 <= i < k ==> buffered.contains_key(#[trigger] seq_of(next + i)),
        k == SEQ_COUNT || !buffered.contains_key(seq_of(next + k)),
    ensures
        run_length(buffered, next, j) == k - j,
    decreases k - j,
{
    if j < k {
        assert(buffered.contains_key(seq_of(next + j)));
        lemma_run_length(buffered, next, k, j + 1);
    }
}

impl ReliableReceiver {
    pub fn new() -> (rx: Self)
        ensures
            rx@ == fresh_receiver(),
    {
        Self::default()
    }

    /// Take in a frame, and return the frames that are handed on.
    pub fn on_receive(&mut self, seq: u32, frame: Frame) -> (ready: Vec<Frame>)
        ensures
            final(self)@ == receive(old(self)@, seq, frame@).0,
            frame_models(ready@) == receive(old(self)@, seq, frame@).1,
    {
        let mut ready: Vec<Frame> = Vec::new();
        proof {
            assert(frame_models(ready@) =~= Seq::empty());
        }
        if seq_lt(seq, self.next_apply) {
            return ready;
        }
        if seq != self.next_apply {
            let ghost before = self.buffered@;
            self.buffered.entry(seq).or_insert(frame);
            proof {
                if before.contains_key(seq) {
                    assert(self.buffered@ =~= before);
                } else {
                    assert(self.buffered@ =~= before.insert(seq, frame));
                    assert(self@.buffered =~= old(self)@.buffered.insert(seq, frame@));
                }
            }
            return ready;
        }
        reveal(seq_of);
        ready.push(frame);
        self.next_apply = self.next_apply.wrapping_add(1);
        let ghost before = self@.buffered;
        let ghost first = self.next_apply;
        let ghost mut taken: nat = 0;
        proof {
            assert(without_run(before, first, 0) =~= before);
            assert(frame_models(ready@) =~= seq![frame@] + run_frames(before, first, 0));
        }
        loop
            invariant
                taken <= SEQ_COUNT,
                self.next_apply == seq_of(first + taken),
                self@.buffered == without_run(before, first, taken),
                forall|i: int|
                    0 <= i < taken ==> before.contains_key(#[trigger] seq_of(first + i)),
                frame_models(ready@) == seq![frame@] + run_frames(before, first, taken),
            ensures
                taken == SEQ_COUNT || !before.contains_key(seq_of(first + taken)),
            decreases self.buffered@.dom().len(),
        {
            reveal(seq_of);
            let ghost held = self.buffered@;
            let ghost model = self@.buffered;
            let ghost sent = frame_models(ready@);
            match self.buffered.remove(&self.next_apply) {
                Some(f) => {
                    proof {
                        let s = self.next_apply;
                        assert(held.contains_key(s) && model[s] == held[s]@);
                        assert(without_run(before, first, taken).contains_key(s));
                        assert(taken < SEQ_COUNT);
                        assert(f@ == before[s]);
                    }
                    ready.push(f);
                    proof {
                        assert(frame_models(ready@) =~= sent.push(f@));
                        assert(frame_models(ready@) =~= seq![frame@] + run_frames(
                            before,
                            first,
                            taken + 1,
                        ));
                        assert(self@.buffered =~= model.remove(self.next_apply));
                        assert forall|s: u32| #[trigger]
                            before.contains_key(s) && (s - first) % (SEQ_COUNT as int)
                                == taken implies s == self.next_apply by {}
                        assert(self@.buffered =~= without_run(before, first, taken + 1));
                        taken = taken + 1;
                    }
                    self.next_apply = self.next_apply.wrapping_add(1);
                },
                None => {
                    proof {
                        let s = self.next_apply;
                        assert(!without_run(before, first, taken).contains_key(s));
                    }
                    break;
                },
            }
        }
        proof {
            lemma_run_length(before, first, taken, 0);
        }
        ready
    }
}

/// Whether the receiver takes `seq`, given the last number it took: only a newer one.
pub open spec fn accepts(last: Option<u32>, seq: u32) -> bool {
    match last {
        Some(last) => seq_before(last, seq),
        None => true,
    }
}

/// The receiving side of a channel on which a late packet is worth nothing: of the packets that
/// come, those older than one that came before are dropped.
#[derive(Debug)]
pub struct UnreliableReceiver {
    last_applied: Option<u32>,
}

impl View for UnreliableReceiver {
    type V = Option<u32>;

    closed spec fn view(&self) -> Option<u32> {
        self.last_applied
    }
}

impl Default for UnreliableReceiver {
    fn default() -> (rx: Self)
        ensures
            rx@ is None,
    {
        UnreliableReceiver { last_applied: None }
    }
}

impl UnreliableReceiver {
    pub fn new() -> (rx: Self)
        ensures
            rx@ is None,
    {
        Self::default()
    }

    /// Whether the packet with number `seq` is taken.
    pub fn accept(&mut self, seq: u32) -> (taken: bool)
        ensures
            taken == accepts(old(self)@, seq),
            final(self)@ == (if taken {
                Some(seq)
            } else {
                old(self)@
            }),
    {
        if let Some(last) = self.last_applied {
            if !seq_lt(last, seq) {
                return false;
            }
        }
        self.last_applied = Some(seq);
        true
    }
}

} // verus!

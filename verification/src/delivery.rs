//! What the channels promise of any sequence of arrivals.
use crate::frame::FrameModel;
use crate::reliable::{
    accepts, due_packets, due_seqs, elapsed, fresh_receiver, given_up, is_due, receive, run_frames, run_length,
    seq_before, seq_of, still_pending, without_run, PendingModel, ReceiverModel,
    RETRANSMIT_INTERVAL, SEQ_COUNT,
};
use vstd::prelude::*;

verus! {

/// Half of all sequence numbers: how far apart two packets may be for their order to be known.
pub open spec fn window() -> int {
    (SEQ_COUNT / 2) as int
}

/// The state of a receiver that got exactly the frames of `sent` whose indices are in `arrived`:
/// `done` of them are handed on, the `done`-th is missing, and the later ones are buffered.
pub open spec fn tracks(
    rx: ReceiverModel,
    sent: Seq<FrameModel>,
    arrived: Set<int>,
    done: int,
) -> bool {
    &&& 0 <= done <= sent.len()
    &&& rx.next == seq_of(done)
    &&& !arrived.contains(done)
    &&& forall|i: int| 0 <= i < done ==> arrived.contains(i)
    &&& forall|i: int| #[trigger]
        arrived.contains(i) ==> 0 <= i < sent.len() && i < done + window()
    &&& forall|i: int|
        done < i && #[trigger] arrived.contains(i) ==> rx.buffered.contains_key(seq_of(i))
            && rx.buffered[seq_of(i)] == sent[i]
    &&& forall|s: u32| #[trigger]
        rx.buffered.contains_key(s) ==> arrived.contains(index_near(done, s)) && done < index_near(
            done,
            s,
        )
}

/// The index from `done` on that has number `s`.
#[verifier::opaque]
pub open spec fn index_near(done: int, s: u32) -> int {
    done + (s - done) % (SEQ_COUNT as int)
}

proof fn lemma_index_near(done: int, i: int)
    requires
        0 <= done <= i < done + SEQ_COUNT,
    ensures
        index_near(done, seq_of(i)) == i,
{
    reveal(index_near);
    reveal(seq_of);
}

proof fn lemma_seq_of_near(done: int, s: u32)
    requires
        0 <= done,
    ensures
        seq_of(index_near(done, s)) == s,
        done <= index_near(done, s) < done + SEQ_COUNT,
{
    reveal(index_near);
    reveal(seq_of);
}

proof fn lemma_seq_of_sum(i: int, k: int)
    ensures
        seq_of(seq_of(i) + k) == seq_of(i + k),
{
    reveal(seq_of);
}

/// A receiver that nothing has reached tracks the empty set of arrivals.
pub proof fn law_fresh_receiver_tracks_nothing(sent: Seq<FrameModel>)
    ensures
        tracks(fresh_receiver(), sent, Set::empty(), 0),
{
    reveal(seq_of);
}

proof fn lemma_run_is_arrived_prefix(
    rx: ReceiverModel,
    sent: Seq<FrameModel>,
    arrived: Set<int>,
    done: int,
    k: int,
)
    requires
        tracks(rx, sent, arrived, done),
        0 <= k < window(),
    ensures
        ({
            let n = run_length(rx.buffered, seq_of(done + 1), k);
            &&& done + 1 + k + n <= sent.len() || n == 0
            &&& k + n < window()
            &&& forall|i: int|
                done + 1 + k <= i < done + 1 + k + n ==> #[trigger] arrived.contains(i)
            &&& !arrived.contains(done + 1 + k + n)
        }),
    decreases window() - k,
{
    let i = done + 1 + k;
    let n = run_length(rx.buffered, seq_of(done + 1), k);
    lemma_seq_of_sum(done + 1, k);
    lemma_index_near(done, i);
    if rx.buffered.contains_key(seq_of(i)) {
        assert(arrived.contains(i));
        assert(k + 1 < window());
        lemma_run_is_arrived_prefix(rx, sent, arrived, done, k + 1);
        assert(n == 1 + run_length(rx.buffered, seq_of(done + 1), k + 1));
        assert forall|j: int| i <= j < i + n implies #[trigger] arrived.contains(j) by {}
    } else {
        assert(!arrived.contains(i));
        assert(n == 0);
    }
}

/// The order of two numbers is that of their indices, for indices less than a window apart.
proof fn lemma_seq_order(i: int, j: int)
    requires
        -window() <= i - j < window(),
    ensures
        seq_before(seq_of(i), seq_of(j)) <==> i < j,
        seq_of(i) == seq_of(j) <==> i == j,
{
    reveal(seq_of);
}

proof fn lemma_seq_distance(i: int, j: int)
    requires
        0 <= i - j < SEQ_COUNT,
    ensures
        (seq_of(i) - seq_of(j)) % (SEQ_COUNT as int) == i - j,
{
    reveal(seq_of);
}

proof fn lemma_run_frames(
    rx: ReceiverModel,
    sent: Seq<FrameModel>,
    arrived: Set<int>,
    done: int,
)
    requires
        tracks(rx, sent, arrived, done),
        done < sent.len(),
    ensures
        ({
            let n = run_length(rx.buffered, seq_of(done + 1), 0);
            &&& done + 1 + n <= sent.len()
            &&& run_frames(rx.buffered, seq_of(done + 1), n) == sent.subrange(
                done + 1,
                done + 1 + n,
            )
        }),
{
    let next = seq_of(done + 1);
    let n = run_length(rx.buffered, next, 0);
    let run = run_frames(rx.buffered, next, n);
    lemma_run_is_arrived_prefix(rx, sent, arrived, done, 0);
    assert forall|j: int| 0 <= j < n implies run[j] == sent[done + 1 + j] by {
        lemma_seq_of_sum(done + 1, j);
        assert(arrived.contains(done + 1 + j));
    }
    assert(run =~= sent.subrange(done + 1, done + 1 + n));
}

proof fn lemma_rest_holds_arrived(
    rx: ReceiverModel,
    sent: Seq<FrameModel>,
    arrived: Set<int>,
    done: int,
    n: nat,
    i: int,
)
    requires
        tracks(rx, sent, arrived, done),
        done + 1 + n < i,
        arrived.contains(i),
    ensures
        without_run(rx.buffered, seq_of(done + 1), n).contains_key(seq_of(i)),
        without_run(rx.buffered, seq_of(done + 1), n)[seq_of(i)] == sent[i],
{
    lemma_seq_distance(i, done + 1);
}

proof fn lemma_rest_has_arrived(
    rx: ReceiverModel,
    sent: Seq<FrameModel>,
    arrived: Set<int>,
    done: int,
    n: nat,
    s: u32,
)
    requires
        tracks(rx, sent, arrived, done),
        n < window(),
        !arrived.contains(done + 1 + n),
        without_run(rx.buffered, seq_of(done + 1), n).contains_key(s),
    ensures
        arrived.contains(index_near(done + 1 + n, s)),
        done + 1 + n < index_near(done + 1 + n, s),
{
    let j = index_near(done, s);
    assert(rx.buffered.contains_key(s));
    lemma_seq_of_near(done, s);
    lemma_seq_distance(j, done + 1);
    lemma_index_near(done + 1 + n, j);
}

/// The frame that was missing comes: it and the buffered ones right behind it are handed on.
proof fn lemma_receive_missing(
    rx: ReceiverModel,
    sent: Seq<FrameModel>,
    arrived: Set<int>,
    done: int,
) -> (done2: int)
    requires
        tracks(rx, sent, arrived, done),
        done < sent.len(),
    ensures
        done < done2,
        tracks(
            receive(rx, seq_of(done), sent[done]).0,
            sent,
            arrived.insert(done),
            done2,
        ),
        receive(rx, seq_of(done), sent[done]).1 == sent.subrange(done, done2),
{
    let next = seq_of(done + 1);
    let n = run_length(rx.buffered, next, 0);
    let done2 = done + 1 + n;
    let rest = without_run(rx.buffered, next, n);
    lemma_seq_order(done, done);
    lemma_seq_of_sum(done, 1);
    lemma_seq_of_sum(done + 1, n as int);
    lemma_run_is_arrived_prefix(rx, sent, arrived, done, 0);
    lemma_run_frames(rx, sent, arrived, done);
    assert(seq![sent[done]] + sent.subrange(done + 1, done2) =~= sent.subrange(done, done2));
    assert forall|i: int| done2 < i && #[trigger] arrived.insert(done).contains(i) implies {
        &&& rest.contains_key(seq_of(i))
        &&& rest[seq_of(i)] == sent[i]
    } by {
        lemma_rest_holds_arrived(rx, sent, arrived, done, n, i);
    }
    assert forall|s: u32| #[trigger] rest.contains_key(s) implies {
        &&& arrived.insert(done).contains(index_near(done2, s))
        &&& done2 < index_near(done2, s)
    } by {
        lemma_rest_has_arrived(rx, sent, arrived, done, n, s);
    }
    let rx2 = receive(rx, seq_of(done), sent[done]).0;
    assert(rx2.buffered == rest);
    assert(rx2.next == seq_of(done2));
    done2
}

/// A frame comes before its turn: nothing is handed on.
proof fn lemma_receive_early(
    rx: ReceiverModel,
    sent: Seq<FrameModel>,
    arrived: Set<int>,
    done: int,
    i: int,
)
    requires
        tracks(rx, sent, arrived, done),
        done < i < done + window(),
        i < sent.len(),
    ensures
        tracks(receive(rx, seq_of(i), sent[i]).0, sent, arrived.insert(i), done),
        receive(rx, seq_of(i), sent[i]).1 == Seq::<FrameModel>::empty(),
{
    let rx2 = receive(rx, seq_of(i), sent[i]).0;
    lemma_seq_order(i, done);
    lemma_index_near(done, i);
    if rx.buffered.contains_key(seq_of(i)) {
        assert(arrived.contains(i));
        assert(arrived.insert(i) =~= arrived);
    } else {
        assert(!arrived.contains(i));
        assert forall|j: int| done < j && #[trigger] arrived.insert(i).contains(j) implies {
            &&& rx2.buffered.contains_key(seq_of(j))
            &&& rx2.buffered[seq_of(j)] == sent[j]
        } by {
            if j != i {
                assert(arrived.contains(j));
                lemma_seq_order(i, j);
            }
        }
        assert forall|s: u32| #[trigger] rx2.buffered.contains_key(s) implies {
            &&& arrived.insert(i).contains(index_near(done, s))
            &&& done < index_near(done, s)
        } by {
            if s != seq_of(i) {
                assert(rx.buffered.contains_key(s));
            }
        }
    }
}

/// The reliable channel hands frames on in the order in which they were sent, each once, and as
/// soon as all before it have come: whatever packet comes next, the frames from the first one not
/// handed on up to the first one that has not come are handed on.
pub proof fn law_receive_in_order(
    rx: ReceiverModel,
    sent: Seq<FrameModel>,
    arrived: Set<int>,
    done: int,
    i: int,
) -> (done2: int)
    requires
        tracks(rx, sent, arrived, done),
        0 <= i < sent.len(),
        -window() <= i - done < window(),
    ensures
        done <= done2,
        tracks(receive(rx, seq_of(i), sent[i]).0, sent, arrived.insert(i), done2),
        receive(rx, seq_of(i), sent[i]).1 == sent.subrange(done, done2),
{
    if i < done {
        lemma_seq_order(i, done);
        assert(arrived.insert(i) =~= arrived);
        assert(sent.subrange(done, done) =~= Seq::<FrameModel>::empty());
        done
    } else if i == done {
        lemma_receive_missing(rx, sent, arrived, done)
    } else {
        lemma_receive_early(rx, sent, arrived, done, i);
        assert(sent.subrange(done, done) =~= Seq::<FrameModel>::empty());
        done
    }
}

/// The receiver, and all that it handed on, after the packets with the given indices came in turn.
pub open spec fn receive_all(sent: Seq<FrameModel>, arrivals: Seq<int>) -> (
    ReceiverModel,
    Seq<FrameModel>,
)
    decreases arrivals.len(),
{
    if arrivals.len() == 0 {
        (fresh_receiver(), Seq::empty())
    } else {
        let (rx, out) = receive_all(sent, arrivals.drop_last());
        let i = arrivals.last();
        let (rx2, ready) = receive(rx, seq_of(i), sent[i]);
        (rx2, out + ready)
    }
}

/// Whether each packet came while its index was less than a window away from the number of frames
/// handed on, so that its number tells its index.
pub open spec fn in_window(sent: Seq<FrameModel>, arrivals: Seq<int>) -> bool
    decreases arrivals.len(),
{
    arrivals.len() == 0 || {
        let handed_on = receive_all(sent, arrivals.drop_last()).1.len();
        &&& in_window(sent, arrivals.drop_last())
        &&& 0 <= arrivals.last() < sent.len()
        &&& -window() <= arrivals.last() - handed_on < window()
    }
}

/// Whatever packets come, in whatever order and however often, what the reliable channel has
/// handed on is the longest beginning of what was sent of which every packet has come.
pub proof fn law_exactly_once_in_order(sent: Seq<FrameModel>, arrivals: Seq<int>)
    requires
        in_window(sent, arrivals),
    ensures
        ({
            let (rx, out) = receive_all(sent, arrivals);
            &&& out.len() <= sent.len()
            &&& out == sent.take(out.len() as int)
            &&& forall|i: int| 0 <= i < out.len() ==> arrivals.contains(i)
            &&& !arrivals.contains(out.len() as int)
            &&& tracks(rx, sent, arrivals.to_set(), out.len() as int)
        }),
    decreases arrivals.len(),
{
    let (rx, out) = receive_all(sent, arrivals);
    if arrivals.len() == 0 {
        law_fresh_receiver_tracks_nothing(sent);
        assert(arrivals.to_set() =~= Set::empty());
        assert(out =~= sent.take(0));
    } else {
        let earlier = arrivals.drop_last();
        let i = arrivals.last();
        let (rx1, out1) = receive_all(sent, earlier);
        law_exactly_once_in_order(sent, earlier);
        let done = out1.len() as int;
        let done2 = law_receive_in_order(rx1, sent, earlier.to_set(), done, i);
        assert(arrivals =~= earlier.push(i));
        assert forall|j: int|
            arrivals.to_set().contains(j) <==> earlier.to_set().insert(i).contains(j) by {
            if earlier.contains(j) {
                let k = choose|k: int| 0 <= k < earlier.len() && earlier[k] == j;
                assert(arrivals[k] == j);
            }
            if j == i {
                assert(arrivals[arrivals.len() - 1] == i);
            }
            if arrivals.contains(j) && j != i {
                let k = choose|k: int| 0 <= k < arrivals.len() && arrivals[k] == j;
                assert(earlier[k] == j);
            }
        }
        assert(arrivals.to_set() =~= earlier.to_set().insert(i));
        assert(out =~= sent.take(done2));
        assert(out.len() == done2);
        assert forall|j: int| 0 <= j < out.len() implies arrivals.contains(j) by {
            assert(arrivals.to_set().contains(j));
        }
        assert(!arrivals.to_set().contains(done2));
    }
}

/// When every packet has come at least once, everything that was sent has been handed on.
pub proof fn law_all_arrived_all_delivered(sent: Seq<FrameModel>, arrivals: Seq<int>)
    requires
        in_window(sent, arrivals),
        forall|i: int| 0 <= i < sent.len() ==> arrivals.contains(i),
    ensures
        receive_all(sent, arrivals).1 == sent,
{
    law_exactly_once_in_order(sent, arrivals);
    let out = receive_all(sent, arrivals).1;
    assert(out.len() == sent.len());
    assert(sent.take(sent.len() as int) =~= sent);
}

proof fn lemma_advanced_past(seq: u32, n: nat)
    requires
        n < window() - 1,
    ensures
        seq_before(seq, seq_of(seq_of(seq + 1) + n)),
{
    reveal(seq_of);
}

/// A frame that comes a second time is not handed on again, provided that fewer frames than half
/// of all numbers were waiting for it.
pub proof fn law_repeated_frame_dropped(rx: ReceiverModel, seq: u32, frame: FrameModel)
    requires
        run_length(rx.buffered, seq_of(rx.next + 1), 0) < window() - 1,
    ensures
        receive(receive(rx, seq, frame).0, seq, frame).1 == Seq::<FrameModel>::empty(),
{
    if seq == rx.next {
        lemma_advanced_past(seq, run_length(rx.buffered, seq_of(rx.next + 1), 0));
        assert(!seq_before(seq, seq));
    }
}

/// On a channel for which only the newest packet counts, a packet is taken just where it was sent
/// after the last one that was taken.
pub proof fn law_only_newer_accepted(last: int, i: int)
    requires
        -window() < i - last <= window(),
    ensures
        accepts(Some(seq_of(last)), seq_of(i)) <==> last < i,
{
    lemma_seq_order(last, i);
}

/// The sequence numbers of two packets of one channel differ if fewer than all numbers lie between
/// them.
pub proof fn law_seqs_distinct(i: int, j: int)
    requires
        i != j,
        -SEQ_COUNT < i - j < SEQ_COUNT,
    ensures
        seq_of(i) != seq_of(j),
{
    reveal(seq_of);
}

/// What is sent once more is exactly what is due, in the order of the numbers.
pub proof fn law_resends_exactly_what_is_due(pending: Map<u32, PendingModel>, now: u64)
    ensures
        forall|s: u32|
            due_seqs(pending, now, 0).contains(s) <==> pending.contains_key(s) && is_due(
                pending[s],
                now,
            ),
        forall|i: int, j: int|
            0 <= i < j < due_seqs(pending, now, 0).len() ==> due_seqs(pending, now, 0)[i]
                < due_seqs(pending, now, 0)[j],
{
    lemma_due_seqs(pending, now, 0);
}

proof fn lemma_due_seqs(pending: Map<u32, PendingModel>, now: u64, from: int)
    requires
        0 <= from <= SEQ_COUNT,
    ensures
        forall|s: u32| #[trigger]
            due_seqs(pending, now, from).contains(s) <==> from <= s && pending.contains_key(s)
                && is_due(pending[s], now),
        forall|i: int, j: int|
            0 <= i < j < due_seqs(pending, now, from).len() ==> due_seqs(pending, now, from)[i]
                < due_seqs(pending, now, from)[j],
    decreases SEQ_COUNT - from,
{
    let all = due_seqs(pending, now, from);
    if from < SEQ_COUNT {
        let rest = due_seqs(pending, now, from + 1);
        lemma_due_seqs(pending, now, from + 1);
        let here = from as u32;
        if pending.contains_key(here) && is_due(pending[here], now) {
            assert(all == seq![here] + rest);
            assert forall|s: u32| #[trigger] all.contains(s) <==> from <= s && pending.contains_key(
                s,
            ) && is_due(pending[s], now) by {
                if all.contains(s) {
                    let k = choose|k: int| 0 <= k < all.len() && all[k] == s;
                    if k > 0 {
                        assert(rest[k - 1] == s);
                        assert(rest.contains(s));
                    }
                }
                if from + 1 <= s && pending.contains_key(s) && is_due(pending[s], now) {
                    assert(rest.contains(s));
                    let k = choose|k: int| 0 <= k < rest.len() && rest[k] == s;
                    assert(all[k + 1] == s);
                }
                if s == here {
                    assert(all[0] == s);
                }
            }
            assert forall|i: int, j: int| 0 <= i < j < all.len() implies all[i] < all[j] by {
                assert(all[j] == rest[j - 1]);
                assert(rest.contains(rest[j - 1]));
                if i > 0 {
                    assert(all[i] == rest[i - 1]);
                }
            }
        }
    }
}

/// A packet whose acknowledgement came is never sent again, and no other packet is affected.
pub proof fn law_acked_not_resent(pending: Map<u32, PendingModel>, now: u64, acked: u32)
    ensures
        !due_seqs(pending.remove(acked), now, 0).contains(acked),
        forall|s: u32|
            s != acked ==> (due_seqs(pending.remove(acked), now, 0).contains(s) <==> due_seqs(
                pending,
                now,
                0,
            ).contains(s)),
{
    lemma_due_seqs(pending, now, 0);
    lemma_due_seqs(pending.remove(acked), now, 0);
}

/// What was sent once more is not due again before the interval has passed, and a packet leaves
/// the pending ones only by its acknowledgement or by being given up.
pub proof fn law_resent_then_quiet(
    pending: Map<u32, PendingModel>,
    now: u64,
    later: u64,
    s: u32,
)
    requires
        pending.contains_key(s),
    ensures
        still_pending(pending, now).contains_key(s) <==> !given_up(pending[s], now),
        is_due(pending[s], now) && elapsed(later, now) < RETRANSMIT_INTERVAL ==> !is_due(
            still_pending(pending, now)[s],
            later,
        ),
{
}

/// The packets of a channel are numbered 0, 1, 2, .. up to 4294967295, and from zero again.
pub proof fn law_numbers_count_up(i: int)
    requires
        0 <= i,
    ensures
        i <= 0xffff_ffff ==> seq_of(i) == i,
        seq_of(i + 0x1_0000_0000) == seq_of(i),
{
    reveal(seq_of);
}

/// A number is older than those that come up to 2147483648 steps behind it, counting on from zero
/// behind the largest number, and older than no other.
pub proof fn law_older_by_less_than_half(a: u32, b: u32)
    ensures
        seq_before(a, b) <==> {
            let steps = if b >= a {
                b - a
            } else {
                b - a + 0x1_0000_0000
            };
            1 <= steps <= 0x8000_0000
        },
{
}

/// The time that passed and the time at which it began give the time now; a clock that went back
/// counts as one that stood still.
pub proof fn law_time_passes(now: u64, then: u64)
    ensures
        then <= now ==> then + elapsed(now, then) == now,
        now <= then ==> elapsed(now, then) == 0,
{
}

/// A packet is sent once more from 5 ms after it was last sent on, and is given up when more than
/// 200 ms have passed since it was first sent. Sending it again changes neither the packet nor the
/// time at which it was first sent.
pub proof fn law_resend_times(pending: Map<u32, PendingModel>, now: u64, s: u32)
    requires
        pending.contains_key(s),
        pending[s].first_sent <= pending[s].last_sent <= now,
    ensures
        ({
            let p = pending[s];
            let after = still_pending(pending, now);
            &&& after.contains_key(s) <==> now <= p.first_sent + 200_000_000
            &&& due_seqs(pending, now, 0).contains(s) <==> now <= p.first_sent + 200_000_000 && now
                >= p.last_sent + 5_000_000
            &&& after.contains_key(s) ==> after[s].packet == p.packet && after[s].first_sent
                == p.first_sent
            &&& after.contains_key(s) && due_seqs(pending, now, 0).contains(s) ==> after[s].last_sent
                == now
            &&& after.contains_key(s) && !due_seqs(pending, now, 0).contains(s)
                ==> after[s].last_sent == p.last_sent
        }),
{
    lemma_due_seqs(pending, now, 0);
}

/// No packet waits that did not wait before.
pub proof fn law_resending_adds_nothing(pending: Map<u32, PendingModel>, now: u64, s: u32)
    requires
        !pending.contains_key(s),
    ensures
        !still_pending(pending, now).contains_key(s),
        !due_seqs(pending, now, 0).contains(s),
{
    lemma_due_seqs(pending, now, 0);
}

/// The packets that are sent once more are those that wait under the numbers that are due.
pub proof fn law_resends_the_packets_themselves(pending: Map<u32, PendingModel>, now: u64, i: int)
    requires
        0 <= i < due_seqs(pending, now, 0).len(),
    ensures
        due_packets(pending, now).len() == due_seqs(pending, now, 0).len(),
        pending.contains_key(due_seqs(pending, now, 0)[i]),
        due_packets(pending, now)[i] == pending[due_seqs(pending, now, 0)[i]].packet,
{
    lemma_due_seqs(pending, now, 0);
    assert(due_seqs(pending, now, 0).contains(due_seqs(pending, now, 0)[i]));
}

/// A frame whose number is not next is never handed on at once, and one that waits already is not
/// replaced by a later one with its number.
pub proof fn law_first_frame_waits(rx: ReceiverModel, seq: u32, first: FrameModel, second: FrameModel)
    requires
        seq != rx.next,
    ensures
        receive(rx, seq, first).1 == Seq::<FrameModel>::empty(),
        receive(rx, seq, first).0.next == rx.next,
        receive(receive(rx, seq, first).0, seq, second).0 == receive(rx, seq, first).0,
        forall|s: u32|
            rx.buffered.contains_key(s) ==> #[trigger] receive(
                rx,
                seq,
                first,
            ).0.buffered.contains_key(s) && receive(rx, seq, first).0.buffered[s] == rx.buffered[s],
{
}

/// The frame whose turn it is is handed on at once, as the first of those that are.
pub proof fn law_awaited_frame_goes_first(rx: ReceiverModel, frame: FrameModel)
    ensures
        receive(rx, rx.next, frame).1.len() >= 1,
        receive(rx, rx.next, frame).1[0] == frame,
{
}

/// On a channel for which only the newest packet counts, the first packet is taken whatever its
/// number, and the same one is not taken twice.
pub proof fn law_first_packet_accepted(seq: u32)
    ensures
        accepts(None, seq),
        !accepts(Some(seq), seq),
        accepts(Some(seq), seq_of(seq + 1)),
        !accepts(Some(seq_of(seq + 1)), seq),
{
    reveal(seq_of);
}

} // verus!

//! Bringing messages into the order of their serial numbers.

use std::collections::BTreeMap;

use vstd::prelude::*;

use crate::message::{Message, MessageView};

verus! {

/// What a buffer holds: the next serial number to deliver, and the messages that came early,
/// by their serial numbers.
#[verifier::ext_equal]
pub struct BufferView {
    pub next_expected: nat,
    pub buffer: Map<u32, MessageView>,
}

/// The first number from `from` on under which no message waits.
pub open spec fn run_end(buffer: Map<u32, MessageView>, from: nat) -> nat
    decreases u32::MAX + 1 - from,
{
    if from <= u32::MAX && buffer.contains_key(from as u32) {
        run_end(buffer, from + 1)
    } else {
        from
    }
}

/// The waiting messages from the number `from` up to the first gap.
pub open spec fn run(buffer: Map<u32, MessageView>, from: nat) -> Seq<MessageView> {
    Seq::new((run_end(buffer, from) - from) as nat, |i: int| buffer[(from + i) as u32])
}

/// What the arrival of a message does to a buffer.
pub open spec fn after_arrival(state: BufferView, msg: MessageView) -> BufferView {
    match msg.serial_number {
        Some(seq) => if seq == state.next_expected {
            let end = run_end(state.buffer, state.next_expected + 1);
            BufferView {
                next_expected: end,
                buffer: state.buffer.remove_keys(Set::new(|k: u32| k < end)),
            }
        } else if seq > state.next_expected {
            BufferView { buffer: state.buffer.insert(seq, msg), ..state }
        } else {
            state
        },
        None => state,
    }
}

/// The messages that the arrival of a message makes ready, in order.
pub open spec fn made_ready(state: BufferView, msg: MessageView) -> Seq<MessageView> {
    if msg.serial_number is Some && msg.serial_number->0 == state.next_expected {
        seq![msg] + run(state.buffer, state.next_expected + 1)
    } else {
        Seq::empty()
    }
}

impl BufferView {
    /// Only messages that came early wait, each under its own serial number.
    pub open spec fn wf(self) -> bool {
        forall|k: u32| #[trigger]
            self.buffer.contains_key(k) ==> k > self.next_expected && self.buffer[k].serial_number
                == Some(k)
    }

    /// The buffer before any message came: serial numbers begin with one.
    pub open spec fn fresh() -> BufferView {
        BufferView { next_expected: 1, buffer: Map::empty() }
    }
}

/// The contents of a list of messages.
pub open spec fn message_views(list: Seq<Message>) -> Seq<MessageView> {
    list.map_values(|m: Message| m@)
}

/// Messages that wait for earlier ones.
pub struct MessageBuffer {
    next_expected: u32,
    buffer: BTreeMap<u32, Message>,
}

impl View for MessageBuffer {
    type V = BufferView;

    closed spec fn view(&self) -> BufferView {
        BufferView {
            next_expected: self.next_expected as nat,
            buffer: self.buffer@.map_values(|m: Message| m@),
        }
    }
}

/// The end of a run is its first gap.
proof fn run_end_is_first_gap(buffer: Map<u32, MessageView>, from: nat)
    requires
        from <= u32::MAX + 1,
    ensures
        from <= run_end(buffer, from) <= u32::MAX + 1,
        run_end(buffer, from) <= u32::MAX ==> !buffer.contains_key(run_end(buffer, from) as u32),
        forall|k: u32| from <= k < run_end(buffer, from) ==> #[trigger] buffer.contains_key(k),
    decreases u32::MAX + 1 - from,
{
    if from <= u32::MAX && buffer.contains_key(from as u32) {
        run_end_is_first_gap(buffer, from + 1);
    }
}

impl MessageBuffer {
    /// A buffer that expects the serial number one.
    pub fn new() -> (r: Self)
        ensures
            r@ == BufferView::fresh(),
            r@.wf(),
    {
        let r = MessageBuffer { next_expected: 1, buffer: BTreeMap::new() };
        assert(r@.buffer =~= BufferView::fresh().buffer);
        r
    }

    /// Whether a message can be taken in: it must not bring the delivery to the largest `u32`.
    pub fn accepts(&self, msg: &Message) -> (r: bool)
        requires
            self@.wf(),
        ensures
            r == (msg.serial_number is Some && msg.serial_number->0 == self@.next_expected ==> run_end(
                self@.buffer,
                self@.next_expected + 1,
            ) <= u32::MAX),
    {
        if let Some(seq) = msg.serial_number {
            if seq == self.next_expected {
                let mut end: u32 = seq;
                let ghost first = self@.next_expected + 1;
                while end < u32::MAX
                    invariant
                        first == self@.next_expected + 1,
                        first <= end + 1,
                        run_end(self@.buffer, first) == run_end(self@.buffer, (end + 1) as nat),
                    decreases u32::MAX - end,
                {
                    end += 1;
                    assert(self@.buffer.contains_key(end) <==> self.buffer@.contains_key(end));
                    if !self.buffer.contains_key(&end) {
                        return true;
                    }
                }
                return false;
            }
        }
        true
    }

    /// Takes a message in. One that is next comes back at once, followed by those that waited
    /// for it; one that is early waits, in place of another with its number; an old one, and
    /// one without a serial number, are dropped. The serial numbers end with the largest
    /// `u32`, which cannot be delivered.
    pub fn add_message(&mut self, msg: Message) -> (ready: Vec<Message>)
        requires
            old(self)@.wf(),
            msg.serial_number is Some && msg.serial_number->0 == old(self)@.next_expected
                ==> run_end(old(self)@.buffer, old(self)@.next_expected + 1) <= u32::MAX,
        ensures
            final(self)@.wf(),
            final(self)@ == after_arrival(old(self)@, msg@),
            message_views(ready@) == made_ready(old(self)@, msg@),
    {
        let mut ready: Vec<Message> = Vec::new();
        let ghost start = self@;
        let ghost view = msg@;
        if let Some(seq) = msg.serial_number {
            if seq == self.next_expected {
                let ghost first = start.next_expected + 1;
                let ghost end = run_end(start.buffer, first);
                proof {
                    run_end_is_first_gap(start.buffer, first);
                }
                ready.push(msg);
                self.next_expected += 1;
                let ghost waiting = self.buffer@;
                assert(message_views(ready@) =~= seq![view]);
                assert(self@.buffer =~= start.buffer.remove_keys(Set::new(|k: u32| k < first)));
                loop
                    invariant
                        start.wf(),
                        first == start.next_expected + 1,
                        end == run_end(start.buffer, first),
                        end <= u32::MAX,
                        first <= self.next_expected <= end,
                        !start.buffer.contains_key(end as u32),
                        forall|k: u32| first <= k < end ==> #[trigger] start.buffer.contains_key(k),
                        self@.buffer == start.buffer.remove_keys(
                            Set::new(|k: u32| k < self.next_expected),
                        ),
                        message_views(ready@) == seq![view] + run(start.buffer, first).take(
                            self.next_expected - first,
                        ),
                    ensures
                        self.next_expected == end,
                    decreases end - self.next_expected,
                {
                    let ghost here = self.next_expected;
                    let ghost before = self.buffer@;
                    let ghost done = message_views(ready@);
                    assert(self@.buffer.contains_key(here) <==> before.contains_key(here));
                    match self.buffer.remove(&self.next_expected) {
                        Some(next) => {
                            assert(start.buffer.contains_key(here));
                            assert(here < end);
                            assert(next@ == start.buffer[here]) by {
                                assert(before[here]@ == start.buffer.remove_keys(
                                    Set::new(|k: u32| k < here),
                                )[here]);
                            }
                            ready.push(next);
                            self.next_expected += 1;
                            proof {
                                let r = run(start.buffer, first);
                                let n = here - first;
                                assert(r[n] == start.buffer[here]);
                                assert(r.take(n + 1) =~= r.take(n).push(r[n]));
                                assert(message_views(ready@) =~= done.push(r[n]));
                                assert(message_views(ready@) =~= seq![view] + r.take(n + 1));
                                assert(self@.buffer =~= before.map_values(|m: Message| m@).remove(
                                    here,
                                ));
                                assert(self@.buffer =~= start.buffer.remove_keys(
                                    Set::new(|k: u32| k < self.next_expected),
                                ));
                            }
                        },
                        None => {
                            proof {
                                assert(self.buffer@ =~= before);
                                if here < end {
                                    assert(start.buffer.contains_key(here));
                                    assert(start.buffer.remove_keys(
                                        Set::new(|k: u32| k < here),
                                    ).contains_key(here));
                                }
                            }
                            break;
                        },
                    }
                }
                proof {
                    let r = run(start.buffer, first);
                    assert(r.take(end - first) =~= r);
                    assert(self@ =~= after_arrival(start, view));
                }
            } else if seq > self.next_expected {
                let ghost before = self.buffer@;
                self.buffer.insert(seq, msg);
                assert(self@.buffer =~= start.buffer.insert(seq, view));
            }
        }
        assert(message_views(ready@) =~= made_ready(start, view));
        ready
    }

    /// The serial number that is delivered next.
    pub fn next_expected(&self) -> (r: u32)
        ensures
            r == self@.next_expected,
    {
        self.next_expected
    }
}

/// What the arrival of several messages, one after the other, does to a buffer.
pub open spec fn after_arrivals(state: BufferView, msgs: Seq<MessageView>) -> BufferView
    decreases msgs.len(),
{
    if msgs.len() == 0 {
        state
    } else {
        after_arrival(after_arrivals(state, msgs.drop_last()), msgs.last())
    }
}

/// All messages that the arrival of several messages makes ready, in order.
pub open spec fn all_made_ready(state: BufferView, msgs: Seq<MessageView>) -> Seq<MessageView>
    decreases msgs.len(),
{
    if msgs.len() == 0 {
        Seq::empty()
    } else {
        all_made_ready(state, msgs.drop_last()) + made_ready(
            after_arrivals(state, msgs.drop_last()),
            msgs.last(),
        )
    }
}

/// A message with the serial number `n` is among `msgs`.
pub open spec fn arrived(msgs: Seq<MessageView>, n: nat) -> bool {
    exists|j: int|
        0 <= j < msgs.len() && #[trigger] msgs[j].serial_number is Some
            && msgs[j].serial_number->0 == n
}

/// What is made ready by one arrival has consecutive serial numbers, the first of which is the
/// one expected; the next expected number is the one after the last.
pub proof fn ready_is_consecutive(state: BufferView, msg: MessageView)
    requires
        state.wf(),
        state.next_expected <= u32::MAX,
    ensures
        after_arrival(state, msg).wf(),
        state.next_expected <= after_arrival(state, msg).next_expected <= u32::MAX + 1,
        made_ready(state, msg).len() == after_arrival(state, msg).next_expected
            - state.next_expected,
        forall|i: int|
            0 <= i < made_ready(state, msg).len() ==> (#[trigger] made_ready(
                state,
                msg,
            )[i]).serial_number == Some((state.next_expected + i) as u32),
{
    let ready = made_ready(state, msg);
    if msg.serial_number is Some && msg.serial_number->0 == state.next_expected {
        let first = state.next_expected + 1;
        run_end_is_first_gap(state.buffer, first);
        let end = run_end(state.buffer, first);
        let after = after_arrival(state, msg);
        assert forall|k: u32| #[trigger] after.buffer.contains_key(k) implies k
            > after.next_expected && after.buffer[k].serial_number == Some(k) by {
            assert(state.buffer.contains_key(k));
            assert(k >= end);
            if k == end {
                assert(!state.buffer.contains_key(end as u32));
            }
        }
        assert forall|i: int| 0 <= i < ready.len() implies (#[trigger] ready[i]).serial_number
            == Some((state.next_expected + i) as u32) by {
            if i > 0 {
                let k = (state.next_expected + i) as u32;
                assert(first <= k < end);
                assert(state.buffer.contains_key(k));
                assert(ready[i] == run(state.buffer, first)[i - 1]);
            }
        }
    }
}

/// Whatever messages arrive, and in whatever order: those that are delivered are numbered
/// one, two, three and so on without gap or repetition, each of them did arrive, and delivery
/// stops exactly before the first number that has not arrived.
pub proof fn delivery_is_in_order(msgs: Seq<MessageView>)
    ensures
        ({
            let state = after_arrivals(BufferView::fresh(), msgs);
            let out = all_made_ready(BufferView::fresh(), msgs);
            &&& state.wf()
            &&& 1 <= state.next_expected <= u32::MAX + 1
            &&& out.len() == state.next_expected - 1
            &&& forall|i: int|
                0 <= i < out.len() ==> (#[trigger] out[i]).serial_number == Some((i + 1) as u32)
                    && msgs.contains(out[i])
            &&& forall|n: nat| 1 <= n < state.next_expected ==> #[trigger] arrived(msgs, n)
            &&& !arrived(msgs, state.next_expected)
            &&& forall|k: u32|
                k > state.next_expected ==> (#[trigger] state.buffer.contains_key(k) <==> arrived(
                    msgs,
                    k as nat,
                ))
            &&& forall|k: u32| #[trigger]
                state.buffer.contains_key(k) ==> msgs.contains(state.buffer[k])
        }),
    decreases msgs.len(),
{
    let fresh = BufferView::fresh();
    if msgs.len() > 0 {
        let rest = msgs.drop_last();
        let msg = msgs.last();
        delivery_is_in_order(rest);
        let before = after_arrivals(fresh, rest);
        let after = after_arrivals(fresh, msgs);
        let done = all_made_ready(fresh, rest);
        let out = all_made_ready(fresh, msgs);
        assert forall|n: nat| #[trigger] arrived(msgs, n) <==> (arrived(rest, n) || (
        msg.serial_number is Some && msg.serial_number->0 == n)) by {
            if arrived(rest, n) {
                let j = choose|j: int|
                    0 <= j < rest.len() && #[trigger] rest[j].serial_number is Some
                        && rest[j].serial_number->0 == n;
                assert(msgs[j] == rest[j]);
            }
            if msg.serial_number is Some && msg.serial_number->0 == n {
                assert(msgs[msgs.len() - 1].serial_number is Some);
            }
            if arrived(msgs, n) {
                let j = choose|j: int|
                    0 <= j < msgs.len() && #[trigger] msgs[j].serial_number is Some
                        && msgs[j].serial_number->0 == n;
                if j < rest.len() {
                    assert(rest[j].serial_number is Some);
                }
            }
        }
        assert forall|m: MessageView| rest.contains(m) implies #[trigger] msgs.contains(m) by {
            let j = choose|j: int| 0 <= j < rest.len() && rest[j] == m;
            assert(msgs[j] == m);
        }
        assert(msgs.contains(msg)) by {
            assert(msgs[msgs.len() - 1] == msg);
        }
        if before.next_expected <= u32::MAX {
            ready_is_consecutive(before, msg);
            let ready = made_ready(before, msg);
            assert(out == done + ready);
            let first = before.next_expected + 1;
            run_end_is_first_gap(before.buffer, first);
            if msg.serial_number is Some && msg.serial_number->0 == before.next_expected {
                let end = run_end(before.buffer, first);
                assert(after.next_expected == end);
                assert forall|n: nat| 1 <= n < end implies #[trigger] arrived(msgs, n) by {
                    if n > before.next_expected {
                        assert(before.buffer.contains_key(n as u32));
                    }
                }
                assert(!arrived(msgs, end)) by {
                    if arrived(msgs, end) && end <= u32::MAX {
                        assert(arrived(rest, end));
                        assert(before.buffer.contains_key(end as u32));
                    }
                }
                assert forall|i: int| 0 <= i < ready.len() implies msgs.contains(
                    #[trigger] ready[i],
                ) by {
                    if i > 0 {
                        let k = (before.next_expected + i) as u32;
                        assert(before.buffer.contains_key(k));
                        assert(ready[i] == before.buffer[k]);
                    }
                }
            }
        } else {
            assert(made_ready(before, msg) =~= Seq::<MessageView>::empty());
            assert(out =~= done);
        }
        assert forall|i: int| 0 <= i < out.len() implies (#[trigger] out[i]).serial_number == Some(
            (i + 1) as u32,
        ) && msgs.contains(out[i]) by {
            if i < done.len() {
                assert(out[i] == done[i]);
            } else {
                assert(out[i] == made_ready(before, msg)[i - done.len()]);
            }
        }
    } else {
        assert(forall|n: nat| !arrived(msgs, n));
    }
}

/// A fresh buffer holds nothing and expects the number one.
pub proof fn fresh_expects_one(k: u32)
    ensures
        BufferView::fresh().next_expected == 1,
        !BufferView::fresh().buffer.contains_key(k),
{
}

/// A message without a number, or with a number that was delivered before, is dropped: nothing
/// is made ready, and the buffer stays as it was.
pub proof fn old_message_is_dropped(state: BufferView, msg: MessageView)
    requires
        msg.serial_number is None || msg.serial_number->0 < state.next_expected,
    ensures
        made_ready(state, msg).len() == 0,
        after_arrival(state, msg) == state,
{
}

/// A message that comes early makes nothing ready. It waits under its number, in place of one
/// that waited there; what waits under other numbers stays, and the same number is expected.
pub proof fn early_message_waits(state: BufferView, msg: MessageView, k: u32)
    requires
        msg.serial_number is Some,
        msg.serial_number->0 > state.next_expected,
    ensures
        ({
            let after = after_arrival(state, msg);
            let seq = msg.serial_number->0;
            &&& made_ready(state, msg).len() == 0
            &&& after.next_expected == state.next_expected
            &&& after.buffer.contains_key(k) <==> state.buffer.contains_key(k) || k == seq
            &&& after.buffer[seq] == msg
            &&& k != seq && state.buffer.contains_key(k) ==> after.buffer[k] == state.buffer[k]
        }),
{
}

/// The expected message comes out at once, followed by those that waited under the next
/// numbers, up to the first number under which none waits; that number is expected next. The
/// messages that came out wait no longer, and all others still do.
pub proof fn expected_message_releases_its_followers(
    state: BufferView,
    msg: MessageView,
    i: int,
    k: u32,
)
    requires
        state.wf(),
        state.next_expected <= u32::MAX,
        msg.serial_number is Some,
        msg.serial_number->0 == state.next_expected,
    ensures
        ({
            let ready = made_ready(state, msg);
            let after = after_arrival(state, msg);
            &&& ready.len() > 0
            &&& ready[0] == msg
            &&& 0 < i < ready.len() ==> {
                &&& state.buffer.contains_key((state.next_expected + i) as u32)
                &&& ready[i] == state.buffer[(state.next_expected + i) as u32]
            }
            &&& after.next_expected == state.next_expected + ready.len()
            &&& after.next_expected <= u32::MAX ==> !state.buffer.contains_key(
                after.next_expected as u32,
            )
            &&& after.buffer.contains_key(k) <==> state.buffer.contains_key(k) && k
                >= after.next_expected
            &&& after.buffer.contains_key(k) ==> after.buffer[k] == state.buffer[k]
        }),
{
    let first = state.next_expected + 1;
    run_end_is_first_gap(state.buffer, first);
    let end = run_end(state.buffer, first);
    let ready = made_ready(state, msg);
    if 0 < i < ready.len() {
        let n = (state.next_expected + i) as u32;
        assert(first <= n < end);
        assert(ready[i] == run(state.buffer, first)[i - 1]);
    }
}

/// A list of messages is seen with each message in its place.
pub proof fn messages_are_in_place(list: Seq<Message>, i: int)
    ensures
        message_views(list).len() == list.len(),
        0 <= i < list.len() ==> message_views(list)[i] == list[i]@,
{
}

} // verus!

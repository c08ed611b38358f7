//! The feed of frames that the gossip layer delivers.

use vstd::prelude::*;

use crate::board::{receive, received, received_line, Line, LineView, State, StateView};
use crate::cipher::Cipher;

verus! {

/// What the gossip layer hands over.
pub enum Delivery {
    /// A frame.
    Frame(Vec<u8>),
    /// Word that frames were dropped because the reader fell behind.
    Lagged,
    /// Word that the node has shut down.
    Closed,
}

/// What to do with it.
pub enum Reaction {
    /// Wait for the next delivery.
    Wait,
    /// Print the line, then wait for the next delivery.
    Show(Line),
    /// Stop reading.
    Stop,
}

/// The boards after a delivery: only a frame changes them.
pub open spec fn after_delivery(s: StateView, key: Seq<u8>, delivery: Delivery) -> StateView {
    match delivery {
        Delivery::Frame(frame) => received(s, key, frame@),
        _ => s,
    }
}

/// Whether a reaction is the right one: a line is shown where the frame puts
/// it on screen, and reading stops when the node has shut down.
pub open spec fn reacts(reaction: Reaction, s: StateView, key: Seq<u8>, delivery: Delivery) -> bool {
    match delivery {
        Delivery::Frame(frame) => match received_line(s, key, frame@) {
            Some(line) => reaction matches Reaction::Show(l) && l@ == line,
            None => reaction is Wait,
        },
        Delivery::Lagged => reaction is Wait,
        Delivery::Closed => reaction is Stop,
    }
}

/// Takes a delivery in.
pub fn incoming(state: &mut State, cipher: &Cipher, delivery: Delivery) -> (r: Reaction)
    requires
        old(state).wf(),
    ensures
        final(state).wf(),
        final(state)@ == after_delivery(old(state)@, cipher@, delivery),
        reacts(r, old(state)@, cipher@, delivery),
{
    match delivery {
        Delivery::Frame(frame) => match receive(state, cipher, frame.as_slice()) {
            Some(line) => Reaction::Show(line),
            None => Reaction::Wait,
        },
        Delivery::Lagged => Reaction::Wait,
        Delivery::Closed => Reaction::Stop,
    }
}

/// The line that a delivery puts on screen, if it does.
pub open spec fn delivery_line(s: StateView, key: Seq<u8>, delivery: Delivery) -> Option<LineView> {
    match delivery {
        Delivery::Frame(frame) => received_line(s, key, frame@),
        _ => None,
    }
}

/// A reaction shows the delivery's line, if there is one, and stops reading
/// where the node has shut down, and only there.
pub proof fn law_reaction(reaction: Reaction, s: StateView, key: Seq<u8>, delivery: Delivery)
    requires
        reacts(reaction, s, key, delivery),
    ensures
        reaction is Stop <==> delivery is Closed,
        reaction is Show <==> delivery_line(s, key, delivery) is Some,
        reaction matches Reaction::Show(line) ==> delivery_line(s, key, delivery) == Some(line@),
{
}

/// What reading a feed comes to.
#[verifier::ext_equal]
pub struct Reading {
    /// The boards when it stops.
    pub state: StateView,
    /// The lines that were shown, in order.
    pub lines: Seq<LineView>,
}

/// The lines of a reading with one more in front, if there is one.
pub open spec fn shown_first(line: Option<LineView>, rest: Reading) -> Reading {
    match line {
        Some(l) => Reading { state: rest.state, lines: seq![l] + rest.lines },
        None => rest,
    }
}

/// The reading of a feed: one delivery after another, until the node has shut
/// down or there are no more.
pub open spec fn reading(s: StateView, key: Seq<u8>, deliveries: Seq<Delivery>) -> Reading
    decreases deliveries.len(),
{
    if deliveries.len() == 0 || deliveries.first() is Closed {
        Reading { state: s, lines: Seq::empty() }
    } else {
        let delivery = deliveries.first();
        shown_first(
            delivery_line(s, key, delivery),
            reading(after_delivery(s, key, delivery), key, deliveries.drop_first()),
        )
    }
}

/// The frames that come in before the node has shut down.
pub open spec fn frames(deliveries: Seq<Delivery>) -> Seq<Seq<u8>>
    decreases deliveries.len(),
{
    if deliveries.len() == 0 {
        Seq::empty()
    } else {
        match deliveries.first() {
            Delivery::Frame(frame) => seq![frame@] + frames(deliveries.drop_first()),
            Delivery::Lagged => frames(deliveries.drop_first()),
            Delivery::Closed => Seq::empty(),
        }
    }
}

/// The boards after frames came in, one after another, and the lines that
/// they put on screen.
pub open spec fn all_received(s: StateView, key: Seq<u8>, frames: Seq<Seq<u8>>) -> Reading
    decreases frames.len(),
{
    if frames.len() == 0 {
        Reading { state: s, lines: Seq::empty() }
    } else {
        shown_first(
            received_line(s, key, frames.first()),
            all_received(received(s, key, frames.first()), key, frames.drop_first()),
        )
    }
}

/// Reading a feed files and shows what its frames hold, in their order;
/// falling behind does not stop it.
pub proof fn law_feed_is_its_frames(s: StateView, key: Seq<u8>, deliveries: Seq<Delivery>)
    ensures
        reading(s, key, deliveries) == all_received(s, key, frames(deliveries)),
    decreases deliveries.len(),
{
    if deliveries.len() > 0 && !(deliveries.first() is Closed) {
        let delivery = deliveries.first();
        let rest = deliveries.drop_first();
        law_feed_is_its_frames(after_delivery(s, key, delivery), key, rest);
        if let Delivery::Frame(frame) = delivery {
            assert(frames(deliveries).drop_first() =~= frames(rest));
        }
    }
}

/// When the node has shut down, reading is over: what would follow has no
/// effect.
pub proof fn law_closed_ends_feed(
    s: StateView,
    key: Seq<u8>,
    deliveries: Seq<Delivery>,
    more: Seq<Delivery>,
)
    ensures
        reading(s, key, deliveries + seq![Delivery::Closed] + more) == reading(s, key, deliveries),
        frames(deliveries + seq![Delivery::Closed] + more) == frames(deliveries),
    decreases deliveries.len(),
{
    let all = deliveries + seq![Delivery::Closed] + more;
    if deliveries.len() == 0 {
        assert(all.first() == Delivery::Closed);
    } else {
        let delivery = deliveries.first();
        assert(all.first() == delivery);
        assert(all.drop_first() =~= deliveries.drop_first() + seq![Delivery::Closed] + more);
        law_closed_ends_feed(
            after_delivery(s, key, delivery),
            key,
            deliveries.drop_first(),
            more,
        );
    }
}

/// A frame is taken in as it is; word of lost frames, or of the end, changes
/// nothing.
pub proof fn law_delivery(s: StateView, key: Seq<u8>, delivery: Delivery)
    ensures
        delivery matches Delivery::Frame(frame) ==> after_delivery(s, key, delivery) == received(
            s,
            key,
            frame@,
        ) && delivery_line(s, key, delivery) == received_line(s, key, frame@),
        !(delivery is Frame) ==> after_delivery(s, key, delivery) == s && delivery_line(
            s,
            key,
            delivery,
        ) is None,
{
}

/// Until the end every frame counts, each once and in turn.
pub proof fn law_frames_in_turn(deliveries: Seq<Delivery>, i: int)
    requires
        forall|k: int| 0 <= k < deliveries.len() ==> (#[trigger] deliveries[k]) is Frame,
        0 <= i < deliveries.len(),
    ensures
        frames(deliveries).len() == deliveries.len(),
        deliveries[i] matches Delivery::Frame(frame) ==> frames(deliveries)[i] == frame@,
    decreases deliveries.len(),
{
    let rest = deliveries.drop_first();
    assert(deliveries[0] is Frame);
    assert forall|k: int| 0 <= k < rest.len() implies (#[trigger] rest[k]) is Frame by {
        assert(rest[k] == deliveries[k + 1]);
    }
    if rest.len() > 0 {
        law_frames_in_turn(rest, if i > 0 { i - 1 } else { 0 });
    }
}

} // verus!

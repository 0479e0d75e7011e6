//! The event bus: the one ordered channel into which every producer —
//! the input/tick producer and the completion client — publishes, and from
//! which the control loop consumes events one at a time, in publish order.
//!
//! `EventQueue` is the bus's logical queue: publishing appends, consuming
//! takes the front. `lemma_no_event_loss` states that any interleaving of
//! two producers' event sequences is delivered whole: exactly all events of
//! both, each producer's relative order kept.
use vstd::prelude::*;

use crate::llm::Message;
use crate::llm::MessageView;

verus! {

/// What the control loop reads of one key press: the character key, the
/// control modifier, and whether this is a press (not a release/repeat).
#[derive(Debug, Clone, Copy, PartialEq, Eq, Structural)]
pub struct KeyInput {
    pub code: KeyCode,
    pub ctrl: bool,
    pub press: bool,
}

/// The key itself: a character key or anything else.
#[derive(Debug, Clone, Copy, PartialEq, Eq, Structural)]
pub enum KeyCode {
    Char(char),
    Other,
}

/// One raw terminal event, reduced to what the control loop reads.
#[derive(Debug, Clone, Copy, PartialEq, Eq, Structural)]
pub enum TermInput {
    Key(KeyInput),
    Other,
}

/// One event of the bus.
#[derive(Debug, Clone, PartialEq)]
pub enum Event {
    TermEvent(TermInput),
    LLMEventStart,
    LLMEventDelta(Message),
    LLMEventEnd,
    TickEvent,
    Notification(String),
}

/// Mathematical image of an `Event`.
pub enum EventView {
    TermEvent(TermInput),
    LLMEventStart,
    LLMEventDelta(MessageView),
    LLMEventEnd,
    TickEvent,
    Notification(Seq<char>),
}

impl View for Event {
    type V = EventView;

    open spec fn view(&self) -> EventView {
        match self {
            Event::TermEvent(t) => EventView::TermEvent(*t),
            Event::LLMEventStart => EventView::LLMEventStart,
            Event::LLMEventDelta(m) => EventView::LLMEventDelta(m@),
            Event::LLMEventEnd => EventView::LLMEventEnd,
            Event::TickEvent => EventView::TickEvent,
            Event::Notification(s) => EventView::Notification(s@),
        }
    }
}

/// The views of a sequence of events.
pub open spec fn view_events(s: Seq<Event>) -> Seq<EventView> {
    s.map_values(|e: Event| e@)
}

/// Views of a sequence commute with dropping its first element.
proof fn lemma_view_events_drop_first(s: Seq<Event>)
    requires
        s.len() > 0,
    ensures
        view_events(s.drop_first()) == view_events(s).drop_first(),
{
    assert(view_events(s.drop_first()) =~= view_events(s).drop_first());
}

/// The bus's logical queue: a single total order over all published
/// events. Publishing appends at the back and never blocks the producer;
/// consuming takes the front; nothing is reordered, coalesced or dropped.
pub struct EventQueue {
    items: Vec<Event>,
}

impl View for EventQueue {
    type V = Seq<EventView>;

    closed spec fn view(&self) -> Seq<EventView> {
        view_events(self.items@)
    }
}

impl EventQueue {
    /// An empty queue.
    pub fn new() -> (r: EventQueue)
        ensures
            r@ == Seq::<EventView>::empty(),
    {
        let r = EventQueue { items: Vec::new() };
        proof {
            assert(r@ =~= Seq::<EventView>::empty());
        }
        r
    }

    /// Publish one event: appended at the back, nothing else changes.
    pub fn send(&mut self, e: Event)
        ensures
            final(self)@ == old(self)@.push(e@),
    {
        let ghost before = self.items@;
        self.items.push(e);
        proof {
            assert(view_events(self.items@) =~= view_events(before).push(self.items@.last()@));
        }
    }

    /// Publish a batch of events, in order.
    pub fn send_all(&mut self, evs: Vec<Event>)
        ensures
            final(self)@ == old(self)@ + view_events(evs@),
    {
        let ghost evviews = view_events(evs@);
        let ghost start = self@;
        let mut i: usize = 0;
        let n = evs.len();
        let mut evs = evs;
        proof {
            assert(self@ + evviews.take(0) =~= self@);
        }
        while i < n
            invariant
                i <= n,
                evviews.len() == n,
                n == evs@.len() + i,
                view_events(evs@) == evviews.skip(i as int),
                self@ == start + evviews.take(i as int),
            decreases n - i,
        {
            let ghost pre = self@;
            let ghost evs_pre = evs@;
            let e = evs.remove(0);
            proof {
                assert(view_events(evs_pre)[0] == evs_pre[0]@);
                assert(e@ == evviews[i as int]);
                assert(evs@ =~= evs_pre.drop_first());
                lemma_view_events_drop_first(evs_pre);
                assert(evviews.skip(i as int).drop_first() =~= evviews.skip(i as int + 1));
                assert(view_events(evs@) == evviews.skip(i as int + 1));
            }
            self.send(e);
            proof {
                assert(pre.push(evviews[i as int]) =~= start + evviews.take(i as int + 1));
            }
            i = i + 1;
        }
        proof {
            assert(evviews.take(n as int) =~= evviews);
        }
    }

    /// Consume the event at the front, if any. `None` stands for the
    /// closed/empty channel: the consumer observes end-of-stream rather
    /// than a made-up event.
    pub fn next(&mut self) -> (r: Option<Event>)
        ensures
            old(self)@.len() == 0 ==> r is None && final(self)@ == old(self)@,
            old(self)@.len() > 0 ==> (match r {
                Some(e) => e@ == old(self)@[0] && final(self)@ == old(self)@.drop_first(),
                None => false,
            }),
    {
        if self.items.len() == 0 {
            return None;
        }
        let e = self.items.remove(0);
        proof {
            assert(view_events(self.items@) =~= view_events(old(self).items@).drop_first());
        }
        Some(e)
    }

    /// How many events wait in the queue.
    pub fn len(&self) -> (r: usize)
        ensures
            r == self@.len(),
    {
        self.items.len()
    }
}

/// Whether `all` is an interleaving of `xs` and `ys`: each step of `all`
/// takes the next yet-unconsumed event of one of the two, so both relative
/// orders are kept and nothing else appears.
pub open spec fn spec_interleaving(
    all: Seq<EventView>,
    xs: Seq<EventView>,
    ys: Seq<EventView>,
) -> bool
    decreases all.len(),
{
    if all.len() == 0 {
        xs.len() == 0 && ys.len() == 0
    } else {
        ||| (xs.len() > 0 && all[0] == xs[0] && spec_interleaving(
            all.drop_first(),
            xs.drop_first(),
            ys,
        ))
        ||| (ys.len() > 0 && all[0] == ys[0] && spec_interleaving(
            all.drop_first(),
            xs,
            ys.drop_first(),
        ))
    }
}

/// The input events of a published sequence, in publish order.
pub open spec fn spec_inputs_of(all: Seq<EventView>) -> Seq<EventView>
    decreases all.len(),
{
    if all.len() == 0 {
        Seq::empty()
    } else if all[0] is TermEvent {
        seq![all[0]] + spec_inputs_of(all.drop_first())
    } else {
        spec_inputs_of(all.drop_first())
    }
}

/// The tick events of a published sequence, in publish order.
pub open spec fn spec_ticks_of(all: Seq<EventView>) -> Seq<EventView>
    decreases all.len(),
{
    if all.len() == 0 {
        Seq::empty()
    } else if all[0] is TickEvent {
        seq![all[0]] + spec_ticks_of(all.drop_first())
    } else {
        spec_ticks_of(all.drop_first())
    }
}

/// No event loss: when the published sequence is an arbitrary
/// interleaving of a sequence of input events and a sequence of tick
/// events, the bus delivers exactly all of them — the count is the sum of
/// both counts, and reading off the input events, or the tick events, in
/// delivery order gives back exactly each producer's own sequence.
pub proof fn lemma_no_event_loss(all: Seq<EventView>, xs: Seq<EventView>, ys: Seq<EventView>)
    requires
        spec_interleaving(all, xs, ys),
        forall|i: int| 0 <= i < xs.len() ==> xs[i] is TermEvent,
        forall|i: int| 0 <= i < ys.len() ==> ys[i] is TickEvent,
    ensures
        all.len() == xs.len() + ys.len(),
        spec_inputs_of(all) == xs,
        spec_ticks_of(all) == ys,
    decreases all.len(),
{
    if all.len() == 0 {
        assert(spec_inputs_of(all) =~= xs);
        assert(spec_ticks_of(all) =~= ys);
    } else {
        if xs.len() > 0 && all[0] == xs[0] && spec_interleaving(
            all.drop_first(),
            xs.drop_first(),
            ys,
        ) {
            lemma_no_event_loss(all.drop_first(), xs.drop_first(), ys);
            assert(seq![xs[0]] + xs.drop_first() =~= xs);
            assert(spec_ticks_of(all) == ys);
        } else {
            lemma_no_event_loss(all.drop_first(), xs, ys.drop_first());
            assert(seq![ys[0]] + ys.drop_first() =~= ys);
            assert(spec_inputs_of(all) == xs);
        }
    }
}

} // verus!

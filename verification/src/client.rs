//! The completion client's verified core: one invocation is a session that
//! walks through the stages of a streamed request — publish `StreamStart`,
//! observe the response status, decode body chunks into delta events, and
//! close with exactly one `StreamEnd` — plus the lock model under which at
//! most one invocation uses the shared transport at a time.
//!
//! Each method returns the events to publish for that step, in order; the
//! session's ghost trace `emitted` accumulates them, and the framing law
//! holds of the whole trace when the session finishes.
use vstd::prelude::*;

use crate::bus::Event;
use crate::bus::EventView;
use crate::bus::view_events;
use crate::decoder::StreamCursor;
use crate::decoder::StreamItem;
use crate::decoder::StreamItemView;
use crate::decoder::spec_items_of;
use crate::decoder::spec_scan;
use crate::decoder::view_items;
use crate::json::FragmentBytes;
use crate::json::FragmentBytesView;
use crate::json::MAX_SCAN_LEN;
use crate::llm::Message;
use crate::llm::MessageView;
use vstd::utf8::decode_utf8;
use vstd::utf8::valid_utf8;

verus! {

/// Relies on `String::from_utf8`: it returns `Ok` exactly on valid UTF-8
/// and the returned string holds the characters those bytes encode.
#[verifier::external_body]
fn string_from_utf8(v: Vec<u8>) -> (r: Option<String>)
    ensures
        match r {
            Some(s) => valid_utf8(v@) && s@ == decode_utf8(v@),
            None => !valid_utf8(v@),
        },
{
    match String::from_utf8(v) {
        Ok(s) => Some(s),
        Err(_) => None,
    }
}

/// Optional text bytes as optional characters: absent stays absent, valid
/// UTF-8 decodes, anything else is refused.
pub open spec fn spec_text_of(b: Option<Seq<u8>>) -> Option<Option<Seq<char>>> {
    match b {
        None => Some(None),
        Some(bb) => if valid_utf8(bb) {
            Some(Some(decode_utf8(bb)))
        } else {
            None
        },
    }
}

/// The message a decoded fragment stands for: its role and content texts.
/// Refused when either part is not valid UTF-8.
pub open spec fn spec_msg_of(f: FragmentBytesView) -> Option<MessageView> {
    match (spec_text_of(f.role), spec_text_of(f.content)) {
        (Some(r), Some(c)) => Some(MessageView { role: r, content: c }),
        _ => None,
    }
}

/// Executable counterpart of `spec_text_of`.
fn text_of(b: Option<Vec<u8>>) -> (r: Option<Option<String>>)
    ensures
        match r {
            Some(o) => spec_text_of(crate::json::view_opt_bytes(b)) == Some(
                crate::llm::view_opt_string(o),
            ),
            None => spec_text_of(crate::json::view_opt_bytes(b)) is None,
        },
{
    match b {
        None => Some(None),
        Some(bb) => match string_from_utf8(bb) {
            Some(s) => Some(Some(s)),
            None => None,
        },
    }
}

/// Executable counterpart of `spec_msg_of`.
fn msg_of(f: FragmentBytes) -> (r: Option<Message>)
    ensures
        match r {
            Some(m) => spec_msg_of(f@) == Some(m@),
            None => spec_msg_of(f@) is None,
        },
{
    let FragmentBytes { role, content } = f;
    let ro = match text_of(role) {
        Some(o) => o,
        None => {
            return None;
        },
    };
    let co = match text_of(content) {
        Some(o) => o,
        None => {
            return None;
        },
    };
    Some(Message { role: ro, content: co })
}

/// The delta events that a sequence of decoded items turns into, given
/// whether the terminator was already seen: each fragment before the
/// terminator whose texts decode becomes one `LLMEventDelta`; the first
/// terminator becomes the one `LLMEventEnd`; everything after the
/// terminator is dropped. Also yields whether the terminator has been
/// seen afterwards.
pub open spec fn spec_events_of_items(items: Seq<StreamItemView>, done0: bool) -> (
    Seq<EventView>,
    bool,
)
    decreases items.len(),
{
    if items.len() == 0 {
        (Seq::empty(), done0)
    } else {
        match items[0] {
            StreamItemView::Fragment(f) => {
                let t = spec_events_of_items(items.drop_first(), done0);
                if done0 {
                    t
                } else {
                    match spec_msg_of(f) {
                        Some(m) => (seq![EventView::LLMEventDelta(m)] + t.0, t.1),
                        None => t,
                    }
                }
            },
            StreamItemView::Done => {
                if done0 {
                    spec_events_of_items(items.drop_first(), done0)
                } else {
                    let t = spec_events_of_items(items.drop_first(), true);
                    (seq![EventView::LLMEventEnd] + t.0, t.1)
                }
            },
        }
    }
}

/// Every event of the sequence is a delta.
pub open spec fn spec_all_deltas(t: Seq<EventView>) -> bool {
    forall|i: int| 0 <= i < t.len() ==> t[i] is LLMEventDelta
}

/// The per-invocation framing of the success path: exactly one
/// `StreamStart` first, then zero or more `StreamDelta`s, then exactly
/// one `StreamEnd` last, and nothing else in any order.
pub open spec fn spec_framed(t: Seq<EventView>) -> bool {
    &&& t.len() >= 2
    &&& t[0] is LLMEventStart
    &&& t[t.len() - 1] is LLMEventEnd
    &&& spec_all_deltas(t.subrange(1, t.len() - 1))
}

/// A framed trace has exactly one `StreamStart` and exactly one
/// `StreamEnd`: the first and the last event, and nowhere else.
pub proof fn lemma_framed_markers_unique(t: Seq<EventView>, i: int)
    requires
        spec_framed(t),
        0 <= i < t.len(),
    ensures
        t[i] is LLMEventStart <==> i == 0,
        t[i] is LLMEventEnd <==> i == t.len() - 1,
{
    if 0 < i < t.len() - 1 {
        assert(t[i] == t.subrange(1, t.len() - 1)[i - 1]);
    }
}

/// The framing of any finished invocation, the failure path included: one
/// `StreamStart` first, one `StreamEnd` last, and between them only
/// deltas and notices.
pub open spec fn spec_terminated(t: Seq<EventView>) -> bool {
    &&& t.len() >= 2
    &&& t[0] is LLMEventStart
    &&& t[t.len() - 1] is LLMEventEnd
    &&& forall|i: int|
        1 <= i < t.len() - 1 ==> (t[i] is LLMEventDelta || t[i] is Notification)
}

/// The stage an invocation is at.
#[derive(Debug, Clone, Copy, PartialEq, Eq, Structural)]
pub enum SessionPhase {
    /// Built, nothing published yet.
    Created,
    /// `StreamStart` published; the network call may now be made.
    Started,
    /// The remote answered with a success status; body chunks flow.
    Streaming,
    /// The one `StreamEnd` has been published; nothing more follows.
    Finished,
}

/// One completion-client invocation. The events each step hands back are
/// to be published to the bus in order; `emitted` is the whole trace so
/// far.
pub struct RequestSession {
    phase: SessionPhase,
    cursor: StreamCursor,
    done: bool,
    emitted: Ghost<Seq<EventView>>,
}

impl RequestSession {
    /// The stage the session is at.
    pub closed spec fn phase(&self) -> SessionPhase {
        self.phase
    }

    /// Everything published so far, in publish order.
    pub closed spec fn emitted(&self) -> Seq<EventView> {
        self.emitted@
    }

    /// Whether the terminator record has been seen.
    pub closed spec fn done(&self) -> bool {
        self.done
    }

    /// The bytes of the unterminated tail the decoder holds.
    pub closed spec fn cursor_tail(&self) -> Seq<u8> {
        self.cursor@
    }

    /// The session invariant: the emitted trace always has the shape the
    /// phase calls for, so the framing law is forced at the end.
    pub closed spec fn wf(&self) -> bool {
        match self.phase {
            SessionPhase::Created => self.emitted@ =~= Seq::<EventView>::empty() && !self.done,
            SessionPhase::Started => self.emitted@ =~= seq![EventView::LLMEventStart]
                && !self.done,
            SessionPhase::Streaming => {
                &&& self.cursor.wf()
                &&& self.emitted@.len() >= 1
                &&& self.emitted@[0] is LLMEventStart
                &&& if self.done {
                    &&& self.emitted@.len() >= 2
                    &&& self.emitted@[self.emitted@.len() - 1] is LLMEventEnd
                    &&& spec_all_deltas(self.emitted@.subrange(1, self.emitted@.len() - 1))
                } else {
                    spec_all_deltas(self.emitted@.skip(1))
                }
            },
            SessionPhase::Finished => spec_terminated(self.emitted@),
        }
    }

    /// A fresh invocation: nothing published, nothing buffered.
    pub fn new() -> (r: RequestSession)
        ensures
            r.wf(),
            r.phase() is Created,
            r.emitted() == Seq::<EventView>::empty(),
    {
        RequestSession {
            phase: SessionPhase::Created,
            cursor: StreamCursor::new(),
            done: false,
            emitted: Ghost(Seq::empty()),
        }
    }

    /// Open the invocation: the one `StreamStart`, published before the
    /// network call is made.
    pub fn begin(&mut self) -> (r: Vec<Event>)
        requires
            old(self).wf(),
            old(self).phase() is Created,
        ensures
            final(self).wf(),
            final(self).phase() is Started,
            view_events(r@) == seq![EventView::LLMEventStart],
            final(self).emitted() == old(self).emitted() + view_events(r@),
    {
        self.phase = SessionPhase::Started;
        let mut r: Vec<Event> = Vec::new();
        r.push(Event::LLMEventStart);
        proof {
            assert(view_events(r@) =~= seq![EventView::LLMEventStart]);
            self.emitted@ = self.emitted@ + view_events(r@);
            assert(self.emitted@ =~= seq![EventView::LLMEventStart]);
        }
        r
    }

    /// Observe the response status. A success status opens the stream; a
    /// failure closes the invocation at once with its one `StreamEnd` and
    /// no fragments at all.
    pub fn on_status(&mut self, ok: bool) -> (r: Vec<Event>)
        requires
            old(self).wf(),
            old(self).phase() is Started,
        ensures
            final(self).wf(),
            final(self).emitted() == old(self).emitted() + view_events(r@),
            ok ==> final(self).phase() is Streaming && !final(self).done() && view_events(r@)
                == Seq::<EventView>::empty() && final(self).cursor_tail()
                == Seq::<u8>::empty(),
            !ok ==> final(self).phase() is Finished && view_events(r@) == seq![
                EventView::LLMEventEnd,
            ] && spec_framed(final(self).emitted()),
    {
        if ok {
            self.phase = SessionPhase::Streaming;
            self.cursor = StreamCursor::new();
            let r: Vec<Event> = Vec::new();
            proof {
                assert(view_events(r@) =~= Seq::<EventView>::empty());
                self.emitted@ = self.emitted@ + view_events(r@);
                assert(self.emitted@ =~= seq![EventView::LLMEventStart]);
                assert(spec_all_deltas(self.emitted@.skip(1))) by {
                    assert(self.emitted@.skip(1) =~= Seq::<EventView>::empty());
                }
            }
            r
        } else {
            self.phase = SessionPhase::Finished;
            let mut r: Vec<Event> = Vec::new();
            r.push(Event::LLMEventEnd);
            proof {
                assert(view_events(r@) =~= seq![EventView::LLMEventEnd]);
                self.emitted@ = self.emitted@ + view_events(r@);
                assert(self.emitted@ =~= seq![
                    EventView::LLMEventStart,
                    EventView::LLMEventEnd,
                ]);
                assert(spec_all_deltas(self.emitted@.subrange(1, 1))) by {
                    assert(self.emitted@.subrange(1, 1) =~= Seq::<EventView>::empty());
                }
            }
            r
        }
    }

    /// How many bytes of an unterminated record line are buffered.
    pub fn buffered_len(&self) -> (r: usize)
        requires
            self.phase() is Streaming,
        ensures
            r == self.cursor_tail().len(),
    {
        self.cursor.buffered_len()
    }

    /// Decode one body chunk: every complete record line buffered so far
    /// plus this chunk yields its events, in decode order — a delta per
    /// fragment until the terminator, the one `StreamEnd` at the
    /// terminator, nothing after it.
    pub fn on_chunk(&mut self, chunk: Vec<u8>) -> (r: Vec<Event>)
        requires
            old(self).wf(),
            old(self).phase() is Streaming,
            old(self).cursor_tail().len() + chunk@.len() <= MAX_SCAN_LEN,
        ensures
            final(self).wf(),
            final(self).phase() is Streaming,
            final(self).emitted() == old(self).emitted() + view_events(r@),
            final(self).cursor_tail() == spec_scan(old(self).cursor_tail(), chunk@).1,
            ({
                let t = spec_events_of_items(
                    spec_items_of(spec_scan(old(self).cursor_tail(), chunk@).0),
                    old(self).done(),
                );
                view_events(r@) == t.0 && final(self).done() == t.1
            }),
    {
        let ghost epre = self.emitted@;
        let items = self.cursor.feed(chunk);
        let ghost cursor_after = self.cursor@;
        let ghost itemviews = view_items(items@);
        let ghost done0 = self.done;
        let ghost target = spec_events_of_items(itemviews, done0);
        let mut r: Vec<Event> = Vec::new();
        let mut items = items;
        let mut k: usize = 0;
        let n0 = items.len();
        let ghost total = itemviews.len();
        proof {
            assert(total == n0);
            assert(itemviews.skip(0) =~= itemviews);
            assert(view_events(r@) =~= Seq::<EventView>::empty());
            assert(Seq::<EventView>::empty() + spec_events_of_items(itemviews, done0).0
                =~= spec_events_of_items(itemviews, done0).0);
        }
        while items.len() > 0
            invariant
                k + items@.len() == total,
                total <= usize::MAX,
                itemviews.len() == total,
                view_items(items@) == itemviews.skip(k as int),
                target == spec_events_of_items(itemviews, done0),
                self.phase == SessionPhase::Streaming,
                self.emitted@ == epre,
                self.cursor@ == cursor_after,
                self.cursor.wf(),
                ({
                    let t = spec_events_of_items(itemviews.skip(k as int), self.done);
                    target.0 == view_events(r@) + t.0 && target.1 == t.1
                }),
            decreases items@.len(),
        {
            let ghost items_pre = items@;
            let it = items.remove(0);
            proof {
                assert(view_items(items_pre)[0] == items_pre[0]@);
                assert(it@ == itemviews[k as int]);
                assert(items@ =~= items_pre.drop_first());
                assert(view_items(items@) =~= view_items(items_pre).drop_first());
                assert(itemviews.skip(k as int).drop_first() =~= itemviews.skip(k as int + 1));
            }
            match it {
                StreamItem::Fragment(f) => {
                    if !self.done {
                        match msg_of(f) {
                            Some(m) => {
                                let ghost rpre = view_events(r@);
                                r.push(Event::LLMEventDelta(m));
                                proof {
                                    assert(view_events(r@) =~= rpre.push(
                                        EventView::LLMEventDelta(m@),
                                    ));
                                    assert(rpre + (seq![EventView::LLMEventDelta(m@)]
                                        + spec_events_of_items(
                                        itemviews.skip(k as int + 1),
                                        self.done,
                                    ).0) =~= view_events(r@) + spec_events_of_items(
                                        itemviews.skip(k as int + 1),
                                        self.done,
                                    ).0);
                                }
                            },
                            None => {
                            },
                        }
                    }
                },
                StreamItem::Done => {
                    if !self.done {
                        let ghost rpre = view_events(r@);
                        r.push(Event::LLMEventEnd);
                        self.done = true;
                        proof {
                            assert(view_events(r@) =~= rpre.push(EventView::LLMEventEnd));
                            assert(rpre + (seq![EventView::LLMEventEnd] + spec_events_of_items(
                                itemviews.skip(k as int + 1),
                                true,
                            ).0) =~= view_events(r@) + spec_events_of_items(
                                itemviews.skip(k as int + 1),
                                true,
                            ).0);
                        }
                    }
                },
            }
            k = k + 1;
        }
        proof {
            assert(itemviews.skip(total as int) =~= Seq::<StreamItemView>::empty());
            assert(view_events(r@) + Seq::<EventView>::empty() =~= view_events(r@));
            assert(view_events(r@) == target.0);
            lemma_events_shape(itemviews, done0);
            self.emitted@ = self.emitted@ + view_events(r@);
            lemma_wf_streaming_extend(epre, view_events(r@), done0, self.done);
        }
        r
    }

    /// Close the invocation at the natural end of the transport: the one
    /// `StreamEnd`, unless the terminator already produced it. The whole
    /// emitted trace then has the success framing: one start, deltas, one
    /// end.
    pub fn finish(&mut self) -> (r: Vec<Event>)
        requires
            old(self).wf(),
            old(self).phase() is Streaming,
        ensures
            final(self).wf(),
            final(self).phase() is Finished,
            final(self).emitted() == old(self).emitted() + view_events(r@),
            view_events(r@) == if old(self).done() {
                Seq::<EventView>::empty()
            } else {
                seq![EventView::LLMEventEnd]
            },
            spec_framed(final(self).emitted()),
    {
        self.phase = SessionPhase::Finished;
        let mut r: Vec<Event> = Vec::new();
        if !self.done {
            r.push(Event::LLMEventEnd);
            proof {
                assert(view_events(r@) =~= seq![EventView::LLMEventEnd]);
            }
        } else {
            proof {
                assert(view_events(r@) =~= Seq::<EventView>::empty());
            }
        }
        proof {
            let ghost epre = self.emitted@;
            self.emitted@ = self.emitted@ + view_events(r@);
            if old(self).done {
                assert(self.emitted@ =~= epre);
                assert(spec_framed(self.emitted@));
            } else {
                assert(self.emitted@.len() == epre.len() + 1);
                assert(self.emitted@[0] == epre[0]);
                assert(self.emitted@[self.emitted@.len() - 1] is LLMEventEnd);
                assert(spec_all_deltas(self.emitted@.subrange(1, self.emitted@.len() - 1))) by {
                    assert(self.emitted@.subrange(1, self.emitted@.len() - 1) =~= epre.skip(1));
                }
                assert(spec_framed(self.emitted@));
            }
            assert(spec_terminated(self.emitted@)) by {
                assert forall|i: int|
                    1 <= i < self.emitted@.len() - 1 implies (self.emitted@[i] is LLMEventDelta
                    || self.emitted@[i] is Notification) by {
                    assert(self.emitted@.subrange(1, self.emitted@.len() - 1)[i - 1]
                        == self.emitted@[i]);
                }
            }
        }
        r
    }

    /// Close the invocation on a transport failure: a notice naming what
    /// went wrong, then the one `StreamEnd` — unless the terminator
    /// already ended the stream, in which case nothing more is published.
    /// Never fatal: the turn simply ends with what already streamed.
    pub fn fail(&mut self, notice: String) -> (r: Vec<Event>)
        requires
            old(self).wf(),
            old(self).phase() is Started || old(self).phase() is Streaming,
        ensures
            final(self).wf(),
            final(self).phase() is Finished,
            final(self).emitted() == old(self).emitted() + view_events(r@),
            spec_terminated(final(self).emitted()),
            view_events(r@) == if old(self).phase() is Streaming && old(self).done() {
                Seq::<EventView>::empty()
            } else {
                seq![EventView::Notification(notice@), EventView::LLMEventEnd]
            },
    {
        let streaming_done = match self.phase {
            SessionPhase::Streaming => self.done,
            _ => false,
        };
        self.phase = SessionPhase::Finished;
        let mut r: Vec<Event> = Vec::new();
        if !streaming_done {
            r.push(Event::Notification(notice));
            r.push(Event::LLMEventEnd);
            proof {
                assert(view_events(r@) =~= seq![
                    EventView::Notification(notice@),
                    EventView::LLMEventEnd,
                ]);
            }
        } else {
            proof {
                assert(view_events(r@) =~= Seq::<EventView>::empty());
            }
        }
        proof {
            let ghost epre = self.emitted@;
            self.emitted@ = self.emitted@ + view_events(r@);
            if streaming_done {
                assert(self.emitted@ =~= epre);
                assert(spec_terminated(self.emitted@)) by {
                    assert forall|i: int|
                        1 <= i < self.emitted@.len() - 1 implies (self.emitted@[i]
                        is LLMEventDelta || self.emitted@[i] is Notification) by {
                        assert(self.emitted@.subrange(1, self.emitted@.len() - 1)[i - 1]
                            == self.emitted@[i]);
                    }
                }
            } else {
                assert(self.emitted@.len() == epre.len() + 2);
                assert(self.emitted@[0] == epre[0]);
                assert(self.emitted@[self.emitted@.len() - 1] is LLMEventEnd);
                assert(spec_terminated(self.emitted@)) by {
                    assert forall|i: int|
                        1 <= i < self.emitted@.len() - 1 implies (self.emitted@[i]
                        is LLMEventDelta || self.emitted@[i] is Notification) by {
                        if i < epre.len() {
                            assert(self.emitted@[i] == epre[i]);
                            if old(self).phase is Streaming {
                                assert(epre[i] == epre.skip(1)[i - 1]);
                            }
                        } else {
                            assert(self.emitted@[i] == view_events(r@)[i - epre.len()]);
                        }
                    }
                }
            }
        }
        r
    }
}

/// Extending a well-formed streaming trace by the events of one chunk
/// keeps the phase shape: deltas stay deltas, and the one end closes it.
proof fn lemma_wf_streaming_extend(
    epre: Seq<EventView>,
    evs: Seq<EventView>,
    done0: bool,
    done1: bool,
)
    requires
        epre.len() >= 1,
        epre[0] is LLMEventStart,
        done0 ==> epre.len() >= 2 && epre[epre.len() - 1] is LLMEventEnd && spec_all_deltas(
            epre.subrange(1, epre.len() - 1),
        ),
        !done0 ==> spec_all_deltas(epre.skip(1)),
        done0 ==> evs.len() == 0 && done1,
        !done0 && !done1 ==> spec_all_deltas(evs),
        !done0 && done1 ==> evs.len() >= 1 && evs[evs.len() - 1] is LLMEventEnd
            && spec_all_deltas(evs.subrange(0, evs.len() - 1)),
    ensures
        ({
            let e = epre + evs;
            &&& e.len() >= 1
            &&& e[0] is LLMEventStart
            &&& if done1 {
                &&& e.len() >= 2
                &&& e[e.len() - 1] is LLMEventEnd
                &&& spec_all_deltas(e.subrange(1, e.len() - 1))
            } else {
                spec_all_deltas(e.skip(1))
            }
        }),
{
    let e = epre + evs;
    if done0 {
        assert(e =~= epre);
    } else if done1 {
        assert(e[e.len() - 1] == evs[evs.len() - 1]);
        assert(spec_all_deltas(e.subrange(1, e.len() - 1))) by {
            assert forall|i: int| 1 <= i < e.len() - 1 implies e[i] is LLMEventDelta by {
                if i < epre.len() {
                    assert(e[i] == epre.skip(1)[i - 1]);
                } else {
                    assert(e[i] == evs.subrange(0, evs.len() - 1)[i - epre.len()]);
                }
            }
        }
    } else {
        assert(spec_all_deltas(e.skip(1))) by {
            assert forall|i: int| 0 <= i < e.skip(1).len() implies e.skip(1)[i]
                is LLMEventDelta by {
                if i + 1 < epre.len() {
                    assert(e.skip(1)[i] == epre.skip(1)[i]);
                } else {
                    assert(e.skip(1)[i] == evs[i + 1 - epre.len()]);
                }
            }
        }
    }
}

/// The events of one chunk have the shape the session invariant needs:
/// only deltas while the terminator is unseen, and once it is seen, the
/// one end last and nothing after it.
pub proof fn lemma_events_shape(items: Seq<StreamItemView>, done0: bool)
    ensures
        ({
            let t = spec_events_of_items(items, done0);
            &&& (done0 ==> t.0.len() == 0 && t.1)
            &&& (!done0 && !t.1 ==> spec_all_deltas(t.0))
            &&& (!done0 && t.1 ==> t.0.len() >= 1 && t.0[t.0.len() - 1] is LLMEventEnd
                && spec_all_deltas(t.0.subrange(0, t.0.len() - 1)))
        }),
    decreases items.len(),
{
    if items.len() == 0 {
    } else {
        match items[0] {
            StreamItemView::Fragment(f) => {
                lemma_events_shape(items.drop_first(), done0);
                let t = spec_events_of_items(items.drop_first(), done0);
                if !done0 && spec_msg_of(f) is Some {
                    let m = spec_msg_of(f)->Some_0;
                    let whole = seq![EventView::LLMEventDelta(m)] + t.0;
                    if t.1 {
                        assert(whole[whole.len() - 1] == t.0[t.0.len() - 1]);
                        assert(spec_all_deltas(whole.subrange(0, whole.len() - 1))) by {
                            assert forall|i: int| 0 <= i < whole.len() - 1 implies whole[i]
                                is LLMEventDelta by {
                                if i >= 1 {
                                    assert(whole[i] == t.0.subrange(0, t.0.len() - 1)[i - 1]);
                                }
                            }
                        }
                    } else {
                        assert(spec_all_deltas(whole)) by {
                            assert forall|i: int| 0 <= i < whole.len() implies whole[i]
                                is LLMEventDelta by {
                                if i >= 1 {
                                    assert(whole[i] == t.0[i - 1]);
                                }
                            }
                        }
                    }
                }
            },
            StreamItemView::Done => {
                if done0 {
                    lemma_events_shape(items.drop_first(), done0);
                } else {
                    lemma_done_tail(items.drop_first());
                    let t = spec_events_of_items(items.drop_first(), true);
                    let whole = seq![EventView::LLMEventEnd] + t.0;
                    assert(t.0.len() == 0);
                    assert(whole =~= seq![EventView::LLMEventEnd]);
                    assert(spec_all_deltas(whole.subrange(0, 0))) by {
                        assert(whole.subrange(0, 0) =~= Seq::<EventView>::empty());
                    }
                }
            },
        }
    }
}

/// After the terminator nothing more is ever emitted.
pub proof fn lemma_done_tail(items: Seq<StreamItemView>)
    ensures
        spec_events_of_items(items, true).0.len() == 0,
        spec_events_of_items(items, true).1,
    decreases items.len(),
{
    if items.len() == 0 {
    } else {
        lemma_done_tail(items.drop_first());
    }
}

/// The shared transport lock: the model of the rule that at most one
/// invocation may use the underlying network client at a time. A second
/// submission must first observe the lock free.
pub struct ClientLock {
    busy: bool,
}

impl ClientLock {
    /// Whether some invocation holds the transport now.
    pub closed spec fn spec_busy(&self) -> bool {
        self.busy
    }

    /// A free lock: nothing in flight.
    pub fn new() -> (r: ClientLock)
        ensures
            !r.spec_busy(),
    {
        ClientLock { busy: false }
    }

    /// Take the transport if it is free; a holder already in place keeps
    /// it, and the caller must wait and try again.
    pub fn try_acquire(&mut self) -> (r: bool)
        ensures
            r == !old(self).spec_busy(),
            final(self).spec_busy(),
    {
        if self.busy {
            false
        } else {
            self.busy = true;
            true
        }
    }

    /// Give the transport back.
    pub fn release(&mut self)
        requires
            old(self).spec_busy(),
        ensures
            !final(self).spec_busy(),
    {
        self.busy = false;
    }
}

/// One operation on the transport lock, tagged with the invocation that
/// performs it.
pub enum LockOp {
    Acquire(u64),
    Release(u64),
}

/// One legal step of the lock: acquiring needs it free, releasing needs
/// the releasing invocation to hold it.
pub open spec fn spec_lock_step(pre: Option<u64>, op: LockOp, post: Option<u64>) -> bool {
    match op {
        LockOp::Acquire(id) => pre is None && post == Some(id),
        LockOp::Release(id) => pre == Some(id) && post is None,
    }
}

/// A legal history of the lock: `states` has one state around each
/// operation and every operation steps legally.
pub open spec fn spec_lock_trace(states: Seq<Option<u64>>, ops: Seq<LockOp>) -> bool {
    &&& states.len() == ops.len() + 1
    &&& forall|i: int| 0 <= i < ops.len() ==> spec_lock_step(states[i], ops[i], states[i + 1])
}

/// While the lock is held, only a release can free it.
proof fn lemma_release_before_free(states: Seq<Option<u64>>, ops: Seq<LockOp>, a: int, b: int)
    requires
        spec_lock_trace(states, ops),
        0 <= a <= b <= ops.len(),
        states[a] is Some,
        states[b] is None,
    ensures
        exists|k: int| a <= k < b && ops[k] is Release,
    decreases b - a,
{
    if states[a + 1] is None {
        assert(spec_lock_step(states[a], ops[a], states[a + 1]));
        assert(ops[a] is Release);
    } else {
        lemma_release_before_free(states, ops, a + 1, b);
    }
}

/// Mutual exclusion: in any legal history, two acquisitions are always
/// separated by a release — two invocations never hold the transport, so
/// never run their network calls, at the same time.
pub proof fn lemma_mutual_exclusion(states: Seq<Option<u64>>, ops: Seq<LockOp>, i: int, j: int)
    requires
        spec_lock_trace(states, ops),
        0 <= i < j < ops.len(),
        ops[i] is Acquire,
        ops[j] is Acquire,
    ensures
        exists|k: int| i < k < j && ops[k] is Release,
{
    assert(spec_lock_step(states[i], ops[i], states[i + 1]));
    assert(spec_lock_step(states[j], ops[j], states[j + 1]));
    lemma_release_before_free(states, ops, i + 1, j);
    let k = choose|k: int| i + 1 <= k < j && ops[k] is Release;
    assert(i < k < j && ops[k] is Release);
}

} // verus!

//! The control loop's conversation state and its decisions: what one bus
//! event does to the state, which key presses quit, submit or edit, and
//! what submitting a prompt changes. The surrounding loop — rendering,
//! raw input, spawning the network task — performs the actions these
//! decisions call for.
use vstd::prelude::*;
use vstd::string::StringExecFns;

use crate::bus::Event;
use crate::bus::EventView;
use crate::bus::KeyCode;
use crate::bus::KeyInput;
use crate::llm::Message;
use crate::llm::MessageView;
use crate::llm::view_opt_string;
use crate::request::view_messages;

verus! {

/// The conversation state the control loop owns: the completed turns, the
/// assistant turn under construction, the pending notification text, and
/// whether the loop should stop.
pub struct AppState {
    pub quit: bool,
    pub messages: Vec<Message>,
    pub current_message: Option<String>,
    pub notification: Option<String>,
}

/// Mathematical image of an `AppState`.
pub struct AppStateView {
    pub quit: bool,
    pub messages: Seq<MessageView>,
    pub current_message: Option<Seq<char>>,
    pub notification: Option<Seq<char>>,
}

impl View for AppState {
    type V = AppStateView;

    open spec fn view(&self) -> AppStateView {
        AppStateView {
            quit: self.quit,
            messages: view_messages(self.messages@),
            current_message: view_opt_string(self.current_message),
            notification: view_opt_string(self.notification),
        }
    }
}

/// What one bus event does to the conversation state: a delta's content
/// extends the turn under construction (starting it at empty when none is
/// under way); the stream end completes that turn as an assistant message;
/// a stream start discards any stale partial turn; a notification appends
/// its text to the pending notification, seeding it with the text itself
/// when none is pending; ticks and raw input change nothing here.
pub open spec fn spec_apply(s: AppStateView, e: EventView) -> AppStateView {
    match e {
        EventView::LLMEventDelta(m) => match m.content {
            Some(d) => AppStateView {
                current_message: Some(
                    (match s.current_message {
                        Some(c) => c,
                        None => Seq::empty(),
                    }) + d,
                ),
                ..s
            },
            None => s,
        },
        EventView::LLMEventEnd => match s.current_message {
            Some(c) => AppStateView {
                messages: s.messages.push(
                    MessageView { role: Some("assistant"@), content: Some(c) },
                ),
                current_message: None,
                ..s
            },
            None => s,
        },
        EventView::LLMEventStart => AppStateView { current_message: None, ..s },
        EventView::Notification(m) => AppStateView {
            notification: Some(
                (match s.notification {
                    Some(n) => n,
                    None => m,
                }) + m,
            ),
            ..s
        },
        EventView::TickEvent => s,
        EventView::TermEvent(_) => s,
    }
}

/// What the loop does with one key press.
#[derive(Debug, Clone, Copy, PartialEq, Eq, Structural)]
pub enum KeyAction {
    /// Stop the loop.
    Quit,
    /// Submit the edited prompt.
    Submit,
    /// Hand the key to the input editor.
    Insert,
}

/// The key rules: control-c pressed quits; control-j submits; every other
/// key goes to the editor.
pub open spec fn spec_classify_key(k: KeyInput) -> KeyAction {
    if k.code == KeyCode::Char('c') && k.ctrl && k.press {
        KeyAction::Quit
    } else if k.code == KeyCode::Char('j') && k.ctrl {
        KeyAction::Submit
    } else {
        KeyAction::Insert
    }
}

impl AppState {
    /// A fresh state: no turns, nothing under construction, no
    /// notification, not quitting.
    pub fn new() -> (r: AppState)
        ensures
            r@ == (AppStateView {
                quit: false,
                messages: Seq::<MessageView>::empty(),
                current_message: None,
                notification: None,
            }),
    {
        let r = AppState { quit: false, messages: Vec::new(), current_message: None, notification: None };
        proof {
            assert(view_messages(r.messages@) =~= Seq::<MessageView>::empty());
        }
        r
    }

    /// Apply one bus event to the state, exactly as `spec_apply` says.
    pub fn apply_event(&mut self, ev: Event)
        ensures
            final(self)@ == spec_apply(old(self)@, ev@),
    {
        match ev {
            Event::LLMEventDelta(m) => {
                match m.content {
                    Some(d) => {
                        let mut base = match &self.current_message {
                            Some(c) => c.clone(),
                            None => String::new(),
                        };
                        base.append(d.as_str());
                        self.current_message = Some(base);
                    },
                    None => {},
                }
            },
            Event::LLMEventEnd => {
                match &self.current_message {
                    Some(c) => {
                        let turn = Message::assistant(c.clone());
                        self.messages.push(turn);
                        self.current_message = None;
                        proof {
                            assert(view_messages(self.messages@) =~= view_messages(
                                old(self).messages@,
                            ).push(
                                MessageView {
                                    role: Some("assistant"@),
                                    content: Some(old(self).current_message->Some_0@),
                                },
                            ));
                        }
                    },
                    None => {},
                }
            },
            Event::LLMEventStart => {
                self.current_message = None;
            },
            Event::Notification(m) => {
                let next = match &self.notification {
                    Some(n) => {
                        let mut s = n.clone();
                        s.append(m.as_str());
                        s
                    },
                    None => {
                        let mut s = m.clone();
                        s.append(m.as_str());
                        s
                    },
                };
                self.notification = Some(next);
            },
            Event::TickEvent => {},
            Event::TermEvent(_) => {},
        }
    }

    /// Note a submitted prompt: an empty prompt does nothing and no
    /// request is started; otherwise the prompt becomes the next user
    /// turn and a request should be started for it.
    pub fn submit_prompt(&mut self, prompt: &str) -> (r: bool)
        ensures
            prompt@.len() == 0 ==> r == false && final(self)@ == old(self)@,
            prompt@.len() > 0 ==> r == true && final(self)@ == (AppStateView {
                messages: old(self)@.messages.push(
                    MessageView { role: Some("user"@), content: Some(prompt@) },
                ),
                ..old(self)@
            }),
    {
        if prompt.is_empty() {
            return false;
        }
        let turn = Message::user(prompt.to_owned());
        self.messages.push(turn);
        proof {
            assert(view_messages(self.messages@) =~= view_messages(old(self).messages@).push(
                MessageView { role: Some("user"@), content: Some(prompt@) },
            ));
        }
        true
    }

    /// Mark the loop as stopping.
    pub fn set_quit(&mut self)
        ensures
            final(self)@ == (AppStateView { quit: true, ..old(self)@ }),
    {
        self.quit = true;
    }
}

/// Classify one key press, exactly as `spec_classify_key` says.
pub fn classify_key(k: KeyInput) -> (r: KeyAction)
    ensures
        r == spec_classify_key(k),
{
    if k.ctrl && k.press && (match k.code {
        KeyCode::Char(c) => c == 'c',
        KeyCode::Other => false,
    }) {
        KeyAction::Quit
    } else if k.ctrl && (match k.code {
        KeyCode::Char(c) => c == 'j',
        KeyCode::Other => false,
    }) {
        KeyAction::Submit
    } else {
        KeyAction::Insert
    }
}

} // verus!

//! The conversation data model: role-tagged messages and the decoded shape
//! of one streamed provider response record.
use vstd::prelude::*;
use vstd::std_specs::iter::IteratorSpec;

verus! {

broadcast use vstd::string::group_string_axioms;

/// One role-tagged turn of the conversation: a role name ("user" or
/// "assistant") and the text said. Either part may be absent in a streamed
/// fragment; a complete turn carries both.
#[derive(Debug, Clone, PartialEq)]
pub struct Message {
    pub role: Option<String>,
    pub content: Option<String>,
}

/// Mathematical image of a `Message`: both strings as character sequences.
pub struct MessageView {
    pub role: Option<Seq<char>>,
    pub content: Option<Seq<char>>,
}

/// The view of an optional string: the character sequence, when present.
pub open spec fn view_opt_string(o: Option<String>) -> Option<Seq<char>> {
    match o {
        Some(s) => Some(s@),
        None => None,
    }
}

impl View for Message {
    type V = MessageView;

    open spec fn view(&self) -> MessageView {
        MessageView {
            role: view_opt_string(self.role),
            content: view_opt_string(self.content),
        }
    }
}

/// One choice of a provider response record: the payload sits either in
/// `message` (a whole turn) or in `delta` (an incremental fragment).
#[derive(Debug, Clone, PartialEq)]
pub struct Choice {
    pub index: u64,
    pub message: Option<Message>,
    pub delta: Option<Message>,
    pub finish_reason: Option<String>,
}

/// Mathematical image of a `Choice`.
pub struct ChoiceView {
    pub index: u64,
    pub message: Option<MessageView>,
    pub delta: Option<MessageView>,
    pub finish_reason: Option<Seq<char>>,
}

/// The view of an optional message.
pub open spec fn view_opt_message(o: Option<Message>) -> Option<MessageView> {
    match o {
        Some(m) => Some(m@),
        None => None,
    }
}

impl View for Choice {
    type V = ChoiceView;

    open spec fn view(&self) -> ChoiceView {
        ChoiceView {
            index: self.index,
            message: view_opt_message(self.message),
            delta: view_opt_message(self.delta),
            finish_reason: view_opt_string(self.finish_reason),
        }
    }
}

/// The decoded shape of one streamed response record: the list of choices.
/// Only choice 0 is ever consumed downstream.
#[derive(Debug)]
pub struct LLMResponse {
    pub choices: Vec<Choice>,
}

impl View for LLMResponse {
    type V = Seq<ChoiceView>;

    open spec fn view(&self) -> Seq<ChoiceView> {
        self.choices@.map_values(|c: Choice| c@)
    }
}

impl LLMResponse {
    /// An empty response: no choices at all.
    pub fn new() -> (r: LLMResponse)
        ensures
            r@ == Seq::<ChoiceView>::empty(),
    {
        let r = LLMResponse { choices: Vec::new() };
        proof {
            assert(r@ =~= Seq::<ChoiceView>::empty());
        }
        r
    }

    /// The payload of choice 0: the whole message when one is present,
    /// otherwise the delta.
    pub fn extract_message(&self) -> (r: Message)
        requires
            self@.len() > 0,
            self@[0].message is Some || self@[0].delta is Some,
        ensures
            self@[0].message matches Some(m) ==> r@ == m,
            self@[0].message is None ==> Some(r@) == self@[0].delta,
    {
        let c = &self.choices[0];
        match &c.message {
            Some(m) => clone_message(m),
            None => {
                match &c.delta {
                    Some(m) => clone_message(m),
                    None => {
                        proof {
                            assert(false);
                        }
                        Message { role: None, content: None }
                    },
                }
            },
        }
    }
}

/// A copy of a message whose view is the same.
fn clone_message(m: &Message) -> (r: Message)
    ensures
        r@ == m@,
{
    let role = match &m.role {
        Some(s) => Some(s.clone()),
        None => None,
    };
    let content = match &m.content {
        Some(s) => Some(s.clone()),
        None => None,
    };
    Message { role, content }
}

impl Message {
    /// A turn with the given role and content, both present.
    fn new(role: String, content: String) -> (r: Message)
        ensures
            r@ == (MessageView { role: Some(role@), content: Some(content@) }),
    {
        Message { role: Some(role), content: Some(content) }
    }

    /// A user turn with the given content.
    pub fn user(content: String) -> (r: Message)
        ensures
            r@ == (MessageView { role: Some("user"@), content: Some(content@) }),
    {
        Message::new("user".to_owned(), content)
    }

    /// An assistant turn with the given content.
    pub fn assistant(content: String) -> (r: Message)
        ensures
            r@ == (MessageView { role: Some("assistant"@), content: Some(content@) }),
    {
        Message::new("assistant".to_owned(), content)
    }

    /// Number of display rows that the content occupies when split at
    /// newlines and wrapped at `max_width` columns.
    pub fn len_by_columns(&self, max_width: u16) -> (r: usize)
        requires
            self@.content is Some,
            max_width >= 1,
            self@.content->Some_0.len() < usize::MAX,
            spec_len_by_columns(self@.content->Some_0, max_width as int) <= usize::MAX,
        ensures
            r == spec_len_by_columns(self@.content->Some_0, max_width as int),
    {
        let w = max_width as usize;
        let content: &String = self.content.as_ref().unwrap();
        let ghost text: Seq<char> = content@;
        let mut it = content.as_str().chars();
        let mut acc: usize = 0;
        let mut cur: usize = 0;
        loop
            invariant
                text == self@.content->Some_0,
                w == max_width as usize,
                max_width >= 1,
                text.len() < usize::MAX,
                cur <= text.len() - it.remaining().len(),
                it.remaining().len() <= text.len(),
                acc + rows_from(it.remaining(), cur as int, w as int) == spec_len_by_columns(
                    text,
                    w as int,
                ),
                spec_len_by_columns(text, w as int) <= usize::MAX,
                it.decrease() is Some,
            decreases it.decrease()->0,
        {
            proof {
                lemma_rows_from_pos(it.remaining(), cur as int, w as int);
            }
            match it.next() {
                Some(ch) => {
                    if ch == '\n' {
                        proof {
                            lemma_rows_from_pos(it.remaining(), 0, w as int);
                        }
                        acc = acc + cur / w + 1;
                        cur = 0;
                    } else {
                        cur = cur + 1;
                    }
                },
                None => {
                    acc = acc + cur / w + 1;
                    return acc;
                },
            }
        }
    }
}

/// Number of display rows taken by the text `s` when split at newlines and
/// wrapped at `w` columns: each newline-separated part of length `n` takes
/// `n / w + 1` rows. `pending` counts the characters of the current part
/// already seen.
pub open spec fn rows_from(s: Seq<char>, pending: int, w: int) -> int
    decreases s.len(),
{
    if s.len() == 0 {
        pending / w + 1
    } else if s[0] == '\n' {
        pending / w + 1 + rows_from(s.drop_first(), 0, w)
    } else {
        rows_from(s.drop_first(), pending + 1, w)
    }
}

/// The row count of a whole text.
pub open spec fn spec_len_by_columns(s: Seq<char>, w: int) -> int {
    rows_from(s, 0, w)
}

/// Every text occupies at least one row.
proof fn lemma_rows_from_pos(s: Seq<char>, pending: int, w: int)
    requires
        pending >= 0,
        w >= 1,
    ensures
        rows_from(s, pending, w) >= 1,
    decreases s.len(),
{
    if s.len() == 0 {
    } else if s[0] == '\n' {
        lemma_rows_from_pos(s.drop_first(), 0, w);
    } else {
        lemma_rows_from_pos(s.drop_first(), pending + 1, w);
    }
}

} // verus!

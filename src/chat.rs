use vstd::prelude::*;
use crate::record::{records_model, Record, RecordModel};

verus! {

/// The author of the messages written at this desk.
pub open spec fn local_author() -> Seq<char> {
    "Cheuk Yin Ng"@
}

/// What the user does in the chat window.
pub enum ChatAction {
    /// The text in the input box is now this.
    InputChanged(String),
    /// The text in the input box is sent.
    AddMessage,
}

/// The state of the chat window: the input being typed and the messages
/// sent so far.
pub struct ChatState {
    pub input: String,
    pub messages: Vec<Record>,
}

impl ChatState {
    /// An empty input and no messages.
    pub fn new() -> (s: ChatState)
        ensures
            s.input@ == Seq::<char>::empty(),
            s.messages@.len() == 0,
    {
        ChatState { input: String::new(), messages: Vec::new() }
    }

    /// The window's title.
    pub fn title(&self) -> (t: String)
        ensures
            t@ == "Messaging app"@,
    {
        String::from_str("Messaging app")
    }

    /// Applies one user action: a change of the input replaces it; sending
    /// appends a record of the local author with the input as its body, and
    /// empties the input.
    pub fn update(&mut self, action: ChatAction)
        ensures
            match action {
                ChatAction::InputChanged(v) => {
                    &&& final(self).input@ == v@
                    &&& final(self).messages@ == old(self).messages@
                },
                ChatAction::AddMessage => {
                    &&& final(self).input@ == Seq::<char>::empty()
                    &&& records_model(final(self).messages@) == records_model(
                        old(self).messages@,
                    ).push(RecordModel { author: local_author(), body: old(self).input@ })
                },
            },
    {
        match action {
            ChatAction::InputChanged(value) => {
                self.input = value;
            },
            ChatAction::AddMessage => {
                let ghost prev = self.messages@;
                let body = self.input.clone();
                self.input = String::new();
                self.messages.push(Record { author: String::from_str("Cheuk Yin Ng"), body });
                assert(records_model(self.messages@) =~= records_model(prev).push(
                    RecordModel { author: local_author(), body: old(self).input@ },
                ));
            },
        }
    }
}

} // verus!

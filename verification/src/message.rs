use vstd::prelude::*;

verus! {

broadcast use vstd::string::group_string_axioms;

/// The help text shown when there is no other message.
pub open spec fn help_text() -> Seq<char> {
    seq!['H', 'E', 'L', 'P', ':', ' ', 'C', 't', 'r', 'l', '-', 'S', ' ', '=', ' ', 's', 'a', 'v', 'e', ' ', '|', ' ', 'C', 't', 'r', 'l', '-', 'Q', ' ', '=', ' ', 'q', 'u', 'i', 't']
}

/// A message for the message bar.
#[derive(Debug, PartialEq, Eq)]
pub struct Message {
    pub msg: String,
}

impl Default for Message {
    /// An empty message.
    fn default() -> (res: Message)
        ensures
            res.msg@ == Seq::<char>::empty(),
    {
        Message::new()
    }
}

impl Message {
    /// An empty message.
    pub fn new() -> (res: Message)
        ensures
            res.msg@ == Seq::<char>::empty(),
    {
        Message { msg: String::new() }
    }

    /// Replaces the message by the help text.
    pub fn default_message(&mut self)
        ensures
            final(self).msg@ == help_text(),
    {
        proof {
            reveal_strlit("HELP: Ctrl-S = save | Ctrl-Q = quit");
        }
        self.msg = "HELP: Ctrl-S = save | Ctrl-Q = quit".to_string();
        proof {
            assert(self.msg@ =~= help_text());
        }
    }
}

} // verus!

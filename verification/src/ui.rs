//! What a command says to its user.

use vstd::prelude::*;

verus! {

/// One message to the user.
#[derive(Debug)]
pub enum Message {
    /// Ordinary output.
    Output(String),
    /// An error.
    Error(String),
    /// A warning.
    Warning(String),
}

/// One message as character sequences.
pub enum Line {
    /// See [`Message::Output`].
    Output(Seq<char>),
    /// See [`Message::Error`].
    Error(Seq<char>),
    /// See [`Message::Warning`].
    Warning(Seq<char>),
}

impl View for Message {
    type V = Line;

    open spec fn view(&self) -> Line {
        match self {
            Message::Output(s) => Line::Output(s@),
            Message::Error(s) => Line::Error(s@),
            Message::Warning(s) => Line::Warning(s@),
        }
    }
}

/// The messages of a command in the order in which they were given.
#[derive(Debug)]
pub struct Transcript {
    /// The messages.
    pub messages: Vec<Message>,
}

impl View for Transcript {
    type V = Seq<Line>;

    open spec fn view(&self) -> Seq<Line> {
        Seq::new(self.messages@.len(), |i: int| self.messages@[i]@)
    }
}

/// Ordinary output of each text in turn.
pub open spec fn outputs(texts: Seq<Seq<char>>) -> Seq<Line> {
    Seq::new(texts.len(), |i: int| Line::Output(texts[i]))
}

impl Transcript {
    /// A transcript without messages.
    pub fn new() -> (r: Self)
        ensures
            r@ == Seq::<Line>::empty(),
    {
        let r = Transcript { messages: Vec::new() };
        assert(r@ =~= Seq::<Line>::empty());
        r
    }

    /// Adds ordinary output.
    pub fn output(&mut self, message: &str)
        ensures
            final(self)@ == old(self)@.push(Line::Output(message@)),
    {
        self.messages.push(Message::Output(message.to_owned()));
        assert(self@ =~= old(self)@.push(Line::Output(message@)));
    }

    /// Adds an error.
    pub fn error(&mut self, message: &str)
        ensures
            final(self)@ == old(self)@.push(Line::Error(message@)),
    {
        self.messages.push(Message::Error(message.to_owned()));
        assert(self@ =~= old(self)@.push(Line::Error(message@)));
    }

    /// Adds a warning.
    pub fn warning(&mut self, message: &str)
        ensures
            final(self)@ == old(self)@.push(Line::Warning(message@)),
    {
        self.messages.push(Message::Warning(message.to_owned()));
        assert(self@ =~= old(self)@.push(Line::Warning(message@)));
    }

    /// Adds ordinary output for each text in turn.
    pub fn output_all(&mut self, texts: &Vec<String>)
        ensures
            final(self)@ == old(self)@ + outputs(crate::text::compose::texts(texts@)),
    {
        let ghost before = self@;
        let ghost all = outputs(crate::text::compose::texts(texts@));
        for i in 0..texts.len()
            invariant
                all == outputs(crate::text::compose::texts(texts@)),
                self@ =~= before + all.take(i as int),
        {
            self.output(texts[i].as_str());
            assert(all.take(i + 1) =~= all.take(i as int).push(all[i as int]));
        }
        assert(all.take(texts@.len() as int) =~= all);
    }
}

} // verus!

//! What went wrong, with the context that each layer added.

use vstd::prelude::*;

use crate::text::{self, Text};

verus! {

/// The messages of an error, the outermost first.
pub type Chain = Seq<Text>;

/// An error: the message of the layer that reports it, then those of the
/// layers below, down to the cause.
#[derive(Debug)]
pub struct Error {
    pub chain: Vec<String>,
}

impl View for Error {
    type V = Chain;

    open spec fn view(&self) -> Chain {
        text::views(self.chain@)
    }
}

/// The message alone, as a one-line report shows it.
pub open spec fn head(c: Chain) -> Text {
    if c.len() > 0 {
        c[0]
    } else {
        Seq::empty()
    }
}

/// Every message, the outermost first.
pub open spec fn full(c: Chain) -> Text {
    text::joined(c, ": "@)
}

/// An error with one more layer of context around it.
pub open spec fn with(context: Text, c: Chain) -> Chain {
    seq![context] + c
}

impl Error {
    /// An error with one message.
    pub fn new(message: String) -> (r: Error)
        ensures
            r@ == seq![message@],
    {
        let chain = vec![message];
        assert(text::views(chain@) =~= seq![message@]);
        Error { chain }
    }

    /// An error with one message.
    pub fn msg(message: &str) -> (r: Error)
        ensures
            r@ == seq![message@],
    {
        Error::new(message.to_owned())
    }

    /// The error under another message.
    pub fn context(self, message: String) -> (r: Error)
        ensures
            r@ == with(message@, self@),
    {
        let mut chain = self.chain;
        chain.insert(0, message);
        assert(text::views(chain@) =~= seq![message@] + text::views(self.chain@));
        Error { chain }
    }

    /// The outermost message.
    pub fn head(&self) -> (r: String)
        ensures
            r@ == head(self@),
    {
        if self.chain.len() > 0 {
            self.chain[0].clone()
        } else {
            String::new()
        }
    }

    /// Every message, the outermost first, with colons between.
    pub fn full(&self) -> (r: String)
        ensures
            r@ == full(self@),
    {
        text::join(&self.chain, ": ")
    }
}

impl Clone for Error {
    fn clone(&self) -> (r: Error)
        ensures
            r@ == self@,
    {
        Error { chain: text::copies(&self.chain) }
    }
}

} // verus!

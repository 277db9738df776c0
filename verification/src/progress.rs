//! The progress sink informational messages go to, and the cooperative
//! interrupt flag long-running verification polls.

use vstd::prelude::*;

use crate::hash::ObjectId;

verus! {

/// An informational message: the named tree object re-encodes differently
/// only because a legacy file mode would be replaced by the canonical
/// `100644` during re-serialization.
#[derive(Debug)]
pub struct Message {
    /// The identifier of the tree the note is about.
    pub id: ObjectId,
}

/// A sink collecting the informational messages of a verification run.
#[derive(Debug)]
pub struct Progress {
    /// All messages pushed so far, oldest first.
    pub messages: Vec<Message>,
}

impl Progress {
    /// An empty sink.
    pub fn new() -> (r: Progress)
        ensures
            r.messages@.len() == 0,
    {
        Progress { messages: Vec::new() }
    }

    /// Pushes one informational message.
    pub fn info(&mut self, m: Message)
        ensures
            final(self).messages@ == old(self).messages@.push(m),
    {
        self.messages.push(m);
    }
}

/// A cooperative cancellation flag, polled by long-running verification.
/// Once set it stays set for the rest of the run it governs.
#[derive(Debug)]
pub struct Interrupt {
    /// Whether cancellation was requested.
    pub is_set: bool,
}

impl Interrupt {
    /// A flag in the given state.
    pub fn new(is_set: bool) -> (r: Interrupt)
        ensures
            r.is_set == is_set,
    {
        Interrupt { is_set }
    }
}

} // verus!

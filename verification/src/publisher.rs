//! The published snapshot: the single current rendered text.
//!
//! The buffer starts empty, is replaced whole once per refresh cycle, and
//! is handed out to readers as a copy of exactly the current value — a
//! reader can never see a mixture of two published texts, because a
//! publish replaces the value in one step and a read copies the whole
//! value. Concurrent sharing (one writing cycle, many readers) is the
//! embedding process's concern: it wraps the publisher in a lock.

use vstd::prelude::*;

verus! {

/// The single current rendered exposition text.
pub struct Publisher {
    text: String,
}

impl Publisher {
    /// The text a reader obtains now.
    pub closed spec fn current(&self) -> Seq<char> {
        self.text@
    }

    /// Before the first publish, readers see the empty string.
    pub fn new() -> (r: Publisher)
        ensures
            r.current() == Seq::<char>::empty(),
    {
        Publisher { text: String::new() }
    }

    /// Replaces the snapshot with `text`, whole.
    pub fn publish(&mut self, text: String)
        ensures
            final(self).current() == text@,
    {
        self.text = text;
    }

    /// Hands out a copy of exactly the current snapshot.
    pub fn read(&self) -> (r: String)
        ensures
            r@ == self.current(),
    {
        self.text.clone()
    }
}

} // verus!

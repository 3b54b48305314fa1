//! A single note of the board.

use vstd::prelude::*;

verus! {

/// What a note is, mathematically: its text, how many votes it has, and the
/// rank it was given within its lane.
pub struct ItemView {
    pub body: Seq<char>,
    pub vote_count: nat,
    pub sort_order: nat,
}

impl ItemView {
    /// A note as it is created: the given text, no votes, the given rank.
    pub open spec fn fresh(body: Seq<char>, sort_order: nat) -> ItemView {
        ItemView { body, vote_count: 0, sort_order }
    }

    /// The same note with one more vote.
    pub open spec fn upvoted(self) -> ItemView {
        ItemView { vote_count: self.vote_count + 1, ..self }
    }

    /// The same note with another text.
    pub open spec fn with_body(self, body: Seq<char>) -> ItemView {
        ItemView { body, ..self }
    }

    /// The same note at another rank.
    pub open spec fn ranked(self, sort_order: nat) -> ItemView {
        ItemView { sort_order, ..self }
    }

    /// This note after it has taken over `other`: the merged text, the votes
    /// of both, its own rank.
    pub open spec fn absorbing(self, other: ItemView, body: Seq<char>) -> ItemView {
        ItemView { body, vote_count: self.vote_count + other.vote_count, ..self }
    }
}

/// A votable, ordered, editable note.
#[derive(Clone, Debug)]
pub struct RetroItem {
    pub body: String,
    pub vote_count: u64,
    pub sort_order: u64,
}

impl View for RetroItem {
    type V = ItemView;

    open spec fn view(&self) -> ItemView {
        ItemView {
            body: self.body@,
            vote_count: self.vote_count as nat,
            sort_order: self.sort_order as nat,
        }
    }
}

impl RetroItem {
    /// A note with the given text, votes and rank.
    pub fn new(body: String, vote_count: u64, sort_order: u64) -> (item: RetroItem)
        ensures
            item@ == (ItemView {
                body: body@,
                vote_count: vote_count as nat,
                sort_order: sort_order as nat,
            }),
    {
        RetroItem { body, vote_count, sort_order }
    }

    /// Adds one vote.
    pub fn increment_vote(&mut self)
        requires
            old(self).vote_count < u64::MAX,
        ensures
            final(self)@ == old(self)@.upvoted(),
    {
        self.vote_count += 1;
    }
}

} // verus!

//! The changes that a viewer can ask for, and what each does to the board.

use crate::board::{settled, BoardView, RetroBoard};
use crate::error::MutationError;
use crate::ident::{fresh_item_id, is_random_uuid_text};
use vstd::prelude::*;

verus! {

/// A change to the board, as a viewer sends it.
#[derive(Clone, Debug)]
pub enum Action {
    AddLane { title: String },
    AddItem { lane_id: String, body: String },
    RemoveItem { lane_id: String, id: String },
    UpvoteItem { lane_id: String, id: String },
    MoveItem { from_lane_id: String, to_lane_id: String, item_id: String },
    ReorderItem { lane_id: String, item_id: String, new_position: u64 },
    EditItem { lane_id: String, id: String, body: String },
    MergeItems { lane_id: String, source_id: String, target_id: String, merged_body: String },
}

/// What an action is, mathematically.
pub enum ActionView {
    AddLane { title: Seq<char> },
    AddItem { lane_id: Seq<char>, body: Seq<char> },
    RemoveItem { lane_id: Seq<char>, id: Seq<char> },
    UpvoteItem { lane_id: Seq<char>, id: Seq<char> },
    MoveItem { from_lane_id: Seq<char>, to_lane_id: Seq<char>, item_id: Seq<char> },
    ReorderItem { lane_id: Seq<char>, item_id: Seq<char>, new_position: nat },
    EditItem { lane_id: Seq<char>, id: Seq<char>, body: Seq<char> },
    MergeItems {
        lane_id: Seq<char>,
        source_id: Seq<char>,
        target_id: Seq<char>,
        merged_body: Seq<char>,
    },
}

impl View for Action {
    type V = ActionView;

    open spec fn view(&self) -> ActionView {
        match *self {
            Action::AddLane { title } => ActionView::AddLane { title: title@ },
            Action::AddItem { lane_id, body } => ActionView::AddItem {
                lane_id: lane_id@,
                body: body@,
            },
            Action::RemoveItem { lane_id, id } => ActionView::RemoveItem {
                lane_id: lane_id@,
                id: id@,
            },
            Action::UpvoteItem { lane_id, id } => ActionView::UpvoteItem {
                lane_id: lane_id@,
                id: id@,
            },
            Action::MoveItem { from_lane_id, to_lane_id, item_id } => ActionView::MoveItem {
                from_lane_id: from_lane_id@,
                to_lane_id: to_lane_id@,
                item_id: item_id@,
            },
            Action::ReorderItem { lane_id, item_id, new_position } => ActionView::ReorderItem {
                lane_id: lane_id@,
                item_id: item_id@,
                new_position: new_position as nat,
            },
            Action::EditItem { lane_id, id, body } => ActionView::EditItem {
                lane_id: lane_id@,
                id: id@,
                body: body@,
            },
            Action::MergeItems { lane_id, source_id, target_id, merged_body } => {
                ActionView::MergeItems {
                    lane_id: lane_id@,
                    source_id: source_id@,
                    target_id: target_id@,
                    merged_body: merged_body@,
                }
            },
        }
    }
}

impl BoardView {
    /// The board after `action`, or the reason for which it is turned down.
    /// `fresh` is the id that a new note gets; no other action looks at it.
    pub open spec fn apply(self, action: ActionView, fresh: Seq<char>) -> Result<
        BoardView,
        MutationError,
    > {
        match action {
            ActionView::AddLane { title } => Ok(self.add_lane(title)),
            ActionView::AddItem { lane_id, body } => self.add_item(lane_id, fresh, body),
            ActionView::RemoveItem { lane_id, id } => self.remove_item(lane_id, id),
            ActionView::UpvoteItem { lane_id, id } => self.upvote_item(lane_id, id),
            ActionView::MoveItem { from_lane_id, to_lane_id, item_id } => self.move_item(
                from_lane_id,
                to_lane_id,
                item_id,
            ),
            ActionView::ReorderItem { lane_id, item_id, new_position } => self.reorder_item(
                lane_id,
                item_id,
                new_position,
            ),
            ActionView::EditItem { lane_id, id, body } => self.edit_item(lane_id, id, body),
            ActionView::MergeItems { lane_id, source_id, target_id, merged_body } => {
                self.merge_items(lane_id, source_id, target_id, merged_body)
            },
        }
    }

    /// The vote counts that `action` leads to still fit in 64 bits.
    pub open spec fn admits(self, action: ActionView) -> bool {
        match action {
            ActionView::UpvoteItem { lane_id, id } => self.contains_item(lane_id, id)
                ==> self.lane(lane_id).item(id).vote_count < u64::MAX,
            ActionView::MergeItems { lane_id, source_id, target_id, merged_body } => {
                self.contains_item(lane_id, source_id) && self.contains_item(lane_id, target_id)
                    ==> self.lane(lane_id).item(target_id).vote_count + self.lane(lane_id).item(
                    source_id,
                ).vote_count <= u64::MAX
            },
            _ => true,
        }
    }
}

impl RetroBoard {
    /// Tells whether the vote counts that `action` leads to still fit in 64
    /// bits, which `apply` and `apply_with_id` ask of their callers.
    pub fn admits(&self, action: &Action) -> (ok: bool)
        ensures
            ok == self@.admits(action@),
    {
        match action {
            Action::UpvoteItem { lane_id, id } => {
                match self.lane(lane_id.as_str()) {
                    Some(lane) => match lane.item(id.as_str()) {
                        Some(item) => item.vote_count < u64::MAX,
                        None => true,
                    },
                    None => true,
                }
            },
            Action::MergeItems { lane_id, source_id, target_id, merged_body } => {
                match self.lane(lane_id.as_str()) {
                    Some(lane) => {
                        let source = lane.item(source_id.as_str());
                        let target = lane.item(target_id.as_str());
                        match (source, target) {
                            (Some(source), Some(target)) => target.vote_count <= u64::MAX
                                - source.vote_count,
                            _ => true,
                        }
                    },
                    None => true,
                }
            },
            _ => true,
        }
    }

    /// Applies `action` to the board, with `fresh` as the id of the note that
    /// it may add. An action that is turned down leaves the board as it was.
    pub fn apply_with_id(&mut self, action: &Action, fresh: String) -> (done: Result<
        (),
        MutationError,
    >)
        requires
            old(self)@.admits(action@),
        ensures
            settled(old(self)@, final(self)@, done, old(self)@.apply(action@, fresh@)),
            final(self)@.wf(),
    {
        match action {
            Action::AddLane { title } => {
                self.add_lane(title.as_str());
                Ok(())
            },
            Action::AddItem { lane_id, body } => self.add_item_with_id(
                lane_id.as_str(),
                fresh,
                body.as_str(),
            ),
            Action::RemoveItem { lane_id, id } => self.remove_item(lane_id.as_str(), id.as_str()),
            Action::UpvoteItem { lane_id, id } => self.upvote_item(lane_id.as_str(), id.as_str()),
            Action::MoveItem { from_lane_id, to_lane_id, item_id } => self.move_item(
                from_lane_id.as_str(),
                to_lane_id.as_str(),
                item_id.as_str(),
            ),
            Action::ReorderItem { lane_id, item_id, new_position } => self.reorder_item(
                lane_id.as_str(),
                item_id.as_str(),
                *new_position,
            ),
            Action::EditItem { lane_id, id, body } => self.edit_item(
                lane_id.as_str(),
                id.as_str(),
                body.as_str(),
            ),
            Action::MergeItems { lane_id, source_id, target_id, merged_body } => self.merge_items(
                lane_id.as_str(),
                source_id.as_str(),
                target_id.as_str(),
                merged_body.as_str(),
            ),
        }
    }

    /// Applies `action` to the board; a note that it adds gets an id drawn
    /// for it. An action that is turned down leaves the board as it was.
    pub fn apply(&mut self, action: &Action) -> (done: Result<(), MutationError>)
        requires
            old(self)@.admits(action@),
        ensures
            exists|fresh: Seq<char>|
                (action@ is AddItem ==> is_random_uuid_text(fresh)) && settled(
                    old(self)@,
                    final(self)@,
                    done,
                    #[trigger] old(self)@.apply(action@, fresh),
                ),
            final(self)@.wf(),
    {
        let fresh = match action {
            Action::AddItem { .. } => fresh_item_id(),
            _ => String::new(),
        };
        let ghost drawn = fresh@;
        let done = self.apply_with_id(action, fresh);
        assert((action@ is AddItem ==> is_random_uuid_text(drawn)) && settled(
            old(self)@,
            self@,
            done,
            old(self)@.apply(action@, drawn),
        ));
        done
    }
}

} // verus!

//! The board: a title and its lanes, each under a key of its own.

use crate::error::MutationError;
use crate::ident::{fresh_item_id, is_random_uuid_text};
use crate::item::ItemView;
use crate::keyed::{
    distinct_keys, find, has_key, lemma_position, lemma_put, lemma_put_at, lemma_put_same,
    pairs_view, position, put, value,
};
use crate::lane::{LaneView, RetroLane};
use vstd::prelude::*;

verus! {

/// What a board is, mathematically: a title and its lanes, each paired with
/// its key, in the order in which the board holds them.
pub struct BoardView {
    pub title: Seq<char>,
    pub lanes: Seq<(Seq<char>, LaneView)>,
}

impl BoardView {
    /// A board without lanes.
    pub open spec fn empty(title: Seq<char>) -> BoardView {
        BoardView { title, lanes: Seq::empty() }
    }

    /// No key is used by two lanes, and no id by two notes of a lane.
    pub open spec fn wf(self) -> bool {
        &&& distinct_keys(self.lanes)
        &&& forall|i: int| 0 <= i < self.lanes.len() ==> (#[trigger] self.lanes[i]).1.wf()
    }

    /// A lane is stored under `key`.
    pub open spec fn contains_lane(self, key: Seq<char>) -> bool {
        has_key(self.lanes, key)
    }

    /// The lane stored under `key`. Unspecified where there is none.
    pub open spec fn lane(self, key: Seq<char>) -> LaneView {
        value(self.lanes, key)
    }

    /// The note `id` of the lane `key` is on the board.
    pub open spec fn contains_item(self, key: Seq<char>, id: Seq<char>) -> bool {
        self.contains_lane(key) && self.lane(key).contains(id)
    }

    /// The board with `lane` stored under `key`: in the place of the lane that
    /// had this key, or behind all others.
    pub open spec fn put_lane(self, key: Seq<char>, lane: LaneView) -> BoardView {
        BoardView { lanes: put(self.lanes, key, lane), ..self }
    }

    /// The board with an empty lane under its own title as key, themed with
    /// the board's title. A lane that had this key is lost with its notes.
    pub open spec fn add_lane(self, title: Seq<char>) -> BoardView {
        self.put_lane(title, LaneView::empty(title, self.title))
    }

    /// The board with a new note in the lane `lane_id`.
    pub open spec fn add_item(self, lane_id: Seq<char>, id: Seq<char>, body: Seq<char>) -> Result<
        BoardView,
        MutationError,
    > {
        if self.contains_lane(lane_id) {
            Ok(self.put_lane(lane_id, self.lane(lane_id).add_item(id, body)))
        } else {
            Err(MutationError::LaneNotFound)
        }
    }

    /// The board without the note `id` of the lane `lane_id`; the same board
    /// where the lane has no such note.
    pub open spec fn remove_item(self, lane_id: Seq<char>, id: Seq<char>) -> Result<
        BoardView,
        MutationError,
    > {
        if self.contains_lane(lane_id) {
            Ok(self.put_lane(lane_id, self.lane(lane_id).remove_item(id)))
        } else {
            Err(MutationError::LaneNotFound)
        }
    }

    /// The board with one more vote on the note `id` of the lane `lane_id`.
    pub open spec fn upvote_item(self, lane_id: Seq<char>, id: Seq<char>) -> Result<
        BoardView,
        MutationError,
    > {
        if !self.contains_lane(lane_id) {
            Err(MutationError::LaneNotFound)
        } else if !self.lane(lane_id).contains(id) {
            Err(MutationError::ItemNotFound)
        } else {
            Ok(self.put_lane(lane_id, self.lane(lane_id).upvote(id)))
        }
    }

    /// The board with `body` as the text of the note `id` of the lane
    /// `lane_id`.
    pub open spec fn edit_item(self, lane_id: Seq<char>, id: Seq<char>, body: Seq<char>) -> Result<
        BoardView,
        MutationError,
    > {
        if !self.contains_lane(lane_id) {
            Err(MutationError::LaneNotFound)
        } else if !self.lane(lane_id).contains(id) {
            Err(MutationError::ItemNotFound)
        } else {
            Ok(self.put_lane(lane_id, self.lane(lane_id).edit(id, body)))
        }
    }

    /// The board after the note `source` of the lane `lane_id` was merged
    /// into the note `target` of the same lane.
    pub open spec fn merge_items(
        self,
        lane_id: Seq<char>,
        source: Seq<char>,
        target: Seq<char>,
        body: Seq<char>,
    ) -> Result<BoardView, MutationError> {
        if !self.contains_lane(lane_id) {
            Err(MutationError::LaneNotFound)
        } else if !(self.lane(lane_id).contains(source) && self.lane(lane_id).contains(target)) {
            Err(MutationError::ItemNotFound)
        } else {
            Ok(self.put_lane(lane_id, self.lane(lane_id).merge(source, target, body)))
        }
    }

    /// The board after the note `id` of the lane `lane_id` was moved to
    /// `new_position` within its lane; the same board where the lane has no
    /// such note.
    pub open spec fn reorder_item(
        self,
        lane_id: Seq<char>,
        id: Seq<char>,
        new_position: nat,
    ) -> Result<BoardView, MutationError> {
        if self.contains_lane(lane_id) {
            Ok(self.put_lane(lane_id, self.lane(lane_id).reorder(id, new_position)))
        } else {
            Err(MutationError::LaneNotFound)
        }
    }

    /// The board after the note `id` was moved from the lane `from` to the
    /// lane `to`, where it gets the number of notes of `to` as its rank and
    /// takes the place of a note of `to` that had its id. The same board
    /// where `from` and `to` are one lane, where there is no lane `to`, and
    /// where `from` has no such note.
    pub open spec fn move_item(self, from: Seq<char>, to: Seq<char>, id: Seq<char>) -> Result<
        BoardView,
        MutationError,
    > {
        if from == to {
            Ok(self)
        } else if !self.contains_lane(from) {
            Err(MutationError::LaneNotFound)
        } else if !self.contains_lane(to) || !self.lane(from).contains(id) {
            Ok(self)
        } else {
            let moved = self.lane(from).item(id).ranked(self.lane(to).len());
            Ok(
                self.put_lane(from, self.lane(from).remove_item(id)).put_lane(
                    to,
                    self.lane(to).put(id, moved),
                ),
            )
        }
    }

    /// Storing a well-formed lane keeps the board well-formed.
    pub proof fn lemma_put_lane(self, key: Seq<char>, lane: LaneView)
        requires
            self.wf(),
            lane.wf(),
        ensures
            self.put_lane(key, lane).wf(),
            self.put_lane(key, lane).contains_lane(key),
            self.put_lane(key, lane).lane(key) == lane,
            forall|o: Seq<char>|
                o != key ==> #[trigger] self.put_lane(key, lane).contains_lane(o)
                    == self.contains_lane(o),
            forall|o: Seq<char>|
                o != key && self.contains_lane(o) ==> #[trigger] self.put_lane(key, lane).lane(o)
                    == self.lane(o),
    {
        lemma_put(self.lanes, key, lane);
        let after = self.put_lane(key, lane).lanes;
        assert forall|i: int| 0 <= i < after.len() implies (#[trigger] after[i]).1.wf() by {
            if after[i].0 == key {
                lemma_position(after, key, i);
            } else {
                assert(self.lanes[i] == after[i]);
            }
        }
    }
}

/// Replacing the lane at position `i` by `lane` is storing `lane` under the
/// key that stands there.
proof fn lemma_lane_replaced(before: BoardView, i: int, lane: LaneView)
    requires
        before.wf(),
        0 <= i < before.lanes.len(),
        lane.wf(),
    ensures
        before.contains_lane(before.lanes[i].0),
        before.lane(before.lanes[i].0) == before.lanes[i].1,
        before.put_lane(before.lanes[i].0, lane).lanes == before.lanes.update(
            i,
            (before.lanes[i].0, lane),
        ),
        before.put_lane(before.lanes[i].0, lane).wf(),
{
    lemma_put_at(before.lanes, i, lane);
    before.lemma_put_lane(before.lanes[i].0, lane);
}

/// A lane of the board that a new installation starts with: two notes
/// without votes, at the ranks 0 and 1.
pub open spec fn seed_lane(
    title: Seq<char>,
    theme: Seq<char>,
    first: (Seq<char>, Seq<char>),
    second: (Seq<char>, Seq<char>),
) -> LaneView {
    LaneView {
        title,
        theme,
        entries: seq![
            (first.0, ItemView::fresh(first.1, 0)),
            (second.0, ItemView::fresh(second.1, 1)),
        ],
    }
}

/// The board that a new installation starts with: three lanes for what went
/// well, what to improve and what to do, with two notes each.
pub open spec fn seed_board() -> BoardView {
    BoardView {
        title: "My Retro Board"@,
        lanes: seq![
            (
                "went-well"@,
                seed_lane(
                    "Went Well"@,
                    "went-well"@,
                    ("1"@, "We shipped the feature on time"@),
                    ("2"@, "The team worked well together"@),
                ),
            ),
            (
                "to-improve"@,
                seed_lane(
                    "To Improve"@,
                    "to-improve"@,
                    ("3"@, "We need to improve our testing"@),
                    ("4"@, "We need to improve our communication"@),
                ),
            ),
            (
                "action-items"@,
                seed_lane(
                    "Action Items"@,
                    "action-items"@,
                    ("5"@, "Write more tests"@),
                    ("6"@, "Schedule a team-building event"@),
                ),
            ),
        ],
    }
}

/// How a change ended, given what it should do to the board `before`: where a
/// new board is `expected` the change is done and `after` is that board;
/// where an error is, that error is reported and the board is as before.
pub open spec fn settled(
    before: BoardView,
    after: BoardView,
    done: Result<(), MutationError>,
    expected: Result<BoardView, MutationError>,
) -> bool {
    match expected {
        Ok(board) => done == Ok::<(), MutationError>(()) && after == board,
        Err(e) => done == Err::<(), MutationError>(e) && after == before,
    }
}

/// The single shared board.
#[derive(Debug)]
pub struct RetroBoard {
    title: String,
    lanes: Vec<(String, RetroLane)>,
}

impl View for RetroBoard {
    type V = BoardView;

    closed spec fn view(&self) -> BoardView {
        BoardView { title: self.title@, lanes: pairs_view(self.lanes@) }
    }
}

impl RetroBoard {
    /// No key is used by two lanes of the board, and no id by two notes of a
    /// lane.
    #[verifier::type_invariant]
    pub open spec fn well_formed(self) -> bool {
        self@.wf()
    }

    /// A board without lanes.
    pub fn new(title: &str) -> (board: RetroBoard)
        ensures
            board@ == BoardView::empty(title@),
            board@.wf(),
    {
        let board = RetroBoard { title: title.to_owned(), lanes: Vec::new() };
        assert(board@.lanes =~= Seq::empty());
        board
    }

    /// The board's title.
    pub fn title(&self) -> (title: &str)
        ensures
            title@ == self@.title,
    {
        self.title.as_str()
    }

    /// The lanes with their keys, in the order in which the board holds them.
    pub fn lanes(&self) -> (lanes: &Vec<(String, RetroLane)>)
        ensures
            pairs_view(lanes@) == self@.lanes,
            self@.wf(),
    {
        proof {
            use_type_invariant(&*self);
        }
        &self.lanes
    }

    /// The lane stored under `key`, if there is one.
    pub fn lane(&self, key: &str) -> (found: Option<&RetroLane>)
        ensures
            found is Some <==> self@.contains_lane(key@),
            found is Some ==> found->0@ == self@.lane(key@),
    {
        proof {
            use_type_invariant(&*self);
        }
        let key = key.to_owned();
        match find(&self.lanes, &key) {
            Some(i) => Some(&self.lanes[i].1),
            None => None,
        }
    }

    /// Stores `lane` under `key`, in the place of the lane that had this key
    /// or, where there was none, behind all others.
    pub fn put_lane(&mut self, key: String, lane: RetroLane)
        ensures
            final(self)@ == old(self)@.put_lane(key@, lane@),
            final(self)@.wf(),
    {
        proof {
            use_type_invariant(&*self);
            use_type_invariant(&lane);
            self@.lemma_put_lane(key@, lane@);
        }
        let found = find(&self.lanes, &key);
        // The lanes leave the board while they change, so that the board is
        // well-formed at every step.
        let mut lanes: Vec<(String, RetroLane)> = Vec::new();
        std::mem::swap(&mut lanes, &mut self.lanes);
        match found {
            Some(i) => {
                lanes[i] = (key, lane);
            },
            None => {
                lanes.push((key, lane));
            },
        }
        assert(pairs_view(lanes@) =~= put(old(self)@.lanes, key@, lane@));
        self.lanes = lanes;
    }

    /// Adds an empty lane under its own title as key, themed with the
    /// board's title. A lane that had this key is lost with its notes.
    pub fn add_lane(&mut self, title: &str)
        ensures
            final(self)@ == old(self)@.add_lane(title@),
            final(self)@.wf(),
    {
        let lane = RetroLane::new(title, self.title.as_str());
        self.put_lane(title.to_owned(), lane);
    }
}

impl RetroBoard {
    /// Adds a note with the text `body` under `id` to the lane `lane_id`: no
    /// votes, and the number of notes that the lane held as its rank. A note
    /// of the lane that had this id is replaced.
    pub fn add_item_with_id(&mut self, lane_id: &str, id: String, body: &str) -> (done: Result<
        (),
        MutationError,
    >)
        ensures
            settled(old(self)@, final(self)@, done, old(self)@.add_item(lane_id@, id@, body@)),
            final(self)@.wf(),
    {
        proof {
            use_type_invariant(&*self);
        }
        let key = lane_id.to_owned();
        match find(&self.lanes, &key) {
            Some(i) => {
                let mut lanes: Vec<(String, RetroLane)> = Vec::new();
                std::mem::swap(&mut lanes, &mut self.lanes);
                lanes[i].1.add_item_with_id(id, body);
                proof {
                    lemma_lane_replaced(old(self)@, i as int, lanes@[i as int].1@);
                    assert(pairs_view(lanes@) =~= old(self)@.lanes.update(
                        i as int,
                        (lane_id@, lanes@[i as int].1@),
                    ));
                }
                self.lanes = lanes;
                Ok(())
            },
            None => Err(MutationError::LaneNotFound),
        }
    }

    /// Adds a note with the text `body` to the lane `lane_id`, under an id
    /// drawn for it.
    pub fn add_item(&mut self, lane_id: &str, body: &str) -> (done: Result<(), MutationError>)
        ensures
            exists|id: Seq<char>|
                is_random_uuid_text(id) && settled(
                    old(self)@,
                    final(self)@,
                    done,
                    #[trigger] old(self)@.add_item(lane_id@, id, body@),
                ),
            final(self)@.wf(),
    {
        let id = fresh_item_id();
        let ghost drawn = id@;
        let done = self.add_item_with_id(lane_id, id, body);
        assert(is_random_uuid_text(drawn) && settled(
            old(self)@,
            self@,
            done,
            old(self)@.add_item(lane_id@, drawn, body@),
        ));
        done
    }

    /// Removes the note `id` from the lane `lane_id`, if the lane has it.
    pub fn remove_item(&mut self, lane_id: &str, id: &str) -> (done: Result<(), MutationError>)
        ensures
            settled(old(self)@, final(self)@, done, old(self)@.remove_item(lane_id@, id@)),
            final(self)@.wf(),
    {
        proof {
            use_type_invariant(&*self);
        }
        let key = lane_id.to_owned();
        match find(&self.lanes, &key) {
            Some(i) => {
                let mut lanes: Vec<(String, RetroLane)> = Vec::new();
                std::mem::swap(&mut lanes, &mut self.lanes);
                lanes[i].1.remove_item(id);
                proof {
                    lemma_lane_replaced(old(self)@, i as int, lanes@[i as int].1@);
                    assert(pairs_view(lanes@) =~= old(self)@.lanes.update(
                        i as int,
                        (lane_id@, lanes@[i as int].1@),
                    ));
                }
                self.lanes = lanes;
                Ok(())
            },
            None => Err(MutationError::LaneNotFound),
        }
    }

    /// Adds one vote to the note `id` of the lane `lane_id`.
    pub fn upvote_item(&mut self, lane_id: &str, id: &str) -> (done: Result<(), MutationError>)
        requires
            old(self)@.contains_item(lane_id@, id@) ==> old(self)@.lane(lane_id@).item(
                id@,
            ).vote_count < u64::MAX,
        ensures
            settled(old(self)@, final(self)@, done, old(self)@.upvote_item(lane_id@, id@)),
            final(self)@.wf(),
    {
        proof {
            use_type_invariant(&*self);
        }
        let key = lane_id.to_owned();
        match find(&self.lanes, &key) {
            Some(i) => {
                proof {
                    lemma_position(self@.lanes, lane_id@, i as int);
                }
                let mut lanes: Vec<(String, RetroLane)> = Vec::new();
                std::mem::swap(&mut lanes, &mut self.lanes);
                let done = lanes[i].1.increment_vote(id);
                proof {
                    lemma_lane_replaced(old(self)@, i as int, lanes@[i as int].1@);
                    assert(pairs_view(lanes@) =~= old(self)@.lanes.update(
                        i as int,
                        (lane_id@, lanes@[i as int].1@),
                    ));
                    if done is Err {
                        lemma_put_same(old(self)@.lanes, lane_id@);
                    }
                }
                self.lanes = lanes;
                done
            },
            None => Err(MutationError::LaneNotFound),
        }
    }

    /// Replaces the text of the note `id` of the lane `lane_id`.
    pub fn edit_item(&mut self, lane_id: &str, id: &str, body: &str) -> (done: Result<
        (),
        MutationError,
    >)
        ensures
            settled(old(self)@, final(self)@, done, old(self)@.edit_item(lane_id@, id@, body@)),
            final(self)@.wf(),
    {
        proof {
            use_type_invariant(&*self);
        }
        let key = lane_id.to_owned();
        match find(&self.lanes, &key) {
            Some(i) => {
                proof {
                    lemma_position(self@.lanes, lane_id@, i as int);
                }
                let mut lanes: Vec<(String, RetroLane)> = Vec::new();
                std::mem::swap(&mut lanes, &mut self.lanes);
                let done = lanes[i].1.edit_item(id, body);
                proof {
                    lemma_lane_replaced(old(self)@, i as int, lanes@[i as int].1@);
                    assert(pairs_view(lanes@) =~= old(self)@.lanes.update(
                        i as int,
                        (lane_id@, lanes@[i as int].1@),
                    ));
                    if done is Err {
                        lemma_put_same(old(self)@.lanes, lane_id@);
                    }
                }
                self.lanes = lanes;
                done
            },
            None => Err(MutationError::LaneNotFound),
        }
    }

    /// Merges the note `source_id` of the lane `lane_id` into the note
    /// `target_id` of the same lane: the target gets the text `merged_body`
    /// and the votes of both, the source leaves the lane. Where the lane or
    /// either note is missing nothing changes.
    pub fn merge_items(
        &mut self,
        lane_id: &str,
        source_id: &str,
        target_id: &str,
        merged_body: &str,
    ) -> (done: Result<(), MutationError>)
        requires
            old(self)@.contains_item(lane_id@, source_id@) && old(self)@.contains_item(
                lane_id@,
                target_id@,
            ) ==> old(self)@.lane(lane_id@).item(target_id@).vote_count + old(self)@.lane(
                lane_id@,
            ).item(source_id@).vote_count <= u64::MAX,
        ensures
            settled(
                old(self)@,
                final(self)@,
                done,
                old(self)@.merge_items(lane_id@, source_id@, target_id@, merged_body@),
            ),
            final(self)@.wf(),
    {
        proof {
            use_type_invariant(&*self);
        }
        let key = lane_id.to_owned();
        match find(&self.lanes, &key) {
            Some(i) => {
                proof {
                    lemma_position(self@.lanes, lane_id@, i as int);
                }
                let mut lanes: Vec<(String, RetroLane)> = Vec::new();
                std::mem::swap(&mut lanes, &mut self.lanes);
                let done = lanes[i].1.merge_items(source_id, target_id, merged_body);
                proof {
                    lemma_lane_replaced(old(self)@, i as int, lanes@[i as int].1@);
                    assert(pairs_view(lanes@) =~= old(self)@.lanes.update(
                        i as int,
                        (lane_id@, lanes@[i as int].1@),
                    ));
                    if done is Err {
                        lemma_put_same(old(self)@.lanes, lane_id@);
                    }
                }
                self.lanes = lanes;
                done
            },
            None => Err(MutationError::LaneNotFound),
        }
    }

    /// Moves the note `item_id` of the lane `lane_id` to `new_position`
    /// among the notes of its lane, counted in the order of their ranks, and
    /// gives every note of the lane its new place as its rank. Leaves the
    /// board as it is where the lane has no such note.
    pub fn reorder_item(&mut self, lane_id: &str, item_id: &str, new_position: u64) -> (done:
        Result<(), MutationError>)
        ensures
            settled(
                old(self)@,
                final(self)@,
                done,
                old(self)@.reorder_item(lane_id@, item_id@, new_position as nat),
            ),
            final(self)@.wf(),
    {
        proof {
            use_type_invariant(&*self);
        }
        let key = lane_id.to_owned();
        match find(&self.lanes, &key) {
            Some(i) => {
                let mut lanes: Vec<(String, RetroLane)> = Vec::new();
                std::mem::swap(&mut lanes, &mut self.lanes);
                lanes[i].1.reorder_item(item_id, new_position);
                proof {
                    lemma_lane_replaced(old(self)@, i as int, lanes@[i as int].1@);
                    assert(pairs_view(lanes@) =~= old(self)@.lanes.update(
                        i as int,
                        (lane_id@, lanes@[i as int].1@),
                    ));
                }
                self.lanes = lanes;
                Ok(())
            },
            None => Err(MutationError::LaneNotFound),
        }
    }

    /// Moves the note `item_id` from the lane `from_lane_id` to the lane
    /// `to_lane_id`, where it gets the number of notes of that lane as its
    /// rank. Nothing changes where the two are one lane, where there is no
    /// lane `to_lane_id`, and where the first lane has no such note.
    pub fn move_item(&mut self, from_lane_id: &str, to_lane_id: &str, item_id: &str) -> (done:
        Result<(), MutationError>)
        ensures
            settled(
                old(self)@,
                final(self)@,
                done,
                old(self)@.move_item(from_lane_id@, to_lane_id@, item_id@),
            ),
            final(self)@.wf(),
    {
        proof {
            use_type_invariant(&*self);
        }
        let from_key = from_lane_id.to_owned();
        let to_key = to_lane_id.to_owned();
        if from_key == to_key {
            return Ok(());
        }
        let from = match find(&self.lanes, &from_key) {
            Some(i) => i,
            None => {
                return Err(MutationError::LaneNotFound);
            },
        };
        let to = match find(&self.lanes, &to_key) {
            Some(i) => i,
            None => {
                return Ok(());
            },
        };
        proof {
            lemma_position(self@.lanes, from_lane_id@, from as int);
            lemma_position(self@.lanes, to_lane_id@, to as int);
        }
        let ghost before = self@;
        let mut lanes: Vec<(String, RetroLane)> = Vec::new();
        std::mem::swap(&mut lanes, &mut self.lanes);
        match lanes[from].1.take_item(item_id) {
            Some(item) => {
                let ghost source = lanes@[from as int].1@;
                let ghost halfway = before.put_lane(from_lane_id@, source);
                proof {
                    lemma_lane_replaced(before, from as int, source);
                    assert(pairs_view(lanes@) =~= halfway.lanes);
                    lemma_position(halfway.lanes, to_lane_id@, to as int);
                }
                let mut item = item;
                item.sort_order = lanes[to].1.len() as u64;
                lanes[to].1.put_item(item_id.to_owned(), item);
                proof {
                    lemma_lane_replaced(halfway, to as int, lanes@[to as int].1@);
                    assert(pairs_view(lanes@) =~= halfway.lanes.update(
                        to as int,
                        (to_lane_id@, lanes@[to as int].1@),
                    ));
                }
                self.lanes = lanes;
                Ok(())
            },
            None => {
                proof {
                    lemma_put_same(before.lanes, from_lane_id@);
                    lemma_lane_replaced(before, from as int, lanes@[from as int].1@);
                    assert(pairs_view(lanes@) =~= before.lanes);
                }
                self.lanes = lanes;
                Ok(())
            },
        }
    }
}

/// Builds a lane of two notes without votes, at the ranks 0 and 1.
fn two_note_lane(
    title: &str,
    theme: &str,
    first_id: &str,
    first_body: &str,
    second_id: &str,
    second_body: &str,
) -> (lane: RetroLane)
    requires
        first_id@ != second_id@,
    ensures
        lane@ == seed_lane(
            title@,
            theme@,
            (first_id@, first_body@),
            (second_id@, second_body@),
        ),
{
    let mut lane = RetroLane::new(title, theme);
    lane.add_item_with_id(first_id.to_owned(), first_body);
    assert(!has_key(Seq::<(Seq<char>, ItemView)>::empty(), first_id@));
    assert(lane@.entries =~= seq![(first_id@, ItemView::fresh(first_body@, 0))]);
    lane.add_item_with_id(second_id.to_owned(), second_body);
    proof {
        let one = seq![(first_id@, ItemView::fresh(first_body@, 0))];
        if has_key(one, second_id@) {
            assert(one[position(one, second_id@)].0 == second_id@);
        }
        assert(lane@.entries =~= seq![
            (first_id@, ItemView::fresh(first_body@, 0)),
            (second_id@, ItemView::fresh(second_body@, 1)),
        ]);
    }
    lane
}

impl RetroBoard {
    /// The board to start with, given what was found in storage: the stored
    /// board, or the board of a new installation where none could be read.
    pub fn loaded_or_default(loaded: Option<RetroBoard>) -> (board: RetroBoard)
        ensures
            loaded is Some ==> board == loaded->0,
            loaded is None ==> board@ == seed_board(),
            board@.wf(),
    {
        match loaded {
            Some(board) => {
                proof {
                    use_type_invariant(&board);
                }
                board
            },
            None => RetroBoard::default(),
        }
    }

    /// The board that a new installation starts with.
    pub fn default() -> (board: RetroBoard)
        ensures
            board@ == seed_board(),
            board@.wf(),
    {
        proof {
            reveal_strlit("1");
            reveal_strlit("2");
            reveal_strlit("3");
            reveal_strlit("4");
            reveal_strlit("5");
            reveal_strlit("6");
            reveal_strlit("went-well");
            reveal_strlit("to-improve");
            reveal_strlit("action-items");
            assert("1"@[0] != "2"@[0]);
            assert("3"@[0] != "4"@[0]);
            assert("5"@[0] != "6"@[0]);
        }
        let mut board = RetroBoard::new("My Retro Board");
        let went_well = two_note_lane(
            "Went Well",
            "went-well",
            "1",
            "We shipped the feature on time",
            "2",
            "The team worked well together",
        );
        let to_improve = two_note_lane(
            "To Improve",
            "to-improve",
            "3",
            "We need to improve our testing",
            "4",
            "We need to improve our communication",
        );
        let action_items = two_note_lane(
            "Action Items",
            "action-items",
            "5",
            "Write more tests",
            "6",
            "Schedule a team-building event",
        );
        let ghost first = went_well@;
        let ghost second = to_improve@;
        let ghost third = action_items@;
        board.put_lane("went-well".to_owned(), went_well);
        assert(!has_key(Seq::<(Seq<char>, LaneView)>::empty(), "went-well"@));
        assert(board@.lanes =~= seq![("went-well"@, first)]);
        board.put_lane("to-improve".to_owned(), to_improve);
        proof {
            let one = seq![("went-well"@, first)];
            if has_key(one, "to-improve"@) {
                assert(one[position(one, "to-improve"@)].0 == "to-improve"@);
            }
            assert(board@.lanes =~= seq![("went-well"@, first), ("to-improve"@, second)]);
        }
        board.put_lane("action-items".to_owned(), action_items);
        proof {
            let two = seq![("went-well"@, first), ("to-improve"@, second)];
            if has_key(two, "action-items"@) {
                assert(two[position(two, "action-items"@)].0 == "action-items"@);
            }
            assert(board@.lanes =~= seq![
                ("went-well"@, first),
                ("to-improve"@, second),
                ("action-items"@, third),
            ]);
            use_type_invariant(&board);
        }
        board
    }
}

} // verus!

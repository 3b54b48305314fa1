//! What the operations on the board guarantee, proved from their definitions.

use crate::action::ActionView;
use crate::board::BoardView;
use crate::error::MutationError;
use crate::item::ItemView;
use crate::keyed::{
    has_key, lemma_position, lemma_put, lemma_put_same, lemma_without, position, put, value,
    without,
};
use crate::lane::LaneView;
use crate::ranking::precedes;
use vstd::prelude::*;

verus! {

/// Removing a note that the lane does not hold changes nothing: the board is
/// the same afterwards, with the same notes in every lane.
pub proof fn lemma_remove_absent_item(board: BoardView, lane_id: Seq<char>, id: Seq<char>)
    requires
        board.contains_lane(lane_id),
        !board.lane(lane_id).contains(id),
    ensures
        board.lane(lane_id).remove_item(id) == board.lane(lane_id),
        board.remove_item(lane_id, id) == Ok::<BoardView, MutationError>(board),
{
    lemma_put_same(board.lanes, lane_id);
}

/// Removing a note a second time changes nothing: after the first removal
/// the lane does not hold the id, and the second leaves the board as the
/// first left it.
pub proof fn lemma_remove_item_twice(board: BoardView, lane_id: Seq<char>, id: Seq<char>)
    requires
        board.wf(),
        board.contains_lane(lane_id),
    ensures
        board.remove_item(lane_id, id) is Ok,
        !board.remove_item(lane_id, id)->Ok_0.lane(lane_id).contains(id),
        board.remove_item(lane_id, id)->Ok_0.remove_item(lane_id, id) == board.remove_item(
            lane_id,
            id,
        ),
{
    let lane = board.lane(lane_id);
    let once = board.remove_item(lane_id, id)->Ok_0;
    assert(lane.wf()) by {
        let i = position(board.lanes, lane_id);
        assert(board.lanes[i].1.wf());
    }
    lemma_without(lane.entries, id);
    board.lemma_put_lane(lane_id, lane.remove_item(id));
    lemma_remove_absent_item(once, lane_id, id);
}

/// Moving a note to the front of its lane, a lane of `n` notes: the lane
/// still holds `n` notes under the same ids, with their texts and votes; the
/// note at position `i` of the lane has the rank `i`, so that the ranks are
/// the numbers from 0 up to `n`, each once; the moved note has the rank 0;
/// and of two other notes, the one that came first (by rank, and by its place
/// in the lane where the ranks were equal) still has the smaller rank.
pub proof fn lemma_reorder_to_front(board: BoardView, lane_id: Seq<char>, id: Seq<char>)
    requires
        board.wf(),
        board.contains_item(lane_id, id),
    ensures
        board.reorder_item(lane_id, id, 0) is Ok,
        ({
            let before = board.lane(lane_id);
            let after = board.reorder_item(lane_id, id, 0)->Ok_0.lane(lane_id);
            &&& after.wf()
            &&& after.len() == before.len()
            &&& forall|k: Seq<char>| #[trigger] after.contains(k) == before.contains(k)
            &&& forall|k: Seq<char>|
                before.contains(k) ==> (#[trigger] after.item(k)).body == before.item(k).body
                    && after.item(k).vote_count == before.item(k).vote_count
            &&& forall|i: int|
                0 <= i < after.len() ==> (#[trigger] after.entries[i]).1.sort_order == i
            &&& forall|k: Seq<char>|
                before.contains(k) ==> (#[trigger] after.item(k)).sort_order < before.len()
            &&& forall|a: Seq<char>, b: Seq<char>|
                before.contains(a) && before.contains(b) && a != b ==> (#[trigger] after.item(
                    a,
                )).sort_order != (#[trigger] after.item(b)).sort_order
            &&& after.item(id).sort_order == 0
            &&& forall|a: Seq<char>, b: Seq<char>|
                before.contains(a) && before.contains(b) && a != id && b != id
                    && #[trigger] precedes(before.entries, a, b) ==> after.item(a).sort_order
                    < after.item(b).sort_order
        }),
{
    let before = board.lane(lane_id);
    let moved = before.reorder(id, 0);
    assert(before.wf()) by {
        let i = position(board.lanes, lane_id);
        assert(board.lanes[i].1.wf());
    }
    before.lemma_reorder(id, 0);
    board.lemma_put_lane(lane_id, moved);
    let after = board.reorder_item(lane_id, id, 0)->Ok_0.lane(lane_id);
    assert(after == moved);
    assert forall|i: int| 0 <= i < after.len() implies (#[trigger] after.entries[i]).1.sort_order
        == i by {
        let k = after.entries[i].0;
        lemma_position(after.entries, k, i);
        assert(after.contains(k) == before.contains(k));
        assert(after.item(k) == before.item(k).ranked(position(after.entries, k) as nat));
    }
    assert forall|k: Seq<char>| before.contains(k) implies (#[trigger] after.item(k)).sort_order
        < before.len() by {
        assert(after.contains(k) == before.contains(k));
        assert(after.item(k) == before.item(k).ranked(position(after.entries, k) as nat));
    }
    assert forall|a: Seq<char>, b: Seq<char>|
        before.contains(a) && before.contains(b) && a != b implies (#[trigger] after.item(
        a,
    )).sort_order != (#[trigger] after.item(b)).sort_order by {
        assert(after.contains(a) == before.contains(a));
        assert(after.contains(b) == before.contains(b));
        assert(after.item(a) == before.item(a).ranked(position(after.entries, a) as nat));
        assert(after.item(b) == before.item(b).ranked(position(after.entries, b) as nat));
    }
    assert forall|a: Seq<char>, b: Seq<char>|
        before.contains(a) && before.contains(b) && a != id && b != id && #[trigger] precedes(
            before.entries,
            a,
            b,
        ) implies after.item(a).sort_order < after.item(b).sort_order by {
        assert(moved.item(a) == before.item(a).ranked(position(moved.entries, a) as nat));
        assert(moved.item(b) == before.item(b).ranked(position(moved.entries, b) as nat));
        assert(position(moved.entries, a) < position(moved.entries, b));
        assert(moved.contains(a) == before.contains(a));
        assert(0 <= position(moved.entries, a));
    }
    assert(after.item(id) == before.item(id).ranked(position(after.entries, id) as nat));
}

/// Merging one note into another note of its lane: the target ends with the
/// votes of both and the merged text, the lane has one note less, and the
/// source is gone. Every other note of the lane is as it was.
pub proof fn lemma_merge_conserves_votes(
    board: BoardView,
    lane_id: Seq<char>,
    source: Seq<char>,
    target: Seq<char>,
    body: Seq<char>,
)
    requires
        board.wf(),
        board.contains_item(lane_id, source),
        board.contains_item(lane_id, target),
        source != target,
    ensures
        board.merge_items(lane_id, source, target, body) is Ok,
        ({
            let before = board.lane(lane_id);
            let after = board.merge_items(lane_id, source, target, body)->Ok_0.lane(lane_id);
            &&& after.wf()
            &&& after.contains(target)
            &&& after.item(target).vote_count == before.item(target).vote_count + before.item(
                source,
            ).vote_count
            &&& after.item(target).body == body
            &&& after.item(target).sort_order == before.item(target).sort_order
            &&& after.len() == before.len() - 1
            &&& !after.contains(source)
            &&& forall|k: Seq<char>|
                k != source && k != target ==> #[trigger] after.contains(k) == before.contains(k)
            &&& forall|k: Seq<char>|
                k != source && k != target && before.contains(k) ==> #[trigger] after.item(k)
                    == before.item(k)
        }),
{
    let before = board.lane(lane_id);
    assert(before.wf()) by {
        let i = position(board.lanes, lane_id);
        assert(board.lanes[i].1.wf());
    }
    let merged = before.item(target).absorbing(before.item(source), body);
    let halfway = put(before.entries, target, merged);
    lemma_put(before.entries, target, merged);
    assert(has_key(halfway, source) == has_key(before.entries, source));
    lemma_without(halfway, source);
    board.lemma_put_lane(lane_id, before.merge(source, target, body));
    let after = board.merge_items(lane_id, source, target, body)->Ok_0.lane(lane_id);
    assert(after.entries == without(halfway, source));
    assert(has_key(after.entries, target) == has_key(halfway, target));
    assert forall|k: Seq<char>| k != source && k != target implies #[trigger] after.contains(k)
        == before.contains(k) by {
        assert(has_key(after.entries, k) == has_key(halfway, k));
        assert(has_key(halfway, k) == has_key(before.entries, k));
    }
    assert forall|k: Seq<char>|
        k != source && k != target && before.contains(k) implies #[trigger] after.item(k)
        == before.item(k) by {
        assert(has_key(halfway, k) == has_key(before.entries, k));
        assert(value(halfway, k) == value(before.entries, k));
        assert(value(after.entries, k) == value(halfway, k));
    }
}

/// Merging where the lane lacks the source or the target is turned down, and
/// would change no note: the lane that `merge` describes is the lane itself.
pub proof fn lemma_merge_needs_both(
    board: BoardView,
    lane_id: Seq<char>,
    source: Seq<char>,
    target: Seq<char>,
    body: Seq<char>,
)
    requires
        board.contains_lane(lane_id),
        !board.lane(lane_id).contains(source) || !board.lane(lane_id).contains(target),
    ensures
        board.merge_items(lane_id, source, target, body) == Err::<BoardView, MutationError>(
            MutationError::ItemNotFound,
        ),
        board.lane(lane_id).merge(source, target, body) == board.lane(lane_id),
{
}

/// Moving a note between two lanes of the board: afterwards the first lane
/// does not hold the id and the second does, with the text and votes that the
/// note had and the number of notes that the second lane held as its rank.
/// The first lane has lost nothing else, and no third lane has changed.
pub proof fn lemma_move_item(board: BoardView, from: Seq<char>, to: Seq<char>, id: Seq<char>)
    requires
        board.wf(),
        from != to,
        board.contains_item(from, id),
        board.contains_lane(to),
    ensures
        board.move_item(from, to, id) is Ok,
        ({
            let after = board.move_item(from, to, id)->Ok_0;
            &&& after.wf()
            &&& after.contains_lane(from) && after.contains_lane(to)
            &&& !after.lane(from).contains(id)
            &&& after.lane(to).contains(id)
            &&& after.lane(to).item(id) == board.lane(from).item(id).ranked(
                board.lane(to).len(),
            )
            &&& after.lane(from) == board.lane(from).remove_item(id)
            &&& after.lane(from).len() == board.lane(from).len() - 1
            &&& forall|o: Seq<char>|
                o != from && o != to ==> #[trigger] after.contains_lane(o) == board.contains_lane(
                    o,
                )
            &&& forall|o: Seq<char>|
                o != from && o != to && board.contains_lane(o) ==> #[trigger] after.lane(o)
                    == board.lane(o)
        }),
{
    let source = board.lane(from);
    let dest = board.lane(to);
    assert(source.wf() && dest.wf()) by {
        let i = position(board.lanes, from);
        assert(board.lanes[i].1.wf());
        let j = position(board.lanes, to);
        assert(board.lanes[j].1.wf());
    }
    let moved = source.item(id).ranked(dest.len());
    lemma_without(source.entries, id);
    lemma_put(dest.entries, id, moved);
    let halfway = board.put_lane(from, source.remove_item(id));
    board.lemma_put_lane(from, source.remove_item(id));
    assert(halfway.contains_lane(to) == board.contains_lane(to));
    assert(halfway.lane(to) == board.lane(to));
    halfway.lemma_put_lane(to, dest.put(id, moved));
    let after = board.move_item(from, to, id)->Ok_0;
    assert(after == halfway.put_lane(to, dest.put(id, moved)));
    assert(after.contains_lane(from) == halfway.contains_lane(from));
    assert(after.lane(from) == halfway.lane(from));
    assert forall|o: Seq<char>| o != from && o != to implies #[trigger] after.contains_lane(o)
        == board.contains_lane(o) by {
        assert(halfway.contains_lane(o) == board.contains_lane(o));
    }
    assert forall|o: Seq<char>|
        o != from && o != to && board.contains_lane(o) implies #[trigger] after.lane(o)
        == board.lane(o) by {
        assert(halfway.contains_lane(o) == board.contains_lane(o));
        assert(halfway.lane(o) == board.lane(o));
    }
}

/// Moving a note to a lane that the board does not hold leaves the board as
/// it is: the note stays in its lane.
pub proof fn lemma_move_to_missing_lane(
    board: BoardView,
    from: Seq<char>,
    to: Seq<char>,
    id: Seq<char>,
)
    requires
        board.contains_lane(from),
        !board.contains_lane(to),
    ensures
        board.move_item(from, to, id) == Ok::<BoardView, MutationError>(board),
{
}

/// A lane of a well-formed board is well-formed.
pub proof fn lemma_lane_wf(board: BoardView, lane_id: Seq<char>)
    requires
        board.wf(),
        board.contains_lane(lane_id),
    ensures
        board.lane(lane_id).wf(),
{
    let i = position(board.lanes, lane_id);
    assert(board.lanes[i].1.wf());
}

/// Every change within a lane leaves it well-formed, and no note of it with
/// fewer votes than it had: a note `k` that is in the lane before and after
/// has at least the votes it had, unless a new note was stored under its id.
/// Here `id` is the note that the change names (the source, for a merge),
/// `other` the target of a merge, `body` the new text, and `to` the position
/// that a reorder asks for.
pub proof fn lemma_lane_changes(
    lane: LaneView,
    id: Seq<char>,
    other: Seq<char>,
    body: Seq<char>,
    to: nat,
    k: Seq<char>,
)
    requires
        lane.wf(),
        lane.contains(k),
    ensures
        lane.remove_item(id).wf(),
        lane.upvote(id).wf(),
        lane.edit(id, body).wf(),
        lane.merge(id, other, body).wf(),
        lane.reorder(id, to).wf(),
        lane.add_item(id, body).wf(),
        lane.remove_item(id).contains(k) ==> lane.remove_item(id).item(k) == lane.item(k),
        lane.upvote(id).contains(k) && lane.upvote(id).item(k).vote_count >= lane.item(
            k,
        ).vote_count,
        lane.edit(id, body).contains(k) && lane.edit(id, body).item(k).vote_count == lane.item(
            k,
        ).vote_count,
        lane.merge(id, other, body).contains(k) ==> lane.merge(id, other, body).item(
            k,
        ).vote_count >= lane.item(k).vote_count,
        lane.reorder(id, to).contains(k) && lane.reorder(id, to).item(k).vote_count == lane.item(
            k,
        ).vote_count,
        k != id ==> lane.add_item(id, body).contains(k) && lane.add_item(id, body).item(k)
            == lane.item(k),
{
    lemma_without(lane.entries, id);
    lemma_put(lane.entries, id, lane.item(id).upvoted());
    lemma_put(lane.entries, id, lane.item(id).with_body(body));
    lemma_put(lane.entries, id, ItemView::fresh(body, lane.len()));
    if lane.contains(id) {
        lane.lemma_reorder(id, to);
    }
    if lane.contains(id) && lane.contains(other) {
        let merged = lane.item(other).absorbing(lane.item(id), body);
        let halfway = put(lane.entries, other, merged);
        lemma_put(lane.entries, other, merged);
        assert(has_key(halfway, k));
        lemma_without(halfway, id);
        if k != id {
            assert(has_key(without(halfway, id), k) == has_key(halfway, k));
            assert(value(without(halfway, id), k) == value(halfway, k));
        }
    }
}

/// A change that is taken leaves the board well-formed: no key is used by two
/// lanes and no id by two notes of a lane, whatever was applied.
pub proof fn lemma_apply_keeps_wf(board: BoardView, action: ActionView, fresh: Seq<char>)
    requires
        board.wf(),
        board.apply(action, fresh) is Ok,
    ensures
        board.apply(action, fresh)->Ok_0.wf(),
{
    match action {
        ActionView::AddLane { title } => {
            board.lemma_put_lane(title, LaneView::empty(title, board.title));
        },
        ActionView::AddItem { lane_id, body } => {
            lemma_lane_wf(board, lane_id);
            lemma_put(
                board.lane(lane_id).entries,
                fresh,
                ItemView::fresh(body, board.lane(lane_id).len()),
            );
            board.lemma_put_lane(lane_id, board.lane(lane_id).add_item(fresh, body));
        },
        ActionView::RemoveItem { lane_id, id } => {
            lemma_lane_wf(board, lane_id);
            lemma_without(board.lane(lane_id).entries, id);
            board.lemma_put_lane(lane_id, board.lane(lane_id).remove_item(id));
        },
        ActionView::UpvoteItem { lane_id, id } => {
            lemma_lane_wf(board, lane_id);
            lemma_lane_changes(board.lane(lane_id), id, id, id, 0, id);
            board.lemma_put_lane(lane_id, board.lane(lane_id).upvote(id));
        },
        ActionView::EditItem { lane_id, id, body } => {
            lemma_lane_wf(board, lane_id);
            lemma_lane_changes(board.lane(lane_id), id, id, body, 0, id);
            board.lemma_put_lane(lane_id, board.lane(lane_id).edit(id, body));
        },
        ActionView::MergeItems { lane_id, source_id, target_id, merged_body } => {
            lemma_lane_wf(board, lane_id);
            lemma_lane_changes(
                board.lane(lane_id),
                source_id,
                target_id,
                merged_body,
                0,
                source_id,
            );
            board.lemma_put_lane(
                lane_id,
                board.lane(lane_id).merge(source_id, target_id, merged_body),
            );
        },
        ActionView::ReorderItem { lane_id, item_id, new_position } => {
            lemma_lane_wf(board, lane_id);
            if board.lane(lane_id).contains(item_id) {
                board.lane(lane_id).lemma_reorder(item_id, new_position);
            }
            board.lemma_put_lane(lane_id, board.lane(lane_id).reorder(item_id, new_position));
        },
        ActionView::MoveItem { from_lane_id, to_lane_id, item_id } => {
            if from_lane_id != to_lane_id && board.contains_lane(to_lane_id)
                && board.contains_item(from_lane_id, item_id) {
                lemma_move_item(board, from_lane_id, to_lane_id, item_id);
            }
        },
    }
}

/// `action` stores a new note under the id `id` of the lane `lane_id`, in
/// the place of the note that the lane may hold there: it adds a note under
/// that id, or moves one there from another lane.
pub open spec fn overwrites(
    board: BoardView,
    action: ActionView,
    fresh: Seq<char>,
    lane_id: Seq<char>,
    id: Seq<char>,
) -> bool {
    match action {
        ActionView::AddItem { lane_id: target, body } => target == lane_id && fresh == id,
        ActionView::MoveItem { from_lane_id, to_lane_id, item_id } => to_lane_id == lane_id
            && item_id == id && from_lane_id != to_lane_id && board.contains_item(
            from_lane_id,
            item_id,
        ),
        _ => false,
    }
}

/// Votes only grow: a note that is on the board before and after a change has
/// at least the votes it had, unless the change stored a new note under its
/// id.
pub proof fn lemma_votes_never_decrease(
    board: BoardView,
    action: ActionView,
    fresh: Seq<char>,
    lane_id: Seq<char>,
    id: Seq<char>,
)
    requires
        board.wf(),
        board.apply(action, fresh) is Ok,
        board.contains_item(lane_id, id),
        board.apply(action, fresh)->Ok_0.contains_item(lane_id, id),
        !overwrites(board, action, fresh, lane_id, id),
    ensures
        board.apply(action, fresh)->Ok_0.lane(lane_id).item(id).vote_count >= board.lane(
            lane_id,
        ).item(id).vote_count,
{
    let after = board.apply(action, fresh)->Ok_0;
    let lane = board.lane(lane_id);
    lemma_lane_wf(board, lane_id);
    match action {
        ActionView::AddLane { title } => {
            board.lemma_put_lane(title, LaneView::empty(title, board.title));
            if title == lane_id {
                assert(after.lane(lane_id).entries.len() == 0);
            }
        },
        ActionView::AddItem { lane_id: target, body } => {
            lemma_lane_wf(board, target);
            if target == lane_id {
                lemma_lane_changes(lane, fresh, fresh, body, 0, id);
            }
            lemma_put(
                board.lane(target).entries,
                fresh,
                ItemView::fresh(body, board.lane(target).len()),
            );
            board.lemma_put_lane(target, board.lane(target).add_item(fresh, body));
        },
        ActionView::RemoveItem { lane_id: target, id: removed } => {
            lemma_lane_wf(board, target);
            lemma_without(board.lane(target).entries, removed);
            board.lemma_put_lane(target, board.lane(target).remove_item(removed));
            if target == lane_id {
                lemma_lane_changes(lane, removed, removed, removed, 0, id);
            }
        },
        ActionView::UpvoteItem { lane_id: target, id: voted } => {
            lemma_lane_wf(board, target);
            lemma_lane_changes(board.lane(target), voted, voted, voted, 0, voted);
            board.lemma_put_lane(target, board.lane(target).upvote(voted));
            if target == lane_id {
                lemma_lane_changes(lane, voted, voted, voted, 0, id);
            }
        },
        ActionView::EditItem { lane_id: target, id: edited, body } => {
            lemma_lane_wf(board, target);
            lemma_lane_changes(board.lane(target), edited, edited, body, 0, edited);
            board.lemma_put_lane(target, board.lane(target).edit(edited, body));
            if target == lane_id {
                lemma_lane_changes(lane, edited, edited, body, 0, id);
            }
        },
        ActionView::MergeItems { lane_id: target, source_id, target_id, merged_body } => {
            lemma_lane_wf(board, target);
            lemma_lane_changes(
                board.lane(target),
                source_id,
                target_id,
                merged_body,
                0,
                source_id,
            );
            board.lemma_put_lane(
                target,
                board.lane(target).merge(source_id, target_id, merged_body),
            );
            if target == lane_id {
                lemma_lane_changes(lane, source_id, target_id, merged_body, 0, id);
            }
        },
        ActionView::ReorderItem { lane_id: target, item_id, new_position } => {
            lemma_lane_wf(board, target);
            if board.lane(target).contains(item_id) {
                board.lane(target).lemma_reorder(item_id, new_position);
            }
            board.lemma_put_lane(target, board.lane(target).reorder(item_id, new_position));
            if target == lane_id {
                lemma_lane_changes(lane, item_id, item_id, item_id, new_position, id);
            }
        },
        ActionView::MoveItem { from_lane_id, to_lane_id, item_id } => {
            if from_lane_id != to_lane_id && board.contains_lane(to_lane_id)
                && board.contains_item(from_lane_id, item_id) {
                lemma_move_item(board, from_lane_id, to_lane_id, item_id);
                if lane_id == from_lane_id {
                    lemma_lane_changes(lane, item_id, item_id, item_id, 0, id);
                } else if lane_id == to_lane_id {
                    lemma_put(
                        lane.entries,
                        item_id,
                        board.lane(from_lane_id).item(item_id).ranked(lane.len()),
                    );
                }
            }
        },
    }
}

} // verus!

//! A lane: a titled column of notes, each under an id of its own.

use crate::error::MutationError;
use crate::ident::{fresh_item_id, is_random_uuid_text};
use crate::item::{ItemView, RetroItem};
use crate::keyed::{
    distinct_keys, find, has_key, lemma_insert, lemma_position, lemma_put, lemma_without,
    lemma_without_position, pairs_view, position, put, value, without,
};
use crate::ranking::{
    by_sort_order, lemma_by_sort_order, lemma_renumbered, precedes, renumber, renumbered,
    sort_by_order,
};
use vstd::prelude::*;

verus! {

/// What a lane is, mathematically: a title, a theme tag, and its notes, each
/// paired with its id, in the order in which the lane holds them.
pub struct LaneView {
    pub title: Seq<char>,
    pub theme: Seq<char>,
    pub entries: Seq<(Seq<char>, ItemView)>,
}

impl LaneView {
    /// A lane without notes.
    pub open spec fn empty(title: Seq<char>, theme: Seq<char>) -> LaneView {
        LaneView { title, theme, entries: Seq::empty() }
    }

    /// No id is used by two notes.
    pub open spec fn wf(self) -> bool {
        distinct_keys(self.entries)
    }

    /// The number of notes.
    pub open spec fn len(self) -> nat {
        self.entries.len()
    }

    /// A note is stored under `id`.
    pub open spec fn contains(self, id: Seq<char>) -> bool {
        has_key(self.entries, id)
    }

    /// The note stored under `id`. Unspecified where there is none.
    pub open spec fn item(self, id: Seq<char>) -> ItemView {
        value(self.entries, id)
    }

    /// The same lane with other notes.
    pub open spec fn with_entries(self, entries: Seq<(Seq<char>, ItemView)>) -> LaneView {
        LaneView { entries, ..self }
    }

    /// The lane with `item` stored under `id`: in the place of the note that
    /// had this id, or behind all others.
    pub open spec fn put(self, id: Seq<char>, item: ItemView) -> LaneView {
        self.with_entries(put(self.entries, id, item))
    }

    /// The lane with a new note under `id`: no votes, and the number of notes
    /// held so far as its rank.
    pub open spec fn add_item(self, id: Seq<char>, body: Seq<char>) -> LaneView {
        self.put(id, ItemView::fresh(body, self.len()))
    }

    /// The lane without the note under `id`; the same lane where there is
    /// none. The ranks of the other notes stay as they are.
    pub open spec fn remove_item(self, id: Seq<char>) -> LaneView {
        self.with_entries(without(self.entries, id))
    }

    /// The lane with one more vote on the note under `id`; the same lane
    /// where there is none.
    pub open spec fn upvote(self, id: Seq<char>) -> LaneView {
        if self.contains(id) {
            self.put(id, self.item(id).upvoted())
        } else {
            self
        }
    }

    /// The lane with `body` as the text of the note under `id`; the same lane
    /// where there is none.
    pub open spec fn edit(self, id: Seq<char>, body: Seq<char>) -> LaneView {
        if self.contains(id) {
            self.put(id, self.item(id).with_body(body))
        } else {
            self
        }
    }

    /// The lane after the note under `source` was merged into the one under
    /// `target`: the target gets `body` and the votes of both, the source
    /// leaves. The same lane where either is missing.
    pub open spec fn merge(
        self,
        source: Seq<char>,
        target: Seq<char>,
        body: Seq<char>,
    ) -> LaneView {
        if self.contains(source) && self.contains(target) {
            self.put(target, self.item(target).absorbing(self.item(source), body)).remove_item(
                source,
            )
        } else {
            self
        }
    }

    /// The place that a note asked to go to `new_position` gets among
    /// `others` notes: that position, or the end where it lies beyond.
    pub open spec fn landing(new_position: nat, others: nat) -> int {
        if new_position < others {
            new_position as int
        } else {
            others as int
        }
    }

    /// The notes of a lane that holds `id`, in the order of their ranks, with
    /// the note under `id` taken out and put back at `new_position` (at the
    /// end, where the position lies beyond it).
    pub open spec fn reorder_placed(self, id: Seq<char>, new_position: nat) -> Seq<
        (Seq<char>, ItemView),
    > {
        let ranked = by_sort_order(self.entries);
        let from = position(ranked, id);
        let others = ranked.remove(from);
        others.insert(Self::landing(new_position, others.len()), ranked[from])
    }

    /// The lane after the note under `id` was moved to `new_position`: the
    /// notes stand as `reorder_placed` lists them, and every note has its
    /// place as its rank. The same lane where there is no such note.
    pub open spec fn reorder(self, id: Seq<char>, new_position: nat) -> LaneView {
        if self.contains(id) {
            self.with_entries(renumbered(self.reorder_placed(id, new_position)))
        } else {
            self
        }
    }
}

impl LaneView {
    /// Putting the moved note back gives a sequence with the ids and notes of
    /// the lane, the moved note at its landing place.
    proof fn lemma_reorder_placed(self, id: Seq<char>, new_position: nat)
        requires
            self.wf(),
            self.contains(id),
        ensures
            distinct_keys(self.reorder_placed(id, new_position)),
            self.reorder_placed(id, new_position).len() == self.len(),
            position(self.reorder_placed(id, new_position), id) == Self::landing(
                new_position,
                (self.len() - 1) as nat,
            ),
    {
        let s = self.entries;
        let ranked = by_sort_order(s);
        lemma_by_sort_order(s);
        assert(has_key(ranked, id) == has_key(s, id));
        let from = position(ranked, id);
        let others = ranked.remove(from);
        assert(others == without(ranked, id));
        lemma_without(ranked, id);
        lemma_insert(others, Self::landing(new_position, others.len()), ranked[from]);
    }

    /// The note under `k` is in the sequence that `reorder` renumbers, as it
    /// is in the lane; a key that the lane lacks is not.
    proof fn lemma_reorder_placed_key(self, id: Seq<char>, new_position: nat, k: Seq<char>)
        requires
            self.wf(),
            self.contains(id),
        ensures
            has_key(self.reorder_placed(id, new_position), k) == self.contains(k),
            self.contains(k) ==> value(self.reorder_placed(id, new_position), k) == self.item(k),
    {
        let s = self.entries;
        let ranked = by_sort_order(s);
        lemma_by_sort_order(s);
        assert(has_key(ranked, id) == has_key(s, id));
        assert(has_key(ranked, k) == has_key(s, k));
        assert(value(ranked, id) == value(s, id));
        if has_key(s, k) {
            assert(value(ranked, k) == value(s, k));
        }
        let from = position(ranked, id);
        let others = ranked.remove(from);
        assert(others == without(ranked, id));
        lemma_without(ranked, id);
        lemma_insert(others, Self::landing(new_position, others.len()), ranked[from]);
    }

    /// Of two notes other than the moved one, the one that comes first in
    /// the lane stands first in the sequence that `reorder` renumbers.
    proof fn lemma_reorder_placed_pair(
        self,
        id: Seq<char>,
        new_position: nat,
        a: Seq<char>,
        b: Seq<char>,
    )
        requires
            self.wf(),
            self.contains(id),
            self.contains(a),
            self.contains(b),
            a != id,
            b != id,
            precedes(self.entries, a, b),
        ensures
            position(self.reorder_placed(id, new_position), a) < position(
                self.reorder_placed(id, new_position),
                b,
            ),
    {
        let s = self.entries;
        let ranked = by_sort_order(s);
        let from = position(ranked, id);
        let others = ranked.remove(from);
        let to = Self::landing(new_position, others.len());
        assert(has_key(ranked, a) && has_key(ranked, b) && has_key(ranked, id) && position(
            ranked,
            a,
        ) < position(ranked, b)) by {
            lemma_by_sort_order(s);
            assert(has_key(ranked, a) == has_key(s, a));
            assert(has_key(ranked, b) == has_key(s, b));
            assert(has_key(ranked, id) == has_key(s, id));
            let pa = position(ranked, a);
            let pb = position(ranked, b);
            assert(ranked[pa].0 == a && ranked[pb].0 == b);
            if pb < pa {
                assert(precedes(s, ranked[pb].0, ranked[pa].0));
            }
        }
        assert(distinct_keys(ranked)) by {
            lemma_by_sort_order(s);
        }
        assert(others == without(ranked, id));
        assert(has_key(others, a) && has_key(others, b) && distinct_keys(others) && !has_key(
            others,
            id,
        )) by {
            lemma_without(ranked, id);
        }
        lemma_without_position(ranked, id, a);
        lemma_without_position(ranked, id, b);
        assert(position(others, a) < position(others, b));
        lemma_insert(others, to, ranked[from]);
    }

    /// What moving a note does to a lane: the ids stay the same; every note
    /// keeps its text and votes and gets its position as its rank; the moved
    /// note stands where it was asked to, or at the end; and of two other
    /// notes, the one that came first still comes first.
    pub proof fn lemma_reorder(self, id: Seq<char>, new_position: nat)
        requires
            self.wf(),
            self.contains(id),
        ensures
            self.reorder(id, new_position).wf(),
            self.reorder(id, new_position).len() == self.len(),
            forall|k: Seq<char>| #[trigger]
                self.reorder(id, new_position).contains(k) == self.contains(k),
            forall|k: Seq<char>|
                self.contains(k) ==> #[trigger] self.reorder(id, new_position).item(k)
                    == self.item(k).ranked(
                    position(self.reorder(id, new_position).entries, k) as nat,
                ),
            position(self.reorder(id, new_position).entries, id) == Self::landing(
                new_position,
                (self.len() - 1) as nat,
            ),
            forall|a: Seq<char>, b: Seq<char>|
                self.contains(a) && self.contains(b) && a != id && b != id && #[trigger] precedes(
                    self.entries,
                    a,
                    b,
                ) ==> position(self.reorder(id, new_position).entries, a) < position(
                    self.reorder(id, new_position).entries,
                    b,
                ),
    {
        let placed = self.reorder_placed(id, new_position);
        let after = self.reorder(id, new_position);
        self.lemma_reorder_placed(id, new_position);
        assert(after.entries == renumbered(placed));
        assert(after.wf() && after.len() == self.len()) by {
            lemma_renumbered(placed);
        }
        assert forall|k: Seq<char>| #[trigger] after.contains(k) == self.contains(k) by {
            self.lemma_reorder_placed_key(id, new_position, k);
            lemma_renumbered(placed);
            assert(has_key(renumbered(placed), k) == has_key(placed, k));
        }
        assert forall|k: Seq<char>| self.contains(k) implies #[trigger] after.item(k) == self.item(
            k,
        ).ranked(position(after.entries, k) as nat) by {
            self.lemma_reorder_placed_key(id, new_position, k);
            lemma_renumbered(placed);
            assert(position(renumbered(placed), k) == position(placed, k));
        }
        assert(position(after.entries, id) == Self::landing(
            new_position,
            (self.len() - 1) as nat,
        )) by {
            self.lemma_reorder_placed_key(id, new_position, id);
            lemma_renumbered(placed);
            assert(position(renumbered(placed), id) == position(placed, id));
        }
        assert forall|a: Seq<char>, b: Seq<char>|
            self.contains(a) && self.contains(b) && a != id && b != id && #[trigger] precedes(
                self.entries,
                a,
                b,
            ) implies position(after.entries, a) < position(after.entries, b) by {
            self.lemma_reorder_placed_key(id, new_position, a);
            self.lemma_reorder_placed_key(id, new_position, b);
            self.lemma_reorder_placed_pair(id, new_position, a, b);
            lemma_renumbered(placed);
            assert(position(renumbered(placed), a) == position(placed, a));
            assert(position(renumbered(placed), b) == position(placed, b));
        }
    }
}

/// A titled column of notes.
#[derive(Debug)]
pub struct RetroLane {
    title: String,
    theme: String,
    items: Vec<(String, RetroItem)>,
}

impl View for RetroLane {
    type V = LaneView;

    closed spec fn view(&self) -> LaneView {
        LaneView { title: self.title@, theme: self.theme@, entries: pairs_view(self.items@) }
    }
}

impl RetroLane {
    /// No id is used by two notes of the lane.
    #[verifier::type_invariant]
    pub open spec fn well_formed(self) -> bool {
        self@.wf()
    }

    /// A lane without notes.
    pub fn new(title: &str, theme: &str) -> (lane: RetroLane)
        ensures
            lane@ == LaneView::empty(title@, theme@),
            lane@.wf(),
    {
        let lane = RetroLane {
            title: title.to_owned(),
            theme: theme.to_owned(),
            items: Vec::new(),
        };
        assert(lane@.entries =~= Seq::empty());
        lane
    }

    /// The lane's title.
    pub fn title(&self) -> (title: &str)
        ensures
            title@ == self@.title,
    {
        self.title.as_str()
    }

    /// The lane's theme tag.
    pub fn theme(&self) -> (theme: &str)
        ensures
            theme@ == self@.theme,
    {
        self.theme.as_str()
    }

    /// The notes with their ids, in the order in which the lane holds them.
    pub fn items(&self) -> (items: &Vec<(String, RetroItem)>)
        ensures
            pairs_view(items@) == self@.entries,
            self@.wf(),
    {
        proof {
            use_type_invariant(&*self);
        }
        &self.items
    }

    /// The number of notes.
    pub fn len(&self) -> (n: usize)
        ensures
            n == self@.len(),
    {
        self.items.len()
    }

    /// The note stored under `id`, if there is one.
    pub fn item(&self, id: &str) -> (found: Option<&RetroItem>)
        ensures
            found is Some <==> self@.contains(id@),
            found is Some ==> found->0@ == self@.item(id@),
    {
        proof {
            use_type_invariant(&*self);
        }
        let key = id.to_owned();
        match find(&self.items, &key) {
            Some(i) => Some(&self.items[i].1),
            None => None,
        }
    }

    /// Stores `item` under `id`, in the place of the note that had this id
    /// or, where there was none, behind all others.
    pub fn put_item(&mut self, id: String, item: RetroItem)
        ensures
            final(self)@ == old(self)@.put(id@, item@),
            final(self)@.wf(),
    {
        proof {
            use_type_invariant(&*self);
            lemma_put(self@.entries, id@, item@);
        }
        let found = find(&self.items, &id);
        // The notes leave the lane while they change, so that the lane is
        // well-formed at every step.
        let mut items: Vec<(String, RetroItem)> = Vec::new();
        std::mem::swap(&mut items, &mut self.items);
        match found {
            Some(i) => {
                items[i] = (id, item);
            },
            None => {
                items.push((id, item));
            },
        }
        assert(pairs_view(items@) =~= put(old(self)@.entries, id@, item@));
        self.items = items;
    }

    /// Adds a note with the text `body` under `id`: no votes, and the number
    /// of notes held so far as its rank. A note that had this id is replaced.
    pub fn add_item_with_id(&mut self, id: String, body: &str)
        ensures
            final(self)@ == old(self)@.add_item(id@, body@),
            final(self)@.wf(),
    {
        let order = self.items.len() as u64;
        self.put_item(id, RetroItem::new(body.to_owned(), 0, order));
    }

    /// Adds a note with the text `body` under an id drawn for it.
    pub fn add_item(&mut self, body: &str)
        ensures
            exists|id: Seq<char>|
                is_random_uuid_text(id) && final(self)@ == #[trigger] old(self)@.add_item(
                    id,
                    body@,
                ),
            final(self)@.wf(),
    {
        let id = fresh_item_id();
        let ghost drawn = id@;
        self.add_item_with_id(id, body);
        assert(is_random_uuid_text(drawn) && self@ == old(self)@.add_item(drawn, body@));
    }

    /// Takes the note under `id` out of the lane and hands it back; leaves
    /// the lane as it is where there is none.
    pub fn take_item(&mut self, id: &str) -> (taken: Option<RetroItem>)
        ensures
            final(self)@ == old(self)@.remove_item(id@),
            final(self)@.wf(),
            taken is Some <==> old(self)@.contains(id@),
            taken is Some ==> taken->0@ == old(self)@.item(id@),
    {
        proof {
            use_type_invariant(&*self);
            lemma_without(self@.entries, id@);
        }
        let key = id.to_owned();
        match find(&self.items, &key) {
            Some(i) => {
                let mut items: Vec<(String, RetroItem)> = Vec::new();
                std::mem::swap(&mut items, &mut self.items);
                let entry = items.remove(i);
                assert(pairs_view(items@) =~= without(old(self)@.entries, id@));
                self.items = items;
                Some(entry.1)
            },
            None => None,
        }
    }

    /// Removes the note under `id`, if there is one.
    pub fn remove_item(&mut self, id: &str)
        ensures
            final(self)@ == old(self)@.remove_item(id@),
            final(self)@.wf(),
    {
        let _ = self.take_item(id);
    }
}

impl RetroLane {
    /// Adds one vote to the note under `id`.
    pub fn increment_vote(&mut self, id: &str) -> (done: Result<(), MutationError>)
        requires
            old(self)@.contains(id@) ==> old(self)@.item(id@).vote_count < u64::MAX,
        ensures
            final(self)@ == old(self)@.upvote(id@),
            final(self)@.wf(),
            old(self)@.contains(id@) ==> done == Ok::<(), MutationError>(()),
            !old(self)@.contains(id@) ==> done == Err::<(), MutationError>(
                MutationError::ItemNotFound,
            ),
    {
        proof {
            use_type_invariant(&*self);
        }
        let key = id.to_owned();
        match find(&self.items, &key) {
            Some(i) => {
                proof {
                    lemma_put(self@.entries, id@, self@.item(id@).upvoted());
                }
                let mut items: Vec<(String, RetroItem)> = Vec::new();
                std::mem::swap(&mut items, &mut self.items);
                items[i].1.increment_vote();
                assert(pairs_view(items@) =~= put(
                    old(self)@.entries,
                    id@,
                    old(self)@.item(id@).upvoted(),
                ));
                self.items = items;
                Ok(())
            },
            None => Err(MutationError::ItemNotFound),
        }
    }

    /// Replaces the text of the note under `id`.
    pub fn edit_item(&mut self, id: &str, body: &str) -> (done: Result<(), MutationError>)
        ensures
            final(self)@ == old(self)@.edit(id@, body@),
            final(self)@.wf(),
            old(self)@.contains(id@) ==> done == Ok::<(), MutationError>(()),
            !old(self)@.contains(id@) ==> done == Err::<(), MutationError>(
                MutationError::ItemNotFound,
            ),
    {
        proof {
            use_type_invariant(&*self);
        }
        let key = id.to_owned();
        match find(&self.items, &key) {
            Some(i) => {
                proof {
                    lemma_put(self@.entries, id@, self@.item(id@).with_body(body@));
                }
                let mut items: Vec<(String, RetroItem)> = Vec::new();
                std::mem::swap(&mut items, &mut self.items);
                items[i].1.body = body.to_owned();
                assert(pairs_view(items@) =~= put(
                    old(self)@.entries,
                    id@,
                    old(self)@.item(id@).with_body(body@),
                ));
                self.items = items;
                Ok(())
            },
            None => Err(MutationError::ItemNotFound),
        }
    }

    /// Merges the note under `source_id` into the one under `target_id`: the
    /// target gets the text `merged_body` and the votes of both, the source
    /// leaves the lane. Where either is missing nothing changes.
    pub fn merge_items(&mut self, source_id: &str, target_id: &str, merged_body: &str) -> (done:
        Result<(), MutationError>)
        requires
            old(self)@.contains(source_id@) && old(self)@.contains(target_id@) ==> old(self)@.item(
                target_id@,
            ).vote_count + old(self)@.item(source_id@).vote_count <= u64::MAX,
        ensures
            final(self)@ == old(self)@.merge(source_id@, target_id@, merged_body@),
            final(self)@.wf(),
            old(self)@.contains(source_id@) && old(self)@.contains(target_id@) ==> done == Ok::<
                (),
                MutationError,
            >(()),
            !(old(self)@.contains(source_id@) && old(self)@.contains(target_id@)) ==> done == Err::<
                (),
                MutationError,
            >(MutationError::ItemNotFound),
    {
        proof {
            use_type_invariant(&*self);
        }
        let source_key = source_id.to_owned();
        let target_key = target_id.to_owned();
        let source = find(&self.items, &source_key);
        let target = find(&self.items, &target_key);
        match (source, target) {
            (Some(si), Some(ti)) => {
                let ghost before = self@.entries;
                let ghost merged = self@.item(target_id@).absorbing(
                    self@.item(source_id@),
                    merged_body@,
                );
                proof {
                    lemma_put(before, target_id@, merged);
                    lemma_without(put(before, target_id@, merged), source_id@);
                }
                let mut items: Vec<(String, RetroItem)> = Vec::new();
                std::mem::swap(&mut items, &mut self.items);
                let votes = items[si].1.vote_count;
                items[ti].1.body = merged_body.to_owned();
                items[ti].1.vote_count += votes;
                assert(pairs_view(items@) =~= put(before, target_id@, merged));
                proof {
                    lemma_position(pairs_view(items@), source_id@, si as int);
                }
                let _ = items.remove(si);
                assert(pairs_view(items@) =~= without(
                    put(before, target_id@, merged),
                    source_id@,
                ));
                self.items = items;
                Ok(())
            },
            _ => Err(MutationError::ItemNotFound),
        }
    }

    /// Moves the note under `id` to `new_position` among the notes of the
    /// lane, counted in the order of their ranks, and gives every note its
    /// new place as its rank. Leaves the lane as it is where there is no
    /// such note.
    pub fn reorder_item(&mut self, id: &str, new_position: u64)
        ensures
            final(self)@ == old(self)@.reorder(id@, new_position as nat),
            final(self)@.wf(),
    {
        proof {
            use_type_invariant(&*self);
        }
        let key = id.to_owned();
        if find(&self.items, &key).is_none() {
            return ;
        }
        let ghost before = self@.entries;
        proof {
            self@.lemma_reorder(id@, new_position as nat);
            lemma_by_sort_order(before);
        }
        let mut items: Vec<(String, RetroItem)> = Vec::new();
        std::mem::swap(&mut items, &mut self.items);
        let mut ranked = sort_by_order(items);
        assert(has_key(pairs_view(ranked@), id@) == has_key(before, id@));
        match find(&ranked, &key) {
            Some(from) => {
                let entry = ranked.remove(from);
                let to: usize = if new_position < ranked.len() as u64 {
                    new_position as usize
                } else {
                    ranked.len()
                };
                assert(pairs_view(ranked@) =~= by_sort_order(before).remove(from as int));
                ranked.insert(to, entry);
                assert(pairs_view(ranked@) =~= by_sort_order(before).remove(from as int).insert(
                    to as int,
                    by_sort_order(before)[from as int],
                ));
                renumber(&mut ranked);
                self.items = ranked;
            },
            None => unreached(),
        }
    }
}

} // verus!

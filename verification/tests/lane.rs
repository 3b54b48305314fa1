use retroboard::{MutationError, RetroItem, RetroLane};

fn ranks(lane: &RetroLane) -> Vec<(String, u64)> {
    lane.items().iter().map(|(id, item)| (id.clone(), item.sort_order)).collect()
}

fn lane_of(notes: &[(&str, u64, u64)]) -> RetroLane {
    let mut lane = RetroLane::new("Lane", "Theme");
    for (id, votes, order) in notes {
        lane.put_item(id.to_string(), RetroItem::new(format!("note {}", id), *votes, *order));
    }
    lane
}

#[test]
fn test_add_item() {
    let mut lane = RetroLane::new("Test Lane", "Test Theme");

    lane.add_item("Test Item");
    assert_eq!(lane.items().len(), 1);
    let item = &lane.items()[0].1;
    assert_eq!(item.body, "Test Item");
    assert_eq!(item.vote_count, 0);
    assert_eq!(item.sort_order, 0);
}

#[test]
fn test_remove_item() {
    let mut lane = RetroLane::new("Test Lane", "Test Theme");

    lane.add_item("Test Item");
    let item_id = lane.items()[0].0.clone();
    lane.remove_item(&item_id);
    assert_eq!(lane.items().len(), 0);
}

#[test]
fn test_increment_vote() {
    let mut lane = RetroLane::new("Test Lane", "Test Theme");

    lane.add_item("Test Item");
    let item_id = lane.items()[0].0.clone();
    lane.increment_vote(&item_id).unwrap();
    let item = lane.item(&item_id).unwrap();
    assert_eq!(item.vote_count, 1);
}

#[test]
fn new_lane_is_empty() {
    let lane = RetroLane::new("Test Lane", "Test Theme");
    assert_eq!(lane.title(), "Test Lane");
    assert_eq!(lane.theme(), "Test Theme");
    assert_eq!(lane.len(), 0);
    assert!(lane.item("1").is_none());
}

#[test]
fn drawn_ids_are_uuids() {
    let mut lane = RetroLane::new("Test Lane", "Test Theme");
    lane.add_item("first");
    lane.add_item("second");
    assert_eq!(lane.len(), 2);
    for (id, _) in lane.items().iter() {
        let chars: Vec<char> = id.chars().collect();
        assert_eq!(chars.len(), 36);
        for (i, c) in chars.iter().enumerate() {
            if i == 8 || i == 13 || i == 18 || i == 23 {
                assert_eq!(*c, '-');
            } else {
                assert!(matches!(*c, '0'..='9' | 'a'..='f'));
            }
        }
        assert_eq!(chars[14], '4');
    }
    assert_ne!(lane.items()[0].0, lane.items()[1].0);
}

#[test]
fn added_items_are_ranked_by_count() {
    let mut lane = RetroLane::new("Lane", "Theme");
    lane.add_item_with_id("a".to_string(), "first");
    lane.add_item_with_id("b".to_string(), "second");
    lane.add_item_with_id("c".to_string(), "third");
    assert_eq!(
        ranks(&lane),
        vec![("a".to_string(), 0), ("b".to_string(), 1), ("c".to_string(), 2)]
    );
    assert_eq!(lane.item("b").unwrap().body, "second");
    assert_eq!(lane.item("b").unwrap().vote_count, 0);
}

#[test]
fn removal_leaves_gaps_in_the_ranks() {
    let mut lane = RetroLane::new("Lane", "Theme");
    lane.add_item_with_id("a".to_string(), "first");
    lane.add_item_with_id("b".to_string(), "second");
    lane.add_item_with_id("c".to_string(), "third");
    lane.remove_item("b");
    assert_eq!(ranks(&lane), vec![("a".to_string(), 0), ("c".to_string(), 2)]);
    lane.add_item_with_id("d".to_string(), "fourth");
    assert_eq!(
        ranks(&lane),
        vec![("a".to_string(), 0), ("c".to_string(), 2), ("d".to_string(), 2)]
    );
}

#[test]
fn adding_under_a_used_id_replaces_the_note() {
    let mut lane = lane_of(&[("a", 3, 0), ("b", 1, 1)]);
    lane.add_item_with_id("a".to_string(), "again");
    assert_eq!(lane.len(), 2);
    let item = lane.item("a").unwrap();
    assert_eq!(item.body, "again");
    assert_eq!(item.vote_count, 0);
    assert_eq!(item.sort_order, 2);
    assert_eq!(lane.items()[0].0, "a");
}

#[test]
fn removing_an_absent_id_changes_nothing() {
    let mut lane = lane_of(&[("a", 3, 0), ("b", 1, 1)]);
    lane.remove_item("zz");
    assert_eq!(lane.len(), 2);
    assert_eq!(ranks(&lane), vec![("a".to_string(), 0), ("b".to_string(), 1)]);
    assert_eq!(lane.item("a").unwrap().vote_count, 3);
    lane.remove_item("a");
    lane.remove_item("a");
    assert_eq!(ranks(&lane), vec![("b".to_string(), 1)]);
}

#[test]
fn take_item_hands_the_note_back() {
    let mut lane = lane_of(&[("a", 3, 0), ("b", 1, 1)]);
    let taken = lane.take_item("a").unwrap();
    assert_eq!(taken.body, "note a");
    assert_eq!(taken.vote_count, 3);
    assert!(lane.take_item("a").is_none());
    assert_eq!(lane.len(), 1);
}

#[test]
fn voting_on_an_absent_note_is_an_error() {
    let mut lane = lane_of(&[("a", 3, 0)]);
    assert_eq!(lane.increment_vote("b"), Err(MutationError::ItemNotFound));
    assert_eq!(lane.increment_vote("a"), Ok(()));
    assert_eq!(lane.item("a").unwrap().vote_count, 4);
}

#[test]
fn item_increment_vote_adds_one() {
    let mut item = RetroItem::new("text".to_string(), 41, 7);
    item.increment_vote();
    assert_eq!(item.vote_count, 42);
    assert_eq!(item.sort_order, 7);
    assert_eq!(item.body, "text");
}

#[test]
fn editing_replaces_the_text_only() {
    let mut lane = lane_of(&[("a", 3, 5)]);
    assert_eq!(lane.edit_item("a", "new text"), Ok(()));
    let item = lane.item("a").unwrap();
    assert_eq!(item.body, "new text");
    assert_eq!(item.vote_count, 3);
    assert_eq!(item.sort_order, 5);
    assert_eq!(lane.edit_item("b", "x"), Err(MutationError::ItemNotFound));
}

#[test]
fn merging_adds_the_votes_and_drops_the_source() {
    let mut lane = lane_of(&[("a", 3, 0), ("b", 4, 1), ("c", 5, 2)]);
    assert_eq!(lane.merge_items("a", "c", "both"), Ok(()));
    assert_eq!(lane.len(), 2);
    assert!(lane.item("a").is_none());
    let target = lane.item("c").unwrap();
    assert_eq!(target.vote_count, 8);
    assert_eq!(target.body, "both");
    assert_eq!(target.sort_order, 2);
    assert_eq!(lane.item("b").unwrap().vote_count, 4);
}

#[test]
fn merging_with_a_missing_note_changes_nothing() {
    let mut lane = lane_of(&[("a", 3, 0), ("b", 4, 1)]);
    assert_eq!(lane.merge_items("a", "zz", "both"), Err(MutationError::ItemNotFound));
    assert_eq!(lane.merge_items("zz", "a", "both"), Err(MutationError::ItemNotFound));
    assert_eq!(lane.len(), 2);
    assert_eq!(lane.item("a").unwrap().vote_count, 3);
    assert_eq!(lane.item("a").unwrap().body, "note a");
    assert_eq!(lane.item("b").unwrap().vote_count, 4);
}

#[test]
fn merging_a_note_into_itself_removes_it() {
    let mut lane = lane_of(&[("a", 3, 0), ("b", 4, 1)]);
    assert_eq!(lane.merge_items("a", "a", "both"), Ok(()));
    assert_eq!(lane.len(), 1);
    assert!(lane.item("a").is_none());
}

#[test]
fn reorder_to_front_renumbers_the_lane() {
    let mut lane = lane_of(&[("a", 0, 0), ("b", 0, 1), ("c", 0, 2), ("d", 0, 3)]);
    lane.reorder_item("c", 0);
    assert_eq!(
        ranks(&lane),
        vec![
            ("c".to_string(), 0),
            ("a".to_string(), 1),
            ("b".to_string(), 2),
            ("d".to_string(), 3)
        ]
    );
}

#[test]
fn reorder_to_the_middle() {
    let mut lane = lane_of(&[("a", 0, 0), ("b", 0, 1), ("c", 0, 2), ("d", 0, 3)]);
    lane.reorder_item("a", 2);
    assert_eq!(
        ranks(&lane),
        vec![
            ("b".to_string(), 0),
            ("c".to_string(), 1),
            ("a".to_string(), 2),
            ("d".to_string(), 3)
        ]
    );
}

#[test]
fn reorder_beyond_the_end_lands_last() {
    let mut lane = lane_of(&[("a", 0, 0), ("b", 0, 1), ("c", 0, 2)]);
    lane.reorder_item("a", 99);
    assert_eq!(
        ranks(&lane),
        vec![("b".to_string(), 0), ("c".to_string(), 1), ("a".to_string(), 2)]
    );
    lane.reorder_item("b", u64::MAX);
    assert_eq!(
        ranks(&lane),
        vec![("c".to_string(), 0), ("a".to_string(), 1), ("b".to_string(), 2)]
    );
}

#[test]
fn reorder_sorts_by_rank_and_closes_gaps() {
    let mut lane = lane_of(&[("a", 1, 7), ("b", 2, 2), ("c", 3, 9), ("d", 4, 4)]);
    lane.reorder_item("c", 1);
    assert_eq!(
        ranks(&lane),
        vec![
            ("b".to_string(), 0),
            ("c".to_string(), 1),
            ("d".to_string(), 2),
            ("a".to_string(), 3)
        ]
    );
    assert_eq!(lane.item("a").unwrap().vote_count, 1);
    assert_eq!(lane.item("c").unwrap().body, "note c");
}

#[test]
fn reorder_keeps_notes_of_equal_rank_in_their_order() {
    let mut lane = lane_of(&[("a", 0, 2), ("b", 0, 0), ("c", 0, 2), ("d", 0, 0), ("e", 0, 2)]);
    lane.reorder_item("e", 0);
    assert_eq!(
        ranks(&lane),
        vec![
            ("e".to_string(), 0),
            ("b".to_string(), 1),
            ("d".to_string(), 2),
            ("a".to_string(), 3),
            ("c".to_string(), 4)
        ]
    );
}

#[test]
fn reorder_of_an_absent_note_changes_nothing() {
    let mut lane = lane_of(&[("a", 0, 7), ("b", 0, 2)]);
    lane.reorder_item("zz", 0);
    assert_eq!(ranks(&lane), vec![("a".to_string(), 7), ("b".to_string(), 2)]);
}

#[test]
fn reorder_of_the_only_note() {
    let mut lane = lane_of(&[("a", 0, 7)]);
    lane.reorder_item("a", 3);
    assert_eq!(ranks(&lane), vec![("a".to_string(), 0)]);
}

use retroboard::{Action, MutationError, RetroBoard, RetroItem, RetroLane};

fn lane_ids(board: &RetroBoard, key: &str) -> Vec<String> {
    board.lane(key).unwrap().items().iter().map(|(id, _)| id.clone()).collect()
}

#[test]
fn test_add_lane() {
    let mut board = RetroBoard::new("Test Board");

    board.add_lane("Test Lane");
    assert_eq!(board.lanes().len(), 1);
    let lane = &board.lanes()[0].1;
    assert_eq!(lane.title(), "Test Lane");
    assert_eq!(lane.theme(), "Test Board");
}

#[test]
fn test_add_item_to_lane() {
    let mut board = RetroBoard::new("Test Board");

    board.add_lane("Test Lane");
    board.add_item("Test Lane", "Test Item").unwrap();
    let lane = board.lane("Test Lane").unwrap();
    assert_eq!(lane.items().len(), 1);
    let item = &lane.items()[0].1;
    assert_eq!(item.body, "Test Item");
}

#[test]
fn test_remove_item_from_lane() {
    let mut board = RetroBoard::new("Test Board");

    board.add_lane("Test Lane");
    board.add_item("Test Lane", "Test Item").unwrap();
    let lane = board.lane("Test Lane").unwrap();
    let item_id = lane.items()[0].0.clone();
    board.remove_item("Test Lane", &item_id).unwrap();
    let lane = board.lane("Test Lane").unwrap();
    assert_eq!(lane.items().len(), 0);
}

#[test]
fn test_upvote_item_in_lane() {
    let mut board = RetroBoard::new("Test Board");

    board.add_lane("Test Lane");
    board.add_item("Test Lane", "Test Item").unwrap();
    let lane = board.lane("Test Lane").unwrap();
    let item_id = lane.items()[0].0.clone();
    board.upvote_item("Test Lane", &item_id).unwrap();
    let lane = board.lane("Test Lane").unwrap();
    let item = lane.item(&item_id).unwrap();
    assert_eq!(item.vote_count, 1);
}

#[test]
fn test_move_item_between_lanes() {
    let mut board = RetroBoard::new("Test Board");

    board.add_lane("Lane 1");
    board.add_lane("Lane 2");
    board.add_item("Lane 1", "Test Item").unwrap();

    let lane1 = board.lane("Lane 1").unwrap();
    let item_id = lane1.items()[0].0.clone();

    board.move_item("Lane 1", "Lane 2", &item_id).unwrap();

    let lane1 = board.lane("Lane 1").unwrap();
    let lane2 = board.lane("Lane 2").unwrap();

    assert_eq!(lane1.items().len(), 0);
    assert_eq!(lane2.items().len(), 1);
    assert!(lane2.item(&item_id).is_some());
}

#[test]
fn test_reorder_item_within_lane() {
    let mut board = RetroBoard::new("Test Board");

    board.add_lane("Lane 1");

    // Add three items
    board.add_item("Lane 1", "First item").unwrap();
    board.add_item("Lane 1", "Second item").unwrap();
    board.add_item("Lane 1", "Third item").unwrap();

    let lane = board.lane("Lane 1").unwrap();

    // Get items by their sort order
    let mut sorted_items: Vec<(String, u64)> = lane
        .items()
        .iter()
        .map(|(id, item)| (id.clone(), item.sort_order))
        .collect();
    sorted_items.sort_by_key(|(_, order)| *order);

    let (item1_id, _) = &sorted_items[0];
    let (item2_id, _) = &sorted_items[1];
    let (item3_id, _) = &sorted_items[2];

    // Move the third item to the first position
    board.reorder_item("Lane 1", item3_id, 0).unwrap();

    // Verify new order
    let lane = board.lane("Lane 1").unwrap();
    assert_eq!(lane.item(item3_id).unwrap().sort_order, 0);
    assert_eq!(lane.item(item1_id).unwrap().sort_order, 1);
    assert_eq!(lane.item(item2_id).unwrap().sort_order, 2);
}

#[test]
fn default_board_has_three_seeded_lanes() {
    let board = RetroBoard::default();
    assert_eq!(board.title(), "My Retro Board");
    let keys: Vec<&str> = board.lanes().iter().map(|(key, _)| key.as_str()).collect();
    assert_eq!(keys, vec!["went-well", "to-improve", "action-items"]);
    let lane = board.lane("went-well").unwrap();
    assert_eq!(lane.title(), "Went Well");
    assert_eq!(lane.theme(), "went-well");
    assert_eq!(lane.len(), 2);
    assert_eq!(lane.item("1").unwrap().body, "We shipped the feature on time");
    assert_eq!(lane.item("1").unwrap().sort_order, 0);
    assert_eq!(lane.item("2").unwrap().body, "The team worked well together");
    assert_eq!(lane.item("2").unwrap().sort_order, 1);
    let lane = board.lane("to-improve").unwrap();
    assert_eq!(lane.title(), "To Improve");
    assert_eq!(lane.theme(), "to-improve");
    assert_eq!(lane.item("3").unwrap().body, "We need to improve our testing");
    assert_eq!(lane.item("4").unwrap().body, "We need to improve our communication");
    assert_eq!(lane.item("4").unwrap().sort_order, 1);
    let lane = board.lane("action-items").unwrap();
    assert_eq!(lane.title(), "Action Items");
    assert_eq!(lane.theme(), "action-items");
    assert_eq!(lane.item("5").unwrap().body, "Write more tests");
    assert_eq!(lane.item("6").unwrap().body, "Schedule a team-building event");
    assert_eq!(lane.item("6").unwrap().vote_count, 0);
    assert_eq!(lane.len(), 2);
}

#[test]
fn two_votes_then_merge_on_the_default_board() {
    let mut board = RetroBoard::default();
    board.upvote_item("went-well", "1").unwrap();
    board.upvote_item("went-well", "1").unwrap();
    assert_eq!(board.lane("went-well").unwrap().item("1").unwrap().vote_count, 2);
    board.merge_items("went-well", "1", "2", "combined").unwrap();
    let lane = board.lane("went-well").unwrap();
    assert_eq!(lane.len(), 1);
    assert_eq!(lane.items()[0].0, "2");
    assert_eq!(lane.items()[0].1.body, "combined");
    assert_eq!(lane.items()[0].1.vote_count, 2);
}

#[test]
fn adding_a_lane_twice_keeps_one_empty_lane() {
    let mut board = RetroBoard::new("Board");
    board.add_lane("Foo");
    board.add_item("Foo", "will be lost").unwrap();
    board.add_lane("Foo");
    assert_eq!(board.lanes().len(), 1);
    let lane = board.lane("Foo").unwrap();
    assert_eq!(lane.title(), "Foo");
    assert_eq!(lane.len(), 0);
}

#[test]
fn missing_lane_is_reported_by_every_operation() {
    let mut board = RetroBoard::default();
    assert_eq!(board.add_item("nowhere", "x"), Err(MutationError::LaneNotFound));
    assert_eq!(
        board.add_item_with_id("nowhere", "9".to_string(), "x"),
        Err(MutationError::LaneNotFound)
    );
    assert_eq!(board.remove_item("nowhere", "1"), Err(MutationError::LaneNotFound));
    assert_eq!(board.upvote_item("nowhere", "1"), Err(MutationError::LaneNotFound));
    assert_eq!(board.edit_item("nowhere", "1", "x"), Err(MutationError::LaneNotFound));
    assert_eq!(board.merge_items("nowhere", "1", "2", "x"), Err(MutationError::LaneNotFound));
    assert_eq!(board.reorder_item("nowhere", "1", 0), Err(MutationError::LaneNotFound));
    assert_eq!(board.move_item("nowhere", "went-well", "1"), Err(MutationError::LaneNotFound));
    assert_eq!(board.lanes().len(), 3);
    assert_eq!(board.lane("went-well").unwrap().len(), 2);
}

#[test]
fn missing_item_is_reported_where_one_is_needed() {
    let mut board = RetroBoard::default();
    assert_eq!(board.upvote_item("went-well", "9"), Err(MutationError::ItemNotFound));
    assert_eq!(board.edit_item("went-well", "9", "x"), Err(MutationError::ItemNotFound));
    assert_eq!(board.merge_items("went-well", "1", "9", "x"), Err(MutationError::ItemNotFound));
    assert_eq!(board.merge_items("went-well", "9", "1", "x"), Err(MutationError::ItemNotFound));
    assert_eq!(board.remove_item("went-well", "9"), Ok(()));
    assert_eq!(board.reorder_item("went-well", "9", 0), Ok(()));
    assert_eq!(board.move_item("went-well", "to-improve", "9"), Ok(()));
    let lane = board.lane("went-well").unwrap();
    assert_eq!(lane.len(), 2);
    assert_eq!(lane.item("1").unwrap().body, "We shipped the feature on time");
    assert_eq!(lane.item("1").unwrap().vote_count, 0);
    assert_eq!(lane.item("2").unwrap().sort_order, 1);
    assert_eq!(board.lane("to-improve").unwrap().len(), 2);
}

#[test]
fn merge_into_a_missing_target_leaves_both_notes() {
    let mut board = RetroBoard::default();
    board.upvote_item("went-well", "1").unwrap();
    assert_eq!(
        board.merge_items("went-well", "1", "nope", "combined"),
        Err(MutationError::ItemNotFound)
    );
    let lane = board.lane("went-well").unwrap();
    assert_eq!(lane.len(), 2);
    assert_eq!(lane.item("1").unwrap().vote_count, 1);
    assert_eq!(lane.item("1").unwrap().body, "We shipped the feature on time");
    assert_eq!(lane.item("2").unwrap().body, "The team worked well together");
}

#[test]
fn moved_note_is_ranked_behind_the_destination() {
    let mut board = RetroBoard::default();
    board.upvote_item("went-well", "1").unwrap();
    board.move_item("went-well", "action-items", "1").unwrap();
    assert_eq!(lane_ids(&board, "went-well"), vec!["2"]);
    assert_eq!(lane_ids(&board, "action-items"), vec!["5", "6", "1"]);
    let moved = board.lane("action-items").unwrap().item("1").unwrap();
    assert_eq!(moved.sort_order, 2);
    assert_eq!(moved.vote_count, 1);
    assert_eq!(moved.body, "We shipped the feature on time");
    assert_eq!(board.lane("went-well").unwrap().item("2").unwrap().sort_order, 1);
    assert_eq!(lane_ids(&board, "to-improve"), vec!["3", "4"]);
}

#[test]
fn move_to_a_missing_lane_keeps_the_note() {
    let mut board = RetroBoard::default();
    assert_eq!(board.move_item("went-well", "nowhere", "1"), Ok(()));
    assert_eq!(lane_ids(&board, "went-well"), vec!["1", "2"]);
    assert_eq!(board.lanes().len(), 3);
}

#[test]
fn move_within_one_lane_is_a_no_op() {
    let mut board = RetroBoard::default();
    assert_eq!(board.move_item("went-well", "went-well", "1"), Ok(()));
    assert_eq!(board.move_item("nowhere", "nowhere", "1"), Ok(()));
    assert_eq!(lane_ids(&board, "went-well"), vec!["1", "2"]);
}

#[test]
fn move_replaces_a_note_of_the_same_id() {
    let mut board = RetroBoard::new("Board");
    let mut left = RetroLane::new("Left", "Board");
    left.put_item("x".to_string(), RetroItem::new("from left".to_string(), 2, 0));
    let mut right = RetroLane::new("Right", "Board");
    right.put_item("x".to_string(), RetroItem::new("from right".to_string(), 5, 0));
    right.put_item("y".to_string(), RetroItem::new("other".to_string(), 0, 1));
    board.put_lane("left".to_string(), left);
    board.put_lane("right".to_string(), right);
    board.move_item("left", "right", "x").unwrap();
    assert_eq!(board.lane("left").unwrap().len(), 0);
    let lane = board.lane("right").unwrap();
    assert_eq!(lane.len(), 2);
    assert_eq!(lane.item("x").unwrap().body, "from left");
    assert_eq!(lane.item("x").unwrap().vote_count, 2);
    assert_eq!(lane.item("x").unwrap().sort_order, 2);
}

#[test]
fn reorder_on_the_board_renumbers_one_lane() {
    let mut board = RetroBoard::default();
    board.add_item_with_id("went-well", "7".to_string(), "third").unwrap();
    board.reorder_item("went-well", "7", 0).unwrap();
    let lane = board.lane("went-well").unwrap();
    assert_eq!(lane.item("7").unwrap().sort_order, 0);
    assert_eq!(lane.item("1").unwrap().sort_order, 1);
    assert_eq!(lane.item("2").unwrap().sort_order, 2);
    assert_eq!(lane_ids(&board, "went-well"), vec!["7", "1", "2"]);
    assert_eq!(board.lane("to-improve").unwrap().item("4").unwrap().sort_order, 1);
}

#[test]
fn put_lane_keeps_the_place_of_a_replaced_lane() {
    let mut board = RetroBoard::default();
    board.put_lane("to-improve".to_string(), RetroLane::new("Better", "theme"));
    let keys: Vec<&str> = board.lanes().iter().map(|(key, _)| key.as_str()).collect();
    assert_eq!(keys, vec!["went-well", "to-improve", "action-items"]);
    assert_eq!(board.lane("to-improve").unwrap().title(), "Better");
    assert_eq!(board.lane("to-improve").unwrap().len(), 0);
    assert!(board.lane("nowhere").is_none());
}

#[test]
fn loaded_board_is_kept_and_a_missing_one_is_seeded() {
    let mut stored = RetroBoard::new("Stored");
    stored.add_lane("Only");
    let board = RetroBoard::loaded_or_default(Some(stored));
    assert_eq!(board.title(), "Stored");
    assert_eq!(board.lanes().len(), 1);
    let board = RetroBoard::loaded_or_default(None);
    assert_eq!(board.title(), "My Retro Board");
    assert_eq!(board.lanes().len(), 3);
}

#[test]
fn apply_runs_each_action() {
    let mut board = RetroBoard::new("Board");
    let actions = vec![
        Action::AddLane { title: "A".to_string() },
        Action::AddLane { title: "B".to_string() },
        Action::AddItem { lane_id: "A".to_string(), body: "one".to_string() },
    ];
    for action in actions.iter() {
        assert!(board.admits(action));
        assert_eq!(board.apply(action), Ok(()));
    }
    assert_eq!(board.lane("A").unwrap().theme(), "Board");
    let first = lane_ids(&board, "A")[0].clone();
    assert_eq!(first.len(), 36);
    let more = vec![
        Action::UpvoteItem { lane_id: "A".to_string(), id: first.clone() },
        Action::EditItem { lane_id: "A".to_string(), id: first.clone(), body: "uno".to_string() },
        Action::AddItem { lane_id: "A".to_string(), body: "two".to_string() },
    ];
    for action in more.iter() {
        assert_eq!(board.apply(action), Ok(()));
    }
    let second = lane_ids(&board, "A")[1].clone();
    assert_eq!(
        board.apply(&Action::ReorderItem {
            lane_id: "A".to_string(),
            item_id: second.clone(),
            new_position: 0
        }),
        Ok(())
    );
    assert_eq!(lane_ids(&board, "A"), vec![second.clone(), first.clone()]);
    assert_eq!(
        board.apply(&Action::MergeItems {
            lane_id: "A".to_string(),
            source_id: second.clone(),
            target_id: first.clone(),
            merged_body: "both".to_string()
        }),
        Ok(())
    );
    assert_eq!(
        board.apply(&Action::MoveItem {
            from_lane_id: "A".to_string(),
            to_lane_id: "B".to_string(),
            item_id: first.clone()
        }),
        Ok(())
    );
    assert_eq!(board.lane("A").unwrap().len(), 0);
    let moved = board.lane("B").unwrap().item(&first).unwrap();
    assert_eq!(moved.body, "both");
    assert_eq!(moved.vote_count, 1);
    assert_eq!(moved.sort_order, 0);
    assert_eq!(
        board.apply(&Action::RemoveItem { lane_id: "B".to_string(), id: first.clone() }),
        Ok(())
    );
    assert_eq!(board.lane("B").unwrap().len(), 0);
}

#[test]
fn apply_with_id_uses_the_given_id() {
    let mut board = RetroBoard::default();
    let action = Action::AddItem { lane_id: "went-well".to_string(), body: "third".to_string() };
    assert_eq!(board.apply_with_id(&action, "abc".to_string()), Ok(()));
    let item = board.lane("went-well").unwrap().item("abc").unwrap();
    assert_eq!(item.body, "third");
    assert_eq!(item.sort_order, 2);
    assert_eq!(item.vote_count, 0);
    let upvote = Action::UpvoteItem { lane_id: "went-well".to_string(), id: "abc".to_string() };
    assert_eq!(board.apply_with_id(&upvote, "unused".to_string()), Ok(()));
    assert!(board.lane("went-well").unwrap().item("unused").is_none());
    assert_eq!(board.lane("went-well").unwrap().item("abc").unwrap().vote_count, 1);
}

#[test]
fn a_refused_action_leaves_the_board_unchanged() {
    let mut board = RetroBoard::default();
    let action = Action::UpvoteItem { lane_id: "went-well".to_string(), id: "9".to_string() };
    assert!(board.admits(&action));
    assert_eq!(board.apply(&action), Err(MutationError::ItemNotFound));
    let action = Action::AddItem { lane_id: "nowhere".to_string(), body: "x".to_string() };
    assert_eq!(board.apply(&action), Err(MutationError::LaneNotFound));
    assert_eq!(board.lanes().len(), 3);
    assert_eq!(lane_ids(&board, "went-well"), vec!["1", "2"]);
}

#[test]
fn admits_refuses_votes_that_would_not_fit() {
    let mut board = RetroBoard::new("Board");
    let mut lane = RetroLane::new("Lane", "Board");
    lane.put_item("full".to_string(), RetroItem::new("a".to_string(), u64::MAX, 0));
    lane.put_item("one".to_string(), RetroItem::new("b".to_string(), 1, 1));
    lane.put_item("none".to_string(), RetroItem::new("c".to_string(), 0, 2));
    board.put_lane("lane".to_string(), lane);
    let upvote = |id: &str| Action::UpvoteItem { lane_id: "lane".to_string(), id: id.to_string() };
    let merge = |source: &str, target: &str| Action::MergeItems {
        lane_id: "lane".to_string(),
        source_id: source.to_string(),
        target_id: target.to_string(),
        merged_body: "m".to_string(),
    };
    assert!(!board.admits(&upvote("full")));
    assert!(board.admits(&upvote("one")));
    assert!(board.admits(&upvote("absent")));
    assert!(!board.admits(&merge("one", "full")));
    assert!(!board.admits(&merge("full", "one")));
    assert!(board.admits(&merge("none", "full")));
    assert!(board.admits(&merge("absent", "full")));
    assert!(board.admits(&Action::AddLane { title: "x".to_string() }));
    assert_eq!(board.apply(&merge("none", "full")), Ok(()));
    assert_eq!(board.lane("lane").unwrap().item("full").unwrap().vote_count, u64::MAX);
}

use playlist_sort::{
    reconcile, sort_keys, DelayPolicy, InternalConsistencyError, MoveOperation, Reconciler,
};

fn strings(keys: &[&str]) -> Vec<String> {
    keys.iter().map(|k| k.to_string()).collect()
}

fn op(source: usize, destination: usize, length: usize) -> MoveOperation {
    MoveOperation { source, destination, length }
}

/// Every arrangement of `items`.
fn arrangements(items: &[String]) -> Vec<Vec<String>> {
    if items.len() <= 1 {
        return vec![items.to_vec()];
    }
    let mut all = Vec::new();
    for i in 0..items.len() {
        let mut rest = items.to_vec();
        let first = rest.remove(i);
        for mut tail in arrangements(&rest) {
            tail.insert(0, first.clone());
            all.push(tail);
        }
    }
    all
}

/// Runs the stepper against a remote store that is a vector, and returns the
/// moves it asked for together with the store and the mirror at the end.
fn drive(current: Vec<String>, target: Vec<String>) -> (Vec<MoveOperation>, Vec<String>, Vec<String>) {
    let mut remote = current.clone();
    let mut stepper = Reconciler::new(current, target);
    let mut asked = Vec::new();
    while let Some(next) = stepper.next_move().unwrap() {
        assert!(next.apply_to(&mut remote));
        asked.push(next);
        assert!(stepper.confirm());
        assert_eq!(stepper.mirror(), &remote);
    }
    let mirror = stepper.into_mirror();
    (asked, remote, mirror)
}

#[test]
fn swapped_neighbours_take_one_move() {
    let mut current = strings(&["A", "C", "B", "D"]);
    let target = strings(&["A", "B", "C", "D"]);
    let moves = reconcile(&mut current, &target).unwrap();
    assert_eq!(moves, vec![op(2, 1, 1)]);
    assert_eq!(current, target);
}

#[test]
fn swapped_neighbours_take_one_move_on_the_remote_store() {
    let (asked, remote, mirror) = drive(strings(&["A", "C", "B", "D"]), strings(&["A", "B", "C", "D"]));
    assert_eq!(asked, vec![op(2, 1, 1)]);
    assert_eq!(remote, strings(&["A", "B", "C", "D"]));
    assert_eq!(mirror, remote);
}

#[test]
fn sorted_collection_issues_no_move() {
    let target = strings(&["a", "b", "c", "d", "e"]);
    let mut current = target.clone();
    assert_eq!(reconcile(&mut current, &target), Ok(vec![]));
    assert_eq!(current, target);
    let mut stepper = Reconciler::new(target.clone(), target.clone());
    assert_eq!(stepper.next_move(), Ok(None));
    assert_eq!(stepper.cursor(), 5);
    assert_eq!(stepper.mirror(), &target);
}

#[test]
fn empty_collection_issues_no_move() {
    let mut current: Vec<String> = Vec::new();
    assert_eq!(reconcile(&mut current, &Vec::new()), Ok(vec![]));
    let mut stepper = Reconciler::new(Vec::new(), Vec::new());
    assert_eq!(stepper.next_move(), Ok(None));
}

#[test]
fn every_arrangement_of_six_keys_converges() {
    let target = strings(&["a", "b", "c", "d", "e", "f"]);
    for start in arrangements(&target) {
        let mut current = start.clone();
        let moves = reconcile(&mut current, &target).unwrap();
        assert_eq!(current, target, "from {:?}", start);
        assert!(moves.len() <= target.len());
        assert_eq!(moves.is_empty(), start == target);
        // The moves, replayed on a copy, lead to the target as well.
        let mut replay = start.clone();
        for m in &moves {
            assert!(m.destination < m.source);
            assert!(m.apply_to(&mut replay));
        }
        assert_eq!(replay, target);
        // The stepper asks for the same moves.
        let (asked, remote, mirror) = drive(start, target.clone());
        assert_eq!(asked, moves);
        assert_eq!(remote, target);
        assert_eq!(mirror, target);
    }
}

#[test]
fn reversed_collection_needs_a_move_for_all_but_the_last() {
    let mut current = strings(&["e", "d", "c", "b", "a"]);
    let target = strings(&["a", "b", "c", "d", "e"]);
    let moves = reconcile(&mut current, &target).unwrap();
    assert_eq!(moves, vec![op(4, 0, 1), op(4, 1, 1), op(4, 2, 1), op(4, 3, 1)]);
    assert_eq!(current, target);
}

#[test]
fn block_out_of_place_moves_as_one() {
    let mut current = strings(&["A", "D", "E", "B", "C", "F"]);
    let target = strings(&["A", "B", "C", "D", "E", "F"]);
    assert_eq!(reconcile(&mut current, &target), Ok(vec![op(3, 1, 2)]));
    assert_eq!(current, target);
}

#[test]
fn misplaced_tail_moves_as_one() {
    let mut current = strings(&["x", "y", "z", "a", "b", "c", "d"]);
    let target = strings(&["a", "b", "c", "d", "x", "y", "z"]);
    assert_eq!(reconcile(&mut current, &target), Ok(vec![op(3, 0, 4)]));
    assert_eq!(current, target);
}

#[test]
fn run_stops_at_the_first_disagreement() {
    let mut current = strings(&["d", "a", "b", "e", "c"]);
    let target = strings(&["a", "b", "c", "d", "e"]);
    let moves = reconcile(&mut current, &target).unwrap();
    assert_eq!(moves, vec![op(1, 0, 2), op(4, 2, 1)]);
    assert_eq!(current, target);
}

#[test]
fn reconcile_sorts_what_sort_keys_sorts() {
    let start = strings(&["pear", "apple", "fig", "kiwi", "date", "plum", "lime"]);
    let target = sort_keys(start.clone());
    let mut current = start;
    reconcile(&mut current, &target).unwrap();
    assert_eq!(current, strings(&["apple", "date", "fig", "kiwi", "lime", "pear", "plum"]));
}

#[test]
fn repeated_keys_converge_too() {
    let target = strings(&["a", "a", "b", "b", "c"]);
    for start in arrangements(&target) {
        let mut current = start.clone();
        let moves = reconcile(&mut current, &target).unwrap();
        assert_eq!(current, target);
        assert_eq!(moves.is_empty(), start == target);
    }
}

#[test]
fn key_that_the_mirror_lacks_stops_the_pass() {
    let mut current = strings(&["b", "a", "c", "d"]);
    let target = strings(&["a", "b", "x", "d"]);
    assert_eq!(reconcile(&mut current, &target), Err(InternalConsistencyError { position: 2 }));
    // The move made before the pass got stuck stays.
    assert_eq!(current, strings(&["a", "b", "c", "d"]));
}

#[test]
fn key_placed_already_is_not_found_again() {
    let mut current = strings(&["a", "b"]);
    let target = strings(&["a", "a"]);
    assert_eq!(reconcile(&mut current, &target), Err(InternalConsistencyError { position: 1 }));
    assert_eq!(current, strings(&["a", "b"]));
}

#[test]
fn collections_of_different_length_are_refused_untouched() {
    let mut current = strings(&["b", "a", "c"]);
    let target = strings(&["a", "b"]);
    assert_eq!(reconcile(&mut current, &target), Err(InternalConsistencyError { position: 0 }));
    assert_eq!(current, strings(&["b", "a", "c"]));
    let mut current = strings(&["b", "a"]);
    let target = strings(&["a", "b", "c"]);
    assert_eq!(reconcile(&mut current, &target), Err(InternalConsistencyError { position: 0 }));
    assert_eq!(current, strings(&["b", "a"]));
    let mut stepper = Reconciler::new(strings(&["b", "a"]), strings(&["a"]));
    assert_eq!(stepper.next_move(), Err(InternalConsistencyError { position: 0 }));
    assert!(!stepper.confirm());
    assert_eq!(stepper.mirror(), &strings(&["b", "a"]));
}

#[test]
fn stepper_reports_a_missing_key_where_it_meets_it() {
    let mut stepper = Reconciler::new(strings(&["b", "a", "c"]), strings(&["a", "b", "x"]));
    assert_eq!(stepper.next_move(), Ok(Some(op(1, 0, 1))));
    assert!(stepper.confirm());
    assert_eq!(stepper.next_move(), Err(InternalConsistencyError { position: 2 }));
    assert_eq!(stepper.cursor(), 2);
    assert_eq!(stepper.mirror(), &strings(&["a", "b", "c"]));
}

#[test]
fn asking_twice_gives_the_same_move() {
    let mut stepper = Reconciler::new(strings(&["a", "c", "b"]), strings(&["a", "b", "c"]));
    assert_eq!(stepper.next_move(), Ok(Some(op(2, 1, 1))));
    assert_eq!(stepper.next_move(), Ok(Some(op(2, 1, 1))));
    assert_eq!(stepper.cursor(), 1);
    assert_eq!(stepper.mirror(), &strings(&["a", "c", "b"]));
}

#[test]
fn unconfirmed_move_leaves_the_mirror_as_the_remote_store_is() {
    // The remote store fails on the second move: the caller stops without
    // confirming, and the mirror shows the one move that went through.
    let mut stepper = Reconciler::new(strings(&["c", "b", "a"]), strings(&["a", "b", "c"]));
    assert_eq!(stepper.next_move(), Ok(Some(op(2, 0, 1))));
    assert!(stepper.confirm());
    assert_eq!(stepper.next_move(), Ok(Some(op(2, 1, 1))));
    assert_eq!(stepper.mirror(), &strings(&["a", "c", "b"]));
    assert_eq!(stepper.target(), &strings(&["a", "b", "c"]));
    assert_eq!(stepper.into_mirror(), strings(&["a", "c", "b"]));
}

#[test]
fn confirming_nothing_changes_nothing() {
    let mut stepper = Reconciler::new(strings(&["b", "a"]), strings(&["a", "b"]));
    assert!(!stepper.confirm());
    assert_eq!(stepper.cursor(), 0);
    assert_eq!(stepper.mirror(), &strings(&["b", "a"]));
    assert_eq!(stepper.next_move(), Ok(Some(op(1, 0, 1))));
    assert!(stepper.confirm());
    assert!(!stepper.confirm());
    assert_eq!(stepper.cursor(), 1);
    assert_eq!(stepper.next_move(), Ok(None));
    assert_eq!(stepper.cursor(), 2);
}

#[test]
fn move_lifts_a_block_and_sets_it_down() {
    let mut items = vec![0, 1, 2, 3, 4, 5, 6];
    assert!(op(4, 1, 2).apply_to(&mut items));
    assert_eq!(items, vec![0, 4, 5, 1, 2, 3, 6]);
    let mut items = vec![0, 1, 2, 3, 4, 5, 6];
    assert!(op(1, 4, 2).apply_to(&mut items));
    assert_eq!(items, vec![0, 3, 4, 5, 1, 2, 6]);
    let mut items = vec![0, 1, 2, 3];
    assert!(op(0, 2, 2).apply_to(&mut items));
    assert_eq!(items, vec![2, 3, 0, 1]);
    let mut items = vec![0, 1, 2, 3];
    assert!(op(0, 0, 4).apply_to(&mut items));
    assert_eq!(items, vec![0, 1, 2, 3]);
    let mut items = vec![0, 1, 2, 3];
    assert!(op(3, 0, 1).apply_to(&mut items));
    assert_eq!(items, vec![3, 0, 1, 2]);
}

#[test]
fn move_that_does_not_fit_is_not_made() {
    for bad in [op(0, 0, 0), op(3, 0, 2), op(4, 0, 1), op(0, 3, 2), op(0, 4, 1), op(0, 0, 5), op(usize::MAX, 0, 1),
        op(1, 0, usize::MAX), op(0, usize::MAX, 1)] {
        let mut items = vec![0, 1, 2, 3];
        assert!(!bad.apply_to(&mut items), "{:?}", bad);
        assert_eq!(items, vec![0, 1, 2, 3]);
    }
}

#[test]
fn abandoned_move_is_handed_out_again() {
    let mut stepper = Reconciler::new(strings(&["b", "a", "c"]), strings(&["a", "b", "c"]));
    assert!(!stepper.abandon());
    assert_eq!(stepper.next_move(), Ok(Some(op(1, 0, 1))));
    assert!(stepper.abandon());
    assert!(!stepper.confirm());
    assert_eq!(stepper.mirror(), &strings(&["b", "a", "c"]));
    assert_eq!(stepper.cursor(), 0);
    assert_eq!(stepper.next_move(), Ok(Some(op(1, 0, 1))));
    assert!(stepper.confirm());
    assert_eq!(stepper.next_move(), Ok(None));
    assert_eq!(stepper.mirror(), &strings(&["a", "b", "c"]));
}

#[test]
fn stepper_waits_as_its_policy_says() {
    let keys = strings(&["a", "b", "c", "d", "e"]);
    assert_eq!(Reconciler::new(keys.clone(), keys.clone()).pause_millis(), 10);
    let slow = Reconciler::with_delay(keys.clone(), keys.clone(), DelayPolicy::per_item(300));
    assert_eq!(slow.pause_millis(), 1500);
    let hasty = Reconciler::with_delay(keys.clone(), keys.clone(), DelayPolicy::none());
    assert_eq!(hasty.pause_millis(), 0);
    assert_eq!(Reconciler::new(Vec::new(), Vec::new()).pause_millis(), 0);
}

#[test]
fn consistency_error_names_the_position() {
    assert_eq!(
        InternalConsistencyError { position: 0 }.message(),
        "The playlist and its sorted form do not hold the same musics: nothing fits position 0"
    );
    assert_eq!(
        InternalConsistencyError { position: 1204 }.message(),
        "The playlist and its sorted form do not hold the same musics: nothing fits position 1204"
    );
}

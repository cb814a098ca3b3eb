use tm::errors::TmError;
use tm::model::ProjectStore;

fn texts(store: &mut ProjectStore) -> Vec<String> {
    store.get_current_tasks().iter().map(|t| t.text.clone()).collect()
}

#[test]
fn scenario_add_complete_clear() {
    let mut store = ProjectStore::new();
    assert_eq!(store.add_task(&vec![], "buy milk".to_string()), Ok(()));
    {
        let tasks = store.get_current_tasks();
        assert_eq!(tasks.len(), 1);
        assert_eq!(tasks[0].text, "buy milk");
        assert!(!tasks[0].completed);
        assert!(tasks[0].completed_at.is_none());
        assert!(tasks[0].subtasks.is_empty());
    }
    assert_eq!(store.add_task(&vec![0], "2% milk".to_string()), Ok(()));
    assert_eq!(store.complete_task(&vec![0]), Ok(()));
    {
        let tasks = store.get_current_tasks();
        assert!(tasks[0].completed);
        assert!(tasks[0].completed_at.is_some());
        assert!(tasks[0].subtasks[0].completed);
        assert!(tasks[0].subtasks[0].completed_at.is_some());
    }
    store.clear_completed();
    assert!(store.get_current_tasks().is_empty());
}

#[test]
fn add_parent_not_found() {
    let mut store = ProjectStore::new();
    assert_eq!(store.add_task(&vec![5], "orphan".to_string()), Err(TmError::NotFound));
    assert!(store.get_current_tasks().is_empty());
}

#[test]
fn complete_empty_path_not_found() {
    let mut store = ProjectStore::new();
    store.add_task(&vec![], "a".to_string()).unwrap();
    assert_eq!(store.complete_task(&vec![]), Err(TmError::NotFound));
    assert_eq!(store.delete_task(&vec![]), Err(TmError::NotFound));
    assert_eq!(store.move_task(&vec![], "up"), Err(TmError::NotFound));
}

#[test]
fn complete_cascade_and_uncomplete() {
    let mut store = ProjectStore::new();
    store.add_task(&vec![], "root".to_string()).unwrap();
    store.add_task(&vec![0], "child".to_string()).unwrap();
    store.add_task(&vec![0, 0], "grandchild".to_string()).unwrap();
    assert_eq!(store.complete_task(&vec![0]), Ok(()));
    {
        let t = &store.get_current_tasks()[0];
        assert!(t.completed && t.completed_at.is_some());
        let c = &t.subtasks[0];
        assert!(c.completed && c.completed_at.is_some());
        let g = &c.subtasks[0];
        assert!(g.completed && g.completed_at.is_some());
    }
    assert_eq!(store.uncomplete_task(&vec![0]), Ok(()));
    {
        let t = &store.get_current_tasks()[0];
        assert!(!t.completed && t.completed_at.is_none());
        let c = &t.subtasks[0];
        assert!(!c.completed && c.completed_at.is_none());
        let g = &c.subtasks[0];
        assert!(!g.completed && g.completed_at.is_none());
    }
}

#[test]
fn complete_unresolved_path() {
    let mut store = ProjectStore::new();
    store.add_task(&vec![], "a".to_string()).unwrap();
    assert_eq!(store.complete_task(&vec![0, 3]), Err(TmError::NotFound));
    assert_eq!(store.complete_task(&vec![1]), Err(TmError::NotFound));
    assert!(!store.get_current_tasks()[0].completed);
}

#[test]
fn path_zero_zero_resolves_first_subtask() {
    let mut store = ProjectStore::new();
    store.add_task(&vec![], "root".to_string()).unwrap();
    store.add_task(&vec![0], "sub".to_string()).unwrap();
    assert_eq!(store.complete_task(&vec![0, 0]), Ok(()));
    let tasks = store.get_current_tasks();
    assert!(!tasks[0].completed);
    assert!(tasks[0].subtasks[0].completed);
}

#[test]
fn delete_root_and_nested() {
    let mut store = ProjectStore::new();
    store.add_task(&vec![], "a".to_string()).unwrap();
    store.add_task(&vec![], "b".to_string()).unwrap();
    store.add_task(&vec![1], "b0".to_string()).unwrap();
    store.add_task(&vec![1], "b1".to_string()).unwrap();
    assert_eq!(store.delete_task(&vec![1, 0]), Ok(()));
    assert_eq!(texts(&mut store), vec!["a", "b"]);
    assert_eq!(store.get_current_tasks()[1].subtasks.len(), 1);
    assert_eq!(store.get_current_tasks()[1].subtasks[0].text, "b1");
    assert_eq!(store.delete_task(&vec![0]), Ok(()));
    assert_eq!(texts(&mut store), vec!["b"]);
}

#[test]
fn delete_out_of_bounds_is_not_found() {
    let mut store = ProjectStore::new();
    store.add_task(&vec![], "a".to_string()).unwrap();
    assert_eq!(store.delete_task(&vec![3]), Err(TmError::NotFound));
    assert_eq!(store.delete_task(&vec![0, 0]), Err(TmError::NotFound));
    assert_eq!(texts(&mut store), vec!["a"]);
}

#[test]
fn clear_completed_preserves_incomplete_subtrees() {
    // roots [A(done), B(not done, child C(done))] -> [B(no children)]
    let mut store = ProjectStore::new();
    store.add_task(&vec![], "A".to_string()).unwrap();
    store.add_task(&vec![], "B".to_string()).unwrap();
    store.add_task(&vec![1], "C".to_string()).unwrap();
    store.complete_task(&vec![0]).unwrap();
    store.complete_task(&vec![1, 0]).unwrap();
    store.clear_completed();
    let tasks = store.get_current_tasks();
    assert_eq!(tasks.len(), 1);
    assert_eq!(tasks[0].text, "B");
    assert!(!tasks[0].completed);
    assert!(tasks[0].subtasks.is_empty());
}

#[test]
fn clear_all_empties_roots() {
    let mut store = ProjectStore::new();
    store.add_task(&vec![], "a".to_string()).unwrap();
    store.add_task(&vec![0], "a0".to_string()).unwrap();
    store.clear_all();
    assert!(store.get_current_tasks().is_empty());
}

fn three(store: &mut ProjectStore) {
    store.add_task(&vec![], "a".to_string()).unwrap();
    store.add_task(&vec![], "b".to_string()).unwrap();
    store.add_task(&vec![], "c".to_string()).unwrap();
}

#[test]
fn move_boundaries_are_no_ops() {
    let mut store = ProjectStore::new();
    three(&mut store);
    assert_eq!(store.move_task(&vec![0], "up"), Err(TmError::InvalidDirection));
    assert_eq!(store.move_task(&vec![2], "down"), Err(TmError::InvalidDirection));
    assert_eq!(store.move_task(&vec![0], "top"), Err(TmError::InvalidDirection));
    assert_eq!(store.move_task(&vec![2], "bottom"), Err(TmError::InvalidDirection));
    assert_eq!(store.move_task(&vec![0], "3"), Err(TmError::InvalidDirection));
    assert_eq!(store.move_task(&vec![0], "9"), Err(TmError::InvalidDirection));
    assert_eq!(texts(&mut store), vec!["a", "b", "c"]);
}

#[test]
fn move_up_down_swap_neighbours() {
    let mut store = ProjectStore::new();
    three(&mut store);
    assert_eq!(store.move_task(&vec![1], "up"), Ok(true));
    assert_eq!(texts(&mut store), vec!["b", "a", "c"]);
    assert_eq!(store.move_task(&vec![1], "down"), Ok(true));
    assert_eq!(texts(&mut store), vec!["b", "c", "a"]);
}

#[test]
fn move_top_bottom_swap_with_extremes() {
    // "top" is a two-entry swap, not a rotate
    let mut store = ProjectStore::new();
    three(&mut store);
    assert_eq!(store.move_task(&vec![2], "top"), Ok(true));
    assert_eq!(texts(&mut store), vec!["c", "b", "a"]);
    assert_eq!(store.move_task(&vec![0], "bottom"), Ok(true));
    assert_eq!(texts(&mut store), vec!["a", "b", "c"]);
}

#[test]
fn move_absolute_position_swaps() {
    let mut store = ProjectStore::new();
    three(&mut store);
    assert_eq!(store.move_task(&vec![0], "2"), Ok(true));
    assert_eq!(texts(&mut store), vec!["c", "b", "a"]);
    // moving onto its own index succeeds without changing anything
    assert_eq!(store.move_task(&vec![1], "1"), Ok(false));
    assert_eq!(texts(&mut store), vec!["c", "b", "a"]);
    // leading plus and zeros parse the way str::parse does
    assert_eq!(store.move_task(&vec![0], "+1"), Ok(true));
    assert_eq!(texts(&mut store), vec!["b", "c", "a"]);
    assert_eq!(store.move_task(&vec![0], "01"), Ok(true));
    assert_eq!(texts(&mut store), vec!["c", "b", "a"]);
}

#[test]
fn move_direction_keywords_ignore_ascii_case() {
    let mut store = ProjectStore::new();
    three(&mut store);
    assert_eq!(store.move_task(&vec![1], "UP"), Ok(true));
    assert_eq!(texts(&mut store), vec!["b", "a", "c"]);
    assert_eq!(store.move_task(&vec![1], "Down"), Ok(true));
    assert_eq!(texts(&mut store), vec!["b", "c", "a"]);
}

#[test]
fn move_invalid_direction() {
    let mut store = ProjectStore::new();
    three(&mut store);
    assert_eq!(store.move_task(&vec![1], "sideways"), Err(TmError::InvalidDirection));
    assert_eq!(store.move_task(&vec![1], "-1"), Err(TmError::InvalidDirection));
    assert_eq!(store.move_task(&vec![1], ""), Err(TmError::InvalidDirection));
    assert_eq!(texts(&mut store), vec!["a", "b", "c"]);
}

#[test]
fn move_source_out_of_bounds_is_not_found() {
    let mut store = ProjectStore::new();
    three(&mut store);
    assert_eq!(store.move_task(&vec![7], "up"), Err(TmError::NotFound));
    assert_eq!(store.move_task(&vec![0, 0], "up"), Err(TmError::NotFound));
}

#[test]
fn move_within_subtask_list() {
    let mut store = ProjectStore::new();
    store.add_task(&vec![], "root".to_string()).unwrap();
    store.add_task(&vec![0], "x".to_string()).unwrap();
    store.add_task(&vec![0], "y".to_string()).unwrap();
    assert_eq!(store.move_task(&vec![0, 1], "up"), Ok(true));
    let tasks = store.get_current_tasks();
    assert_eq!(tasks[0].subtasks[0].text, "y");
    assert_eq!(tasks[0].subtasks[1].text, "x");
}

#[test]
fn error_messages() {
    assert_eq!(TmError::NotFound.describe(), "not found");
    assert_eq!(TmError::AlreadyExists.describe(), "already exists");
    assert_eq!(TmError::Protected.describe(), "the default project cannot be deleted");
    assert_eq!(TmError::InvalidDirection.describe(), "invalid move direction or position");
    assert_eq!(TmError::DataCorruption.describe(), "invalid data format");
    assert_eq!(TmError::IoFailure.describe(), "could not access the data file");
}

#[test]
fn find_item_resolves_paths() {
    let mut store = ProjectStore::new();
    store.add_task(&vec![], "a".to_string()).unwrap();
    store.add_task(&vec![0], "a0".to_string()).unwrap();
    assert!(store.find_item(&vec![]).is_none());
    assert_eq!(store.find_item(&vec![0]).unwrap().text, "a");
    assert_eq!(store.find_item(&vec![0, 0]).unwrap().text, "a0");
    assert!(store.find_item(&vec![0, 1]).is_none());
    assert!(store.find_item(&vec![1]).is_none());
}

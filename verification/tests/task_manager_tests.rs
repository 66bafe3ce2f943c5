use pomo_tui::sync::{SyncItem, SyncResolution};
use pomo_tui::task::TaskSection;
use pomo_tui::task_manager::TaskManager;

#[test]
fn test_new_task_manager() {
    let tm = TaskManager::new();
    assert_eq!(tm.backlog().len(), 0);
    assert_eq!(tm.current().len(), 0);
    assert_eq!(tm.completed().len(), 0);
    assert!(!tm.has_file_path());
}

#[test]
fn test_add_task_to_sections() {
    let mut tm = TaskManager::new();

    tm.add_task("Task 1".to_string(), TaskSection::Backlog);
    tm.add_task("Task 2".to_string(), TaskSection::Current);
    tm.add_task("Task 3".to_string(), TaskSection::Completed);

    assert_eq!(tm.section_len(TaskSection::Backlog), 1);
    assert_eq!(tm.section_len(TaskSection::Current), 1);
    assert_eq!(tm.section_len(TaskSection::Completed), 1);
    assert_eq!(tm.backlog()[0].text, "Task 1");
    assert_eq!(tm.current()[0].text, "Task 2");
    assert_eq!(tm.completed()[0].text, "Task 3");
}

#[test]
fn test_toggle_section() {
    let mut tm = TaskManager::new();
    tm.add_task("Task 1".to_string(), TaskSection::Backlog);
    tm.add_task("Task 2".to_string(), TaskSection::Backlog);

    // Backlog → Current
    tm.cycle_task_section(TaskSection::Backlog, 0);
    assert_eq!(tm.section_len(TaskSection::Backlog), 1);
    assert_eq!(tm.section_len(TaskSection::Current), 1);
    assert_eq!(tm.backlog()[0].text, "Task 2");
    assert_eq!(tm.current()[0].text, "Task 1");

    // Current → Backlog
    tm.cycle_task_section(TaskSection::Current, 0);
    assert_eq!(tm.section_len(TaskSection::Current), 0);
    assert_eq!(tm.section_len(TaskSection::Backlog), 2);
    assert_eq!(tm.backlog()[0].text, "Task 2");
    assert_eq!(tm.backlog()[1].text, "Task 1");
}

#[test]
fn test_task_completion() {
    let mut tm = TaskManager::new();
    tm.add_task("Task 1".to_string(), TaskSection::Current);
    tm.add_task("Task 2".to_string(), TaskSection::Current);

    // Complete focused from current → completed
    tm.toggle_completion(TaskSection::Current, 0);
    assert_eq!(tm.section_len(TaskSection::Current), 1);
    assert_eq!(tm.section_len(TaskSection::Completed), 1);
    assert_eq!(tm.current()[0].text, "Task 2");
    assert_eq!(tm.completed()[0].text, "Task 1");

    // Complete active (first in current)
    tm.complete_current_task();
    assert_eq!(tm.section_len(TaskSection::Current), 0);
    assert_eq!(tm.section_len(TaskSection::Completed), 2);
    assert_eq!(tm.completed()[1].text, "Task 2");

    // Un-complete: completed → backlog
    tm.toggle_completion(TaskSection::Completed, 0);
    assert_eq!(tm.section_len(TaskSection::Completed), 1);
    assert_eq!(tm.section_len(TaskSection::Backlog), 1);
    assert_eq!(tm.backlog()[0].text, "Task 1");
}

#[test]
fn test_active_task() {
    let mut tm = TaskManager::new();
    assert!(tm.active_task().is_none());

    tm.add_task("Task 1".to_string(), TaskSection::Current);
    assert_eq!(tm.active_task().map(|t| &t.text), Some(&"Task 1".to_string()));

    tm.add_task("Task 2".to_string(), TaskSection::Current);
    assert_eq!(tm.active_task().map(|t| &t.text), Some(&"Task 1".to_string()));
}

#[test]
fn test_reorder_tasks() {
    let mut tm = TaskManager::new();
    tm.add_task("Task 1".to_string(), TaskSection::Backlog);
    tm.add_task("Task 2".to_string(), TaskSection::Backlog);
    tm.add_task("Task 3".to_string(), TaskSection::Backlog);

    // Reorder down (swap 0 and 1)
    tm.reorder_down(TaskSection::Backlog, 0);
    assert_eq!(tm.backlog()[0].text, "Task 2");
    assert_eq!(tm.backlog()[1].text, "Task 1");
    assert_eq!(tm.backlog()[2].text, "Task 3");

    // Reorder up (swap 1 and 2)
    tm.reorder_up(TaskSection::Backlog, 2);
    assert_eq!(tm.backlog()[0].text, "Task 2");
    assert_eq!(tm.backlog()[1].text, "Task 3");
    assert_eq!(tm.backlog()[2].text, "Task 1");

    // Try to move first item up (should do nothing)
    tm.reorder_up(TaskSection::Backlog, 0);
    assert_eq!(tm.backlog()[0].text, "Task 2");

    // Try to move last item down (should do nothing)
    tm.reorder_down(TaskSection::Backlog, 2);
    assert_eq!(tm.backlog()[2].text, "Task 1");
}

#[test]
fn test_delete_task_from_backlog() {
    let mut tm = TaskManager::new();
    tm.add_task("Task 1".to_string(), TaskSection::Backlog);
    tm.add_task("Task 2".to_string(), TaskSection::Backlog);
    tm.add_task("Task 3".to_string(), TaskSection::Backlog);

    tm.delete_task(TaskSection::Backlog, 1);
    assert_eq!(tm.section_len(TaskSection::Backlog), 2);
    assert_eq!(tm.backlog()[0].text, "Task 1");
    assert_eq!(tm.backlog()[1].text, "Task 3");
}

#[test]
fn test_delete_task_from_current() {
    let mut tm = TaskManager::new();
    tm.add_task("Task 1".to_string(), TaskSection::Current);
    tm.add_task("Task 2".to_string(), TaskSection::Current);

    tm.delete_task(TaskSection::Current, 0);
    assert_eq!(tm.section_len(TaskSection::Current), 1);
    assert_eq!(tm.current()[0].text, "Task 2");
}

#[test]
fn test_delete_task_from_completed() {
    let mut tm = TaskManager::new();
    tm.add_task("Task 1".to_string(), TaskSection::Completed);
    tm.add_task("Task 2".to_string(), TaskSection::Completed);
    tm.add_task("Task 3".to_string(), TaskSection::Completed);

    tm.delete_task(TaskSection::Completed, 2);
    assert_eq!(tm.section_len(TaskSection::Completed), 2);
    assert_eq!(tm.completed()[0].text, "Task 1");
    assert_eq!(tm.completed()[1].text, "Task 2");
}

#[test]
fn test_delete_task_invalid_index() {
    let mut tm = TaskManager::new();
    tm.add_task("Task 1".to_string(), TaskSection::Backlog);

    // Try to delete with invalid index (should do nothing)
    tm.delete_task(TaskSection::Backlog, 5);
    assert_eq!(tm.section_len(TaskSection::Backlog), 1);
    assert_eq!(tm.backlog()[0].text, "Task 1");
}

#[test]
fn test_delete_from_empty_section() {
    let mut tm = TaskManager::new();

    // Try to delete from empty section (should do nothing)
    tm.delete_task(TaskSection::Backlog, 0);
    assert_eq!(tm.section_len(TaskSection::Backlog), 0);
}

#[test]
fn test_load_splits_sections() {
    let lines: Vec<String> = vec![
        "- [ ] Open one".to_string(),
        "- [x] Done one".to_string(),
        "- [ ] Open two".to_string(),
    ];
    let tm = TaskManager::load(lines);
    assert!(tm.has_file_path());
    assert_eq!(tm.backlog().len(), 2);
    assert_eq!(tm.backlog()[0].text, "Open one");
    assert_eq!(tm.backlog()[1].text, "Open two");
    assert_eq!(tm.current().len(), 0);
    assert_eq!(tm.completed().len(), 1);
    assert_eq!(tm.completed()[0].text, "Done one");
}

#[test]
fn test_adopt_file_merges_missing() {
    let mut tm = TaskManager::new();
    tm.add_task("Existing".to_string(), TaskSection::Backlog);
    tm.add_task("Busy".to_string(), TaskSection::Current);
    tm.adopt_file(vec![
        "- [ ] Existing".to_string(),
        "- [ ] Busy".to_string(),
        "- [ ] Fresh".to_string(),
        "- [x] Done".to_string(),
    ]);
    assert!(tm.has_file_path());
    assert_eq!(tm.backlog().len(), 2);
    assert_eq!(tm.backlog()[1].text, "Fresh");
    assert_eq!(tm.current().len(), 1);
    assert_eq!(tm.completed().len(), 1);
    assert_eq!(tm.completed()[0].text, "Done");
}

// Scenario: file has one unchecked task, store is empty: the diff proposes
// bringing it in as incomplete.
#[test]
fn test_compute_sync_new_file_task() {
    let mut tm = TaskManager::new();
    tm.refresh_file(vec!["- [ ] Buy milk".to_string()]);
    let items = tm.compute_sync_items();
    assert_eq!(items.len(), 1);
    assert_eq!(items[0].text, "Buy milk");
    assert_eq!(items[0].resolution, SyncResolution::Incomplete);
}

// Scenario: the file marked a current task as done; applying the diff moves
// it to completed and keeps the file line checked.
#[test]
fn test_sync_file_completion_wins() {
    let mut tm = TaskManager::new();
    tm.add_task("Write report".to_string(), TaskSection::Current);
    tm.refresh_file(vec!["- [x] Write report".to_string()]);
    let items = tm.compute_sync_items();
    assert_eq!(items.len(), 1);
    assert_eq!(items[0].text, "Write report");
    assert_eq!(items[0].resolution, SyncResolution::Complete);

    tm.apply_sync(&items);
    assert_eq!(tm.current().len(), 0);
    assert_eq!(tm.completed().len(), 1);
    assert_eq!(tm.completed()[0].text, "Write report");
    let file = tm.file.as_ref().unwrap();
    assert_eq!(file.lines()[0], "- [x] Write report");
}

#[test]
fn test_compute_sync_without_file_is_empty() {
    let mut tm = TaskManager::new();
    tm.add_task("Only here".to_string(), TaskSection::Backlog);
    assert_eq!(tm.compute_sync_items().len(), 0);
}

// Idempotence: computing the diff twice with no intervening apply yields
// the same items.
#[test]
fn test_compute_sync_idempotent() {
    let mut tm = TaskManager::new();
    tm.add_task("Alpha".to_string(), TaskSection::Backlog);
    tm.add_task("Beta".to_string(), TaskSection::Completed);
    tm.refresh_file(vec![
        "- [ ] Gamma".to_string(),
        "- [x] Alpha".to_string(),
    ]);
    let first = tm.compute_sync_items();
    let second = tm.compute_sync_items();
    assert_eq!(first.len(), second.len());
    for (a, b) in first.iter().zip(second.iter()) {
        assert_eq!(a.text, b.text);
        assert_eq!(a.resolution, b.resolution);
    }
}

// The completion bias: a task completed in the app but reopened in the file
// resolves to complete, not incomplete.
#[test]
fn test_compute_sync_app_completion_wins() {
    let mut tm = TaskManager::new();
    tm.add_task("Settled".to_string(), TaskSection::Completed);
    tm.refresh_file(vec!["- [ ] Settled".to_string()]);
    let items = tm.compute_sync_items();
    assert_eq!(items.len(), 1);
    assert_eq!(items[0].text, "Settled");
    assert_eq!(items[0].resolution, SyncResolution::Complete);
}

// App-only tasks are pushed into the file with their app state.
#[test]
fn test_compute_sync_app_only_tasks() {
    let mut tm = TaskManager::new();
    tm.add_task("Open here".to_string(), TaskSection::Backlog);
    tm.add_task("Done here".to_string(), TaskSection::Completed);
    tm.refresh_file(vec!["# notes".to_string()]);
    let items = tm.compute_sync_items();
    assert_eq!(items.len(), 2);
    assert_eq!(items[0].text, "Open here");
    assert_eq!(items[0].resolution, SyncResolution::Incomplete);
    assert_eq!(items[1].text, "Done here");
    assert_eq!(items[1].resolution, SyncResolution::Complete);
}

// No duplication: applying an incomplete item whose text the backlog
// already has leaves a single copy.
#[test]
fn test_apply_sync_no_duplicate() {
    let mut tm = TaskManager::new();
    tm.add_task("Once".to_string(), TaskSection::Backlog);
    tm.refresh_file(vec!["- [ ] Once".to_string()]);
    let items = vec![SyncItem { text: "Once".to_string(), resolution: SyncResolution::Incomplete }];
    tm.apply_sync(&items);
    assert_eq!(tm.backlog().len(), 1);
    assert_eq!(tm.backlog()[0].text, "Once");
}

// Remove deletes the text from every section and from the file.
#[test]
fn test_apply_sync_remove_everywhere() {
    let mut tm = TaskManager::new();
    tm.add_task("Doomed".to_string(), TaskSection::Backlog);
    tm.add_task("Doomed".to_string(), TaskSection::Completed);
    tm.add_task("Kept".to_string(), TaskSection::Backlog);
    tm.refresh_file(vec!["- [ ] Doomed".to_string(), "- [ ] Kept".to_string()]);
    let items = vec![SyncItem { text: "Doomed".to_string(), resolution: SyncResolution::Remove }];
    tm.apply_sync(&items);
    assert_eq!(tm.backlog().len(), 1);
    assert_eq!(tm.backlog()[0].text, "Kept");
    assert_eq!(tm.completed().len(), 0);
    let file = tm.file.as_ref().unwrap();
    assert_eq!(file.lines().len(), 1);
    assert_eq!(file.lines()[0], "- [ ] Kept");
}

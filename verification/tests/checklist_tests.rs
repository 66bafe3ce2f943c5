use pomo_tui::checklist::{find_line_index, parse_task_lines, TaskFile};
use pomo_tui::sync::{SyncItem, SyncResolution};

fn lines_of(strs: &[&str]) -> Vec<String> {
    strs.iter().map(|s| s.to_string()).collect()
}

#[test]
fn test_parse_task_lines_empty() {
    let lines: Vec<String> = vec![];
    let parsed = parse_task_lines(&lines);
    assert_eq!(parsed.incomplete.len(), 0);
    assert_eq!(parsed.complete.len(), 0);
}

#[test]
fn test_parse_task_lines_mixed() {
    let lines = lines_of(&[
        "# Tasks",
        "- [ ] Incomplete task 1",
        "- [x] Complete task 1",
        "- [ ] Incomplete task 2",
        "- [X] Complete task 2",
        "Some random text",
        "  - [ ] Indented incomplete",
        "  - [x] Indented complete",
    ]);
    let parsed = parse_task_lines(&lines);
    assert_eq!(parsed.incomplete.len(), 3);
    assert_eq!(parsed.complete.len(), 3);
    assert_eq!(parsed.incomplete[0], "Incomplete task 1");
    assert_eq!(parsed.incomplete[1], "Incomplete task 2");
    assert_eq!(parsed.incomplete[2], "Indented incomplete");
    assert_eq!(parsed.complete[0], "Complete task 1");
    assert_eq!(parsed.complete[1], "Complete task 2");
    assert_eq!(parsed.complete[2], "Indented complete");
}

#[test]
fn test_parse_task_lines_ignores_empty() {
    let lines = lines_of(&["- [ ] ", "- [x] ", "- [ ] Valid task"]);
    let parsed = parse_task_lines(&lines);
    assert_eq!(parsed.incomplete.len(), 1);
    assert_eq!(parsed.complete.len(), 0);
    assert_eq!(parsed.incomplete[0], "Valid task");
}

#[test]
fn test_find_line_index() {
    let lines = lines_of(&["# Header", "- [ ] Task 1", "- [x] Task 2", "- [ ] Task 3"]);

    // Find incomplete task
    assert_eq!(find_line_index("Task 1", &lines, &vec![]), Some(1));

    // Find complete task
    assert_eq!(find_line_index("Task 2", &lines, &vec![]), Some(2));

    // Task not found
    assert_eq!(find_line_index("Nonexistent", &lines, &vec![]), None);

    // Task already used
    assert_eq!(find_line_index("Task 1", &lines, &vec![1]), None);
}

#[test]
fn test_task_file_load_parses() {
    let (file, parsed) = TaskFile::load(lines_of(&[
        "# Tasks",
        "- [ ] Task 1",
        "- [x] Task 2",
        "- [ ] Task 3",
    ]));
    assert_eq!(file.lines().len(), 4);
    assert_eq!(parsed.incomplete.len(), 2);
    assert_eq!(parsed.complete.len(), 1);
    assert_eq!(parsed.incomplete[0], "Task 1");
    assert_eq!(parsed.complete[0], "Task 2");
}

#[test]
fn test_write_sync_mark_complete() {
    let mut file = TaskFile::new(lines_of(&["- [ ] Task 1", "- [ ] Task 2"]));
    let items = vec![SyncItem { text: "Task 1".to_string(), resolution: SyncResolution::Complete }];
    file.write_sync(&items);
    assert_eq!(file.lines()[0], "- [x] Task 1");
    assert_eq!(file.lines()[1], "- [ ] Task 2");
}

#[test]
fn test_write_sync_mark_incomplete() {
    let mut file = TaskFile::new(lines_of(&["- [x] Task 1", "- [ ] Task 2"]));
    let items =
        vec![SyncItem { text: "Task 1".to_string(), resolution: SyncResolution::Incomplete }];
    file.write_sync(&items);
    assert_eq!(file.lines()[0], "- [ ] Task 1");
    assert_eq!(file.lines()[1], "- [ ] Task 2");
}

#[test]
fn test_write_sync_add_new_task() {
    let mut file = TaskFile::new(lines_of(&["- [ ] Task 1"]));
    let items =
        vec![SyncItem { text: "New Task".to_string(), resolution: SyncResolution::Incomplete }];
    file.write_sync(&items);
    assert_eq!(file.lines()[0], "- [ ] Task 1");
    assert_eq!(file.lines()[1], "- [ ] New Task");
}

#[test]
fn test_write_sync_remove_task() {
    let mut file = TaskFile::new(lines_of(&["- [ ] Task 1", "- [ ] Task 2", "- [ ] Task 3"]));
    let items = vec![SyncItem { text: "Task 2".to_string(), resolution: SyncResolution::Remove }];
    file.write_sync(&items);
    assert_eq!(file.lines().len(), 2);
    assert_eq!(file.lines()[0], "- [ ] Task 1");
    assert_eq!(file.lines()[1], "- [ ] Task 3");
}

#[test]
fn test_write_sync_preserves_indentation() {
    let mut file = TaskFile::new(lines_of(&["  - [ ] Indented task"]));
    let items =
        vec![SyncItem { text: "Indented task".to_string(), resolution: SyncResolution::Complete }];
    file.write_sync(&items);
    assert_eq!(file.lines()[0], "  - [x] Indented task");
}

#[test]
fn test_write_sync_preserves_passthrough() {
    let mut file = TaskFile::new(lines_of(&["# Heading", "- [ ] Task 1", "notes in between"]));
    let items = vec![SyncItem { text: "Task 1".to_string(), resolution: SyncResolution::Complete }];
    file.write_sync(&items);
    assert_eq!(file.lines()[0], "# Heading");
    assert_eq!(file.lines()[1], "- [x] Task 1");
    assert_eq!(file.lines()[2], "notes in between");
}

#[test]
fn test_write_sync_multiple_operations() {
    let mut file = TaskFile::new(lines_of(&["- [ ] Task 1", "- [x] Task 2", "- [ ] Task 3"]));
    let items = vec![
        SyncItem { text: "Task 1".to_string(), resolution: SyncResolution::Complete },
        SyncItem { text: "Task 2".to_string(), resolution: SyncResolution::Incomplete },
        SyncItem { text: "Task 3".to_string(), resolution: SyncResolution::Remove },
        SyncItem { text: "New Task 4".to_string(), resolution: SyncResolution::Incomplete },
    ];
    file.write_sync(&items);
    assert_eq!(
        file.lines(),
        &lines_of(&["- [x] Task 1", "- [ ] Task 2", "- [ ] New Task 4"])
    );
}

#[test]
fn test_parse_task_lines_trims_tabs_and_trailing_space() {
    let lines = lines_of(&["\t- [ ] Tabbed task", "- [x] Padded task   "]);
    let parsed = parse_task_lines(&lines);
    assert_eq!(parsed.incomplete, vec!["Tabbed task".to_string()]);
    assert_eq!(parsed.complete, vec!["Padded task".to_string()]);
}

// Positional dedup: with two identical-text lines, resolving that text
// changes only the first line.
#[test]
fn test_write_sync_positional_dedup() {
    let mut file = TaskFile::new(lines_of(&["- [ ] Twice", "- [ ] Twice"]));
    let items = vec![SyncItem { text: "Twice".to_string(), resolution: SyncResolution::Complete }];
    file.write_sync(&items);
    assert_eq!(file.lines()[0], "- [x] Twice");
    assert_eq!(file.lines()[1], "- [ ] Twice");
}

// Round trip: re-parsing the written file shows each item under the marker
// its resolution asked for, and a removed text under neither.
#[test]
fn test_write_sync_round_trip() {
    let mut file = TaskFile::new(lines_of(&["- [ ] Open", "- [x] Done", "- [ ] Gone"]));
    let items = vec![
        SyncItem { text: "Open".to_string(), resolution: SyncResolution::Complete },
        SyncItem { text: "Done".to_string(), resolution: SyncResolution::Incomplete },
        SyncItem { text: "Gone".to_string(), resolution: SyncResolution::Remove },
    ];
    file.write_sync(&items);
    let parsed = file.read_tasks();
    assert!(parsed.complete.contains(&"Open".to_string()));
    assert!(parsed.incomplete.contains(&"Done".to_string()));
    assert!(!parsed.incomplete.contains(&"Gone".to_string()));
    assert!(!parsed.complete.contains(&"Gone".to_string()));
}

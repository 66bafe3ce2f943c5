use pomo_tui::panel::{KeyHandleResult, PanelId};
use pomo_tui::task::TaskSection;
use pomo_tui::task_manager::TaskManager;
use pomo_tui::tasks_panel::{scroll_offset, truncate_with_ellipsis, TasksKey, TasksPanel};
use pomo_tui::timer::Timer;
use pomo_tui::timer_panel::{wrap_line_count, TimerPanel};

#[test]
fn test_truncate_with_ellipsis() {
    // No truncation needed
    assert_eq!(truncate_with_ellipsis("Hello", 10), "Hello");
    assert_eq!(truncate_with_ellipsis("Hello world", 11), "Hello world");
    assert_eq!(truncate_with_ellipsis("Hello", 5), "Hello");

    // Basic truncation
    assert_eq!(truncate_with_ellipsis("Hello world", 8), "Hello...");
    assert_eq!(truncate_with_ellipsis("This is a test", 10), "This is...");

    // Word boundary (should not split words)
    assert_eq!(truncate_with_ellipsis("Hello world test", 12), "Hello...");
    assert_eq!(truncate_with_ellipsis("One two three four five", 15), "One two...");

    // Long single word (too long to fit)
    assert_eq!(truncate_with_ellipsis("Supercalifragilisticexpialidocious", 10), "...");

    // Very small widths
    assert_eq!(truncate_with_ellipsis("Hello", 1), ".");
    assert_eq!(truncate_with_ellipsis("Hello", 2), "..");
    assert_eq!(truncate_with_ellipsis("Hello", 3), "...");
}

#[test]
fn test_scroll_offset() {
    // No focus returns 0
    assert_eq!(scroll_offset(10, 5, None), 0);

    // All items fit in view, no scroll needed
    assert_eq!(scroll_offset(5, 10, Some(0)), 0);
    assert_eq!(scroll_offset(5, 10, Some(4)), 0);

    // Cursor at top stays at offset 0
    assert_eq!(scroll_offset(20, 10, Some(0)), 0);

    // Cursor near top with margin=2, still at offset 0
    assert_eq!(scroll_offset(20, 10, Some(2)), 0);

    // Cursor moves down: index 10, visible=10, margin=2
    // min_offset_for_cursor = 10 - (10 - 2 - 1) = 3
    assert_eq!(scroll_offset(20, 10, Some(10)), 3);

    // Cursor at bottom (index 19), visible=10
    assert_eq!(scroll_offset(20, 10, Some(19)), 10);

    // Respects max offset
    assert_eq!(scroll_offset(10, 10, Some(15)), 0);
    assert_eq!(scroll_offset(15, 10, Some(20)), 5);

    // Zero visible height
    assert_eq!(scroll_offset(10, 0, Some(5)), 0);
}

#[test]
fn test_tasks_panel_default_focus() {
    let panel = TasksPanel::default();
    assert_eq!(panel.focus.section, TaskSection::Backlog);
    assert_eq!(panel.focus.index, 0);
}

#[test]
fn test_move_up_down_navigation() {
    let mut panel = TasksPanel::default();
    let mut tm = TaskManager::new();
    tm.add_task("Task 1".to_string(), TaskSection::Backlog);
    tm.add_task("Task 2".to_string(), TaskSection::Backlog);
    tm.add_task("Task 3".to_string(), TaskSection::Backlog);

    // Move down
    assert_eq!(panel.focus.index, 0);
    panel.move_down(&tm);
    assert_eq!(panel.focus.index, 1);
    panel.move_down(&tm);
    assert_eq!(panel.focus.index, 2);

    // Should not go beyond last item
    panel.move_down(&tm);
    assert_eq!(panel.focus.index, 2);

    // Move up
    panel.move_up();
    assert_eq!(panel.focus.index, 1);
    panel.move_up();
    assert_eq!(panel.focus.index, 0);

    // Should not go below 0
    panel.move_up();
    assert_eq!(panel.focus.index, 0);
}

#[test]
fn test_page_up_down_navigation() {
    let mut panel = TasksPanel { section_page_size: 5, ..Default::default() };
    let mut tm = TaskManager::new();
    for i in 0..20 {
        tm.add_task(format!("Task {i}"), TaskSection::Backlog);
    }

    // Page down
    assert_eq!(panel.focus.index, 0);
    panel.page_down(&tm);
    assert_eq!(panel.focus.index, 5);
    panel.page_down(&tm);
    assert_eq!(panel.focus.index, 10);

    // Should clamp to last item
    panel.page_down(&tm);
    panel.page_down(&tm);
    assert_eq!(panel.focus.index, 19);

    // Page up
    panel.page_up();
    assert_eq!(panel.focus.index, 14);
    panel.page_up();
    assert_eq!(panel.focus.index, 9);
    panel.page_up();
    assert_eq!(panel.focus.index, 4);

    // Jump to near beginning and page up to boundary
    panel.focus.index = 2;
    panel.page_up();
    assert_eq!(panel.focus.index, 0);

    // Should not go negative
    panel.page_up();
    assert_eq!(panel.focus.index, 0);
}

#[test]
fn test_section_navigation() {
    let mut panel = TasksPanel::default();
    let tm = TaskManager::new();

    // Next section cycling
    assert_eq!(panel.focus.section, TaskSection::Backlog);
    panel.next_section(&tm);
    assert_eq!(panel.focus.section, TaskSection::Current);
    panel.next_section(&tm);
    assert_eq!(panel.focus.section, TaskSection::Completed);
    panel.next_section(&tm);
    assert_eq!(panel.focus.section, TaskSection::Backlog);

    // Previous section cycling
    panel.prev_section(&tm);
    assert_eq!(panel.focus.section, TaskSection::Completed);
    panel.prev_section(&tm);
    assert_eq!(panel.focus.section, TaskSection::Current);
    panel.prev_section(&tm);
    assert_eq!(panel.focus.section, TaskSection::Backlog);
}

#[test]
fn test_focus_clamping() {
    let mut panel = TasksPanel::default();
    let mut tm = TaskManager::new();

    // Clamp in empty section
    panel.focus.index = 5;
    panel.clamp_focus(&tm);
    assert_eq!(panel.focus.index, 0); // Clamped to 0 when section is empty

    // Clamp with items present
    tm.add_task("Task 1".to_string(), TaskSection::Backlog);
    tm.add_task("Task 2".to_string(), TaskSection::Backlog);
    panel.focus.index = 5;
    panel.clamp_focus(&tm);
    assert_eq!(panel.focus.index, 1); // Clamped to last item (index 1)

    // No clamp when already valid
    panel.focus.index = 1;
    panel.clamp_focus(&tm);
    assert_eq!(panel.focus.index, 1); // No change

    // Section switching auto-clamps focus
    for i in 0..5 {
        tm.add_task(format!("Backlog {i}"), TaskSection::Backlog);
    }
    tm.add_task("Current 1".to_string(), TaskSection::Current);
    tm.add_task("Current 2".to_string(), TaskSection::Current);

    panel.focus.index = 4; // Last item in backlog (now has 7 items)
    panel.next_section(&tm); // Switch to Current

    // Index should be clamped to 1 (last item in Current)
    assert_eq!(panel.focus.section, TaskSection::Current);
    assert_eq!(panel.focus.index, 1);
}

#[test]
fn test_delete_task_from_any_section() {
    let mut panel = TasksPanel::default();
    let mut tm = TaskManager::new();

    // Add tasks to all sections
    tm.add_task("Backlog 1".to_string(), TaskSection::Backlog);
    tm.add_task("Backlog 2".to_string(), TaskSection::Backlog);
    tm.add_task("Current 1".to_string(), TaskSection::Current);
    tm.add_task("Current 2".to_string(), TaskSection::Current);
    tm.add_task("Completed 1".to_string(), TaskSection::Completed);
    tm.add_task("Completed 2".to_string(), TaskSection::Completed);

    // Delete from Backlog
    panel.focus.section = TaskSection::Backlog;
    panel.focus.index = 0;
    panel.handle_key(TasksKey::Delete, &mut tm);
    assert_eq!(tm.section_len(TaskSection::Backlog), 1);
    assert_eq!(tm.backlog()[0].text, "Backlog 2");
    assert_eq!(panel.focus.index, 0);

    // Delete from Current
    panel.focus.section = TaskSection::Current;
    panel.focus.index = 1;
    panel.handle_key(TasksKey::Delete, &mut tm);
    assert_eq!(tm.section_len(TaskSection::Current), 1);
    assert_eq!(tm.current()[0].text, "Current 1");
    assert_eq!(panel.focus.index, 0); // Clamped after deletion

    // Delete from Completed
    panel.focus.section = TaskSection::Completed;
    panel.focus.index = 0;
    panel.handle_key(TasksKey::Delete, &mut tm);
    assert_eq!(tm.section_len(TaskSection::Completed), 1);
    assert_eq!(tm.completed()[0].text, "Completed 2");
    assert_eq!(panel.focus.index, 0);
}

// Scenario: deleting the middle of a three-task backlog while focused past
// the end clamps the focus to the new last row.
#[test]
fn test_delete_clamps_focus() {
    let mut panel = TasksPanel::default();
    let mut tm = TaskManager::new();
    tm.add_task("A".to_string(), TaskSection::Backlog);
    tm.add_task("B".to_string(), TaskSection::Backlog);
    tm.add_task("C".to_string(), TaskSection::Backlog);

    tm.delete_task(TaskSection::Backlog, 1);
    assert_eq!(tm.backlog()[0].text, "A");
    assert_eq!(tm.backlog()[1].text, "C");

    panel.focus.index = 2;
    panel.clamp_focus(&tm);
    assert_eq!(panel.focus.index, 1);
}

#[test]
fn test_handle_key_reorder_moves_focus() {
    let mut panel = TasksPanel::default();
    let mut tm = TaskManager::new();
    tm.add_task("First".to_string(), TaskSection::Backlog);
    tm.add_task("Second".to_string(), TaskSection::Backlog);

    let r = panel.handle_key(TasksKey::ReorderDown, &mut tm);
    assert_eq!(r, KeyHandleResult::Consumed);
    assert_eq!(tm.backlog()[0].text, "Second");
    assert_eq!(tm.backlog()[1].text, "First");
    assert_eq!(panel.focus.index, 1);

    let r = panel.handle_key(TasksKey::ReorderUp, &mut tm);
    assert_eq!(r, KeyHandleResult::Consumed);
    assert_eq!(tm.backlog()[0].text, "First");
    assert_eq!(panel.focus.index, 0);
}

#[test]
fn test_handle_key_add_and_other() {
    let mut panel = TasksPanel::default();
    let mut tm = TaskManager::new();
    assert_eq!(panel.handle_key(TasksKey::Add, &mut tm), KeyHandleResult::AddTask);
    assert_eq!(panel.handle_key(TasksKey::Other, &mut tm), KeyHandleResult::Ignored);
}

#[test]
fn test_panel_id_helpers() {
    assert_eq!(PanelId::all(), [PanelId::Timer, PanelId::Tasks]);
    assert_eq!(PanelId::from_number(1), Some(PanelId::Timer));
    assert_eq!(PanelId::from_number(2), Some(PanelId::Tasks));
    assert_eq!(PanelId::from_number(3), None);
}

#[test]
fn test_timer_panel_shortcuts() {
    let panel = TimerPanel::default();
    let mut timer = Timer::default();
    let s = panel.shortcuts(&timer, false);
    assert_eq!(s.len(), 3);
    assert_eq!(s[2].key, "Tab");

    let s = panel.shortcuts(&timer, true);
    assert_eq!(s.len(), 4);
    assert_eq!(s[3].key, "X");

    timer.start();
    let s = panel.shortcuts(&timer, true);
    assert_eq!(s.len(), 3);
    assert_eq!(s[0].key, "Space");
    assert_eq!(s[2].key, "X");
}

#[test]
fn test_tasks_panel_shortcuts() {
    let panel = TasksPanel::default();
    let s = panel.shortcuts();
    assert_eq!(s.len(), 8);
    assert_eq!(s[0].key, "Tab");
    assert_eq!(s[7].description, "Sync");
}

#[test]
fn test_tick_animation_wraps() {
    let mut panel = TimerPanel::default();
    panel.tick_animation();
    assert_eq!(panel.tick_count, 1);
    panel.tick_count = u32::MAX;
    panel.tick_animation();
    assert_eq!(panel.tick_count, 0);
}

#[test]
fn test_wrap_line_count_basics() {
    assert_eq!(wrap_line_count("", 10), 1);
    assert_eq!(wrap_line_count("hello", 0), 1);
    assert_eq!(wrap_line_count("hello", 10), 1);
    assert_eq!(wrap_line_count("hello world", 5), 2);
    assert_eq!(wrap_line_count("one two three", 7), 2);
    assert_eq!(wrap_line_count("a b c d", 3), 2);
}

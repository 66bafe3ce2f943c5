use pomo_tui::digits::{render_time, render_wave, wave_position, DIGIT_HEIGHT};
use pomo_tui::task_manager::TaskManager;
use pomo_tui::sync::{SyncAction, SyncItem, SyncKey, SyncOverlay, SyncResolution};
use pomo_tui::task::TaskSection;
use pomo_tui::task_input::{InputKey, TaskInputAction, TaskInputOverlay};

fn items() -> Vec<SyncItem> {
    vec![
        SyncItem { text: "One".to_string(), resolution: SyncResolution::Incomplete },
        SyncItem { text: "Two".to_string(), resolution: SyncResolution::Complete },
    ]
}

#[test]
fn test_sync_overlay_navigation() {
    let mut overlay = SyncOverlay::new(items());
    assert_eq!(overlay.focused, 0);
    assert!(matches!(overlay.handle_key(SyncKey::Down), SyncAction::Consumed));
    assert_eq!(overlay.focused, 1);
    // stops at the last item
    overlay.handle_key(SyncKey::Down);
    assert_eq!(overlay.focused, 1);
    overlay.handle_key(SyncKey::Up);
    assert_eq!(overlay.focused, 0);
    overlay.handle_key(SyncKey::Up);
    assert_eq!(overlay.focused, 0);
}

#[test]
fn test_sync_overlay_marking() {
    let mut overlay = SyncOverlay::new(items());
    overlay.handle_key(SyncKey::MarkRemove);
    assert_eq!(overlay.items[0].resolution, SyncResolution::Remove);
    assert_eq!(overlay.items[0].text, "One");
    overlay.handle_key(SyncKey::Down);
    overlay.handle_key(SyncKey::MarkIncomplete);
    assert_eq!(overlay.items[1].resolution, SyncResolution::Incomplete);
    overlay.handle_key(SyncKey::MarkComplete);
    assert_eq!(overlay.items[1].resolution, SyncResolution::Complete);
}

#[test]
fn test_sync_overlay_confirm_takes_items() {
    let mut overlay = SyncOverlay::new(items());
    match overlay.handle_key(SyncKey::Confirm) {
        SyncAction::Apply(taken) => {
            assert_eq!(taken.len(), 2);
            assert_eq!(taken[0].text, "One");
            assert_eq!(taken[1].text, "Two");
        },
        _ => panic!("expected the items back"),
    }
    assert_eq!(overlay.items.len(), 0);
}

#[test]
fn test_sync_overlay_dismiss() {
    let mut overlay = SyncOverlay::new(items());
    assert!(matches!(overlay.handle_key(SyncKey::Dismiss), SyncAction::Dismiss));
    assert_eq!(overlay.items.len(), 2);
}

#[test]
fn test_task_input_editing() {
    let mut overlay = TaskInputOverlay::new(TaskSection::Backlog);
    overlay.handle_key(InputKey::Char('h'));
    overlay.handle_key(InputKey::Char('i'));
    assert_eq!(overlay.text, "hi");
    assert_eq!(overlay.cursor, 2);

    overlay.handle_key(InputKey::Left);
    overlay.handle_key(InputKey::Char('a'));
    assert_eq!(overlay.text, "hai");
    assert_eq!(overlay.cursor, 2);

    overlay.handle_key(InputKey::Backspace);
    assert_eq!(overlay.text, "hi");
    assert_eq!(overlay.cursor, 1);

    overlay.handle_key(InputKey::Right);
    assert_eq!(overlay.cursor, 2);
    overlay.handle_key(InputKey::Right);
    assert_eq!(overlay.cursor, 2);
}

#[test]
fn test_task_input_submit_trims() {
    let mut overlay = TaskInputOverlay::new(TaskSection::Current);
    for c in "  Buy milk ".chars() {
        overlay.handle_key(InputKey::Char(c));
    }
    match overlay.handle_key(InputKey::Submit) {
        TaskInputAction::Submit { text, section } => {
            assert_eq!(text, "Buy milk");
            assert_eq!(section, TaskSection::Current);
        },
        _ => panic!("expected a submission"),
    }
}

#[test]
fn test_task_input_submit_empty_dismisses() {
    let mut overlay = TaskInputOverlay::new(TaskSection::Backlog);
    overlay.handle_key(InputKey::Char(' '));
    assert!(matches!(overlay.handle_key(InputKey::Submit), TaskInputAction::Dismiss));
}

// Full sync round: compute a diff, override one resolution in the overlay,
// confirm, and apply the result to store and file image.
#[test]
fn test_sync_flow_with_override() {
    let mut tm = TaskManager::new();
    tm.add_task("Keep".to_string(), TaskSection::Backlog);
    tm.refresh_file(vec!["- [ ] Keep".to_string(), "- [ ] Stale".to_string()]);

    let mut overlay = SyncOverlay::new(tm.compute_sync_items());
    assert_eq!(overlay.items.len(), 1);
    assert_eq!(overlay.items[0].text, "Stale");
    assert_eq!(overlay.items[0].resolution, SyncResolution::Incomplete);

    // the user overrides the incoming task to a removal and confirms
    overlay.handle_key(SyncKey::MarkRemove);
    let taken = match overlay.handle_key(SyncKey::Confirm) {
        SyncAction::Apply(items) => items,
        _ => panic!("expected the items back"),
    };
    tm.apply_sync(&taken);

    assert_eq!(tm.backlog().len(), 1);
    assert_eq!(tm.backlog()[0].text, "Keep");
    let file = tm.file.as_ref().unwrap();
    assert_eq!(file.lines(), &vec!["- [ ] Keep".to_string()]);
}

#[test]
fn test_render_time_shape() {
    let rows = render_time(25, 7);
    assert_eq!(rows.len(), DIGIT_HEIGHT);
    // 4 digits of 6 columns, a colon of 2, and 4 gaps of 2
    for row in &rows {
        assert_eq!(row.chars().count(), 4 * 6 + 2 + 4 * 2);
    }
    // the display shows minutes modulo the two-digit face
    let twenty_five = render_time(25, 0);
    let also_twenty_five = render_time(125, 0);
    assert_eq!(twenty_five, also_twenty_five);
}

#[test]
fn test_render_wave_positions() {
    assert_eq!(render_wave(None), "· · · · ·");
    assert_eq!(render_wave(Some(0)), "● · · · ·");
    assert_eq!(render_wave(Some(4)), "· · · · ●");
    assert_eq!(render_wave(Some(9)), "· · · · ·");
}

#[test]
fn test_wave_position_bounces() {
    let positions: Vec<usize> = (0u32..8).map(wave_position).collect();
    assert_eq!(positions, vec![0, 1, 2, 3, 4, 3, 2, 1]);
    assert_eq!(wave_position(8), 0);
}

use crush::editor::{EditOutcome, Editor, Key};

fn submit_line(ed: &mut Editor, line: &str) {
    for c in line.chars() {
        assert_eq!(ed.apply_key(Key::Char(c)), EditOutcome::Edited);
    }
    assert_eq!(ed.apply_key(Key::Enter), EditOutcome::Submitted);
    let taken = ed.take_line();
    assert_eq!(taken.as_str(), line);
    ed.submit(taken);
}

#[test]
fn test_history_navigation() {
    let mut ed = Editor::new();
    submit_line(&mut ed, "A");
    submit_line(&mut ed, "B");
    submit_line(&mut ed, "C");
    assert_eq!(ed.history_len(), 3);
    assert_eq!(ed.cursor(), 3);

    // One Up press recalls the newest entry, a second the one before it.
    assert_eq!(ed.apply_key(Key::Up), EditOutcome::Edited);
    assert_eq!(ed.buffer().as_str(), "C");
    assert_eq!(ed.apply_key(Key::Up), EditOutcome::Edited);
    assert_eq!(ed.buffer().as_str(), "B");

    // A Down press recalls the newest entry again.
    assert_eq!(ed.apply_key(Key::Down), EditOutcome::Edited);
    assert_eq!(ed.buffer().as_str(), "C");

    // Up at the oldest entry is a no-op.
    assert_eq!(ed.apply_key(Key::Up), EditOutcome::Edited);
    assert_eq!(ed.buffer().as_str(), "B");
    assert_eq!(ed.apply_key(Key::Up), EditOutcome::Edited);
    assert_eq!(ed.buffer().as_str(), "A");
    assert_eq!(ed.cursor(), 0);
    assert_eq!(ed.apply_key(Key::Up), EditOutcome::Unchanged);
    assert_eq!(ed.buffer().as_str(), "A");
    assert_eq!(ed.cursor(), 0);

    // Down past the newest entry is a no-op.
    assert_eq!(ed.apply_key(Key::Down), EditOutcome::Edited);
    assert_eq!(ed.apply_key(Key::Down), EditOutcome::Edited);
    assert_eq!(ed.buffer().as_str(), "C");
    assert_eq!(ed.cursor(), 2);
    assert_eq!(ed.apply_key(Key::Down), EditOutcome::Unchanged);
    assert_eq!(ed.buffer().as_str(), "C");
    assert_eq!(ed.cursor(), 2);
}

#[test]
fn test_character_and_backspace_editing() {
    let mut ed = Editor::new();

    // Backspace on an empty buffer is a no-op on the buffer.
    assert_eq!(ed.apply_key(Key::Backspace), EditOutcome::Edited);
    assert_eq!(ed.buffer().as_str(), "");

    assert_eq!(ed.apply_key(Key::Char('l')), EditOutcome::Edited);
    assert_eq!(ed.apply_key(Key::Char('x')), EditOutcome::Edited);
    assert_eq!(ed.buffer().as_str(), "lx");
    assert_eq!(ed.apply_key(Key::Backspace), EditOutcome::Edited);
    assert_eq!(ed.buffer().as_str(), "l");
    assert_eq!(ed.apply_key(Key::Char('s')), EditOutcome::Edited);
    assert_eq!(ed.buffer().as_str(), "ls");

    // Enter leaves the buffer as it is; taking the line clears it.
    assert_eq!(ed.apply_key(Key::Enter), EditOutcome::Submitted);
    assert_eq!(ed.buffer().as_str(), "ls");
    let line = ed.take_line();
    assert_eq!(line.as_str(), "ls");
    assert_eq!(ed.buffer().as_str(), "");
}

#[test]
fn test_ignored_keys_change_nothing() {
    let mut ed = Editor::new();
    assert_eq!(ed.apply_key(Key::Char('a')), EditOutcome::Edited);
    assert_eq!(ed.apply_key(Key::Other), EditOutcome::Unchanged);
    assert_eq!(ed.buffer().as_str(), "a");
    assert_eq!(ed.history_len(), 0);
    assert_eq!(ed.cursor(), 0);
}

#[test]
fn test_submit_resets_cursor_past_last_entry() {
    let mut ed = Editor::new();
    submit_line(&mut ed, "first");
    assert_eq!(ed.history_len(), 1);
    assert_eq!(ed.cursor(), 1);

    // Recall the entry, then submit another line: the cursor goes back to
    // one past the last entry.
    assert_eq!(ed.apply_key(Key::Up), EditOutcome::Edited);
    assert_eq!(ed.cursor(), 0);
    let recalled = ed.take_line();
    assert_eq!(recalled.as_str(), "first");
    ed.submit(recalled);
    assert_eq!(ed.history_len(), 2);
    assert_eq!(ed.cursor(), 2);
}

use kvform::form::{App, CurrentScreen, CurrentlyEditing};

#[test]
fn new_has_empty_initial_state() {
    let app = App::new();
    assert_eq!(app.key_input, "");
    assert_eq!(app.value_input, "");
    assert!(app.pairs.is_empty());
    assert!(matches!(app.current_screen, CurrentScreen::Main));
    assert!(matches!(app.currently_editing, None));
}

#[test]
fn toggle_enters_key_then_alternates() {
    let mut app = App::new();
    assert!(matches!(app.currently_editing, None));
    app.toggle_editing();
    assert!(matches!(app.currently_editing, Some(CurrentlyEditing::Key)));
    app.toggle_editing();
    assert!(matches!(app.currently_editing, Some(CurrentlyEditing::Value)));
    app.toggle_editing();
    assert!(matches!(app.currently_editing, Some(CurrentlyEditing::Key)));
}

#[test]
fn toggle_never_returns_to_absent() {
    let mut app = App::new();
    for _ in 0..20 {
        app.toggle_editing();
        assert!(app.currently_editing.is_some());
    }
}

#[test]
fn save_appends_pairs_in_call_order() {
    let mut app = App::new();
    let inputs = [("name", "ratatui"), ("", ""), ("name", "ratatui"), ("z", "1")];
    for (k, v) in inputs.iter() {
        app.key_input = String::from(*k);
        app.value_input = String::from(*v);
        app.save_key_value();
    }
    assert_eq!(app.pairs.len(), inputs.len());
    for (i, (k, v)) in inputs.iter().enumerate() {
        assert_eq!(app.pairs[i].key, *k);
        assert_eq!(app.pairs[i].value, *v);
    }
}

#[test]
fn save_clears_buffers_and_leaves_editing() {
    let mut app = App::new();
    app.current_screen = CurrentScreen::Editing;
    app.currently_editing = Some(CurrentlyEditing::Value);
    app.key_input = String::from("some key");
    app.value_input = String::from("some value");
    app.save_key_value();
    assert_eq!(app.key_input, "");
    assert_eq!(app.value_input, "");
    assert!(matches!(app.currently_editing, None));
    assert!(matches!(app.current_screen, CurrentScreen::Editing));
    assert_eq!(app.pairs.len(), 1);
    assert_eq!(app.pairs[0].key, "some key");
    assert_eq!(app.pairs[0].value, "some value");
}

#[test]
fn save_keeps_duplicates() {
    let mut app = App::new();
    for _ in 0..3 {
        app.key_input = String::from("dup");
        app.value_input = String::from("same");
        app.save_key_value();
    }
    assert_eq!(app.pairs.len(), 3);
    for p in app.pairs.iter() {
        assert_eq!(p.key, "dup");
        assert_eq!(p.value, "same");
    }
}

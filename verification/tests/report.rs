use usagi::report::record_err;

#[test]
fn record_err_stores_and_prefixes_label() {
    let mut state = None;
    assert!(record_err(&mut state, "_update", Err("main.lua:1: boom".to_string())));
    let stored = state.expect("should have recorded");
    assert!(stored.starts_with("_update: "), "got: {stored}");
    assert!(stored.contains("boom"), "got: {stored}");
    assert_eq!(stored, "_update: main.lua:1: boom");
}

#[test]
fn record_err_leaves_state_alone_on_ok() {
    let mut state = Some("previous".to_string());
    assert!(!record_err(&mut state, "_update", Ok(())));
    assert_eq!(state.as_deref(), Some("previous"));
}

#[test]
fn record_err_is_idempotent_for_repeated_messages() {
    let mut state = None;
    assert!(record_err(&mut state, "_update", Err("same".to_string())));
    let first = state.clone().expect("first should record");
    assert!(!record_err(&mut state, "_update", Err("same".to_string())));
    assert_eq!(state.as_deref(), Some(first.as_str()));
}

#[test]
fn record_err_records_new_message_after_old() {
    let mut state = None;
    record_err(&mut state, "_update", Err("alpha".to_string()));
    assert!(record_err(&mut state, "_update", Err("beta".to_string())));
    let stored = state.expect("second error should record");
    assert!(stored.contains("beta"), "got: {stored}");
    assert!(!stored.contains("alpha"), "old text should be replaced: {stored}");
}

#[test]
fn record_err_same_text_under_another_label_is_new() {
    let mut state = Some("_update: x".to_string());
    assert!(record_err(&mut state, "_draw", Err("x".to_string())));
    assert_eq!(state.as_deref(), Some("_draw: x"));
}

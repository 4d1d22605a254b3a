use executors::future::{Future, Promise, SharedState};

#[test]
fn future_test_just_works() {
    let mut state = SharedState::<i32>::new();

    let result = state.produce(1);
    assert!(result.is_ok());

    assert_eq!(state.consume(), Some(1));
}

#[test]
fn fresh_state_is_not_ready_and_yields_nothing() {
    let state = SharedState::<String>::default();
    assert!(!state.is_ready());
    assert_eq!(state.consume(), None);
}

#[test]
fn later_value_replaces_earlier_one() {
    let mut state = SharedState::<String>::new();
    assert!(state.produce("first".to_string()).is_ok());
    assert!(state.is_ready());
    assert!(state.produce("second".to_string()).is_ok());
    assert_eq!(state.consume(), Some("second".to_string()));
    assert_eq!(state.consume(), Some("second".to_string()));
}

#[test]
fn produce_keeps_the_condition_variable() {
    let mut state = SharedState::<u8>::new();
    let before = std::sync::Arc::clone(state.wait_cond());
    assert!(state.produce(3).is_ok());
    assert!(std::sync::Arc::ptr_eq(&before, state.wait_cond()));
}

use lri_rs::state::AppState;
use std::cell::Cell;

#[test]
fn sessions_are_opened_once_and_reused() {
    let opens = Cell::new(0);
    let mut state: AppState<String> = AppState::new();
    let open = |p: &str| {
        opens.set(opens.get() + 1);
        Ok(format!("session of {p}"))
    };
    let r = state.with_session("a.lri", open, |s: &String| Ok(s.len()));
    assert_eq!(r, Ok("session of a.lri".len()));
    let r = state.with_session("a.lri", open, |s: &String| Ok(s.clone()));
    assert_eq!(r, Ok("session of a.lri".to_string()));
    assert_eq!(opens.get(), 1);
    let r = state.with_session("b.lri", open, |s: &String| Ok(s.clone()));
    assert_eq!(r, Ok("session of b.lri".to_string()));
    assert_eq!(opens.get(), 2);
}

#[test]
fn failed_open_is_reported_and_not_cached() {
    let mut state: AppState<u32> = AppState::new();
    let r: Result<u32, String> =
        state.with_session("x.lri", |_: &str| Err("no such file".to_string()), |s: &u32| Ok(*s));
    assert_eq!(r, Err("no such file".to_string()));
    let r = state.with_session("x.lri", |_: &str| Ok(7u32), |s: &u32| Ok(*s + 1));
    assert_eq!(r, Ok(8));
    // The callback's own error comes back unchanged.
    let r: Result<u32, String> = state.with_session("x.lri", |_: &str| Ok(0u32), |_: &u32| Err("bad".to_string()));
    assert_eq!(r, Err("bad".to_string()));
}

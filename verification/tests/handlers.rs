use todo_service::handlers::{
    add_todo, clear_completed, outcome, remove_todo, todos, toggle_all, toggle_todo, update_todo,
    AddTodoPayload, RemoveTodoPayload, ToggleTodoPayload, UpdateTodoPayload,
};
use todo_service::store::TodoAppState;

fn sample() -> TodoAppState {
    let mut state = TodoAppState::new();
    state.insert_todo("a".to_string(), "A");
    state.insert_todo("b".to_string(), "B");
    state.insert_todo("c".to_string(), "C");
    assert!(state.toggle_todo("b"));
    state
}

fn ids(state: &TodoAppState) -> Vec<String> {
    state.todos.iter().map(|t| t.id.clone()).collect()
}

#[test]
fn outcome_reports_success_with_an_empty_message() {
    let response = outcome(true, "a");
    assert!(response.success);
    assert_eq!(response.message, "");
}

#[test]
fn outcome_names_the_missing_id() {
    let response = outcome(false, "abc");
    assert!(!response.success);
    assert_eq!(response.message, "abc is not found");
    assert_eq!(outcome(false, "").message, " is not found");
}

#[test]
fn todos_handler_lists_by_filter() {
    let state = sample();
    let all = todos(None, &state);
    assert!(all.success);
    assert_eq!(all.message, "");
    assert_eq!(all.data.len(), 3);
    let active = todos(Some("active".to_string()), &state);
    assert!(active.success);
    assert_eq!(active.data.iter().map(|t| t.id.as_str()).collect::<Vec<_>>(), vec!["a", "c"]);
    let completed = todos(Some("completed".to_string()), &state);
    assert_eq!(completed.data.iter().map(|t| t.id.as_str()).collect::<Vec<_>>(), vec!["b"]);
    assert!(completed.data[0].completed);
    let bogus = todos(Some("bogus".to_string()), &state);
    assert_eq!(bogus.data.len(), 3);
}

#[test]
fn todos_handler_succeeds_on_an_empty_store() {
    let state = TodoAppState::new();
    let response = todos(Some("active".to_string()), &state);
    assert!(response.success);
    assert_eq!(response.message, "");
    assert!(response.data.is_empty());
}

#[test]
fn add_handler_appends_and_reports_success() {
    let mut state = sample();
    let response = add_todo(AddTodoPayload { content: "x".to_string() }, &mut state);
    assert!(response.success);
    assert_eq!(response.message, "");
    assert_eq!(state.todos.len(), 4);
    let last = &state.todos[3];
    assert_eq!(last.content, "x");
    assert!(!last.completed);
    assert_eq!(last.id.len(), 36);
    assert_eq!(ids(&state)[..3], ["a", "b", "c"]);
}

#[test]
fn remove_handler_reports_found_and_not_found() {
    let mut state = sample();
    let hit = remove_todo(RemoveTodoPayload { todo_id: "b".to_string() }, &mut state);
    assert!(hit.success);
    assert_eq!(hit.message, "");
    assert_eq!(ids(&state), vec!["a", "c"]);
    let miss = remove_todo(RemoveTodoPayload { todo_id: "b".to_string() }, &mut state);
    assert!(!miss.success);
    assert_eq!(miss.message, "b is not found");
    assert_eq!(ids(&state), vec!["a", "c"]);
}

#[test]
fn update_handler_reports_found_and_not_found() {
    let mut state = sample();
    let hit = update_todo(
        UpdateTodoPayload { todo_id: "b".to_string(), content: "new".to_string() },
        &mut state,
    );
    assert!(hit.success);
    assert_eq!(hit.message, "");
    assert_eq!(state.todos[1].content, "new");
    assert!(state.todos[1].completed);
    assert_eq!(state.todos[1].id, "b");
    let miss = update_todo(
        UpdateTodoPayload { todo_id: "zz".to_string(), content: "new".to_string() },
        &mut state,
    );
    assert!(!miss.success);
    assert_eq!(miss.message, "zz is not found");
    assert_eq!(state.todos[0].content, "A");
    assert_eq!(state.todos[2].content, "C");
}

#[test]
fn toggle_handler_reports_found_and_not_found() {
    let mut state = sample();
    let hit = toggle_todo(ToggleTodoPayload { todo_id: "a".to_string() }, &mut state);
    assert!(hit.success);
    assert_eq!(hit.message, "");
    assert!(state.todos[0].completed);
    let miss = toggle_todo(ToggleTodoPayload { todo_id: "q".to_string() }, &mut state);
    assert!(!miss.success);
    assert_eq!(miss.message, "q is not found");
    assert!(state.todos[0].completed);
    assert!(state.todos[1].completed);
    assert!(!state.todos[2].completed);
}

#[test]
fn clear_completed_handler_drops_the_completed() {
    let mut state = sample();
    let response = clear_completed(&mut state);
    assert!(response.success);
    assert_eq!(response.message, "");
    assert_eq!(ids(&state), vec!["a", "c"]);
}

#[test]
fn toggle_all_handler_sets_every_flag_alike() {
    let mut state = sample();
    let first = toggle_all(&mut state);
    assert!(first.success);
    assert_eq!(first.message, "");
    assert!(state.todos.iter().all(|t| t.completed));
    let second = toggle_all(&mut state);
    assert!(second.success);
    assert!(state.todos.iter().all(|t| !t.completed));
}

use todo_service::model::Todo;
use todo_service::store::TodoAppState;

fn store_of(items: &[(&str, &str, bool)]) -> TodoAppState {
    let mut state = TodoAppState::new();
    for (id, content, completed) in items {
        state.insert_todo(id.to_string(), content);
        if *completed {
            assert!(state.toggle_todo(id));
        }
    }
    state
}

fn rows(todos: &[Todo]) -> Vec<(String, String, bool)> {
    todos
        .iter()
        .map(|t| (t.id.clone(), t.content.clone(), t.completed))
        .collect()
}

fn row(id: &str, content: &str, completed: bool) -> (String, String, bool) {
    (id.to_string(), content.to_string(), completed)
}

#[test]
fn new_store_is_empty() {
    let state = TodoAppState::new();
    assert!(state.todos.is_empty());
    assert!(state.list(None).is_empty());
    assert!(state.list(Some("active")).is_empty());
}

#[test]
fn add_appends_one_uncompleted_todo_with_a_new_id() {
    let mut state = store_of(&[("a", "first", true), ("b", "second", false)]);
    let id = state.add_todo("x");
    let all = state.list(Some("all"));
    assert_eq!(all.len(), 3);
    assert_eq!(
        rows(&all),
        vec![row("a", "first", true), row("b", "second", false), row(&id, "x", false)]
    );
    assert_eq!(all.iter().filter(|t| t.id == id).count(), 1);
    assert_ne!(id, "a");
    assert_ne!(id, "b");
}

#[test]
fn add_returns_a_hyphenated_random_uuid() {
    let mut state = TodoAppState::new();
    let id = state.add_todo("task");
    let chars: Vec<char> = id.chars().collect();
    assert_eq!(chars.len(), 36);
    for (i, c) in chars.iter().enumerate() {
        if i == 8 || i == 13 || i == 18 || i == 23 {
            assert_eq!(*c, '-');
        } else {
            assert!(matches!(*c, '0'..='9' | 'a'..='f'));
        }
    }
    assert_eq!(chars[14], '4');
    assert!(matches!(chars[19], '8' | '9' | 'a' | 'b'));
    assert_eq!(state.todos[0].id, id);
}

#[test]
fn insert_keeps_the_given_id_and_content() {
    let mut state = TodoAppState::new();
    state.insert_todo("id-1".to_string(), "write");
    state.insert_todo("id-2".to_string(), "");
    assert_eq!(rows(&state.todos), vec![row("id-1", "write", false), row("id-2", "", false)]);
}

#[test]
fn ids_stay_unique_over_adds_and_removes() {
    let mut state = TodoAppState::new();
    let mut issued: Vec<String> = Vec::new();
    for round in 0..20 {
        let id = state.add_todo("task");
        assert!(!issued.contains(&id));
        issued.push(id);
        if round % 3 == 2 {
            let victim = issued[round / 2].clone();
            state.remove_todo(&victim);
        }
        let ids: Vec<&String> = state.todos.iter().map(|t| &t.id).collect();
        for (i, a) in ids.iter().enumerate() {
            for b in ids.iter().skip(i + 1) {
                assert_ne!(a, b);
            }
        }
    }
}

#[test]
fn many_adds_yield_distinct_ids_and_lose_nothing() {
    let mut state = TodoAppState::new();
    let mut ids: Vec<String> = Vec::new();
    for n in 0..64 {
        ids.push(state.add_todo(&format!("task {}", n)));
    }
    assert_eq!(state.todos.len(), 64);
    let mut sorted = ids.clone();
    sorted.sort();
    sorted.dedup();
    assert_eq!(sorted.len(), 64);
    for (n, todo) in state.todos.iter().enumerate() {
        assert_eq!(todo.id, ids[n]);
        assert_eq!(todo.content, format!("task {}", n));
    }
}

#[test]
fn remove_deletes_the_match_and_keeps_the_order() {
    let mut state = store_of(&[("a", "A", false), ("b", "B", true), ("c", "C", false)]);
    assert!(state.remove_todo("b"));
    assert_eq!(rows(&state.todos), vec![row("a", "A", false), row("c", "C", false)]);
    assert!(state.remove_todo("a"));
    assert!(state.remove_todo("c"));
    assert!(state.todos.is_empty());
}

#[test]
fn remove_of_an_unknown_id_changes_nothing() {
    let mut state = store_of(&[("a", "A", false), ("b", "B", true)]);
    let before = rows(&state.list(Some("all")));
    assert!(!state.remove_todo("nope"));
    assert_eq!(rows(&state.list(Some("all"))), before);
    let mut empty = TodoAppState::new();
    assert!(!empty.remove_todo("a"));
    assert!(empty.todos.is_empty());
}

#[test]
fn remove_deletes_every_record_under_the_id() {
    let mut state = TodoAppState::new();
    state.insert_todo("same".to_string(), "one");
    state.insert_todo("other".to_string(), "two");
    state.insert_todo("same".to_string(), "three");
    assert!(state.remove_todo("same"));
    assert_eq!(rows(&state.todos), vec![row("other", "two", false)]);
}

#[test]
fn update_changes_only_the_content() {
    let mut state = store_of(&[("a", "A", false), ("b", "B", true), ("c", "C", false)]);
    assert!(state.update_todo("b", "new"));
    assert_eq!(
        rows(&state.todos),
        vec![row("a", "A", false), row("b", "new", true), row("c", "C", false)]
    );
}

#[test]
fn update_of_an_unknown_id_changes_nothing() {
    let mut state = store_of(&[("a", "A", false)]);
    assert!(!state.update_todo("z", "new"));
    assert_eq!(rows(&state.todos), vec![row("a", "A", false)]);
}

#[test]
fn toggle_flips_once_and_twice_restores() {
    let mut state = store_of(&[("a", "A", false), ("b", "B", true)]);
    assert!(state.toggle_todo("a"));
    assert_eq!(rows(&state.todos), vec![row("a", "A", true), row("b", "B", true)]);
    assert!(state.toggle_todo("a"));
    assert_eq!(rows(&state.todos), vec![row("a", "A", false), row("b", "B", true)]);
    assert!(state.toggle_todo("b"));
    assert_eq!(rows(&state.todos), vec![row("a", "A", false), row("b", "B", false)]);
}

#[test]
fn toggle_of_an_unknown_id_changes_nothing() {
    let mut state = store_of(&[("a", "A", true)]);
    assert!(!state.toggle_todo("b"));
    assert_eq!(rows(&state.todos), vec![row("a", "A", true)]);
}

#[test]
fn handle_todo_rewrites_the_first_match_only() {
    let mut state = TodoAppState::new();
    state.insert_todo("a".to_string(), "one");
    state.insert_todo("b".to_string(), "two");
    state.insert_todo("b".to_string(), "three");
    let found = state.handle_todo("b", |todo: &Todo| Todo {
        id: todo.id.clone(),
        content: format!("{}!", todo.content),
        completed: true,
    });
    assert!(found);
    assert_eq!(
        rows(&state.todos),
        vec![row("a", "one", false), row("b", "two!", true), row("b", "three", false)]
    );
    let missing = state.handle_todo("c", |todo: &Todo| todo.clone());
    assert!(!missing);
    assert_eq!(state.todos.len(), 3);
}

#[test]
fn toggle_all_clears_when_all_are_completed() {
    let mut state = store_of(&[("a", "A", true), ("b", "B", true)]);
    state.toggle_all();
    assert_eq!(rows(&state.todos), vec![row("a", "A", false), row("b", "B", false)]);
}

#[test]
fn toggle_all_completes_when_some_are_open() {
    let mut state = store_of(&[("a", "A", true), ("b", "B", false)]);
    state.toggle_all();
    assert_eq!(rows(&state.todos), vec![row("a", "A", true), row("b", "B", true)]);
    let mut open = store_of(&[("a", "A", false), ("b", "B", false)]);
    open.toggle_all();
    assert_eq!(rows(&open.todos), vec![row("a", "A", true), row("b", "B", true)]);
}

#[test]
fn toggle_all_on_an_empty_store_does_nothing() {
    let mut state = TodoAppState::new();
    state.toggle_all();
    assert!(state.todos.is_empty());
}

#[test]
fn clear_completed_keeps_the_open_todos_in_order() {
    let mut state = store_of(&[("A", "a", false), ("B", "b", true), ("C", "c", false)]);
    state.clear_completed();
    assert_eq!(rows(&state.todos), vec![row("A", "a", false), row("C", "c", false)]);
    state.clear_completed();
    assert_eq!(rows(&state.todos), vec![row("A", "a", false), row("C", "c", false)]);
}

#[test]
fn clear_completed_can_empty_the_store() {
    let mut state = store_of(&[("A", "a", true), ("B", "b", true)]);
    state.clear_completed();
    assert!(state.todos.is_empty());
}

#[test]
fn list_filters_by_state_and_keeps_the_order() {
    let state = store_of(&[
        ("a", "A", false),
        ("b", "B", true),
        ("c", "C", false),
        ("d", "D", true),
    ]);
    assert_eq!(
        rows(&state.list(Some("active"))),
        vec![row("a", "A", false), row("c", "C", false)]
    );
    assert_eq!(
        rows(&state.list(Some("completed"))),
        vec![row("b", "B", true), row("d", "D", true)]
    );
    let all = rows(&state.list(Some("all")));
    assert_eq!(all, rows(&state.todos));
    assert_eq!(all.len(), 4);
}

#[test]
fn list_treats_unknown_filters_as_all() {
    let state = store_of(&[("a", "A", false), ("b", "B", true)]);
    let all = rows(&state.list(Some("all")));
    assert_eq!(rows(&state.list(Some("bogus"))), all);
    assert_eq!(rows(&state.list(Some(""))), all);
    assert_eq!(rows(&state.list(Some("Active"))), all);
    assert_eq!(rows(&state.list(None)), all);
}

#[test]
fn list_leaves_the_store_as_it_is() {
    let state = store_of(&[("a", "A", false), ("b", "B", true)]);
    let _ = state.list(Some("completed"));
    assert_eq!(rows(&state.todos), vec![row("a", "A", false), row("b", "B", true)]);
}

#[test]
fn clone_copies_every_field() {
    let todo = Todo { id: "a".to_string(), content: "A".to_string(), completed: true };
    let copy = todo.clone();
    assert_eq!(copy.id, "a");
    assert_eq!(copy.content, "A");
    assert!(copy.completed);
}

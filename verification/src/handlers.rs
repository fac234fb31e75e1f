//! The request handlers. Each takes one decoded request and the store, applies
//! exactly one store operation and returns the response envelope. Decoding the
//! request, locking the store and encoding the envelope are the caller's part.

use crate::ident::is_random_uuid_text;
use crate::model::{
    all_toggled, appended, has_id, listed, removed, toggled, updated, views, without_completed,
    Todo,
};
use crate::store::{filter_word, TodoAppState};
use vstd::prelude::*;
use vstd::string::StringExecFns;

verus! {

/// The envelope of every response but the listing.
#[derive(Debug)]
pub struct StatusResponse {
    pub success: bool,
    pub message: String,
}

/// The envelope of the listing: the status and the todos shown.
#[derive(Debug)]
pub struct TodosResponse {
    pub success: bool,
    pub message: String,
    pub data: Vec<Todo>,
}

/// The body of a request to add a todo.
#[derive(Debug)]
pub struct AddTodoPayload {
    pub content: String,
}

/// The body of a request to remove a todo.
#[derive(Debug)]
pub struct RemoveTodoPayload {
    pub todo_id: String,
}

/// The body of a request to replace a todo's content.
#[derive(Debug)]
pub struct UpdateTodoPayload {
    pub todo_id: String,
    pub content: String,
}

/// The body of a request to flip a todo's flag.
#[derive(Debug)]
pub struct ToggleTodoPayload {
    pub todo_id: String,
}

/// The message that reports a missing id: the id, then `" is not found"`.
pub open spec fn not_found_message(todo_id: Seq<char>) -> Seq<char> {
    todo_id + " is not found"@
}

/// `response` reports success, with an empty message.
pub open spec fn is_success(response: StatusResponse) -> bool {
    response.success && response.message@ == Seq::<char>::empty()
}

/// `response` is the answer to an operation on `todo_id` that found its
/// target or did not: success with an empty message, or failure with the
/// message that names the id.
pub open spec fn is_outcome(response: StatusResponse, found: bool, todo_id: Seq<char>) -> bool {
    &&& response.success == found
    &&& response.message@ == if found {
        Seq::<char>::empty()
    } else {
        not_found_message(todo_id)
    }
}

/// The word of an optional owned filter.
pub open spec fn owned_filter_word(filter: Option<String>) -> Option<Seq<char>> {
    match filter {
        Some(word) => Some(word@),
        None => None,
    }
}

/// The envelope for an operation that found its target or did not.
pub fn outcome(found: bool, todo_id: &str) -> (response: StatusResponse)
    ensures
        is_outcome(response, found, todo_id@),
{
    if found {
        StatusResponse { success: true, message: String::new() }
    } else {
        let message = todo_id.to_owned().concat(" is not found");
        StatusResponse { success: false, message }
    }
}

/// Lists the todos that `filter` shows.
pub fn todos(filter: Option<String>, state: &TodoAppState) -> (response: TodosResponse)
    ensures
        response.success,
        response.message@ == Seq::<char>::empty(),
        views(response.data@) == listed(state@, owned_filter_word(filter)),
{
    let data = match &filter {
        Some(word) => state.list(Some(word.as_str())),
        None => state.list(None),
    };
    TodosResponse { success: true, message: String::new(), data }
}

/// Adds a todo with the payload's content under a fresh identifier.
pub fn add_todo(payload: AddTodoPayload, state: &mut TodoAppState) -> (response: StatusResponse)
    ensures
        is_success(response),
        final(state)@.len() == old(state)@.len() + 1,
        is_random_uuid_text(final(state)@.last().id),
        final(state)@ == appended(old(state)@, final(state)@.last().id, payload.content@),
{
    let _ = state.add_todo(payload.content.as_str());
    StatusResponse { success: true, message: String::new() }
}

/// Removes the todo that the payload names.
pub fn remove_todo(payload: RemoveTodoPayload, state: &mut TodoAppState) -> (response:
    StatusResponse)
    ensures
        is_outcome(response, has_id(old(state)@, payload.todo_id@), payload.todo_id@),
        final(state)@ == removed(old(state)@, payload.todo_id@),
{
    let found = state.remove_todo(payload.todo_id.as_str());
    outcome(found, payload.todo_id.as_str())
}

/// Replaces the content of the todo that the payload names.
pub fn update_todo(payload: UpdateTodoPayload, state: &mut TodoAppState) -> (response:
    StatusResponse)
    ensures
        is_outcome(response, has_id(old(state)@, payload.todo_id@), payload.todo_id@),
        final(state)@ == updated(old(state)@, payload.todo_id@, payload.content@),
{
    let found = state.update_todo(payload.todo_id.as_str(), payload.content.as_str());
    outcome(found, payload.todo_id.as_str())
}

/// Flips the flag of the todo that the payload names.
pub fn toggle_todo(payload: ToggleTodoPayload, state: &mut TodoAppState) -> (response:
    StatusResponse)
    ensures
        is_outcome(response, has_id(old(state)@, payload.todo_id@), payload.todo_id@),
        final(state)@ == toggled(old(state)@, payload.todo_id@),
{
    let found = state.toggle_todo(payload.todo_id.as_str());
    outcome(found, payload.todo_id.as_str())
}

/// Deletes every completed todo.
pub fn clear_completed(state: &mut TodoAppState) -> (response: StatusResponse)
    ensures
        is_success(response),
        final(state)@ == without_completed(old(state)@),
{
    state.clear_completed();
    StatusResponse { success: true, message: String::new() }
}

/// Completes every todo, or clears every flag where all were completed.
pub fn toggle_all(state: &mut TodoAppState) -> (response: StatusResponse)
    ensures
        is_success(response),
        final(state)@ == all_toggled(old(state)@),
{
    state.toggle_all();
    StatusResponse { success: true, message: String::new() }
}

} // verus!

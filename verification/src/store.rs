//! The store: an ordered list of todos and the operations on it.

use crate::ident::{fresh_id, is_random_uuid_text};
use crate::model::{
    all_completed, all_toggled, appended, differs_from, distinct_ids, flagged, flipped, has_id,
    is_active, is_first, lemma_appended_distinct, lemma_filter_keeps_distinct,
    lemma_filter_take_next, lemma_position, lemma_removed_keeps_distinct, listed, position,
    removed, rewritten, shown_under, shows, toggled, updated, views, without_completed, Todo,
    TodoView,
};
use vstd::prelude::*;

verus! {

/// The todos of one process, in the order in which they were added.
#[derive(Debug)]
pub struct TodoAppState {
    pub todos: Vec<Todo>,
}

impl View for TodoAppState {
    type V = Seq<TodoView>;

    open spec fn view(&self) -> Seq<TodoView> {
        views(self.todos@)
    }
}

impl TodoAppState {
    /// An empty store.
    pub fn new() -> (state: TodoAppState)
        ensures
            state@ == Seq::<TodoView>::empty(),
    {
        let state = TodoAppState { todos: Vec::new() };
        assert(state@ =~= Seq::<TodoView>::empty());
        state
    }

    /// Appends a not completed todo with the given id and content.
    ///
    /// The store does not look at `id`: the ids are distinct afterwards exactly
    /// when they were before and no record carried `id` yet.
    pub fn insert_todo(&mut self, id: String, content: &str)
        ensures
            final(self)@ == appended(old(self)@, id@, content@),
            distinct_ids(final(self)@) == (distinct_ids(old(self)@) && !has_id(old(self)@, id@)),
    {
        let todo = Todo { id, content: content.to_owned(), completed: false };
        self.todos.push(todo);
        proof {
            assert(self@ =~= appended(old(self)@, id@, content@));
            lemma_appended_distinct(old(self)@, id@, content@);
        }
    }

    /// Appends a not completed todo with the given content under a freshly
    /// drawn identifier, and returns that identifier.
    pub fn add_todo(&mut self, content: &str) -> (todo_id: String)
        ensures
            is_random_uuid_text(todo_id@),
            final(self)@ == appended(old(self)@, todo_id@, content@),
            distinct_ids(final(self)@) == (distinct_ids(old(self)@) && !has_id(
                old(self)@,
                todo_id@,
            )),
    {
        let id = fresh_id();
        let todo_id = id.clone();
        self.insert_todo(id, content);
        todo_id
    }

    /// Deletes the records that carry `todo_id` and says whether there was one.
    pub fn remove_todo(&mut self, todo_id: &str) -> (found: bool)
        ensures
            final(self)@ == removed(old(self)@, todo_id@),
            found == has_id(old(self)@, todo_id@),
            found == (final(self)@.len() != old(self)@.len()),
            !found ==> final(self)@ == old(self)@,
            distinct_ids(old(self)@) ==> distinct_ids(final(self)@),
    {
        let key = todo_id.to_owned();
        let ghost before = self@;
        let ghost keep = differs_from(todo_id@);
        let ghost k: int = 0;
        let mut found = false;
        let mut i: usize = 0;
        proof {
            assert(before.take(0) =~= Seq::<TodoView>::empty());
            reveal_with_fuel(Seq::filter, 1);
            assert(self@.take(0) =~= before.take(0).filter(keep));
        }
        while i < self.todos.len()
            invariant
                before == old(self)@,
                keep == differs_from(todo_id@),
                key@ == todo_id@,
                i <= self.todos.len(),
                i <= k <= before.len(),
                self@.len() - i == before.len() - k,
                self@.take(i as int) == before.take(k).filter(keep),
                forall|j: int| i <= j < self@.len() ==> #[trigger] self@[j] == before[j + (k - i)],
                found == (i < k),
                found == has_id(before.take(k), todo_id@),
                !found ==> self@.take(i as int) == before.take(k),
            decreases self.todos.len() - i,
        {
            let ghost now = self@;
            proof {
                assert(now[i as int] == before[k]);
                lemma_filter_take_next(before, keep, k);
                assert(before.take(k + 1) =~= before.take(k).push(before[k]));
            }
            if self.todos[i].id == key {
                let _ = self.todos.remove(i);
                proof {
                    assert(self@ =~= now.remove(i as int));
                    assert(self@.take(i as int) =~= now.take(i as int));
                    assert forall|j: int| i <= j < self@.len() implies #[trigger] self@[j]
                        == before[j + (k + 1 - i)] by {
                        assert(self@[j] == now[j + 1]);
                    }
                    assert(before.take(k + 1)[k].id == todo_id@);
                    k = k + 1;
                }
                found = true;
            } else {
                proof {
                    assert(self@.take(i + 1) =~= now.take(i as int).push(now[i as int]));
                    if has_id(before.take(k + 1), todo_id@) {
                        let j = choose|j: int|
                            0 <= j < before.take(k + 1).len() && (#[trigger] before.take(
                                k + 1,
                            )[j]).id == todo_id@;
                        assert(before.take(k)[j].id == todo_id@);
                    }
                    if has_id(before.take(k), todo_id@) {
                        let j = choose|j: int|
                            0 <= j < before.take(k).len() && (#[trigger] before.take(k)[j]).id
                                == todo_id@;
                        assert(before.take(k + 1)[j].id == todo_id@);
                    }
                    k = k + 1;
                }
                i = i + 1;
            }
        }
        proof {
            assert(before.take(k) =~= before);
            assert(self@.take(i as int) =~= self@);
            if distinct_ids(before) {
                lemma_removed_keeps_distinct(before, todo_id@);
            }
        }
        found
    }

    /// Deletes every completed record; the others keep their order.
    pub fn clear_completed(&mut self)
        ensures
            final(self)@ == without_completed(old(self)@),
            distinct_ids(old(self)@) ==> distinct_ids(final(self)@),
    {
        let ghost before = self@;
        let ghost keep = is_active();
        let ghost k: int = 0;
        let mut i: usize = 0;
        proof {
            assert(before.take(0) =~= Seq::<TodoView>::empty());
            reveal_with_fuel(Seq::filter, 1);
            assert(self@.take(0) =~= before.take(0).filter(keep));
        }
        while i < self.todos.len()
            invariant
                before == old(self)@,
                keep == is_active(),
                i <= self.todos.len(),
                i <= k <= before.len(),
                self@.len() - i == before.len() - k,
                self@.take(i as int) == before.take(k).filter(keep),
                forall|j: int| i <= j < self@.len() ==> #[trigger] self@[j] == before[j + (k - i)],
            decreases self.todos.len() - i,
        {
            let ghost now = self@;
            proof {
                assert(now[i as int] == before[k]);
                lemma_filter_take_next(before, keep, k);
            }
            if self.todos[i].completed {
                let _ = self.todos.remove(i);
                proof {
                    assert(self@ =~= now.remove(i as int));
                    assert(self@.take(i as int) =~= now.take(i as int));
                    assert forall|j: int| i <= j < self@.len() implies #[trigger] self@[j]
                        == before[j + (k + 1 - i)] by {
                        assert(self@[j] == now[j + 1]);
                    }
                    k = k + 1;
                }
            } else {
                proof {
                    assert(self@.take(i + 1) =~= now.take(i as int).push(now[i as int]));
                    k = k + 1;
                }
                i = i + 1;
            }
        }
        proof {
            assert(before.take(k) =~= before);
            assert(self@.take(i as int) =~= self@);
            if distinct_ids(before) {
                lemma_filter_keeps_distinct(before, keep);
            }
        }
    }

    /// Finds the first record that carries `todo_id`, replaces it by what
    /// `handler` makes of it, and says whether there was one. Without such a
    /// record the store stays as it is and `handler` is not called.
    pub fn handle_todo<F: Fn(&Todo) -> Todo>(&mut self, todo_id: &str, handler: F) -> (found: bool)
        requires
            forall|i: int|
                0 <= i < old(self).todos@.len() ==> handler.requires(
                    (&#[trigger] old(self).todos@[i],),
                ),
        ensures
            found == has_id(old(self)@, todo_id@),
            !found ==> final(self).todos@ == old(self).todos@,
            found ==> ({
                let i = position(old(self)@, todo_id@);
                &&& is_first(old(self)@, todo_id@, i)
                &&& handler.ensures((&old(self).todos@[i],), final(self).todos@[i])
                &&& final(self).todos@ == old(self).todos@.update(i, final(self).todos@[i])
            }),
    {
        let key = todo_id.to_owned();
        let mut i: usize = 0;
        while i < self.todos.len()
            invariant
                self.todos@ == old(self).todos@,
                key@ == todo_id@,
                i <= self.todos.len(),
                forall|j: int|
                    0 <= j < self.todos@.len() ==> handler.requires((&#[trigger] self.todos@[j],)),
                forall|j: int| 0 <= j < i ==> (#[trigger] old(self)@[j]).id != todo_id@,
            decreases self.todos.len() - i,
        {
            if self.todos[i].id == key {
                proof {
                    assert(old(self)@[i as int].id == todo_id@);
                    lemma_position(old(self)@, todo_id@, i as int);
                }
                let next = handler(&self.todos[i]);
                self.todos.set(i, next);
                return true;
            }
            assert(old(self)@[i as int].id != todo_id@);
            i = i + 1;
        }
        false
    }

    /// Replaces the content of the first record that carries `todo_id` and
    /// says whether there was one; its id and its flag stay.
    pub fn update_todo(&mut self, todo_id: &str, todo_content: &str) -> (found: bool)
        ensures
            found == has_id(old(self)@, todo_id@),
            final(self)@ == updated(old(self)@, todo_id@, todo_content@),
            !found ==> final(self)@ == old(self)@,
            final(self)@.len() == old(self)@.len(),
            forall|i: int|
                0 <= i < old(self)@.len() ==> (#[trigger] final(self)@[i]).id == old(self)@[i].id
                    && final(self)@[i].completed == old(self)@[i].completed,
            distinct_ids(old(self)@) ==> distinct_ids(final(self)@),
    {
        let rewrite = |todo: &Todo| -> (next: Todo)
            ensures
                next@ == rewritten(todo@, todo_id@, todo_content@),
            {
                let id = todo_id.to_owned();
                let content = todo_content.to_owned();
                Todo { id, content, completed: todo.completed }
            };
        let found = self.handle_todo(todo_id, rewrite);
        proof {
            if found {
                assert(self@ =~= updated(old(self)@, todo_id@, todo_content@));
            }
            assert forall|i: int, j: int| 0 <= i < j < self@.len() && distinct_ids(
                old(self)@,
            ) implies (#[trigger] self@[i]).id != (#[trigger] self@[j]).id by {
                assert(old(self)@[i].id != old(self)@[j].id);
            }
        }
        found
    }

    /// Flips the flag of the first record that carries `todo_id` and says
    /// whether there was one; its id and its content stay.
    pub fn toggle_todo(&mut self, todo_id: &str) -> (found: bool)
        ensures
            found == has_id(old(self)@, todo_id@),
            final(self)@ == toggled(old(self)@, todo_id@),
            !found ==> final(self)@ == old(self)@,
            distinct_ids(old(self)@) ==> distinct_ids(final(self)@),
    {
        let flip = |todo: &Todo| -> (next: Todo)
            ensures
                next@ == flipped(todo@),
            {
                let id = todo.id.clone();
                let content = todo.content.clone();
                Todo { id, content, completed: !todo.completed }
            };
        let found = self.handle_todo(todo_id, flip);
        proof {
            if found {
                assert(self@ =~= toggled(old(self)@, todo_id@));
            }
            assert(self@.len() == old(self)@.len());
            assert forall|i: int, j: int| 0 <= i < j < self@.len() && distinct_ids(
                old(self)@,
            ) implies (#[trigger] self@[i]).id != (#[trigger] self@[j]).id by {
                assert(old(self)@[i].id != old(self)@[j].id);
            }
        }
        found
    }

    /// Sets every flag alike: where all records are completed it clears them
    /// all, otherwise it completes them all.
    pub fn toggle_all(&mut self)
        ensures
            final(self)@ == all_toggled(old(self)@),
            distinct_ids(old(self)@) ==> distinct_ids(final(self)@),
    {
        let mut all_done = true;
        let mut i: usize = 0;
        while i < self.todos.len() && all_done
            invariant
                self.todos@ == old(self).todos@,
                i <= self.todos.len(),
                all_done ==> forall|j: int| 0 <= j < i ==> (#[trigger] self@[j]).completed,
                !all_done ==> !all_completed(self@),
            decreases self.todos.len() - i,
        {
            if !self.todos[i].completed {
                all_done = false;
                assert(!self@[i as int].completed);
            }
            i = i + 1;
        }
        assert(all_done == all_completed(old(self)@));
        let mut n: usize = 0;
        while n < self.todos.len()
            invariant
                self.todos@.len() == old(self).todos@.len(),
                n <= self.todos.len(),
                all_done == all_completed(old(self)@),
                forall|j: int| 0 <= j < n ==> #[trigger] self@[j] == all_toggled(old(self)@)[j],
                forall|j: int| n <= j < self@.len() ==> #[trigger] self@[j] == old(self)@[j],
            decreases self.todos.len() - n,
        {
            let ghost prev = self.todos@;
            assert(self@[n as int] == old(self)@[n as int]);
            self.todos[n].completed = !all_done;
            proof {
                assert(self.todos@ =~= prev.update(n as int, self.todos@[n as int]));
                assert(self@[n as int] == flagged(old(self)@[n as int], !all_done));
                assert forall|j: int| 0 <= j < self@.len() && j != n implies #[trigger] self@[j]
                    == views(prev)[j] by {}
            }
            n = n + 1;
        }
        proof {
            assert(self@ =~= all_toggled(old(self)@));
            assert forall|i: int, j: int| 0 <= i < j < self@.len() && distinct_ids(
                old(self)@,
            ) implies (#[trigger] self@[i]).id != (#[trigger] self@[j]).id by {
                assert(old(self)@[i].id != old(self)@[j].id);
            }
        }
    }

    /// The records that `filter` shows, in the store's order: `"active"` shows
    /// those that are not completed, `"completed"` those that are; no filter
    /// and any other word show them all.
    pub fn list(&self, filter: Option<&str>) -> (shown: Vec<Todo>)
        ensures
            views(shown@) == listed(self@, filter_word(filter)),
    {
        let (only_active, only_completed) = match filter {
            Some(word) => {
                let word = word.to_owned();
                (word == "active".to_owned(), word == "completed".to_owned())
            },
            None => (false, false),
        };
        let ghost keep = shown_under(filter_word(filter));
        let mut shown: Vec<Todo> = Vec::new();
        let mut i: usize = 0;
        proof {
            reveal_with_fuel(Seq::filter, 1);
            assert(views(shown@) =~= self@.take(0).filter(keep));
        }
        while i < self.todos.len()
            invariant
                keep == shown_under(filter_word(filter)),
                only_active == (filter_word(filter) == Some("active"@)),
                only_completed == (filter_word(filter) == Some("completed"@)),
                i <= self.todos.len(),
                views(shown@) == self@.take(i as int).filter(keep),
            decreases self.todos.len() - i,
        {
            let todo = &self.todos[i];
            let show = if only_active {
                !todo.completed
            } else if only_completed {
                todo.completed
            } else {
                true
            };
            let ghost so_far = views(shown@);
            proof {
                lemma_filter_take_next(self@, keep, i as int);
                assert(show == shows(filter_word(filter), self@[i as int]));
            }
            if show {
                shown.push(todo.clone());
                assert(views(shown@) =~= so_far.push(self@[i as int]));
            }
            i = i + 1;
        }
        assert(self@.take(i as int) =~= self@);
        shown
    }
}

/// The word of an optional filter.
pub open spec fn filter_word(filter: Option<&str>) -> Option<Seq<char>> {
    match filter {
        Some(word) => Some(word@),
        None => None,
    }
}

} // verus!

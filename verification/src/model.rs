//! The todo record and the mathematical model of a list of todos.

use vstd::prelude::*;

verus! {

/// A single task record.
#[derive(Debug)]
pub struct Todo {
    pub id: String,
    pub content: String,
    pub completed: bool,
}

/// What a `Todo` is, as plain values.
pub struct TodoView {
    pub id: Seq<char>,
    pub content: Seq<char>,
    pub completed: bool,
}

impl View for Todo {
    type V = TodoView;

    open spec fn view(&self) -> TodoView {
        TodoView { id: self.id@, content: self.content@, completed: self.completed }
    }
}

impl Clone for Todo {
    fn clone(&self) -> (copy: Self)
        ensures
            copy@ == self@,
    {
        Todo { id: self.id.clone(), content: self.content.clone(), completed: self.completed }
    }
}

/// The records of a vector of todos, in order.
pub open spec fn views(todos: Seq<Todo>) -> Seq<TodoView> {
    todos.map_values(|t: Todo| t@)
}

/// Some record of `s` carries `id`.
pub open spec fn has_id(s: Seq<TodoView>, id: Seq<char>) -> bool {
    exists|i: int| 0 <= i < s.len() && (#[trigger] s[i]).id == id
}

/// `i` is the first place in `s` whose record carries `id`.
pub open spec fn is_first(s: Seq<TodoView>, id: Seq<char>, i: int) -> bool {
    &&& 0 <= i < s.len()
    &&& s[i].id == id
    &&& forall|j: int| 0 <= j < i ==> (#[trigger] s[j]).id != id
}

/// The first place in `s` whose record carries `id`, where there is one.
pub open spec fn position(s: Seq<TodoView>, id: Seq<char>) -> int {
    choose|i: int| is_first(s, id, i)
}

/// No two records of `s` share an id.
pub open spec fn distinct_ids(s: Seq<TodoView>) -> bool {
    forall|i: int, j: int| 0 <= i < j < s.len() ==> (#[trigger] s[i]).id != (#[trigger] s[j]).id
}

/// Every record of `s` is completed.
pub open spec fn all_completed(s: Seq<TodoView>) -> bool {
    forall|i: int| 0 <= i < s.len() ==> (#[trigger] s[i]).completed
}

/// The predicate "does not carry `id`".
pub open spec fn differs_from(id: Seq<char>) -> spec_fn(TodoView) -> bool {
    |t: TodoView| t.id != id
}

/// The predicate "is not completed".
pub open spec fn is_active() -> spec_fn(TodoView) -> bool {
    |t: TodoView| !t.completed
}

/// Whether a listing under `filter` shows `t`: `"active"` shows the records
/// that are not completed, `"completed"` those that are, and no filter or any
/// other word shows every record.
pub open spec fn shows(filter: Option<Seq<char>>, t: TodoView) -> bool {
    if filter == Some("active"@) {
        !t.completed
    } else if filter == Some("completed"@) {
        t.completed
    } else {
        true
    }
}

/// The predicate `shows` under a fixed filter.
pub open spec fn shown_under(filter: Option<Seq<char>>) -> spec_fn(TodoView) -> bool {
    |t: TodoView| shows(filter, t)
}

/// `s` with a new, not completed record at its end.
pub open spec fn appended(s: Seq<TodoView>, id: Seq<char>, content: Seq<char>) -> Seq<TodoView> {
    s.push(TodoView { id, content, completed: false })
}

/// `s` without the records that carry `id`; the others keep their order.
pub open spec fn removed(s: Seq<TodoView>, id: Seq<char>) -> Seq<TodoView> {
    s.filter(differs_from(id))
}

/// `s` without its completed records; the others keep their order.
pub open spec fn without_completed(s: Seq<TodoView>) -> Seq<TodoView> {
    s.filter(is_active())
}

/// `t` under the id `id` with the content `content`; its flag stays.
pub open spec fn rewritten(t: TodoView, id: Seq<char>, content: Seq<char>) -> TodoView {
    TodoView { id, content, completed: t.completed }
}

/// `t` with its flag flipped.
pub open spec fn flipped(t: TodoView) -> TodoView {
    TodoView { id: t.id, content: t.content, completed: !t.completed }
}

/// `t` with its flag set to `flag`.
pub open spec fn flagged(t: TodoView, flag: bool) -> TodoView {
    TodoView { id: t.id, content: t.content, completed: flag }
}

/// `s` with the content of the first record that carries `id` replaced.
pub open spec fn updated(s: Seq<TodoView>, id: Seq<char>, content: Seq<char>) -> Seq<TodoView> {
    if has_id(s, id) {
        let i = position(s, id);
        s.update(i, rewritten(s[i], id, content))
    } else {
        s
    }
}

/// `s` with the flag of the first record that carries `id` flipped.
pub open spec fn toggled(s: Seq<TodoView>, id: Seq<char>) -> Seq<TodoView> {
    if has_id(s, id) {
        let i = position(s, id);
        s.update(i, flipped(s[i]))
    } else {
        s
    }
}

/// `s` with every flag set alike: cleared where all were set, set otherwise.
pub open spec fn all_toggled(s: Seq<TodoView>) -> Seq<TodoView> {
    let flag = !all_completed(s);
    s.map_values(|t: TodoView| flagged(t, flag))
}

/// What a listing of `s` under `filter` holds.
pub open spec fn listed(s: Seq<TodoView>, filter: Option<Seq<char>>) -> Seq<TodoView> {
    s.filter(shown_under(filter))
}

/// A place that holds `id` with none before it is the position of `id`.
pub proof fn lemma_position(s: Seq<TodoView>, id: Seq<char>, i: int)
    requires
        is_first(s, id, i),
    ensures
        has_id(s, id),
        position(s, id) == i,
{
    let p = position(s, id);
    assert(is_first(s, id, p));
    if p < i {
        assert(s[p].id != id);
    }
    if i < p {
        assert(s[i].id != id);
    }
}

/// Among the records that carry `id` there is a first one.
pub proof fn lemma_has_first(s: Seq<TodoView>, id: Seq<char>)
    requires
        has_id(s, id),
    ensures
        is_first(s, id, position(s, id)),
{
    let n = choose|n: int| 0 <= n < s.len() && (#[trigger] s[n]).id == id;
    lemma_first_up_to(s, id, n);
}

proof fn lemma_first_up_to(s: Seq<TodoView>, id: Seq<char>, n: int)
    requires
        0 <= n < s.len(),
        s[n].id == id,
    ensures
        exists|i: int| is_first(s, id, i),
    decreases n,
{
    if exists|j: int| 0 <= j < n && (#[trigger] s[j]).id == id {
        let j = choose|j: int| 0 <= j < n && (#[trigger] s[j]).id == id;
        lemma_first_up_to(s, id, j);
    } else {
        assert(is_first(s, id, n));
    }
}

/// Filtering one record more either appends it or changes nothing.
pub proof fn lemma_filter_take_next(s: Seq<TodoView>, keep: spec_fn(TodoView) -> bool, k: int)
    requires
        0 <= k < s.len(),
    ensures
        s.take(k + 1).filter(keep) == if keep(s[k]) {
            s.take(k).filter(keep).push(s[k])
        } else {
            s.take(k).filter(keep)
        },
{
    assert(s.take(k + 1) =~= s.take(k).push(s[k]));
    s.take(k).lemma_filter_push(s[k], keep);
}

/// After an addition the ids are distinct exactly when they were before and
/// the new id was not in use.
pub proof fn lemma_appended_distinct(s: Seq<TodoView>, id: Seq<char>, content: Seq<char>)
    ensures
        distinct_ids(appended(s, id, content)) == (distinct_ids(s) && !has_id(s, id)),
{
    let t = appended(s, id, content);
    let n = s.len() as int;
    assert(t[n].id == id);
    if distinct_ids(t) {
        assert forall|i: int, j: int| 0 <= i < j < s.len() implies (#[trigger] s[i]).id != (
        #[trigger] s[j]).id by {
            assert(t[i].id != t[j].id);
        }
        if has_id(s, id) {
            let i = choose|i: int| 0 <= i < s.len() && (#[trigger] s[i]).id == id;
            assert(t[i].id != t[n].id);
        }
    }
    if distinct_ids(s) && !has_id(s, id) {
        assert forall|i: int, j: int| 0 <= i < j < t.len() implies (#[trigger] t[i]).id != (
        #[trigger] t[j]).id by {
            if j == n {
                assert(s[i].id != id);
            } else {
                assert(s[i].id != s[j].id);
            }
        }
    }
}

/// Deleting the records that carry an id leaves distinct ids distinct.
pub proof fn lemma_removed_keeps_distinct(s: Seq<TodoView>, id: Seq<char>)
    requires
        distinct_ids(s),
    ensures
        distinct_ids(removed(s, id)),
{
    lemma_filter_keeps_distinct(s, differs_from(id));
}

/// A filtered list of records with distinct ids has distinct ids.
pub proof fn lemma_filter_keeps_distinct(s: Seq<TodoView>, keep: spec_fn(TodoView) -> bool)
    requires
        distinct_ids(s),
    ensures
        distinct_ids(s.filter(keep)),
        forall|i: int|
            0 <= i < s.filter(keep).len() ==> exists|j: int|
                0 <= j < s.len() && s[j] == #[trigger] s.filter(keep)[i],
    decreases s.len(),
{
    reveal_with_fuel(Seq::filter, 1);
    if s.len() > 0 {
        let front = s.drop_last();
        assert(forall|i: int| 0 <= i < front.len() ==> front[i] == s[i]);
        lemma_filter_keeps_distinct(front, keep);
        let f = front.filter(keep);
        let g = s.filter(keep);
        if keep(s.last()) {
            assert(g == f.push(s.last()));
            assert forall|i: int, j: int| 0 <= i < j < g.len() implies (#[trigger] g[i]).id != (
            #[trigger] g[j]).id by {
                if j == f.len() {
                    let w = choose|w: int| 0 <= w < front.len() && front[w] == f[i];
                    assert(s[w].id != s[s.len() - 1].id);
                } else {
                    assert(f[i].id != f[j].id);
                }
            }
            assert forall|i: int| 0 <= i < g.len() implies exists|j: int|
                0 <= j < s.len() && s[j] == #[trigger] g[i] by {
                if i == f.len() {
                    assert(s[s.len() - 1] == g[i]);
                } else {
                    let w = choose|w: int| 0 <= w < front.len() && front[w] == f[i];
                    assert(s[w] == g[i]);
                }
            }
        } else {
            assert(g == f);
            assert forall|i: int| 0 <= i < g.len() implies exists|j: int|
                0 <= j < s.len() && s[j] == #[trigger] g[i] by {
                let w = choose|w: int| 0 <= w < front.len() && front[w] == f[i];
                assert(s[w] == g[i]);
            }
        }
    }
}

} // verus!

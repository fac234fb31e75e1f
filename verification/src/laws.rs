//! What holds of the store's operations taken together, stated over the model
//! of the store and proved once for every store and every argument.

use crate::model::{
    all_completed, all_toggled, appended, differs_from, distinct_ids, flagged, has_id, is_active,
    is_first, lemma_filter_keeps_distinct, lemma_has_first, lemma_position, listed, position,
    removed, shown_under, toggled, updated, without_completed, TodoView,
};
use vstd::prelude::*;

verus! {

/// One operation that changes the store.
pub enum Change {
    Add { id: Seq<char>, content: Seq<char> },
    Remove { id: Seq<char> },
    Update { id: Seq<char>, content: Seq<char> },
    Toggle { id: Seq<char> },
    ToggleAll,
    ClearCompleted,
}

/// The store after one change.
pub open spec fn after(s: Seq<TodoView>, change: Change) -> Seq<TodoView> {
    match change {
        Change::Add { id, content } => appended(s, id, content),
        Change::Remove { id } => removed(s, id),
        Change::Update { id, content } => updated(s, id, content),
        Change::Toggle { id } => toggled(s, id),
        Change::ToggleAll => all_toggled(s),
        Change::ClearCompleted => without_completed(s),
    }
}

/// The store after a run of changes, the first of them applied first.
pub open spec fn after_all(s: Seq<TodoView>, changes: Seq<Change>) -> Seq<TodoView>
    decreases changes.len(),
{
    if changes.len() == 0 {
        s
    } else {
        after(after_all(s, changes.drop_last()), changes.last())
    }
}

/// Every addition in the run brings an id that no record carries at the
/// moment it arrives.
pub open spec fn adds_unused_ids(s: Seq<TodoView>, changes: Seq<Change>) -> bool {
    forall|k: int|
        0 <= k < changes.len() ==> match #[trigger] changes[k] {
            Change::Add { id, .. } => !has_id(after_all(s, changes.take(k)), id),
            _ => true,
        }
}

/// Two lists that agree on their ids, place by place, have distinct ids
/// together.
pub proof fn lemma_same_ids(a: Seq<TodoView>, b: Seq<TodoView>)
    requires
        a.len() == b.len(),
        forall|i: int| 0 <= i < a.len() ==> (#[trigger] a[i]).id == b[i].id,
        distinct_ids(a),
    ensures
        distinct_ids(b),
{
    assert forall|i: int, j: int| 0 <= i < j < b.len() implies (#[trigger] b[i]).id != (
    #[trigger] b[j]).id by {
        assert(a[i].id != a[j].id);
    }
}

/// One change leaves distinct ids distinct, an addition where its id is not
/// in use.
pub proof fn law_change_keeps_ids_distinct(s: Seq<TodoView>, change: Change)
    requires
        distinct_ids(s),
        match change {
            Change::Add { id, .. } => !has_id(s, id),
            _ => true,
        },
    ensures
        distinct_ids(after(s, change)),
{
    match change {
        Change::Add { id, content } => {},
        Change::Remove { id } => {
            lemma_filter_keeps_distinct(s, differs_from(id));
        },
        Change::Update { id, content } => {
            if has_id(s, id) {
                lemma_has_first(s, id);
                lemma_same_ids(s, updated(s, id, content));
            }
        },
        Change::Toggle { id } => {
            if has_id(s, id) {
                lemma_has_first(s, id);
                lemma_same_ids(s, toggled(s, id));
            }
        },
        Change::ToggleAll => {
            lemma_same_ids(s, all_toggled(s));
        },
        Change::ClearCompleted => {
            lemma_filter_keeps_distinct(s, is_active());
        },
    }
}

/// Ids are unique at all times: a store with distinct ids has distinct ids
/// after any run of changes whose additions bring ids that are not in use.
pub proof fn law_ids_stay_distinct(s: Seq<TodoView>, changes: Seq<Change>)
    requires
        distinct_ids(s),
        adds_unused_ids(s, changes),
    ensures
        distinct_ids(after_all(s, changes)),
    decreases changes.len(),
{
    if changes.len() > 0 {
        let front = changes.drop_last();
        let k = changes.len() - 1;
        assert(changes.take(k) =~= front);
        assert forall|j: int| 0 <= j < front.len() implies match #[trigger] front[j] {
            Change::Add { id, .. } => !has_id(after_all(s, front.take(j)), id),
            _ => true,
        } by {
            assert(front[j] == changes[j]);
            assert(front.take(j) =~= changes.take(j));
        }
        law_ids_stay_distinct(s, front);
        assert(changes[k] == changes.last());
        law_change_keeps_ids_distinct(after_all(s, front), changes.last());
    }
}

/// Every change in the run is an addition.
pub open spec fn only_additions(changes: Seq<Change>) -> bool {
    forall|k: int| 0 <= k < changes.len() ==> (#[trigger] changes[k]) is Add
}

/// No addition is lost: after a run of additions the store holds its old
/// records, then one not completed record for each addition, in the order of
/// the run, each under its own id and content.
pub proof fn law_additions_are_all_kept(s: Seq<TodoView>, changes: Seq<Change>)
    requires
        only_additions(changes),
    ensures
        after_all(s, changes).len() == s.len() + changes.len(),
        forall|i: int| 0 <= i < s.len() ==> #[trigger] after_all(s, changes)[i] == s[i],
        forall|k: int|
            0 <= k < changes.len() ==> match #[trigger] changes[k] {
                Change::Add { id, content } => after_all(s, changes)[s.len() + k] == (TodoView {
                    id,
                    content,
                    completed: false,
                }),
                _ => false,
            },
    decreases changes.len(),
{
    if changes.len() > 0 {
        let front = changes.drop_last();
        let n = changes.len() - 1;
        assert(forall|k: int| 0 <= k < front.len() ==> front[k] == changes[k]);
        law_additions_are_all_kept(s, front);
        let now = after_all(s, changes);
        assert(changes[n] is Add);
        assert forall|k: int| 0 <= k < changes.len() implies match #[trigger] changes[k] {
            Change::Add { id, content } => now[s.len() + k] == (TodoView {
                id,
                content,
                completed: false,
            }),
            _ => false,
        } by {
            assert(changes[k] is Add);
            if k < n {
                assert(front[k] == changes[k]);
                assert(now[s.len() + k] == after_all(s, front)[s.len() + k]);
            }
        }
    }
}

/// A filter that is neither `"active"` nor `"completed"`, or no filter at
/// all, lists the whole store.
pub proof fn law_other_filters_list_all(s: Seq<TodoView>, filter: Option<Seq<char>>)
    requires
        filter != Some("active"@),
        filter != Some("completed"@),
    ensures
        listed(s, filter) == s,
        listed(s, filter) == listed(s, Some("all"@)),
    decreases s.len(),
{
    reveal_strlit("all");
    reveal_strlit("active");
    reveal_strlit("completed");
    assert("all"@.len() != "active"@.len());
    assert("all"@.len() != "completed"@.len());
    lemma_keep_all(s, shown_under(filter));
    lemma_keep_all(s, shown_under(Some("all"@)));
}

/// A filter that every record passes changes nothing.
pub proof fn lemma_keep_all(s: Seq<TodoView>, keep: spec_fn(TodoView) -> bool)
    requires
        forall|i: int| 0 <= i < s.len() ==> keep(#[trigger] s[i]),
    ensures
        s.filter(keep) == s,
    decreases s.len(),
{
    reveal_with_fuel(Seq::filter, 1);
    if s.len() > 0 {
        let front = s.drop_last();
        assert(forall|i: int| 0 <= i < front.len() ==> front[i] == s[i]);
        lemma_keep_all(front, keep);
        assert(front.push(s.last()) =~= s);
    }
}

/// The listing under `"active"` holds no completed record, and the listing
/// under `"completed"` holds no other.
pub proof fn law_filtered_listings(s: Seq<TodoView>)
    ensures
        forall|i: int|
            0 <= i < listed(s, Some("active"@)).len() ==> !(#[trigger] listed(
                s,
                Some("active"@),
            )[i]).completed,
        forall|i: int|
            0 <= i < listed(s, Some("completed"@)).len() ==> (#[trigger] listed(
                s,
                Some("completed"@),
            )[i]).completed,
{
    reveal_strlit("active");
    reveal_strlit("completed");
    assert("active"@.len() != "completed"@.len());
    let active = shown_under(Some("active"@));
    let completed = shown_under(Some("completed"@));
    assert forall|i: int| 0 <= i < s.filter(active).len() implies !(#[trigger] s.filter(
        active,
    )[i]).completed by {
        s.lemma_filter_pred(active, i);
    }
    assert forall|i: int| 0 <= i < s.filter(completed).len() implies (#[trigger] s.filter(
        completed,
    )[i]).completed by {
        s.lemma_filter_pred(completed, i);
    }
}

/// After an addition the full listing is the old store followed by exactly
/// one new record, which is not completed and holds the given content; where
/// the id was not in use, no older record carries it.
pub proof fn law_added_todo_is_listed(s: Seq<TodoView>, id: Seq<char>, content: Seq<char>)
    ensures
        listed(appended(s, id, content), Some("all"@)) == s.push(
            TodoView { id, content, completed: false },
        ),
        listed(appended(s, id, content), None) == listed(appended(s, id, content), Some("all"@)),
        !has_id(s, id) ==> forall|i: int| 0 <= i < s.len() ==> (#[trigger] s[i]).id != id,
{
    reveal_strlit("all");
    reveal_strlit("active");
    reveal_strlit("completed");
    assert("all"@.len() != "active"@.len());
    assert("all"@.len() != "completed"@.len());
    law_other_filters_list_all(appended(s, id, content), Some("all"@));
    law_other_filters_list_all(appended(s, id, content), None);
}

/// Removing an id that no record carries changes nothing.
pub proof fn law_remove_unknown_id(s: Seq<TodoView>, id: Seq<char>)
    requires
        !has_id(s, id),
    ensures
        removed(s, id) == s,
{
    lemma_keep_all(s, differs_from(id));
}

/// An update touches one record's content and nothing else: every id and
/// every flag stays, and so does every content but that of the first record
/// that carries the id.
pub proof fn law_update_changes_content_only(s: Seq<TodoView>, id: Seq<char>, content: Seq<char>)
    ensures
        updated(s, id, content).len() == s.len(),
        forall|i: int|
            0 <= i < s.len() ==> (#[trigger] updated(s, id, content)[i]).id == s[i].id && updated(
                s,
                id,
                content,
            )[i].completed == s[i].completed,
        forall|i: int|
            0 <= i < s.len() && !is_first(s, id, i) ==> #[trigger] updated(s, id, content)[i]
                == s[i],
        forall|i: int|
            is_first(s, id, i) ==> (#[trigger] updated(s, id, content)[i]).content == content,
{
    if has_id(s, id) {
        lemma_has_first(s, id);
        assert forall|i: int| is_first(s, id, i) implies (#[trigger] updated(
            s,
            id,
            content,
        )[i]).content == content by {
            lemma_position(s, id, i);
        }
    }
}

/// Toggling a todo flips its flag; toggling it again restores the store.
pub proof fn law_toggle_twice(s: Seq<TodoView>, id: Seq<char>)
    ensures
        has_id(s, id) ==> toggled(s, id)[position(s, id)].completed != s[position(s, id)].completed,
        toggled(toggled(s, id), id) == s,
{
    if has_id(s, id) {
        lemma_has_first(s, id);
        let i = position(s, id);
        let once = toggled(s, id);
        assert(is_first(once, id, i)) by {
            assert forall|j: int| 0 <= j < i implies (#[trigger] once[j]).id != id by {
                assert(s[j].id != id);
            }
        }
        lemma_position(once, id, i);
        assert(toggled(once, id) =~= s);
    }
}

/// Toggling all completes every record unless all were completed, and then
/// clears every flag; ids, contents and order stay.
pub proof fn law_toggle_all_is_uniform(s: Seq<TodoView>)
    ensures
        all_toggled(s).len() == s.len(),
        forall|i: int|
            0 <= i < s.len() ==> #[trigger] all_toggled(s)[i] == flagged(s[i], !all_completed(s)),
        s.len() > 0 && !all_completed(s) ==> all_completed(all_toggled(s)),
{
}

} // verus!

use vstd::prelude::*;
use crate::chars::{chars_of, string_of};
use crate::textops::{trim, trimmed};

verus! {

/// A todo of a project: its text and whether it is done.
pub struct TodoItem {
    pub text: String,
    pub done: bool,
}

/// A todo as plain values.
pub open spec fn todo_view(item: TodoItem) -> (Seq<char>, bool) {
    (item.text@, item.done)
}

/// Todos as plain values.
pub open spec fn todos_view(items: Seq<TodoItem>) -> Seq<(Seq<char>, bool)> {
    items.map_values(|item: TodoItem| todo_view(item))
}

impl TodoItem {
    /// A new, open todo.
    pub fn new(text: String) -> (item: TodoItem)
        ensures
            item.text@ == text@,
            !item.done,
    {
        TodoItem { text, done: false }
    }
}

/// Adds a todo with the trimmed input as its text, unless that is empty.
/// Says whether one was added.
pub fn add_todo(items: &mut Vec<TodoItem>, input: &str) -> (added: bool)
    ensures
        added == (trim(input@).len() > 0),
        added ==> todos_view(final(items)@) == todos_view(old(items)@).push((trim(input@), false)),
        !added ==> todos_view(final(items)@) == todos_view(old(items)@),
{
    let text = trimmed(&chars_of(input));
    if text.len() == 0 {
        return false;
    }
    let ghost before = todos_view(items@);
    items.push(TodoItem::new(string_of(&text)));
    assert(todos_view(items@) =~= before.push((trim(input@), false)));
    true
}

/// Marks the todo at `index` done, or open again; an index past the end
/// changes nothing. Says whether a todo changed.
pub fn toggle_todo(items: &mut Vec<TodoItem>, index: usize) -> (changed: bool)
    ensures
        changed == (index < old(items)@.len()),
        changed ==> todos_view(final(items)@) == todos_view(old(items)@).update(
            index as int,
            (old(items)@[index as int].text@, !old(items)@[index as int].done),
        ),
        !changed ==> todos_view(final(items)@) == todos_view(old(items)@),
{
    if index >= items.len() {
        return false;
    }
    let ghost before = todos_view(items@);
    let done = items[index].done;
    let text = items[index].text.clone();
    items.set(index, TodoItem { text, done: !done });
    assert(todos_view(items@) =~= before.update(index as int, (old(items)@[index as int].text@, !done)));
    true
}

/// Removes the todo at `index`; an index past the end changes nothing.
/// Says whether a todo was removed.
pub fn remove_todo(items: &mut Vec<TodoItem>, index: usize) -> (removed: bool)
    ensures
        removed == (index < old(items)@.len()),
        removed ==> todos_view(final(items)@) == todos_view(old(items)@).remove(index as int),
        !removed ==> todos_view(final(items)@) == todos_view(old(items)@),
{
    if index >= items.len() {
        return false;
    }
    let ghost before = todos_view(items@);
    items.remove(index);
    assert(todos_view(items@) =~= before.remove(index as int));
    true
}

/// The positions of the todos with the given state, in order.
pub open spec fn todos_with(items: Seq<(Seq<char>, bool)>, done: bool) -> Seq<usize>
    decreases items.len(),
{
    if items.len() == 0 {
        Seq::empty()
    } else if items.last().1 == done {
        todos_with(items.drop_last(), done).push((items.len() - 1) as usize)
    } else {
        todos_with(items.drop_last(), done)
    }
}

/// The order the list shows todos in: the open ones, then the done ones,
/// each in their order; with how many are open.
pub fn todo_display_order(items: &Vec<TodoItem>) -> (order: (Vec<usize>, usize))
    ensures
        order.0@ == todos_with(todos_view(items@), false) + todos_with(todos_view(items@), true),
        order.1 == todos_with(todos_view(items@), false).len(),
{
    let ghost view = todos_view(items@);
    let mut open: Vec<usize> = Vec::new();
    let mut done: Vec<usize> = Vec::new();
    let mut i: usize = 0;
    while i < items.len()
        invariant
            i <= items@.len(),
            view == todos_view(items@),
            open@ == todos_with(view.subrange(0, i as int), false),
            done@ == todos_with(view.subrange(0, i as int), true),
        decreases items@.len() - i,
    {
        let ghost next = view.subrange(0, i + 1);
        assert(next.drop_last() =~= view.subrange(0, i as int));
        assert(next.last() == todo_view(items@[i as int]));
        if items[i].done {
            done.push(i);
        } else {
            open.push(i);
        }
        i = i + 1;
    }
    assert(view.subrange(0, view.len() as int) =~= view);
    let count = open.len();
    let mut k: usize = 0;
    let ghost open_part = open@;
    while k < done.len()
        invariant
            k <= done@.len(),
            open@ == open_part + done@.subrange(0, k as int),
        decreases done@.len() - k,
    {
        open.push(done[k]);
        assert(done@.subrange(0, k + 1) =~= done@.subrange(0, k as int).push(done@[k as int]));
        assert(open@ =~= open_part + done@.subrange(0, k + 1));
        k = k + 1;
    }
    assert(done@.subrange(0, done@.len() as int) =~= done@);
    (open, count)
}

/// Marking a todo twice gives the list back as it was.
pub proof fn law_toggling_twice_restores(items: Seq<(Seq<char>, bool)>, index: int)
    requires
        0 <= index < items.len(),
    ensures
        ({
            let once = items.update(index, (items[index].0, !items[index].1));
            once.update(index, (once[index].0, !once[index].1)) == items
        }),
{
    let once = items.update(index, (items[index].0, !items[index].1));
    assert(once.update(index, (once[index].0, !once[index].1)) =~= items);
}

/// Removing the todo just added gives the list back as it was.
pub proof fn law_removing_the_added_todo_restores(items: Seq<(Seq<char>, bool)>, text: Seq<char>)
    ensures
        items.push((text, false)).remove(items.len() as int) == items,
{
    assert(items.push((text, false)).remove(items.len() as int) =~= items);
}

proof fn lemma_todos_with(items: Seq<(Seq<char>, bool)>, done: bool)
    requires
        items.len() <= usize::MAX,
    ensures
        forall|i: int| 0 <= i < items.len() ==> (items[i].1 == done <==> #[trigger] todos_with(items, done).contains(i as usize)),
        forall|k: int| 0 <= k < todos_with(items, done).len() ==> #[trigger] todos_with(items, done)[k] < items.len(),
    decreases items.len(),
{
    if items.len() > 0 {
        let rest = items.drop_last();
        lemma_todos_with(rest, done);
        let e = todos_with(rest, done);
        let last = (items.len() - 1) as usize;
        assert(last as int == items.len() - 1);
        if items.last().1 == done {
            let n = e.push(last);
            assert forall|i: int| 0 <= i < items.len() implies (items[i].1 == done <==> #[trigger] n.contains(i as usize)) by {
                if i < items.len() - 1 {
                    assert(rest[i] == items[i]);
                    if e.contains(i as usize) {
                        let k = choose|k: int| 0 <= k < e.len() && e[k] == i as usize;
                        assert(n[k] == e[k]);
                    }
                    if n.contains(i as usize) {
                        let k = choose|k: int| 0 <= k < n.len() && n[k] == i as usize;
                        if k < e.len() {
                            assert(e[k] == n[k]);
                        }
                    }
                } else {
                    assert(n[e.len() as int] == last);
                }
            }
            assert forall|k: int| 0 <= k < n.len() implies #[trigger] n[k] < items.len() by {
                if k < e.len() {
                    assert(n[k] == e[k]);
                }
            }
        } else {
            assert forall|i: int| 0 <= i < items.len() implies (items[i].1 == done <==> #[trigger] e.contains(i as usize)) by {
                if i < items.len() - 1 {
                    assert(rest[i] == items[i]);
                } else if e.contains(i as usize) {
                    let k = choose|k: int| 0 <= k < e.len() && e[k] == i as usize;
                }
            }
        }
    }
}

proof fn lemma_todos_split_len(items: Seq<(Seq<char>, bool)>)
    ensures
        todos_with(items, false).len() + todos_with(items, true).len() == items.len(),
    decreases items.len(),
{
    if items.len() > 0 {
        lemma_todos_split_len(items.drop_last());
    }
}

/// The list shows every todo once: the open ones and the done ones
/// together are all of them, as many as there are.
pub proof fn law_display_shows_every_todo(items: Seq<(Seq<char>, bool)>, i: int)
    requires
        0 <= i < items.len(),
        items.len() <= usize::MAX,
    ensures
        (todos_with(items, false) + todos_with(items, true)).contains(i as usize),
        (todos_with(items, false) + todos_with(items, true)).len() == items.len(),
{
    lemma_todos_with(items, false);
    lemma_todos_with(items, true);
    lemma_todos_split_len(items);
    let a = todos_with(items, false);
    let b = todos_with(items, true);
    if items[i].1 {
        assert(b.contains(i as usize));
        let k = choose|k: int| 0 <= k < b.len() && b[k] == i as usize;
        assert((a + b)[a.len() + k] == i as usize);
    } else {
        assert(a.contains(i as usize));
        let k = choose|k: int| 0 <= k < a.len() && a[k] == i as usize;
        assert((a + b)[k] == i as usize);
    }
}

} // verus!
